use vstd::prelude::*;

verus! {

/// What follows the last occurrence of `c` in `s`; all of `s` when `c` does not occur.
pub open spec fn after_last(s: Seq<char>, c: char) -> Seq<char>
    decreases s.len(),
{
    if s.len() == 0 {
        s
    } else if s.last() == c {
        Seq::empty()
    } else {
        after_last(s.drop_last(), c).push(s.last())
    }
}

/// `path` without what follows its last name: trailing `/` characters and
/// trailing `.` segments are dropped (`a/b/./` becomes `a/b`).
pub open spec fn trim_trailing(path: Seq<char>) -> Seq<char>
    decreases path.len(),
{
    if path.len() > 0 && path.last() == '/' {
        trim_trailing(path.drop_last())
    } else if path.len() > 0 && path.last() == '.' && (path.len() == 1 || path[path.len() - 2]
        == '/') {
        trim_trailing(path.drop_last())
    } else {
        path
    }
}

/// The file name of a `/`-separated path, as `std::path::Path::file_name`
/// reads it: the last segment once trailing separators and `.` segments are
/// dropped; none (empty) when that segment is `..`.
pub open spec fn file_name_of(path: Seq<char>) -> Seq<char> {
    let name = after_last(trim_trailing(path), '/');
    if name == ".."@ {
        Seq::empty()
    } else {
        name
    }
}

/// The extension of a path: what follows the last `.` of its final segment.
/// A segment without a `.`, or whose only `.` is its first character
/// (a hidden file such as `.profile`), has no extension.
pub open spec fn extension_of(path: Seq<char>) -> Seq<char> {
    let name = file_name_of(path);
    let ext = after_last(name, '.');
    if !name.contains('.') || ext.len() + 1 == name.len() {
        Seq::empty()
    } else {
        ext
    }
}

/// The fixed table from extension to content type.
pub open spec fn mime_for_extension(ext: Seq<char>) -> Seq<char> {
    if ext == "html"@ {
        "text/html"@
    } else if ext == "css"@ {
        "text/css"@
    } else if ext == "js"@ {
        "application/javascript"@
    } else if ext == "json"@ {
        "application/json"@
    } else if ext == "png"@ {
        "image/png"@
    } else if ext == "jpg"@ || ext == "jpeg"@ {
        "image/jpeg"@
    } else if ext == "gif"@ {
        "image/gif"@
    } else if ext == "svg"@ {
        "image/svg+xml"@
    } else {
        "application/octet-stream"@
    }
}

/// The content type of the file at `path`, by its extension.
pub open spec fn mime_of(path: Seq<char>) -> Seq<char> {
    mime_for_extension(extension_of(path))
}

/// Whether two strings hold the same characters.
pub fn str_equals(a: &str, b: &str) -> (r: bool)
    ensures
        r == (a@ == b@),
{
    let n = a.unicode_len();
    if n != b.unicode_len() {
        return false;
    }
    let mut i: usize = 0;
    while i < n
        invariant
            n == a@.len(),
            n == b@.len(),
            i <= n,
            a@.subrange(0, i as int) == b@.subrange(0, i as int),
        decreases n - i,
    {
        if a.get_char(i) != b.get_char(i) {
            assert(a@[i as int] != b@[i as int]);
            return false;
        }
        assert(a@.subrange(0, i + 1) == a@.subrange(0, i as int).push(a@[i as int]));
        assert(b@.subrange(0, i + 1) == b@.subrange(0, i as int).push(b@[i as int]));
        i = i + 1;
    }
    assert(a@ == a@.subrange(0, n as int));
    assert(b@ == b@.subrange(0, n as int));
    true
}

/// Index at which the part of `s` after its last `c` begins (0 when `c` does not occur).
pub fn after_last_start(s: &str, c: char) -> (k: usize)
    ensures
        k <= s@.len(),
        s@.subrange(k as int, s@.len() as int) == after_last(s@, c),
        k > 0 ==> s@[k - 1] == c,
        k == 0 <==> !s@.contains(c),
{
    let n = s.unicode_len();
    let mut i: usize = n;
    assert(s@.subrange(n as int, n as int) == Seq::<char>::empty());
    assert(s@.subrange(0, n as int) == s@);
    while i > 0
        invariant
            n == s@.len(),
            i <= n,
            after_last(s@, c) == after_last(s@.subrange(0, i as int), c) + s@.subrange(
                i as int,
                n as int,
            ),
            forall|j: int| i <= j < n ==> s@[j] != c,
        decreases i,
    {
        let ghost pre = s@.subrange(0, i as int);
        assert(pre.drop_last() == s@.subrange(0, i - 1));
        if s.get_char(i - 1) == c {
            assert(after_last(pre, c) == Seq::<char>::empty());
            assert(after_last(s@, c) == s@.subrange(i as int, n as int));
            assert(s@.contains(c)) by {
                assert(s@[i - 1] == c);
            }
            return i;
        }
        assert(after_last(pre, c) == after_last(s@.subrange(0, i - 1), c).push(s@[i - 1]));
        assert(s@.subrange(i - 1, n as int) == seq![s@[i - 1]] + s@.subrange(i as int, n as int));
        i = i - 1;
    }
    assert(s@.subrange(0, 0) == Seq::<char>::empty());
    assert(s@.subrange(0, n as int) == s@);
    assert(!s@.contains(c)) by {
        if s@.contains(c) {
            let j = choose|j: int| 0 <= j < s@.len() && s@[j] == c;
            assert(s@[j] != c);
        }
    }
    0
}

/// Length of the part of `path` that `trim_trailing` keeps.
fn trimmed_len(path: &str) -> (k: usize)
    ensures
        k <= path@.len(),
        path@.subrange(0, k as int) == trim_trailing(path@),
{
    let n = path.unicode_len();
    let mut k: usize = n;
    assert(path@.subrange(0, n as int) == path@);
    while k > 0 && (path.get_char(k - 1) == '/' || (path.get_char(k - 1) == '.' && (k == 1
        || path.get_char(k - 2) == '/')))
        invariant
            n == path@.len(),
            k <= n,
            trim_trailing(path@) == trim_trailing(path@.subrange(0, k as int)),
        decreases k,
    {
        assert(path@.subrange(0, k as int).drop_last() == path@.subrange(0, k - 1));
        k = k - 1;
    }
    let ghost kept = path@.subrange(0, k as int);
    assert(trim_trailing(kept) == kept) by {
        if k == 1 {
            assert(kept[0] == path@[0]);
        }
        if k >= 2 {
            assert(kept[k - 2] == path@[k - 2]);
        }
    }
    k
}

/// Content type of the file at `path`, from the fixed table of extensions.
pub fn get_mime_type(path: &str) -> (r: &'static str)
    ensures
        r@ == mime_of(path@),
{
    let n = trimmed_len(path);
    let kept = path.substring_char(0, n);
    let start = after_last_start(kept, '/');
    let last = kept.substring_char(start, n);
    let name = if str_equals(last, "..") {
        last.substring_char(0, 0)
    } else {
        last
    };
    let m = name.unicode_len();
    let dot = after_last_start(name, '.');
    let ext = if dot <= 1 {
        name.substring_char(m, m)
    } else {
        name.substring_char(dot, m)
    };
    assert(ext@ == extension_of(path@));
    if str_equals(ext, "html") {
        "text/html"
    } else if str_equals(ext, "css") {
        "text/css"
    } else if str_equals(ext, "js") {
        "application/javascript"
    } else if str_equals(ext, "json") {
        "application/json"
    } else if str_equals(ext, "png") {
        "image/png"
    } else if str_equals(ext, "jpg") || str_equals(ext, "jpeg") {
        "image/jpeg"
    } else if str_equals(ext, "gif") {
        "image/gif"
    } else if str_equals(ext, "svg") {
        "image/svg+xml"
    } else {
        "application/octet-stream"
    }
}

} // verus!
