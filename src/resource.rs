use vstd::prelude::*;

use crate::bridge::views;
use crate::mime::{get_mime_type, mime_of, str_equals};

verus! {

/// `s` without the run of `c` it starts with.
pub open spec fn strip_leading(s: Seq<char>, c: char) -> Seq<char>
    decreases s.len(),
{
    if s.len() > 0 && s[0] == c {
        strip_leading(s.drop_first(), c)
    } else {
        s
    }
}

/// The pieces of `s` between occurrences of `c` (always at least one, possibly empty).
pub open spec fn split_on(s: Seq<char>, c: char) -> Seq<Seq<char>>
    decreases s.len(),
{
    if s.len() == 0 {
        seq![Seq::empty()]
    } else {
        let rest = split_on(s.drop_last(), c);
        if s.last() == c {
            rest.push(Seq::empty())
        } else {
            rest.update(rest.len() - 1, rest.last().push(s.last()))
        }
    }
}

/// The directory stack after one more segment: `..` leaves the innermost
/// directory (at the top it stays), `.` and an empty segment stay, and any
/// other name enters that directory.
pub open spec fn apply_segment(stack: Seq<Seq<char>>, seg: Seq<char>) -> Seq<Seq<char>> {
    if seg == ".."@ {
        if stack.len() > 0 {
            stack.drop_last()
        } else {
            stack
        }
    } else if seg == "."@ || seg.len() == 0 {
        stack
    } else {
        stack.push(seg)
    }
}

/// The directory stack after walking `segs` from `stack`.
pub open spec fn walk(stack: Seq<Seq<char>>, segs: Seq<Seq<char>>) -> Seq<Seq<char>>
    decreases segs.len(),
{
    if segs.len() == 0 {
        stack
    } else {
        apply_segment(walk(stack, segs.drop_last()), segs.last())
    }
}

/// The names of `path` from the top, with `.`, `..` and empty segments resolved lexically.
pub open spec fn normal_segments(path: Seq<char>) -> Seq<Seq<char>> {
    walk(Seq::empty(), split_on(path, '/'))
}

/// Whether `rel`, joined onto `root` and resolved lexically, ends at `root`
/// or below it. A path may pass above `root` on its way and still end inside.
pub open spec fn lands_within(root: Seq<char>, rel: Seq<char>) -> bool {
    let base = normal_segments(root);
    let end = walk(base, split_on(rel, '/'));
    &&& base.len() <= end.len()
    &&& end.subrange(0, base.len() as int) == base
}

/// The request path, read as relative to the application root.
pub open spec fn relative_of(virtual_path: Seq<char>) -> Seq<char> {
    strip_leading(virtual_path, '/')
}

/// Whether a requested path, resolved lexically from `root`, ends outside it.
pub open spec fn request_escapes(root: Seq<char>, virtual_path: Seq<char>) -> bool {
    !lands_within(root, relative_of(virtual_path))
}

/// Whether the resolved path `p` is the directory `root` or lies below it,
/// compared segment by segment (`/app` does not contain `/application`).
pub open spec fn is_within(root: Seq<char>, p: Seq<char>) -> bool {
    &&& root.len() <= p.len()
    &&& p.subrange(0, root.len() as int) == root
    &&& (p.len() == root.len() || (root.len() > 0 && root.last() == '/') || p[root.len() as int]
        == '/')
}

/// Outcome of serving a resource request.
#[derive(PartialEq, Eq, Structural, Clone, Copy, Debug)]
pub enum ServeStatus {
    Served,
    NotFound,
    Forbidden,
}

/// What the filesystem reported for the requested path, after canonicalisation.
pub enum Lookup {
    /// Nothing exists there, or it could not be canonicalised.
    Missing,
    /// Something exists there that is not a regular file.
    NotRegular { canonical: String },
    /// A regular file, with its canonical path and its full content.
    Regular { canonical: String, content: Vec<u8> },
}

/// Response to a resource request: a status, a content type and the body bytes.
pub struct ResourceResponse {
    pub status: ServeStatus,
    pub content_type: String,
    pub body: Vec<u8>,
}

/// Whether the place a request reaches lies outside the application root.
/// Where the filesystem gave a canonical path, that path alone decides, so a
/// link followed by `..` that ends inside the root is inside. Where nothing
/// could be resolved, the request's own segments decide.
pub open spec fn reaches_outside(root: Seq<char>, virtual_path: Seq<char>, lookup: Lookup) -> bool {
    match lookup {
        Lookup::Missing => request_escapes(root, virtual_path),
        Lookup::NotRegular { canonical } => !is_within(root, canonical@),
        Lookup::Regular { canonical, content } => !is_within(root, canonical@),
    }
}

/// The status with which a request is answered, given what the filesystem reported.
pub open spec fn serve_status(root: Seq<char>, virtual_path: Seq<char>, lookup: Lookup) -> ServeStatus {
    if reaches_outside(root, virtual_path, lookup) {
        ServeStatus::Forbidden
    } else if lookup is Regular {
        ServeStatus::Served
    } else {
        ServeStatus::NotFound
    }
}

/// The body sent for a given lookup and status: the file content on success, else nothing.
pub open spec fn serve_body(status: ServeStatus, lookup: Lookup) -> Seq<u8> {
    match lookup {
        Lookup::Regular { canonical, content } => if status == ServeStatus::Served {
            content@
        } else {
            Seq::empty()
        },
        _ => Seq::empty(),
    }
}

/// `s` without its leading `/` characters.
pub fn strip_leading_separators(s: &str) -> (r: &str)
    ensures
        r@ == strip_leading(s@, '/'),
{
    let n = s.unicode_len();
    let mut i: usize = 0;
    assert(s@.subrange(0, n as int) == s@);
    while i < n && s.get_char(i) == '/'
        invariant
            n == s@.len(),
            i <= n,
            strip_leading(s@, '/') == strip_leading(s@.subrange(i as int, n as int), '/'),
        decreases n - i,
    {
        assert(s@.subrange(i as int, n as int).drop_first() == s@.subrange(i + 1, n as int));
        i = i + 1;
    }
    s.substring_char(i, n)
}

fn apply_segment_to(stack: &mut Vec<String>, seg: &str)
    ensures
        views(final(stack)@) == apply_segment(views(old(stack)@), seg@),
{
    if str_equals(seg, "..") {
        if stack.len() > 0 {
            stack.pop();
            assert(views(stack@) =~= views(old(stack)@).drop_last());
        }
    } else if str_equals(seg, ".") || seg.unicode_len() == 0 {
    } else {
        stack.push(String::from_str(seg));
        assert(views(stack@) =~= views(old(stack)@).push(seg@));
    }
}

/// Walks the segments of `path` onto the directory stack.
fn walk_path(stack: &mut Vec<String>, path: &str)
    ensures
        views(final(stack)@) == walk(views(old(stack)@), split_on(path@, '/')),
{
    let ghost init = views(stack@);
    let n = path.unicode_len();
    let mut i: usize = 0;
    let mut start: usize = 0;
    let ghost mut done: Seq<Seq<char>> = Seq::empty();
    assert(path@.subrange(0, 0) == Seq::<char>::empty());
    while i < n
        invariant
            n == path@.len(),
            start <= i <= n,
            split_on(path@.subrange(0, i as int), '/') == done.push(path@.subrange(start as int, i as int)),
            views(stack@) == walk(init, done),
        decreases n - i,
    {
        let ghost pre = path@.subrange(0, i + 1);
        assert(pre.drop_last() == path@.subrange(0, i as int));
        if path.get_char(i) == '/' {
            let seg = path.substring_char(start, i);
            let ghost grown = done.push(seg@);
            assert(grown.drop_last() == done);
            apply_segment_to(stack, seg);
            proof {
                done = grown;
            }
            start = i + 1;
            assert(path@.subrange(start as int, i + 1) == Seq::<char>::empty());
        } else {
            assert(path@.subrange(start as int, i + 1) == path@.subrange(start as int, i as int).push(
                path@[i as int],
            ));
        }
        i = i + 1;
    }
    assert(path@.subrange(0, n as int) == path@);
    let last = path.substring_char(start, n);
    let ghost all = done.push(last@);
    assert(all.drop_last() == done);
    apply_segment_to(stack, last);
}

/// Whether `rel`, joined onto `root` and resolved lexically, ends at `root` or below it.
pub fn lands_within_root(root: &str, rel: &str) -> (r: bool)
    ensures
        r == lands_within(root@, rel@),
{
    let mut base: Vec<String> = Vec::new();
    assert(views(base@) =~= Seq::<Seq<char>>::empty());
    walk_path(&mut base, root);
    let mut end: Vec<String> = Vec::new();
    assert(views(end@) =~= Seq::<Seq<char>>::empty());
    walk_path(&mut end, root);
    walk_path(&mut end, rel);
    let ghost b = views(base@);
    let ghost e = views(end@);
    if base.len() > end.len() {
        return false;
    }
    let mut i: usize = 0;
    while i < base.len()
        invariant
            b == views(base@),
            e == views(end@),
            b == normal_segments(root@),
            e == walk(b, split_on(rel@, '/')),
            base@.len() <= end@.len(),
            i <= base@.len(),
            e.subrange(0, i as int) == b.subrange(0, i as int),
        decreases base@.len() - i,
    {
        assert(b[i as int] == base@[i as int]@);
        assert(e[i as int] == end@[i as int]@);
        if !str_equals(base[i].as_str(), end[i].as_str()) {
            assert(e.subrange(0, b.len() as int)[i as int] != b[i as int]);
            return false;
        }
        assert(e.subrange(0, i + 1) == e.subrange(0, i as int).push(e[i as int]));
        assert(b.subrange(0, i + 1) == b.subrange(0, i as int).push(b[i as int]));
        i = i + 1;
    }
    assert(b.subrange(0, b.len() as int) == b);
    true
}

/// Whether the resolved path `p` is `root` itself or lies below it.
pub fn path_is_within(root: &str, p: &str) -> (r: bool)
    ensures
        r == is_within(root@, p@),
{
    let n = root.unicode_len();
    let m = p.unicode_len();
    if n > m {
        return false;
    }
    if !str_equals(p.substring_char(0, n), root) {
        return false;
    }
    m == n || (n > 0 && root.get_char(n - 1) == '/') || p.get_char(n) == '/'
}

/// Answers a request for `virtual_path` under the application directory `root`,
/// given what the filesystem reported for it. A request that reaches outside
/// `root`, by its `..` segments or through a link, is forbidden whether or not
/// anything exists there.
pub fn serve(root: &str, virtual_path: &str, lookup: Lookup) -> (r: ResourceResponse)
    ensures
        r.status == serve_status(root@, virtual_path@, lookup),
        r.body@ == serve_body(r.status, lookup),
        r.status == ServeStatus::Served ==> r.content_type@ == mime_of(relative_of(virtual_path@)),
        r.status != ServeStatus::Served ==> r.content_type@ == Seq::<char>::empty(),
{
    let rel = strip_leading_separators(virtual_path);
    match lookup {
        Lookup::Missing => {
            if lands_within_root(root, rel) {
                refuse(ServeStatus::NotFound)
            } else {
                refuse(ServeStatus::Forbidden)
            }
        },
        Lookup::NotRegular { canonical } => {
            if path_is_within(root, canonical.as_str()) {
                refuse(ServeStatus::NotFound)
            } else {
                refuse(ServeStatus::Forbidden)
            }
        },
        Lookup::Regular { canonical, content } => {
            if path_is_within(root, canonical.as_str()) {
                ResourceResponse {
                    status: ServeStatus::Served,
                    content_type: String::from_str(get_mime_type(rel)),
                    body: content,
                }
            } else {
                refuse(ServeStatus::Forbidden)
            }
        },
    }
}

/// A response with the given status and no content.
fn refuse(status: ServeStatus) -> (r: ResourceResponse)
    ensures
        r.status == status,
        r.content_type@ == Seq::<char>::empty(),
        r.body@ == Seq::<u8>::empty(),
{
    ResourceResponse { status, content_type: String::new(), body: Vec::new() }
}

impl ResourceResponse {
    /// The HTTP status sent to the page: 200 on success, 404 for every other
    /// outcome (a forbidden request is not told apart from a missing one).
    pub fn http_status(&self) -> (r: u16)
        ensures
            r == (if self.status == ServeStatus::Served { 200u16 } else { 404u16 }),
    {
        match self.status {
            ServeStatus::Served => 200,
            _ => 404,
        }
    }
}

/// A request that reaches outside the application root is forbidden and
/// nothing of that place is sent: the canonical path decides when the
/// filesystem gave one, and the request's `..` segments decide when it gave
/// none, so an escape is forbidden whether or not its target exists.
pub proof fn lemma_escaping_request_forbidden(root: Seq<char>, virtual_path: Seq<char>, lookup: Lookup)
    requires
        reaches_outside(root, virtual_path, lookup),
    ensures
        serve_status(root, virtual_path, lookup) == ServeStatus::Forbidden,
        serve_body(serve_status(root, virtual_path, lookup), lookup) == Seq::<u8>::empty(),
{
}

/// A request whose `..` segments lead out of the root, and whose target
/// either does not exist or resolves outside the root, is forbidden.
pub proof fn lemma_lexical_escape_forbidden(root: Seq<char>, virtual_path: Seq<char>, lookup: Lookup)
    requires
        request_escapes(root, virtual_path),
        match lookup {
            Lookup::Missing => true,
            Lookup::NotRegular { canonical } => !is_within(root, canonical@),
            Lookup::Regular { canonical, content } => !is_within(root, canonical@),
        },
    ensures
        serve_status(root, virtual_path, lookup) == ServeStatus::Forbidden,
        serve_body(ServeStatus::Forbidden, lookup) == Seq::<u8>::empty(),
{
}

/// A regular file that lies under the application root is served with
/// exactly its bytes, whatever path reached it.
pub proof fn lemma_file_under_root_served(
    root: Seq<char>,
    virtual_path: Seq<char>,
    canonical: String,
    content: Vec<u8>,
)
    requires
        is_within(root, canonical@),
    ensures
        serve_status(root, virtual_path, Lookup::Regular { canonical, content })
            == ServeStatus::Served,
        serve_body(ServeStatus::Served, Lookup::Regular { canonical, content }) == content@,
{
}

} // verus!
