use vstd::prelude::*;

use crate::bridge::CommandOutcome;

verus! {

/// Lower-case hexadecimal digit for `d` (below 16).
pub open spec fn hex_char(d: u32) -> char {
    "0123456789abcdef"@[d as int]
}

/// How one character is written inside a JSON string: a quote, a backslash
/// and the control characters below U+0020 are escaped, the short forms
/// used where JSON has one; every other character stands as itself.
pub open spec fn json_escape_char(c: char) -> Seq<char> {
    if c == '"' {
        seq!['\\', '"']
    } else if c == '\\' {
        seq!['\\', '\\']
    } else if c == '\u{8}' {
        seq!['\\', 'b']
    } else if c == '\t' {
        seq!['\\', 't']
    } else if c == '\n' {
        seq!['\\', 'n']
    } else if c == '\u{c}' {
        seq!['\\', 'f']
    } else if c == '\r' {
        seq!['\\', 'r']
    } else if (c as u32) < 0x20 {
        seq!['\\', 'u', '0', '0', hex_char((c as u32) / 16), hex_char((c as u32) % 16)]
    } else {
        seq![c]
    }
}

/// The characters of `s`, each escaped as inside a JSON string.
pub open spec fn json_escaped(s: Seq<char>) -> Seq<char>
    decreases s.len(),
{
    if s.len() == 0 {
        Seq::empty()
    } else {
        json_escaped(s.drop_last()) + json_escape_char(s.last())
    }
}

/// The JSON string literal for the text `s`: its escaped characters between quotes.
pub open spec fn json_string_of(s: Seq<char>) -> Seq<char> {
    seq!['"'] + json_escaped(s) + seq!['"']
}

/// Relies on `serde_json::to_string` on a `str`: it writes the text between
/// quotes, escaping a quote, a backslash and each control character below
/// U+0020 (`\b \t \n \f \r`, else `\u00` and two lower-case hex digits).
/// Writing into memory cannot fail, so the error arm is never taken.
#[verifier::external_body]
fn json_string(s: &str) -> (r: String)
    ensures
        r@ == json_string_of(s@),
{
    serde_json::to_string(s).unwrap_or_default()
}

/// The decimal digit for `d`.
pub open spec fn digit_char(d: nat) -> char {
    "0123456789"@[d as int]
}

/// Decimal digits of `n`, most significant first, without leading zeros.
pub open spec fn digits_of(n: nat) -> Seq<char>
    decreases n,
{
    if n < 10 {
        seq![digit_char(n)]
    } else {
        digits_of(n / 10).push(digit_char(n % 10))
    }
}

/// Decimal text of the integer `n`, with a leading `-` when it is negative.
pub open spec fn decimal_of(n: int) -> Seq<char> {
    if n < 0 {
        seq!['-'] + digits_of((-n) as nat)
    } else {
        digits_of(n as nat)
    }
}

/// The JSON text of the optional error: `null`, or a JSON string.
pub open spec fn json_error_of(e: Option<String>) -> Seq<char> {
    match e {
        Some(t) => json_string_of(t@),
        None => "null"@,
    }
}

/// The outcome message sent to the page, with its fields in a fixed order.
pub open spec fn outcome_json(o: CommandOutcome) -> Seq<char> {
    "{\"id\":"@ + json_string_of(o.id@) + ",\"stdout\":"@ + json_string_of(o.stdout@)
        + ",\"stderr\":"@ + json_string_of(o.stderr@) + ",\"exit_code\":"@ + decimal_of(
        o.exit_code as int,
    ) + ",\"error\":"@ + json_error_of(o.error) + "}"@
}

fn push_digits(n: u64, out: &mut String)
    ensures
        final(out)@ == old(out)@ + digits_of(n as nat),
    decreases n,
{
    if n >= 10 {
        push_digits(n / 10, out);
    }
    let d = (n % 10) as usize;
    proof {
        reveal_strlit("0123456789");
    }
    let table = "0123456789";
    out.append(table.substring_char(d, d + 1));
    assert(table@.subrange(d as int, d + 1) == seq![digit_char(d as nat)]);
    assert(n as nat % 10 == d);
}

/// Decimal text of `n`.
pub fn decimal(n: i32) -> (r: String)
    ensures
        r@ == decimal_of(n as int),
{
    let mut out = String::new();
    if n < 0 {
        out.append("-");
        proof {
            reveal_strlit("-");
        }
        let m: i64 = -(n as i64);
        push_digits(m as u64, &mut out);
    } else {
        push_digits(n as u64, &mut out);
    }
    out
}

/// Encodes an outcome as the JSON message delivered to the page.
pub fn encode_outcome(o: &CommandOutcome) -> (r: String)
    ensures
        r@ == outcome_json(*o),
{
    let mut out = String::from_str("{\"id\":");
    out.append(json_string(o.id.as_str()).as_str());
    out.append(",\"stdout\":");
    out.append(json_string(o.stdout.as_str()).as_str());
    out.append(",\"stderr\":");
    out.append(json_string(o.stderr.as_str()).as_str());
    out.append(",\"exit_code\":");
    out.append(decimal(o.exit_code).as_str());
    out.append(",\"error\":");
    match &o.error {
        Some(e) => out.append(json_string(e.as_str()).as_str()),
        None => out.append("null"),
    }
    out.append("}");
    out
}

} // verus!
