//! Text helpers: decimal numbers, CSV fields and file names.
use vstd::prelude::*;
use vstd::string::{StrSliceExecFns, StringExecFns};
use crate::support::string_from_chars;

verus! {

/// The character of a decimal digit.
pub open spec fn digit_char(d: nat) -> char {
    if d == 0 { '0' }
    else if d == 1 { '1' }
    else if d == 2 { '2' }
    else if d == 3 { '3' }
    else if d == 4 { '4' }
    else if d == 5 { '5' }
    else if d == 6 { '6' }
    else if d == 7 { '7' }
    else if d == 8 { '8' }
    else { '9' }
}

/// The decimal digits of `n`, most significant first, without leading zeros.
pub open spec fn decimal(n: nat) -> Seq<char>
    decreases n,
{
    if n < 10 {
        seq![digit_char(n)]
    } else {
        decimal(n / 10).push(digit_char(n % 10))
    }
}

fn digit_str(d: u32) -> (r: &'static str)
    requires
        d < 10,
    ensures
        r@ == seq![digit_char(d as nat)],
{
    proof {
        reveal_strlit("0");
        reveal_strlit("1");
        reveal_strlit("2");
        reveal_strlit("3");
        reveal_strlit("4");
        reveal_strlit("5");
        reveal_strlit("6");
        reveal_strlit("7");
        reveal_strlit("8");
        reveal_strlit("9");
    }
    if d == 0 { "0" }
    else if d == 1 { "1" }
    else if d == 2 { "2" }
    else if d == 3 { "3" }
    else if d == 4 { "4" }
    else if d == 5 { "5" }
    else if d == 6 { "6" }
    else if d == 7 { "7" }
    else if d == 8 { "8" }
    else { "9" }
}

/// `n` written in decimal.
pub fn decimal_string(n: u32) -> (r: String)
    ensures
        r@ == decimal(n as nat),
    decreases n,
{
    if n < 10 {
        digit_str(n).to_string()
    } else {
        let mut s = decimal_string(n / 10);
        s.append(digit_str(n % 10));
        s
    }
}

/// A CSV field needs quoting when it holds a comma, a quote or a line break.
pub open spec fn needs_quoting(s: Seq<char>) -> bool {
    s.contains(',') || s.contains('"') || s.contains('\n') || s.contains('\r')
}

/// `s` as a CSV field: quoted, with inner quotes doubled, where it needs
/// quoting; otherwise as it is.
pub open spec fn csv_field(s: Seq<char>) -> Seq<char> {
    if needs_quoting(s) {
        "\""@ + substitute(s, '"', "\"\""@) + "\""@
    } else {
        s
    }
}

/// `value` as a CSV field.
pub fn csv_escape(value: &str) -> (r: String)
    ensures
        r@ == csv_field(value@),
{
    let n = value.unicode_len();
    let mut i: usize = 0;
    let mut quote = false;
    while i < n
        invariant
            n == value@.len(),
            i <= n,
            quote == exists|j: int| 0 <= j < i && (#[trigger] value@[j] == ',' || value@[j] == '"'
                || value@[j] == '\n' || value@[j] == '\r'),
        decreases n - i,
    {
        let c = value.get_char(i);
        if c == ',' || c == '"' || c == '\n' || c == '\r' {
            quote = true;
        }
        i += 1;
    }
    proof {
        if quote {
            let j = choose|j: int| 0 <= j < n && (#[trigger] value@[j] == ',' || value@[j] == '"'
                || value@[j] == '\n' || value@[j] == '\r');
            assert(value@[j] == ',' ==> value@.contains(','));
            assert(value@[j] == '"' ==> value@.contains('"'));
            assert(value@[j] == '\n' ==> value@.contains('\n'));
            assert(value@[j] == '\r' ==> value@.contains('\r'));
        }
        if needs_quoting(value@) {
            if value@.contains(',') {
                let j = choose|j: int| 0 <= j < n && value@[j] == ',';
                assert(value@[j] == ',');
            } else if value@.contains('"') {
                let j = choose|j: int| 0 <= j < n && value@[j] == '"';
                assert(value@[j] == '"');
            } else if value@.contains('\n') {
                let j = choose|j: int| 0 <= j < n && value@[j] == '\n';
                assert(value@[j] == '\n');
            } else {
                let j = choose|j: int| 0 <= j < n && value@[j] == '\r';
                assert(value@[j] == '\r');
            }
        }
    }
    if quote {
        let mut r = "\"".to_string();
        let inner = replace_all(value, '"', "\"\"");
        r.append(inner.as_str());
        r.append("\"");
        r
    } else {
        value.to_string()
    }
}

/// Unicode's white space, as `char::is_whitespace` has it.
pub open spec fn is_space(c: char) -> bool {
    ('\u{9}' <= c <= '\u{d}') || c == ' ' || c == '\u{85}' || c == '\u{a0}' || c == '\u{1680}'
        || ('\u{2000}' <= c <= '\u{200a}') || c == '\u{2028}' || c == '\u{2029}' || c == '\u{202f}'
        || c == '\u{205f}' || c == '\u{3000}'
}

/// Characters kept as they are in a file name.
pub open spec fn is_name_char(c: char) -> bool {
    ('a' <= c <= 'z') || ('A' <= c <= 'Z') || ('0' <= c <= '9') || c == '-' || c == '_'
}

/// The characters of `s` that a file name keeps, white space turned into
/// underscores and everything else dropped.
pub open spec fn name_chars(s: Seq<char>) -> Seq<char>
    decreases s.len(),
{
    if s.len() == 0 {
        Seq::empty()
    } else if is_name_char(s.last()) {
        name_chars(s.drop_last()).push(s.last())
    } else if is_space(s.last()) {
        name_chars(s.drop_last()).push('_')
    } else {
        name_chars(s.drop_last())
    }
}

/// A file name made from `s`, or `note` when nothing of it is kept.
pub open spec fn file_name(s: Seq<char>) -> Seq<char> {
    if name_chars(s).len() == 0 {
        "note"@
    } else {
        name_chars(s)
    }
}

/// Whether `c` is white space.
pub fn is_space_char(c: char) -> (r: bool)
    ensures
        r == is_space(c),
{
    ('\u{9}' <= c && c <= '\u{d}') || c == ' ' || c == '\u{85}' || c == '\u{a0}' || c == '\u{1680}'
        || ('\u{2000}' <= c && c <= '\u{200a}') || c == '\u{2028}' || c == '\u{2029}' || c == '\u{202f}'
        || c == '\u{205f}' || c == '\u{3000}'
}

/// A safe file name made from `value`: ASCII letters, digits, `-` and `_`
/// are kept, white space becomes `_`, the rest is dropped; `note` when
/// nothing is left.
pub fn sanitize_filename(value: &str) -> (r: String)
    ensures
        r@ == file_name(value@),
{
    let n = value.unicode_len();
    let mut kept: Vec<char> = Vec::new();
    let mut i: usize = 0;
    while i < n
        invariant
            n == value@.len(),
            i <= n,
            kept@ == name_chars(value@.take(i as int)),
        decreases n - i,
    {
        let c = value.get_char(i);
        assert(value@.take(i + 1).drop_last() =~= value@.take(i as int));
        assert(value@.take(i + 1).last() == c);
        if ('a' <= c && c <= 'z') || ('A' <= c && c <= 'Z') || ('0' <= c && c <= '9') || c == '-' || c == '_' {
            kept.push(c);
        } else if is_space_char(c) {
            kept.push('_');
        }
        i += 1;
    }
    assert(value@.take(n as int) =~= value@);
    if kept.len() == 0 {
        "note".to_string()
    } else {
        string_from_chars(&kept)
    }
}

/// The characters of `s`.
pub(crate) fn chars_of(s: &str) -> (r: Vec<char>)
    ensures
        r@ == s@,
{
    let n = s.unicode_len();
    let mut r: Vec<char> = Vec::new();
    let mut i: usize = 0;
    while i < n
        invariant
            n == s@.len(),
            i <= n,
            r@ == s@.take(i as int),
        decreases n - i,
    {
        r.push(s.get_char(i));
        assert(r@ =~= s@.take(i + 1));
        i += 1;
    }
    assert(s@.take(n as int) =~= s@);
    r
}

/// `s` with every `from` character replaced by the text `to`.
pub open spec fn substitute(s: Seq<char>, from: char, to: Seq<char>) -> Seq<char>
    decreases s.len(),
{
    if s.len() == 0 {
        Seq::empty()
    } else {
        substitute(s.drop_last(), from, to) + if s.last() == from {
            to
        } else {
            seq![s.last()]
        }
    }
}

/// `s` with every `from` character replaced by the text `to`.
pub fn replace_all(s: &str, from: char, to: &str) -> (r: String)
    ensures
        r@ == substitute(s@, from, to@),
{
    let with = chars_of(to);
    let n = s.unicode_len();
    let mut out: Vec<char> = Vec::new();
    let mut i: usize = 0;
    while i < n
        invariant
            n == s@.len(),
            i <= n,
            with@ == to@,
            out@ == substitute(s@.take(i as int), from, to@),
        decreases n - i,
    {
        let c = s.get_char(i);
        assert(s@.take(i + 1).drop_last() =~= s@.take(i as int));
        assert(s@.take(i + 1).last() == c);
        if c == from {
            let ghost before = out@;
            let mut k: usize = 0;
            while k < with.len()
                invariant
                    k <= with@.len(),
                    out@ == before + with@.take(k as int),
                decreases with@.len() - k,
            {
                out.push(with[k]);
                assert(out@ =~= before + with@.take(k + 1));
                k += 1;
            }
            assert(with@.take(k as int) =~= with@);
        } else {
            let ghost before = out@;
            out.push(c);
            assert(out@ =~= before + seq![c]);
        }
        i += 1;
    }
    assert(s@.take(n as int) =~= s@);
    string_from_chars(&out)
}

} // verus!
