//! Folder names built from tag values when files are imported into the library.
use vstd::prelude::*;
use crate::paths::chars_of;

verus! {

/// Characters that a file system may refuse in a folder name.
pub open spec fn is_unsafe_in_name(c: char) -> bool {
    c == '/' || c == '\\' || c == ':' || c == '*' || c == '?' || c == '"' || c == '<' || c == '>' || c == '|'
}

/// The Unicode `White_Space` property, which `char::is_whitespace` tests.
pub open spec fn is_white_space(c: char) -> bool {
    let u = c as u32;
    ||| (0x9 <= u && u <= 0xd)
    ||| u == 0x20
    ||| u == 0x85
    ||| u == 0xa0
    ||| u == 0x1680
    ||| (0x2000 <= u && u <= 0x200a)
    ||| u == 0x2028
    ||| u == 0x2029
    ||| u == 0x202f
    ||| u == 0x205f
    ||| u == 0x3000
}

pub open spec fn replace_unsafe(s: Seq<char>) -> Seq<char> {
    s.map_values(|c: char| if is_unsafe_in_name(c) { '_' } else { c })
}

pub open spec fn trim_start(s: Seq<char>) -> Seq<char>
    decreases s.len(),
{
    if s.len() > 0 && is_white_space(s[0]) {
        trim_start(s.drop_first())
    } else {
        s
    }
}

pub open spec fn trim_end(s: Seq<char>) -> Seq<char>
    decreases s.len(),
{
    if s.len() > 0 && is_white_space(s.last()) {
        trim_end(s.drop_last())
    } else {
        s
    }
}

/// The folder name for a tag value: unsafe characters become `_`, white
/// space is trimmed from both ends, and an empty result becomes `_`.
pub open spec fn sanitized(s: Seq<char>) -> Seq<char> {
    let t = trim_end(trim_start(replace_unsafe(s)));
    if t.len() == 0 {
        "_"@
    } else {
        t
    }
}

fn white_space(c: char) -> (r: bool)
    ensures
        r == is_white_space(c),
{
    let u = c as u32;
    (0x9 <= u && u <= 0xd) || u == 0x20 || u == 0x85 || u == 0xa0 || u == 0x1680 || (0x2000 <= u && u
        <= 0x200a) || u == 0x2028 || u == 0x2029 || u == 0x202f || u == 0x205f || u == 0x3000
}

/// Relies on `String`'s `FromIterator<char>`: the string of the characters in order.
#[verifier::external_body]
fn string_from_chars(v: &Vec<char>) -> (r: String)
    ensures
        r@ == v@,
{
    v.iter().collect()
}

/// Makes a tag value safe to use as a folder name.
pub fn sanitize_folder_name(name: &str) -> (r: String)
    ensures
        r@ == sanitized(name@),
{
    let v = chars_of(name);
    let n = v.len();
    let mut m: Vec<char> = Vec::new();
    let mut i: usize = 0;
    while i < n
        invariant
            n == v@.len(),
            v@ == name@,
            i <= n,
            m@ == replace_unsafe(v@.subrange(0, i as int)),
        decreases n - i,
    {
        let c = v[i];
        let d = if c == '/' || c == '\\' || c == ':' || c == '*' || c == '?' || c == '"' || c == '<' || c == '>'
            || c == '|' {
            '_'
        } else {
            c
        };
        m.push(d);
        assert(m@ =~= replace_unsafe(v@.subrange(0, i + 1)));
        i = i + 1;
    }
    assert(v@.subrange(0, n as int) =~= v@);
    let ghost ms = m@;
    let mut a: usize = 0;
    assert(ms.subrange(0, n as int) =~= ms);
    while a < n && white_space(m[a])
        invariant
            a <= n,
            ms == m@,
            ms.len() == n,
            trim_start(ms) == trim_start(ms.subrange(a as int, n as int)),
        decreases n - a,
    {
        assert(ms.subrange(a as int, n as int).drop_first() =~= ms.subrange(a + 1, n as int));
        a = a + 1;
    }
    let mut b: usize = n;
    assert(trim_start(ms) == ms.subrange(a as int, n as int));
    assert(ms.subrange(a as int, n as int) =~= ms.subrange(a as int, b as int));
    while b > a && white_space(m[b - 1])
        invariant
            a <= b <= n,
            ms == m@,
            ms.len() == n,
            trim_end(trim_start(ms)) == trim_end(ms.subrange(a as int, b as int)),
        decreases b - a,
    {
        assert(ms.subrange(a as int, b as int).drop_last() =~= ms.subrange(a as int, b - 1));
        b = b - 1;
    }
    assert(trim_end(trim_start(ms)) == ms.subrange(a as int, b as int));
    if a == b {
        return "_".to_string();
    }
    let mut out: Vec<char> = Vec::new();
    let mut j: usize = a;
    while j < b
        invariant
            a <= j <= b <= n,
            ms == m@,
            ms.len() == n,
            out@ == ms.subrange(a as int, j as int),
        decreases b - j,
    {
        out.push(m[j]);
        assert(out@ =~= ms.subrange(a as int, j + 1));
        j = j + 1;
    }
    string_from_chars(&out)
}

} // verus!
