//! Conversions between `str`, `String` and character vectors.

use vstd::prelude::*;

verus! {

/// Relies on `str::chars` collected into a `Vec`: the characters of `s`, in order.
#[verifier::external_body]
pub(crate) fn chars_of(s: &str) -> (r: Vec<char>)
    ensures
        r@ == s@,
{
    s.chars().collect()
}

/// Relies on `String: FromIterator<&char>`: a string holding the characters of `v`, in order.
#[verifier::external_body]
pub(crate) fn string_of(v: &Vec<char>) -> (r: String)
    ensures
        r@ == v@,
{
    v.iter().collect()
}

/// The views of a sequence of strings.
pub open spec fn views(v: Seq<String>) -> Seq<Seq<char>> {
    v.map_values(|s: String| s@)
}

/// The decimal digit for `d < 10`.
pub open spec fn digit(d: nat) -> char {
    ((d + 48) as u8) as char
}

/// The decimal notation of `n`, without leading zeros.
pub open spec fn decimal(n: nat) -> Seq<char>
    decreases n,
{
    if n < 10 {
        seq![digit(n)]
    } else {
        decimal(n / 10).push(digit(n % 10))
    }
}

/// Appends the decimal notation of `n` to `out`.
pub fn push_decimal(out: &mut Vec<char>, n: usize)
    ensures
        final(out)@ == old(out)@ + decimal(n as nat),
    decreases n,
{
    if n < 10 {
        out.push(((n as u8) + 48u8) as char);
        assert(final(out)@ =~= old(out)@ + decimal(n as nat));
    } else {
        push_decimal(out, n / 10);
        out.push((((n % 10) as u8) + 48u8) as char);
        assert(final(out)@ =~= old(out)@ + decimal(n as nat));
    }
}

/// Whether two strings hold the same characters.
pub fn token_is(tok: &str, lit: &str) -> (r: bool)
    ensures
        r == (tok@ == lit@),
{
    let a = chars_of(tok);
    let b = chars_of(lit);
    if a.len() != b.len() {
        return false;
    }
    let mut i: usize = 0;
    while i < a.len()
        invariant
            a@ == tok@,
            b@ == lit@,
            a.len() == b.len(),
            i <= a.len(),
            forall|j: int| 0 <= j < i ==> a@[j] == b@[j],
        decreases a.len() - i,
    {
        if a[i] != b[i] {
            assert(a@[i as int] != b@[i as int]);
            return false;
        }
        i = i + 1;
    }
    assert(a@ =~= b@);
    true
}

/// The characters with the Unicode `White_Space` property.
pub open spec fn is_ws(c: char) -> bool {
    let u = c as u32;
    (9 <= u <= 13) || u == 32 || u == 0x85 || u == 0xA0 || u == 0x1680
        || (0x2000 <= u <= 0x200A) || u == 0x2028 || u == 0x2029 || u == 0x202F
        || u == 0x205F || u == 0x3000
}

pub open spec fn trim_start_spec(s: Seq<char>) -> Seq<char>
    decreases s.len(),
{
    if s.len() > 0 && is_ws(s[0]) { trim_start_spec(s.drop_first()) } else { s }
}

pub open spec fn trim_end_spec(s: Seq<char>) -> Seq<char>
    decreases s.len(),
{
    if s.len() > 0 && is_ws(s.last()) { trim_end_spec(s.drop_last()) } else { s }
}

/// `s` without leading and trailing whitespace.
pub open spec fn trim_spec(s: Seq<char>) -> Seq<char> {
    trim_end_spec(trim_start_spec(s))
}

fn is_ws_exec(c: char) -> (r: bool)
    ensures
        r == is_ws(c),
{
    let u = c as u32;
    (9 <= u && u <= 13) || u == 32 || u == 0x85 || u == 0xA0 || u == 0x1680
        || (0x2000 <= u && u <= 0x200A) || u == 0x2028 || u == 0x2029 || u == 0x202F
        || u == 0x205F || u == 0x3000
}

/// `s` without leading and trailing whitespace.
pub fn trim_line(s: &str) -> (r: String)
    ensures
        r@ == trim_spec(s@),
{
    let cs = chars_of(s);
    let mut lo: usize = 0;
    proof {
        assert(cs@.subrange(0, cs@.len() as int) =~= cs@);
    }
    while lo < cs.len() && is_ws_exec(cs[lo])
        invariant
            cs@ == s@,
            lo <= cs.len(),
            trim_start_spec(s@) == trim_start_spec(cs@.subrange(lo as int, cs@.len() as int)),
        decreases cs.len() - lo,
    {
        proof {
            assert(cs@.subrange(lo as int, cs@.len() as int).drop_first() =~= cs@.subrange(lo + 1, cs@.len() as int));
        }
        lo = lo + 1;
    }
    let ghost mid = cs@.subrange(lo as int, cs@.len() as int);
    proof {
        if lo < cs.len() {
            assert(mid[0] == cs@[lo as int]);
        }
        assert(trim_start_spec(s@) == mid);
        assert(mid.subrange(0, mid.len() as int) =~= mid);
    }
    let mut hi: usize = cs.len();
    while hi > lo && is_ws_exec(cs[hi - 1])
        invariant
            cs@ == s@,
            lo <= hi <= cs.len(),
            mid == cs@.subrange(lo as int, cs@.len() as int),
            trim_spec(s@) == trim_end_spec(cs@.subrange(lo as int, hi as int)),
        decreases hi,
    {
        proof {
            assert(cs@.subrange(lo as int, hi as int).drop_last() =~= cs@.subrange(lo as int, hi - 1));
        }
        hi = hi - 1;
    }
    proof {
        if hi > lo {
            assert(cs@.subrange(lo as int, hi as int).last() == cs@[hi - 1]);
        }
    }
    let mut out: Vec<char> = Vec::new();
    let mut k: usize = lo;
    while k < hi
        invariant
            lo <= k <= hi <= cs.len(),
            out@ == cs@.subrange(lo as int, k as int),
        decreases hi - k,
    {
        out.push(cs[k]);
        proof {
            assert(out@ =~= cs@.subrange(lo as int, k + 1));
        }
        k = k + 1;
    }
    string_of(&out)
}

/// Splitting state: the finished parts and the part being read.
pub open spec fn split_run(s: Seq<char>, sep: char) -> (Seq<Seq<char>>, Seq<char>)
    decreases s.len(),
{
    if s.len() == 0 {
        (Seq::empty(), Seq::empty())
    } else {
        let (parts, cur) = split_run(s.drop_last(), sep);
        if s.last() == sep {
            (parts.push(cur), Seq::empty())
        } else {
            (parts, cur.push(s.last()))
        }
    }
}

/// The pieces of `s` between occurrences of `sep`, empty ones included.
pub open spec fn split_spec(s: Seq<char>, sep: char) -> Seq<Seq<char>> {
    let (parts, cur) = split_run(s, sep);
    parts.push(cur)
}

/// Splits `s` at every `sep`.
pub fn split_on(s: &str, sep: char) -> (r: Vec<String>)
    ensures
        views(r@) == split_spec(s@, sep),
{
    let chars = chars_of(s);
    let mut parts: Vec<String> = Vec::new();
    let mut cur: Vec<char> = Vec::new();
    let mut i: usize = 0;
    while i < chars.len()
        invariant
            chars@ == s@,
            i <= chars.len(),
            split_run(chars@.take(i as int), sep) == (views(parts@), cur@),
        decreases chars.len() - i,
    {
        proof {
            assert(chars@.take(i + 1).drop_last() == chars@.take(i as int));
        }
        if chars[i] == sep {
            let piece = string_of(&cur);
            proof {
                lemma_views_push(parts@, piece);
            }
            parts.push(piece);
            cur = Vec::new();
        } else {
            cur.push(chars[i]);
        }
        i = i + 1;
    }
    proof {
        assert(chars@.take(i as int) == s@);
    }
    let piece = string_of(&cur);
    proof {
        lemma_views_push(parts@, piece);
    }
    parts.push(piece);
    parts
}

pub proof fn lemma_views_push(v: Seq<String>, s: String)
    ensures
        views(v.push(s)) == views(v).push(s@),
{
    assert(views(v.push(s)) =~= views(v).push(s@));
}

pub proof fn lemma_views_take_push(v: Seq<String>, i: int)
    requires
        0 <= i < v.len(),
    ensures
        views(v).take(i + 1) == views(v).take(i).push(v[i]@),
{
    assert(views(v).take(i + 1) =~= views(v).take(i).push(v[i]@));
}

} // verus!
