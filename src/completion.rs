//! Text comparisons behind tab completion: substring and prefix tests, the
//! byte-wise (code point) order of strings, the longest common prefix, and a
//! sorted list of distinct candidates.

use vstd::prelude::*;
use crate::text::{chars_of, string_of, views, lemma_views_push};

verus! {

/// `needle` occurs somewhere inside `hay`.
pub open spec fn is_substring(needle: Seq<char>, hay: Seq<char>) -> bool {
    exists|i: int| 0 <= i && i + needle.len() <= hay.len() && #[trigger] hay.subrange(i, i + needle.len()) == needle
}

/// Whether `needle` occurs in `hay` at position `at`.
fn occurs_at(needle: &Vec<char>, hay: &Vec<char>, at: usize) -> (r: bool)
    requires
        at + needle.len() <= hay.len(),
    ensures
        r == (hay@.subrange(at as int, at + needle.len()) == needle@),
{
    let mut j: usize = 0;
    while j < needle.len()
        invariant
            at + needle.len() <= hay.len(),
            j <= needle.len(),
            forall|k: int| 0 <= k < j ==> hay@[at + k] == needle@[k],
        decreases needle.len() - j,
    {
        if hay[at + j] != needle[j] {
            assert(hay@.subrange(at as int, at + needle.len())[j as int] != needle@[j as int]);
            return false;
        }
        j = j + 1;
    }
    assert(hay@.subrange(at as int, at + needle.len()) =~= needle@);
    true
}

/// Whether `needle` occurs somewhere inside `hay`.
pub fn contains_chars(hay: &Vec<char>, needle: &Vec<char>) -> (r: bool)
    ensures
        r == is_substring(needle@, hay@),
{
    if needle.len() > hay.len() {
        return false;
    }
    let last = hay.len() - needle.len();
    let mut i: usize = 0;
    loop
        invariant
            last + needle.len() == hay.len(),
            i <= last,
            forall|k: int| 0 <= k < i ==> #[trigger] hay@.subrange(k, k + needle.len()) != needle@,
        decreases last - i,
    {
        if occurs_at(needle, hay, i) {
            return true;
        }
        if i == last {
            return false;
        }
        i = i + 1;
    }
}

/// Whether `hay` begins with `prefix`.
pub fn starts_with_chars(hay: &Vec<char>, prefix: &Vec<char>) -> (r: bool)
    ensures
        r == prefix@.is_prefix_of(hay@),
{
    if prefix.len() > hay.len() {
        return false;
    }
    let r = occurs_at(prefix, hay, 0);
    proof {
        assert(hay@.take(prefix.len() as int) == hay@.subrange(0, prefix.len() as int));
    }
    r
}

/// Strict lexicographic order of code point sequences; for strings this is
/// the order of their UTF-8 bytes.
pub open spec fn lex_lt(a: Seq<char>, b: Seq<char>) -> bool
    decreases a.len(),
{
    if a.len() == 0 {
        b.len() > 0
    } else if b.len() == 0 {
        false
    } else if a[0] != b[0] {
        a[0] < b[0]
    } else {
        lex_lt(a.drop_first(), b.drop_first())
    }
}

pub proof fn lemma_lex_irreflexive(a: Seq<char>)
    ensures
        !lex_lt(a, a),
    decreases a.len(),
{
    if a.len() > 0 {
        lemma_lex_irreflexive(a.drop_first());
    }
}

pub proof fn lemma_lex_transitive(a: Seq<char>, b: Seq<char>, c: Seq<char>)
    requires
        lex_lt(a, b),
        lex_lt(b, c),
    ensures
        lex_lt(a, c),
    decreases a.len(),
{
    if a.len() > 0 && b.len() > 0 && c.len() > 0 && a[0] == b[0] && b[0] == c[0] {
        lemma_lex_transitive(a.drop_first(), b.drop_first(), c.drop_first());
    }
}

/// Compares two character sequences: `-1` when `a` comes first, `0` when equal, `1` otherwise.
pub fn compare_chars(a: &Vec<char>, b: &Vec<char>) -> (r: i8)
    ensures
        r == 0 <==> a@ == b@,
        r < 0 <==> lex_lt(a@, b@),
        r > 0 <==> lex_lt(b@, a@),
{
    let mut i: usize = 0;
    proof {
        assert(a@.skip(0) =~= a@);
        assert(b@.skip(0) =~= b@);
    }
    while i < a.len() && i < b.len() && a[i] == b[i]
        invariant
            i <= a.len(),
            i <= b.len(),
            a@.take(i as int) == b@.take(i as int),
            lex_lt(a@, b@) == lex_lt(a@.skip(i as int), b@.skip(i as int)),
            lex_lt(b@, a@) == lex_lt(b@.skip(i as int), a@.skip(i as int)),
        decreases a.len() - i,
    {
        proof {
            assert(a@.skip(i as int).drop_first() =~= a@.skip(i + 1));
            assert(b@.skip(i as int).drop_first() =~= b@.skip(i + 1));
            assert(a@.take(i + 1) =~= a@.take(i as int).push(a@[i as int]));
            assert(b@.take(i + 1) =~= b@.take(i as int).push(b@[i as int]));
        }
        i = i + 1;
    }
    proof {
        lemma_lex_irreflexive(a@);
        if i == a.len() && i == b.len() {
            assert(a@ =~= a@.take(i as int));
            assert(b@ =~= b@.take(i as int));
        } else if i < a.len() && i < b.len() {
            assert(a@[i as int] == a@.skip(i as int)[0]);
            assert(b@[i as int] == b@.skip(i as int)[0]);
            assert(a@[i as int] != b@[i as int]);
        } else {
            assert(a@.len() != b@.len());
        }
    }
    if i == a.len() && i == b.len() {
        0
    } else if i == a.len() {
        -1
    } else if i == b.len() {
        1
    } else if a[i] < b[i] {
        -1
    } else {
        1
    }
}

/// The views of a sequence of character vectors.
pub open spec fn char_views(v: Seq<Vec<char>>) -> Seq<Seq<char>> {
    v.map_values(|x: Vec<char>| x@)
}

/// Each element comes strictly before the next.
pub open spec fn strictly_sorted(s: Seq<Seq<char>>) -> bool {
    forall|i: int, j: int| 0 <= i < j < s.len() ==> lex_lt(#[trigger] s[i], #[trigger] s[j])
}

/// Inserts `item` at its place in the strictly sorted `v`, unless it is already there.
pub fn insert_sorted_unique(v: &mut Vec<Vec<char>>, item: Vec<char>)
    requires
        strictly_sorted(char_views(old(v)@)),
    ensures
        strictly_sorted(char_views(final(v)@)),
        char_views(final(v)@).to_set()
            == char_views(old(v)@).to_set().insert(item@),
{
    let ghost s0 = char_views(v@);
    let mut p: usize = 0;
    let mut stop = false;
    while p < v.len() && !stop
        invariant
            char_views(v@) == s0,
            strictly_sorted(s0),
            p <= v.len(),
            stop ==> p < v.len() && lex_lt(item@, s0[p as int]),
            forall|k: int| 0 <= k < p ==> lex_lt(#[trigger] s0[k], item@),
        decreases v.len() - p + (if stop { 0int } else { 1int }),
    {
        let c = compare_chars(&v[p], &item);
        if c == 0 {
            proof {
                assert(s0[p as int] == item@);
                assert(s0.to_set().insert(item@) =~= s0.to_set());
            }
            return;
        }
        if c > 0 {
            stop = true;
        } else {
            p = p + 1;
        }
    }
    v.insert(p, item);
    proof {
        let s1 = char_views(v@);
        assert(s1 =~= s0.insert(p as int, item@));
        assert forall|i: int, j: int| 0 <= i < j < s1.len() implies lex_lt(#[trigger] s1[i], #[trigger] s1[j]) by {
            if j == p {
            } else if i == p {
                if j > p + 1 {
                    lemma_lex_transitive(item@, s0[p as int], s0[j - 1]);
                }
            } else if i < p && j > p {
                if j - 1 > p {
                    lemma_lex_transitive(item@, s0[p as int], s0[j - 1]);
                }
                lemma_lex_transitive(s0[i], item@, s0[j - 1]);
            }
        }
        assert(s1.to_set() =~= s0.to_set().insert(item@)) by {
            assert forall|x: Seq<char>| s1.to_set().contains(x) implies s0.to_set().insert(item@).contains(x) by {
                let k = choose|k: int| 0 <= k < s1.len() && s1[k] == x;
                if k < p {
                    assert(s0[k] == x);
                } else if k > p {
                    assert(s0[k - 1] == x);
                }
            }
            assert forall|x: Seq<char>| s0.to_set().insert(item@).contains(x) implies s1.to_set().contains(x) by {
                if x == item@ {
                    assert(s1[p as int] == x);
                } else {
                    let k = choose|k: int| 0 <= k < s0.len() && s0[k] == x;
                    if k < p {
                        assert(s1[k] == x);
                    } else {
                        assert(s1[k + 1] == x);
                    }
                }
            }
        }
    }
}

/// Two strictly sorted sequences with the same elements are equal.
pub proof fn lemma_sorted_unique(a: Seq<Seq<char>>, b: Seq<Seq<char>>)
    requires
        strictly_sorted(a),
        strictly_sorted(b),
        forall|x: Seq<char>| a.contains(x) <==> b.contains(x),
    ensures
        a == b,
    decreases a.len(),
{
    if a.len() == 0 {
        if b.len() > 0 {
            assert(b.contains(b[0]));
        }
        assert(a =~= b);
    } else {
        assert(a.contains(a[0]));
        let k = choose|k: int| 0 <= k < b.len() && b[k] == a[0];
        assert(b.contains(b[0]));
        let m = choose|m: int| 0 <= m < a.len() && a[m] == b[0];
        if k > 0 {
            assert(lex_lt(b[0], b[k]));
            if m > 0 {
                assert(lex_lt(a[0], a[m]));
                lemma_lex_transitive(a[0], b[0], a[0]);
            }
            lemma_lex_irreflexive(a[0]);
        }
        let a1 = a.drop_first();
        let b1 = b.drop_first();
        assert forall|x: Seq<char>| a1.contains(x) <==> b1.contains(x) by {
            if a1.contains(x) {
                let i = choose|i: int| 0 <= i < a1.len() && a1[i] == x;
                assert(lex_lt(a[0], a[i + 1]));
                lemma_lex_irreflexive(x);
                assert(b.contains(x));
                let j = choose|j: int| 0 <= j < b.len() && b[j] == x;
                assert(j != 0);
                assert(b1[j - 1] == x);
            }
            if b1.contains(x) {
                let i = choose|i: int| 0 <= i < b1.len() && b1[i] == x;
                assert(lex_lt(b[0], b[i + 1]));
                lemma_lex_irreflexive(x);
                assert(a.contains(x));
                let j = choose|j: int| 0 <= j < a.len() && a[j] == x;
                assert(j != 0);
                assert(a1[j - 1] == x);
            }
        }
        assert(strictly_sorted(a1)) by {
            assert forall|i: int, j: int| 0 <= i < j < a1.len() implies lex_lt(#[trigger] a1[i], #[trigger] a1[j]) by {
                assert(lex_lt(a[i + 1], a[j + 1]));
            }
        }
        assert(strictly_sorted(b1)) by {
            assert forall|i: int, j: int| 0 <= i < j < b1.len() implies lex_lt(#[trigger] b1[i], #[trigger] b1[j]) by {
                assert(lex_lt(b[i + 1], b[j + 1]));
            }
        }
        lemma_sorted_unique(a1, b1);
        assert(a =~= seq![a[0]] + a1);
        assert(b =~= seq![b[0]] + b1);
    }
}

proof fn lemma_take_contains(s: Seq<Seq<char>>, i: int)
    requires
        0 <= i < s.len(),
    ensures
        forall|c: Seq<char>| #[trigger] s.take(i + 1).contains(c) <==> (s.take(i).contains(c) || c == s[i]),
{
    assert(s.take(i + 1) =~= s.take(i).push(s[i]));
    assert forall|c: Seq<char>| #[trigger] s.take(i + 1).contains(c) <==> (s.take(i).contains(c) || c == s[i]) by {
        if s.take(i + 1).contains(c) {
            let k = choose|k: int| 0 <= k < i + 1 && #[trigger] s.take(i + 1)[k] == c;
            if k < i {
                assert(s.take(i)[k] == c);
            }
        }
        if s.take(i).contains(c) {
            let k = choose|k: int| 0 <= k < i && #[trigger] s.take(i)[k] == c;
            assert(s.take(i + 1)[k] == c);
        }
        if c == s[i] {
            assert(s.take(i + 1)[i] == c);
        }
    }
}

/// A completion candidate for `buf`: a builtin that contains it, or an
/// executable whose name starts with it.
pub open spec fn is_candidate(buf: Seq<char>, builtins: Seq<Seq<char>>, execs: Seq<Seq<char>>, c: Seq<char>) -> bool {
    (builtins.contains(c) && is_substring(buf, c)) || (execs.contains(c) && buf.is_prefix_of(c))
}

/// `h` lists the candidates in order, each once.
pub open spec fn lists_candidates(h: Seq<Seq<char>>, buf: Seq<char>, builtins: Seq<Seq<char>>, execs: Seq<Seq<char>>) -> bool {
    &&& strictly_sorted(h)
    &&& forall|c: Seq<char>| h.contains(c) <==> is_candidate(buf, builtins, execs, c)
}

/// The sorted list of distinct completion candidates.
pub open spec fn completion_list(buf: Seq<char>, builtins: Seq<Seq<char>>, execs: Seq<Seq<char>>) -> Seq<Seq<char>> {
    choose|h: Seq<Seq<char>>| lists_candidates(h, buf, builtins, execs)
}

/// The completion candidates for `buf`, sorted, without repeats.
pub fn completion_candidates(buf: &Vec<char>, builtins: &Vec<String>, executables: &Vec<String>) -> (r: Vec<String>)
    ensures
        lists_candidates(views(r@), buf@, views(builtins@), views(executables@)),
        views(r@) == completion_list(buf@, views(builtins@), views(executables@)),
{
    let ghost bs = views(builtins@);
    let ghost es = views(executables@);
    let mut found: Vec<Vec<char>> = Vec::new();
    let mut i: usize = 0;
    proof {
        assert(strictly_sorted(char_views(found@)));
    }
    while i < builtins.len()
        invariant
            bs == views(builtins@),
            i <= builtins.len(),
            strictly_sorted(char_views(found@)),
            forall|c: Seq<char>| #[trigger] char_views(found@).contains(c)
                <==> (bs.take(i as int).contains(c) && is_substring(buf@, c)),
        decreases builtins.len() - i,
    {
        let name = chars_of(builtins[i].as_str());
        let ghost before = char_views(found@);
        proof {
            lemma_take_contains(bs, i as int);
        }
        let hit = contains_chars(&name, buf);
        if hit {
            insert_sorted_unique(&mut found, name);
        }
        proof {
            let after = char_views(found@);
            assert(name@ == bs[i as int]);
            assert forall|c: Seq<char>| after.contains(c)
                <==> (bs.take(i + 1).contains(c) && is_substring(buf@, c)) by {
                assert(before.contains(c) <==> (bs.take(i as int).contains(c) && is_substring(buf@, c)));
                assert(bs.take(i + 1).contains(c) <==> (bs.take(i as int).contains(c) || c == bs[i as int]));
                if hit {
                    assert(after.to_set().contains(c) == after.contains(c));
                    assert(before.to_set().contains(c) == before.contains(c));
                    assert(after.contains(c) <==> (before.contains(c) || c == name@));
                } else {
                    assert(after == before);
                }
            }
        }
        i = i + 1;
    }
    proof {
        assert(bs.take(i as int) =~= bs);
    }
    let mut j: usize = 0;
    while j < executables.len()
        invariant
            bs == views(builtins@),
            es == views(executables@),
            j <= executables.len(),
            strictly_sorted(char_views(found@)),
            forall|c: Seq<char>| #[trigger] char_views(found@).contains(c)
                <==> is_candidate(buf@, bs, es.take(j as int), c),
        decreases executables.len() - j,
    {
        let name = chars_of(executables[j].as_str());
        let ghost before = char_views(found@);
        proof {
            lemma_take_contains(es, j as int);
        }
        let hit = starts_with_chars(&name, buf);
        if hit {
            insert_sorted_unique(&mut found, name);
        }
        proof {
            let after = char_views(found@);
            assert(name@ == es[j as int]);
            assert forall|c: Seq<char>| after.contains(c)
                <==> is_candidate(buf@, bs, es.take(j + 1), c) by {
                assert(before.contains(c) <==> is_candidate(buf@, bs, es.take(j as int), c));
                assert(es.take(j + 1).contains(c) <==> (es.take(j as int).contains(c) || c == es[j as int]));
                if hit {
                    assert(after.to_set().contains(c) == after.contains(c));
                    assert(before.to_set().contains(c) == before.contains(c));
                    assert(after.contains(c) <==> (before.contains(c) || c == name@));
                } else {
                    assert(after == before);
                }
            }
        }
        j = j + 1;
    }
    proof {
        assert(es.take(j as int) =~= es);
    }
    let mut r: Vec<String> = Vec::new();
    let mut k: usize = 0;
    while k < found.len()
        invariant
            k <= found.len(),
            views(r@) == char_views(found@).take(k as int),
        decreases found.len() - k,
    {
        let s = string_of(&found[k]);
        proof {
            lemma_views_push(r@, s);
        }
        r.push(s);
        proof {
            assert(views(r@) =~= char_views(found@).take(k + 1));
        }
        k = k + 1;
    }
    proof {
        assert(views(r@) =~= char_views(found@));
        let h = completion_list(buf@, bs, es);
        assert(lists_candidates(views(r@), buf@, bs, es));
        lemma_sorted_unique(views(r@), h);
    }
    r
}

/// The length of the longest common prefix of `a` and `b`.
pub open spec fn common_len(a: Seq<char>, b: Seq<char>) -> nat
    decreases a.len(),
{
    if a.len() == 0 || b.len() == 0 || a[0] != b[0] {
        0
    } else {
        1 + common_len(a.drop_first(), b.drop_first())
    }
}

/// The longest common prefix of all the sequences (empty for none).
pub open spec fn common_prefix(hs: Seq<Seq<char>>) -> Seq<char>
    decreases hs.len(),
{
    if hs.len() == 0 {
        Seq::empty()
    } else if hs.len() == 1 {
        hs[0]
    } else {
        let p = common_prefix(hs.drop_last());
        p.take(common_len(p, hs.last()) as int)
    }
}

pub proof fn lemma_common_len_bounds(a: Seq<char>, b: Seq<char>)
    ensures
        common_len(a, b) <= a.len(),
        common_len(a, b) <= b.len(),
        a.take(common_len(a, b) as int) == b.take(common_len(a, b) as int),
    decreases a.len(),
{
    if !(a.len() == 0 || b.len() == 0 || a[0] != b[0]) {
        lemma_common_len_bounds(a.drop_first(), b.drop_first());
        let n = common_len(a, b) as int;
        assert(a.take(n) =~= seq![a[0]] + a.drop_first().take(n - 1));
        assert(b.take(n) =~= seq![b[0]] + b.drop_first().take(n - 1));
    }
}

/// The longest prefix shared by `a` and `b`, as a count of characters.
fn common_len_exec(a: &Vec<char>, b: &Vec<char>) -> (r: usize)
    ensures
        r == common_len(a@, b@),
{
    let mut i: usize = 0;
    proof {
        assert(a@.skip(0) =~= a@);
        assert(b@.skip(0) =~= b@);
    }
    while i < a.len() && i < b.len() && a[i] == b[i]
        invariant
            i <= a.len(),
            i <= b.len(),
            common_len(a@, b@) == i + common_len(a@.skip(i as int), b@.skip(i as int)),
        decreases a.len() - i,
    {
        proof {
            assert(a@.skip(i as int).drop_first() =~= a@.skip(i + 1));
            assert(b@.skip(i as int).drop_first() =~= b@.skip(i + 1));
            assert(a@.skip(i as int)[0] == a@[i as int]);
            assert(b@.skip(i as int)[0] == b@[i as int]);
        }
        i = i + 1;
    }
    proof {
        if i < a.len() && i < b.len() {
            assert(a@.skip(i as int)[0] == a@[i as int]);
            assert(b@.skip(i as int)[0] == b@[i as int]);
        }
    }
    i
}

/// The longest common prefix of all `hints`, compared character by character;
/// empty when there are none.
pub fn find_common_prefix(hints: &Vec<String>) -> (r: String)
    ensures
        r@ == common_prefix(views(hints@)),
{
    let ghost hs = views(hints@);
    if hints.len() == 0 {
        return String::new();
    }
    let mut prefix = chars_of(hints[0].as_str());
    let mut i: usize = 1;
    proof {
        assert(hs.take(1).drop_last() =~= Seq::<Seq<char>>::empty());
    }
    while i < hints.len()
        invariant
            hs == views(hints@),
            1 <= i <= hints.len(),
            prefix@ == common_prefix(hs.take(i as int)),
        decreases hints.len() - i,
    {
        let next = chars_of(hints[i].as_str());
        let n = common_len_exec(&prefix, &next);
        proof {
            lemma_common_len_bounds(prefix@, next@);
            assert(hs.take(i + 1).drop_last() =~= hs.take(i as int));
        }
        prefix.truncate(n);
        proof {
            assert(prefix@ =~= common_prefix(hs.take(i + 1)));
        }
        i = i + 1;
    }
    proof {
        assert(hs.take(i as int) =~= hs);
    }
    string_of(&prefix)
}

} // verus!
