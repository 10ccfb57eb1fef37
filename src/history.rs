//! The history log's text form (one entry per line, each ended by a newline),
//! loading it back, and the numbered listing that `history` prints.

use vstd::prelude::*;
use crate::text::{chars_of, string_of, views, split_on, split_spec, split_run, decimal, push_decimal};
use crate::editor::{LineBuffer, history_after};

verus! {

/// The non-empty pieces, in order.
pub open spec fn nonempty(p: Seq<Seq<char>>) -> Seq<Seq<char>>
    decreases p.len(),
{
    if p.len() == 0 {
        Seq::empty()
    } else if p.last().len() > 0 {
        nonempty(p.drop_last()).push(p.last())
    } else {
        nonempty(p.drop_last())
    }
}

/// The entries that a history text holds: its non-empty lines.
pub open spec fn history_lines_spec(text: Seq<char>) -> Seq<Seq<char>> {
    nonempty(split_spec(text, '\n'))
}

/// The text form of entries: each followed by a newline.
pub open spec fn history_text(h: Seq<Seq<char>>) -> Seq<char>
    decreases h.len(),
{
    if h.len() == 0 {
        Seq::empty()
    } else {
        history_text(h.drop_last()) + h.last().push('\n')
    }
}

/// The log after each of `es` is offered in turn.
pub open spec fn history_after_all(h: Seq<Seq<char>>, es: Seq<Seq<char>>, interactive: bool) -> Seq<Seq<char>>
    decreases es.len(),
{
    if es.len() == 0 {
        h
    } else {
        history_after(history_after_all(h, es.drop_last(), interactive), es.last(), interactive)
    }
}

/// Entries that a history file can hold unchanged: non-empty, without newlines.
pub open spec fn storable(h: Seq<Seq<char>>) -> bool {
    forall|i: int| 0 <= i < h.len() ==> (#[trigger] h[i]).len() > 0 && !h[i].contains('\n')
}

/// No entry equals the one before it.
pub open spec fn no_adjacent_repeats(h: Seq<Seq<char>>) -> bool {
    forall|i: int| 0 < i < h.len() ==> #[trigger] h[i] != h[i - 1]
}

/// One line of the listing: two spaces, the 1-based number, two spaces, the entry.
pub open spec fn listing_line(h: Seq<Seq<char>>, i: int) -> Seq<char> {
    seq![' ', ' '] + decimal((i + 1) as nat) + seq![' ', ' '] + h[i] + seq!['\n']
}

/// The listing of entries `start .. end`.
pub open spec fn listing(h: Seq<Seq<char>>, start: int, end: int) -> Seq<char>
    decreases end - start,
{
    if end <= start {
        Seq::empty()
    } else {
        listing(h, start, end - 1) + listing_line(h, end - 1)
    }
}

/// Where a listing of the last `last` entries of `len` starts (all of them when absent or larger).
pub open spec fn window_start(len: nat, last: Option<usize>) -> int {
    match last {
        Some(n) => if n < len { len - n } else { 0 },
        None => 0,
    }
}

/// The entries of a history text: its non-empty lines.
pub fn history_lines(text: &str) -> (r: Vec<String>)
    ensures
        views(r@) == history_lines_spec(text@),
{
    let parts = split_on(text, '\n');
    let ghost ps = views(parts@);
    let mut r: Vec<String> = Vec::new();
    let mut i: usize = 0;
    while i < parts.len()
        invariant
            ps == views(parts@),
            i <= parts.len(),
            views(r@) == nonempty(ps.take(i as int)),
        decreases parts.len() - i,
    {
        proof {
            assert(ps.take(i + 1).drop_last() =~= ps.take(i as int));
        }
        if !parts[i].as_str().is_empty() {
            let e = parts[i].clone();
            proof {
                crate::text::lemma_views_push(r@, e);
            }
            r.push(e);
        }
        i = i + 1;
    }
    proof {
        assert(ps.take(i as int) =~= ps);
    }
    r
}

/// The text form of `entries[from..]` (empty when `from` is past the end).
pub fn history_file_text(entries: &Vec<String>, from: usize) -> (r: String)
    ensures
        r@ == history_text(views(entries@).skip(if from <= entries.len() { from as int } else { entries.len() as int })),
{
    let ghost all = views(entries@);
    let start = if from <= entries.len() { from } else { entries.len() };
    let ghost tail = all.skip(start as int);
    let mut out: Vec<char> = Vec::new();
    let mut i: usize = start;
    proof {
        assert(tail.take(0) =~= Seq::<Seq<char>>::empty());
    }
    while i < entries.len()
        invariant
            all == views(entries@),
            tail == all.skip(start as int),
            start <= i <= entries.len(),
            out@ == history_text(tail.take(i - start)),
        decreases entries.len() - i,
    {
        let e = chars_of(entries[i].as_str());
        let mut j: usize = 0;
        let ghost before = out@;
        while j < e.len()
            invariant
                j <= e.len(),
                out@ == before + e@.take(j as int),
            decreases e.len() - j,
        {
            out.push(e[j]);
            proof {
                assert(e@.take(j + 1) =~= e@.take(j as int).push(e@[j as int]));
            }
            j = j + 1;
        }
        out.push('\n');
        proof {
            assert(e@.take(j as int) =~= e@);
            assert(tail.take(i - start + 1).drop_last() =~= tail.take(i - start));
            assert(tail.take(i - start + 1).last() == all[i as int]);
            assert(out@ =~= history_text(tail.take(i - start + 1)));
        }
        i = i + 1;
    }
    proof {
        assert(tail.take(i - start) =~= tail);
    }
    string_of(&out)
}

/// The numbered listing of `entries`, all of them or only the last `last`.
pub fn history_listing(entries: &Vec<String>, last: Option<usize>) -> (r: String)
    ensures
        r@ == listing(views(entries@), window_start(entries.len() as nat, last), entries.len() as int),
{
    let ghost h = views(entries@);
    let start: usize = match last {
        Some(n) => if n < entries.len() { entries.len() - n } else { 0 },
        None => 0,
    };
    let mut out: Vec<char> = Vec::new();
    let mut i: usize = start;
    while i < entries.len()
        invariant
            h == views(entries@),
            start <= i <= entries.len(),
            start == window_start(entries.len() as nat, last),
            out@ == listing(h, start as int, i as int),
        decreases entries.len() - i,
    {
        let e = chars_of(entries[i].as_str());
        let ghost before = out@;
        out.push(' ');
        out.push(' ');
        push_decimal(&mut out, i + 1);
        out.push(' ');
        out.push(' ');
        let mut j: usize = 0;
        let ghost mid = out@;
        while j < e.len()
            invariant
                j <= e.len(),
                out@ == mid + e@.take(j as int),
            decreases e.len() - j,
        {
            out.push(e[j]);
            proof {
                assert(e@.take(j + 1) =~= e@.take(j as int).push(e@[j as int]));
            }
            j = j + 1;
        }
        out.push('\n');
        proof {
            assert(e@.take(j as int) =~= e@);
            assert(out@ =~= before + listing_line(h, i as int));
        }
        i = i + 1;
    }
    string_of(&out)
}

impl LineBuffer {
    /// Offers each entry of a history text (its non-empty lines) to the log, in order.
    pub fn load_history(&mut self, text: &str, interactive: bool)
        requires
            old(self).wf(),
        ensures
            final(self).wf(),
            final(self).history_view() == history_after_all(old(self).history_view(), history_lines_spec(text@), interactive),
            final(self).buffer_view() == old(self).buffer_view(),
            final(self).cursor_view() == old(self).cursor_view(),
            final(self).builtins_view() == old(self).builtins_view(),
            final(self).same_hints(old(self)),
    {
        let lines = history_lines(text);
        let ghost ls = views(lines@);
        let mut i: usize = 0;
        while i < lines.len()
            invariant
                ls == views(lines@),
                ls == history_lines_spec(text@),
                i <= lines.len(),
                self.wf(),
                self.history_view() == history_after_all(old(self).history_view(), ls.take(i as int), interactive),
                self.buffer_view() == old(self).buffer_view(),
                self.cursor_view() == old(self).cursor_view(),
                self.builtins_view() == old(self).builtins_view(),
                self.same_hints(old(self)),
            decreases lines.len() - i,
        {
            self.insert_history_entry(lines[i].as_str(), interactive);
            proof {
                assert(ls.take(i + 1).drop_last() =~= ls.take(i as int));
            }
            i = i + 1;
        }
        proof {
            assert(ls.take(i as int) =~= ls);
        }
    }
}

proof fn lemma_split_run_append(s: Seq<char>, t: Seq<char>, sep: char)
    requires
        !t.contains(sep),
    ensures
        split_run(s + t, sep) == (split_run(s, sep).0, split_run(s, sep).1 + t),
    decreases t.len(),
{
    if t.len() == 0 {
        assert(s + t =~= s);
        assert(split_run(s, sep).1 + t =~= split_run(s, sep).1);
    } else {
        assert((s + t).drop_last() =~= s + t.drop_last());
        assert(!t.drop_last().contains(sep)) by {
            if t.drop_last().contains(sep) {
                let k = choose|k: int| 0 <= k < t.drop_last().len() && t.drop_last()[k] == sep;
                assert(t[k] == sep);
            }
        }
        assert(t.last() != sep) by {
            assert(t[t.len() - 1] == t.last());
        }
        lemma_split_run_append(s, t.drop_last(), sep);
        assert((split_run(s, sep).1 + t.drop_last()).push(t.last()) =~= split_run(s, sep).1 + t);
    }
}

proof fn lemma_text_run(h: Seq<Seq<char>>)
    requires
        storable(h),
    ensures
        split_run(history_text(h), '\n') == (h, Seq::<char>::empty()),
    decreases h.len(),
{
    if h.len() == 0 {
        assert(h =~= Seq::<Seq<char>>::empty());
    } else {
        let h0 = h.drop_last();
        let e = h.last();
        assert(storable(h0)) by {
            assert forall|i: int| 0 <= i < h0.len() implies (#[trigger] h0[i]).len() > 0 && !h0[i].contains('\n') by {
                assert(h0[i] == h[i]);
            }
        }
        assert(h[h.len() - 1] == e);
        lemma_text_run(h0);
        let t0 = history_text(h0);
        lemma_split_run_append(t0, e, '\n');
        assert(history_text(h).drop_last() =~= t0 + e);
        assert(history_text(h).last() == '\n');
        assert(Seq::<char>::empty() + e =~= e);
        assert(h0.push(e) =~= h);
    }
}

proof fn lemma_nonempty_all(h: Seq<Seq<char>>)
    requires
        storable(h),
    ensures
        nonempty(h) == h,
    decreases h.len(),
{
    if h.len() > 0 {
        let h0 = h.drop_last();
        assert(storable(h0)) by {
            assert forall|i: int| 0 <= i < h0.len() implies (#[trigger] h0[i]).len() > 0 && !h0[i].contains('\n') by {
                assert(h0[i] == h[i]);
            }
        }
        assert(h[h.len() - 1].len() > 0);
        lemma_nonempty_all(h0);
        assert(h0.push(h.last()) =~= h);
    }
}

proof fn lemma_replay(h: Seq<Seq<char>>, interactive: bool)
    requires
        interactive ==> no_adjacent_repeats(h),
    ensures
        history_after_all(Seq::empty(), h, interactive) == h,
    decreases h.len(),
{
    if h.len() > 0 {
        let h0 = h.drop_last();
        assert(interactive ==> no_adjacent_repeats(h0)) by {
            if interactive {
                assert forall|i: int| 0 < i < h0.len() implies #[trigger] h0[i] != h0[i - 1] by {
                    assert(h[i] != h[i - 1]);
                }
            }
        }
        lemma_replay(h0, interactive);
        if h0.len() > 0 && interactive {
            assert(h[h.len() - 1] != h[h.len() - 2]);
            assert(h0.last() == h[h.len() - 2]);
        }
        assert(h0.push(h.last()) =~= h);
    }
}

/// Writing a log as history text and reading that text into an empty log
/// gives back the same entries in the same order, when every entry is
/// non-empty and free of newlines and, for interactive reading, no entry
/// repeats the one before it.
pub proof fn lemma_history_round_trip(h: Seq<Seq<char>>, interactive: bool)
    requires
        storable(h),
        interactive ==> no_adjacent_repeats(h),
    ensures
        history_after_all(Seq::empty(), history_lines_spec(history_text(h)), interactive) == h,
{
    lemma_text_run(h);
    lemma_nonempty_all(h.push(Seq::<char>::empty()).drop_last());
    assert(h.push(Seq::<char>::empty()).drop_last() =~= h);
    assert(history_lines_spec(history_text(h)) == h);
    lemma_replay(h, interactive);
}

/// Offering the same entry twice in a row: interactively the log gains it
/// at most once; otherwise it gains it twice.
pub proof fn lemma_repeat_entry(h: Seq<Seq<char>>, e: Seq<char>)
    ensures
        history_after(history_after(h, e, true), e, true) == history_after(h, e, true),
        history_after(h, e, true).last() == e,
        history_after(history_after(h, e, false), e, false) == h.push(e).push(e),
{
    if !(h.len() == 0 || h.last() != e) {
        assert(history_after(h, e, true) == h);
    }
}

} // verus!
