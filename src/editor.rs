//! The line editor's state: the input buffer and its cursor, the history log
//! with its browsing position, and pending tab-completion candidates.

use vstd::prelude::*;
use crate::text::{chars_of, string_of, views, decimal, push_decimal, lemma_views_push, lemma_views_take_push};
use crate::completion::{common_prefix, completion_list, completion_candidates, find_common_prefix};
use crate::keys::Key;

verus! {

/// Buffer, cursor and history position: the part of the editor that keys move.
pub type EditModel = (Seq<char>, nat, nat);

/// The history log after `entry` is offered: an interactive insert skips an
/// entry equal to the last one; a non-interactive insert always appends.
pub open spec fn history_after(h: Seq<Seq<char>>, entry: Seq<char>, interactive: bool) -> Seq<Seq<char>> {
    if h.len() == 0 || h.last() != entry || !interactive {
        h.push(entry)
    } else {
        h
    }
}

/// The cursor after the buffer is replaced by `nb`: pinned to the end when it
/// was at the end or lies beyond the new text, kept otherwise.
pub open spec fn cursor_after_load(buf: Seq<char>, cur: nat, nb: Seq<char>) -> nat {
    if cur > nb.len() || cur == buf.len() { nb.len() } else { cur }
}

pub open spec fn model_left(m: EditModel) -> EditModel {
    if m.1 > 0 { (m.0, (m.1 - 1) as nat, m.2) } else { m }
}

pub open spec fn model_right(m: EditModel) -> EditModel {
    if m.1 < m.0.len() { (m.0, m.1 + 1, m.2) } else { m }
}

pub open spec fn model_insert(m: EditModel, c: char) -> EditModel {
    (m.0.insert(m.1 as int, c), m.1 + 1, m.2)
}

pub open spec fn model_delete_left(m: EditModel) -> EditModel {
    if m.1 > 0 { (m.0.remove(m.1 - 1), (m.1 - 1) as nat, m.2) } else { m }
}

pub open spec fn model_delete_right(m: EditModel) -> EditModel {
    if m.1 < m.0.len() { (m.0.remove(m.1 as int), m.1, m.2) } else { m }
}

/// Up: one entry back in the history, if any.
pub open spec fn model_up(m: EditModel, h: Seq<Seq<char>>) -> EditModel {
    if m.2 > 0 {
        let nb = h[m.2 - 1 as int];
        (nb, cursor_after_load(m.0, m.1, nb), (m.2 - 1) as nat)
    } else {
        m
    }
}

/// Down: one entry forward; moving past the last entry empties the buffer.
pub open spec fn model_down(m: EditModel, h: Seq<Seq<char>>) -> EditModel {
    if m.2 < h.len() {
        let nb = if m.2 + 1 == h.len() { Seq::<char>::empty() } else { h[m.2 + 1 as int] };
        (nb, cursor_after_load(m.0, m.1, nb), m.2 + 1)
    } else {
        m
    }
}

/// The effect of a key other than Tab on buffer, cursor and history position.
pub open spec fn model_key(m: EditModel, h: Seq<Seq<char>>, key: Key) -> EditModel {
    match key {
        Key::Left => model_left(m),
        Key::Right => model_right(m),
        Key::Up => model_up(m, h),
        Key::Down => model_down(m, h),
        Key::Backspace => model_delete_left(m),
        Key::Delete => model_delete_right(m),
        Key::Char(c) => model_insert(m, c),
        _ => m,
    }
}

/// The candidates joined by two spaces.
pub open spec fn joined(h: Seq<Seq<char>>) -> Seq<char>
    decreases h.len(),
{
    if h.len() == 0 {
        Seq::empty()
    } else if h.len() == 1 {
        h[0]
    } else {
        joined(h.drop_last()) + seq![' ', ' '] + h.last()
    }
}

/// Escape sequence that returns to the line start and erases the line.
pub open spec fn erase_line() -> Seq<char> {
    seq!['\r', '\x1B', '[', 'K']
}

/// The text that repaints `prompt` and `buf`, then moves the terminal cursor
/// back to the logical cursor at `cur`.
pub open spec fn render_text(prompt: Seq<char>, buf: Seq<char>, cur: nat) -> Seq<char> {
    let back = buf.len() - cur;
    erase_line() + prompt + buf + if back > 0 {
        seq!['\x1B', '['] + decimal(back as nat) + seq!['D']
    } else {
        Seq::empty()
    }
}

/// What the editor asks its caller to do after a key.
#[derive(PartialEq, Eq, Debug)]
pub enum Response {
    /// Nothing beyond showing the line again.
    Continue,
    /// Ring the terminal bell.
    Bell,
    /// Print this list of candidates on a new line.
    ShowHints(String),
    /// The line is finished.
    Done,
}

pub struct LineBuffer {
    buf: Vec<char>,
    cursor: usize,
    history: Vec<String>,
    history_cursor: usize,
    builtins: Vec<String>,
    hints: Vec<String>,
    in_tab_completion: bool,
}

impl LineBuffer {
    pub closed spec fn buffer_view(&self) -> Seq<char> {
        self.buf@
    }

    pub closed spec fn cursor_view(&self) -> nat {
        self.cursor as nat
    }

    pub closed spec fn history_view(&self) -> Seq<Seq<char>> {
        views(self.history@)
    }

    pub closed spec fn history_cursor_view(&self) -> nat {
        self.history_cursor as nat
    }

    pub closed spec fn builtins_view(&self) -> Seq<Seq<char>> {
        views(self.builtins@)
    }

    pub closed spec fn hints_view(&self) -> Seq<Seq<char>> {
        views(self.hints@)
    }

    pub closed spec fn pending_view(&self) -> bool {
        self.in_tab_completion
    }

    /// Tab completion as `old` → `new`, with `bell` the bell request: no candidate
    /// rings and changes nothing; one replaces the buffer with it and a space;
    /// several extend the buffer to their common prefix when that is longer,
    /// ring, and wait for a second Tab.
    pub open spec fn completed(old: &LineBuffer, new: &LineBuffer, execs: Seq<Seq<char>>, bell: bool) -> bool {
        let h = completion_list(old.buffer_view(), old.builtins_view(), execs);
        let p = common_prefix(h);
        &&& new.same_log(old)
        &&& new.history_cursor_view() == old.history_cursor_view()
        &&& if h.len() == 0 {
            &&& bell
            &&& new.model() == old.model()
            &&& new.same_hints(old)
        } else if h.len() == 1 {
            &&& !bell
            &&& new.buffer_view() == h[0].push(' ')
            &&& new.cursor_view() == h[0].len() + 1
            &&& new.hints_view().len() == 0
            &&& !new.pending_view()
        } else {
            &&& bell
            &&& new.pending_view()
            &&& new.hints_view() == h
            &&& if p.len() > old.buffer_view().len() {
                new.buffer_view() == p && new.cursor_view() == p.len()
            } else {
                new.buffer_view() == old.buffer_view() && new.cursor_view() == old.cursor_view()
            }
        }
    }

    /// Buffer, cursor and history position together.
    pub open spec fn model(&self) -> EditModel {
        (self.buffer_view(), self.cursor_view(), self.history_cursor_view())
    }

    /// The cursor lies within the buffer and the history position within the log.
    pub open spec fn wf(&self) -> bool {
        &&& self.cursor_view() <= self.buffer_view().len()
        &&& self.history_cursor_view() <= self.history_view().len()
    }

    /// Everything but buffer, cursor and history position is as in `o`.
    pub open spec fn same_log(&self, o: &LineBuffer) -> bool {
        &&& self.history_view() == o.history_view()
        &&& self.builtins_view() == o.builtins_view()
    }

    pub open spec fn same_hints(&self, o: &LineBuffer) -> bool {
        &&& self.hints_view() == o.hints_view()
        &&& self.pending_view() == o.pending_view()
    }

    pub fn new() -> (r: Self)
        ensures
            r.wf(),
            r.buffer_view().len() == 0,
            r.cursor_view() == 0,
            r.history_view().len() == 0,
            r.history_cursor_view() == 0,
            r.builtins_view().len() == 0,
            r.hints_view().len() == 0,
            !r.pending_view(),
    {
        let r = LineBuffer {
            buf: Vec::new(),
            cursor: 0,
            history: Vec::new(),
            history_cursor: 0,
            builtins: Vec::new(),
            hints: Vec::new(),
            in_tab_completion: false,
        };
        proof {
            assert(views(r.history@) =~= Seq::<Seq<char>>::empty());
            assert(views(r.builtins@) =~= Seq::<Seq<char>>::empty());
            assert(views(r.hints@) =~= Seq::<Seq<char>>::empty());
        }
        r
    }

    /// Drops pending completion candidates.
    pub fn clear_hints(&mut self)
        ensures
            final(self).model() == old(self).model(),
            final(self).same_log(old(self)),
            final(self).hints_view().len() == 0,
            !final(self).pending_view(),
    {
        self.hints = Vec::new();
        self.in_tab_completion = false;
        proof {
            assert(views(self.hints@) =~= Seq::<Seq<char>>::empty());
        }
    }

    /// Appends `builtins` to the names that completion offers.
    pub fn set_builtins(&mut self, builtins: &[&str])
        ensures
            final(self).model() == old(self).model(),
            final(self).history_view() == old(self).history_view(),
            final(self).same_hints(old(self)),
            final(self).builtins_view()
                == old(self).builtins_view() + builtins@.map_values(|s: &str| s@),
    {
        let ghost b0 = views(self.builtins@);
        let mut i: usize = 0;
        while i < builtins.len()
            invariant
                i <= builtins.len(),
                views(self.builtins@) == b0 + builtins@.map_values(|s: &str| s@).take(i as int),
                self.model() == old(self).model(),
                self.history_view() == old(self).history_view(),
                self.same_hints(old(self)),
            decreases builtins.len() - i,
        {
            let name = builtins[i].to_owned();
            proof {
                lemma_views_push(self.builtins@, name);
            }
            self.builtins.push(name);
            proof {
                assert(views(self.builtins@) =~= b0 + builtins@.map_values(|s: &str| s@).take(i + 1));
            }
            i = i + 1;
        }
        proof {
            assert(builtins@.map_values(|s: &str| s@).take(i as int) =~= builtins@.map_values(|s: &str| s@));
        }
    }

    /// Empties the buffer.
    pub fn clear(&mut self)
        ensures
            final(self).buffer_view().len() == 0,
            final(self).cursor_view() == 0,
            final(self).history_cursor_view() == old(self).history_cursor_view(),
            final(self).same_log(old(self)),
            final(self).same_hints(old(self)),
    {
        self.buf = Vec::new();
        self.cursor = 0;
    }

    /// Inserts `c` at the cursor and moves the cursor past it.
    pub fn insert(&mut self, c: char)
        requires
            old(self).wf(),
        ensures
            final(self).wf(),
            final(self).model() == model_insert(old(self).model(), c),
            final(self).same_log(old(self)),
            final(self).same_hints(old(self)),
    {
        self.buf.insert(self.cursor, c);
        let n = self.buf.len();
        assert(self.cursor < n);
        self.cursor = self.cursor + 1;
    }

    /// Offers `entry` to the history log (see `history_after`); when it is
    /// appended, the browsing position moves to the end of the log.
    pub fn insert_history_entry(&mut self, entry: &str, interactive: bool)
        requires
            old(self).wf(),
        ensures
            final(self).wf(),
            final(self).history_view() == history_after(old(self).history_view(), entry@, interactive),
            final(self).history_view() != old(self).history_view()
                ==> final(self).history_cursor_view() == final(self).history_view().len(),
            final(self).history_view() == old(self).history_view()
                ==> final(self).history_cursor_view() == old(self).history_cursor_view(),
            final(self).buffer_view() == old(self).buffer_view(),
            final(self).cursor_view() == old(self).cursor_view(),
            final(self).builtins_view() == old(self).builtins_view(),
            final(self).same_hints(old(self)),
    {
        let n = self.history.len();
        let append = if n == 0 || !interactive {
            true
        } else {
            let e = entry.to_owned();
            !(self.history[n - 1] == e)
        };
        if append {
            let e = entry.to_owned();
            proof {
                lemma_views_push(self.history@, e);
            }
            self.history.push(e);
            self.history_cursor = self.history.len();
            proof {
                assert(views(self.history@) =~= history_after(views(old(self).history@), entry@, interactive));
            }
        }
    }

    /// The history log, oldest entry first.
    pub fn get_history(&self) -> (r: Vec<String>)
        ensures
            views(r@) == self.history_view(),
    {
        let mut r: Vec<String> = Vec::new();
        let mut i: usize = 0;
        while i < self.history.len()
            invariant
                i <= self.history.len(),
                views(r@) == views(self.history@).take(i as int),
            decreases self.history.len() - i,
        {
            let e = self.history[i].clone();
            proof {
                lemma_views_push(r@, e);
                lemma_views_take_push(self.history@, i as int);
            }
            r.push(e);
            proof {
                assert(views(r@) =~= views(self.history@).take(i + 1));
            }
            i = i + 1;
        }
        proof {
            assert(views(self.history@).take(i as int) =~= views(self.history@));
        }
        r
    }

    /// Removes the character left of the cursor, if any.
    pub fn delete_left(&mut self)
        requires
            old(self).wf(),
        ensures
            final(self).wf(),
            final(self).model() == model_delete_left(old(self).model()),
            final(self).same_log(old(self)),
            final(self).same_hints(old(self)),
    {
        if self.cursor > 0 {
            self.cursor = self.cursor - 1;
            self.buf.remove(self.cursor);
        }
    }

    /// Removes the character at the cursor, if any.
    pub fn delete_right(&mut self)
        requires
            old(self).wf(),
        ensures
            final(self).wf(),
            final(self).model() == model_delete_right(old(self).model()),
            final(self).same_log(old(self)),
            final(self).same_hints(old(self)),
    {
        if self.cursor < self.buf.len() {
            self.buf.remove(self.cursor);
        }
    }

    pub fn move_left(&mut self)
        requires
            old(self).wf(),
        ensures
            final(self).wf(),
            final(self).model() == model_left(old(self).model()),
            final(self).same_log(old(self)),
            final(self).same_hints(old(self)),
    {
        if self.cursor > 0 {
            self.cursor = self.cursor - 1;
        }
    }

    pub fn move_right(&mut self)
        requires
            old(self).wf(),
        ensures
            final(self).wf(),
            final(self).model() == model_right(old(self).model()),
            final(self).same_log(old(self)),
            final(self).same_hints(old(self)),
    {
        if self.cursor < self.buf.len() {
            self.cursor = self.cursor + 1;
        }
    }

    /// Loads one entry earlier in the history into the buffer.
    pub fn move_up_history(&mut self)
        requires
            old(self).wf(),
        ensures
            final(self).wf(),
            final(self).model() == model_up(old(self).model(), old(self).history_view()),
            final(self).same_log(old(self)),
            final(self).same_hints(old(self)),
    {
        if self.history_cursor > 0 {
            let at_end = self.cursor == self.buf.len();
            self.history_cursor = self.history_cursor - 1;
            self.buf = chars_of(self.history[self.history_cursor].as_str());
            if self.cursor > self.buf.len() || at_end {
                self.cursor = self.buf.len();
            }
        }
    }

    /// Loads one entry later in the history, or empties the buffer past the last.
    pub fn move_down_history(&mut self)
        requires
            old(self).wf(),
        ensures
            final(self).wf(),
            final(self).model() == model_down(old(self).model(), old(self).history_view()),
            final(self).same_log(old(self)),
            final(self).same_hints(old(self)),
    {
        if self.history_cursor < self.history.len() {
            let at_end = self.cursor == self.buf.len();
            self.history_cursor = self.history_cursor + 1;
            if self.history_cursor == self.history.len() {
                self.buf = Vec::new();
            } else {
                self.buf = chars_of(self.history[self.history_cursor].as_str());
            }
            if self.cursor > self.buf.len() || at_end {
                self.cursor = self.buf.len();
            }
        }
    }

    /// The buffer's text.
    pub fn to_str(&self) -> (r: String)
        ensures
            r@ == self.buffer_view(),
    {
        string_of(&self.buf)
    }

    /// Completes the buffer from the builtins and `executables` (see
    /// `completed`); returns whether to ring the bell.
    pub fn tab_completion(&mut self, executables: &Vec<String>) -> (bell: bool)
        requires
            old(self).wf(),
        ensures
            final(self).wf(),
            LineBuffer::completed(old(self), final(self), views(executables@), bell),
    {
        let cands = completion_candidates(&self.buf, &self.builtins, executables);
        if cands.len() == 0 {
            true
        } else if cands.len() == 1 {
            let mut nb = chars_of(cands[0].as_str());
            nb.push(' ');
            self.buf = nb;
            self.cursor = self.buf.len();
            self.hints = Vec::new();
            self.in_tab_completion = false;
            proof {
                assert(views(self.hints@) =~= Seq::<Seq<char>>::empty());
            }
            false
        } else {
            let p = find_common_prefix(&cands);
            let pc = chars_of(p.as_str());
            if pc.len() > self.buf.len() {
                self.buf = pc;
                self.cursor = self.buf.len();
            }
            self.hints = cands;
            self.in_tab_completion = true;
            true
        }
    }

    /// The pending candidates joined by two spaces; clears them.
    pub fn tab_hints(&mut self) -> (r: String)
        ensures
            r@ == joined(old(self).hints_view()),
            final(self).model() == old(self).model(),
            final(self).same_log(old(self)),
            final(self).hints_view().len() == 0,
            !final(self).pending_view(),
    {
        let ghost h = views(self.hints@);
        let mut out: Vec<char> = Vec::new();
        let mut k: usize = 0;
        while k < self.hints.len()
            invariant
                h == views(self.hints@),
                k <= self.hints.len(),
                out@ == joined(h.take(k as int)),
            decreases self.hints.len() - k,
        {
            let part = chars_of(self.hints[k].as_str());
            if k > 0 {
                out.push(' ');
                out.push(' ');
            }
            let mut j: usize = 0;
            let ghost start = out@;
            while j < part.len()
                invariant
                    j <= part.len(),
                    out@ == start + part@.take(j as int),
                decreases part.len() - j,
            {
                out.push(part[j]);
                proof {
                    assert(part@.take(j + 1) =~= part@.take(j as int).push(part@[j as int]));
                }
                j = j + 1;
            }
            proof {
                assert(part@.take(j as int) =~= part@);
                assert(h.take(k + 1).drop_last() =~= h.take(k as int));
                if k == 0 {
                    assert(out@ =~= joined(h.take(k + 1)));
                } else {
                    assert(out@ =~= joined(h.take(k + 1)));
                }
            }
            k = k + 1;
        }
        proof {
            assert(h.take(k as int) =~= h);
        }
        self.clear_hints();
        string_of(&out)
    }

    /// Applies one key. Tab completes, or lists the pending candidates when a
    /// completion is waiting; every other key drops pending candidates.
    pub fn handle_key(&mut self, key: Key, executables: &Vec<String>) -> (r: Response)
        requires
            old(self).wf(),
        ensures
            final(self).wf(),
            key == Key::Tab && old(self).pending_view() ==> {
                &&& r is ShowHints
                &&& r->ShowHints_0@ == joined(old(self).hints_view())
                &&& final(self).model() == old(self).model()
                &&& final(self).same_log(old(self))
                &&& final(self).hints_view().len() == 0
                &&& !final(self).pending_view()
            },
            key == Key::Tab && !old(self).pending_view() ==> {
                &&& r == Response::Bell || r == Response::Continue
                &&& LineBuffer::completed(old(self), final(self), views(executables@), r == Response::Bell)
            },
            key != Key::Tab ==> {
                &&& r == (if key == Key::Enter { Response::Done } else { Response::Continue })
                &&& final(self).model() == model_key(old(self).model(), old(self).history_view(), key)
                &&& final(self).same_log(old(self))
                &&& final(self).hints_view().len() == 0
                &&& !final(self).pending_view()
            },
    {
        let r = match key {
            Key::Tab => {
                if self.in_tab_completion {
                    return Response::ShowHints(self.tab_hints());
                } else if self.tab_completion(executables) {
                    return Response::Bell;
                } else {
                    return Response::Continue;
                }
            },
            Key::Enter => Response::Done,
            Key::Left => {
                self.move_left();
                Response::Continue
            },
            Key::Right => {
                self.move_right();
                Response::Continue
            },
            Key::Up => {
                self.move_up_history();
                Response::Continue
            },
            Key::Down => {
                self.move_down_history();
                Response::Continue
            },
            Key::Backspace => {
                self.delete_left();
                Response::Continue
            },
            Key::Delete => {
                self.delete_right();
                Response::Continue
            },
            Key::Char(c) => {
                self.insert(c);
                Response::Continue
            },
            Key::Escape => Response::Continue,
            Key::Ignored => Response::Continue,
        };
        self.clear_hints();
        r
    }

    /// Prepares for a new line: empty buffer, no pending candidates.
    pub fn begin_line(&mut self)
        requires
            old(self).wf(),
        ensures
            final(self).wf(),
            final(self).buffer_view().len() == 0,
            final(self).cursor_view() == 0,
            final(self).history_cursor_view() == old(self).history_cursor_view(),
            final(self).same_log(old(self)),
            final(self).hints_view().len() == 0,
            !final(self).pending_view(),
    {
        self.clear_hints();
        self.clear();
    }

    /// Ends the line: the browsing position returns to the end of the log, and
    /// the buffer's text is returned.
    pub fn end_line(&mut self) -> (r: String)
        requires
            old(self).wf(),
        ensures
            final(self).wf(),
            r@ == old(self).buffer_view(),
            final(self).buffer_view() == old(self).buffer_view(),
            final(self).cursor_view() == old(self).cursor_view(),
            final(self).history_cursor_view() == old(self).history_view().len(),
            final(self).same_log(old(self)),
            final(self).same_hints(old(self)),
    {
        self.history_cursor = self.history.len();
        self.to_str()
    }

    /// Whether a completion waits for a second Tab.
    pub fn completion_pending(&self) -> (r: bool)
        ensures
            r == self.pending_view(),
    {
        self.in_tab_completion
    }

    /// The pending completion candidates.
    pub fn get_hints(&self) -> (r: Vec<String>)
        ensures
            views(r@) == self.hints_view(),
    {
        let mut r: Vec<String> = Vec::new();
        let mut i: usize = 0;
        while i < self.hints.len()
            invariant
                i <= self.hints.len(),
                views(r@) == views(self.hints@).take(i as int),
            decreases self.hints.len() - i,
        {
            let e = self.hints[i].clone();
            proof {
                lemma_views_push(r@, e);
                lemma_views_take_push(self.hints@, i as int);
            }
            r.push(e);
            i = i + 1;
        }
        proof {
            assert(views(self.hints@).take(i as int) =~= views(self.hints@));
        }
        r
    }

    /// The cursor's position in the buffer.
    pub fn cursor_position(&self) -> (r: usize)
        ensures
            r == self.cursor_view(),
    {
        self.cursor
    }

    /// The text that repaints `prompt` and the buffer on the terminal and puts
    /// the terminal cursor at the logical cursor.
    pub fn render(&self, prompt: &str) -> (r: String)
        requires
            self.wf(),
        ensures
            r@ == render_text(prompt@, self.buffer_view(), self.cursor_view()),
    {
        let mut out: Vec<char> = Vec::new();
        out.push('\r');
        out.push('\x1B');
        out.push('[');
        out.push('K');
        let p = chars_of(prompt);
        let mut i: usize = 0;
        while i < p.len()
            invariant
                i <= p.len(),
                out@ == erase_line() + p@.take(i as int),
            decreases p.len() - i,
        {
            out.push(p[i]);
            proof {
                assert(p@.take(i + 1) =~= p@.take(i as int).push(p@[i as int]));
            }
            i = i + 1;
        }
        let mut j: usize = 0;
        proof {
            assert(p@.take(i as int) =~= p@);
        }
        while j < self.buf.len()
            invariant
                p@ == prompt@,
                j <= self.buf.len(),
                out@ == erase_line() + prompt@ + self.buf@.take(j as int),
            decreases self.buf.len() - j,
        {
            out.push(self.buf[j]);
            proof {
                assert(self.buf@.take(j + 1) =~= self.buf@.take(j as int).push(self.buf@[j as int]));
            }
            j = j + 1;
        }
        proof {
            assert(self.buf@.take(j as int) =~= self.buf@);
        }
        let back = self.buf.len() - self.cursor;
        if back > 0 {
            out.push('\x1B');
            out.push('[');
            push_decimal(&mut out, back);
            out.push('D');
        }
        proof {
            assert(out@ =~= render_text(prompt@, self.buffer_view(), self.cursor_view()));
        }
        string_of(&out)
    }

    /// What a terminal without cursor control shows after `key`: the whole line
    /// again after a history move or a Tab, the character typed, or nothing.
    pub fn echo_for_key(&self, key: Key, prompt: &str) -> (r: String)
        ensures
            r@ == (match key {
                Key::Up | Key::Down | Key::Tab => erase_line() + prompt@ + self.buffer_view(),
                Key::Char(c) => seq![c],
                _ => Seq::<char>::empty(),
            }),
    {
        let mut out: Vec<char> = Vec::new();
        match key {
            Key::Up | Key::Down | Key::Tab => {
                out.push('\r');
                out.push('\x1B');
                out.push('[');
                out.push('K');
                let p = chars_of(prompt);
                let mut i: usize = 0;
                while i < p.len()
                    invariant
                        i <= p.len(),
                        out@ == erase_line() + p@.take(i as int),
                    decreases p.len() - i,
                {
                    out.push(p[i]);
                    proof {
                        assert(p@.take(i + 1) =~= p@.take(i as int).push(p@[i as int]));
                    }
                    i = i + 1;
                }
                proof {
                    assert(p@.take(i as int) =~= p@);
                }
                let mut j: usize = 0;
                while j < self.buf.len()
                    invariant
                        p@ == prompt@,
                        j <= self.buf.len(),
                        out@ == erase_line() + prompt@ + self.buf@.take(j as int),
                    decreases self.buf.len() - j,
                {
                    out.push(self.buf[j]);
                    proof {
                        assert(self.buf@.take(j + 1) =~= self.buf@.take(j as int).push(self.buf@[j as int]));
                    }
                    j = j + 1;
                }
                proof {
                    assert(self.buf@.take(j as int) =~= self.buf@);
                }
            },
            Key::Char(c) => {
                out.push(c);
                proof {
                    assert(out@ =~= seq![c]);
                }
            },
            _ => {},
        }
        string_of(&out)
    }
}

} // verus!
