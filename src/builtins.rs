//! The builtin commands as a closed set, and the parts of them that are
//! plain computation: `echo`'s output, `exit`'s status, `history`'s
//! arguments, and the executable-permission test.

use vstd::prelude::*;
use crate::text::{chars_of, string_of, views, token_is};

verus! {

/// A command implemented inside the shell.
#[derive(PartialEq, Eq, Structural, Clone, Copy, Debug)]
pub enum Builtin {
    Exit,
    Echo,
    Type,
    Pwd,
    Cd,
    History,
}

/// The builtin named `name`, if any.
pub open spec fn builtin_spec(name: Seq<char>) -> Option<Builtin> {
    if name == "exit"@ {
        Some(Builtin::Exit)
    } else if name == "echo"@ {
        Some(Builtin::Echo)
    } else if name == "type"@ {
        Some(Builtin::Type)
    } else if name == "pwd"@ {
        Some(Builtin::Pwd)
    } else if name == "cd"@ {
        Some(Builtin::Cd)
    } else if name == "history"@ {
        Some(Builtin::History)
    } else {
        None
    }
}

/// Resolves a command name to a builtin; `None` means an external program.
pub fn classify(name: &str) -> (r: Option<Builtin>)
    ensures
        r == builtin_spec(name@),
{
    if token_is(name, "exit") {
        Some(Builtin::Exit)
    } else if token_is(name, "echo") {
        Some(Builtin::Echo)
    } else if token_is(name, "type") {
        Some(Builtin::Type)
    } else if token_is(name, "pwd") {
        Some(Builtin::Pwd)
    } else if token_is(name, "cd") {
        Some(Builtin::Cd)
    } else if token_is(name, "history") {
        Some(Builtin::History)
    } else {
        None
    }
}

/// The names of the builtins, in the order completion is given them.
pub fn builtin_names() -> (r: Vec<&'static str>)
    ensures
        r@.len() == 6,
        r@[0]@ == "echo"@,
        r@[1]@ == "exit"@,
        r@[2]@ == "type"@,
        r@[3]@ == "pwd"@,
        r@[4]@ == "cd"@,
        r@[5]@ == "history"@,
{
    vec!["echo", "exit", "type", "pwd", "cd", "history"]
}

/// Words joined by single spaces.
pub open spec fn spaced(ws: Seq<Seq<char>>) -> Seq<char>
    decreases ws.len(),
{
    if ws.len() == 0 {
        Seq::empty()
    } else if ws.len() == 1 {
        ws[0]
    } else {
        spaced(ws.drop_last()) + seq![' '] + ws.last()
    }
}

/// What `echo` prints: its arguments after the name, joined by spaces, then a newline.
pub fn echo_output(args: &Vec<String>) -> (r: String)
    ensures
        r@ == spaced(views(args@).skip(if args.len() > 0 { 1int } else { 0int })).push('\n'),
{
    let ghost ws = views(args@);
    let first: usize = if args.len() > 0 { 1 } else { 0 };
    let ghost tail = ws.skip(first as int);
    let mut out: Vec<char> = Vec::new();
    let mut i: usize = first;
    proof {
        assert(tail.take(0) =~= Seq::<Seq<char>>::empty());
    }
    while i < args.len()
        invariant
            ws == views(args@),
            tail == ws.skip(first as int),
            first <= i <= args.len(),
            out@ == spaced(tail.take(i - first)),
        decreases args.len() - i,
    {
        let w = chars_of(args[i].as_str());
        let ghost before = out@;
        if i > first {
            out.push(' ');
        }
        let mut j: usize = 0;
        let ghost mid = out@;
        while j < w.len()
            invariant
                j <= w.len(),
                out@ == mid + w@.take(j as int),
            decreases w.len() - j,
        {
            out.push(w[j]);
            proof {
                assert(w@.take(j + 1) =~= w@.take(j as int).push(w@[j as int]));
            }
            j = j + 1;
        }
        proof {
            assert(w@.take(j as int) =~= w@);
            assert(tail.take(i - first + 1).drop_last() =~= tail.take(i - first));
            assert(tail.take(i - first + 1).last() == ws[i as int]);
            if i == first {
                assert(before =~= Seq::<char>::empty());
            }
            assert(out@ =~= spaced(tail.take(i - first + 1)));
        }
        i = i + 1;
    }
    proof {
        assert(tail.take(i - first) =~= tail);
    }
    out.push('\n');
    string_of(&out)
}

pub open spec fn is_digit(c: char) -> bool {
    48 <= (c as u32) <= 57
}

/// The value of a string of decimal digits.
pub open spec fn digits_value(s: Seq<char>) -> nat
    decreases s.len(),
{
    if s.len() == 0 {
        0
    } else {
        digits_value(s.drop_last()) * 10 + ((s.last() as u32) - 48) as nat
    }
}

pub open spec fn all_digits(s: Seq<char>) -> bool {
    s.len() > 0 && forall|i: int| 0 <= i < s.len() ==> is_digit(#[trigger] s[i])
}

/// A decimal integer with an optional leading `+` or `-`, as `i32::from_str_radix`
/// with radix 10 reads it, when it fits in `i32`.
pub open spec fn parse_i32_spec(s: Seq<char>) -> Option<int> {
    if s.len() > 0 && s[0] == '-' && all_digits(s.drop_first()) && digits_value(s.drop_first()) <= 0x8000_0000 {
        Some(-(digits_value(s.drop_first()) as int))
    } else if s.len() > 0 && s[0] == '+' && all_digits(s.drop_first()) && digits_value(s.drop_first()) <= 0x7fff_ffff {
        Some(digits_value(s.drop_first()) as int)
    } else if all_digits(s) && digits_value(s) <= 0x7fff_ffff {
        Some(digits_value(s) as int)
    } else {
        None
    }
}

/// A decimal integer with an optional leading `+`, as `usize::from_str_radix`
/// with radix 10 reads it, when it fits in `usize`.
pub open spec fn parse_usize_spec(s: Seq<char>) -> Option<nat> {
    if s.len() > 0 && s[0] == '+' && all_digits(s.drop_first()) && digits_value(s.drop_first()) <= usize::MAX {
        Some(digits_value(s.drop_first()))
    } else if all_digits(s) && digits_value(s) <= usize::MAX {
        Some(digits_value(s))
    } else {
        None
    }
}

/// The value of the digits of `s` from `from` on, when they are all digits
/// and the value is at most `limit`.
fn digits_upto(s: &Vec<char>, from: usize, limit: u64) -> (r: Option<u64>)
    requires
        from <= s.len(),
        limit >= 9,
    ensures
        r == (if all_digits(s@.skip(from as int)) && digits_value(s@.skip(from as int)) <= limit {
            Some(digits_value(s@.skip(from as int)) as u64)
        } else {
            None::<u64>
        }),
{
    let ghost t = s@.skip(from as int);
    if from == s.len() {
        return None;
    }
    let mut v: u64 = 0;
    let mut i: usize = from;
    proof {
        assert(t.take(0) =~= Seq::<char>::empty());
    }
    while i < s.len()
        invariant
            t == s@.skip(from as int),
            from < s.len(),
            from <= i <= s.len(),
            v as nat == digits_value(t.take(i - from)),
            v <= limit,
            limit >= 9,
            forall|k: int| 0 <= k < i - from ==> is_digit(#[trigger] t[k]),
        decreases s.len() - i,
    {
        let c = s[i];
        proof {
            assert(t.take(i - from + 1).drop_last() =~= t.take(i - from));
            assert(t[i - from] == c);
        }
        let cu = c as u32;
        if !(48 <= cu && cu <= 57) {
            proof {
                assert(!is_digit(t[i - from]));
            }
            return None;
        }
        let d = (cu - 48) as u64;
        if v > (limit - d) / 10 {
            proof {
                lemma_digits_grow(t, (i - from) as int, v as int, d as int, limit as int);
            }
            return None;
        }
        proof {
            assert(v * 10 + d <= limit) by (nonlinear_arith)
                requires
                    v <= (limit - d) / 10,
                    d <= limit,
            ;
            assert(digits_value(t.take(i - from + 1)) == v * 10 + d);
        }
        v = v * 10 + d;
        i = i + 1;
    }
    proof {
        assert(t.take(i - from) =~= t);
    }
    Some(v)
}

proof fn lemma_digits_grow(t: Seq<char>, n: int, v: int, d: int, limit: int)
    requires
        0 <= n < t.len(),
        forall|k: int| 0 <= k <= n ==> is_digit(#[trigger] t[k]),
        v == digits_value(t.take(n)),
        d == (t[n] as u32) - 48,
        0 <= d <= 9,
        0 <= d <= limit,
        v > (limit - d) / 10,
    ensures
        !(all_digits(t) && digits_value(t) <= limit),
{
    assert(t.take(n + 1).drop_last() =~= t.take(n));
    assert(digits_value(t.take(n + 1)) == v * 10 + d);
    assert(v * 10 + d > limit) by (nonlinear_arith)
        requires
            v > (limit - d) / 10,
            0 <= d,
            d <= limit,
    ;
    lemma_digits_prefix_le(t, n + 1);
}

proof fn lemma_digits_prefix_le(t: Seq<char>, n: int)
    requires
        0 <= n <= t.len(),
    ensures
        all_digits(t) ==> digits_value(t.take(n)) <= digits_value(t),
    decreases t.len() - n,
{
    if n < t.len() && all_digits(t) {
        lemma_digits_prefix_le(t, n + 1);
        assert(t.take(n + 1).drop_last() =~= t.take(n));
        assert(is_digit(t[n]));
        assert(digits_value(t.take(n + 1)) >= digits_value(t.take(n)));
    } else if n == t.len() {
        assert(t.take(n) =~= t);
    }
}

/// The status that `exit` ends the shell with: its first argument read as an
/// `i32`, or 0 when absent or unreadable.
pub fn exit_code(args: &Vec<String>) -> (r: i32)
    ensures
        r == (if args.len() > 1 {
            match parse_i32_spec(args@[1]@) {
                Some(v) => v,
                None => 0,
            }
        } else {
            0
        }),
{
    if args.len() <= 1 {
        return 0;
    }
    let s = chars_of(args[1].as_str());
    proof {
        assert(s@.skip(1) =~= s@.drop_first());
        assert(s@.skip(0) =~= s@);
    }
    if s.len() > 0 && s[0] == '-' {
        match digits_upto(&s, 1, 0x8000_0000) {
            Some(v) => {
                if v == 0x8000_0000 {
                    return -2147483648i32;
                }
                return -(v as i32);
            },
            None => return 0,
        }
    }
    if s.len() > 0 && s[0] == '+' {
        match digits_upto(&s, 1, 0x7fff_ffff) {
            Some(v) => return v as i32,
            None => return 0,
        }
    }
    proof {
        if s@.len() > 0 {
            assert(s@[0] == s@.skip(0)[0]);
        }
    }
    match digits_upto(&s, 0, 0x7fff_ffff) {
        Some(v) => v as i32,
        None => 0,
    }
}

/// What a `history` command asks for.
#[derive(PartialEq, Eq, Debug)]
pub enum HistoryCommand {
    /// Print the log, or only its last entries.
    List(Option<usize>),
    /// `-r file`: offer each line of the file to the log.
    Read(String),
    /// `-w file`: write the whole log to the file.
    Write(String),
    /// `-a file`: append the entries added since the last `-a`.
    Append(String),
    /// Anything else: do nothing.
    Nothing,
}

/// Reads the arguments of `history` (the name first).
pub fn history_command(args: &Vec<String>) -> (r: HistoryCommand)
    ensures
        args.len() <= 1 ==> r == HistoryCommand::List(None),
        args.len() > 1 && parse_usize_spec(args@[1]@) is Some
            ==> r == HistoryCommand::List(Some(parse_usize_spec(args@[1]@)->0 as usize)),
        args.len() > 1 && parse_usize_spec(args@[1]@) is None ==> {
            if args.len() == 3 && args@[1]@ == "-r"@ {
                r is Read && r->Read_0@ == args@[2]@
            } else if args.len() == 3 && args@[1]@ == "-w"@ {
                r is Write && r->Write_0@ == args@[2]@
            } else if args.len() == 3 && args@[1]@ == "-a"@ {
                r is Append && r->Append_0@ == args@[2]@
            } else {
                r == HistoryCommand::Nothing
            }
        },
{
    if args.len() <= 1 {
        return HistoryCommand::List(None);
    }
    let s = chars_of(args[1].as_str());
    proof {
        assert(s@.skip(1) =~= s@.drop_first());
        assert(s@.skip(0) =~= s@);
    }
    let parsed = if s.len() > 0 && s[0] == '+' {
        digits_upto(&s, 1, usize::MAX as u64)
    } else {
        proof {
            if s@.len() > 0 {
                assert(s@[0] == s@.skip(0)[0]);
            }
        }
        digits_upto(&s, 0, usize::MAX as u64)
    };
    match parsed {
        Some(n) => HistoryCommand::List(Some(n as usize)),
        None => {
            if args.len() != 3 {
                HistoryCommand::Nothing
            } else if token_is(args[1].as_str(), "-r") {
                HistoryCommand::Read(args[2].clone())
            } else if token_is(args[1].as_str(), "-w") {
                HistoryCommand::Write(args[2].clone())
            } else if token_is(args[1].as_str(), "-a") {
                HistoryCommand::Append(args[2].clone())
            } else {
                HistoryCommand::Nothing
            }
        },
    }
}

/// The permission pattern of an executable: owner `rwx`, group and other `r-x`.
pub const EXEC_PATTERN: u32 = 0o755;

/// A file counts as executable when its mode holds every bit of `EXEC_PATTERN`.
pub fn is_executable_mode(mode: u32) -> (r: bool)
    ensures
        r == (mode & EXEC_PATTERN == EXEC_PATTERN),
{
    mode & EXEC_PATTERN == EXEC_PATTERN
}

} // verus!
