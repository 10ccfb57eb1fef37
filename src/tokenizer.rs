//! Splitting a command line into tokens, honouring quotes and backslashes.

use vstd::prelude::*;
use crate::text::{chars_of, string_of, views};

verus! {

/// Where the scanner stands between two characters.
#[derive(PartialEq, Eq, Structural, Clone, Copy, Debug)]
pub enum LexMode {
    /// Outside any quote.
    Plain,
    /// Outside quotes, right after a backslash.
    PlainEscape,
    /// Inside single quotes.
    Single,
    /// Inside double quotes.
    Double,
    /// Inside double quotes, right after a backslash.
    DoubleEscape,
}

/// Scanner state: finished tokens, the token being built, the mode, and
/// whether the last character was an unquoted separator (true at the start).
pub type LexState = (Seq<Seq<char>>, Seq<char>, LexMode, bool);

pub open spec fn lex_init() -> LexState {
    (Seq::empty(), Seq::empty(), LexMode::Plain, true)
}

/// One character of input applied to the scanner.
pub open spec fn lex_step(st: LexState, c: char) -> LexState {
    let (toks, cur, mode, sep) = st;
    match mode {
        LexMode::Single => {
            if c == '\'' { (toks, cur, LexMode::Plain, false) } else { (toks, cur.push(c), LexMode::Single, false) }
        },
        LexMode::Double => {
            if c == '\\' {
                (toks, cur, LexMode::DoubleEscape, false)
            } else if c == '"' {
                (toks, cur, LexMode::Plain, false)
            } else {
                (toks, cur.push(c), LexMode::Double, false)
            }
        },
        LexMode::DoubleEscape => {
            if c == '\\' || c == '"' {
                (toks, cur.push(c), LexMode::Double, false)
            } else {
                (toks, cur.push('\\').push(c), LexMode::Double, false)
            }
        },
        LexMode::PlainEscape => (toks, cur.push(c), LexMode::Plain, false),
        LexMode::Plain => {
            if c == ' ' {
                if sep { st } else { (toks.push(cur), Seq::empty(), LexMode::Plain, true) }
            } else if c == '\'' {
                (toks, cur, LexMode::Single, false)
            } else if c == '"' {
                (toks, cur, LexMode::Double, false)
            } else if c == '\\' {
                (toks, cur, LexMode::PlainEscape, false)
            } else {
                (toks, cur.push(c), LexMode::Plain, false)
            }
        },
    }
}

/// The scanner state after reading all of `s`.
pub open spec fn lex_run(s: Seq<char>) -> LexState
    decreases s.len(),
{
    if s.len() == 0 {
        lex_init()
    } else {
        lex_step(lex_run(s.drop_last()), s.last())
    }
}

/// The tokens of a line: those the scanner finished, then the partial one if non-empty.
pub open spec fn tokenize(s: Seq<char>) -> Seq<Seq<char>> {
    let st = lex_run(s);
    if st.1.len() > 0 { st.0.push(st.1) } else { st.0 }
}

/// Splits a command line into tokens. Unquoted spaces separate tokens; single
/// quotes keep everything literal; inside double quotes a backslash escapes only
/// a backslash or a double quote; outside quotes a backslash makes the next
/// character literal. Unterminated quotes are accepted.
pub fn split_args(input: &str) -> (r: Vec<String>)
    ensures
        views(r@) == tokenize(input@),
{
    let chars = chars_of(input);
    let mut args: Vec<String> = Vec::new();
    let mut cur: Vec<char> = Vec::new();
    let mut mode = LexMode::Plain;
    let mut sep = true;
    let mut i: usize = 0;
    while i < chars.len()
        invariant
            chars@ == input@,
            i <= chars.len(),
            lex_run(chars@.take(i as int)) == (views(args@), cur@, mode, sep),
        decreases chars.len() - i,
    {
        let c = chars[i];
        proof {
            assert(chars@.take(i + 1).drop_last() == chars@.take(i as int));
        }
        match mode {
            LexMode::Single => {
                if c == '\'' {
                    mode = LexMode::Plain;
                } else {
                    cur.push(c);
                }
                sep = false;
            },
            LexMode::Double => {
                if c == '\\' {
                    mode = LexMode::DoubleEscape;
                } else if c == '"' {
                    mode = LexMode::Plain;
                } else {
                    cur.push(c);
                }
                sep = false;
            },
            LexMode::DoubleEscape => {
                if c != '\\' && c != '"' {
                    cur.push('\\');
                }
                cur.push(c);
                mode = LexMode::Double;
                sep = false;
            },
            LexMode::PlainEscape => {
                cur.push(c);
                mode = LexMode::Plain;
                sep = false;
            },
            LexMode::Plain => {
                if c == ' ' {
                    if !sep {
                        let tok = string_of(&cur);
                        args.push(tok);
                        cur = Vec::new();
                        sep = true;
                    }
                } else {
                    if c == '\'' {
                        mode = LexMode::Single;
                    } else if c == '"' {
                        mode = LexMode::Double;
                    } else if c == '\\' {
                        mode = LexMode::PlainEscape;
                    } else {
                        cur.push(c);
                    }
                    sep = false;
                }
            },
        }
        proof {
            assert(views(args@) =~= lex_run(chars@.take(i + 1)).0);
        }
        i = i + 1;
    }
    proof {
        assert(chars@.take(i as int) == input@);
    }
    if cur.len() > 0 {
        let tok = string_of(&cur);
        args.push(tok);
        proof {
            assert(views(args@) =~= tokenize(input@));
        }
    }
    args
}

} // verus!
