//! Grouping tokens into the stages of a pipeline, with each stage's
//! arguments and its stdout and stderr redirection targets.

use vstd::prelude::*;
use crate::text::{views, lemma_views_push, token_is};

verus! {

/// A redirection target: the file and whether to append rather than truncate.
pub struct Redirect {
    pub path: String,
    pub append: bool,
}

/// One stage: its words (program first) and optional redirections.
pub struct Command {
    pub args: Vec<String>,
    pub stdout: Option<Redirect>,
    pub stderr: Option<Redirect>,
}

/// A redirection as path and append flag.
pub type RedirectModel = Option<(Seq<char>, bool)>;

/// A stage as words, stdout target and stderr target.
pub type CommandModel = (Seq<Seq<char>>, RedirectModel, RedirectModel);

pub open spec fn redirect_view(r: Option<Redirect>) -> RedirectModel {
    match r {
        Some(x) => Some((x.path@, x.append)),
        None => None,
    }
}

pub open spec fn command_view(c: Command) -> CommandModel {
    (views(c.args@), redirect_view(c.stdout), redirect_view(c.stderr))
}

pub open spec fn command_views(cs: Seq<Command>) -> Seq<CommandModel> {
    cs.map_values(|c: Command| command_view(c))
}

pub open spec fn is_stdout_op(t: Seq<char>) -> bool {
    t == ">"@ || t == "1>"@ || t == ">>"@ || t == "1>>"@
}

pub open spec fn is_stdout_append(t: Seq<char>) -> bool {
    t == ">>"@ || t == "1>>"@
}

pub open spec fn is_stderr_op(t: Seq<char>) -> bool {
    t == "2>"@ || t == "2>>"@
}

pub open spec fn is_pipe(t: Seq<char>) -> bool {
    t == "|"@
}

/// Scanning state of a stage: words kept, stdout target, stderr target, and
/// whether a redirection has cut off the words that follow.
pub type StageModel = (Seq<Seq<char>>, RedirectModel, RedirectModel, bool);

/// Scans the tokens of one stage from `k`. The first stdout operator and the
/// first stderr operator that have a token after them take that token as
/// their target; the words end at the first such operator.
pub open spec fn scan_stage(t: Seq<Seq<char>>, k: int, st: StageModel) -> StageModel
    decreases t.len() - k,
{
    if k < 0 || k >= t.len() {
        st
    } else {
        let (args, out, err, cut) = st;
        let tok = t[k];
        if is_stdout_op(tok) && out is None && k + 1 < t.len() {
            scan_stage(t, k + 2, (args, Some((t[k + 1], is_stdout_append(tok))), err, true))
        } else if is_stderr_op(tok) && err is None && k + 1 < t.len() {
            scan_stage(t, k + 2, (args, out, Some((t[k + 1], tok == "2>>"@)), true))
        } else if cut {
            scan_stage(t, k + 1, st)
        } else {
            scan_stage(t, k + 1, (args.push(tok), out, err, cut))
        }
    }
}

pub open spec fn stage_model(t: Seq<Seq<char>>) -> CommandModel {
    let s = scan_stage(t, 0, (Seq::empty(), None, None, false));
    (s.0, s.1, s.2)
}

/// The index of the first `|` at or after `k`, or the length when none.
pub open spec fn first_pipe(t: Seq<Seq<char>>, k: int) -> int
    decreases t.len() - k,
{
    if k < 0 || k >= t.len() {
        t.len() as int
    } else if is_pipe(t[k]) {
        k
    } else {
        first_pipe(t, k + 1)
    }
}

/// The stages of a token list: split at each `|`, each stage scanned alone.
pub open spec fn plan(t: Seq<Seq<char>>) -> Seq<CommandModel>
    decreases t.len(),
{
    let p = first_pipe(t, 0);
    if p < 0 || p >= t.len() {
        seq![stage_model(t)]
    } else {
        seq![stage_model(t.take(p))] + plan(t.skip(p + 1))
    }
}

fn copy_range(v: &Vec<String>, a: usize, b: usize) -> (r: Vec<String>)
    requires
        a <= b <= v.len(),
    ensures
        views(r@) == views(v@).subrange(a as int, b as int),
{
    let mut r: Vec<String> = Vec::new();
    let mut i: usize = a;
    while i < b
        invariant
            a <= i <= b <= v.len(),
            views(r@) == views(v@).subrange(a as int, i as int),
        decreases b - i,
    {
        let e = v[i].clone();
        proof {
            lemma_views_push(r@, e);
        }
        r.push(e);
        proof {
            assert(views(r@) =~= views(v@).subrange(a as int, i + 1));
        }
        i = i + 1;
    }
    r
}

/// Words and redirections of one stage.
pub fn plan_stage(tokens: &Vec<String>) -> (r: Command)
    ensures
        command_view(r) == stage_model(views(tokens@)),
{
    let ghost t = views(tokens@);
    let mut args: Vec<String> = Vec::new();
    let mut out: Option<Redirect> = None;
    let mut err: Option<Redirect> = None;
    let mut cut = false;
    let mut k: usize = 0;
    proof {
        assert(views(args@) =~= Seq::<Seq<char>>::empty());
    }
    while k < tokens.len()
        invariant
            t == views(tokens@),
            stage_model(t) == ({
                let s = scan_stage(t, k as int, (views(args@), redirect_view(out), redirect_view(err), cut));
                (s.0, s.1, s.2)
            }),
        decreases tokens.len() - k,
    {
        let tok = tokens[k].as_str();
        let is_out = token_is(tok, ">") || token_is(tok, "1>") || token_is(tok, ">>") || token_is(tok, "1>>");
        let is_err = token_is(tok, "2>") || token_is(tok, "2>>");
        if is_out && out.is_none() && k + 1 < tokens.len() {
            let append = token_is(tok, ">>") || token_is(tok, "1>>");
            out = Some(Redirect { path: tokens[k + 1].clone(), append });
            cut = true;
            k = k + 2;
        } else if is_err && err.is_none() && k + 1 < tokens.len() {
            let append = token_is(tok, "2>>");
            err = Some(Redirect { path: tokens[k + 1].clone(), append });
            cut = true;
            k = k + 2;
        } else {
            if !cut {
                let e = tokens[k].clone();
                proof {
                    lemma_views_push(args@, e);
                }
                args.push(e);
            }
            k = k + 1;
        }
    }
    Command { args, stdout: out, stderr: err }
}

/// Splits a token list into pipeline stages at each `|` and plans each stage.
pub fn plan_pipeline(tokens: &Vec<String>) -> (r: Vec<Command>)
    ensures
        command_views(r@) == plan(views(tokens@)),
{
    let ghost t = views(tokens@);
    let mut done: Vec<Command> = Vec::new();
    let mut rest = copy_range(tokens, 0, tokens.len());
    proof {
        assert(t.subrange(0, t.len() as int) =~= t);
        assert(command_views(done@) =~= Seq::<CommandModel>::empty());
    }
    loop
        invariant
            t == views(tokens@),
            command_views(done@) + plan(views(rest@)) == plan(t),
        decreases rest.len(),
    {
        let ghost rv = views(rest@);
        let mut p: usize = 0;
        while p < rest.len() && !token_is(rest[p].as_str(), "|")
            invariant
                rv == views(rest@),
                p <= rest.len(),
                first_pipe(rv, 0) == first_pipe(rv, p as int),
            decreases rest.len() - p,
        {
            p = p + 1;
        }
        if p == rest.len() {
            let stage = plan_stage(&rest);
            proof {
                assert(first_pipe(rv, p as int) == rv.len());
                assert(plan(rv) == seq![stage_model(rv)]);
                assert(command_views(done@.push(stage)) =~= command_views(done@).push(command_view(stage)));
                assert(command_views(done@) + plan(rv) =~= command_views(done@.push(stage)));
            }
            done.push(stage);
            return done;
        }
        let stage_tokens = copy_range(&rest, 0, p);
        let stage = plan_stage(&stage_tokens);
        let next = copy_range(&rest, p + 1, rest.len());
        proof {
            assert(rv.take(p as int) =~= rv.subrange(0, p as int));
            assert(rv.skip(p + 1) =~= rv.subrange(p + 1, rv.len() as int));
            assert(command_views(done@.push(stage)) =~= command_views(done@).push(command_view(stage)));
        }
        done.push(stage);
        rest = next;
    }
}

} // verus!
