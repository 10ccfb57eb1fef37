//! Resolving the target of `cd`: a leading `~` becomes the home directory,
//! and a relative path is walked component by component from the current
//! directory, with `.` kept in place and `..` going up one level.

use vstd::prelude::*;
use crate::text::{chars_of, string_of, views, split_on, split_spec, split_run, token_is, lemma_views_push};

verus! {

/// The components of a path: the pieces between slashes, without empty ones and `.`.
pub open spec fn keep_parts(p: Seq<Seq<char>>) -> Seq<Seq<char>>
    decreases p.len(),
{
    if p.len() == 0 {
        Seq::empty()
    } else if p.last().len() > 0 && p.last() != "."@ {
        keep_parts(p.drop_last()).push(p.last())
    } else {
        keep_parts(p.drop_last())
    }
}

pub open spec fn path_parts(s: Seq<char>) -> Seq<Seq<char>> {
    keep_parts(split_spec(s, '/'))
}

/// `base` after walking `parts`: `..` removes the last component (none at the root),
/// any other component is appended.
pub open spec fn walk(base: Seq<Seq<char>>, parts: Seq<Seq<char>>) -> Seq<Seq<char>>
    decreases parts.len(),
{
    if parts.len() == 0 {
        base
    } else {
        let b = walk(base, parts.drop_last());
        if parts.last() == ".."@ {
            if b.len() > 0 { b.drop_last() } else { b }
        } else {
            b.push(parts.last())
        }
    }
}

/// Components joined by slashes.
pub open spec fn slash_joined(p: Seq<Seq<char>>) -> Seq<char>
    decreases p.len(),
{
    if p.len() == 0 {
        Seq::empty()
    } else if p.len() == 1 {
        p[0]
    } else {
        slash_joined(p.drop_last()) + seq!['/'] + p.last()
    }
}

/// The absolute path made of `p`.
pub open spec fn absolute_text(p: Seq<Seq<char>>) -> Seq<char> {
    seq!['/'] + slash_joined(p)
}

/// `base` with `c` appended as a path component.
pub open spec fn join_one(base: Seq<char>, c: Seq<char>) -> Seq<char> {
    if base.len() == 0 || base.last() == '/' { base + c } else { base + seq!['/'] + c }
}

pub open spec fn join_all(base: Seq<char>, cs: Seq<Seq<char>>) -> Seq<char>
    decreases cs.len(),
{
    if cs.len() == 0 {
        base
    } else {
        join_one(join_all(base, cs.drop_last()), cs.last())
    }
}

/// Whether the path begins at `~`, the home directory.
pub open spec fn starts_at_home(arg: Seq<char>) -> bool {
    arg == "~"@ || (arg.len() >= 2 && arg[0] == '~' && arg[1] == '/')
}

/// The path after `~` expansion: the home directory joined with the components after `~`.
pub open spec fn expand_home(arg: Seq<char>, home: Seq<char>) -> Seq<char> {
    if starts_at_home(arg) {
        join_all(home, path_parts(arg.skip(1)))
    } else {
        arg
    }
}

/// The directory that `cd arg` moves to from `cwd`: an absolute path as it is
/// written, a relative one walked from `cwd`.
pub open spec fn cd_target(cwd: Seq<char>, arg: Seq<char>, home: Seq<char>) -> Seq<char> {
    let p = expand_home(arg, home);
    if p.len() > 0 && p[0] == '/' {
        p
    } else {
        absolute_text(walk(path_parts(cwd), path_parts(p)))
    }
}

fn push_chars(out: &mut Vec<char>, s: &str)
    ensures
        final(out)@ == old(out)@ + s@,
{
    let cs = chars_of(s);
    let mut i: usize = 0;
    while i < cs.len()
        invariant
            i <= cs.len(),
            out@ == old(out)@ + cs@.take(i as int),
        decreases cs.len() - i,
    {
        out.push(cs[i]);
        proof {
            assert(cs@.take(i + 1) =~= cs@.take(i as int).push(cs@[i as int]));
        }
        i = i + 1;
    }
    proof {
        assert(cs@.take(i as int) =~= cs@);
    }
}

/// The components of a path.
pub fn components(s: &str) -> (r: Vec<String>)
    ensures
        views(r@) == path_parts(s@),
{
    let pieces = split_on(s, '/');
    let ghost ps = views(pieces@);
    let mut r: Vec<String> = Vec::new();
    let mut i: usize = 0;
    while i < pieces.len()
        invariant
            ps == views(pieces@),
            ps == split_spec(s@, '/'),
            i <= pieces.len(),
            views(r@) == keep_parts(ps.take(i as int)),
        decreases pieces.len() - i,
    {
        proof {
            assert(ps.take(i + 1).drop_last() =~= ps.take(i as int));
        }
        if !pieces[i].as_str().is_empty() && !token_is(pieces[i].as_str(), ".") {
            let e = pieces[i].clone();
            proof {
                lemma_views_push(r@, e);
            }
            r.push(e);
        }
        i = i + 1;
    }
    proof {
        assert(ps.take(i as int) =~= ps);
    }
    r
}

/// The text of `base` with the components `cs` joined on.
fn join_components(base: &str, cs: &Vec<String>, from: usize) -> (r: Vec<char>)
    requires
        from <= cs.len(),
    ensures
        r@ == join_all(base@, views(cs@).skip(from as int)),
{
    let ghost tail = views(cs@).skip(from as int);
    let mut out = chars_of(base);
    let mut i: usize = from;
    proof {
        assert(tail.take(0) =~= Seq::<Seq<char>>::empty());
    }
    while i < cs.len()
        invariant
            tail == views(cs@).skip(from as int),
            from <= i <= cs.len(),
            out@ == join_all(base@, tail.take(i - from)),
        decreases cs.len() - i,
    {
        if out.len() > 0 && out[out.len() - 1] != '/' {
            out.push('/');
        }
        push_chars(&mut out, cs[i].as_str());
        proof {
            assert(tail.take(i - from + 1).drop_last() =~= tail.take(i - from));
            assert(tail.take(i - from + 1).last() == views(cs@)[i as int]);
            assert(out@ =~= join_all(base@, tail.take(i - from + 1)));
        }
        i = i + 1;
    }
    proof {
        assert(tail.take(i - from) =~= tail);
    }
    out
}

/// The directory that `cd arg` moves to from `cwd`, with `home` for `~`.
pub fn resolve_cd(cwd: &str, arg: &str, home: &str) -> (r: String)
    ensures
        r@ == cd_target(cwd@, arg@, home@),
{
    let a = chars_of(arg);
    let at_home = token_is(arg, "~") || (a.len() >= 2 && a[0] == '~' && a[1] == '/');
    let path: Vec<char> = if at_home {
        proof {
            reveal_strlit("~");
            assert(a.len() >= 1);
        }
        let mut rest: Vec<char> = Vec::new();
        let mut j: usize = 1;
        proof {
            assert(rest@ =~= a@.subrange(1, 1));
        }
        while j < a.len()
            invariant
                a@ == arg@,
                1 <= j <= a.len(),
                rest@ == a@.subrange(1, j as int),
            decreases a.len() - j,
        {
            rest.push(a[j]);
            proof {
                assert(rest@ =~= a@.subrange(1, j + 1));
            }
            j = j + 1;
        }
        let rest_str = string_of(&rest);
        let parts = components(rest_str.as_str());
        proof {
            assert(rest@ =~= arg@.skip(1));
            assert(views(parts@).skip(0) =~= views(parts@));
        }
        join_components(home, &parts, 0)
    } else {
        a
    };
    proof {
        assert(at_home == starts_at_home(arg@));
        assert(path@ == expand_home(arg@, home@));
    }
    if path.len() > 0 && path[0] == '/' {
        return string_of(&path);
    }
    let path_str = string_of(&path);
    let steps = components(path_str.as_str());
    let mut dirs = components(cwd);
    let mut i: usize = 0;
    while i < steps.len()
        invariant
            i <= steps.len(),
            views(dirs@) == walk(path_parts(cwd@), views(steps@).take(i as int)),
        decreases steps.len() - i,
    {
        proof {
            assert(views(steps@).take(i + 1).drop_last() =~= views(steps@).take(i as int));
        }
        if token_is(steps[i].as_str(), "..") {
            if dirs.len() > 0 {
                dirs.pop();
                proof {
                    assert(views(dirs@) =~= walk(path_parts(cwd@), views(steps@).take(i + 1)));
                }
            }
        } else {
            let e = steps[i].clone();
            proof {
                lemma_views_push(dirs@, e);
            }
            dirs.push(e);
        }
        i = i + 1;
    }
    proof {
        assert(views(steps@).take(i as int) =~= views(steps@));
    }
    let mut out: Vec<char> = Vec::new();
    out.push('/');
    let mut k: usize = 0;
    proof {
        assert(views(dirs@).take(0) =~= Seq::<Seq<char>>::empty());
    }
    while k < dirs.len()
        invariant
            k <= dirs.len(),
            out@ == seq!['/'] + slash_joined(views(dirs@).take(k as int)),
        decreases dirs.len() - k,
    {
        if k > 0 {
            out.push('/');
        }
        push_chars(&mut out, dirs[k].as_str());
        proof {
            assert(views(dirs@).take(k + 1).drop_last() =~= views(dirs@).take(k as int));
            if k == 0 {
                assert(out@ =~= seq!['/'] + slash_joined(views(dirs@).take(k + 1)));
            } else {
                assert(out@ =~= seq!['/'] + slash_joined(views(dirs@).take(k + 1)));
            }
        }
        k = k + 1;
    }
    proof {
        assert(views(dirs@).take(k as int) =~= views(dirs@));
    }
    string_of(&out)
}

/// `cd ..` from a directory below the root moves to its parent: the
/// current directory with its last component removed.
pub proof fn lemma_cd_up(cwd: Seq<char>, home: Seq<char>)
    requires
        path_parts(cwd).len() > 0,
    ensures
        cd_target(cwd, ".."@, home) == absolute_text(path_parts(cwd).drop_last()),
{
    reveal_strlit("..");
    reveal_strlit("~");
    let d = ".."@;
    assert(d.len() == 2 && d[0] == '.' && d[1] == '.');
    assert("~"@.len() == 1);
    assert(!starts_at_home(d));
    assert(d =~= seq!['.', '.']);
    assert(d.drop_last() =~= seq!['.']);
    assert(d.drop_last().drop_last() =~= Seq::<char>::empty());
    assert(split_run(seq!['.'], '/') == (Seq::<Seq<char>>::empty(), seq!['.'])) by {
        let one = seq!['.'];
        assert(one.drop_last() =~= Seq::<char>::empty());
        assert(one.last() == '.');
        assert(split_run(Seq::<char>::empty(), '/') == (Seq::<Seq<char>>::empty(), Seq::<char>::empty()));
        assert(Seq::<char>::empty().push('.') =~= one);
    }
    assert(split_run(d, '/') == (Seq::<Seq<char>>::empty(), d)) by {
        assert(seq!['.'].push('.') =~= d);
    }
    let sp = split_spec(d, '/');
    assert(sp =~= seq![d]);
    assert(sp.drop_last() =~= Seq::<Seq<char>>::empty());
    assert(d != "."@) by {
        reveal_strlit(".");
    }
    assert(sp.last() == d);
    assert(d.len() > 0);
    assert(keep_parts(Seq::<Seq<char>>::empty()) == Seq::<Seq<char>>::empty());
    assert(keep_parts(sp) == keep_parts(sp.drop_last()).push(d));
    assert(path_parts(d) =~= seq![d]);
    assert(path_parts(d).drop_last() =~= Seq::<Seq<char>>::empty());
    let base = path_parts(cwd);
    assert(walk(base, Seq::<Seq<char>>::empty()) == base);
    assert(walk(base, path_parts(d)) == base.drop_last());
    assert(expand_home(d, home) == d);
}

} // verus!
