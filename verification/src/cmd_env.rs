//! The argument scanner of the environment builtin.  Called bare, the
//! builtin lists the environment; with arguments it collects environment
//! edits — clear everything, remove a key, set `key=value` — up to the
//! first ordinary word, which starts the command to run under the edited
//! environment.  Applying the edits and running the command is the
//! caller's work; this module only decides.

use vstd::prelude::*;

use crate::cmd_cat::args_view;
use crate::error::Error;
use crate::text::{spec_trim, string_from_chars, subvec, to_char_vec, trim_chars};

verus! {

/// One environment edit.
#[derive(Debug, PartialEq, Eq)]
pub enum EnvOp {
    /// Remove every variable.
    ClearAll,
    /// Remove one variable.
    Remove(String),
    /// Assign one variable.
    Assign(String, String),
}

/// What one invocation of the builtin does.
#[derive(Debug, PartialEq, Eq)]
pub enum EnvPlan {
    /// No arguments: list the environment.
    PrintEnvironment,
    /// Apply the edits, then run the command under the edited environment.
    Run { ops: Vec<EnvOp>, command: Vec<String> },
}

/// The spec twin of `EnvOp`.
pub enum SpecEnvOp {
    ClearAll,
    Remove(Seq<char>),
    Assign(Seq<char>, Seq<char>),
}

/// The spec twin of `EnvPlan`.
pub enum SpecEnvPlan {
    PrintEnvironment,
    Run(Seq<SpecEnvOp>, Seq<Seq<char>>),
}

pub open spec fn env_ops_view(v: Seq<EnvOp>) -> Seq<SpecEnvOp> {
    Seq::new(
        v.len(),
        |i: int|
            match v[i] {
                EnvOp::ClearAll => SpecEnvOp::ClearAll,
                EnvOp::Remove(k) => SpecEnvOp::Remove(k@),
                EnvOp::Assign(k, val) => SpecEnvOp::Assign(k@, val@),
            },
    )
}

/// The number of `=` characters of `t` from position `i` on.
pub open spec fn spec_count_eq(t: Seq<char>, i: int) -> int
    decreases t.len() - i,
{
    if i < 0 || i >= t.len() {
        0
    } else {
        (if t[i] == '=' {
            1int
        } else {
            0int
        }) + spec_count_eq(t, i + 1)
    }
}

/// The position of the first `=` of `t` from `i` on; `t.len()` when there
/// is none.
pub open spec fn spec_first_eq(t: Seq<char>, i: int) -> int
    decreases t.len() - i,
{
    if i < 0 || i >= t.len() {
        t.len() as int
    } else if t[i] == '=' {
        i
    } else {
        spec_first_eq(t, i + 1)
    }
}

/// One step of the walk over the arguments, from `j` on: `-i` clears,
/// `-u` removes (taking its key from the rest of the argument or from the
/// following one), `key=value` sets, any other option is refused, and the
/// first ordinary word begins the command.
pub open spec fn spec_env_scan(args: Seq<Seq<char>>, j: int, ops: Seq<SpecEnvOp>) -> Result<
    (Seq<SpecEnvOp>, Seq<Seq<char>>),
    Seq<char>,
>
    decreases args.len() - j,
{
    if j < 0 || j >= args.len() {
        Ok((ops, Seq::empty()))
    } else {
        let t = spec_trim(args[j]);
        if t =~= seq!['-', 'i'] {
            spec_env_scan(args, j + 1, ops.push(SpecEnvOp::ClearAll))
        } else if t.len() >= 2 && t[0] == '-' && t[1] == 'u' {
            if t.len() > 2 {
                spec_env_scan(args, j + 1, ops.push(SpecEnvOp::Remove(t.subrange(2, t.len() as int))))
            } else if j + 1 < args.len() {
                spec_env_scan(args, j + 2, ops.push(SpecEnvOp::Remove(args[j + 1])))
            } else {
                Err(
                    "\x1b[4menv\x1b[24m: Found end of parameters after -u; expected key to remove"@,
                )
            }
        } else if t.len() > 0 && t[0] == '-' {
            Err("\x1b[4menv\x1b[24m: Unrecognized option: "@ + t)
        } else if spec_count_eq(t, 0) >= 1 {
            if spec_count_eq(t, 0) > 1 {
                Err(
                    "\x1b[4menv\x1b[0m: more than 1 equal sign (=) found in the following parameter: "@
                        + t,
                )
            } else {
                let e = spec_first_eq(t, 0);
                spec_env_scan(
                    args,
                    j + 1,
                    ops.push(SpecEnvOp::Assign(t.subrange(0, e), t.subrange(e + 1, t.len() as int))),
                )
            }
        } else {
            Ok((ops, args.skip(j)))
        }
    }
}

/// The whole plan: no arguments lists the environment; otherwise the
/// arguments are scanned, and an empty remaining command falls back to
/// listing — the builtin runs itself bare.
pub open spec fn spec_env_plan(args: Seq<Seq<char>>) -> Result<SpecEnvPlan, Seq<char>> {
    if args.len() <= 1 {
        Ok(SpecEnvPlan::PrintEnvironment)
    } else {
        match spec_env_scan(args, 1, Seq::empty()) {
            Err(m) => Err(m),
            Ok((ops, command)) => Ok(
                SpecEnvPlan::Run(
                    ops,
                    if command.len() == 0 {
                        seq!["env"@]
                    } else {
                        command
                    },
                ),
            ),
        }
    }
}

/// Counts the `=` characters of `t`.
fn count_eq(t: &Vec<char>) -> (r: usize)
    ensures
        r == spec_count_eq(t@, 0),
{
    let n = t.len();
    let mut cnt: usize = 0;
    let mut i: usize = 0;
    while i < n
        invariant
            i <= n,
            n == t@.len(),
            cnt <= i,
            spec_count_eq(t@, 0) == cnt + spec_count_eq(t@, i as int),
        decreases n - i,
    {
        if t[i] == '=' {
            cnt = cnt + 1;
        }
        i = i + 1;
    }
    cnt
}

/// The position of the first `=` of `t`, or its length when none exists.
fn first_eq(t: &Vec<char>) -> (r: usize)
    ensures
        r == spec_first_eq(t@, 0),
{
    let n = t.len();
    let mut i: usize = 0;
    while i < n
        invariant
            i <= n,
            n == t@.len(),
            spec_first_eq(t@, 0) == spec_first_eq(t@, i as int),
        decreases n - i,
    {
        if t[i] == '=' {
            return i;
        }
        i = i + 1;
    }
    n
}

/// Scans an environment command line into its plan.  The first argument
/// is the command's own name and is skipped.
pub fn plan_env_command(command: &Vec<String>) -> (r: Result<EnvPlan, Error>)
    requires
        command@.len() >= 1,
    ensures
        match r {
            Ok(plan) => Ok::<SpecEnvPlan, Seq<char>>(
                match plan {
                    EnvPlan::PrintEnvironment => SpecEnvPlan::PrintEnvironment,
                    EnvPlan::Run { ops, command: cmd } => SpecEnvPlan::Run(
                        env_ops_view(ops@),
                        args_view(cmd@),
                    ),
                },
            ) == spec_env_plan(args_view(command@)),
            Err(e) => (e@ matches crate::error::SpecError::OtherError(m) && Err::<
                SpecEnvPlan,
                Seq<char>,
            >(m) == spec_env_plan(args_view(command@))),
        },
{
    let n = command.len();
    if n <= 1 {
        return Ok(EnvPlan::PrintEnvironment);
    }
    let ghost gargs = args_view(command@);
    let mut ops: Vec<EnvOp> = Vec::new();
    let mut j: usize = 1;
    proof {
        assert(env_ops_view(ops@) =~= Seq::<SpecEnvOp>::empty());
    }
    let mut rest_start: Option<usize> = None;
    while j < n && rest_start.is_none()
        invariant
            1 <= j <= n,
            n == command@.len(),
            gargs == args_view(command@),
            gargs.len() == n,
            match rest_start {
                Some(rs) => rs == j && j < n && spec_env_scan(gargs, 1, Seq::empty())
                    == Ok::<(Seq<SpecEnvOp>, Seq<Seq<char>>), Seq<char>>(
                    (env_ops_view(ops@), gargs.skip(j as int)),
                ),
                None => spec_env_scan(gargs, 1, Seq::empty()) == spec_env_scan(
                    gargs,
                    j as int,
                    env_ops_view(ops@),
                ),
            },
        decreases n - j + (if rest_start is None { 1int } else { 0int }),
    {
        let ghost gops = env_ops_view(ops@);
        let item = to_char_vec(command[j].as_str());
        let t = trim_chars(&item);
        proof {
            assert(gargs[j as int] == command@[j as int]@);
        }
        if t.len() == 2 && t[0] == '-' && t[1] == 'i' {
            proof {
                assert(t@ =~= seq!['-', 'i']);
            }
            let op = EnvOp::ClearAll;
            let ghost gop = op;
            ops.push(op);
            proof {
                assert(env_ops_view(ops@) =~= gops.push(SpecEnvOp::ClearAll));
            }
            j = j + 1;
        } else if t.len() >= 2 && t[0] == '-' && t[1] == 'u' {
            proof {
                assert(!(t@ =~= seq!['-', 'i']));
            }
            if t.len() > 2 {
                let key = subvec(&t, 2, t.len());
                let op = EnvOp::Remove(string_from_chars(&key));
                ops.push(op);
                proof {
                    assert(env_ops_view(ops@) =~= gops.push(
                        SpecEnvOp::Remove(spec_trim(gargs[j as int]).subrange(
                            2,
                            spec_trim(gargs[j as int]).len() as int,
                        )),
                    ));
                }
                j = j + 1;
            } else if j + 1 < n {
                let op = EnvOp::Remove(command[j + 1].clone());
                ops.push(op);
                proof {
                    assert(gargs[j + 1 as int] == command@[j + 1 as int]@);
                    assert(env_ops_view(ops@) =~= gops.push(
                        SpecEnvOp::Remove(gargs[j + 1 as int]),
                    ));
                }
                j = j + 2;
            } else {
                return Err(Error::OtherError(String::from_str(
                    "\x1b[4menv\x1b[24m: Found end of parameters after -u; expected key to remove",
                )));
            }
        } else if t.len() > 0 && t[0] == '-' {
            proof {
                assert(!(t@ =~= seq!['-', 'i']));
            }
            let msg = String::from_str("\x1b[4menv\x1b[24m: Unrecognized option: ").concat(
                string_from_chars(&t).as_str(),
            );
            return Err(Error::OtherError(msg));
        } else {
            proof {
                if t@.len() > 0 && t@[0] == '-' {
                    assert(false);
                }
                assert(!(t@ =~= seq!['-', 'i']));
            }
            let eqs = count_eq(&t);
            if eqs >= 1 {
                if eqs > 1 {
                    let msg = String::from_str(
                        "\x1b[4menv\x1b[0m: more than 1 equal sign (=) found in the following parameter: ",
                    ).concat(string_from_chars(&t).as_str());
                    return Err(Error::OtherError(msg));
                }
                let e = first_eq(&t);
                proof {
                    lemma_first_eq_bounds(t@, 0);
                }
                let key = subvec(&t, 0, e);
                let value = subvec(&t, e + 1, t.len());
                let op = EnvOp::Assign(string_from_chars(&key), string_from_chars(&value));
                ops.push(op);
                proof {
                    let ge = spec_first_eq(t@, 0);
                    assert(env_ops_view(ops@) =~= gops.push(
                        SpecEnvOp::Assign(t@.subrange(0, ge), t@.subrange(ge + 1, t@.len() as int)),
                    ));
                }
                j = j + 1;
            } else {
                rest_start = Some(j);
            }
        }
    }
    let mut rest: Vec<String> = Vec::new();
    match rest_start {
        Some(rs) => {
            let mut i: usize = rs;
            proof {
                assert(args_view(rest@) =~= Seq::<Seq<char>>::empty());
            }
            while i < n
                invariant
                    rs <= i <= n,
                    n == command@.len(),
                    gargs == args_view(command@),
                    args_view(rest@) =~= gargs.skip(rs as int).take(i - rs),
                decreases n - i,
            {
                let ghost grest = args_view(rest@);
                rest.push(command[i].clone());
                proof {
                    assert(args_view(rest@) =~= grest.push(gargs[i as int]));
                    assert(args_view(rest@) =~= gargs.skip(rs as int).take(i + 1 - rs));
                }
                i = i + 1;
            }
            proof {
                assert(gargs.skip(rs as int).take(n - rs) =~= gargs.skip(rs as int));
            }
        },
        None => {
            rest.push(String::from_str("env"));
            proof {
                assert(spec_env_scan(gargs, j as int, env_ops_view(ops@)) == Ok::<
                    (Seq<SpecEnvOp>, Seq<Seq<char>>),
                    Seq<char>,
                >((env_ops_view(ops@), Seq::empty())));
                assert(args_view(rest@) =~= seq!["env"@]);
            }
        },
    }
    Ok(EnvPlan::Run { ops, command: rest })
}

/// The first `=` lies within the text, right where the spec says.
proof fn lemma_first_eq_bounds(t: Seq<char>, i: int)
    requires
        0 <= i <= t.len(),
    ensures
        i <= spec_first_eq(t, i) <= t.len(),
        spec_count_eq(t, i) >= 1 ==> spec_first_eq(t, i) < t.len(),
    decreases t.len() - i,
{
    if i < t.len() && t[i] != '=' {
        lemma_first_eq_bounds(t, i + 1);
    }
}

} // verus!
