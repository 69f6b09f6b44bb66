//! The option scanner and the selection rule of the head-of-file builtin.
//! Scanning yields a plan — mode, count and file list — and the selection
//! functions say exactly which lines or bytes of an input are kept: the
//! first `n`, or, for a negative count, all but the last `n`.  Reading
//! and printing stay outside the crate.

use vstd::prelude::*;

use crate::cmd_cat::args_view;
use crate::error::Error;
use crate::iters::SkipLastIterator;
use crate::text::{
    spec_parse_i32, spec_parse_int, spec_trim, parse_i32_chars, parse_i64_chars,
    string_from_chars, subvec, to_char_vec, trim_chars,
};

verus! {

/// Whether every input is announced with a header line.
#[derive(Copy, Clone, Debug, PartialEq, Eq, Structural)]
pub enum HeadMode {
    /// Decide from the number of files: verbose for several, quiet for one.
    Auto,
    Verbose,
    Quiet,
}

impl Default for HeadMode {
    fn default() -> (r: HeadMode)
        ensures
            r == HeadMode::Auto,
    {
        HeadMode::Auto
    }
}

/// How much of each input is kept.
#[derive(Copy, Clone, Debug, PartialEq, Eq, Structural)]
pub enum HeadCount {
    Bytes(i64),
    Lines(i32),
}

impl Default for HeadCount {
    /// Ten lines, as the tool keeps by default.
    fn default() -> (r: HeadCount)
        ensures
            r == HeadCount::Lines(10),
    {
        HeadCount::Lines(10)
    }
}

/// The resolved plan of one invocation.
#[derive(Debug, PartialEq, Eq)]
pub struct HeadPlan {
    pub mode: HeadMode,
    pub count: HeadCount,
    pub files: Vec<String>,
}

/// What `str::parse::<i64>` accepts, as a spec-level condition.
pub open spec fn spec_parse_i64(s: Seq<char>) -> Option<int> {
    match spec_parse_int(s) {
        Some(v) => if -0x8000_0000_0000_0000 <= v <= 0x7FFF_FFFF_FFFF_FFFF {
            Some(v)
        } else {
            None
        },
        None => None,
    }
}

/// One run of clustered option letters, `item[pos..]`: `c` and `n` take
/// the rest of the cluster — or the following argument — as their count,
/// and end the cluster; `q` and `v` set the mode and continue.  The third
/// component says whether the following argument was consumed.
pub open spec fn spec_head_opts(
    item: Seq<char>,
    pos: int,
    mode: HeadMode,
    count: HeadCount,
    next: Option<Seq<char>>,
) -> Result<(HeadMode, HeadCount, bool), Seq<char>>
    decreases item.len() - pos,
{
    if pos < 0 || pos >= item.len() {
        Ok((mode, count, false))
    } else {
        let c = item[pos];
        if c == 'c' || c == 'n' {
            let param: Option<Seq<char>> = if pos + 1 < item.len() {
                Some(item.subrange(pos + 1, item.len() as int))
            } else {
                next
            };
            let used = pos + 1 >= item.len() && next is Some;
            match param {
                None => Err(
                    "\x1b[4mhead\x1b[24m: Expected parameter for -"@ + seq![c],
                ),
                Some(p) => {
                    if c == 'c' {
                        match spec_parse_i64(p) {
                            Some(v) => Ok((mode, HeadCount::Bytes(v as i64), used)),
                            None => Err(
                                "\x1b[4mhead\x1b[24m: Error while parsing parameter for -c: "@ + p,
                            ),
                        }
                    } else {
                        match spec_parse_i32(p) {
                            Some(v) => Ok((mode, HeadCount::Lines(v as i32), used)),
                            None => Err(
                                "\x1b[4mhead\x1b[24m: Error while parsing parameter for -n: "@ + p,
                            ),
                        }
                    }
                },
            }
        } else if c == 'q' {
            spec_head_opts(item, pos + 1, HeadMode::Quiet, count, next)
        } else if c == 'v' {
            spec_head_opts(item, pos + 1, HeadMode::Verbose, count, next)
        } else {
            Err("\x1b[4mhead\x1b[24m: Unrecognized parameter: -"@ + seq![c])
        }
    }
}

/// The argument walk: `--` options are refused, a lone `-` names standard
/// input, clusters starting with `-` apply options, everything else names
/// a file (trimmed).
pub open spec fn spec_head_scan(
    args: Seq<Seq<char>>,
    j: int,
    mode: HeadMode,
    count: HeadCount,
    files: Seq<Seq<char>>,
) -> Result<(HeadMode, HeadCount, Seq<Seq<char>>), Seq<char>>
    decreases args.len() - j,
{
    if j < 0 || j >= args.len() {
        Ok((mode, count, files))
    } else {
        let item = args[j];
        if item.len() >= 2 && item[0] == '-' && item[1] == '-' {
            Err("\x1b[4mhead\x1b[24m: Long options are not supported: "@ + item)
        } else if spec_trim(item) == seq!['-'] {
            spec_head_scan(args, j + 1, mode, count, files.push(seq!['-']))
        } else if item.len() > 0 && item[0] == '-' {
            let next: Option<Seq<char>> = if j + 1 < args.len() {
                Some(args[j + 1])
            } else {
                None
            };
            match spec_head_opts(item, 1, mode, count, next) {
                Err(m) => Err(m),
                Ok((mode2, count2, used)) => spec_head_scan(
                    args,
                    j + (if used && j + 1 < args.len() {
                        2int
                    } else {
                        1int
                    }),
                    mode2,
                    count2,
                    files,
                ),
            }
        } else {
            spec_head_scan(args, j + 1, mode, count, files.push(spec_trim(item)))
        }
    }
}

/// The file names that survive the scan: the empty ones drop out.
pub open spec fn spec_keep_nonempty(files: Seq<Seq<char>>, i: int) -> Seq<Seq<char>>
    decreases files.len() - i,
{
    if i < 0 || i >= files.len() {
        Seq::empty()
    } else if files[i].len() > 0 {
        seq![files[i]] + spec_keep_nonempty(files, i + 1)
    } else {
        spec_keep_nonempty(files, i + 1)
    }
}

/// The mode once `Auto` is resolved: verbose for several files, quiet for
/// one.
pub open spec fn spec_resolve_mode(mode: HeadMode, file_count: int) -> HeadMode {
    match mode {
        HeadMode::Auto => if file_count > 1 {
            HeadMode::Verbose
        } else {
            HeadMode::Quiet
        },
        other => other,
    }
}

/// The whole plan of a head command line: scan the arguments, drop empty
/// file names, fall back to standard input when no file is left, and
/// resolve the mode.
pub open spec fn spec_head_plan(args: Seq<Seq<char>>) -> Result<
    (HeadMode, HeadCount, Seq<Seq<char>>),
    Seq<char>,
> {
    match spec_head_scan(args, 1, HeadMode::Auto, HeadCount::Lines(10), Seq::empty()) {
        Err(m) => Err(m),
        Ok((mode, count, files0)) => {
            let kept = spec_keep_nonempty(files0, 0);
            let files = if kept.len() == 0 {
                seq![seq!['-']]
            } else {
                kept
            };
            Ok((spec_resolve_mode(mode, files.len() as int), count, files))
        },
    }
}

/// The worker of the option clusters.
fn head_opts(
    item: &Vec<char>,
    pos: usize,
    mode: HeadMode,
    count: HeadCount,
    next: Option<&String>,
) -> (r: Result<(HeadMode, HeadCount, bool), Error>)
    requires
        pos >= 1,
    ensures
        match r {
            Ok(t) => Ok::<(HeadMode, HeadCount, bool), Seq<char>>(t) == spec_head_opts(
                item@,
                pos as int,
                mode,
                count,
                match next {
                    Some(s) => Some(s@),
                    None => None,
                },
            ),
            Err(e) => (e@ matches crate::error::SpecError::OtherError(m) && Err::<
                (HeadMode, HeadCount, bool),
                Seq<char>,
            >(m) == spec_head_opts(item@, pos as int, mode, count, match next {
                Some(s) => Some(s@),
                None => None,
            })),
        },
    decreases item@.len() - pos,
{
    if pos >= item.len() {
        Ok((mode, count, false))
    } else {
        let c = item[pos];
        if c == 'c' || c == 'n' {
            let (param, used): (Option<Vec<char>>, bool) = if pos + 1 < item.len() {
                (Some(subvec(item, pos + 1, item.len())), false)
            } else {
                match next {
                    Some(s) => (Some(to_char_vec(s.as_str())), true),
                    None => (None, false),
                }
            };
            match param {
                None => {
                    let mut tail: Vec<char> = Vec::new();
                    tail.push(c);
                    let msg = String::from_str("\x1b[4mhead\x1b[24m: Expected parameter for -")
                        .concat(string_from_chars(&tail).as_str());
                    proof {
                        assert(tail@ =~= seq![c]);
                    }
                    Err(Error::OtherError(msg))
                },
                Some(p) => {
                    if c == 'c' {
                        match parse_i64_chars(&p) {
                            Some(v) => Ok((mode, HeadCount::Bytes(v), used)),
                            None => {
                                let msg = String::from_str(
                                    "\x1b[4mhead\x1b[24m: Error while parsing parameter for -c: ",
                                ).concat(string_from_chars(&p).as_str());
                                Err(Error::OtherError(msg))
                            },
                        }
                    } else {
                        match parse_i32_chars(&p) {
                            Some(v) => Ok((mode, HeadCount::Lines(v), used)),
                            None => {
                                let msg = String::from_str(
                                    "\x1b[4mhead\x1b[24m: Error while parsing parameter for -n: ",
                                ).concat(string_from_chars(&p).as_str());
                                Err(Error::OtherError(msg))
                            },
                        }
                    }
                },
            }
        } else if c == 'q' {
            head_opts(item, pos + 1, HeadMode::Quiet, count, next)
        } else if c == 'v' {
            head_opts(item, pos + 1, HeadMode::Verbose, count, next)
        } else {
            let mut tail: Vec<char> = Vec::new();
            tail.push(c);
            let msg = String::from_str("\x1b[4mhead\x1b[24m: Unrecognized parameter: -").concat(
                string_from_chars(&tail).as_str(),
            );
            proof {
                assert(tail@ =~= seq![c]);
            }
            Err(Error::OtherError(msg))
        }
    }
}

/// The argument walk, from argument `j` on.
fn head_scan(
    command: &Vec<String>,
    j: usize,
    mode: HeadMode,
    count: HeadCount,
    files: Vec<String>,
) -> (r: Result<(HeadMode, HeadCount, Vec<String>), Error>)
    requires
        1 <= j,
    ensures
        match r {
            Ok(t) => Ok::<(HeadMode, HeadCount, Seq<Seq<char>>), Seq<char>>(
                (t.0, t.1, args_view(t.2@)),
            ) == spec_head_scan(args_view(command@), j as int, mode, count, args_view(files@)),
            Err(e) => (e@ matches crate::error::SpecError::OtherError(m) && Err::<
                (HeadMode, HeadCount, Seq<Seq<char>>),
                Seq<char>,
            >(m) == spec_head_scan(
                args_view(command@),
                j as int,
                mode,
                count,
                args_view(files@),
            )),
        },
    decreases command@.len() - j,
{
    if j >= command.len() {
        Ok((mode, count, files))
    } else {
        let item = to_char_vec(command[j].as_str());
        let trimmed = trim_chars(&item);
        if item.len() >= 2 && item[0] == '-' && item[1] == '-' {
            let msg = String::from_str("\x1b[4mhead\x1b[24m: Long options are not supported: ")
                .concat(command[j].as_str());
            Err(Error::OtherError(msg))
        } else if trimmed.len() == 1 && trimmed[0] == '-' {
            proof {
                assert(spec_trim(item@) =~= seq!['-']);
            }
            let mut files = files;
            let ghost gfiles = files@;
            files.push(String::from_str("-"));
            proof {
                reveal_strlit("-");
                assert(args_view(files@) =~= args_view(gfiles).push("-"@));
                assert(("-"@) =~= seq!['-']);
            }
            head_scan(command, j + 1, mode, count, files)
        } else if item.len() > 0 && item[0] == '-' {
            proof {
                if spec_trim(item@) == seq!['-'] {
                    assert(trimmed@.len() == 1);
                }
            }
            let next: Option<&String> = if j + 1 < command.len() {
                Some(&command[j + 1])
            } else {
                None
            };
            match head_opts(&item, 1, mode, count, next) {
                Err(e) => Err(e),
                Ok((mode2, count2, used)) => {
                    if used && j + 1 < command.len() {
                        head_scan(command, j + 2, mode2, count2, files)
                    } else {
                        head_scan(command, j + 1, mode2, count2, files)
                    }
                },
            }
        } else {
            proof {
                if spec_trim(item@) == seq!['-'] {
                    assert(trimmed@.len() == 1);
                }
            }
            let mut files = files;
            let ghost gfiles = files@;
            files.push(string_from_chars(&trimmed));
            proof {
                assert(args_view(files@) =~= args_view(gfiles).push(spec_trim(item@)));
            }
            head_scan(command, j + 1, mode, count, files)
        }
    }
}

/// Scans a head command line into its plan.  The first argument is the
/// command's own name and is skipped.
pub fn head(command: &Vec<String>) -> (r: Result<HeadPlan, Error>)
    requires
        command@.len() >= 1,
    ensures
        match r {
            Ok(plan) => Ok::<(HeadMode, HeadCount, Seq<Seq<char>>), Seq<char>>(
                (plan.mode, plan.count, args_view(plan.files@)),
            ) == spec_head_plan(args_view(command@)),
            Err(e) => (e@ matches crate::error::SpecError::OtherError(m) && Err::<
                (HeadMode, HeadCount, Seq<Seq<char>>),
                Seq<char>,
            >(m) == spec_head_plan(args_view(command@))),
        },
{
    proof {
        assert(args_view(Seq::<String>::empty()) =~= Seq::<Seq<char>>::empty());
    }
    match head_scan(command, 1, HeadMode::Auto, HeadCount::Lines(10), Vec::new()) {
        Err(e) => Err(e),
        Ok((mode, count, files0)) => {
            let n = files0.len();
            let mut kept: Vec<String> = Vec::new();
            let mut i: usize = 0;
            proof {
                assert(args_view(kept@) =~= Seq::<Seq<char>>::empty());
            }
            while i < n
                invariant
                    i <= n,
                    n == files0@.len(),
                    spec_keep_nonempty(args_view(files0@), 0) == args_view(kept@)
                        + spec_keep_nonempty(args_view(files0@), i as int),
                decreases n - i,
            {
                let ghost gkept = args_view(kept@);
                if files0[i].as_str().unicode_len() > 0 {
                    kept.push(files0[i].clone());
                    proof {
                        assert(args_view(kept@) =~= gkept.push(files0@[i as int]@));
                        assert(args_view(kept@) + spec_keep_nonempty(args_view(files0@), i + 1)
                            =~= gkept + (seq![args_view(files0@)[i as int]] + spec_keep_nonempty(
                            args_view(files0@),
                            i + 1,
                        )));
                    }
                }
                i = i + 1;
            }
            proof {
                assert(args_view(kept@) + Seq::<Seq<char>>::empty() =~= args_view(kept@));
            }
            let mut files = kept;
            if files.len() == 0 {
                files.push(String::from_str("-"));
                proof {
                    reveal_strlit("-");
                    assert(("-"@) =~= seq!['-']);
                    assert(args_view(files@) =~= seq![seq!['-']]);
                }
            }
            let resolved: HeadMode = match mode {
                HeadMode::Auto => if files.len() > 1 {
                    HeadMode::Verbose
                } else {
                    HeadMode::Quiet
                },
                other => other,
            };
            Ok(HeadPlan { mode: resolved, count, files })
        },
    }
}

/// The lines that a line count keeps: the first `count`, or, for a
/// negative count, everything but the last `-count`.
pub fn head_take_lines(lines: Vec<String>, count: i32) -> (r: Vec<String>)
    ensures
        count >= 0 ==> r@ == (if count as int <= lines@.len() {
            lines@.subrange(0, count as int)
        } else {
            lines@
        }),
        count < 0 ==> r@ == lines@.subrange(
            0,
            (if lines@.len() + count >= 0 {
                lines@.len() + count
            } else {
                0
            }),
        ),
{
    if count >= 0 {
        let m: usize = if (count as usize) <= lines.len() {
            count as usize
        } else {
            lines.len()
        };
        let mut out: Vec<String> = Vec::new();
        let mut i: usize = 0;
        while i < m
            invariant
                i <= m <= lines@.len(),
                out@ == lines@.subrange(0, i as int),
            decreases m - i,
        {
            out.push(lines[i].clone());
            i = i + 1;
            proof {
                assert(out@ =~= lines@.subrange(0, i as int));
            }
        }
        proof {
            if lines@.len() <= count {
                assert(lines@.subrange(0, lines@.len() as int) =~= lines@);
            }
        }
        out
    } else {
        let skip: usize = (-(count as i64)) as usize;
        proof {
            assert(skip == -(count as int));
        }
        let ghost glines = lines@;
        let mut it = SkipLastIterator::new(lines, skip);
        let mut out: Vec<String> = Vec::new();
        let mut done = false;
        while !done
            invariant
                it.count == skip,
                skip == -(count as int),
                out@ + it.items@ =~= glines,
                out@ == glines.subrange(0, out@.len() as int),
                it.items@.len() >= skip || (out@.len() == 0 && it.items@.len() == glines.len()),
                done ==> it.items@.len() <= skip,
            decreases it.items@.len() + (if done { 0int } else { 1int }),
        {
            match it.next() {
                Some(x) => {
                    out.push(x);
                    proof {
                        assert(out@ + it.items@ =~= glines);
                        assert(out@ =~= glines.subrange(0, out@.len() as int));
                    }
                },
                None => {
                    done = true;
                },
            }
        }
        proof {
            assert(out@.len() == glines.len() - it.items@.len());
            if it.items@.len() >= skip {
                assert(it.items@.len() == skip);
                assert(out@.len() == glines.len() - skip);
            } else {
                assert(out@.len() == 0);
                assert(glines.len() < skip);
            }
            assert(out@ =~= glines.subrange(
                0,
                (if glines.len() + count >= 0 {
                    glines.len() + count
                } else {
                    0
                }),
            ));
        }
        out
    }
}

/// The bytes that a byte count keeps, by the same rule as the lines.
pub fn head_take_bytes(bytes: Vec<u8>, count: i64) -> (r: Vec<u8>)
    ensures
        count >= 0 ==> r@ == (if count as int <= bytes@.len() {
            bytes@.subrange(0, count as int)
        } else {
            bytes@
        }),
        count < 0 ==> r@ == bytes@.subrange(
            0,
            (if bytes@.len() + count >= 0 {
                bytes@.len() + count
            } else {
                0
            }),
        ),
{
    if count >= 0 {
        let m: usize = if (count as u64) <= (bytes.len() as u64) {
            count as usize
        } else {
            bytes.len()
        };
        let mut out: Vec<u8> = Vec::new();
        let mut i: usize = 0;
        while i < m
            invariant
                i <= m <= bytes@.len(),
                out@ == bytes@.subrange(0, i as int),
            decreases m - i,
        {
            out.push(bytes[i]);
            i = i + 1;
            proof {
                assert(out@ =~= bytes@.subrange(0, i as int));
            }
        }
        proof {
            if bytes@.len() <= count {
                assert(bytes@.subrange(0, bytes@.len() as int) =~= bytes@);
            }
        }
        out
    } else {
        let skip_wide: u64 = if count == i64::MIN {
            0x8000_0000_0000_0000u64
        } else {
            (-count) as u64
        };
        if skip_wide >= (bytes.len() as u64) {
            let out: Vec<u8> = Vec::new();
            proof {
                assert(bytes@.subrange(0, 0) =~= Seq::<u8>::empty());
            }
            return out;
        }
        let skip: usize = skip_wide as usize;
        proof {
            assert(skip == -(count as int));
        }
        let ghost gbytes = bytes@;
        let mut it = SkipLastIterator::new(bytes, skip);
        let mut out: Vec<u8> = Vec::new();
        let mut done = false;
        while !done
            invariant
                it.count == skip,
                skip == -(count as int),
                gbytes.len() > skip,
                out@ + it.items@ =~= gbytes,
                out@ == gbytes.subrange(0, out@.len() as int),
                it.items@.len() >= skip || (out@.len() == 0 && it.items@.len() == gbytes.len()),
                done ==> it.items@.len() <= skip,
            decreases it.items@.len() + (if done { 0int } else { 1int }),
        {
            match it.next() {
                Some(x) => {
                    out.push(x);
                    proof {
                        assert(out@ + it.items@ =~= gbytes);
                        assert(out@ =~= gbytes.subrange(0, out@.len() as int));
                    }
                },
                None => {
                    done = true;
                },
            }
        }
        proof {
            assert(it.items@.len() == skip);
            assert(out@.len() == gbytes.len() - skip);
            assert(out@ =~= gbytes.subrange(0, gbytes.len() + count));
        }
        out
    }
}

} // verus!
