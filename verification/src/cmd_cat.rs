//! The option scanner of the file-concatenation builtin.  Options apply
//! in command-line order: a file is printed with exactly the options that
//! stood before it.  The printing itself is I/O and stays outside the
//! crate; `cat` returns the list of print actions to perform.

use vstd::prelude::*;

use crate::error::Error;
use crate::syntax::spec_dec_nat;
use crate::syntax::dec_u64_chars;
use crate::text::{spec_trim, string_from_chars, to_char_vec, trim_chars};

verus! {

/// The display options of the concatenation builtin.
#[derive(Copy, Clone, Debug, PartialEq, Eq, Structural)]
pub struct CatOptions {
    pub dollar_at_end_of_line: bool,
    pub number_nonempty_lines: bool,
    pub number_lines: bool,
    pub no_repeated_empty_lines: bool,
    pub show_tabs: bool,
    pub show_non_printable: bool,
    pub no_buffering: bool,
}

impl Default for CatOptions {
    /// Every option off.
    fn default() -> (r: CatOptions)
        ensures
            r == spec_cat_default(),
    {
        CatOptions {
            dollar_at_end_of_line: false,
            number_nonempty_lines: false,
            number_lines: false,
            no_repeated_empty_lines: false,
            show_tabs: false,
            show_non_printable: false,
            no_buffering: false,
        }
    }
}

pub open spec fn spec_cat_default() -> CatOptions {
    CatOptions {
        dollar_at_end_of_line: false,
        number_nonempty_lines: false,
        number_lines: false,
        no_repeated_empty_lines: false,
        show_tabs: false,
        show_non_printable: false,
        no_buffering: false,
    }
}

pub open spec fn spec_is_opt(t: Seq<char>, p: char, c: char) -> bool {
    t.len() == 2 && t[0] == p && t[1] == c
}

/// What one option does to the current options, and the error it reports
/// if any: `-x` turns features on, `=x` turns them off, `-b` and `-u`
/// refuse to combine, and anything else is unrecognized.  The field
/// updates stick even when the conflict error comes back.
pub open spec fn spec_cat_apply(o: CatOptions, t: Seq<char>) -> (CatOptions, Option<Seq<char>>) {
    if spec_is_opt(t, '-', 'A') {
        (
            CatOptions { show_non_printable: true, dollar_at_end_of_line: true, show_tabs: true, ..o },
            None,
        )
    } else if spec_is_opt(t, '-', 'b') {
        let o2 = CatOptions { number_lines: true, number_nonempty_lines: true, ..o };
        if o.no_buffering {
            (o2, Some("\x1b[4mcat\x1b[24m: Options -b and -u cannot be set together"@))
        } else {
            (o2, None)
        }
    } else if spec_is_opt(t, '-', 'e') {
        (CatOptions { show_non_printable: true, dollar_at_end_of_line: true, ..o }, None)
    } else if spec_is_opt(t, '-', 'E') {
        (CatOptions { dollar_at_end_of_line: true, ..o }, None)
    } else if spec_is_opt(t, '-', 'n') {
        (CatOptions { number_lines: true, ..o }, None)
    } else if spec_is_opt(t, '-', 's') {
        (CatOptions { no_repeated_empty_lines: true, ..o }, None)
    } else if spec_is_opt(t, '-', 't') {
        (CatOptions { show_non_printable: true, show_tabs: true, ..o }, None)
    } else if spec_is_opt(t, '-', 'T') {
        (CatOptions { show_tabs: true, ..o }, None)
    } else if spec_is_opt(t, '-', 'u') {
        let o2 = CatOptions { no_buffering: true, ..o };
        if o.number_nonempty_lines {
            (o2, Some("\x1b[4mcat\x1b[24m: Options -b and -u cannot be set together"@))
        } else {
            (o2, None)
        }
    } else if spec_is_opt(t, '-', 'v') {
        (CatOptions { show_non_printable: true, ..o }, None)
    } else if spec_is_opt(t, '=', 'A') {
        (
            CatOptions {
                show_non_printable: false,
                dollar_at_end_of_line: false,
                show_tabs: false,
                ..o
            },
            None,
        )
    } else if spec_is_opt(t, '=', 'b') {
        (CatOptions { number_lines: false, number_nonempty_lines: false, ..o }, None)
    } else if spec_is_opt(t, '=', 'e') {
        (CatOptions { show_non_printable: false, dollar_at_end_of_line: false, ..o }, None)
    } else if spec_is_opt(t, '=', 'E') {
        (CatOptions { dollar_at_end_of_line: false, ..o }, None)
    } else if spec_is_opt(t, '=', 'n') {
        (CatOptions { number_lines: false, ..o }, None)
    } else if spec_is_opt(t, '=', 's') {
        (CatOptions { no_repeated_empty_lines: false, ..o }, None)
    } else if spec_is_opt(t, '=', 't') {
        (CatOptions { show_non_printable: false, show_tabs: false, ..o }, None)
    } else if spec_is_opt(t, '=', 'T') {
        (CatOptions { show_tabs: false, ..o }, None)
    } else if spec_is_opt(t, '=', 'u') {
        (CatOptions { no_buffering: false, ..o }, None)
    } else if spec_is_opt(t, '=', 'v') {
        (CatOptions { show_non_printable: false, ..o }, None)
    } else {
        (o, Some("\x1b[4mcat\x1b[24m: Unrecognized option: "@ + t))
    }
}

impl CatOptions {
    /// Applies one option, written `-x` or `=x`; surrounding whitespace is
    /// ignored.  On a conflict or an unrecognized option the message comes
    /// back as the error.
    #[verifier::rlimit(100)]
    pub fn parse_option(&mut self, option: &str) -> (r: Result<(), String>)
        ensures
            *final(self) == spec_cat_apply(*old(self), spec_trim(option@)).0,
            match r {
                Ok(_) => spec_cat_apply(*old(self), spec_trim(option@)).1 is None,
                Err(m) => spec_cat_apply(*old(self), spec_trim(option@)).1 == Some(m@),
            },
    {
        let chars = to_char_vec(option);
        let t = trim_chars(&chars);
        if t.len() != 2 || (t[0] != '-' && t[0] != '=') {
            return Err(unrecognized_message(&t));
        }
        let on = t[0] == '-';
        let c = t[1];
        if on {
            if c == 'A' {
                self.show_non_printable = true;
                self.dollar_at_end_of_line = true;
                self.show_tabs = true;
                Ok(())
            } else if c == 'b' {
                let conflict = self.no_buffering;
                self.number_lines = true;
                self.number_nonempty_lines = true;
                if conflict {
                    Err(String::from_str(
                        "\x1b[4mcat\x1b[24m: Options -b and -u cannot be set together",
                    ))
                } else {
                    Ok(())
                }
            } else if c == 'e' {
                self.show_non_printable = true;
                self.dollar_at_end_of_line = true;
                Ok(())
            } else if c == 'E' {
                self.dollar_at_end_of_line = true;
                Ok(())
            } else if c == 'n' {
                self.number_lines = true;
                Ok(())
            } else if c == 's' {
                self.no_repeated_empty_lines = true;
                Ok(())
            } else if c == 't' {
                self.show_non_printable = true;
                self.show_tabs = true;
                Ok(())
            } else if c == 'T' {
                self.show_tabs = true;
                Ok(())
            } else if c == 'u' {
                let conflict = self.number_nonempty_lines;
                self.no_buffering = true;
                if conflict {
                    Err(String::from_str(
                        "\x1b[4mcat\x1b[24m: Options -b and -u cannot be set together",
                    ))
                } else {
                    Ok(())
                }
            } else if c == 'v' {
                self.show_non_printable = true;
                Ok(())
            } else {
                Err(unrecognized_message(&t))
            }
        } else {
            if c == 'A' {
                self.show_non_printable = false;
                self.dollar_at_end_of_line = false;
                self.show_tabs = false;
                Ok(())
            } else if c == 'b' {
                self.number_lines = false;
                self.number_nonempty_lines = false;
                Ok(())
            } else if c == 'e' {
                self.show_non_printable = false;
                self.dollar_at_end_of_line = false;
                Ok(())
            } else if c == 'E' {
                self.dollar_at_end_of_line = false;
                Ok(())
            } else if c == 'n' {
                self.number_lines = false;
                Ok(())
            } else if c == 's' {
                self.no_repeated_empty_lines = false;
                Ok(())
            } else if c == 't' {
                self.show_non_printable = false;
                self.show_tabs = false;
                Ok(())
            } else if c == 'T' {
                self.show_tabs = false;
                Ok(())
            } else if c == 'u' {
                self.no_buffering = false;
                Ok(())
            } else if c == 'v' {
                self.show_non_printable = false;
                Ok(())
            } else {
                Err(unrecognized_message(&t))
            }
        }
    }
}

/// The message for an option that the scanner does not know.
fn unrecognized_message(t: &Vec<char>) -> (r: String)
    ensures
        r@ == "\x1b[4mcat\x1b[24m: Unrecognized option: "@ + t@,
{
    let tail = string_from_chars(t);
    String::from_str("\x1b[4mcat\x1b[24m: Unrecognized option: ").concat(tail.as_str())
}

/// One print action of a concatenation run: the file to print, with the
/// options that stood before it on the command line.
#[derive(Debug, PartialEq, Eq)]
pub struct CatAction {
    pub filename: String,
    pub options: CatOptions,
}

/// The plan of one invocation: walking the arguments in order, `-xyz`
/// and `=xyz` apply each letter as an option, and every other argument
/// prints a file with the options gathered so far.
pub open spec fn spec_cat_plan(
    args: Seq<Seq<char>>,
    j: int,
    opts: CatOptions,
    acc: Seq<(Seq<char>, CatOptions)>,
) -> Result<Seq<(Seq<char>, CatOptions)>, Seq<char>>
    decreases args.len() - j, 1int, 0int,
{
    if j < 0 || j >= args.len() {
        Ok(acc)
    } else {
        let item = args[j];
        if item.len() > 0 && (item[0] == '-' || item[0] == '=') {
            match spec_cat_opts_run(item[0], item, 1, opts) {
                Ok(opts2) => spec_cat_plan(args, j + 1, opts2, acc),
                Err(m) => Err(m),
            }
        } else {
            spec_cat_plan(args, j + 1, opts, acc.push((item, opts)))
        }
    }
}

/// Applies the option letters `item[k..]`, each prefixed with `p`.
pub open spec fn spec_cat_opts_run(p: char, item: Seq<char>, k: int, opts: CatOptions) -> Result<
    CatOptions,
    Seq<char>,
>
    decreases item.len() - k,
{
    if k < 0 || k >= item.len() {
        Ok(opts)
    } else {
        let step = spec_cat_apply(opts, spec_trim(seq![p, item[k]]));
        match step.1 {
            Some(m) => Err(m),
            None => spec_cat_opts_run(p, item, k + 1, step.0),
        }
    }
}

/// Scans a concatenation command line into its print actions.  The first
/// argument is the command's own name and is skipped; an option error
/// aborts the scan.
pub fn cat(command: &Vec<String>) -> (r: Result<Vec<CatAction>, Error>)
    requires
        command@.len() >= 1,
    ensures
        match r {
            Ok(actions) => Ok::<Seq<(Seq<char>, CatOptions)>, Seq<char>>(actions_view(actions@)) == spec_cat_plan(
                args_view(command@).drop_first(),
                0,
                spec_cat_default(),
                Seq::empty(),
            ),
            Err(e) => (e@ matches crate::error::SpecError::OtherError(m) && Err::<
                Seq<(Seq<char>, CatOptions)>,
                Seq<char>,
            >(m) == spec_cat_plan(
                args_view(command@).drop_first(),
                0,
                spec_cat_default(),
                Seq::empty(),
            )),
        },
{
    let mut opts = CatOptions::default();
    let mut actions: Vec<CatAction> = Vec::new();
    let n = command.len();
    let mut j: usize = 1;
    proof {
        assert(actions_view(actions@) =~= Seq::<(Seq<char>, CatOptions)>::empty());
        assert(args_view(command@).drop_first() =~= args_view(command@).subrange(
            1,
            command@.len() as int,
        ));
    }
    while j < n
        invariant
            1 <= j <= n,
            n == command@.len(),
            spec_cat_plan(args_view(command@).drop_first(), 0, spec_cat_default(), Seq::empty())
                == spec_cat_plan(
                args_view(command@).drop_first(),
                j - 1,
                opts,
                actions_view(actions@),
            ),
        decreases n - j,
    {
        let ghost gargs = args_view(command@).drop_first();
        let ghost gopts = opts;
        let ghost gacc = actions_view(actions@);
        proof {
            assert(gargs[j - 1] == command@[j as int]@);
        }
        let item = to_char_vec(command[j].as_str());
        if item.len() > 0 && (item[0] == '-' || item[0] == '=') {
            let p = item[0];
            let mut k: usize = 1;
            let m = item.len();
            while k < m
                invariant
                    1 <= k <= m,
                    m == item@.len(),
                    item@.len() > 0,
                    p == item@[0],
                    p == '-' || p == '=',
                    1 <= j < n,
                    n == command@.len(),
                    gargs == args_view(command@).drop_first(),
                    gargs[j - 1] == item@,
                    gacc == actions_view(actions@),
                    spec_cat_plan(gargs, 0, spec_cat_default(), Seq::empty()) == spec_cat_plan(
                        gargs,
                        j - 1,
                        gopts,
                        gacc,
                    ),
                    spec_cat_opts_run(p, item@, 1, gopts) == spec_cat_opts_run(
                        p,
                        item@,
                        k as int,
                        opts,
                    ),
                decreases m - k,
            {
                let ghost gstep_opts = opts;
                let mut two: Vec<char> = Vec::new();
                two.push(p);
                two.push(item[k]);
                let opt_str = string_from_chars(&two);
                proof {
                    assert(two@ =~= seq![p, item@[k as int]]);
                }
                match opts.parse_option(opt_str.as_str()) {
                    Ok(_) => {},
                    Err(m2) => {
                        proof {
                            assert(spec_cat_opts_run(p, item@, k as int, gstep_opts) == Err::<
                                CatOptions,
                                Seq<char>,
                            >(m2@));
                            assert(spec_cat_plan(gargs, j - 1, gopts, gacc) == Err::<
                                Seq<(Seq<char>, CatOptions)>,
                                Seq<char>,
                            >(m2@));
                        }
                        return Err(Error::OtherError(m2));
                    },
                }
                k = k + 1;
            }
            proof {
                assert(spec_cat_opts_run(p, item@, m as int, opts) == Ok::<
                    CatOptions,
                    Seq<char>,
                >(opts));
                assert(spec_cat_plan(gargs, j - 1, gopts, gacc) == spec_cat_plan(
                    gargs,
                    j as int,
                    opts,
                    actions_view(actions@),
                ));
            }
        } else {
            let ghost gaccv = actions@;
            let action = CatAction { filename: command[j].clone(), options: opts };
            let ghost gaction = action;
            actions.push(action);
            proof {
                assert(actions_view(actions@) =~= gacc.push((gaction.filename@, gaction.options)));
            }
        }
        j = j + 1;
    }
    Ok(actions)
}


// ---------------------------------------------------------------------------
// The line transform
// ---------------------------------------------------------------------------

/// Whether a byte counts as blank-line whitespace: the ASCII whitespace
/// characters.
pub open spec fn spec_ws_byte(b: u8) -> bool {
    b == 9 || b == 10 || b == 11 || b == 12 || b == 13 || b == 32
}

/// A line counts as empty when it holds nothing but whitespace.
pub open spec fn spec_blank_line(line: Seq<u8>) -> bool {
    forall|j: int| 0 <= j < line.len() ==> spec_ws_byte(line[j])
}

/// The display form of one byte below 128: control characters become a
/// caret pair, the tab only when tabs are shown.
pub open spec fn spec_ctl_byte(b: u8, show_tabs: bool) -> Seq<u8> {
    if b == 0 {
        seq![94u8, 64u8]  // ^@
    } else if b == 127 {
        seq![94u8, 63u8]  // ^?
    } else if b == 10 {
        seq![10u8]
    } else if b == 9 {
        if show_tabs {
            seq![94u8, 73u8]  // ^I
        } else {
            seq![9u8]
        }
    } else if b < 32 {
        seq![94u8, (64 + b) as u8]
    } else {
        seq![b]
    }
}

/// The non-printable display form of one byte: a high byte becomes `M-`
/// and its low half, then the control rule applies.
pub open spec fn spec_show_byte(b: u8, show_tabs: bool) -> Seq<u8> {
    if b > 127 {
        seq![77u8, 45u8] + spec_ctl_byte((b - 127) as u8, show_tabs)  // M-
    } else {
        spec_ctl_byte(b, show_tabs)
    }
}

/// The body of a line under the non-printable display, from byte `i` on.
pub open spec fn spec_line_shown(line: Seq<u8>, i: int, show_tabs: bool) -> Seq<u8>
    decreases line.len() - i,
{
    if i < 0 || i >= line.len() {
        Seq::empty()
    } else {
        spec_show_byte(line[i], show_tabs) + spec_line_shown(line, i + 1, show_tabs)
    }
}

/// The body of a line under the plain display, from byte `i` on: only the
/// tab is rewritten, always, to its caret pair.
pub open spec fn spec_line_plain(line: Seq<u8>, i: int) -> Seq<u8>
    decreases line.len() - i,
{
    if i < 0 || i >= line.len() {
        Seq::empty()
    } else {
        (if line[i] == 9 {
            seq![94u8, 73u8]
        } else {
            seq![line[i]]
        }) + spec_line_plain(line, i + 1)
    }
}

pub open spec fn spec_spaces(k: int) -> Seq<u8>
    decreases k,
{
    if k <= 0 {
        Seq::empty()
    } else {
        seq![32u8] + spec_spaces(k - 1)
    }
}

/// The line-number column: the number right-aligned in six characters,
/// then two spaces.
pub open spec fn spec_number_column(n: nat) -> Seq<u8> {
    let digits = Seq::new(spec_dec_nat(n).len(), |i: int| spec_dec_nat(n)[i] as u8);
    spec_spaces(6 - digits.len()) + digits + seq![32u8, 32u8]
}

/// The rendered lines of a concatenation run, from line `j` on, carrying
/// the next line number and whether the last printed line was empty:
/// squeezing drops repeated empty lines, numbering prefixes the column,
/// the body is rewritten per the display options, and the dollar mark
/// closes the line.
pub open spec fn spec_cat_lines(
    lines: Seq<Seq<u8>>,
    j: int,
    opts: CatOptions,
    counter: nat,
    prev_empty: bool,
) -> Seq<Seq<u8>>
    decreases lines.len() - j,
{
    if j < 0 || j >= lines.len() {
        Seq::empty()
    } else {
        let line = lines[j];
        let empty = spec_blank_line(line);
        if opts.no_repeated_empty_lines && empty && prev_empty {
            spec_cat_lines(lines, j + 1, opts, counter, prev_empty)
        } else {
            let numbered = opts.number_lines && (!opts.number_nonempty_lines || !empty);
            let counter2 = if numbered {
                counter + 1
            } else {
                counter
            };
            let prefix = if numbered {
                spec_number_column(counter2)
            } else {
                Seq::empty()
            };
            let body = if opts.show_non_printable {
                spec_line_shown(line, 0, opts.show_tabs)
            } else {
                spec_line_plain(line, 0)
            };
            let suffix: Seq<u8> = if opts.dollar_at_end_of_line {
                seq![36u8]  // $
            } else {
                Seq::empty()
            };
            seq![prefix + body + suffix] + spec_cat_lines(lines, j + 1, opts, counter2, empty)
        }
    }
}

pub open spec fn byte_lines_view(v: Seq<Vec<u8>>) -> Seq<Seq<u8>> {
    Seq::new(v.len(), |i: int| v[i]@)
}

fn blank_line(line: &Vec<u8>) -> (r: bool)
    ensures
        r == spec_blank_line(line@),
{
    let mut i: usize = 0;
    while i < line.len()
        invariant
            i <= line@.len(),
            forall|j: int| 0 <= j < i ==> spec_ws_byte(line@[j]),
        decreases line@.len() - i,
    {
        let b = line[i];
        if !(b == 9 || b == 10 || b == 11 || b == 12 || b == 13 || b == 32) {
            return false;
        }
        i = i + 1;
    }
    true
}

/// Appends the display form of one byte below 128.
fn push_ctl_byte(out: &mut Vec<u8>, b: u8, show_tabs: bool)
    requires
        b <= 128,
    ensures
        final(out)@ == old(out)@ + spec_ctl_byte(b, show_tabs),
{
    let ghost g0 = out@;
    if b == 0 {
        out.push(94);
        out.push(64);
        proof {
            assert(out@ =~= g0 + spec_ctl_byte(b, show_tabs));
        }
    } else if b == 127 {
        out.push(94);
        out.push(63);
        proof {
            assert(out@ =~= g0 + spec_ctl_byte(b, show_tabs));
        }
    } else if b == 10 {
        out.push(10);
        proof {
            assert(out@ =~= g0 + spec_ctl_byte(b, show_tabs));
        }
    } else if b == 9 {
        if show_tabs {
            out.push(94);
            out.push(73);
        } else {
            out.push(9);
        }
        proof {
            assert(out@ =~= g0 + spec_ctl_byte(b, show_tabs));
        }
    } else if b < 32 {
        out.push(94);
        out.push(64 + b);
        proof {
            assert(out@ =~= g0 + spec_ctl_byte(b, show_tabs));
        }
    } else {
        out.push(b);
        proof {
            assert(out@ =~= g0 + spec_ctl_byte(b, show_tabs));
        }
    }
}

/// The rendered body of one line.
fn render_body(line: &Vec<u8>, opts: &CatOptions) -> (r: Vec<u8>)
    ensures
        r@ == (if opts.show_non_printable {
            spec_line_shown(line@, 0, opts.show_tabs)
        } else {
            spec_line_plain(line@, 0)
        }),
{
    let n = line.len();
    let mut out: Vec<u8> = Vec::new();
    let mut i: usize = 0;
    if opts.show_non_printable {
        while i < n
            invariant
                i <= n,
                n == line@.len(),
                spec_line_shown(line@, 0, opts.show_tabs) == out@ + spec_line_shown(
                    line@,
                    i as int,
                    opts.show_tabs,
                ),
            decreases n - i,
        {
            let ghost gout = out@;
            let b = line[i];
            if b > 127 {
                out.push(77);
                out.push(45);
                push_ctl_byte(&mut out, b - 127, opts.show_tabs);
                proof {
                    assert(out@ =~= gout + spec_show_byte(b, opts.show_tabs));
                }
            } else {
                push_ctl_byte(&mut out, b, opts.show_tabs);
            }
            i = i + 1;
        }
        proof {
            assert(spec_line_shown(line@, i as int, opts.show_tabs) =~= Seq::<u8>::empty());
            assert(out@ =~= spec_line_shown(line@, 0, opts.show_tabs));
        }
    } else {
        while i < n
            invariant
                i <= n,
                n == line@.len(),
                spec_line_plain(line@, 0) == out@ + spec_line_plain(line@, i as int),
            decreases n - i,
        {
            let b = line[i];
            if b == 9 {
                out.push(94);
                out.push(73);
            } else {
                out.push(b);
            }
            i = i + 1;
        }
        proof {
            assert(spec_line_plain(line@, i as int) =~= Seq::<u8>::empty());
            assert(out@ =~= spec_line_plain(line@, 0));
        }
    }
    out
}

/// The line-number column for line number `n`.
fn number_column(n: u64) -> (r: Vec<u8>)
    ensures
        r@ == spec_number_column(n as nat),
{
    let digits = dec_u64_chars(n);
    let mut out: Vec<u8> = Vec::new();
    let mut pad: usize = 0;
    let needed: usize = if digits.len() < 6 {
        6 - digits.len()
    } else {
        0
    };
    while pad < needed
        invariant
            pad <= needed,
            needed == (if spec_dec_nat(n as nat).len() < 6 {
                6 - spec_dec_nat(n as nat).len()
            } else {
                0int
            }),
            out@ =~= spec_spaces(pad as int),
        decreases needed - pad,
    {
        let ghost gout = out@;
        out.push(32);
        proof {
            assert(out@ =~= spec_spaces(pad + 1 as int)) by {
                lemma_spaces_snoc(pad + 1 as int);
            }
        }
        pad = pad + 1;
    }
    let mut i: usize = 0;
    let ghost gdigits = Seq::new(
        spec_dec_nat(n as nat).len(),
        |k: int| spec_dec_nat(n as nat)[k] as u8,
    );
    while i < digits.len()
        invariant
            i <= digits@.len(),
            digits@ == spec_dec_nat(n as nat),
            gdigits == Seq::new(
                spec_dec_nat(n as nat).len(),
                |k: int| spec_dec_nat(n as nat)[k] as u8,
            ),
            out@ =~= spec_spaces((if spec_dec_nat(n as nat).len() < 6 {
                6 - spec_dec_nat(n as nat).len()
            } else {
                0int
            })) + gdigits.take(i as int),
        decreases digits@.len() - i,
    {
        let c = digits[i];
        out.push(c as u8);
        i = i + 1;
        proof {
            assert(gdigits.take(i as int) =~= gdigits.take(i - 1).push(gdigits[i - 1]));
        }
    }
    out.push(32);
    out.push(32);
    proof {
        assert(gdigits.take(gdigits.len() as int) =~= gdigits);
        assert(out@ =~= spec_number_column(n as nat));
    }
    out
}

/// `spec_spaces` grows at the back as well as at the front.
proof fn lemma_spaces_snoc(k: int)
    requires
        k >= 1,
    ensures
        spec_spaces(k) == spec_spaces(k - 1).push(32u8),
    decreases k,
{
    if k > 1 {
        lemma_spaces_snoc(k - 1);
        assert(spec_spaces(k) =~= spec_spaces(k - 1).push(32u8));
    } else {
        assert(spec_spaces(1) =~= spec_spaces(0).push(32u8));
    }
}

/// Renders the lines of one input under the display options: the exact
/// text the concatenation builtin prints, one output line per kept input
/// line, without the closing newlines.
pub fn cat_render_lines(lines: &Vec<Vec<u8>>, opts: &CatOptions) -> (r: Vec<Vec<u8>>)
    ensures
        byte_lines_view(r@) == spec_cat_lines(byte_lines_view(lines@), 0, *opts, 0, false),
{
    let n = lines.len();
    let mut out: Vec<Vec<u8>> = Vec::new();
    let mut counter: usize = 0;
    let mut prev_empty = false;
    let mut j: usize = 0;
    proof {
        assert(byte_lines_view(out@) =~= Seq::<Seq<u8>>::empty());
    }
    while j < n
        invariant
            j <= n,
            n == lines@.len(),
            counter <= j,
            spec_cat_lines(byte_lines_view(lines@), 0, *opts, 0, false) == byte_lines_view(out@)
                + spec_cat_lines(
                byte_lines_view(lines@),
                j as int,
                *opts,
                counter as nat,
                prev_empty,
            ),
        decreases n - j,
    {
        let ghost gout = byte_lines_view(out@);
        let line = &lines[j];
        proof {
            assert(byte_lines_view(lines@)[j as int] == line@);
        }
        let empty = blank_line(line);
        if opts.no_repeated_empty_lines && empty && prev_empty {
            // A repeated empty line is squeezed away.
        } else {
            let numbered = opts.number_lines && (!opts.number_nonempty_lines || !empty);
            let mut rendered: Vec<u8> = Vec::new();
            if numbered {
                counter = counter + 1;
                let mut column = number_column(counter as u64);
                let ghost gcol = column@;
                rendered.append(&mut column);
                proof {
                    assert(rendered@ =~= gcol);
                }
            }
            let mut body = render_body(line, opts);
            let ghost gbody = body@;
            rendered.append(&mut body);
            if opts.dollar_at_end_of_line {
                rendered.push(36);
            }
            let ghost grendered = rendered@;
            out.push(rendered);
            prev_empty = empty;
            proof {
                assert(grendered =~= (if numbered {
                    spec_number_column(counter as nat)
                } else {
                    Seq::<u8>::empty()
                }) + gbody + (if opts.dollar_at_end_of_line {
                    seq![36u8]
                } else {
                    Seq::<u8>::empty()
                }));
                assert(byte_lines_view(out@) =~= gout.push(grendered));
                assert(gout + (seq![grendered] + spec_cat_lines(
                    byte_lines_view(lines@),
                    j + 1,
                    *opts,
                    counter as nat,
                    empty,
                )) =~= byte_lines_view(out@) + spec_cat_lines(
                    byte_lines_view(lines@),
                    j + 1,
                    *opts,
                    counter as nat,
                    empty,
                ));
            }
        }
        j = j + 1;
    }
    proof {
        assert(spec_cat_lines(byte_lines_view(lines@), j as int, *opts, counter as nat, prev_empty)
            =~= Seq::<Seq<u8>>::empty());
        assert(byte_lines_view(out@) + Seq::<Seq<u8>>::empty() =~= byte_lines_view(out@));
    }
    out
}

pub open spec fn args_view(v: Seq<String>) -> Seq<Seq<char>> {
    Seq::new(v.len(), |i: int| v[i]@)
}

pub open spec fn actions_view(v: Seq<CatAction>) -> Seq<(Seq<char>, CatOptions)> {
    Seq::new(v.len(), |i: int| (v[i].filename@, v[i].options))
}

} // verus!
