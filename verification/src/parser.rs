//! The command-line parser.
//!
//! The grammar is given operationally, as three character scans — the
//! pipe-chain split, the word split of one command, and the item scan of
//! one word — together with the word walk that recognizes redirections.
//! Each scan exists twice: as a spec function over `Seq<char>`, which is
//! the definition of the grammar, and as an executable function whose
//! contract says that it computes exactly the spec function's value.

use vstd::prelude::*;

use crate::syntax::{
    CommandItem, CommandSyntax, OutputRedirectionKind, ParseError, SpecCommand, SpecItem,
    SpecParseError, SpecTree, SyntaxTree, command_view, item_view, items_view,
    lemma_items_view_push, lemma_stages_view_push, spec_inject,
    spec_normalize_item, stages_view, tree_view,
};
use crate::text::{
    is_quote_char, leading_ws, lemma_leading_ws, parse_i32_chars, spec_is_blank, spec_is_quote,
    spec_leading_ws, spec_parse_i32, spec_trim, subvec, string_from_chars, to_char_vec,
    trim_chars, is_blank_chars,
};

verus! {

broadcast use vstd::seq::group_seq_axioms;

// ---------------------------------------------------------------------------
// Scan states
// ---------------------------------------------------------------------------

/// What the item scan is currently accumulating.
#[derive(Copy, Clone, Debug)]
pub enum Filling {
    /// Unquoted raw text.
    Raw,
    /// A quoted string, closed by the same character that opened it.
    Quoted(char),
    /// The text of a nested subcommand, between parentheses.
    Sub,
    /// A variable name after `$`.
    Var,
}

// ---------------------------------------------------------------------------
// Pipe-chain split
// ---------------------------------------------------------------------------

/// The offsets of the unescaped, unquoted pipe characters of `s`, found by
/// a left-to-right scan: a backtick escapes the next character, a quote
/// suppresses everything until its matching close, and `>` consumes the
/// character after it, so that `>|` is never split on.
pub open spec fn pipe_scan(
    s: Seq<char>,
    i: int,
    skip_next: bool,
    skip_char: Option<char>,
    acc: Seq<int>,
) -> Seq<int>
    decreases s.len() - i,
{
    if i < 0 || i >= s.len() {
        acc
    } else {
        let c = s[i];
        if skip_next {
            pipe_scan(s, i + 1, false, skip_char, acc)
        } else if skip_char is Some {
            if c == skip_char->0 {
                pipe_scan(s, i + 1, false, None, acc)
            } else {
                pipe_scan(s, i + 1, false, skip_char, acc)
            }
        } else if c == '`' {
            pipe_scan(s, i + 1, true, None, acc)
        } else if c == '>' {
            pipe_scan(s, i + 1, true, None, acc)
        } else if spec_is_quote(c) {
            pipe_scan(s, i + 1, false, Some(c), acc)
        } else if c == '|' {
            pipe_scan(s, i + 1, false, None, acc.push(i))
        } else {
            pipe_scan(s, i + 1, false, None, acc)
        }
    }
}

pub open spec fn pipe_offsets(s: Seq<char>) -> Seq<int> {
    pipe_scan(s, 0, false, None, Seq::empty())
}

/// Where the `k`-th piece of the split at `offs` begins (inclusive).
pub open spec fn piece_start(offs: Seq<int>, k: int) -> int {
    if k == 0 {
        0
    } else {
        offs[k - 1] + 1
    }
}

/// Where the `k`-th piece of the split at `offs` ends (exclusive).
pub open spec fn piece_end(s: Seq<char>, offs: Seq<int>, k: int) -> int {
    if k < offs.len() {
        offs[k]
    } else {
        s.len() as int
    }
}

pub open spec fn spec_piece(s: Seq<char>, offs: Seq<int>, k: int) -> Seq<char> {
    s.subrange(piece_start(offs, k), piece_end(s, offs, k))
}

// ---------------------------------------------------------------------------
// Word split of one command
// ---------------------------------------------------------------------------

/// Splits a command into words at unescaped, unquoted, unparenthesized
/// spaces, keeping every other character, and recording each word's start
/// offset.  Quotes suppress the space until the matching close; an open
/// parenthesis suppresses it until its matching close, nested parentheses
/// included.
pub open spec fn word_scan(
    s: Seq<char>,
    i: int,
    start: int,
    buf: Seq<char>,
    skip_next: bool,
    quote: Option<char>,
    depth: int,
    acc: Seq<(int, Seq<char>)>,
) -> Seq<(int, Seq<char>)>
    decreases s.len() - i,
{
    if i < 0 || i >= s.len() {
        if buf.len() > 0 {
            acc.push((start, buf))
        } else {
            acc
        }
    } else {
        let c = s[i];
        if skip_next {
            word_scan(s, i + 1, start, buf.push(c), false, quote, depth, acc)
        } else if quote is Some {
            if c == quote->0 {
                word_scan(s, i + 1, start, buf.push(c), false, None, depth, acc)
            } else {
                word_scan(s, i + 1, start, buf.push(c), false, quote, depth, acc)
            }
        } else if depth > 0 {
            if c == '(' {
                word_scan(s, i + 1, start, buf.push(c), false, None, depth + 1, acc)
            } else if c == ')' {
                word_scan(s, i + 1, start, buf.push(c), false, None, depth - 1, acc)
            } else {
                word_scan(s, i + 1, start, buf.push(c), false, None, depth, acc)
            }
        } else if c == '`' {
            word_scan(s, i + 1, start, buf.push(c), true, None, 0, acc)
        } else if spec_is_quote(c) {
            word_scan(s, i + 1, start, buf.push(c), false, Some(c), 0, acc)
        } else if c == '(' {
            word_scan(s, i + 1, start, buf.push(c), false, None, 1, acc)
        } else if c == ' ' {
            word_scan(s, i + 1, i + 1, Seq::empty(), false, None, 0, acc.push((start, buf)))
        } else {
            word_scan(s, i + 1, start, buf.push(c), false, None, 0, acc)
        }
    }
}

pub open spec fn spec_words(s: Seq<char>) -> Seq<(int, Seq<char>)> {
    word_scan(s, 0, 0, Seq::empty(), false, None, 0, Seq::empty())
}

// ---------------------------------------------------------------------------
// Finding a redirection operator inside a word
// ---------------------------------------------------------------------------

/// The first unescaped `<` or `>` of a word that stands outside every
/// quote and parenthesis, with its offset.
pub open spec fn find_redir(
    w: Seq<char>,
    i: int,
    skip_next: bool,
    quote: Option<char>,
    depth: int,
) -> Option<(int, char)>
    decreases w.len() - i,
{
    if i < 0 || i >= w.len() {
        None
    } else {
        let c = w[i];
        if skip_next {
            find_redir(w, i + 1, false, quote, depth)
        } else if c == '`' {
            find_redir(w, i + 1, true, quote, depth)
        } else if quote is Some {
            if c == quote->0 {
                find_redir(w, i + 1, false, None, depth)
            } else {
                find_redir(w, i + 1, false, quote, depth)
            }
        } else if depth > 0 {
            if c == '(' {
                find_redir(w, i + 1, false, None, depth + 1)
            } else if c == ')' {
                find_redir(w, i + 1, false, None, depth - 1)
            } else {
                find_redir(w, i + 1, false, None, depth)
            }
        } else if spec_is_quote(c) {
            find_redir(w, i + 1, false, Some(c), 0)
        } else if c == '(' {
            find_redir(w, i + 1, false, None, 1)
        } else if c == '<' || c == '>' {
            Some((i, c))
        } else {
            find_redir(w, i + 1, false, None, 0)
        }
    }
}

pub open spec fn spec_find_redir(w: Seq<char>) -> Option<(int, char)> {
    find_redir(w, 0, false, None, 0)
}


/// A found redirection operator lies inside its word.
pub proof fn lemma_find_redir_in_range(w: Seq<char>)
    ensures
        match spec_find_redir(w) {
            Some(p) => 0 <= p.0 < w.len() && (p.1 == '<' || p.1 == '>'),
            None => true,
        },
{
    lemma_find_redir_from(w, 0, false, None, 0);
}

proof fn lemma_find_redir_from(
    w: Seq<char>,
    i: int,
    skip_next: bool,
    quote: Option<char>,
    depth: int,
)
    ensures
        match find_redir(w, i, skip_next, quote, depth) {
            Some(p) => i <= p.0 < w.len() && (p.1 == '<' || p.1 == '>'),
            None => true,
        },
    decreases w.len() - i,
{
    if 0 <= i < w.len() {
        let c = w[i];
        if skip_next {
            lemma_find_redir_from(w, i + 1, false, quote, depth);
        } else if c == '`' {
            lemma_find_redir_from(w, i + 1, true, quote, depth);
        } else if quote is Some {
            if c == quote->0 {
                lemma_find_redir_from(w, i + 1, false, None, depth);
            } else {
                lemma_find_redir_from(w, i + 1, false, quote, depth);
            }
        } else if depth > 0 {
            if c == '(' {
                lemma_find_redir_from(w, i + 1, false, None, depth + 1);
            } else if c == ')' {
                lemma_find_redir_from(w, i + 1, false, None, depth - 1);
            } else {
                lemma_find_redir_from(w, i + 1, false, None, depth);
            }
        } else if spec_is_quote(c) {
            lemma_find_redir_from(w, i + 1, false, Some(c), 0);
        } else if c == '(' {
            lemma_find_redir_from(w, i + 1, false, None, 1);
        } else if c == '<' || c == '>' {
        } else {
            lemma_find_redir_from(w, i + 1, false, None, 0);
        }
    }
}

// ---------------------------------------------------------------------------
// The command parser
// ---------------------------------------------------------------------------

/// Parses one pipeline stage: blank input is an error; otherwise the words
/// are walked, redirections wrap the growing syntax, and the remaining
/// words become the argument items of the innermost command.  `allow_sub`
/// is false while the text of a subcommand is being parsed: a subcommand
/// inside a subcommand is rejected.
pub open spec fn spec_parse_command(base: int, s: Seq<char>, allow_sub: bool) -> Result<
    SpecCommand,
    SpecParseError,
>
    decreases (if allow_sub { 1int } else { 0int }), 3int, 0int, 0int,
{
    if spec_is_blank(s) {
        Err(SpecParseError {
            start_index: base,
            end_index: base + 1,
            reason: "An empty command was given"@,
        })
    } else {
        spec_process_words(
            base,
            spec_words(s),
            0,
            SpecCommand::Command(Seq::empty()),
            Seq::empty(),
            allow_sub,
        )
    }
}

/// One step of the word walk of `spec_parse_command`: the word at `k`
/// either carries a redirection operator, extending the redirection chain
/// (possibly consuming the following word as the file name), or is parsed
/// as a command item.
pub open spec fn spec_process_words(
    base: int,
    words: Seq<(int, Seq<char>)>,
    k: int,
    syntax: SpecCommand,
    parts: Seq<SpecItem>,
    allow_sub: bool,
) -> Result<SpecCommand, SpecParseError>
    decreases (if allow_sub { 1int } else { 0int }), 2int, words.len() - k, 1int,
{
    if k < 0 || k >= words.len() {
        Ok(spec_inject(syntax, parts))
    } else {
        let wstart = words[k].0;
        let w = words[k].1;
        match spec_find_redir(w) {
            None => match spec_parse_item(base + wstart, w, allow_sub) {
                Err(e) => Err(e),
                Ok(item) => spec_process_words(
                    base,
                    words,
                    k + 1,
                    syntax,
                    parts.push(item),
                    allow_sub,
                ),
            },
            Some((i, op)) => {
                if op == '<' {
                    spec_input_redirection(base, words, k, i, syntax, parts, allow_sub)
                } else {
                    spec_output_redirection(base, words, k, i, syntax, parts, allow_sub)
                }
            },
        }
    }
}

/// The `<` case of the word walk.
pub open spec fn spec_input_redirection(
    base: int,
    words: Seq<(int, Seq<char>)>,
    k: int,
    i: int,
    syntax: SpecCommand,
    parts: Seq<SpecItem>,
    allow_sub: bool,
) -> Result<SpecCommand, SpecParseError>
    decreases (if allow_sub { 1int } else { 0int }), 2int, words.len() - k, 0int,
{
    let wstart = words[k].0;
    let w = words[k].1;
    let fd_part = w.subrange(0, i);
    let file_part = w.subrange(i + 1, w.len() as int);
    if k < 0 || k >= words.len() {
        Ok(spec_inject(syntax, parts))
    } else if !(fd_part.len() == 0 || fd_part =~= seq!['0']) {
        Err(SpecParseError {
            start_index: base + wstart,
            end_index: base + wstart + i,
            reason: "Only 0 or the default file descriptor (empty) are supported"@,
        })
    } else {
        let fd: Option<i32> = if fd_part.len() == 0 {
            None
        } else {
            Some(0)
        };
        if file_part.len() == 0 && k + 1 >= words.len() {
            Err(SpecParseError {
                start_index: base + wstart + i + 1,
                end_index: base + wstart + i + 2,
                reason: "No file for redirection was given"@,
            })
        } else {
            let fstart = if file_part.len() == 0 {
                base + words[k + 1].0
            } else {
                base + wstart + i + 1
            };
            let fname = if file_part.len() == 0 {
                words[k + 1].1
            } else {
                file_part
            };
            let consumed: int = if file_part.len() == 0 {
                2
            } else {
                1
            };
            if fname.len() > 0 && fname[0] == '&' {
                Err(SpecParseError {
                    start_index: fstart,
                    end_index: fstart + fname.len(),
                    reason: "Only files are accepted at the moment (perhaps escape & with `?)"@,
                })
            } else {
                spec_process_words(
                    base,
                    words,
                    k + consumed,
                    SpecCommand::InputRedirection {
                        inner: Box::new(syntax),
                        file_descriptor: fd,
                        source: fname,
                    },
                    parts,
                    allow_sub,
                )
            }
        }
    }
}

/// The `>` case of the word walk: the file descriptor may be 1 or 2, the
/// character after `>` selects the kind (`|` overwrite, `>` append,
/// anything else create), and a `&N` destination is only accepted for
/// N = 1 or 2.
pub open spec fn spec_output_redirection(
    base: int,
    words: Seq<(int, Seq<char>)>,
    k: int,
    i: int,
    syntax: SpecCommand,
    parts: Seq<SpecItem>,
    allow_sub: bool,
) -> Result<SpecCommand, SpecParseError>
    decreases (if allow_sub { 1int } else { 0int }), 2int, words.len() - k, 0int,
{
    let wstart = words[k].0;
    let w = words[k].1;
    let fd_part = w.subrange(0, i);
    if k < 0 || k >= words.len() {
        Ok(spec_inject(syntax, parts))
    } else if !(fd_part.len() == 0 || fd_part =~= seq!['1'] || fd_part =~= seq!['2']) {
        Err(SpecParseError {
            start_index: base + wstart,
            end_index: base + wstart + i,
            reason: "Only 1, 2 or the default file descriptor (empty) are supported"@,
        })
    } else {
        let fd: Option<i32> = if fd_part.len() == 0 {
            None
        } else if fd_part =~= seq!['1'] {
            Some(1)
        } else {
            Some(2)
        };
        let file_raw = w.subrange(i + 1, w.len() as int);
        let f0 = spec_trim(file_raw);
        let foffset = base + wstart + i + 1 + spec_leading_ws(file_raw);
        let kind: OutputRedirectionKind = if f0.len() == 0 {
            OutputRedirectionKind::Create
        } else if f0[0] == '|' {
            OutputRedirectionKind::Overwrite
        } else if f0[0] == '>' {
            OutputRedirectionKind::Append
        } else {
            OutputRedirectionKind::Create
        };
        let koff: int = if f0.len() > 0 && (f0[0] == '|' || f0[0] == '>') {
            1
        } else {
            0
        };
        let rest = f0.subrange(koff, f0.len() as int);
        if rest.len() == 0 && k + 1 >= words.len() {
            Err(SpecParseError {
                start_index: base + wstart + i + 1,
                end_index: base + wstart + i + 2,
                reason: "No file for redirection was given"@,
            })
        } else {
            let fstart = if rest.len() == 0 {
                base + words[k + 1].0
            } else {
                foffset + koff
            };
            let fname = if rest.len() == 0 {
                words[k + 1].1
            } else {
                rest
            };
            let consumed: int = if rest.len() == 0 {
                2
            } else {
                1
            };
            if fname.len() > 0 && fname[0] == '&' {
                match spec_parse_i32(fname.subrange(1, fname.len() as int)) {
                    Some(v) => {
                        if v == 1 || v == 2 {
                            spec_process_words(
                                base,
                                words,
                                k + consumed,
                                SpecCommand::OutputRedirection {
                                    inner: Box::new(syntax),
                                    file_descriptor: fd,
                                    destination: fname,
                                    kind,
                                },
                                parts,
                                allow_sub,
                            )
                        } else {
                            Err(SpecParseError {
                                start_index: fstart,
                                end_index: fstart + fname.len(),
                                reason:
                                    "For now, only file descriptors 1 (stdout) and 2 (stderr) are supported"@,
                            })
                        }
                    },
                    None => Err(SpecParseError {
                        start_index: fstart + 1,
                        end_index: fstart + fname.len(),
                        reason: "Could not convert into an integer file descriptor"@,
                    }),
                }
            } else {
                spec_process_words(
                    base,
                    words,
                    k + consumed,
                    SpecCommand::OutputRedirection {
                        inner: Box::new(syntax),
                        file_descriptor: fd,
                        destination: fname,
                        kind,
                    },
                    parts,
                    allow_sub,
                )
            }
        }
    }
}

// ---------------------------------------------------------------------------
// The item parser
// ---------------------------------------------------------------------------

/// The escape downgrades: a backtick before `n`, `r` or `t` yields the
/// control character; anything else passes through unchanged.
pub open spec fn spec_unescape(c: char) -> char {
    if c == 'n' {
        '\n'
    } else if c == 'r' {
        '\r'
    } else if c == 't' {
        '\t'
    } else {
        c
    }
}

/// Parses one word into a command item: a finite-state scan over the
/// word's characters, whose fragments are finally glued into a normalized
/// concatenation.
pub open spec fn spec_parse_item(base: int, w: Seq<char>, allow_sub: bool) -> Result<
    SpecItem,
    SpecParseError,
>
    decreases (if allow_sub { 1int } else { 0int }), 1int, 0int, 0int,
{
    match spec_item_scan(base, w, 0, Filling::Raw, 0, Seq::empty(), Seq::empty(), false, allow_sub) {
        Err(e) => Err(e),
        Ok(items) => Ok(spec_normalize_item(SpecItem::Concatenation(items))),
    }
}

/// What a flush of the current buffer contributes when a new fragment
/// begins: raw text becomes a raw segment, a `$`-run becomes a variable
/// reference.
pub open spec fn spec_flush(filling: Filling, buf: Seq<char>) -> SpecItem {
    match filling {
        Filling::Var => SpecItem::VariableReference(buf),
        _ => SpecItem::RawSegment(buf),
    }
}

/// One step of the item scan.  The states are raw text, a quoted string,
/// a parenthesized subcommand (with its nesting depth) and a variable
/// name; a backtick escapes the next character in every state.
pub open spec fn spec_item_scan(
    base: int,
    w: Seq<char>,
    i: int,
    filling: Filling,
    depth: int,
    buf: Seq<char>,
    acc: Seq<SpecItem>,
    escape: bool,
    allow_sub: bool,
) -> Result<Seq<SpecItem>, SpecParseError>
    decreases (if allow_sub { 1int } else { 0int }), 0int, w.len() - i, 0int,
{
    if i < 0 || i >= w.len() {
        match filling {
            Filling::Quoted(_) => Err(SpecParseError {
                start_index: base + w.len(),
                end_index: base + w.len() + 1,
                reason: "Found end of input instead of a closing quote"@,
            }),
            Filling::Sub => Err(SpecParseError {
                start_index: base + w.len(),
                end_index: base + w.len() + 1,
                reason: "Found end of string instead of ) while reading subcommand"@,
            }),
            _ => {
                if buf.len() > 0 {
                    Ok(acc.push(spec_flush(filling, buf)))
                } else {
                    Ok(acc)
                }
            },
        }
    } else {
        let c = w[i];
        if escape {
            spec_item_scan(
                base,
                w,
                i + 1,
                filling,
                depth,
                buf.push(spec_unescape(c)),
                acc,
                false,
                allow_sub,
            )
        } else if c == '`' {
            spec_item_scan(base, w, i + 1, filling, depth, buf, acc, true, allow_sub)
        } else if filling is Sub {
            if c == ')' {
                if depth == 1 && !allow_sub {
                    // The scan only enters the subcommand state when
                    // subcommands are allowed; a nested level is rejected.
                    Err(SpecParseError {
                        start_index: base + i,
                        end_index: base + i + 1,
                        reason: "Subcommands within subcommands are not yet supported"@,
                    })
                } else if depth == 1 {
                    match spec_parse_command(base + i - buf.len(), buf, false) {
                        Err(e) => Err(e),
                        Ok(cs) => spec_item_scan(
                            base,
                            w,
                            i + 1,
                            Filling::Raw,
                            0,
                            Seq::empty(),
                            acc.push(SpecItem::Subcommand(SpecTree::Command(cs))),
                            false,
                            allow_sub,
                        ),
                    }
                } else {
                    spec_item_scan(
                        base,
                        w,
                        i + 1,
                        Filling::Sub,
                        depth - 1,
                        buf.push(c),
                        acc,
                        false,
                        allow_sub,
                    )
                }
            } else if c == '(' {
                spec_item_scan(
                    base,
                    w,
                    i + 1,
                    Filling::Sub,
                    depth + 1,
                    buf.push(c),
                    acc,
                    false,
                    allow_sub,
                )
            } else {
                spec_item_scan(base, w, i + 1, Filling::Sub, depth, buf.push(c), acc, false, allow_sub)
            }
        } else if spec_is_quote(c) {
            match filling {
                Filling::Quoted(q) => {
                    if c == q {
                        spec_item_scan(
                            base,
                            w,
                            i + 1,
                            Filling::Raw,
                            depth,
                            Seq::empty(),
                            acc.push(SpecItem::Literal(buf)),
                            false,
                            allow_sub,
                        )
                    } else {
                        spec_item_scan(
                            base,
                            w,
                            i + 1,
                            filling,
                            depth,
                            buf.push(c),
                            acc,
                            false,
                            allow_sub,
                        )
                    }
                },
                _ => spec_item_scan(
                    base,
                    w,
                    i + 1,
                    Filling::Quoted(c),
                    depth,
                    Seq::empty(),
                    acc.push(spec_flush(filling, buf)),
                    false,
                    allow_sub,
                ),
            }
        } else if filling is Quoted {
            spec_item_scan(base, w, i + 1, filling, depth, buf.push(c), acc, false, allow_sub)
        } else if c == '(' {
            if allow_sub {
                spec_item_scan(
                    base,
                    w,
                    i + 1,
                    Filling::Sub,
                    1,
                    Seq::empty(),
                    acc.push(spec_flush(filling, buf)),
                    false,
                    allow_sub,
                )
            } else {
                Err(SpecParseError {
                    start_index: base + i,
                    end_index: base + i + 1,
                    reason: "Subcommands within subcommands are not yet supported"@,
                })
            }
        } else if c == ')' {
            Err(SpecParseError {
                start_index: base + i,
                end_index: base + i + 1,
                reason: "Found closing parenthesis without a previous open parenthesis"@,
            })
        } else if c == '$' {
            spec_item_scan(
                base,
                w,
                i + 1,
                Filling::Var,
                depth,
                Seq::empty(),
                acc.push(spec_flush(filling, buf)),
                false,
                allow_sub,
            )
        } else {
            spec_item_scan(base, w, i + 1, filling, depth, buf.push(c), acc, false, allow_sub)
        }
    }
}

// ---------------------------------------------------------------------------
// The pipe-chain parser
// ---------------------------------------------------------------------------

/// Parses the pieces of the pipe split, from piece `k` on, tracking each
/// piece's offset in the original line; the piece is trimmed before it is
/// parsed, and its leading whitespace moves the reported offset.
pub open spec fn spec_parse_stages(s: Seq<char>, offs: Seq<int>, k: int) -> Result<
    Seq<SpecCommand>,
    SpecParseError,
>
    decreases offs.len() + 1 - k,
{
    if k < 0 || k > offs.len() {
        Ok(Seq::empty())
    } else {
        let piece = spec_piece(s, offs, k);
        let start_index = piece_start(offs, k) + spec_leading_ws(piece);
        match spec_parse_command(start_index, spec_trim(piece), true) {
            Err(e) => Err(e),
            Ok(c) => match spec_parse_stages(s, offs, k + 1) {
                Err(e) => Err(e),
                Ok(rest) => Ok(seq![c] + rest),
            },
        }
    }
}

/// The whole grammar: no unquoted pipe character means a single command;
/// otherwise the line splits at the pipes into a chain of commands.
pub open spec fn spec_parse(s: Seq<char>) -> Result<SpecTree, SpecParseError> {
    let offs = pipe_offsets(s);
    if offs.len() == 0 {
        match spec_parse_command(0, s, true) {
            Ok(c) => Ok(SpecTree::Command(c)),
            Err(e) => Err(e),
        }
    } else {
        match spec_parse_stages(s, offs, 0) {
            Ok(cs) => Ok(SpecTree::PipeChain(cs)),
            Err(e) => Err(e),
        }
    }
}


// ---------------------------------------------------------------------------
// Views that tie executable state to the spec scans
// ---------------------------------------------------------------------------

pub open spec fn usizes_view(u: Seq<usize>) -> Seq<int> {
    Seq::new(u.len(), |i: int| u[i] as int)
}

pub open spec fn pairs_view(ws: Seq<(usize, Vec<char>)>) -> Seq<(int, Seq<char>)> {
    Seq::new(ws.len(), |i: int| (ws[i].0 as int, ws[i].1@))
}

pub open spec fn cmd_result_view(r: Result<CommandSyntax, ParseError>) -> Result<
    SpecCommand,
    SpecParseError,
> {
    match r {
        Ok(c) => Ok(command_view(c)),
        Err(e) => Err(e@),
    }
}

pub open spec fn item_result_view(r: Result<CommandItem, ParseError>) -> Result<
    SpecItem,
    SpecParseError,
> {
    match r {
        Ok(c) => Ok(item_view(c)),
        Err(e) => Err(e@),
    }
}

pub open spec fn tree_result_view(r: Result<SyntaxTree, ParseError>) -> Result<
    SpecTree,
    SpecParseError,
> {
    match r {
        Ok(t) => Ok(tree_view(t)),
        Err(e) => Err(e@),
    }
}

// ---------------------------------------------------------------------------
// Executable scans
// ---------------------------------------------------------------------------

/// Finds the offsets of the unescaped, unquoted pipe characters.
fn pipe_offsets_vec(s: &Vec<char>) -> (r: Vec<usize>)
    ensures
        usizes_view(r@) == pipe_offsets(s@),
        r@.len() <= s@.len(),
        forall|j: int| 0 <= j < r@.len() ==> r@[j] < s@.len(),
        forall|j: int, l: int| 0 <= j < l < r@.len() ==> r@[j] < r@[l],
{
    let n = s.len();
    let mut acc: Vec<usize> = Vec::new();
    let mut skip_next = false;
    let mut skip_char: Option<char> = None;
    let mut i: usize = 0;
    proof {
        assert(usizes_view(acc@) =~= Seq::<int>::empty());
    }
    while i < n
        invariant
            n == s@.len(),
            i <= n,
            pipe_offsets(s@) == pipe_scan(s@, i as int, skip_next, skip_char, usizes_view(acc@)),
            acc@.len() <= i,
            forall|j: int| 0 <= j < acc@.len() ==> acc@[j] < i,
            forall|j: int, l: int| 0 <= j < l < acc@.len() ==> acc@[j] < acc@[l],
        decreases n - i,
    {
        let ghost gi = i as int;
        let ghost gskip = skip_next;
        let ghost gchar = skip_char;
        let ghost gacc = usizes_view(acc@);
        let c = s[i];
        if skip_next {
            skip_next = false;
        } else if let Some(sc) = skip_char {
            if c == sc {
                skip_char = None;
            }
        } else if c == '`' {
            skip_next = true;
        } else if c == '>' {
            skip_next = true;
        } else if is_quote_char(c) {
            skip_char = Some(c);
        } else if c == '|' {
            acc.push(i);
            proof {
                assert(usizes_view(acc@) =~= gacc.push(gi));
            }
        }
        i = i + 1;
        proof {
            assert(pipe_scan(s@, gi, gskip, gchar, gacc) == pipe_scan(
                s@,
                i as int,
                skip_next,
                skip_char,
                usizes_view(acc@),
            ));
        }
    }
    acc
}

/// Splits a command into its words, each with its start offset.
fn split_words(s: &Vec<char>) -> (r: Vec<(usize, Vec<char>)>)
    ensures
        pairs_view(r@) == spec_words(s@),
        forall|j: int| 0 <= j < r@.len() ==> #[trigger] r@[j].0 + r@[j].1@.len() <= s@.len(),
{
    let n = s.len();
    let mut acc: Vec<(usize, Vec<char>)> = Vec::new();
    let mut buf: Vec<char> = Vec::new();
    let mut start: usize = 0;
    let mut skip_next = false;
    let mut quote: Option<char> = None;
    let mut depth: usize = 0;
    let mut i: usize = 0;
    proof {
        assert(pairs_view(acc@) =~= Seq::<(int, Seq<char>)>::empty());
    }
    while i < n
        invariant
            n == s@.len(),
            i <= n,
            start <= i,
            depth <= i,
            buf@.len() <= i - start,
            spec_words(s@) == word_scan(
                s@,
                i as int,
                start as int,
                buf@,
                skip_next,
                quote,
                depth as int,
                pairs_view(acc@),
            ),
            forall|j: int| 0 <= j < acc@.len() ==> #[trigger] acc@[j].0 + acc@[j].1@.len()
                <= s@.len(),
        decreases n - i,
    {
        let ghost gi = i as int;
        let ghost gstart = start as int;
        let ghost gbuf = buf@;
        let ghost gskip = skip_next;
        let ghost gquote = quote;
        let ghost gdepth = depth as int;
        let ghost gacc = pairs_view(acc@);
        let c = s[i];
        if skip_next {
            buf.push(c);
            skip_next = false;
        } else if let Some(q) = quote {
            buf.push(c);
            if c == q {
                quote = None;
            }
        } else if depth > 0 {
            buf.push(c);
            if c == '(' {
                depth = depth + 1;
            } else if c == ')' {
                depth = depth - 1;
            }
        } else if c == '`' {
            buf.push(c);
            skip_next = true;
        } else if is_quote_char(c) {
            buf.push(c);
            quote = Some(c);
        } else if c == '(' {
            buf.push(c);
            depth = 1;
        } else if c == ' ' {
            let word = buf;
            buf = Vec::new();
            acc.push((start, word));
            start = i + 1;
            proof {
                assert(pairs_view(acc@) =~= gacc.push((gstart, gbuf)));
            }
        } else {
            buf.push(c);
        }
        i = i + 1;
        proof {
            assert(word_scan(s@, gi, gstart, gbuf, gskip, gquote, gdepth, gacc) == word_scan(
                s@,
                i as int,
                start as int,
                buf@,
                skip_next,
                quote,
                depth as int,
                pairs_view(acc@),
            ));
        }
    }
    if buf.len() > 0 {
        let ghost gacc = pairs_view(acc@);
        let ghost gs = start as int;
        let ghost gb = buf@;
        acc.push((start, buf));
        proof {
            assert(pairs_view(acc@) =~= gacc.push((gs, gb)));
        }
    }
    acc
}


/// Finds the first redirection operator of a word, if any.
fn find_redir_vec(w: &Vec<char>) -> (r: Option<(usize, char)>)
    ensures
        match r {
            Some((i, c)) => spec_find_redir(w@) == Some((i as int, c)) && i < w@.len(),
            None => spec_find_redir(w@) is None,
        },
{
    let n = w.len();
    let mut skip_next = false;
    let mut quote: Option<char> = None;
    let mut depth: usize = 0;
    let mut i: usize = 0;
    while i < n
        invariant
            n == w@.len(),
            i <= n,
            depth <= i,
            spec_find_redir(w@) == find_redir(w@, i as int, skip_next, quote, depth as int),
        decreases n - i,
    {
        let ghost gi = i as int;
        let ghost gskip = skip_next;
        let ghost gquote = quote;
        let ghost gdepth = depth as int;
        let c = w[i];
        if skip_next {
            skip_next = false;
        } else if c == '`' {
            skip_next = true;
        } else if let Some(q) = quote {
            if c == q {
                quote = None;
            }
        } else if depth > 0 {
            if c == '(' {
                depth = depth + 1;
            } else if c == ')' {
                depth = depth - 1;
            }
        } else if is_quote_char(c) {
            quote = Some(c);
        } else if c == '(' {
            depth = 1;
        } else if c == '<' || c == '>' {
            return Some((i, c));
        }
        i = i + 1;
        proof {
            assert(find_redir(w@, gi, gskip, gquote, gdepth) == find_redir(
                w@,
                i as int,
                skip_next,
                quote,
                depth as int,
            ));
        }
    }
    None
}

/// Parses one word into a command item; `allow_sub` is false inside the
/// text of a subcommand.
fn parse_item_chars(base: usize, w: &Vec<char>, allow_sub: bool) -> (r: Result<
    CommandItem,
    ParseError,
>)
    requires
        base + w@.len() + 2 <= usize::MAX,
    ensures
        item_result_view(r) == spec_parse_item(base as int, w@, allow_sub),
    decreases (if allow_sub { 1int } else { 0int }), 1int, 0int, 0int,
{
    let n = w.len();
    let mut acc: Vec<CommandItem> = Vec::new();
    let mut buf: Vec<char> = Vec::new();
    let mut filling = Filling::Raw;
    let mut depth: usize = 0;
    let mut escape = false;
    let mut i: usize = 0;
    proof {
        assert(items_view(acc@) =~= Seq::<SpecItem>::empty());
    }
    while i < n
        invariant
            n == w@.len(),
            base + n + 2 <= usize::MAX,
            i <= n,
            buf@.len() <= i,
            depth <= i + 1,
            filling is Sub ==> allow_sub && depth >= 1,
            spec_item_scan(
                base as int,
                w@,
                0,
                Filling::Raw,
                0,
                Seq::empty(),
                Seq::empty(),
                false,
                allow_sub,
            ) == spec_item_scan(
                base as int,
                w@,
                i as int,
                filling,
                depth as int,
                buf@,
                items_view(acc@),
                escape,
                allow_sub,
            ),
        decreases (if allow_sub { 1int } else { 0int }), 0int, n - i, 0int,
    {
        let ghost gi = i as int;
        let ghost gfill = filling;
        let ghost gdepth = depth as int;
        let ghost gbuf = buf@;
        let ghost gacc = items_view(acc@);
        let ghost gesc = escape;
        let c = w[i];
        if escape {
            let mapped = if c == 'n' {
                '\n'
            } else if c == 'r' {
                '\r'
            } else if c == 't' {
                '\t'
            } else {
                c
            };
            buf.push(mapped);
            escape = false;
        } else if c == '`' {
            escape = true;
        } else if matches!(filling, Filling::Sub) {
            if c == ')' {
                if depth == 1 {
                    let sub_base = base + i - buf.len();
                    let inner = parse_command_chars(sub_base, &buf, false);
                    match inner {
                        Err(e) => {
                            proof {
                                assert(item_result_view(Err::<CommandItem, ParseError>(e))
                                    == spec_parse_item(base as int, w@, allow_sub));
                            }
                            return Err(e);
                        },
                        Ok(cs) => {
                            let item = CommandItem::Subcommand(Box::new(SyntaxTree::Command(cs)));
                            let ghost gitem = item;
                            let ghost gaccv = acc@;
                            acc.push(item);
                            proof {
                                lemma_items_view_push(gaccv, gitem);
                            }
                            buf = Vec::new();
                            filling = Filling::Raw;
                            depth = 0;
                        },
                    }
                } else {
                    buf.push(c);
                    depth = depth - 1;
                }
            } else if c == '(' {
                buf.push(c);
                depth = depth + 1;
            } else {
                buf.push(c);
            }
        } else if is_quote_char(c) {
            match filling {
                Filling::Quoted(q) => {
                    if c == q {
                        let item = CommandItem::Literal(string_from_chars(&buf));
                        let ghost gitem = item;
                        let ghost gaccv = acc@;
                        acc.push(item);
                        proof {
                            lemma_items_view_push(gaccv, gitem);
                        }
                        buf = Vec::new();
                        filling = Filling::Raw;
                    } else {
                        buf.push(c);
                    }
                },
                Filling::Var => {
                    let item = CommandItem::VariableReference(string_from_chars(&buf));
                    let ghost gitem = item;
                    let ghost gaccv = acc@;
                    acc.push(item);
                    proof {
                        lemma_items_view_push(gaccv, gitem);
                    }
                    buf = Vec::new();
                    filling = Filling::Quoted(c);
                },
                _ => {
                    let item = CommandItem::RawSegment(string_from_chars(&buf));
                    let ghost gitem = item;
                    let ghost gaccv = acc@;
                    acc.push(item);
                    proof {
                        lemma_items_view_push(gaccv, gitem);
                    }
                    buf = Vec::new();
                    filling = Filling::Quoted(c);
                },
            }
        } else if matches!(filling, Filling::Quoted(_)) {
            buf.push(c);
        } else if c == '(' {
            if allow_sub {
                let item = match filling {
                    Filling::Var => CommandItem::VariableReference(string_from_chars(&buf)),
                    _ => CommandItem::RawSegment(string_from_chars(&buf)),
                };
                let ghost gitem = item;
                let ghost gaccv = acc@;
                acc.push(item);
                proof {
                    lemma_items_view_push(gaccv, gitem);
                }
                buf = Vec::new();
                filling = Filling::Sub;
                depth = 1;
            } else {
                let r = Err(ParseError {
                    start_index: base + i,
                    end_index: base + i + 1,
                    reason: String::from_str(
                        "Subcommands within subcommands are not yet supported",
                    ),
                });
                return r;
            }
        } else if c == ')' {
            return Err(ParseError {
                start_index: base + i,
                end_index: base + i + 1,
                reason: String::from_str(
                    "Found closing parenthesis without a previous open parenthesis",
                ),
            });
        } else if c == '$' {
            let item = match filling {
                Filling::Var => CommandItem::VariableReference(string_from_chars(&buf)),
                _ => CommandItem::RawSegment(string_from_chars(&buf)),
            };
            let ghost gitem = item;
            let ghost gaccv = acc@;
            acc.push(item);
            proof {
                lemma_items_view_push(gaccv, gitem);
            }
            buf = Vec::new();
            filling = Filling::Var;
        } else {
            buf.push(c);
        }
        i = i + 1;
        proof {
            assert(spec_item_scan(base as int, w@, gi, gfill, gdepth, gbuf, gacc, gesc, allow_sub)
                == spec_item_scan(
                base as int,
                w@,
                i as int,
                filling,
                depth as int,
                buf@,
                items_view(acc@),
                escape,
                allow_sub,
            ));
        }
    }
    match filling {
        Filling::Quoted(_) => Err(ParseError {
            start_index: base + n,
            end_index: base + n + 1,
            reason: String::from_str("Found end of input instead of a closing quote"),
        }),
        Filling::Sub => Err(ParseError {
            start_index: base + n,
            end_index: base + n + 1,
            reason: String::from_str("Found end of string instead of ) while reading subcommand"),
        }),
        _ => {
            if buf.len() > 0 {
                let item = match filling {
                    Filling::Var => CommandItem::VariableReference(string_from_chars(&buf)),
                    _ => CommandItem::RawSegment(string_from_chars(&buf)),
                };
                let ghost gitem = item;
                let ghost gaccv = acc@;
                acc.push(item);
                proof {
                    lemma_items_view_push(gaccv, gitem);
                }
            }
            let joined = CommandItem::Concatenation(acc);
            Ok(joined.normalize())
        },
    }
}


/// The word walk of one command: each word either extends the redirection
/// chain or becomes an argument item; a redirection whose file name part
/// is empty consumes the following word as the file name.
#[verifier::rlimit(100)]
fn process_words(
    base: usize,
    words: &Vec<(usize, Vec<char>)>,
    k: usize,
    syntax: CommandSyntax,
    parts: Vec<CommandItem>,
    allow_sub: bool,
) -> (r: Result<CommandSyntax, ParseError>)
    requires
        k <= words@.len(),
        forall|j: int| 0 <= j < words@.len() ==> #[trigger] words@[j].0 + words@[j].1@.len()
            + base + 2 <= usize::MAX,
    ensures
        cmd_result_view(r) == spec_process_words(
            base as int,
            pairs_view(words@),
            k as int,
            command_view(syntax),
            items_view(parts@),
            allow_sub,
        ),
    decreases (if allow_sub { 1int } else { 0int }), 2int, words@.len() - k, 1int,
{
    let ghost pw = pairs_view(words@);
    let ghost gsyntax = command_view(syntax);
    let ghost gparts = items_view(parts@);
    if k >= words.len() {
        let r = syntax.inject_and_replace(parts);
        return Ok(r);
    }
    let wstart = words[k].0;
    let w = &words[k].1;
    let n = w.len();
    proof {
        assert(pw[k as int] == (wstart as int, w@));
    }
    match find_redir_vec(w) {
        None => {
            match parse_item_chars(base + wstart, w, allow_sub) {
                Err(e) => Err(e),
                Ok(item) => {
                    let ghost gitem = item;
                    let ghost gpartsv = parts@;
                    let mut parts = parts;
                    parts.push(item);
                    proof {
                        lemma_items_view_push(gpartsv, gitem);
                    }
                    process_words(base, words, k + 1, syntax, parts, allow_sub)
                },
            }
        },
        Some((i, op)) => {
            if op == '<' {
                let ghost fd_part = w@.subrange(0, i as int);
                let ghost file_part = w@.subrange(i + 1 as int, w@.len() as int);
                proof {
                    assert(spec_process_words(base as int, pw, k as int, gsyntax, gparts, allow_sub)
                        == spec_input_redirection(
                        base as int,
                        pw,
                        k as int,
                        i as int,
                        gsyntax,
                        gparts,
                        allow_sub,
                    ));
                    assert(fd_part.len() == i as int);
                    assert(file_part.len() == n - i - 1);
                }
                let fd_ok = i == 0 || (i == 1 && w[0] == '0');
                if !fd_ok {
                    proof {
                        if i == 1 {
                            assert(fd_part[0] == w@[0]);
                        }
                        assert(!(fd_part.len() == 0 || fd_part =~= seq!['0']));
                    }
                    return Err(ParseError {
                        start_index: base + wstart,
                        end_index: base + wstart + i,
                        reason: String::from_str(
                            "Only 0 or the default file descriptor (empty) are supported",
                        ),
                    });
                }
                proof {
                    if i == 0 {
                        assert(fd_part.len() == 0);
                    } else {
                        assert(fd_part =~= seq!['0']);
                    }
                }
                let fd: Option<i32> = if i == 0 {
                    None
                } else {
                    Some(0)
                };
                if i + 1 == n && k + 1 >= words.len() {
                    proof {
                        assert(file_part.len() == 0);
                    }
                    return Err(ParseError {
                        start_index: base + wstart + i + 1,
                        end_index: base + wstart + i + 2,
                        reason: String::from_str("No file for redirection was given"),
                    });
                }
                proof {
                    if i + 1 != n {
                        assert(file_part.len() > 0);
                    }
                }
                let (fstart, fname, consumed): (usize, Vec<char>, usize) = if i + 1 == n {
                    let next = &words[k + 1].1;
                    proof {
                        assert(pw[k + 1 as int] == (words@[k + 1 as int].0 as int, next@));
                    }
                    (base + words[k + 1].0, subvec(next, 0, next.len()), 2)
                } else {
                    (base + wstart + i + 1, subvec(w, i + 1, n), 1)
                };
                proof {
                    assert(fname@ =~= if file_part.len() == 0 {
                        pw[k + 1 as int].1
                    } else {
                        file_part
                    });
                }
                if fname.len() > 0 && fname[0] == '&' {
                    return Err(ParseError {
                        start_index: fstart,
                        end_index: fstart + fname.len(),
                        reason: String::from_str(
                            "Only files are accepted at the moment (perhaps escape & with `?)",
                        ),
                    });
                }
                let source = string_from_chars(&fname);
                let syntax2 = CommandSyntax::InputRedirection {
                    inner: Box::new(syntax),
                    file_descriptor: fd,
                    source,
                };
                let r = process_words(base, words, k + consumed, syntax2, parts, allow_sub);
                proof {
                    assert(cmd_result_view(r) == spec_input_redirection(
                        base as int,
                        pw,
                        k as int,
                        i as int,
                        gsyntax,
                        gparts,
                        allow_sub,
                    ));
                }
                r
            } else {
                let ghost fd_part = w@.subrange(0, i as int);
                proof {
                    assert(spec_process_words(base as int, pw, k as int, gsyntax, gparts, allow_sub)
                        == spec_output_redirection(
                        base as int,
                        pw,
                        k as int,
                        i as int,
                        gsyntax,
                        gparts,
                        allow_sub,
                    ));
                    assert(fd_part.len() == i as int);
                }
                let fd_ok = i == 0 || (i == 1 && (w[0] == '1' || w[0] == '2'));
                if !fd_ok {
                    proof {
                        if i == 1 {
                            assert(fd_part[0] == w@[0]);
                        }
                        assert(!(fd_part.len() == 0 || fd_part =~= seq!['1'] || fd_part
                            =~= seq!['2']));
                    }
                    return Err(ParseError {
                        start_index: base + wstart,
                        end_index: base + wstart + i,
                        reason: String::from_str(
                            "Only 1, 2 or the default file descriptor (empty) are supported",
                        ),
                    });
                }
                proof {
                    if i == 1 && w@[0] == '1' {
                        assert(fd_part =~= seq!['1']);
                    }
                    if i == 1 && w@[0] == '2' {
                        assert(fd_part =~= seq!['2']);
                    }
                    if i == 0 {
                        assert(fd_part.len() == 0);
                    }
                }
                let fd: Option<i32> = if i == 0 {
                    None
                } else if w[0] == '1' {
                    Some(1)
                } else {
                    Some(2)
                };
                let file_raw = subvec(w, i + 1, n);
                let f0 = trim_chars(&file_raw);
                let lead = leading_ws(&file_raw);
                proof {
                    crate::text::lemma_leading_ws(file_raw@);
                    crate::text::lemma_trailing_ws(crate::text::spec_trim_start(file_raw@));
                }
                let foffset = base + wstart + i + 1 + lead;
                let (kind, koff): (OutputRedirectionKind, usize) = if f0.len() == 0 {
                    (OutputRedirectionKind::Create, 0)
                } else if f0[0] == '|' {
                    (OutputRedirectionKind::Overwrite, 1)
                } else if f0[0] == '>' {
                    (OutputRedirectionKind::Append, 1)
                } else {
                    (OutputRedirectionKind::Create, 0)
                };
                let rest = subvec(&f0, koff, f0.len());
                let ghost grest = rest@;
                if rest.len() == 0 && k + 1 >= words.len() {
                    return Err(ParseError {
                        start_index: base + wstart + i + 1,
                        end_index: base + wstart + i + 2,
                        reason: String::from_str("No file for redirection was given"),
                    });
                }
                let (fstart, fname, consumed): (usize, Vec<char>, usize) = if rest.len() == 0 {
                    let next = &words[k + 1].1;
                    proof {
                        assert(pw[k + 1 as int] == (words@[k + 1 as int].0 as int, next@));
                    }
                    (base + words[k + 1].0, subvec(next, 0, next.len()), 2)
                } else {
                    (foffset + koff, rest, 1)
                };
                proof {
                    assert(fname@ =~= if grest.len() == 0 {
                        pw[k + 1 as int].1
                    } else {
                        grest
                    });
                }
                if fname.len() > 0 && fname[0] == '&' {
                    let digits = subvec(&fname, 1, fname.len());
                    match parse_i32_chars(&digits) {
                        Some(v) => {
                            if v == 1 || v == 2 {
                                let destination = string_from_chars(&fname);
                                let syntax2 = CommandSyntax::OutputRedirection {
                                    inner: Box::new(syntax),
                                    file_descriptor: fd,
                                    destination,
                                    kind,
                                };
                                let r = process_words(
                                    base,
                                    words,
                                    k + consumed,
                                    syntax2,
                                    parts,
                                    allow_sub,
                                );
                                proof {
                                    assert(cmd_result_view(r) == spec_output_redirection(
                                        base as int,
                                        pw,
                                        k as int,
                                        i as int,
                                        gsyntax,
                                        gparts,
                                        allow_sub,
                                    ));
                                }
                                r
                            } else {
                                Err(ParseError {
                                    start_index: fstart,
                                    end_index: fstart + fname.len(),
                                    reason: String::from_str(
                                        "For now, only file descriptors 1 (stdout) and 2 (stderr) are supported",
                                    ),
                                })
                            }
                        },
                        None => Err(ParseError {
                            start_index: fstart + 1,
                            end_index: fstart + fname.len(),
                            reason: String::from_str(
                                "Could not convert into an integer file descriptor",
                            ),
                        }),
                    }
                } else {
                    let destination = string_from_chars(&fname);
                    let syntax2 = CommandSyntax::OutputRedirection {
                        inner: Box::new(syntax),
                        file_descriptor: fd,
                        destination,
                        kind,
                    };
                    let r = process_words(base, words, k + consumed, syntax2, parts, allow_sub);
                    proof {
                        assert(cmd_result_view(r) == spec_output_redirection(
                            base as int,
                            pw,
                            k as int,
                            i as int,
                            gsyntax,
                            gparts,
                            allow_sub,
                        ));
                    }
                    r
                }
            }
        },
    }
}

/// Parses one pipeline stage from a character vector.
fn parse_command_chars(base: usize, s: &Vec<char>, allow_sub: bool) -> (r: Result<
    CommandSyntax,
    ParseError,
>)
    requires
        base + s@.len() + 2 <= usize::MAX,
    ensures
        cmd_result_view(r) == spec_parse_command(base as int, s@, allow_sub),
    decreases (if allow_sub { 1int } else { 0int }), 3int, 0int, 0int,
{
    if is_blank_chars(s) {
        return Err(ParseError {
            start_index: base,
            end_index: base + 1,
            reason: String::from_str("An empty command was given"),
        });
    }
    let words = split_words(s);
    proof {
        assert(items_view(Seq::<CommandItem>::empty()) =~= Seq::<SpecItem>::empty());
    }
    process_words(base, &words, 0, CommandSyntax::Command(Vec::new()), Vec::new(), allow_sub)
}

// ---------------------------------------------------------------------------
// Public entry points
// ---------------------------------------------------------------------------

/// Parses one word of a command into its item.
pub fn parse_command_item(start_index: usize, input: &str) -> (r: Result<CommandItem, ParseError>)
    requires
        start_index + input@.len() + 2 <= usize::MAX,
    ensures
        item_result_view(r) == spec_parse_item(start_index as int, input@, true),
{
    let chars = to_char_vec(input);
    parse_item_chars(start_index, &chars, true)
}

/// Parses one pipeline stage: words, redirections and command items.
pub fn parse_command(start_index: usize, input: &str) -> (r: Result<CommandSyntax, ParseError>)
    requires
        start_index + input@.len() + 2 <= usize::MAX,
    ensures
        cmd_result_view(r) == spec_parse_command(start_index as int, input@, true),
{
    let chars = to_char_vec(input);
    parse_command_chars(start_index, &chars, true)
}

/// Splits the line at its unquoted pipe characters and parses each side;
/// the start index is kept for symmetry with `parse_command` and does not
/// move the reported offsets, which are always relative to `input`.
#[verifier::rlimit(100)]
pub fn parse_pipe_chain(start_index: usize, input: &str) -> (r: Result<SyntaxTree, ParseError>)
    requires
        input@.len() + 2 <= usize::MAX,
    ensures
        tree_result_view(r) == spec_parse(input@),
{
    let _ = start_index;
    let chars = to_char_vec(input);
    let offs = pipe_offsets_vec(&chars);
    let ghost ov = usizes_view(offs@);
    if offs.len() == 0 {
        match parse_command_chars(0, &chars, true) {
            Ok(c) => Ok(SyntaxTree::Command(c)),
            Err(e) => Err(e),
        }
    } else {
        let m = offs.len();
        let mut stages: Vec<CommandSyntax> = Vec::new();
        let mut k: usize = 0;
        proof {
            assert(stages_view(stages@) =~= Seq::<SpecCommand>::empty());
        }
        while k <= m
            invariant
                m == offs@.len(),
                m >= 1,
                m <= chars@.len(),
                ov == usizes_view(offs@),
                ov == pipe_offsets(chars@),
                chars@ == input@,
                chars@.len() + 2 <= usize::MAX,
                forall|j: int| 0 <= j < offs@.len() ==> offs@[j] < chars@.len(),
                forall|j: int, l: int| 0 <= j < l < offs@.len() ==> offs@[j] < offs@[l],
                k <= m + 1,
                spec_parse_stages(chars@, ov, 0) == (match spec_parse_stages(
                    chars@,
                    ov,
                    k as int,
                ) {
                    Ok(rest) => Ok::<Seq<SpecCommand>, SpecParseError>(
                        stages_view(stages@) + rest,
                    ),
                    Err(e) => Err(e),
                }),
            decreases m + 1 - k,
        {
            let pstart: usize = if k == 0 {
                0
            } else {
                offs[k - 1] + 1
            };
            let pend: usize = if k < m {
                offs[k]
            } else {
                chars.len()
            };
            proof {
                assert(pstart as int == piece_start(ov, k as int));
                assert(pend as int == piece_end(chars@, ov, k as int));
                assert(pstart <= pend);
            }
            let piece = subvec(&chars, pstart, pend);
            let lead = leading_ws(&piece);
            let trimmed = trim_chars(&piece);
            proof {
                crate::text::lemma_leading_ws(piece@);
                crate::text::lemma_trailing_ws(crate::text::spec_trim_start(piece@));
                assert(trimmed@.len() <= piece@.len() - lead);
                assert(piece@ == spec_piece(chars@, ov, k as int));
            }
            let start_index = pstart + lead;
            let ghost grest = spec_parse_stages(chars@, ov, k + 1 as int);
            proof {
                assert(start_index as int == piece_start(ov, k as int) + spec_leading_ws(piece@));
            }
            match parse_command_chars(start_index, &trimmed, true) {
                Err(e) => {
                    proof {
                        assert(spec_parse_stages(chars@, ov, k as int) == Err::<
                            Seq<SpecCommand>,
                            SpecParseError,
                        >(e@));
                    }
                    return Err(e);
                },
                Ok(c) => {
                    let ghost gc = command_view(c);
                    let ghost gstages = stages@;
                    stages.push(c);
                    proof {
                        lemma_stages_view_push(gstages, c);
                        if grest is Ok {
                            assert(stages_view(gstages) + (seq![gc] + grest->Ok_0)
                                =~= stages_view(gstages.push(c)) + grest->Ok_0);
                        }
                    }
                },
            }
            k = k + 1;
        }
        proof {
            assert(spec_parse_stages(chars@, ov, k as int) == Ok::<
                Seq<SpecCommand>,
                SpecParseError,
            >(Seq::empty()));
            assert(stages_view(stages@) + Seq::<SpecCommand>::empty() =~= stages_view(stages@));
        }
        Ok(SyntaxTree::PipeChain(stages))
    }
}

/// Parses a whole command line into its syntax tree.
pub fn parse(input: String) -> (r: Result<SyntaxTree, ParseError>)
    requires
        input@.len() + 2 <= usize::MAX,
    ensures
        tree_result_view(r) == spec_parse(input@),
{
    parse_pipe_chain(0, input.as_str())
}

} // verus!
