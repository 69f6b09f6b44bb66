//! Laws of the parser, proved once and for all over the spec-level
//! grammar.  The executable parser is pinned to that grammar by its
//! contracts, so each law carries over to what the code computes.

use vstd::prelude::*;

use crate::parser::{
    Filling, piece_start, pipe_offsets, pipe_scan, spec_find_redir, spec_input_redirection,
    spec_item_scan, spec_output_redirection, spec_parse, spec_parse_command, spec_parse_item,
    spec_parse_stages, spec_piece, spec_process_words,
};
use crate::text::{spec_is_blank, spec_is_whitespace, spec_leading_ws, spec_trim};
use crate::syntax::{
    SpecCommand, SpecItem, SpecParseError, SpecTree, spec_flatten_item, spec_norm_items,
    spec_normalize_item,
};

verus! {

/// A successful stage parse yields one command per piece of the split:
/// the pieces from `k` on number `offs.len() + 1 - k`.
pub proof fn lemma_parse_stage_count(s: Seq<char>, offs: Seq<int>, k: int, cs: Seq<SpecCommand>)
    requires
        0 <= k <= offs.len() + 1,
        spec_parse_stages(s, offs, k) == Ok::<Seq<SpecCommand>, SpecParseError>(cs),
    ensures
        cs.len() == offs.len() + 1 - k,
    decreases offs.len() + 1 - k,
{
    if k <= offs.len() {
        match spec_parse_stages(s, offs, k + 1) {
            Ok(rest) => {
                lemma_parse_stage_count(s, offs, k + 1, rest);
            },
            Err(_) => {},
        }
    }
}

/// A successful stage parse holds, piece by piece, exactly what parsing
/// the trimmed piece yields, at the piece's own offset.
pub proof fn lemma_parse_stage_contents(s: Seq<char>, offs: Seq<int>, k: int, cs: Seq<SpecCommand>)
    requires
        0 <= k <= offs.len() + 1,
        spec_parse_stages(s, offs, k) == Ok::<Seq<SpecCommand>, SpecParseError>(cs),
    ensures
        cs.len() == offs.len() + 1 - k,
        forall|i: int|
            0 <= i < cs.len() ==> spec_parse_command(
                piece_start(offs, k + i) + spec_leading_ws(spec_piece(s, offs, k + i)),
                spec_trim(spec_piece(s, offs, k + i)),
                true,
            ) == Ok::<SpecCommand, SpecParseError>(cs[i]),
    decreases offs.len() + 1 - k,
{
    lemma_parse_stage_count(s, offs, k, cs);
    if k <= offs.len() {
        match spec_parse_stages(s, offs, k + 1) {
            Ok(rest) => {
                lemma_parse_stage_contents(s, offs, k + 1, rest);
                assert forall|i: int|
                    0 <= i < cs.len() implies spec_parse_command(
                    piece_start(offs, k + i) + spec_leading_ws(spec_piece(s, offs, k + i)),
                    spec_trim(spec_piece(s, offs, k + i)),
                    true,
                ) == Ok::<SpecCommand, SpecParseError>(cs[i]) by {
                    if i > 0 {
                        assert(cs[i] == rest[i - 1]);
                    }
                }
            },
            Err(_) => {},
        }
    }
}

/// Pipe splitting is exhaustive: a line with `n >= 1` unescaped, unquoted
/// pipe characters that parses successfully parses to a pipe chain of
/// exactly `n + 1` stages.
pub proof fn lemma_pipe_chain_stage_count(s: Seq<char>, t: SpecTree)
    requires
        pipe_offsets(s).len() >= 1,
        spec_parse(s) == Ok::<SpecTree, SpecParseError>(t),
    ensures
        t matches SpecTree::PipeChain(cs) && cs.len() == pipe_offsets(s).len() + 1,
{
    let offs = pipe_offsets(s);
    match spec_parse_stages(s, offs, 0) {
        Ok(cs) => {
            lemma_parse_stage_count(s, offs, 0, cs);
        },
        Err(_) => {},
    }
}

/// A line with exactly one unescaped, unquoted pipe character — one not
/// consumed by a `>` — parses, when it parses at all, to a pipe chain of
/// exactly two stages.
pub proof fn lemma_single_pipe_two_stages(s: Seq<char>, t: SpecTree)
    requires
        pipe_offsets(s).len() == 1,
        spec_parse(s) == Ok::<SpecTree, SpecParseError>(t),
    ensures
        t matches SpecTree::PipeChain(cs) && cs.len() == 2 && {
            let offs = pipe_offsets(s);
            let left = s.subrange(0, offs[0]);
            let right = s.subrange(offs[0] + 1, s.len() as int);
            &&& spec_parse_command(spec_leading_ws(left), spec_trim(left), true) == Ok::<
                SpecCommand,
                SpecParseError,
            >(cs[0])
            &&& spec_parse_command(
                offs[0] + 1 + spec_leading_ws(right),
                spec_trim(right),
                true,
            ) == Ok::<SpecCommand, SpecParseError>(cs[1])
        },
{
    lemma_pipe_chain_stage_count(s, t);
    let offs = pipe_offsets(s);
    match spec_parse_stages(s, offs, 0) {
        Ok(cs) => {
            lemma_parse_stage_contents(s, offs, 0, cs);
            assert(spec_piece(s, offs, 0) == s.subrange(0, offs[0]));
            assert(spec_piece(s, offs, 1) == s.subrange(offs[0] + 1, s.len() as int));
        },
        Err(_) => {},
    }
}

/// Nothing but whitespace has no pipe character in it: the pipe scan of a
/// blank line finds nothing.
proof fn lemma_pipe_scan_blank(s: Seq<char>, i: int, acc: Seq<int>)
    requires
        spec_is_blank(s),
        0 <= i,
    ensures
        pipe_scan(s, i, false, None, acc) == acc,
    decreases s.len() - i,
{
    if i < s.len() {
        assert(spec_is_whitespace(s[i]));
        lemma_pipe_scan_blank(s, i + 1, acc);
    }
}

/// Empty and whitespace-only input is rejected, with a span that covers
/// one character starting at the line's head.
pub proof fn lemma_blank_input_rejected(s: Seq<char>)
    requires
        spec_is_blank(s),
    ensures
        spec_parse(s) matches Err(e) && e.start_index == 0 && e.end_index == 1 && e.reason
            == "An empty command was given"@,
{
    lemma_pipe_scan_blank(s, 0, Seq::empty());
}

/// A line without an unescaped, unquoted pipe character parses, when it
/// parses at all, to a single command.
pub proof fn lemma_no_pipe_single_command(s: Seq<char>, t: SpecTree)
    requires
        pipe_offsets(s).len() == 0,
        spec_parse(s) == Ok::<SpecTree, SpecParseError>(t),
    ensures
        t is Command,
{
}

// ---------------------------------------------------------------------------
// The normalization invariant
// ---------------------------------------------------------------------------

/// A fragment whose concatenation, if it is one, is in normal form: no
/// nested concatenation among the children, no empty raw segment, and
/// never exactly one child.
pub open spec fn is_flat_normalized(item: SpecItem) -> bool {
    match item {
        SpecItem::Concatenation(c) => {
            &&& c.len() != 1
            &&& forall|j: int| 0 <= j < c.len() ==> !((#[trigger] c[j]) is Concatenation)
            &&& forall|j: int|
                0 <= j < c.len() ==> !((#[trigger] c[j]) matches SpecItem::RawSegment(s)
                    && s.len() == 0)
        },
        _ => true,
    }
}

/// The elements a normalized fragment list holds are never themselves
/// concatenations and never empty raw segments.
pub proof fn lemma_norm_items_elements(items: Seq<SpecItem>)
    ensures
        forall|j: int|
            0 <= j < spec_norm_items(items).len() ==> !((#[trigger] spec_norm_items(items)[j])
                is Concatenation),
        forall|j: int|
            0 <= j < spec_norm_items(items).len() ==> !((#[trigger] spec_norm_items(items)[j])
                matches SpecItem::RawSegment(s) && s.len() == 0),
    decreases items, 1int,
{
    if items.len() > 0 {
        lemma_flatten_shape(items[0]);
        lemma_norm_items_elements(items.drop_first());
    }
}

/// Flattening normalizes: the result of `spec_flatten_item` always
/// satisfies the concatenation invariant.
pub proof fn lemma_flatten_shape(item: SpecItem)
    ensures
        is_flat_normalized(spec_flatten_item(item)),
    decreases item, 2int,
{
    match item {
        SpecItem::Concatenation(items) => {
            lemma_norm_items_elements(items);
        },
        _ => {},
    }
}

/// Normalizing yields the invariant of the data model: every
/// concatenation the parser hands out is flattened, free of empty raw
/// segments, and never a singleton.
pub proof fn lemma_normalize_shape(item: SpecItem)
    ensures
        is_flat_normalized(spec_normalize_item(item)),
{
    lemma_flatten_shape(item);
    match spec_flatten_item(item) {
        SpecItem::Concatenation(c) => {},
        _ => {},
    }
}

/// Every command item a successful item parse returns is in normal form.
pub proof fn lemma_parse_item_normalized(base: int, w: Seq<char>, allow_sub: bool, item: SpecItem)
    requires
        spec_parse_item(base, w, allow_sub) == Ok::<SpecItem, SpecParseError>(item),
    ensures
        is_flat_normalized(item),
{
    match crate::parser::spec_item_scan(
        base,
        w,
        0,
        crate::parser::Filling::Raw,
        0,
        Seq::empty(),
        Seq::empty(),
        false,
        allow_sub,
    ) {
        Ok(items) => {
            lemma_normalize_shape(SpecItem::Concatenation(items));
        },
        Err(_) => {},
    }
}


// ---------------------------------------------------------------------------
// The error-span invariant
// ---------------------------------------------------------------------------

/// Whether a parse outcome keeps the span invariant: an error's span never
/// runs backwards.
pub open spec fn span_ok<T>(r: Result<T, SpecParseError>) -> bool {
    match r {
        Err(e) => e.start_index <= e.end_index,
        Ok(_) => true,
    }
}

proof fn span_parse_command(base: int, s: Seq<char>, allow_sub: bool)
    ensures
        span_ok(spec_parse_command(base, s, allow_sub)),
    decreases (if allow_sub { 1int } else { 0int }), 3int, 0int, 0int,
{
    if !crate::text::spec_is_blank(s) {
        span_process_words(
            base,
            crate::parser::spec_words(s),
            0,
            SpecCommand::Command(Seq::empty()),
            Seq::empty(),
            allow_sub,
        );
    }
}

proof fn span_process_words(
    base: int,
    words: Seq<(int, Seq<char>)>,
    k: int,
    syntax: SpecCommand,
    parts: Seq<SpecItem>,
    allow_sub: bool,
)
    ensures
        span_ok(spec_process_words(base, words, k, syntax, parts, allow_sub)),
    decreases (if allow_sub { 1int } else { 0int }), 2int, words.len() - k, 1int,
{
    if 0 <= k < words.len() {
        let wstart = words[k].0;
        let w = words[k].1;
        crate::parser::lemma_find_redir_in_range(w);
        match spec_find_redir(w) {
            None => {
                span_parse_item(base + wstart, w, allow_sub);
                match spec_parse_item(base + wstart, w, allow_sub) {
                    Ok(item) => {
                        span_process_words(base, words, k + 1, syntax, parts.push(item), allow_sub);
                    },
                    Err(_) => {},
                }
            },
            Some((i, op)) => {
                if op == '<' {
                    span_input_redirection(base, words, k, i, syntax, parts, allow_sub);
                } else {
                    span_output_redirection(base, words, k, i, syntax, parts, allow_sub);
                }
            },
        }
    }
}

proof fn span_input_redirection(
    base: int,
    words: Seq<(int, Seq<char>)>,
    k: int,
    i: int,
    syntax: SpecCommand,
    parts: Seq<SpecItem>,
    allow_sub: bool,
)
    requires
        spec_find_redir(words[k].1) == Some((i, '<')),
    ensures
        span_ok(spec_input_redirection(base, words, k, i, syntax, parts, allow_sub)),
    decreases (if allow_sub { 1int } else { 0int }), 2int, words.len() - k, 0int,
{
    if 0 <= k < words.len() {
        let w = words[k].1;
        let fd_part = w.subrange(0, i);
        let file_part = w.subrange(i + 1, w.len() as int);
        crate::parser::lemma_find_redir_in_range(w);
        if fd_part.len() == 0 || fd_part =~= seq!['0'] {
            if !(file_part.len() == 0 && k + 1 >= words.len()) {
                let fname = if file_part.len() == 0 {
                    words[k + 1].1
                } else {
                    file_part
                };
                let consumed: int = if file_part.len() == 0 {
                    2
                } else {
                    1
                };
                if !(fname.len() > 0 && fname[0] == '&') {
                    span_process_words(
                        base,
                        words,
                        k + consumed,
                        SpecCommand::InputRedirection {
                            inner: Box::new(syntax),
                            file_descriptor: if fd_part.len() == 0 {
                                None
                            } else {
                                Some(0)
                            },
                            source: fname,
                        },
                        parts,
                        allow_sub,
                    );
                }
            }
        }
    }
}

proof fn span_output_redirection(
    base: int,
    words: Seq<(int, Seq<char>)>,
    k: int,
    i: int,
    syntax: SpecCommand,
    parts: Seq<SpecItem>,
    allow_sub: bool,
)
    requires
        spec_find_redir(words[k].1) == Some((i, '>')),
    ensures
        span_ok(spec_output_redirection(base, words, k, i, syntax, parts, allow_sub)),
    decreases (if allow_sub { 1int } else { 0int }), 2int, words.len() - k, 0int,
{
    if 0 <= k < words.len() {
        let w = words[k].1;
        let fd_part = w.subrange(0, i);
        crate::parser::lemma_find_redir_in_range(w);
        crate::text::lemma_leading_ws(w.subrange(i + 1, w.len() as int));
        crate::text::lemma_trailing_ws(
            crate::text::spec_trim_start(w.subrange(i + 1, w.len() as int)),
        );
        if fd_part.len() == 0 || fd_part =~= seq!['1'] || fd_part =~= seq!['2'] {
            let fd: Option<i32> = if fd_part.len() == 0 {
                None
            } else if fd_part =~= seq!['1'] {
                Some(1)
            } else {
                Some(2)
            };
            let file_raw = w.subrange(i + 1, w.len() as int);
            let f0 = crate::text::spec_trim(file_raw);
            let koff: int = if f0.len() > 0 && (f0[0] == '|' || f0[0] == '>') {
                1
            } else {
                0
            };
            let rest = f0.subrange(koff, f0.len() as int);
            if !(rest.len() == 0 && k + 1 >= words.len()) {
                let fname = if rest.len() == 0 {
                    words[k + 1].1
                } else {
                    rest
                };
                let consumed: int = if rest.len() == 0 {
                    2
                } else {
                    1
                };
                let kind = if f0.len() == 0 {
                    crate::syntax::OutputRedirectionKind::Create
                } else if f0[0] == '|' {
                    crate::syntax::OutputRedirectionKind::Overwrite
                } else if f0[0] == '>' {
                    crate::syntax::OutputRedirectionKind::Append
                } else {
                    crate::syntax::OutputRedirectionKind::Create
                };
                let continue_ok = if fname.len() > 0 && fname[0] == '&' {
                    match crate::text::spec_parse_i32(fname.subrange(1, fname.len() as int)) {
                        Some(v) => v == 1 || v == 2,
                        None => false,
                    }
                } else {
                    true
                };
                if continue_ok {
                    span_process_words(
                        base,
                        words,
                        k + consumed,
                        SpecCommand::OutputRedirection {
                            inner: Box::new(syntax),
                            file_descriptor: fd,
                            destination: fname,
                            kind,
                        },
                        parts,
                        allow_sub,
                    );
                }
            }
        }
    }
}

proof fn span_parse_item(base: int, w: Seq<char>, allow_sub: bool)
    ensures
        span_ok(spec_parse_item(base, w, allow_sub)),
    decreases (if allow_sub { 1int } else { 0int }), 1int, 0int, 0int,
{
    span_item_scan(base, w, 0, Filling::Raw, 0, Seq::empty(), Seq::empty(), false, allow_sub);
}

proof fn span_item_scan(
    base: int,
    w: Seq<char>,
    i: int,
    filling: Filling,
    depth: int,
    buf: Seq<char>,
    acc: Seq<SpecItem>,
    escape: bool,
    allow_sub: bool,
)
    ensures
        span_ok(spec_item_scan(base, w, i, filling, depth, buf, acc, escape, allow_sub)),
    decreases (if allow_sub { 1int } else { 0int }), 0int, w.len() - i, 0int,
{
    if 0 <= i < w.len() {
        let c = w[i];
        if escape {
            span_item_scan(
                base,
                w,
                i + 1,
                filling,
                depth,
                buf.push(crate::parser::spec_unescape(c)),
                acc,
                false,
                allow_sub,
            );
        } else if c == '`' {
            span_item_scan(base, w, i + 1, filling, depth, buf, acc, true, allow_sub);
        } else if filling is Sub {
            if c == ')' {
                if depth == 1 && allow_sub {
                    span_parse_command(base + i - buf.len(), buf, false);
                    match spec_parse_command(base + i - buf.len(), buf, false) {
                        Ok(cs) => {
                            span_item_scan(
                                base,
                                w,
                                i + 1,
                                Filling::Raw,
                                0,
                                Seq::empty(),
                                acc.push(SpecItem::Subcommand(SpecTree::Command(cs))),
                                false,
                                allow_sub,
                            );
                        },
                        Err(_) => {},
                    }
                } else if depth != 1 {
                    span_item_scan(
                        base,
                        w,
                        i + 1,
                        Filling::Sub,
                        depth - 1,
                        buf.push(c),
                        acc,
                        false,
                        allow_sub,
                    );
                }
            } else if c == '(' {
                span_item_scan(
                    base,
                    w,
                    i + 1,
                    Filling::Sub,
                    depth + 1,
                    buf.push(c),
                    acc,
                    false,
                    allow_sub,
                );
            } else {
                span_item_scan(base, w, i + 1, Filling::Sub, depth, buf.push(c), acc, false, allow_sub);
            }
        } else if crate::text::spec_is_quote(c) {
            match filling {
                Filling::Quoted(q) => {
                    if c == q {
                        span_item_scan(
                            base,
                            w,
                            i + 1,
                            Filling::Raw,
                            depth,
                            Seq::empty(),
                            acc.push(SpecItem::Literal(buf)),
                            false,
                            allow_sub,
                        );
                    } else {
                        span_item_scan(base, w, i + 1, filling, depth, buf.push(c), acc, false, allow_sub);
                    }
                },
                _ => {
                    span_item_scan(
                        base,
                        w,
                        i + 1,
                        Filling::Quoted(c),
                        depth,
                        Seq::empty(),
                        acc.push(crate::parser::spec_flush(filling, buf)),
                        false,
                        allow_sub,
                    );
                },
            }
        } else if filling is Quoted {
            span_item_scan(base, w, i + 1, filling, depth, buf.push(c), acc, false, allow_sub);
        } else if c == '(' {
            if allow_sub {
                span_item_scan(
                    base,
                    w,
                    i + 1,
                    Filling::Sub,
                    1,
                    Seq::empty(),
                    acc.push(crate::parser::spec_flush(filling, buf)),
                    false,
                    allow_sub,
                );
            }
        } else if c == ')' {
        } else if c == '$' {
            span_item_scan(
                base,
                w,
                i + 1,
                Filling::Var,
                depth,
                Seq::empty(),
                acc.push(crate::parser::spec_flush(filling, buf)),
                false,
                allow_sub,
            );
        } else {
            span_item_scan(base, w, i + 1, filling, depth, buf.push(c), acc, false, allow_sub);
        }
    }
}

proof fn span_parse_stages(s: Seq<char>, offs: Seq<int>, k: int)
    ensures
        span_ok(spec_parse_stages(s, offs, k)),
    decreases offs.len() + 1 - k,
{
    if 0 <= k <= offs.len() {
        let piece = crate::parser::spec_piece(s, offs, k);
        span_parse_command(
            crate::parser::piece_start(offs, k) + crate::text::spec_leading_ws(piece),
            crate::text::spec_trim(piece),
            true,
        );
        span_parse_stages(s, offs, k + 1);
    }
}

/// The span invariant of the data model: every parse error carries a span
/// that does not run backwards, so a caret underline can always be drawn.
pub proof fn lemma_parse_error_span(s: Seq<char>)
    ensures
        span_ok(spec_parse(s)),
{
    let offs = pipe_offsets(s);
    if offs.len() == 0 {
        span_parse_command(0, s, true);
    } else {
        span_parse_stages(s, offs, 0);
    }
}

} // verus!
