//! The wire form of an execution result.  A forked command process writes
//! its `Result` into a pipe as text; the parent reads it back.  The
//! encoding is a tag character followed by length-prefixed fields, so
//! that every variant — paths, messages and spans included — crosses the
//! boundary losslessly.
//!
//! `encode_result` is pinned to `spec_encode`.  `decode_result` carries
//! the boundary's guarantee in both directions: every encoder output
//! decodes back to the value that was encoded (`lemma_wire_round_trip`
//! lifts `spec_decode` over `spec_encode`), and a successful decode only
//! returns the unique value whose encoding is the input.

use vstd::prelude::*;

use crate::error::{Error, SpecError};
use crate::syntax::{ParseError, SpecParseError, dec_u64_chars, spec_dec_nat};
use crate::text::{spec_digits_val, spec_is_digit, str_eq, string_from_chars, to_char_vec};

verus! {

/// A length-prefixed string field: the decimal length, a colon, and the
/// text itself.
pub open spec fn spec_enc_str(s: Seq<char>) -> Seq<char> {
    spec_dec_nat(s.len() as nat) + seq![':'] + s
}

/// An optional string field: `0` for absent, `1` and the field for
/// present.
pub open spec fn spec_enc_opt(o: Option<Seq<char>>) -> Seq<char> {
    match o {
        None => seq!['0'],
        Some(s) => seq!['1'] + spec_enc_str(s),
    }
}

/// The full encoding: a tag character, then the variant's fields.
pub open spec fn spec_encode(r: Result<u8, SpecError>) -> Seq<char> {
    match r {
        Ok(code) => seq!['O'] + spec_dec_nat(code as nat),
        Err(e) => match e {
            SpecError::ParseError(p) => seq!['P'] + spec_dec_nat(p.start_index as nat)
                + seq![';'] + spec_dec_nat(p.end_index as nat) + seq![';'] + spec_enc_str(
                p.reason,
            ),
            SpecError::FileNotFound(o) => seq!['N'] + spec_enc_opt(o),
            SpecError::PermissionDenied(o) => seq!['M'] + spec_enc_opt(o),
            SpecError::CommandNotFound(s) => seq!['C'] + spec_enc_str(s),
            SpecError::CommandPermissionDenied(s) => seq!['Q'] + spec_enc_str(s),
            SpecError::ExitCodeParseError(s) => seq!['X'] + spec_enc_str(s),
            SpecError::DirectoryChangeRequested(s) => seq!['D'] + spec_enc_str(s),
            SpecError::VariableSetRequested(k, v) => seq!['S'] + spec_enc_str(k) + spec_enc_str(
                v,
            ),
            SpecError::VariableUnsetRequested(s) => seq!['U'] + spec_enc_str(s),
            SpecError::RequestExit(o) => seq!['E'] + (match o {
                None => seq!['0'],
                Some(c) => seq!['1'] + spec_dec_nat(c as nat),
            }),
            SpecError::OtherError(s) => seq!['G'] + spec_enc_str(s),
            SpecError::SyscallFailure(s) => seq!['Y'] + spec_enc_str(s),
        },
    }
}

/// The spec view of an execution result.
pub open spec fn result_view(r: Result<u8, Error>) -> Result<u8, SpecError> {
    match r {
        Ok(c) => Ok(c),
        Err(e) => Err(e@),
    }
}

/// Appends a length-prefixed string field.
fn push_str_field(out: &mut Vec<char>, s: &String)
    ensures
        final(out)@ == old(out)@ + spec_enc_str(s@),
{
    let chars = to_char_vec(s.as_str());
    let mut len_digits = dec_u64_chars(chars.len() as u64);
    let ghost g0 = out@;
    let ghost g1 = len_digits@;
    let ghost g2 = chars@;
    out.append(&mut len_digits);
    out.push(':');
    let mut chars = chars;
    out.append(&mut chars);
    proof {
        assert(out@ =~= g0 + (g1 + seq![':'] + g2));
    }
}

/// Appends an optional length-prefixed string field.
fn push_opt_field(out: &mut Vec<char>, o: &Option<String>)
    ensures
        final(out)@ == old(out)@ + spec_enc_opt(match o {
            Some(s) => Some(s@),
            None => None,
        }),
{
    match o {
        None => {
            let ghost g0 = out@;
            out.push('0');
            proof {
                assert(out@ =~= g0 + seq!['0']);
            }
        },
        Some(s) => {
            let ghost g0 = out@;
            out.push('1');
            push_str_field(out, s);
            proof {
                assert(g0 + seq!['1'] + spec_enc_str(s@) =~= g0 + (seq!['1'] + spec_enc_str(s@)));
            }
        },
    }
}

/// Encodes a result for the result pipe.
pub fn encode_result(r: &Result<u8, Error>) -> (enc: String)
    ensures
        enc@ == spec_encode(match r {
            Ok(c) => Ok(*c),
            Err(e) => Err(e@),
        }),
        wire_wf(match r {
            Ok(c) => Ok(*c),
            Err(e) => Err(e@),
        }),
{
    let mut out: Vec<char> = Vec::new();
    match r {
        Ok(code) => {
            out.push('O');
            let mut digits = dec_u64_chars(*code as u64);
            let ghost g1 = digits@;
            out.append(&mut digits);
            proof {
                assert(out@ =~= seq!['O'] + g1);
            }
        },
        Err(e) => {
            match e {
                Error::ParseError(p) => {
                    out.push('P');
                    let mut d1 = dec_u64_chars(p.start_index as u64);
                    let ghost g1 = d1@;
                    out.append(&mut d1);
                    out.push(';');
                    let mut d2 = dec_u64_chars(p.end_index as u64);
                    let ghost g2 = d2@;
                    out.append(&mut d2);
                    out.push(';');
                    let ghost gmid = out@;
                    push_str_field(&mut out, &p.reason);
                    proof {
                        assert(gmid =~= seq!['P'] + g1 + seq![';'] + g2 + seq![';']);
                        assert(out@ =~= seq!['P'] + g1 + seq![';'] + g2 + seq![';']
                            + spec_enc_str(p.reason@));
                    }
                },
                Error::FileNotFound(o) => {
                    out.push('N');
                    let ghost g0 = out@;
                    push_opt_field(&mut out, o);
                    proof {
                        assert(g0 =~= seq!['N']);
                    }
                },
                Error::PermissionDenied(o) => {
                    out.push('M');
                    let ghost g0 = out@;
                    push_opt_field(&mut out, o);
                    proof {
                        assert(g0 =~= seq!['M']);
                    }
                },
                Error::CommandNotFound(s) => {
                    out.push('C');
                    let ghost g0 = out@;
                    push_str_field(&mut out, s);
                    proof {
                        assert(g0 =~= seq!['C']);
                    }
                },
                Error::CommandPermissionDenied(s) => {
                    out.push('Q');
                    let ghost g0 = out@;
                    push_str_field(&mut out, s);
                    proof {
                        assert(g0 =~= seq!['Q']);
                    }
                },
                Error::ExitCodeParseError(s) => {
                    out.push('X');
                    let ghost g0 = out@;
                    push_str_field(&mut out, s);
                    proof {
                        assert(g0 =~= seq!['X']);
                    }
                },
                Error::DirectoryChangeRequested(s) => {
                    out.push('D');
                    let ghost g0 = out@;
                    push_str_field(&mut out, s);
                    proof {
                        assert(g0 =~= seq!['D']);
                    }
                },
                Error::VariableSetRequested(k, v) => {
                    out.push('S');
                    let ghost g0 = out@;
                    push_str_field(&mut out, k);
                    let ghost g1 = out@;
                    push_str_field(&mut out, v);
                    proof {
                        assert(g0 =~= seq!['S']);
                        assert(out@ =~= seq!['S'] + spec_enc_str(k@) + spec_enc_str(v@));
                    }
                },
                Error::VariableUnsetRequested(s) => {
                    out.push('U');
                    let ghost g0 = out@;
                    push_str_field(&mut out, s);
                    proof {
                        assert(g0 =~= seq!['U']);
                    }
                },
                Error::RequestExit(o) => {
                    out.push('E');
                    match o {
                        None => {
                            out.push('0');
                            proof {
                                assert(out@ =~= seq!['E'] + seq!['0']);
                            }
                        },
                        Some(c) => {
                            out.push('1');
                            let mut digits = dec_u64_chars(*c as u64);
                            let ghost g1 = digits@;
                            out.append(&mut digits);
                            proof {
                                assert(out@ =~= seq!['E'] + (seq!['1'] + g1));
                            }
                        },
                    }
                },
                Error::OtherError(s) => {
                    out.push('G');
                    let ghost g0 = out@;
                    push_str_field(&mut out, s);
                    proof {
                        assert(g0 =~= seq!['G']);
                    }
                },
                Error::SyscallFailure(s) => {
                    out.push('Y');
                    let ghost g0 = out@;
                    push_str_field(&mut out, s);
                    proof {
                        assert(g0 =~= seq!['Y']);
                    }
                },
            }
        },
    }
    string_from_chars(&out)
}

// ---------------------------------------------------------------------------
// The spec-level decoder
// ---------------------------------------------------------------------------

/// The end of the run of decimal digits that starts at `p`.
pub open spec fn spec_digits_end(cs: Seq<char>, p: int) -> int
    decreases cs.len() - p,
{
    if p < 0 || p >= cs.len() || !spec_is_digit(cs[p]) {
        p
    } else {
        spec_digits_end(cs, p + 1)
    }
}

/// Reads a decimal number at `p`: its value and the position after it.
pub open spec fn spec_read_nat(cs: Seq<char>, p: int) -> Option<(int, int)> {
    let end = spec_digits_end(cs, p);
    if end == p {
        None
    } else {
        Some((spec_digits_val(cs.subrange(p, end)), end))
    }
}

/// Reads a length-prefixed string field at `p`: the text and the position
/// after it.
pub open spec fn spec_read_str(cs: Seq<char>, p: int) -> Option<(Seq<char>, int)> {
    match spec_read_nat(cs, p) {
        None => None,
        Some((len, q)) => {
            if q < cs.len() && cs[q] == ':' && q + 1 + len <= cs.len() {
                Some((cs.subrange(q + 1, q + 1 + len), q + 1 + len))
            } else {
                None
            }
        },
    }
}

/// Reads an optional string field at `p`.
pub open spec fn spec_read_opt(cs: Seq<char>, p: int) -> Option<(Option<Seq<char>>, int)> {
    if 0 <= p < cs.len() && cs[p] == '0' {
        Some((None, p + 1))
    } else if 0 <= p < cs.len() && cs[p] == '1' {
        match spec_read_str(cs, p + 1) {
            Some((t, q)) => Some((Some(t), q)),
            None => None,
        }
    } else {
        None
    }
}

/// The decoder: reads one result off the tag and its fields, insisting
/// that nothing follows and that every number fits the machine.
pub open spec fn spec_decode(cs: Seq<char>) -> Option<Result<u8, SpecError>> {
    if cs.len() == 0 {
        None
    } else {
        let tag = cs[0];
        if tag == 'O' {
            match spec_read_nat(cs, 1) {
                Some((v, q)) => if q == cs.len() && 0 <= v <= 255 {
                    Some(Ok(v as u8))
                } else {
                    None
                },
                None => None,
            }
        } else if tag == 'P' {
            match spec_read_nat(cs, 1) {
                Some((a, q1)) => if q1 < cs.len() && cs[q1] == ';' && 0 <= a <= usize::MAX {
                    match spec_read_nat(cs, q1 + 1) {
                        Some((b, q2)) => if q2 < cs.len() && cs[q2] == ';' && 0 <= b
                            <= usize::MAX {
                            match spec_read_str(cs, q2 + 1) {
                                Some((reason, q3)) => if q3 == cs.len() {
                                    Some(
                                        Err(
                                            SpecError::ParseError(
                                                SpecParseError {
                                                    start_index: a,
                                                    end_index: b,
                                                    reason,
                                                },
                                            ),
                                        ),
                                    )
                                } else {
                                    None
                                },
                                None => None,
                            }
                        } else {
                            None
                        },
                        None => None,
                    }
                } else {
                    None
                },
                None => None,
            }
        } else if tag == 'N' {
            match spec_read_opt(cs, 1) {
                Some((o, q)) => if q == cs.len() {
                    Some(Err(SpecError::FileNotFound(o)))
                } else {
                    None
                },
                None => None,
            }
        } else if tag == 'M' {
            match spec_read_opt(cs, 1) {
                Some((o, q)) => if q == cs.len() {
                    Some(Err(SpecError::PermissionDenied(o)))
                } else {
                    None
                },
                None => None,
            }
        } else if tag == 'C' {
            match spec_read_str(cs, 1) {
                Some((t, q)) => if q == cs.len() {
                    Some(Err(SpecError::CommandNotFound(t)))
                } else {
                    None
                },
                None => None,
            }
        } else if tag == 'Q' {
            match spec_read_str(cs, 1) {
                Some((t, q)) => if q == cs.len() {
                    Some(Err(SpecError::CommandPermissionDenied(t)))
                } else {
                    None
                },
                None => None,
            }
        } else if tag == 'X' {
            match spec_read_str(cs, 1) {
                Some((t, q)) => if q == cs.len() {
                    Some(Err(SpecError::ExitCodeParseError(t)))
                } else {
                    None
                },
                None => None,
            }
        } else if tag == 'D' {
            match spec_read_str(cs, 1) {
                Some((t, q)) => if q == cs.len() {
                    Some(Err(SpecError::DirectoryChangeRequested(t)))
                } else {
                    None
                },
                None => None,
            }
        } else if tag == 'S' {
            match spec_read_str(cs, 1) {
                Some((k, q1)) => match spec_read_str(cs, q1) {
                    Some((v, q2)) => if q2 == cs.len() {
                        Some(Err(SpecError::VariableSetRequested(k, v)))
                    } else {
                        None
                    },
                    None => None,
                },
                None => None,
            }
        } else if tag == 'U' {
            match spec_read_str(cs, 1) {
                Some((t, q)) => if q == cs.len() {
                    Some(Err(SpecError::VariableUnsetRequested(t)))
                } else {
                    None
                },
                None => None,
            }
        } else if tag == 'E' {
            if cs.len() >= 2 && cs[1] == '0' {
                if cs.len() == 2 {
                    Some(Err(SpecError::RequestExit(None)))
                } else {
                    None
                }
            } else if cs.len() >= 2 && cs[1] == '1' {
                match spec_read_nat(cs, 2) {
                    Some((v, q)) => if q == cs.len() && 0 <= v <= 255 {
                        Some(Err(SpecError::RequestExit(Some(v as u8))))
                    } else {
                        None
                    },
                    None => None,
                }
            } else {
                None
            }
        } else if tag == 'G' {
            match spec_read_str(cs, 1) {
                Some((t, q)) => if q == cs.len() {
                    Some(Err(SpecError::OtherError(t)))
                } else {
                    None
                },
                None => None,
            }
        } else if tag == 'Y' {
            match spec_read_str(cs, 1) {
                Some((t, q)) => if q == cs.len() {
                    Some(Err(SpecError::SyscallFailure(t)))
                } else {
                    None
                },
                None => None,
            }
        } else {
            None
        }
    }
}

// ---------------------------------------------------------------------------
// Decimal facts
// ---------------------------------------------------------------------------

/// The decimal rendering holds only digits, at least one.
pub proof fn lemma_dec_nat_digits(n: nat)
    ensures
        spec_dec_nat(n).len() >= 1,
        forall|j: int| 0 <= j < spec_dec_nat(n).len() ==> spec_is_digit(#[trigger] spec_dec_nat(
            n,
        )[j]),
    decreases n,
{
    if n >= 10 {
        lemma_dec_nat_digits(n / 10);
        assert forall|j: int| 0 <= j < spec_dec_nat(n).len() implies spec_is_digit(
            spec_dec_nat(n)[j],
        ) by {
            if j < spec_dec_nat(n / 10).len() {
                assert(spec_dec_nat(n)[j] == spec_dec_nat(n / 10)[j]);
            }
        }
    }
}

/// The decimal rendering parses back to its number.
pub proof fn lemma_dec_nat_value(n: nat)
    ensures
        spec_digits_val(spec_dec_nat(n)) == n,
    decreases n,
{
    reveal_with_fuel(crate::text::spec_digits_val, 3);
    if n < 10 {
        assert(spec_dec_nat(n).drop_last() =~= Seq::<char>::empty());
    } else {
        lemma_dec_nat_value(n / 10);
        assert(spec_dec_nat(n).drop_last() =~= spec_dec_nat(n / 10));
    }
}

/// Where the digit run from `p` ends: every position before the end is a
/// digit, the end is not.
pub proof fn lemma_digits_end_props(cs: Seq<char>, p: int)
    requires
        0 <= p <= cs.len(),
    ensures
        p <= spec_digits_end(cs, p) <= cs.len(),
        forall|j: int| p <= j < spec_digits_end(cs, p) ==> spec_is_digit(cs[j]),
        spec_digits_end(cs, p) < cs.len() ==> !spec_is_digit(cs[spec_digits_end(cs, p)]),
    decreases cs.len() - p,
{
    if p < cs.len() && spec_is_digit(cs[p]) {
        lemma_digits_end_props(cs, p + 1);
    }
}

/// At a position where the decimal rendering of `n` stands, followed by a
/// non-digit or the end, the number reader reads exactly `n`.
pub proof fn lemma_read_nat_at(cs: Seq<char>, p: int, n: nat)
    requires
        0 <= p,
        p + spec_dec_nat(n).len() <= cs.len(),
        cs.subrange(p, p + spec_dec_nat(n).len()) == spec_dec_nat(n),
        p + spec_dec_nat(n).len() == cs.len() || !spec_is_digit(
            cs[p + spec_dec_nat(n).len()],
        ),
    ensures
        spec_read_nat(cs, p) == Some((n as int, p + spec_dec_nat(n).len())),
{
    let d = spec_dec_nat(n);
    let q = p + d.len();
    lemma_dec_nat_digits(n);
    lemma_dec_nat_value(n);
    lemma_digits_end_props(cs, p);
    assert forall|j: int| p <= j < q implies spec_is_digit(cs[j]) by {
        assert(cs[j] == d[j - p]);
    }
    let end = spec_digits_end(cs, p);
    if end < q {
        assert(spec_is_digit(cs[end]));
        assert(false);
    }
    if end > q {
        assert(spec_is_digit(cs[q]));
        assert(false);
    }
    assert(cs.subrange(p, end) == d);
}

/// At a position where a whole string field stands, the field reader
/// reads exactly its text.
pub proof fn lemma_read_str_at(cs: Seq<char>, p: int, t: Seq<char>)
    requires
        0 <= p,
        p + spec_enc_str(t).len() <= cs.len(),
        cs.subrange(p, p + spec_enc_str(t).len()) == spec_enc_str(t),
    ensures
        spec_read_str(cs, p) == Some((t, p + spec_enc_str(t).len())),
{
    let d = spec_dec_nat(t.len() as nat);
    let enc = spec_enc_str(t);
    lemma_dec_nat_digits(t.len() as nat);
    assert(enc.len() == d.len() + 1 + t.len());
    assert(cs.subrange(p, p + d.len()) =~= d) by {
        assert forall|j: int| 0 <= j < d.len() implies cs.subrange(p, p + d.len())[j] == d[j] by {
            assert(cs[p + j] == enc[j]);
            assert(enc[j] == d[j]);
        }
    }
    assert(cs[p + d.len()] == enc[d.len() as int]);
    assert(enc[d.len() as int] == ':');
    assert(!spec_is_digit(':'));
    lemma_read_nat_at(cs, p, t.len() as nat);
    let q = p + d.len();
    assert(cs.subrange(q + 1, q + 1 + t.len()) =~= t) by {
        assert forall|j: int| 0 <= j < t.len() implies cs.subrange(q + 1, q + 1 + t.len())[j]
            == t[j] by {
            assert(cs[q + 1 + j] == enc[d.len() + 1 + j]);
            assert(enc[d.len() + 1 + j] == t[j]);
        }
    }
}

/// At a position where a whole optional field stands, the option reader
/// reads exactly its value.
pub proof fn lemma_read_opt_at(cs: Seq<char>, p: int, o: Option<Seq<char>>)
    requires
        0 <= p,
        p + spec_enc_opt(o).len() <= cs.len(),
        cs.subrange(p, p + spec_enc_opt(o).len()) == spec_enc_opt(o),
    ensures
        spec_read_opt(cs, p) == Some((o, p + spec_enc_opt(o).len())),
{
    let enc = spec_enc_opt(o);
    match o {
        None => {
            assert(cs[p] == enc[0]);
        },
        Some(t) => {
            assert(cs[p] == enc[0]);
            assert(enc[0] == '1');
            let inner = spec_enc_str(t);
            assert(cs.subrange(p + 1, p + 1 + inner.len()) =~= inner) by {
                assert forall|j: int| 0 <= j < inner.len() implies cs.subrange(
                    p + 1,
                    p + 1 + inner.len(),
                )[j] == inner[j] by {
                    assert(cs[p + 1 + j] == enc[1 + j]);
                    assert(enc[1 + j] == inner[j]);
                }
            }
            lemma_read_str_at(cs, p + 1, t);
        },
    }
}


/// A number the reader yields is never negative.
pub proof fn lemma_read_nat_nonneg(cs: Seq<char>, p: int)
    requires
        0 <= p <= cs.len(),
    ensures
        spec_read_nat(cs, p) matches Some(t) ==> t.0 >= 0,
{
    lemma_digits_end_props(cs, p);
    crate::text::lemma_digits_val_bounds(cs.subrange(p, spec_digits_end(cs, p)));
}

/// Equality of a subrange with a known segment, from elementwise equality.
proof fn lemma_eq_subrange(cs: Seq<char>, p: int, mid: Seq<char>)
    requires
        0 <= p,
        p + mid.len() <= cs.len(),
        forall|j: int| 0 <= j < mid.len() ==> cs[p + j] == mid[j],
    ensures
        cs.subrange(p, p + mid.len()) == mid,
{
    assert(cs.subrange(p, p + mid.len()) =~= mid);
}

/// Whether a result can cross the wire and come back unchanged: the spans
/// of a parse error must be machine numbers.  Everything the encoder is
/// ever given satisfies this.
pub open spec fn wire_wf(x: Result<u8, SpecError>) -> bool {
    match x {
        Err(SpecError::ParseError(p)) => 0 <= p.start_index <= usize::MAX && 0 <= p.end_index
            <= usize::MAX,
        _ => true,
    }
}

/// The wire round-trip law: decoding an encoded result yields exactly the
/// result that was encoded, for every variant, nested path and text
/// payloads included.
pub proof fn lemma_wire_round_trip(x: Result<u8, SpecError>)
    requires
        wire_wf(x),
    ensures
        spec_decode(spec_encode(x)) == Some(x),
{
    let cs = spec_encode(x);
    match x {
        Ok(code) => {
            let d = spec_dec_nat(code as nat);
            lemma_dec_nat_digits(code as nat);
            lemma_eq_subrange(cs, 1, d);
            lemma_read_nat_at(cs, 1, code as nat);
        },
        Err(e) => match e {
            SpecError::ParseError(pe) => {
                let d1 = spec_dec_nat(pe.start_index as nat);
                let d2 = spec_dec_nat(pe.end_index as nat);
                let enc = spec_enc_str(pe.reason);
                lemma_dec_nat_digits(pe.start_index as nat);
                lemma_dec_nat_digits(pe.end_index as nat);
                let q1 = 1 + d1.len() as int;
                let q2 = q1 + 1 + d2.len() as int;
                lemma_eq_subrange(cs, 1, d1);
                assert(cs[q1] == ';');
                assert(!spec_is_digit(';'));
                lemma_read_nat_at(cs, 1, pe.start_index as nat);
                lemma_eq_subrange(cs, q1 + 1, d2);
                assert(cs[q2] == ';');
                lemma_read_nat_at(cs, q1 + 1, pe.end_index as nat);
                lemma_eq_subrange(cs, q2 + 1, enc);
                lemma_read_str_at(cs, q2 + 1, pe.reason);
            },
            SpecError::FileNotFound(o) => {
                lemma_eq_subrange(cs, 1, spec_enc_opt(o));
                lemma_read_opt_at(cs, 1, o);
            },
            SpecError::PermissionDenied(o) => {
                lemma_eq_subrange(cs, 1, spec_enc_opt(o));
                lemma_read_opt_at(cs, 1, o);
            },
            SpecError::CommandNotFound(t) => {
                lemma_eq_subrange(cs, 1, spec_enc_str(t));
                lemma_read_str_at(cs, 1, t);
            },
            SpecError::CommandPermissionDenied(t) => {
                lemma_eq_subrange(cs, 1, spec_enc_str(t));
                lemma_read_str_at(cs, 1, t);
            },
            SpecError::ExitCodeParseError(t) => {
                lemma_eq_subrange(cs, 1, spec_enc_str(t));
                lemma_read_str_at(cs, 1, t);
            },
            SpecError::DirectoryChangeRequested(t) => {
                lemma_eq_subrange(cs, 1, spec_enc_str(t));
                lemma_read_str_at(cs, 1, t);
            },
            SpecError::VariableSetRequested(k, v) => {
                let e1 = spec_enc_str(k);
                let e2 = spec_enc_str(v);
                let q1 = 1 + e1.len() as int;
                lemma_eq_subrange(cs, 1, e1);
                lemma_read_str_at(cs, 1, k);
                lemma_eq_subrange(cs, q1, e2);
                lemma_read_str_at(cs, q1, v);
            },
            SpecError::VariableUnsetRequested(t) => {
                lemma_eq_subrange(cs, 1, spec_enc_str(t));
                lemma_read_str_at(cs, 1, t);
            },
            SpecError::RequestExit(o) => {
                match o {
                    None => {
                        assert(cs[1] == '0');
                    },
                    Some(code) => {
                        let d = spec_dec_nat(code as nat);
                        lemma_dec_nat_digits(code as nat);
                        assert(cs[1] == '1');
                        lemma_eq_subrange(cs, 2, d);
                        lemma_read_nat_at(cs, 2, code as nat);
                    },
                }
            },
            SpecError::OtherError(t) => {
                lemma_eq_subrange(cs, 1, spec_enc_str(t));
                lemma_read_str_at(cs, 1, t);
            },
            SpecError::SyscallFailure(t) => {
                lemma_eq_subrange(cs, 1, spec_enc_str(t));
                lemma_read_str_at(cs, 1, t);
            },
        },
    }
}

// ---------------------------------------------------------------------------
// The executable decoder
// ---------------------------------------------------------------------------

/// A cursor over the encoded characters.
struct Cursor {
    chars: Vec<char>,
    pos: usize,
}

impl Cursor {
    spec fn wf(&self) -> bool {
        self.pos <= self.chars@.len()
    }

    /// Reads a decimal number, as `spec_read_nat` describes; a number past
    /// `u64::MAX` comes back as `None`.
    fn read_number(&mut self) -> (r: Option<u64>)
        requires
            old(self).wf(),
        ensures
            final(self).wf(),
            final(self).chars == old(self).chars,
            match spec_read_nat(old(self).chars@, old(self).pos as int) {
                Some((v, q)) => {
                    &&& (v <= u64::MAX ==> r == Some(v as u64) && final(self).pos == q)
                    &&& (v > u64::MAX ==> r is None)
                },
                None => r is None && final(self).pos == old(self).pos,
            },
    {
        let ghost cs = self.chars@;
        let ghost p0 = self.pos as int;
        let n = self.chars.len();
        let mut acc: u64 = 0;
        let mut ovf = false;
        let mut any = false;
        proof {
            lemma_digits_end_props(cs, p0);
            reveal_with_fuel(crate::text::spec_digits_val, 2);
            assert(cs.subrange(p0, p0) =~= Seq::<char>::empty());
        }
        while self.pos < n && '0' <= self.chars[self.pos] && self.chars[self.pos] <= '9'
            invariant
                self.wf(),
                n == self.chars@.len(),
                self.chars == old(self).chars,
                self.chars@ == cs,
                p0 <= self.pos,
                self.pos <= spec_digits_end(cs, p0),
                forall|j: int| p0 <= j < self.pos ==> spec_is_digit(cs[j]),
                any == (self.pos > p0),
                !ovf ==> acc == spec_digits_val(cs.subrange(p0, self.pos as int)),
                ovf ==> spec_digits_val(cs.subrange(p0, self.pos as int)) > u64::MAX,
            decreases n - self.pos,
        {
            let ghost pre = cs.subrange(p0, self.pos as int);
            let ghost preval = spec_digits_val(pre);
            let c = self.chars[self.pos];
            let d: u64 = (c as u32 as u64) - ('0' as u32 as u64);
            proof {
                assert(spec_is_digit(cs[self.pos as int]));
                assert(d == crate::text::spec_digit_val(cs[self.pos as int]));
                assert(0 <= d <= 9);
                assert(cs.subrange(p0, self.pos + 1).drop_last() =~= pre);
                assert(cs.subrange(p0, self.pos + 1)[self.pos - p0] == cs[self.pos as int]);
                assert(spec_digits_val(cs.subrange(p0, self.pos + 1)) == preval * 10
                    + crate::text::spec_digit_val(cs[self.pos as int]));
                crate::text::lemma_digits_val_bounds(pre);
                lemma_digits_end_props(cs, p0);
                if self.pos == spec_digits_end(cs, p0) {
                    assert(!spec_is_digit(cs[self.pos as int]));
                    assert(false);
                }
            }
            if ovf {
                proof {
                    assert(preval > u64::MAX);
                    assert(preval * 10 + d > u64::MAX) by (nonlinear_arith)
                        requires
                            preval > 0xFFFF_FFFF_FFFF_FFFFu64,
                            d >= 0,
                    ;
                }
            } else if acc > 0x1999_9999_9999_9999u64 || (acc == 0x1999_9999_9999_9999u64 && d
                > 5) {
                proof {
                    assert(preval * 10 + d > u64::MAX);
                }
                ovf = true;
            } else {
                acc = acc * 10 + d;
            }
            any = true;
            self.pos = self.pos + 1;
        }
        proof {
            lemma_digits_end_props(cs, p0);
            if (self.pos as int) < spec_digits_end(cs, p0) {
                assert(spec_is_digit(cs[self.pos as int]));
                assert(self.pos < n);
                assert('0' <= cs[self.pos as int] && cs[self.pos as int] <= '9');
                assert(false);
            }
            assert(self.pos == spec_digits_end(cs, p0));
        }
        if !any {
            None
        } else if ovf {
            None
        } else {
            Some(acc)
        }
    }

    /// Consumes `c` when it is the next character.
    fn expect(&mut self, c: char) -> (r: bool)
        requires
            old(self).wf(),
        ensures
            final(self).wf(),
            final(self).chars == old(self).chars,
            r == (old(self).pos < old(self).chars@.len() && old(self).chars@[old(
                self,
            ).pos as int] == c),
            r ==> final(self).pos == old(self).pos + 1,
            !r ==> final(self).pos == old(self).pos,
    {
        if self.pos < self.chars.len() && self.chars[self.pos] == c {
            self.pos = self.pos + 1;
            true
        } else {
            false
        }
    }

    /// Reads a length-prefixed string field, as `spec_read_str` describes.
    fn read_str_field(&mut self) -> (r: Option<String>)
        requires
            old(self).wf(),
        ensures
            final(self).wf(),
            final(self).chars == old(self).chars,
            match spec_read_str(old(self).chars@, old(self).pos as int) {
                Some((t, q)) => r matches Some(s2) && s2@ == t && final(self).pos == q,
                None => r is None,
            },
    {
        let ghost cs = self.chars@;
        let ghost p0 = self.pos as int;
        let total = self.chars.len();
        let len = match self.read_number() {
            Some(v) => v,
            None => {
                proof {
                    if spec_read_str(cs, p0) is Some {
                        let q = spec_read_nat(cs, p0)->Some_0.1;
                        let v = spec_read_nat(cs, p0)->Some_0.0;
                        lemma_digits_end_props(cs, p0);
                        crate::text::lemma_digits_val_bounds(
                            cs.subrange(p0, spec_digits_end(cs, p0)),
                        );
                        assert(v > u64::MAX);
                        assert(cs.len() == total);
                        assert(total <= usize::MAX);
                        assert(q >= 0);
                        assert(q + 1 + v > cs.len());
                        assert(false);
                    }
                }
                return None;
            },
        };
        if !self.expect(':') {
            proof {
                if spec_read_str(cs, p0) is Some {
                    assert(false);
                }
            }
            return None;
        }
        let remaining = (self.chars.len() - self.pos) as u64;
        if len > remaining {
            proof {
                if spec_read_str(cs, p0) is Some {
                    let q = spec_read_nat(cs, p0)->Some_0.1;
                    let v = spec_read_nat(cs, p0)->Some_0.0;
                    lemma_digits_end_props(cs, p0);
                    crate::text::lemma_digits_val_bounds(
                        cs.subrange(p0, spec_digits_end(cs, p0)),
                    );
                    assert(v >= 0);
                    assert(cs.len() == total);
                    assert(total <= usize::MAX);
                    assert(q + 1 + v <= cs.len());
                    assert(v <= u64::MAX);
                    assert(len == v);
                    assert(self.pos == q + 1);
                    assert(remaining == cs.len() - q - 1);
                    assert(false);
                }
            }
            return None;
        }
        let len = len as usize;
        proof {
            lemma_digits_end_props(cs, p0);
            crate::text::lemma_digits_val_bounds(cs.subrange(p0, spec_digits_end(cs, p0)));
            let q = spec_read_nat(cs, p0)->Some_0.1;
            let v = spec_read_nat(cs, p0)->Some_0.0;
            assert(q == spec_digits_end(cs, p0));
            assert(v >= 0);
            assert(v <= u64::MAX);
            assert(len == v);
            assert(self.pos == q + 1);
            assert(cs.len() == total);
            assert(v <= remaining);
            assert(q + 1 + v <= cs.len());
            assert(spec_read_str(cs, p0) == Some(
                (cs.subrange(q + 1, q + 1 + v), q + 1 + v),
            ));
        }
        let piece = crate::text::subvec(&self.chars, self.pos, self.pos + len);
        self.pos = self.pos + len;
        Some(string_from_chars(&piece))
    }

    /// Reads an optional string field, as `spec_read_opt` describes.
    fn read_opt_field(&mut self) -> (r: Option<Option<String>>)
        requires
            old(self).wf(),
        ensures
            final(self).wf(),
            final(self).chars == old(self).chars,
            match spec_read_opt(old(self).chars@, old(self).pos as int) {
                Some((o, q)) => (match r {
                    Some(o2) => (match (o2, o) {
                        (Some(s2), Some(t)) => s2@ == t,
                        (None, None) => true,
                        _ => false,
                    }) && final(self).pos == q,
                    None => false,
                }),
                None => r is None,
            },
    {
        if self.expect('0') {
            Some(None)
        } else if self.expect('1') {
            match self.read_str_field() {
                Some(s) => Some(Some(s)),
                None => None,
            }
        } else {
            None
        }
    }

    fn at_end(&self) -> (r: bool)
        ensures
            r == (self.pos >= self.chars@.len()),
    {
        self.pos >= self.chars.len()
    }
}

/// Reads one candidate result, as `spec_decode` describes.
#[verifier::rlimit(100)]
fn parse_result(s: &str) -> (r: Option<Result<u8, Error>>)
    ensures
        match r {
            Some(v) => spec_decode(s@) == Some(result_view(v)),
            None => spec_decode(s@) is None,
        },
{
    let chars = to_char_vec(s);
    let ghost cs = chars@;
    let mut cur = Cursor { chars, pos: 0 };
    if cur.expect('O') {
        proof {
            lemma_read_nat_nonneg(cs, 1);
        }
        match cur.read_number() {
            Some(v) => {
                if cur.at_end() && v <= 255 {
                    Some(Ok(v as u8))
                } else {
                    None
                }
            },
            None => None,
        }
    } else if cur.expect('P') {
        proof {
            lemma_read_nat_nonneg(cs, 1);
        }
        let start = match cur.read_number() {
            Some(v) => v,
            None => {
                return None;
            },
        };
        if !cur.expect(';') {
            return None;
        }
        if start > (usize::MAX as u64) {
            return None;
        }
        let ghost p2 = cur.pos as int;
        proof {
            lemma_read_nat_nonneg(cs, p2);
        }
        let end = match cur.read_number() {
            Some(v) => v,
            None => {
                return None;
            },
        };
        if !cur.expect(';') {
            return None;
        }
        if end > (usize::MAX as u64) {
            return None;
        }
        let reason = match cur.read_str_field() {
            Some(v) => v,
            None => {
                return None;
            },
        };
        if !cur.at_end() {
            return None;
        }
        Some(Err(Error::ParseError(ParseError {
            start_index: start as usize,
            end_index: end as usize,
            reason,
        })))
    } else if cur.expect('N') {
        match cur.read_opt_field() {
            Some(o) => {
                if cur.at_end() {
                    Some(Err(Error::FileNotFound(o)))
                } else {
                    None
                }
            },
            None => None,
        }
    } else if cur.expect('M') {
        match cur.read_opt_field() {
            Some(o) => {
                if cur.at_end() {
                    Some(Err(Error::PermissionDenied(o)))
                } else {
                    None
                }
            },
            None => None,
        }
    } else if cur.expect('C') {
        match cur.read_str_field() {
            Some(v) => {
                if cur.at_end() {
                    Some(Err(Error::CommandNotFound(v)))
                } else {
                    None
                }
            },
            None => None,
        }
    } else if cur.expect('Q') {
        match cur.read_str_field() {
            Some(v) => {
                if cur.at_end() {
                    Some(Err(Error::CommandPermissionDenied(v)))
                } else {
                    None
                }
            },
            None => None,
        }
    } else if cur.expect('X') {
        match cur.read_str_field() {
            Some(v) => {
                if cur.at_end() {
                    Some(Err(Error::ExitCodeParseError(v)))
                } else {
                    None
                }
            },
            None => None,
        }
    } else if cur.expect('D') {
        match cur.read_str_field() {
            Some(v) => {
                if cur.at_end() {
                    Some(Err(Error::DirectoryChangeRequested(v)))
                } else {
                    None
                }
            },
            None => None,
        }
    } else if cur.expect('S') {
        let k = match cur.read_str_field() {
            Some(v) => v,
            None => {
                return None;
            },
        };
        let v = match cur.read_str_field() {
            Some(v) => v,
            None => {
                return None;
            },
        };
        if !cur.at_end() {
            return None;
        }
        Some(Err(Error::VariableSetRequested(k, v)))
    } else if cur.expect('U') {
        match cur.read_str_field() {
            Some(v) => {
                if cur.at_end() {
                    Some(Err(Error::VariableUnsetRequested(v)))
                } else {
                    None
                }
            },
            None => None,
        }
    } else if cur.expect('E') {
        if cur.expect('0') {
            if cur.at_end() {
                Some(Err(Error::RequestExit(None)))
            } else {
                None
            }
        } else if cur.expect('1') {
            proof {
                lemma_read_nat_nonneg(cs, 2);
            }
            match cur.read_number() {
                Some(v) => {
                    if cur.at_end() && v <= 255 {
                        Some(Err(Error::RequestExit(Some(v as u8))))
                    } else {
                        None
                    }
                },
                None => None,
            }
        } else {
            None
        }
    } else if cur.expect('G') {
        match cur.read_str_field() {
            Some(v) => {
                if cur.at_end() {
                    Some(Err(Error::OtherError(v)))
                } else {
                    None
                }
            },
            None => None,
        }
    } else if cur.expect('Y') {
        match cur.read_str_field() {
            Some(v) => {
                if cur.at_end() {
                    Some(Err(Error::SyscallFailure(v)))
                } else {
                    None
                }
            },
            None => None,
        }
    } else {
        None
    }
}

/// Decodes one result from the result pipe.  Two guarantees together make
/// the boundary lossless: anything the encoder wrote decodes back to the
/// very value that was encoded, and a successful decode only ever returns
/// the unique value whose encoding is the input.
pub fn decode_result(s: &str) -> (r: Option<Result<u8, Error>>)
    ensures
        match r {
            Some(v) => spec_encode(result_view(v)) == s@,
            None => true,
        },
        forall|x: Result<u8, SpecError>|
            wire_wf(x) && s@ == spec_encode(x) ==> (r matches Some(v) && result_view(v) == x),
{
    match parse_result(s) {
        None => {
            proof {
                assert forall|x: Result<u8, SpecError>|
                    wire_wf(x) && s@ == spec_encode(x) implies false by {
                    lemma_wire_round_trip(x);
                }
            }
            None
        },
        Some(candidate) => {
            // Accept only a value whose own encoding is exactly the input.
            let reencoded = encode_result(&candidate);
            if str_eq(reencoded.as_str(), s) {
                proof {
                    assert forall|x: Result<u8, SpecError>|
                        wire_wf(x) && s@ == spec_encode(x) implies result_view(candidate)
                        == x by {
                        lemma_wire_round_trip(x);
                    }
                }
                Some(candidate)
            } else {
                proof {
                    assert forall|x: Result<u8, SpecError>|
                        wire_wf(x) && s@ == spec_encode(x) implies false by {
                        lemma_wire_round_trip(x);
                        assert(result_view(candidate) == x);
                        assert(reencoded@ == spec_encode(x));
                    }
                }
                None
            }
        },
    }
}

} // verus!
