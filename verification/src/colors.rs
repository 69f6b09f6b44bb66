//! ANSI color codes, the powerline prompt segments, the prompt text, and
//! the truthiness rule for configuration variables.

use vstd::prelude::*;

use crate::syntax::{dec_u64_chars, spec_dec_nat};
use crate::text::{spec_trim, string_from_chars, to_char_vec, trim_chars};

verus! {

/// A terminal color: one of the sixteen classic colors, an 8-bit palette
/// color, or the reset back to the default.
#[derive(Copy, Clone, Debug, PartialEq, Eq, Structural)]
pub enum ANSIColor {
    FourBitNormal(u8),
    FourBitBright(u8),
    EightBit(u8),
    Reset,
}

/// The escape sequence that selects this color for the foreground.
pub open spec fn spec_fg(c: ANSIColor) -> Seq<char> {
    match c {
        ANSIColor::FourBitNormal(code) => seq!['\x1b', '['] + spec_dec_nat((30 + code) as nat)
            + seq!['m'],
        ANSIColor::FourBitBright(code) => seq!['\x1b', '['] + spec_dec_nat((90 + code) as nat)
            + seq!['m'],
        ANSIColor::EightBit(code) => seq!['\x1b', '[', '3', '8', ';', '5', ';'] + spec_dec_nat(
            code as nat,
        ) + seq!['m'],
        ANSIColor::Reset => seq!['\x1b', '[', '3', '9', 'm'],
    }
}

/// The escape sequence that selects this color for the background.
pub open spec fn spec_bg(c: ANSIColor) -> Seq<char> {
    match c {
        ANSIColor::FourBitNormal(code) => seq!['\x1b', '['] + spec_dec_nat((40 + code) as nat)
            + seq!['m'],
        ANSIColor::FourBitBright(code) => seq!['\x1b', '['] + spec_dec_nat((100 + code) as nat)
            + seq!['m'],
        ANSIColor::EightBit(code) => seq!['\x1b', '[', '4', '8', ';', '5', ';'] + spec_dec_nat(
            code as nat,
        ) + seq!['m'],
        ANSIColor::Reset => seq!['\x1b', '[', '4', '9', 'm'],
    }
}

impl ANSIColor {
    /// The foreground escape sequence of this color.
    pub fn fg(&self) -> (r: String)
        ensures
            r@ == spec_fg(*self),
    {
        let chars = self.fg_chars();
        string_from_chars(&chars)
    }

    /// The background escape sequence of this color.
    pub fn bg(&self) -> (r: String)
        ensures
            r@ == spec_bg(*self),
    {
        let chars = self.bg_chars();
        string_from_chars(&chars)
    }

    fn fg_chars(&self) -> (r: Vec<char>)
        ensures
            r@ == spec_fg(*self),
    {
        let mut r: Vec<char> = Vec::new();
        r.push('\x1b');
        r.push('[');
        match self {
            ANSIColor::FourBitNormal(code) => {
                let mut digits = dec_u64_chars(30u64 + (*code as u64));
                r.append(&mut digits);
                r.push('m');
                proof {
                    assert(r@ =~= spec_fg(*self));
                }
            },
            ANSIColor::FourBitBright(code) => {
                let mut digits = dec_u64_chars(90u64 + (*code as u64));
                r.append(&mut digits);
                r.push('m');
                proof {
                    assert(r@ =~= spec_fg(*self));
                }
            },
            ANSIColor::EightBit(code) => {
                r.push('3');
                r.push('8');
                r.push(';');
                r.push('5');
                r.push(';');
                let mut digits = dec_u64_chars(*code as u64);
                r.append(&mut digits);
                r.push('m');
                proof {
                    assert(r@ =~= spec_fg(*self));
                }
            },
            ANSIColor::Reset => {
                r.push('3');
                r.push('9');
                r.push('m');
                proof {
                    assert(r@ =~= spec_fg(*self));
                }
            },
        }
        r
    }

    fn bg_chars(&self) -> (r: Vec<char>)
        ensures
            r@ == spec_bg(*self),
    {
        let mut r: Vec<char> = Vec::new();
        r.push('\x1b');
        r.push('[');
        match self {
            ANSIColor::FourBitNormal(code) => {
                let mut digits = dec_u64_chars(40u64 + (*code as u64));
                r.append(&mut digits);
                r.push('m');
                proof {
                    assert(r@ =~= spec_bg(*self));
                }
            },
            ANSIColor::FourBitBright(code) => {
                let mut digits = dec_u64_chars(100u64 + (*code as u64));
                r.append(&mut digits);
                r.push('m');
                proof {
                    assert(r@ =~= spec_bg(*self));
                }
            },
            ANSIColor::EightBit(code) => {
                r.push('4');
                r.push('8');
                r.push(';');
                r.push('5');
                r.push(';');
                let mut digits = dec_u64_chars(*code as u64);
                r.append(&mut digits);
                r.push('m');
                proof {
                    assert(r@ =~= spec_bg(*self));
                }
            },
            ANSIColor::Reset => {
                r.push('4');
                r.push('9');
                r.push('m');
                proof {
                    assert(r@ =~= spec_bg(*self));
                }
            },
        }
        r
    }
}

/// The powerline separator glyph between two colored blocks, drawn in the
/// leaving block's color on the entering block's background.
pub open spec fn spec_powerline_arrow(previous: ANSIColor, next: ANSIColor) -> Seq<char> {
    spec_fg(previous) + spec_bg(next) + seq!['\u{e0b0}'] + spec_fg(ANSIColor::Reset)
}

pub fn powerline_arrow(previous: &ANSIColor, next: &ANSIColor) -> (r: String)
    ensures
        r@ == spec_powerline_arrow(*previous, *next),
{
    let mut chars = previous.fg_chars();
    let mut bg = next.bg_chars();
    let mut reset = ANSIColor::Reset.fg_chars();
    let ghost ga = chars@;
    let ghost gb = bg@;
    let ghost gc = reset@;
    chars.append(&mut bg);
    chars.push('\u{e0b0}');
    chars.append(&mut reset);
    proof {
        assert(chars@ =~= ga + gb + seq!['\u{e0b0}'] + gc);
    }
    string_from_chars(&chars)
}

/// The rendering of a row of powerline blocks: each block paints its
/// background, its text, and the arrow into the next block's background;
/// the last block's arrow fades into the reset color.
pub open spec fn spec_powerline_blocks(blocks: Seq<(String, ANSIColor)>, j: int) -> Seq<char>
    decreases blocks.len() - j,
{
    if j < 0 || j >= blocks.len() {
        Seq::empty()
    } else {
        let next_color = if j + 1 < blocks.len() {
            blocks[j + 1].1
        } else {
            ANSIColor::Reset
        };
        spec_bg(blocks[j].1) + blocks[j].0@ + spec_powerline_arrow(blocks[j].1, next_color)
            + spec_fg(ANSIColor::Reset) + spec_powerline_blocks(blocks, j + 1)
    }
}

pub fn powerline_blocks(blocks: Vec<(String, ANSIColor)>) -> (r: String)
    ensures
        r@ == spec_powerline_blocks(blocks@, 0),
{
    let chars = powerline_blocks_from(&blocks, 0);
    string_from_chars(&chars)
}

fn powerline_blocks_from(blocks: &Vec<(String, ANSIColor)>, j: usize) -> (r: Vec<char>)
    requires
        j <= blocks@.len(),
    ensures
        r@ == spec_powerline_blocks(blocks@, j as int),
    decreases blocks@.len() - j,
{
    if j >= blocks.len() {
        Vec::new()
    } else {
        let next_color: ANSIColor = if j + 1 < blocks.len() {
            blocks[j + 1].1
        } else {
            ANSIColor::Reset
        };
        let mut r = blocks[j].1.bg_chars();
        let mut text = to_char_vec(blocks[j].0.as_str());
        let arrow_str = powerline_arrow(&blocks[j].1, &next_color);
        let mut arrow = to_char_vec(arrow_str.as_str());
        let mut reset = ANSIColor::Reset.fg_chars();
        let mut rest = powerline_blocks_from(blocks, j + 1);
        let ghost g0 = r@;
        let ghost g1 = text@;
        let ghost g2 = arrow@;
        let ghost g3 = reset@;
        let ghost g4 = rest@;
        r.append(&mut text);
        r.append(&mut arrow);
        r.append(&mut reset);
        r.append(&mut rest);
        proof {
            assert(r@ =~= g0 + g1 + g2 + g3 + g4);
            assert(r@ =~= spec_powerline_blocks(blocks@, j as int));
        }
        r
    }
}

/// The truthiness rule for configuration variables: unset, blank, and the
/// spellings of no — `0`, `f`, `false`, `n`, `no`, in any letter case —
/// count as false; every other value counts as true.
pub open spec fn spec_env_value_is_true(value: Option<Seq<char>>) -> bool {
    match value {
        None => false,
        Some(v) => {
            let t = spec_ascii_lower(spec_trim(v));
            &&& t.len() > 0
            &&& t != seq!['0']
            &&& t != seq!['f']
            &&& t != seq!['f', 'a', 'l', 's', 'e']
            &&& t != seq!['n']
            &&& t != seq!['n', 'o']
        },
    }
}

pub open spec fn spec_lower_char(c: char) -> char {
    if 'A' <= c && c <= 'Z' {
        ((c as u32) + 32) as char
    } else {
        c
    }
}

pub open spec fn spec_ascii_lower(s: Seq<char>) -> Seq<char> {
    Seq::new(s.len(), |i: int| spec_lower_char(s[i]))
}

fn lower_char(c: char) -> (r: char)
    ensures
        r == spec_lower_char(c),
{
    match c {
        'A' => 'a',
        'B' => 'b',
        'C' => 'c',
        'D' => 'd',
        'E' => 'e',
        'F' => 'f',
        'G' => 'g',
        'H' => 'h',
        'I' => 'i',
        'J' => 'j',
        'K' => 'k',
        'L' => 'l',
        'M' => 'm',
        'N' => 'n',
        'O' => 'o',
        'P' => 'p',
        'Q' => 'q',
        'R' => 'r',
        'S' => 's',
        'T' => 't',
        'U' => 'u',
        'V' => 'v',
        'W' => 'w',
        'X' => 'x',
        'Y' => 'y',
        'Z' => 'z',
        other => other,
    }
}

/// Whether a configuration variable's value asks for the feature, by the
/// truthiness rule of `spec_env_value_is_true`.
pub fn env_value_is_true(value: &Option<String>) -> (r: bool)
    ensures
        r == spec_env_value_is_true(match value {
            Some(v) => Some(v@),
            None => None,
        }),
{
    match value {
        None => false,
        Some(v) => {
            let chars = to_char_vec(v.as_str());
            let trimmed = trim_chars(&chars);
            let n = trimmed.len();
            let mut lowered: Vec<char> = Vec::new();
            let mut i: usize = 0;
            while i < n
                invariant
                    n == trimmed@.len(),
                    i <= n,
                    lowered@.len() == i,
                    forall|j: int| 0 <= j < i ==> lowered@[j] == spec_lower_char(trimmed@[j]),
                decreases n - i,
            {
                lowered.push(lower_char(trimmed[i]));
                i = i + 1;
            }
            proof {
                assert(lowered@ =~= spec_ascii_lower(trimmed@));
            }
            if lowered.len() == 0 {
                return false;
            }
            if lowered.len() == 1 && (lowered[0] == '0' || lowered[0] == 'f' || lowered[0] == 'n') {
                proof {
                    assert(lowered@ =~= seq![lowered@[0]]);
                }
                return false;
            }
            if lowered.len() == 5 && lowered[0] == 'f' && lowered[1] == 'a' && lowered[2] == 'l'
                && lowered[3] == 's' && lowered[4] == 'e' {
                proof {
                    assert(lowered@ =~= seq!['f', 'a', 'l', 's', 'e']);
                }
                return false;
            }
            if lowered.len() == 2 && lowered[0] == 'n' && lowered[1] == 'o' {
                proof {
                    assert(lowered@ =~= seq!['n', 'o']);
                }
                return false;
            }
            proof {
                if lowered@ == seq!['0'] || lowered@ == seq!['f'] || lowered@ == seq!['n'] {
                    assert(lowered@.len() == 1);
                }
                if lowered@ == seq!['f', 'a', 'l', 's', 'e'] {
                    assert(lowered@.len() == 5);
                    assert(lowered@[0] == 'f' && lowered@[1] == 'a' && lowered@[2] == 'l'
                        && lowered@[3] == 's' && lowered@[4] == 'e');
                }
                if lowered@ == seq!['n', 'o'] {
                    assert(lowered@.len() == 2);
                }
            }
            true
        },
    }
}

} // verus!
