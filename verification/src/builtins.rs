//! The builtins whose whole effect is a decision: `cd`, `exit`, and the
//! variable set/unset commands.  None of them touches the process state
//! itself; each returns the control-flow signal that the top-level driver
//! recovers through the relay.

use vstd::prelude::*;

use crate::error::{Error, SpecError};
use crate::text::{
    spec_parse_int, parse_u8_chars, string_from_chars, subvec, to_char_vec,
};

verus! {

/// `s` with its first `~` replaced by `home`; unchanged when there is
/// none.
pub open spec fn spec_expand_tilde(s: Seq<char>, home: Seq<char>) -> Seq<char> {
    if (exists|j: int| 0 <= j < s.len() && s[j] == '~') {
        let j = spec_first_tilde(s);
        s.subrange(0, j) + home + s.subrange(j + 1, s.len() as int)
    } else {
        s
    }
}

/// The offset of the first `~` of `s`.
pub open spec fn spec_first_tilde(s: Seq<char>) -> int {
    choose|j: int|
        0 <= j < s.len() && s[j] == '~' && (forall|l: int| 0 <= l < j ==> s[l] != '~')
}

/// Replaces the first `~` of `v` with `home`.
fn expand_tilde(v: &Vec<char>, home: &Vec<char>) -> (r: Vec<char>)
    ensures
        r@ == spec_expand_tilde(v@, home@),
{
    let n = v.len();
    let mut i: usize = 0;
    while i < n
        invariant
            n == v@.len(),
            i <= n,
            forall|l: int| 0 <= l < i ==> v@[l] != '~',
        decreases n - i,
    {
        if v[i] == '~' {
            let mut r = subvec(v, 0, i);
            let mut mid = subvec(home, 0, home.len());
            let mut rest = subvec(v, i + 1, n);
            let ghost ghome = mid@;
            let ghost grest = rest@;
            r.append(&mut mid);
            r.append(&mut rest);
            proof {
                assert(v@[i as int] == '~');
                assert(spec_first_tilde(v@) == i as int) by {
                    let j = spec_first_tilde(v@);
                    assert(0 <= j < v@.len() && v@[j] == '~' && (forall|l: int|
                        0 <= l < j ==> v@[l] != '~'));
                };
                assert(ghome =~= home@);
                assert(r@ =~= v@.subrange(0, i as int) + home@ + v@.subrange(
                    i + 1,
                    v@.len() as int,
                ));
            }
            return r;
        }
        i = i + 1;
    }
    subvec(v, 0, n)
}

/// The `cd` builtin: it never changes the directory itself; with one
/// argument it asks the top level to change to that path, with the first
/// `~` expanded to the home directory.  Extra arguments beyond the first
/// are ignored.
pub fn cd(command: &Vec<String>, home: &String) -> (r: Result<u8, Error>)
    requires
        command@.len() >= 1,
    ensures
        command@.len() == 1 ==> (r matches Err(e) && e@ == SpecError::OtherError(
            "cd requires 1 parameter with the path to change into"@,
        )),
        command@.len() >= 2 ==> (r matches Err(e) && e@ == SpecError::DirectoryChangeRequested(
            spec_expand_tilde(command@[1]@, home@),
        )),
{
    if command.len() == 1 {
        Err(Error::OtherError(String::from_str(
            "cd requires 1 parameter with the path to change into",
        )))
    } else {
        let path_chars = to_char_vec(command[1].as_str());
        let home_chars = to_char_vec(home.as_str());
        let expanded = expand_tilde(&path_chars, &home_chars);
        Err(Error::DirectoryChangeRequested(string_from_chars(&expanded)))
    }
}

/// What the exit builtin accepts as an exit code: a decimal number from 0
/// to 255, with an optional leading `+`.
pub open spec fn spec_exit_code(s: Seq<char>) -> Option<u8> {
    if s.len() > 0 && s[0] == '-' {
        None
    } else {
        match spec_parse_int(s) {
            Some(v) => if 0 <= v <= 255 {
                Some(v as u8)
            } else {
                None
            },
            None => None,
        }
    }
}

/// The `exit` builtin: asks the interactive loop to terminate, with the
/// parsed exit code when one was given.  A malformed code is reported,
/// not obeyed.  Extra arguments beyond the first are ignored.
pub fn exit_command(command: &Vec<String>) -> (r: Result<u8, Error>)
    requires
        command@.len() >= 1,
    ensures
        command@.len() == 1 ==> (r matches Err(e) && e@ == SpecError::RequestExit(None)),
        command@.len() >= 2 ==> (match r {
            Err(e) => e@ == (match spec_exit_code(command@[1]@) {
                Some(c) => SpecError::RequestExit(Some(c)),
                None => SpecError::ExitCodeParseError(command@[1]@),
            }),
            Ok(_) => false,
        }),
{
    if command.len() == 1 {
        Err(Error::RequestExit(None))
    } else {
        let arg_chars = to_char_vec(command[1].as_str());
        match parse_u8_chars(&arg_chars) {
            Some(code) => Err(Error::RequestExit(Some(code))),
            None => Err(Error::ExitCodeParseError(command[1].clone())),
        }
    }
}

/// The variable-set builtin: with a key and a value it asks the top level
/// to set the variable; with fewer arguments it reports a usage error.
/// Extra arguments beyond the first two are ignored.
pub fn set(command: &Vec<String>) -> (r: Result<u8, Error>)
    requires
        command@.len() >= 1,
    ensures
        command@.len() < 3 ==> (r matches Err(e) && e@ == SpecError::OtherError(
            "\x1b[4munset\x1b[24m: Less than 2 arguments given"@,
        )),
        command@.len() >= 3 ==> (r matches Err(e) && e@ == SpecError::VariableSetRequested(
            command@[1]@,
            command@[2]@,
        )),
{
    if command.len() < 3 {
        Err(Error::OtherError(String::from_str(
            "\x1b[4munset\x1b[24m: Less than 2 arguments given",
        )))
    } else {
        Err(Error::VariableSetRequested(command[1].clone(), command[2].clone()))
    }
}

/// The variable-unset builtin: with a key it asks the top level to remove
/// the variable.  Extra arguments beyond the first are ignored.
pub fn unset(command: &Vec<String>) -> (r: Result<u8, Error>)
    requires
        command@.len() >= 1,
    ensures
        command@.len() < 2 ==> (r matches Err(e) && e@ == SpecError::OtherError(
            "\x1b[4munset\x1b[24m: No arguments given; expected 1 argument"@,
        )),
        command@.len() >= 2 ==> (r matches Err(e) && e@ == SpecError::VariableUnsetRequested(
            command@[1]@,
        )),
{
    if command.len() < 2 {
        Err(Error::OtherError(String::from_str(
            "\x1b[4munset\x1b[24m: No arguments given; expected 1 argument",
        )))
    } else {
        Err(Error::VariableUnsetRequested(command[1].clone()))
    }
}

} // verus!
