use kennsh::error::Error;
use kennsh::syntax::ParseError;
use kennsh::wire::{decode_result, encode_result};

fn round_trip(r: Result<u8, Error>) {
    let enc = encode_result(&r);
    let back = decode_result(enc.as_str()).expect("decode failed");
    assert_eq!(back, r);
}

#[test]
fn round_trip_ok_codes() {
    round_trip(Ok(0));
    round_trip(Ok(7));
    round_trip(Ok(255));
}

#[test]
fn round_trip_parse_error() {
    round_trip(Err(Error::ParseError(ParseError {
        start_index: 3,
        end_index: 9,
        reason: "colon : and ; semicolon survive".to_string(),
    })));
}

#[test]
fn round_trip_paths_and_messages() {
    round_trip(Err(Error::FileNotFound(None)));
    round_trip(Err(Error::FileNotFound(Some("/tmp/x y".to_string()))));
    round_trip(Err(Error::PermissionDenied(Some("/etc/shadow".to_string()))));
    round_trip(Err(Error::CommandNotFound("nosuch".to_string())));
    round_trip(Err(Error::CommandPermissionDenied("bin".to_string())));
    round_trip(Err(Error::ExitCodeParseError("12x".to_string())));
    round_trip(Err(Error::OtherError("a:b;c1:2".to_string())));
    round_trip(Err(Error::SyscallFailure("waitpid".to_string())));
}

#[test]
fn round_trip_relay_signals() {
    round_trip(Err(Error::DirectoryChangeRequested("/tmp".to_string())));
    round_trip(Err(Error::VariableSetRequested("k".to_string(), "v v".to_string())));
    round_trip(Err(Error::VariableUnsetRequested("k".to_string())));
    round_trip(Err(Error::RequestExit(None)));
    round_trip(Err(Error::RequestExit(Some(9))));
}

#[test]
fn round_trip_empty_payloads() {
    round_trip(Err(Error::OtherError(String::new())));
    round_trip(Err(Error::VariableSetRequested(String::new(), String::new())));
}

#[test]
fn decode_rejects_garbage() {
    assert!(decode_result("").is_none());
    assert!(decode_result("Z").is_none());
    assert!(decode_result("O").is_none());
    assert!(decode_result("O256").is_none());
    assert!(decode_result("C3:ab").is_none());
    assert!(decode_result("C2:abc").is_none());
}

#[test]
fn decode_rejects_noncanonical_spellings() {
    // Only the exact encoder output is accepted.
    assert!(decode_result("O07").is_none());
    assert_eq!(decode_result("O7"), Some(Ok(7)));
}
