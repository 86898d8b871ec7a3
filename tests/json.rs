use jomini::json::DuplicateKeyMode;
use jomini::TextTape;
use rakaly::materialize::{Encoding, MaterializedTape, TapeToken};
use rakaly::options::{parse_duplicate_keys, parse_encoding};
use rakaly::resolve::InterpolatedTape;

const FIXTURE: &[u8] = b"a=\"b\"\na=1\n";

fn json_of(data: &[u8], encoding: Encoding, pretty: bool, keys: DuplicateKeyMode) -> String {
    let tape = TextTape::from_slice(data).unwrap();
    let interpolated = InterpolatedTape::from_tape_with_interpolation(&tape).unwrap();
    interpolated
        .to_json_with_options(&Vec::new(), encoding, pretty, keys)
        .unwrap()
}

#[test]
fn test_json() {
    let actual = json_of(FIXTURE, Encoding::Windows1252, false, DuplicateKeyMode::Preserve);
    assert_eq!(r#"{"a":"b","a":1}"#, actual);
}

#[test]
fn test_pretty_json() {
    let actual = json_of(FIXTURE, Encoding::Windows1252, true, DuplicateKeyMode::Preserve);
    assert_eq!("{\n  \"a\": \"b\",\n  \"a\": 1\n}", actual);
}

#[test]
fn test_json_duplicate_key_group() {
    let keys = parse_duplicate_keys("group").unwrap();
    let actual = json_of(FIXTURE, Encoding::Windows1252, false, keys);
    assert_eq!(r#"{"a":["b",1]}"#, actual);
}

#[test]
fn test_json_duplicate_key_typed() {
    let keys = parse_duplicate_keys("key-value-pairs").unwrap();
    let actual = json_of(FIXTURE, Encoding::Windows1252, false, keys);
    assert_eq!(r#"{"type":"obj","val":[["a","b"],["a",1]]}"#, actual);
}

#[test]
fn test_json_utf8() {
    let encoding = parse_encoding("utf-8").unwrap();
    let actual = json_of(FIXTURE, encoding, false, DuplicateKeyMode::Preserve);
    assert_eq!(r#"{"a":"b","a":1}"#, actual);
}

#[test]
fn test_json_windows1252() {
    let encoding = parse_encoding("windows-1252").unwrap();
    let actual = json_of(FIXTURE, encoding, false, DuplicateKeyMode::Preserve);
    assert_eq!(r#"{"a":"b","a":1}"#, actual);
}

#[test]
fn duplicate_key_modes_on_numbers() {
    let pairs = b"a=1 a=2";
    assert_eq!(
        json_of(pairs, Encoding::Utf8, false, DuplicateKeyMode::Preserve),
        r#"{"a":1,"a":2}"#
    );
    assert_eq!(
        json_of(pairs, Encoding::Utf8, false, DuplicateKeyMode::Group),
        r#"{"a":[1,2]}"#
    );
    assert_eq!(
        json_of(pairs, Encoding::Utf8, false, DuplicateKeyMode::KeyValuePairs),
        r#"{"type":"obj","val":[["a",1],["a",2]]}"#
    );
}

#[test]
fn option_names_ignore_case() {
    assert_eq!(parse_duplicate_keys("GROUP"), Ok(DuplicateKeyMode::Group));
    assert_eq!(parse_duplicate_keys("Preserve"), Ok(DuplicateKeyMode::Preserve));
    assert!(parse_duplicate_keys("other").is_err());
    assert_eq!(parse_encoding("UTF-8"), Ok(Encoding::Utf8));
    assert!(parse_encoding("latin1").is_err());
}

#[test]
fn key_without_value_is_refused() {
    let tape = MaterializedTape {
        owned_strings: vec![String::from("a")],
        token_data: vec![TapeToken::Unquoted(0)],
    };
    assert_eq!(tape.to_json_direct(), None);
    let complete = MaterializedTape {
        owned_strings: vec![String::from("a"), String::from("1")],
        token_data: vec![TapeToken::Unquoted(0), TapeToken::Unquoted(1)],
    };
    assert_eq!(complete.to_json_direct(), Some(String::from(r#"{"a":1}"#)));
    let container_key = MaterializedTape {
        owned_strings: vec![String::from("1")],
        token_data: vec![
            TapeToken::Object { end: 1, mixed: false },
            TapeToken::End(0),
            TapeToken::Unquoted(0),
        ],
    };
    assert_eq!(container_key.to_json_direct(), None);
}
