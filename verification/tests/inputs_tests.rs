use pgn_dataset::inputs::{input_kind, urls_from_json, ConfigError, InputKind};

#[test]
fn input_kind_by_suffix() {
    assert_eq!(input_kind(b"https://example.org/games.zip"), InputKind::Zip);
    assert_eq!(input_kind(b"archive.zip"), InputKind::Zip);
    assert_eq!(input_kind(b"/data/games.pgn"), InputKind::Pgn);
    assert_eq!(input_kind(b"games.txt"), InputKind::Unsupported);
    assert_eq!(input_kind(b"zip"), InputKind::Unsupported);
    assert_eq!(input_kind(b""), InputKind::Unsupported);
    assert_eq!(input_kind(b".pgn"), InputKind::Pgn);
}

#[test]
fn urls_from_json_array_of_strings() {
    let urls = urls_from_json("[\"a.pgn\", \"b.zip\"]").unwrap();
    assert_eq!(urls, vec!["a.pgn".to_string(), "b.zip".to_string()]);
    let empty = urls_from_json("[]").unwrap();
    assert!(empty.is_empty());
}

#[test]
fn urls_from_json_rejects_bad_input() {
    assert_eq!(urls_from_json("not json").unwrap_err(), ConfigError::MalformedJson);
    assert_eq!(urls_from_json("{\"a\": 1}").unwrap_err(), ConfigError::InvalidData);
    assert_eq!(urls_from_json("[\"a.pgn\", 3]").unwrap_err(), ConfigError::InvalidData);
    assert_eq!(
        urls_from_json("[3]").unwrap_err().message(),
        "Invalid JSON data"
    );
}
