use vrchime::config::get_config;
use vrchime::config::install_path_from_dir;
use vrchime::config::load_registry_vrc_install_path;
use vrchime::config::parse_config;
use vrchime::config::serialize_config;
use vrchime::config::ConfigStore;
use vrchime::error::AppError;
use vrchime::get_version;

#[test]
fn serialize_exact() {
    assert_eq!(serialize_config("C:/VRChat"), "game_path: C:/VRChat\n");
    // The empty path serializes to the bare quoted sentinel line.
    assert_eq!(serialize_config(""), "game_path: \"\"");
    // A path with an embedded newline is quoted, with the newline escaped.
    assert_eq!(serialize_config("a\nb"), "game_path: \"a\\nb\"\n");
}

#[test]
fn parse_round_trip() {
    assert_eq!(
        parse_config("game_path: C:/VRChat\n"),
        Some("C:/VRChat".to_string())
    );
    assert_eq!(parse_config("game_path: \n"), Some("".to_string()));
    assert_eq!(
        parse_config(&serialize_config("D:\\Games\\VRChat")),
        Some("D:\\Games\\VRChat".to_string())
    );
    // The trailing newline is optional when reading.
    assert_eq!(
        parse_config("game_path: C:/VRChat"),
        Some("C:/VRChat".to_string())
    );
    // The quoted sentinel parses back to the empty path.
    assert_eq!(parse_config("game_path: \"\""), Some("".to_string()));
}

#[test]
fn every_path_round_trips() {
    // Paths with newlines, quotes and backslashes survive
    // serialize-then-parse unchanged.
    let paths = [
        "",
        "a\nb",
        "\"quoted\"",
        "C:\\Program Files\\VRChat",
        "\\\\server\\share",
        "\"",
        "a\"b\\c\nd",
        " leading and trailing ",
    ];
    for p in paths {
        assert_eq!(parse_config(&serialize_config(p)), Some(p.to_string()));
    }
}

#[test]
fn parse_rejects_malformed() {
    assert_eq!(parse_config(""), None);
    assert_eq!(parse_config("other_key: C:/VRChat\n"), None);
    assert_eq!(parse_config("game_path: \"abc\n"), None); // unclosed quote
    assert_eq!(parse_config("game_path: \"\n"), None); // lone quote
    assert_eq!(parse_config("game_path: \"a\\xb\"\n"), None); // bad escape
    assert_eq!(parse_config("game_path: \"a\"b\"\n"), None); // bare quote inside
    assert_eq!(parse_config("game_path: a\nb\n"), None); // embedded newline
    assert_eq!(parse_config("game_path:"), None);
    assert_eq!(parse_config("{ not a config }"), None);
}

#[test]
fn resolve_file_takes_precedence() {
    // A present, parseable file wins regardless of the discovery outcome.
    let store = ConfigStore::from_file(Some("game_path: C:/FromFile\n".to_string()));
    let c = store.resolve(Some("C:/FromRegistry".to_string()));
    assert_eq!(c.game_path, "C:/FromFile");
    let c = store.resolve(None);
    assert_eq!(c.game_path, "C:/FromFile");
    // Even a stale empty path in the file short-circuits the chain.
    let store = ConfigStore::from_file(Some("game_path: \n".to_string()));
    let c = store.resolve(Some("C:/FromRegistry".to_string()));
    assert_eq!(c.game_path, "");
}

#[test]
fn resolve_falls_back_to_discovery() {
    // Absent file: the discovered directory, with the executable appended.
    let store = ConfigStore::from_file(None);
    let c = store.resolve(Some("C:/Games".to_string()));
    assert_eq!(c.game_path, "C:/Games\\VRChat.exe");
    // Corrupt file: same fallback.
    let store = ConfigStore::from_file(Some("not a config line".to_string()));
    let c = store.resolve(Some("C:/Games".to_string()));
    assert_eq!(c.game_path, "C:/Games\\VRChat.exe");
}

#[test]
fn resolve_is_total_and_defaults_to_empty() {
    // Every filesystem state yields a value; both tiers absent give the
    // empty sentinel, never an error.
    let store = ConfigStore::from_file(None);
    let c = store.resolve(None);
    assert_eq!(c.game_path, "");
    let store = ConfigStore::from_file(Some("corrupt".to_string()));
    let c = store.resolve(None);
    assert_eq!(c.game_path, "");
}

#[test]
fn resolve_is_read_only() {
    // Resolution on the discovery tier leaves the store's file untouched:
    // nothing is persisted as a side effect.
    let store = ConfigStore::from_file(None);
    let _ = store.resolve(Some("C:/Games".to_string()));
    assert!(store.file.is_none());
}

#[test]
fn get_config_returns_file_verbatim() {
    let text = "game_path: C:/VRChat\n".to_string();
    let s = get_config(Some(text.clone()), Some("C:/Ignored".to_string()));
    assert_eq!(s, text);
}

#[test]
fn get_config_fallbacks() {
    let s = get_config(None, Some("C:/Games".to_string()));
    assert_eq!(s, "game_path: C:/Games\\VRChat.exe\n");
    // Both tiers exhausted: exactly the empty-sentinel line.
    let s = get_config(Some("corrupt".to_string()), None);
    assert_eq!(s, "game_path: \"\"");
    let s = get_config(None, None);
    assert_eq!(s, "game_path: \"\"");
}

#[test]
fn persist_overwrites() {
    // Two persists with different paths: only the second value is readable
    // afterwards — an overwrite, not an append.
    let mut store = ConfigStore::from_file(None);
    let first_text = store.persist("C:/First");
    assert_eq!(first_text, "game_path: C:/First\n");
    let second_text = store.persist("C:/Second");
    assert_eq!(second_text, "game_path: C:/Second\n");
    assert_eq!(store.file, Some("game_path: C:/Second\n".to_string()));
    assert_eq!(
        parse_config(store.file.as_ref().unwrap()),
        Some("C:/Second".to_string())
    );
}

#[test]
fn persist_round_trips_awkward_paths() {
    // A persisted path is readable back whatever characters it holds.
    let mut store = ConfigStore::from_file(None);
    let text = store.persist("a\nb");
    assert_eq!(text, "game_path: \"a\\nb\"\n");
    let c = store.resolve(None);
    assert_eq!(c.game_path, "a\nb");
    let _ = store.persist("\"x\"");
    let c = store.resolve(Some("C:/Ignored".to_string()));
    assert_eq!(c.game_path, "\"x\"");
}

#[test]
fn registry_lookup_mapping() {
    assert_eq!(
        load_registry_vrc_install_path(Some("C:\\Program Files\\VRChat".to_string())),
        Ok("C:\\Program Files\\VRChat\\VRChat.exe".to_string())
    );
    assert_eq!(
        load_registry_vrc_install_path(None),
        Err(AppError::DiscoveryError)
    );
}

#[test]
fn install_path_append() {
    assert_eq!(install_path_from_dir("C:/Games"), "C:/Games\\VRChat.exe");
}

#[test]
fn version_string() {
    assert_eq!(get_version(Some("1.2.3".to_string())), "1.2.3");
    assert_eq!(get_version(None), "Unknown");
}
