use conduit::config::{load_database_config, parse_config, ConfigError};
use conduit::json::{parse_add_comment, push_dec_i32};
use conduit::textutil::{last_path_segment, parse_i32, split_on_commas, str_eq};

#[test]
fn config_full_database_section() {
    let text = "# server configuration\n\n[database]\nconnection_string = \"server=localhost;user=sa\"\ndatabase_name = \"Conduit\"\ncreate_database_secret = \"s3cr3t\"\n";
    let doc = parse_config(text).unwrap();
    assert_eq!(doc.sections.len(), 1);
    assert_eq!(doc.sections[0].name, "database");
    assert_eq!(doc.sections[0].entries.len(), 3);
    assert_eq!(doc.sections[0].entries[0].key, "connection_string");
    assert_eq!(doc.sections[0].entries[0].value, "server=localhost;user=sa");
    assert_eq!(doc.sections[0].entries[2].value, "s3cr3t");
}

#[test]
fn config_value_escapes() {
    let text = "[database]\ndatabase_name = \"a\\\"b\\\\c\"\n";
    let doc = parse_config(text).unwrap();
    assert_eq!(doc.sections[0].entries[0].value, "a\"b\\c");
}

#[test]
fn config_keys_before_any_header() {
    // Keys before the first header fall into a nameless leading
    // section; they load, and the database settings stay unset.
    let doc = parse_config("foo = \"x\"\n").unwrap();
    assert_eq!(doc.sections.len(), 1);
    assert_eq!(doc.sections[0].name, "");
    assert_eq!(doc.sections[0].entries[0].value, "x");
    assert_eq!(
        load_database_config("foo = \"x\"", None),
        Err(ConfigError::DatabaseMissing)
    );
}

#[test]
fn config_section_repeated() {
    assert_eq!(
        parse_config("[database]\n[database]\n"),
        Err(ConfigError::SectionRepeated)
    );
}

#[test]
fn config_key_repeated() {
    assert_eq!(
        parse_config("[database]\nk = \"a\"\nk = \"b\"\n"),
        Err(ConfigError::KeyRepeated)
    );
}

#[test]
fn config_invalid_lines() {
    assert_eq!(parse_config("[database\n"), Err(ConfigError::InvalidLine));
    assert_eq!(parse_config("[]\n"), Err(ConfigError::InvalidLine));
    assert_eq!(
        parse_config("[database]\nk = \"a\" junk\n"),
        Err(ConfigError::InvalidLine)
    );
    assert_eq!(parse_config("[database]\nk =\n"), Err(ConfigError::InvalidLine));
    assert_eq!(parse_config("[database] junk\n"), Err(ConfigError::InvalidLine));
    assert_eq!(parse_config("!\n"), Err(ConfigError::InvalidLine));
}

#[test]
fn config_lines_the_loader_does_not_read_are_carried() {
    // Unquoted values anywhere parse and are carried unread, so a file
    // with integers, dates or arrays on other keys still loads.
    let text = "[database]\nconnection_string = \"server=db\"\nretries = 3\nwhen = 1979-05-27\nports = [ 8001, 8002 ]\n";
    let doc = parse_config(text).unwrap();
    assert_eq!(doc.sections[0].entries.len(), 4);
    assert!(!doc.sections[0].entries[1].is_text);
    assert_eq!(doc.sections[0].entries[1].value, "3");
    assert_eq!(doc.sections[0].entries[3].value, "[ 8001, 8002 ]");
    let cfg = load_database_config("", Some(text)).unwrap();
    assert_eq!(cfg.connection_string.as_deref(), Some("server=db"));
}

#[test]
fn config_trailing_comments() {
    let text = "[database] # settings\nconnection_string = \"x\" # the server\nretries = 3 # an unread value\n";
    let doc = parse_config(text).unwrap();
    assert_eq!(doc.sections[0].entries[0].value, "x");
    assert_eq!(doc.sections[0].entries[1].value, "3");
}

#[test]
fn config_string_escapes_are_the_formats() {
    // The format's unicode escapes decode; its two-character escapes
    // decode; the solidus escape is not one of them.
    let doc = parse_config("[database]\nk = \"a\\u0041b\\U0001F600c\\td\"\n").unwrap();
    assert_eq!(doc.sections[0].entries[0].value, "aAb\u{1F600}c\td");
    assert_eq!(
        parse_config("[database]\nk = \"a\\/b\"\n"),
        Err(ConfigError::InvalidLine)
    );
    assert_eq!(
        parse_config("[database]\nk = \"\\uD800\"\n"),
        Err(ConfigError::InvalidLine)
    );
}

#[test]
fn database_setting_must_be_text() {
    // A read setting whose value is not a quoted string is refused, as
    // the loader reads these settings as text.
    assert_eq!(
        load_database_config("", Some("[database]\ndatabase_name = 3\n")),
        Err(ConfigError::SettingNotText)
    );
}

#[test]
fn config_blank_and_comments_only() {
    let doc = parse_config("   \n# nothing here\n\t\n").unwrap();
    assert_eq!(doc.sections.len(), 0);
}

#[test]
fn load_database_from_env_override() {
    let env = "[database]&&&DATABASE_URL = \"postgres://user@host/db\"";
    let cfg = load_database_config(env, None).unwrap();
    assert_eq!(cfg.database_url.as_deref(), Some("postgres://user@host/db"));
    assert_eq!(cfg.connection_string, None);
}

#[test]
fn load_database_env_and_file_merge() {
    let env = "[database]&&&database_name = \"FromEnv\"&&&";
    let file = "[database]\nconnection_string = \"server=db\"\n";
    let cfg = load_database_config(env, Some(file)).unwrap();
    assert_eq!(cfg.database_name.as_deref(), Some("FromEnv"));
    assert_eq!(cfg.connection_string.as_deref(), Some("server=db"));
}

#[test]
fn load_database_env_overrides_file_per_key() {
    // A key set in both texts takes the override's value; the file's
    // other keys stay.
    let env = "[database]&&&database_name = \"FromEnv\"";
    let file = "[database]\ndatabase_name = \"FromFile\"\nconnection_string = \"server=db\"\n";
    let cfg = load_database_config(env, Some(file)).unwrap();
    assert_eq!(cfg.database_name.as_deref(), Some("FromEnv"));
    assert_eq!(cfg.connection_string.as_deref(), Some("server=db"));
}

#[test]
fn load_database_missing_section() {
    assert_eq!(
        load_database_config("", Some("[other]\nx = \"1\"\n")),
        Err(ConfigError::DatabaseMissing)
    );
    assert_eq!(load_database_config("", None), Err(ConfigError::DatabaseMissing));
}

#[test]
fn load_database_propagates_parse_error() {
    assert_eq!(load_database_config("oops", None), Err(ConfigError::InvalidLine));
}

#[test]
fn add_comment_body_plain() {
    let body = "{\"comment\": {\"body\": \"His name was my name too.\"}}";
    assert_eq!(
        parse_add_comment(body).as_deref(),
        Some("His name was my name too.")
    );
}

#[test]
fn add_comment_body_whitespace_and_escapes() {
    let body = " { \"comment\" : { \"body\" : \"a\\\"b\\\\c\\/d\\ne\\tf\" } } ";
    assert_eq!(parse_add_comment(body).as_deref(), Some("a\"b\\c/d\ne\tf"));
}

#[test]
fn add_comment_body_rejected() {
    assert_eq!(parse_add_comment(""), None);
    assert_eq!(parse_add_comment("{\"comment\": {\"body\": \"x\"}"), None);
    assert_eq!(parse_add_comment("{\"comment\": {\"text\": \"x\"}}"), None);
    assert_eq!(parse_add_comment("{\"comment\": {\"body\": \"x\"}}!"), None);
    assert_eq!(parse_add_comment("{\"comment\": {\"body\": \"a\nb\"}}"), None);
    // A lone surrogate is not a JSON text.
    assert_eq!(parse_add_comment("{\"comment\": {\"body\": \"\\uD83D\"}}"), None);
    assert_eq!(parse_add_comment("{\"comment\": {\"body\": \"\\uDE00\"}}"), None);
}

#[test]
fn add_comment_body_unicode_escapes() {
    assert_eq!(
        parse_add_comment("{\"comment\": {\"body\": \"a\\u0041\\b\\fb\"}}").as_deref(),
        Some("aA\u{8}\u{c}b")
    );
    // A surrogate pair denotes one character past the basic plane.
    assert_eq!(
        parse_add_comment("{\"comment\": {\"body\": \"\\uD83D\\uDE00\"}}").as_deref(),
        Some("\u{1F600}")
    );
}

#[test]
fn parse_i32_accepts_signed_decimals() {
    assert_eq!(parse_i32("42"), Some(42));
    assert_eq!(parse_i32("-7"), Some(-7));
    assert_eq!(parse_i32("+9"), Some(9));
    assert_eq!(parse_i32("0"), Some(0));
    assert_eq!(parse_i32("2147483647"), Some(2147483647));
    assert_eq!(parse_i32("-2147483648"), Some(-2147483648));
}

#[test]
fn parse_i32_rejects_out_of_range_and_junk() {
    assert_eq!(parse_i32("2147483648"), None);
    assert_eq!(parse_i32("-2147483649"), None);
    assert_eq!(parse_i32("99999999999999999999"), None);
    assert_eq!(parse_i32(""), None);
    assert_eq!(parse_i32("-"), None);
    assert_eq!(parse_i32("12a"), None);
    assert_eq!(parse_i32(" 3"), None);
}

#[test]
fn last_segment_of_paths() {
    assert_eq!(last_path_segment("/api/articles/slug-1/comments/55"), "55");
    assert_eq!(last_path_segment("abc"), "abc");
    assert_eq!(last_path_segment("a/"), "");
    assert_eq!(last_path_segment(""), "");
}

#[test]
fn split_on_commas_keeps_empty_pieces() {
    assert_eq!(split_on_commas("rust,verus"), vec!["rust", "verus"]);
    assert_eq!(split_on_commas(""), vec![""]);
    assert_eq!(split_on_commas("a,b,,c,"), vec!["a", "b", "", "c", ""]);
}

#[test]
fn rendered_ids_parse_back() {
    for n in [0, 7, -42, 2147483647, -2147483648] {
        let mut s = String::new();
        push_dec_i32(&mut s, n);
        assert_eq!(parse_i32(&s), Some(n));
    }
    let mut s = String::new();
    push_dec_i32(&mut s, -42);
    assert_eq!(s, "-42");
}

#[test]
fn escaped_bodies_parse_back() {
    // The serializer's escape of a body, wrapped as a request, reads
    // back as the same body.
    let original = "a\"b\\c\nd\te f/g";
    let request = "{\"comment\":{\"body\":\"a\\\"b\\\\c\\nd\\te f/g\"}}";
    assert_eq!(parse_add_comment(request).as_deref(), Some(original));
}

#[test]
fn str_eq_compares_characters() {
    assert!(str_eq("", ""));
    assert!(str_eq("abc", "abc"));
    assert!(!str_eq("abc", "abd"));
    assert!(!str_eq("abc", "ab"));
}
