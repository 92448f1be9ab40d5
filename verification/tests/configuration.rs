use thcato::option_table::OptionTable;
use thcato::structs::{parse_config_line, ConfigLine, Configuration};
use thcato::text::{chars_of, classify_token, parse_decimal, push_decimal, tokenize, TokenType};

fn lines(text: &[&str]) -> Vec<String> {
    text.iter().map(|s| s.to_string()).collect()
}

#[test]
fn reads_ints_floats_and_strings() {
    let ls = lines(&[
        "# settings",
        "",
        "windowed_width = 1920",
        "windowed_height = 1080",
        "bgm_volume = 12.5",
        "level_name = recreate_night",
    ]);
    assert!(!Configuration::lines_unreadable(&ls));
    let c = Configuration::from_lines(&ls).unwrap();
    assert_eq!(c.int_options.get("windowed_width"), Some(&1920));
    assert_eq!(c.int_options.get("windowed_height"), Some(&1080));
    assert_eq!(c.float_options.get("bgm_volume").map(|s| s.as_str()), Some("12.5"));
    assert_eq!(c.string_options.get("level_name").map(|s| s.as_str()), Some("recreate_night"));
    assert_eq!(c.get_window_size(), (1920, 1080));
    assert!(c.window_size_configured());
}

#[test]
fn later_line_for_same_name_wins() {
    let ls = lines(&["a = 1", "a = 2", "a = text"]);
    let c = Configuration::from_lines(&ls).unwrap();
    assert_eq!(c.int_options.get("a"), Some(&2));
    assert_eq!(c.int_options.len(), 1);
    assert_eq!(c.string_options.get("a").map(|s| s.as_str()), Some("text"));
}

#[test]
fn malformed_line_gives_none() {
    let ls = lines(&["windowed_width = 1920", "level_name recreate_night"]);
    assert!(!Configuration::lines_unreadable(&ls));
    assert!(Configuration::from_lines(&ls).is_none());
    let ls = lines(&["a = b c"]);
    assert!(Configuration::from_lines(&ls).is_none());
}

#[test]
fn unreadable_lines_are_reported() {
    assert!(!Configuration::lines_unreadable(&lines(&["a = 1", "   "])));
    assert!(Configuration::lines_unreadable(&lines(&["a = 4294967296"])));
    assert!(Configuration::lines_unreadable(&lines(&["a = ."])));
    // A malformed line before the unreadable one stops reading first.
    assert!(!Configuration::lines_unreadable(&lines(&["x", "a = ."])));
    assert!(!Configuration::lines_unreadable(&lines(&["a = 4294967295"])));
}

#[test]
fn whitespace_only_lines_are_skipped() {
    let ls = lines(&["windowed_width = 800", "   ", "windowed_height = 600"]);
    assert!(!Configuration::lines_unreadable(&ls));
    let c = Configuration::from_lines(&ls).unwrap();
    assert_eq!(c.int_options.get("windowed_width"), Some(&800));
    assert_eq!(c.int_options.get("windowed_height"), Some(&600));
    assert_eq!(c.int_options.len(), 2);
    assert_eq!(c.float_options.len(), 0);
    assert_eq!(c.string_options.len(), 0);
}

#[test]
fn missing_window_size_falls_back() {
    let c = Configuration::from_lines(&lines(&["windowed_width = 800"])).unwrap();
    assert!(!c.window_size_configured());
    assert_eq!(c.get_window_size(), (1280, 720));
}

#[test]
fn line_classification() {
    assert!(matches!(parse_config_line(""), ConfigLine::Skip));
    assert!(matches!(parse_config_line("#comment here"), ConfigLine::Skip));
    assert!(matches!(parse_config_line("\t "), ConfigLine::Skip));
    assert!(matches!(parse_config_line("a b"), ConfigLine::Malformed));
    match parse_config_line("  width\t=  007 ") {
        ConfigLine::Int(k, v) => {
            assert_eq!(k, "width");
            assert_eq!(v, 7);
        }
        _ => panic!("expected an integer line"),
    }
    match parse_config_line("vol = .5") {
        ConfigLine::Float(k, v) => {
            assert_eq!(k, "vol");
            assert_eq!(v, ".5");
        }
        _ => panic!("expected a number line"),
    }
    match parse_config_line("name = 1.2.3") {
        ConfigLine::Str(k, v) => {
            assert_eq!(k, "name");
            assert_eq!(v, "1.2.3");
        }
        _ => panic!("expected a text line"),
    }
}

#[test]
fn written_settings_read_back() {
    let mut c = Configuration {
        int_options: OptionTable::new(),
        float_options: OptionTable::new(),
        string_options: OptionTable::new(),
    };
    c.int_options.insert(String::from(Configuration::WINDOWED_WIDTH), 1280);
    c.int_options.insert(String::from(Configuration::WINDOWED_HEIGHT), 720);
    c.string_options.insert(String::from(Configuration::LEVEL_NAME), String::from("recreate_night"));
    c.string_options.insert(String::from(Configuration::MUSIC_NAME), String::from("music/cryptic_relics.mp3"));
    c.float_options.insert(String::from(Configuration::BGM_VOLUME), String::from("3.5"));
    let written = c.to_file_lines();
    assert_eq!(
        written,
        vec![
            "windowed_width = 1280".to_string(),
            "windowed_height = 720".to_string(),
            "level_name = recreate_night".to_string(),
            "default_music = music/cryptic_relics.mp3".to_string(),
        ]
    );
    let back = Configuration::from_lines(&written).unwrap();
    assert_eq!(back.get_window_size(), (1280, 720));
    assert_eq!(back.string_options.get("level_name").map(|s| s.as_str()), Some("recreate_night"));
    assert_eq!(
        back.string_options.get("default_music").map(|s| s.as_str()),
        Some("music/cryptic_relics.mp3")
    );
    assert_eq!(back.float_options.len(), 0);
}

#[test]
fn option_lines_for_missing_names_are_none() {
    let c = Configuration::from_lines(&lines(&["level_name = x1"])).unwrap();
    assert_eq!(c.int_option_line("windowed_width"), None);
    assert_eq!(c.string_option_line("level_name"), Some("level_name = x1".to_string()));
}

#[test]
fn option_table_replaces_values() {
    let mut t: OptionTable<u32> = OptionTable::new();
    t.insert("k".to_string(), 1);
    t.insert("j".to_string(), 2);
    t.insert("k".to_string(), 3);
    assert_eq!(t.len(), 2);
    assert_eq!(t.get("k"), Some(&3));
    assert_eq!(t.get("j"), Some(&2));
    assert_eq!(t.get("z"), None);
    assert!(t.contains_key("j"));
    assert!(!t.contains_key("z"));
}

#[test]
fn tokens_split_on_unicode_whitespace() {
    let cs = chars_of("a\u{3000}bc \u{a0} d");
    let toks = tokenize(&cs);
    let toks: Vec<String> = toks.iter().map(|t| t.iter().collect()).collect();
    assert_eq!(toks, vec!["a", "bc", "d"]);
    assert!(tokenize(&chars_of("   ")).is_empty());
}

#[test]
fn token_types() {
    assert_eq!(classify_token(&chars_of("123")), TokenType::Int);
    assert_eq!(classify_token(&chars_of("1.5")), TokenType::Float);
    assert_eq!(classify_token(&chars_of("1.")), TokenType::Float);
    assert_eq!(classify_token(&chars_of("1..5")), TokenType::Str);
    assert_eq!(classify_token(&chars_of("-1")), TokenType::Str);
    assert_eq!(classify_token(&chars_of("abc")), TokenType::Str);
}

#[test]
fn decimal_round_trip() {
    for n in [0u32, 7, 10, 99, 1280, 4294967295] {
        let mut s = String::new();
        push_decimal(&mut s, n);
        assert_eq!(s, n.to_string());
        assert_eq!(parse_decimal(&chars_of(&s)), Some(n));
    }
    assert_eq!(parse_decimal(&chars_of("4294967296")), None);
    assert_eq!(parse_decimal(&chars_of("0004294967295")), Some(4294967295));
    assert_eq!(parse_decimal(&chars_of("")), Some(0));
}
