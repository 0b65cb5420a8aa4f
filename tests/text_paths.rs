use ccm::paths::{
    ccm_dir, claude_settings_path, current_profile_path, hash_path, join_path, profile_name_of,
    profile_path, profiles_dir, project_profile_path, project_profiles_dir,
    project_settings_local_path,
};
use ccm::text::{
    char_is_whitespace, chars_of, contains_text, ends_with_text, parse_i64, split_once, starts_with_text,
    strip_leading_char, text_less, trim,
};

#[test]
fn trim_strips_unicode_whitespace() {
    assert_eq!(trim("\u{3000} ab c \t\n"), "ab c");
    assert_eq!(trim("   "), "");
    assert_eq!(trim(""), "");
    assert_eq!(trim("x"), "x");
}

#[test]
fn split_once_at_first_separator() {
    assert_eq!(split_once("A=B=C", '='), Some(("A".to_string(), "B=C".to_string())));
    assert_eq!(split_once("=v", '='), Some(("".to_string(), "v".to_string())));
    assert_eq!(split_once("novalue", '='), None);
}

#[test]
fn substring_search() {
    assert!(contains_text("ANTHROPIC_AUTH_TOKEN", "TOKEN"));
    assert!(!contains_text("ANTHROPIC_MODEL", "TOKEN"));
    assert!(contains_text("abc", ""));
    assert!(!contains_text("ab", "abc"));
    assert!(starts_with_text(".hidden", "."));
    assert!(ends_with_text("a.json", ".json"));
    assert!(!ends_with_text("json", ".json"));
    assert_eq!(chars_of("héllo").len(), 5);
}

#[test]
fn integer_parsing_follows_std() {
    assert_eq!(parse_i64("1"), Some(1));
    assert_eq!(parse_i64("+1"), Some(1));
    assert_eq!(parse_i64("-0"), Some(0));
    assert_eq!(parse_i64("007"), Some(7));
    assert_eq!(parse_i64("9223372036854775807"), Some(i64::MAX));
    assert_eq!(parse_i64("-9223372036854775808"), Some(i64::MIN));
    assert_eq!(parse_i64("9223372036854775808"), None);
    assert_eq!(parse_i64("99999999999999999999999999"), None);
    assert_eq!(parse_i64(""), None);
    assert_eq!(parse_i64("-"), None);
    assert_eq!(parse_i64("1a"), None);
    assert_eq!(parse_i64(" 1"), None);
    for s in ["12", "-45", "+0", "0000123", "x", "--1", "170141183460469231731687303715884105728"] {
        assert_eq!(parse_i64(s), s.parse::<i64>().ok(), "{}", s);
    }
}

#[test]
fn lexicographic_order() {
    assert!(text_less("a", "b"));
    assert!(text_less("a", "ab"));
    assert!(!text_less("ab", "a"));
    assert!(!text_less("same", "same"));
    assert!(text_less("Z", "a"));
    assert_eq!(strip_leading_char("vv1.0.0", 'v'), "1.0.0");
    assert_eq!(strip_leading_char("1.0", 'v'), "1.0");
}

#[test]
fn join_adds_one_separator() {
    assert_eq!(join_path("/cfg", "x"), "/cfg/x");
    assert_eq!(join_path("/cfg/", "x"), "/cfg/x");
    assert_eq!(join_path("", "x"), "x");
}

#[test]
fn layout_under_the_root() {
    assert_eq!(profiles_dir("/cfg"), "/cfg/profiles");
    assert_eq!(project_profiles_dir("/cfg"), "/cfg/projects");
    assert_eq!(current_profile_path("/cfg"), "/cfg/current");
    assert_eq!(profile_path("/cfg", "work"), "/cfg/profiles/work.json");
    assert_eq!(ccm_dir(Some("/tmp/t"), Some("/home/u/.config")), "/tmp/t");
    assert_eq!(ccm_dir(None, Some("/home/u/.config")), "/home/u/.config/ccm");
    assert_eq!(ccm_dir(None, None), "./ccm");
}

#[test]
fn settings_locations() {
    assert_eq!(claude_settings_path(Some("/s.json"), Some("/home/u"), ".tool"), "/s.json");
    assert_eq!(claude_settings_path(None, Some("/home/u"), ".tool"), "/home/u/.tool/settings.json");
    assert_eq!(claude_settings_path(None, None, ".tool"), "./settings.json");
    assert_eq!(project_settings_local_path("/p", ".tool"), "/p/.tool/settings.local.json");
}

#[test]
fn project_hash_is_fnv1a_in_hex() {
    assert_eq!(hash_path(""), "cbf29ce484222325");
    assert_eq!(hash_path("a"), "af63dc4c8601ec8c");
    assert_eq!(hash_path("/home/u/proj"), hash_path("/home/u/proj"));
    assert_ne!(hash_path("/home/u/proj"), hash_path("/home/u/proj2"));
    assert_eq!(hash_path("/x").len(), 16);
    assert_eq!(
        project_profile_path("/cfg", "a"),
        "/cfg/projects/af63dc4c8601ec8c.json"
    );
}

#[test]
fn profile_files() {
    assert_eq!(profile_name_of("work.json"), Some("work".to_string()));
    assert_eq!(profile_name_of("a.b.json"), Some("a.b".to_string()));
    assert_eq!(profile_name_of(".hidden.json"), None);
    assert_eq!(profile_name_of(".json"), None);
    assert_eq!(profile_name_of("notes.txt"), None);
    assert_eq!(profile_name_of("x.json.bak"), None);
}

#[test]
fn whitespace_agrees_with_std_on_every_char() {
    for code in 0u32..=0x10FFFF {
        if let Some(c) = char::from_u32(code) {
            assert_eq!(char_is_whitespace(c), c.is_whitespace(), "U+{:04X}", code);
        }
    }
}
