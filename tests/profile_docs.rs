use ccm::json::{json_equal, Json};
use ccm::profile::{
    build_profile, get_project_current_profile, get_project_profile_info, mask_secrets,
    parse_choice, project_mapping_doc, ProfileAnswers,
};
use ccm::store::MismatchChoice;

fn text(s: &str) -> Json {
    Json::Str(s.to_string())
}

fn obj(members: Vec<(&str, Json)>) -> Json {
    Json::Object(members.into_iter().map(|(k, v)| (k.to_string(), v)).collect())
}

fn answers(base_url: &str, token: &str, disable: &str) -> ProfileAnswers {
    ProfileAnswers {
        base_url: base_url.to_string(),
        auth_token: token.to_string(),
        model: String::new(),
        small_fast_model: String::new(),
        timeout: String::new(),
        disable_nonessential: disable.to_string(),
    }
}

#[test]
fn add_builds_env_document() {
    let p = build_profile(&answers("https://x", "secret", ""), &vec![]);
    let expected = obj(vec![(
        "env",
        obj(vec![("ANTHROPIC_BASE_URL", text("https://x")), ("ANTHROPIC_AUTH_TOKEN", text("secret"))]),
    )]);
    assert!(json_equal(&p.doc, &expected));
    assert_eq!(p.doc, expected);
    assert!(p.rejected.is_empty());
    assert!(!p.disable_as_text);
}

#[test]
fn add_with_no_answers_is_empty_object() {
    let p = build_profile(&answers("", "", ""), &vec![]);
    assert_eq!(p.doc, Json::Object(vec![]));
}

#[test]
fn add_traffic_switch_integer_or_text() {
    let p = build_profile(&answers("", "", "1"), &vec![]);
    let expected = obj(vec![("env", obj(vec![("CLAUDE_CODE_DISABLE_NONESSENTIAL_TRAFFIC", Json::Int(1))]))]);
    assert!(json_equal(&p.doc, &expected));
    assert!(!p.disable_as_text);
    let q = build_profile(&answers("", "", "yes"), &vec![]);
    let expected = obj(vec![("env", obj(vec![("CLAUDE_CODE_DISABLE_NONESSENTIAL_TRAFFIC", text("yes"))]))]);
    assert!(json_equal(&q.doc, &expected));
    assert!(q.disable_as_text);
}

#[test]
fn add_extra_env_entries() {
    let extra = vec![
        " FOO = bar ".to_string(),
        "broken".to_string(),
        "ANTHROPIC_BASE_URL=https://y".to_string(),
        "EQ=a=b".to_string(),
    ];
    let p = build_profile(&answers("https://x", "", ""), &extra);
    let expected = obj(vec![(
        "env",
        obj(vec![
            ("ANTHROPIC_BASE_URL", text("https://y")),
            ("FOO", text("bar")),
            ("EQ", text("a=b")),
        ]),
    )]);
    assert!(json_equal(&p.doc, &expected));
    assert_eq!(p.rejected, vec!["broken".to_string()]);
}

#[test]
fn secrets_are_masked_for_display() {
    let doc = obj(vec![
        ("env", obj(vec![("ANTHROPIC_AUTH_TOKEN", text("secret")), ("ANTHROPIC_MODEL", text("m"))])),
        ("TOKEN_OUTSIDE", text("kept")),
    ]);
    let shown = mask_secrets(&doc);
    let expected = obj(vec![
        ("env", obj(vec![("ANTHROPIC_AUTH_TOKEN", text("••••••••••••••••")), ("ANTHROPIC_MODEL", text("m"))])),
        ("TOKEN_OUTSIDE", text("kept")),
    ]);
    assert!(json_equal(&shown, &expected));
    let plain = obj(vec![("a", Json::Int(1))]);
    assert!(json_equal(&mask_secrets(&plain), &plain));
}

#[test]
fn project_mapping_round_trip() {
    let doc = project_mapping_doc(&"work".to_string(), &"/home/u/p".to_string());
    assert_eq!(get_project_profile_info(&doc), Some(("work".to_string(), "/home/u/p".to_string())));
    assert_eq!(get_project_current_profile(Some(&doc)), Some("work".to_string()));
    assert_eq!(get_project_current_profile(None), None);
    let partial = obj(vec![("profile", text("work"))]);
    assert_eq!(get_project_profile_info(&partial), None);
    let wrong = obj(vec![("profile", Json::Int(3)), ("path", text("/p"))]);
    assert_eq!(get_project_current_profile(Some(&wrong)), None);
}

#[test]
fn mismatch_answers() {
    assert_eq!(parse_choice("1\n"), MismatchChoice::Proceed);
    assert_eq!(parse_choice(" 2 "), MismatchChoice::Absorb);
    assert_eq!(parse_choice("+1"), MismatchChoice::Proceed);
    assert_eq!(parse_choice("3"), MismatchChoice::Cancel);
    assert_eq!(parse_choice("x"), MismatchChoice::Cancel);
    assert_eq!(parse_choice(""), MismatchChoice::Cancel);
}
