use ccm::highlight::{simulate_syntax_highlighting, tokenize, TokenKind};

fn kinds(text: &str) -> Vec<(String, TokenKind)> {
    tokenize(text).into_iter().map(|t| (t.text, t.kind)).collect()
}

#[test]
fn tokens_of_a_member_line() {
    let got = kinds("  \"ANTHROPIC_BASE_URL\": \"https://x\",");
    let expected = vec![
        (" ".to_string(), TokenKind::Punct),
        (" ".to_string(), TokenKind::Punct),
        ("\"ANTHROPIC_BASE_URL\"".to_string(), TokenKind::Key),
        (":".to_string(), TokenKind::Punct),
        (" ".to_string(), TokenKind::Punct),
        ("\"https://x\"".to_string(), TokenKind::Link),
        (",".to_string(), TokenKind::Punct),
    ];
    assert_eq!(got, expected);
}

#[test]
fn tokens_of_values() {
    assert_eq!(
        kinds("[1.5, true, null, abc, \"••••\", \"plain\"]"),
        vec![
            ("[".to_string(), TokenKind::Bracket),
            ("1.5".to_string(), TokenKind::Number),
            (",".to_string(), TokenKind::Punct),
            (" ".to_string(), TokenKind::Punct),
            ("true".to_string(), TokenKind::Literal),
            (",".to_string(), TokenKind::Punct),
            (" ".to_string(), TokenKind::Punct),
            ("null".to_string(), TokenKind::Null),
            (",".to_string(), TokenKind::Punct),
            (" ".to_string(), TokenKind::Punct),
            ("abc".to_string(), TokenKind::Word),
            (",".to_string(), TokenKind::Punct),
            (" ".to_string(), TokenKind::Punct),
            ("\"••••\"".to_string(), TokenKind::Masked),
            (",".to_string(), TokenKind::Punct),
            (" ".to_string(), TokenKind::Punct),
            ("\"plain\"".to_string(), TokenKind::Text),
            ("]".to_string(), TokenKind::Bracket),
        ]
    );
    assert_eq!(kinds("\"open"), vec![("\"open".to_string(), TokenKind::Text)]);
    assert!(kinds("").is_empty());
}

#[test]
fn key_seen_across_newline_and_spaces() {
    let got = kinds("\"k\"\n  : 1");
    assert_eq!(got[0], ("\"k\"".to_string(), TokenKind::Key));
}

#[test]
fn ansi_colouring() {
    assert_eq!(
        simulate_syntax_highlighting("{\"a\": 1}"),
        "\x1b[33;1m{\x1b[0m\x1b[36;1m\"a\"\x1b[0m\x1b[37m:\x1b[0m\x1b[37m \x1b[0m\x1b[34m1\x1b[0m\x1b[33;1m}\x1b[0m"
    );
    assert_eq!(simulate_syntax_highlighting("word"), "word");
    assert_eq!(simulate_syntax_highlighting("false"), "\x1b[34;1mfalse\x1b[0m");
}
