use encryption_macros::keygen::key_length;
use encryption_macros::{
    decode_literal, e, encoded_literal, encrypt_all_strings, encrypt_strings, generate_key,
    Delimiter, MacroError, Token,
};

fn ident(s: &str) -> Token {
    Token::Ident(s.to_string())
}

fn punct(c: char) -> Token {
    Token::Punct(c, false)
}

fn lit(s: &str) -> Token {
    Token::Literal(s.to_string())
}

fn group(d: Delimiter, v: Vec<Token>) -> Token {
    Token::Group(d, v)
}

fn decode_scope(hex: &str) -> Token {
    group(
        Delimiter::Brace,
        vec![
            ident("encryption_macros"),
            Token::Punct(':', true),
            punct(':'),
            ident("decode_literal"),
            group(
                Delimiter::Parenthesis,
                vec![lit(&format!("\"{}\"", hex)), punct(','), ident("ENCRYPTION_KEY_BUFFER")],
            ),
            punct('.'),
            ident("unwrap"),
            group(Delimiter::Parenthesis, vec![]),
        ],
    )
}

/// The hex text inside a decode expression.
fn hex_in(t: &Token) -> String {
    match t {
        Token::Group(Delimiter::Brace, body) => match &body[4] {
            Token::Group(_, args) => match &args[0] {
                Token::Literal(l) => l.trim_matches('"').to_string(),
                _ => panic!("no literal"),
            },
            _ => panic!("no arguments"),
        },
        _ => panic!("no decode expression"),
    }
}

const KEY: [u8; 3] = [0x11, 0x22, 0x33];
const KEY_HEX: &str = "112233";

#[test]
fn single_literal_becomes_decode_scope() {
    let out = e(&vec![lit("\"hello\"")], &[0x05]).unwrap();
    assert_eq!(out, decode_scope("6d656c6c6f"));
    assert_eq!(decode_literal(&hex_in(&out), "05"), Some("hello".to_string()));
}

#[test]
fn single_literal_escapes_are_resolved() {
    let out = e(&vec![lit("\"a\\n\"")], &KEY).unwrap();
    assert_eq!(decode_literal(&hex_in(&out), KEY_HEX), Some("a\n".to_string()));
    assert_eq!(hex_in(&out), encoded_literal("a\n", &KEY));
}

#[test]
fn single_literal_errors() {
    assert_eq!(e(&vec![], &KEY), Err(MacroError::NoToken));
    assert_eq!(e(&vec![ident("x")], &KEY), Err(MacroError::NotAStringLiteral));
    assert_eq!(e(&vec![lit("42")], &KEY), Err(MacroError::NotAStringLiteral));
}

#[test]
fn plain_literal_in_scope_is_obfuscated() {
    let input = vec![ident("let"), ident("s"), punct('='), lit("\"secret\""), punct(';')];
    let out = encrypt_strings(&input, &KEY);
    assert_eq!(
        out,
        vec![
            ident("let"),
            ident("s"),
            punct('='),
            decode_scope(&encoded_literal("secret", &KEY)),
            punct(';'),
        ]
    );
    assert_eq!(decode_literal(&hex_in(&out[3]), KEY_HEX), Some("secret".to_string()));
}

#[test]
fn format_template_is_split() {
    let input = vec![
        ident("println"),
        punct('!'),
        group(Delimiter::Parenthesis, vec![lit("\"value: {}\""), punct(','), ident("x")]),
    ];
    let out = encrypt_strings(&input, &KEY);
    let expect = vec![
        ident("println"),
        punct('!'),
        group(
            Delimiter::Parenthesis,
            vec![
                lit("\"{}{}\""),
                punct(','),
                decode_scope(&encoded_literal("value: ", &KEY)),
                punct(','),
                ident("x"),
            ],
        ),
    ];
    assert_eq!(out, expect);
}

#[test]
fn format_template_with_several_runs() {
    let input = vec![
        ident("format"),
        punct('!'),
        group(Delimiter::Parenthesis, vec![lit("\"a{}b{:?}c\""), punct(','), ident("x"), punct(','), lit("\"y\"")]),
    ];
    let out = encrypt_strings(&input, &KEY);
    let expect = vec![
        ident("format"),
        punct('!'),
        group(
            Delimiter::Parenthesis,
            vec![
                lit("\"{}{}{}{:?}{}\""),
                punct(','),
                decode_scope(&encoded_literal("a", &KEY)),
                punct(','),
                decode_scope(&encoded_literal("b", &KEY)),
                punct(','),
                decode_scope(&encoded_literal("c", &KEY)),
                punct(','),
                ident("x"),
                punct(','),
                decode_scope(&encoded_literal("y", &KEY)),
            ],
        ),
    ];
    assert_eq!(out, expect);
}

#[test]
fn format_flag_does_not_outlive_its_group() {
    let input = vec![
        ident("print"),
        punct('!'),
        group(Delimiter::Parenthesis, vec![lit("\"t\"")]),
        punct(';'),
        lit("\"u\""),
    ];
    let out = encrypt_strings(&input, &KEY);
    assert_eq!(out[4], decode_scope(&encoded_literal("u", &KEY)));
}

#[test]
fn format_name_without_bang_is_plain() {
    let input = vec![ident("format"), group(Delimiter::Parenthesis, vec![lit("\"{}\"")])];
    let out = encrypt_strings(&input, &KEY);
    assert_eq!(
        out,
        vec![
            ident("format"),
            group(Delimiter::Parenthesis, vec![decode_scope(&encoded_literal("{}", &KEY))]),
        ]
    );
}

#[test]
fn empty_literal_is_kept() {
    let input = vec![lit("\"\""), punct(';')];
    assert_eq!(encrypt_strings(&input, &KEY), vec![lit("\"\""), punct(';')]);
}

#[test]
fn nested_scopes_are_rewritten() {
    let input = vec![group(
        Delimiter::Brace,
        vec![
            ident("let"),
            ident("x"),
            punct('='),
            group(Delimiter::Brace, vec![lit("\"inner\"")]),
            punct(';'),
            lit("\"outer\""),
        ],
    )];
    let out = encrypt_strings(&input, &KEY);
    let expect = vec![group(
        Delimiter::Brace,
        vec![
            ident("let"),
            ident("x"),
            punct('='),
            group(Delimiter::Brace, vec![decode_scope(&encoded_literal("inner", &KEY))]),
            punct(';'),
            decode_scope(&encoded_literal("outer", &KEY)),
        ],
    )];
    assert_eq!(out, expect);
}

#[test]
fn attribute_contents_are_untouched() {
    let attr = || group(Delimiter::Bracket, vec![ident("doc"), punct('='), lit("\"x\"")]);
    let input = vec![punct('#'), attr(), ident("fn")];
    assert_eq!(encrypt_strings(&input, &KEY), vec![punct('#'), attr(), ident("fn")]);
}

#[test]
fn other_tokens_pass_through() {
    let input = vec![
        lit("42u8"),
        lit("b\"bytes\""),
        lit("'c'"),
        ident("println"),
        Token::Punct(':', true),
        punct(':'),
        group(Delimiter::Bracket, vec![lit("1.5")]),
    ];
    let again = vec![
        lit("42u8"),
        lit("b\"bytes\""),
        lit("'c'"),
        ident("println"),
        Token::Punct(':', true),
        punct(':'),
        group(Delimiter::Bracket, vec![lit("1.5")]),
    ];
    assert_eq!(encrypt_strings(&input, &KEY), again);
}

#[test]
fn annotated_item_is_rewritten() {
    let out = encrypt_all_strings(&vec![], &vec![lit("\"a\"")], &KEY);
    assert_eq!(out, vec![decode_scope(&encoded_literal("a", &KEY))]);
}

#[test]
fn key_length_from_argument() {
    assert_eq!(key_length(&vec![lit("64")]), 64);
    assert_eq!(key_length(&vec![lit("0x10")]), 16);
    assert_eq!(key_length(&vec![lit("\"abc\"")]), 128);
    assert_eq!(key_length(&vec![ident("abc")]), 128);
    assert_eq!(key_length(&vec![]), 128);
}

#[test]
fn generated_key_has_requested_length() {
    match generate_key(&vec![lit("64")]) {
        Token::Literal(l) => {
            assert_eq!(l.len(), 2 + 128);
            assert!(l.starts_with('"') && l.ends_with('"'));
            assert!(l[1..l.len() - 1].chars().all(|c| c.is_ascii_hexdigit()));
        }
        _ => panic!("no literal"),
    }
    match generate_key(&vec![lit("\"abc\"")]) {
        Token::Literal(l) => assert_eq!(l.len(), 2 + 256),
        _ => panic!("no literal"),
    }
}

#[test]
fn literal_ending_in_multibyte_char_passes_through() {
    let input = vec![lit("\"\\é"), lit("\"\\n\"é"), punct(';')];
    let again = vec![lit("\"\\é"), lit("\"\\n\"é"), punct(';')];
    assert_eq!(encrypt_strings(&input, &KEY), again);
    assert_eq!(e(&vec![lit("\"\\é")], &KEY), Err(MacroError::NotAStringLiteral));
}

#[test]
fn escaped_literal_with_multibyte_text_is_obfuscated() {
    let out = encrypt_strings(&vec![lit("\"é\\n\"")], &KEY);
    assert_eq!(out, vec![decode_scope(&encoded_literal("é\n", &KEY))]);
}
