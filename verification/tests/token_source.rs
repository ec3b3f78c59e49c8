use biome_registry::json_syntax::{JsonSyntaxKind, Trivia, TriviaPieceKind};
use biome_registry::lexer::{ParseDiagnostic, Token};
use biome_registry::text::TextRange;
use biome_registry::token_source::{JsonParserOptions, JsonTokenSource};

fn tok(kind: JsonSyntaxKind, start: u32, end: u32) -> Token {
    Token::new(kind, TextRange::new(start, end))
}

fn options(allow_comments: bool) -> JsonParserOptions {
    JsonParserOptions { allow_comments, allow_trailing_commas: false }
}

#[test]
fn leading_trivia_is_not_trailing() {
    // " \n{}"
    let tokens = vec![
        tok(JsonSyntaxKind::WHITESPACE, 0, 1),
        tok(JsonSyntaxKind::NEWLINE, 1, 2),
        tok(JsonSyntaxKind::L_CURLY, 2, 3),
        tok(JsonSyntaxKind::R_CURLY, 3, 4),
        tok(JsonSyntaxKind::EOF, 4, 4),
    ];
    let source = JsonTokenSource::from_str(" \n{}", tokens, Vec::new(), options(false));
    assert_eq!(source.current(), JsonSyntaxKind::L_CURLY);
    assert_eq!(source.current_range(), TextRange::new(2, 3));
    assert!(source.has_preceding_line_break());
    assert_eq!(source.text(), " \n{}");
    let (trivia, diagnostics) = source.finish();
    assert!(diagnostics.is_empty());
    assert_eq!(
        trivia,
        vec![
            Trivia::new(TriviaPieceKind::Whitespace, TextRange::new(0, 1), false),
            Trivia::new(TriviaPieceKind::Newline, TextRange::new(1, 2), false),
        ]
    );
}

#[test]
fn trivia_trails_until_a_newline() {
    // "1 \n 2"
    let tokens = vec![
        tok(JsonSyntaxKind::JSON_NUMBER_LITERAL, 0, 1),
        tok(JsonSyntaxKind::WHITESPACE, 1, 2),
        tok(JsonSyntaxKind::NEWLINE, 2, 3),
        tok(JsonSyntaxKind::WHITESPACE, 3, 4),
        tok(JsonSyntaxKind::JSON_NUMBER_LITERAL, 4, 5),
        tok(JsonSyntaxKind::EOF, 5, 5),
    ];
    let mut source = JsonTokenSource::from_str("1 \n 2", tokens, Vec::new(), options(false));
    assert_eq!(source.current(), JsonSyntaxKind::JSON_NUMBER_LITERAL);
    assert!(!source.has_preceding_line_break());
    source.bump();
    assert_eq!(source.current(), JsonSyntaxKind::JSON_NUMBER_LITERAL);
    assert_eq!(source.current_range(), TextRange::new(4, 5));
    assert!(source.has_preceding_line_break());
    source.bump();
    assert_eq!(source.current(), JsonSyntaxKind::EOF);
    assert!(!source.has_preceding_line_break());
    let (trivia, _) = source.finish();
    assert_eq!(
        trivia,
        vec![
            Trivia::new(TriviaPieceKind::Whitespace, TextRange::new(1, 2), true),
            Trivia::new(TriviaPieceKind::Newline, TextRange::new(2, 3), false),
            Trivia::new(TriviaPieceKind::Whitespace, TextRange::new(3, 4), false),
        ]
    );
}

#[test]
fn comments_are_tokens_unless_allowed() {
    let make = || {
        vec![
            tok(JsonSyntaxKind::COMMENT, 0, 4),
            tok(JsonSyntaxKind::NEWLINE, 4, 5),
            tok(JsonSyntaxKind::NULL_KW, 5, 9),
            tok(JsonSyntaxKind::EOF, 9, 9),
        ]
    };
    let strict = JsonTokenSource::from_str("// c\nnull", make(), Vec::new(), options(false));
    assert_eq!(strict.current(), JsonSyntaxKind::COMMENT);
    assert_eq!(strict.current_range(), TextRange::new(0, 4));
    let (trivia, _) = strict.finish();
    assert!(trivia.is_empty());

    let relaxed = JsonTokenSource::from_str("// c\nnull", make(), Vec::new(), options(true));
    assert_eq!(relaxed.current(), JsonSyntaxKind::NULL_KW);
    let (trivia, _) = relaxed.finish();
    assert_eq!(
        trivia,
        vec![
            Trivia::new(TriviaPieceKind::SingleLineComment, TextRange::new(0, 4), false),
            Trivia::new(TriviaPieceKind::Newline, TextRange::new(4, 5), false),
        ]
    );
}

#[test]
fn bump_at_eof_stays() {
    let tokens = vec![tok(JsonSyntaxKind::EOF, 0, 0)];
    let mut source = JsonTokenSource::from_str("", tokens, Vec::new(), options(false));
    assert_eq!(source.current(), JsonSyntaxKind::EOF);
    source.bump();
    source.bump();
    assert_eq!(source.current(), JsonSyntaxKind::EOF);
    source.skip_as_trivia();
    assert_eq!(source.current(), JsonSyntaxKind::EOF);
    let (trivia, _) = source.finish();
    assert!(trivia.is_empty());
}

#[test]
fn skip_as_trivia_keeps_the_token_as_skipped() {
    // "@ true"
    let tokens = vec![
        tok(JsonSyntaxKind::ERROR_TOKEN, 0, 1),
        tok(JsonSyntaxKind::WHITESPACE, 1, 2),
        tok(JsonSyntaxKind::TRUE_KW, 2, 6),
        tok(JsonSyntaxKind::EOF, 6, 6),
    ];
    let mut source = JsonTokenSource::from_str("@ true", tokens, Vec::new(), options(false));
    assert_eq!(source.current(), JsonSyntaxKind::ERROR_TOKEN);
    source.skip_as_trivia();
    assert_eq!(source.current(), JsonSyntaxKind::TRUE_KW);
    let (trivia, _) = source.finish();
    assert_eq!(
        trivia,
        vec![
            Trivia::new(TriviaPieceKind::Skipped, TextRange::new(0, 1), false),
            Trivia::new(TriviaPieceKind::Whitespace, TextRange::new(1, 2), true),
        ]
    );
}

#[test]
fn exhausted_tokens_leave_the_tombstone() {
    let tokens = vec![tok(JsonSyntaxKind::WHITESPACE, 0, 1)];
    let source = JsonTokenSource::from_str(" ", tokens, Vec::new(), options(false));
    assert_eq!(source.current(), JsonSyntaxKind::TOMBSTONE);
    assert_eq!(source.current_range(), TextRange::default());
}

#[test]
fn finish_gives_the_lexer_diagnostics() {
    let diagnostics = vec![ParseDiagnostic { message: "unterminated string".to_string(), range: TextRange::new(0, 2) }];
    let tokens = vec![tok(JsonSyntaxKind::ERROR_TOKEN, 0, 2), tok(JsonSyntaxKind::EOF, 2, 2)];
    let source = JsonTokenSource::from_str("\"a", tokens, diagnostics, options(false));
    let (_, diagnostics) = source.finish();
    assert_eq!(diagnostics.len(), 1);
    assert_eq!(diagnostics[0].message, "unterminated string");
}

#[test]
fn trivia_kinds_of_tokens() {
    assert_eq!(JsonSyntaxKind::NEWLINE.trivia_kind(), Some(TriviaPieceKind::Newline));
    assert_eq!(JsonSyntaxKind::MULTILINE_COMMENT.trivia_kind(), Some(TriviaPieceKind::MultiLineComment));
    assert_eq!(JsonSyntaxKind::COMMA.trivia_kind(), None);
    assert!(JsonSyntaxKind::WHITESPACE.is_trivia());
    assert!(!JsonSyntaxKind::EOF.is_trivia());
    assert!(TriviaPieceKind::MultiLineComment.is_comment());
    assert!(!TriviaPieceKind::Skipped.is_comment());
}

#[test]
fn trivia_stays_in_source_order() {
    // "[ @ , /* c */ 1 ]"
    let tokens = vec![
        tok(JsonSyntaxKind::L_BRACK, 0, 1),
        tok(JsonSyntaxKind::WHITESPACE, 1, 2),
        tok(JsonSyntaxKind::ERROR_TOKEN, 2, 3),
        tok(JsonSyntaxKind::WHITESPACE, 3, 4),
        tok(JsonSyntaxKind::COMMA, 4, 5),
        tok(JsonSyntaxKind::WHITESPACE, 5, 6),
        tok(JsonSyntaxKind::MULTILINE_COMMENT, 6, 13),
        tok(JsonSyntaxKind::WHITESPACE, 13, 14),
        tok(JsonSyntaxKind::JSON_NUMBER_LITERAL, 14, 15),
        tok(JsonSyntaxKind::EOF, 15, 15),
    ];
    let mut source = JsonTokenSource::from_str("[ @ , /* c */ 1", tokens, Vec::new(), options(true));
    source.bump();
    source.skip_as_trivia();
    source.bump();
    assert_eq!(source.current(), JsonSyntaxKind::JSON_NUMBER_LITERAL);
    let current = source.current_range();
    let (trivia, _) = source.finish();
    assert_eq!(trivia.len(), 6);
    for pair in trivia.windows(2) {
        assert!(pair[0].range.end <= pair[1].range.start);
    }
    assert!(trivia.iter().all(|t| t.range.end <= current.start));
    assert_eq!(trivia[1].kind, TriviaPieceKind::Skipped);
}

#[test]
fn default_options_refuse_comments() {
    let o = JsonParserOptions::default();
    assert!(!o.allow_comments);
    assert!(!o.allow_trailing_commas);
}
