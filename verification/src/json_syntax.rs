//! Token kinds of JSON, the kinds of trivia, and the pieces of trivia a parser keeps.
use vstd::prelude::*;
use crate::text::TextRange;

verus! {

/// The kinds of tokens of a JSON source.
#[allow(non_camel_case_types)]
#[derive(Clone, Copy, Debug, PartialEq, Eq, Hash, Structural)]
pub enum JsonSyntaxKind {
    TOMBSTONE,
    EOF,
    COLON,
    COMMA,
    L_PAREN,
    R_PAREN,
    L_CURLY,
    R_CURLY,
    L_BRACK,
    R_BRACK,
    NULL_KW,
    TRUE_KW,
    FALSE_KW,
    JSON_STRING_LITERAL,
    JSON_NUMBER_LITERAL,
    ERROR_TOKEN,
    NEWLINE,
    WHITESPACE,
    IDENT,
    COMMENT,
    MULTILINE_COMMENT,
}

/// The kinds of trivia: text between tokens that the grammar does not see.
#[derive(Clone, Copy, Debug, PartialEq, Eq, Hash, Structural)]
pub enum TriviaPieceKind {
    Newline,
    Whitespace,
    SingleLineComment,
    MultiLineComment,
    Skipped,
}

impl TriviaPieceKind {
    pub open spec fn spec_is_newline(self) -> bool {
        self == TriviaPieceKind::Newline
    }

    pub open spec fn spec_is_comment(self) -> bool {
        self == TriviaPieceKind::SingleLineComment || self == TriviaPieceKind::MultiLineComment
    }

    pub fn is_newline(&self) -> (r: bool)
        ensures
            r == self.spec_is_newline(),
    {
        matches!(self, TriviaPieceKind::Newline)
    }

    pub fn is_comment(&self) -> (r: bool)
        ensures
            r == self.spec_is_comment(),
    {
        matches!(self, TriviaPieceKind::SingleLineComment | TriviaPieceKind::MultiLineComment)
    }
}

impl JsonSyntaxKind {
    /// The trivia kind of a token kind, if the token is trivia.
    pub open spec fn spec_trivia_kind(self) -> Option<TriviaPieceKind> {
        match self {
            JsonSyntaxKind::NEWLINE => Some(TriviaPieceKind::Newline),
            JsonSyntaxKind::WHITESPACE => Some(TriviaPieceKind::Whitespace),
            JsonSyntaxKind::COMMENT => Some(TriviaPieceKind::SingleLineComment),
            JsonSyntaxKind::MULTILINE_COMMENT => Some(TriviaPieceKind::MultiLineComment),
            _ => None,
        }
    }

    /// Whether a token of this kind is trivia.
    pub fn is_trivia(self) -> (r: bool)
        ensures
            r == self.spec_trivia_kind() is Some,
    {
        matches!(
            self,
            JsonSyntaxKind::NEWLINE | JsonSyntaxKind::WHITESPACE | JsonSyntaxKind::COMMENT
                | JsonSyntaxKind::MULTILINE_COMMENT
        )
    }

    /// The trivia kind of a token kind, or `None` for a token that is not trivia.
    pub fn trivia_kind(self) -> (r: Option<TriviaPieceKind>)
        ensures
            r == self.spec_trivia_kind(),
    {
        match self {
            JsonSyntaxKind::NEWLINE => Some(TriviaPieceKind::Newline),
            JsonSyntaxKind::WHITESPACE => Some(TriviaPieceKind::Whitespace),
            JsonSyntaxKind::COMMENT => Some(TriviaPieceKind::SingleLineComment),
            JsonSyntaxKind::MULTILINE_COMMENT => Some(TriviaPieceKind::MultiLineComment),
            _ => None,
        }
    }
}

/// A piece of trivia: its kind, where it stands, and whether it trails the token before it.
#[derive(Clone, Copy, Debug, PartialEq, Eq, Structural)]
pub struct Trivia {
    pub kind: TriviaPieceKind,
    pub range: TextRange,
    pub trailing: bool,
}

impl Trivia {
    pub open spec fn new_spec(kind: TriviaPieceKind, range: TextRange, trailing: bool) -> Trivia {
        Trivia { kind, range, trailing }
    }

    pub fn new(kind: TriviaPieceKind, range: TextRange, trailing: bool) -> (r: Trivia)
        ensures
            r == (Trivia { kind, range, trailing }),
    {
        Trivia { kind, range, trailing }
    }
}

} // verus!
