//! The stream of tokens that lexing a JSON source gave, read one token at a time.
use vstd::prelude::*;
use crate::json_syntax::JsonSyntaxKind;
use crate::text::TextRange;

verus! {

/// A token: its kind and where it stands in the source.
#[derive(Clone, Copy, Debug, PartialEq, Eq, Structural)]
pub struct Token {
    pub kind: JsonSyntaxKind,
    pub range: TextRange,
}

impl Token {
    pub fn new(kind: JsonSyntaxKind, range: TextRange) -> (r: Token)
        ensures
            r == (Token { kind, range }),
    {
        Token { kind, range }
    }

    pub fn kind(&self) -> (r: JsonSyntaxKind)
        ensures
            r == self.kind,
    {
        self.kind
    }

    pub fn range(&self) -> (r: TextRange)
        ensures
            r == self.range,
    {
        self.range
    }
}

/// A problem the lexer found in the source.
#[derive(Debug)]
pub struct ParseDiagnostic {
    pub message: String,
    pub range: TextRange,
}

/// The tokens of a source, in order, with the position of the next one to read.
pub struct Lexer {
    source: String,
    tokens: Vec<Token>,
    position: usize,
    diagnostics: Vec<ParseDiagnostic>,
}

impl Lexer {
    /// All the tokens of the source.
    pub closed spec fn tokens(&self) -> Seq<Token> {
        self.tokens@
    }

    /// How many tokens were read.
    pub closed spec fn position(&self) -> int {
        self.position as int
    }

    /// The diagnostics of the lexer.
    pub closed spec fn diagnostics(&self) -> Seq<ParseDiagnostic> {
        self.diagnostics@
    }

    /// The source text.
    pub closed spec fn source_text(&self) -> Seq<char> {
        self.source@
    }

    pub open spec fn wf(&self) -> bool {
        0 <= self.position() <= self.tokens().len()
    }

    /// A lexer over `tokens`, the tokens of `source`, that reports `diagnostics`.
    pub fn new(source: String, tokens: Vec<Token>, diagnostics: Vec<ParseDiagnostic>) -> (r: Lexer)
        ensures
            r.wf(),
            r.tokens() == tokens@,
            r.position() == 0,
            r.diagnostics() == diagnostics@,
            r.source_text() == source@,
    {
        Lexer { source, tokens, position: 0, diagnostics }
    }

    /// The next token, or `None` once all were read.
    pub fn next_token(&mut self) -> (r: Option<Token>)
        requires
            old(self).wf(),
        ensures
            final(self).wf(),
            final(self).tokens() == old(self).tokens(),
            final(self).diagnostics() == old(self).diagnostics(),
            final(self).source_text() == old(self).source_text(),
            old(self).position() < old(self).tokens().len() ==> {
                &&& r == Some(old(self).tokens()[old(self).position()])
                &&& final(self).position() == old(self).position() + 1
            },
            old(self).position() == old(self).tokens().len() ==> {
                &&& r is None
                &&& final(self).position() == old(self).position()
            },
    {
        if self.position < self.tokens.len() {
            let t = self.tokens[self.position];
            self.position = self.position + 1;
            Some(t)
        } else {
            None
        }
    }

    /// The source text.
    pub fn source(&self) -> (r: &str)
        ensures
            r@ == self.source_text(),
    {
        self.source.as_str()
    }

    /// Ends lexing, giving back the diagnostics.
    pub fn finish(self) -> (r: Vec<ParseDiagnostic>)
        ensures
            r@ == self.diagnostics(),
    {
        self.diagnostics
    }
}

} // verus!
