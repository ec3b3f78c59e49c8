//! The token source of the JSON parser: it hands the parser the tokens that
//! matter and keeps the trivia between them aside.
use vstd::prelude::*;
use crate::json_syntax::{JsonSyntaxKind, Trivia, TriviaPieceKind};
use crate::lexer::{Lexer, ParseDiagnostic, Token};
use crate::text::TextRange;

verus! {

/// Options of the JSON parser.
#[derive(Clone, Copy, Debug, PartialEq, Eq, Structural)]
pub struct JsonParserOptions {
    /// Comments are trivia (else each comment is a token that the parser reports).
    pub allow_comments: bool,
    /// A comma may follow the last element of an array or object.
    pub allow_trailing_commas: bool,
}

impl Default for JsonParserOptions {
    /// Comments are not allowed, nor trailing commas.
    fn default() -> (r: JsonParserOptions)
        ensures
            r == (JsonParserOptions { allow_comments: false, allow_trailing_commas: false }),
    {
        JsonParserOptions { allow_comments: false, allow_trailing_commas: false }
    }
}

/// Whether scanning for the next token stops at a token of this kind: it stops
/// at every token that is not trivia, and at comments when they are not allowed.
pub open spec fn stops_scan(kind: JsonSyntaxKind, allow_comments: bool) -> bool {
    match kind.spec_trivia_kind() {
        None => true,
        Some(t) => t.spec_is_comment() && !allow_comments,
    }
}

/// The index of the first token at or after `from` at which scanning stops,
/// or the number of tokens if there is none.
pub open spec fn first_stop(tokens: Seq<Token>, from: int, allow_comments: bool) -> int
    decreases tokens.len() - from,
{
    if from >= tokens.len() {
        tokens.len() as int
    } else if stops_scan(tokens[from].kind, allow_comments) {
        from
    } else {
        first_stop(tokens, from + 1, allow_comments)
    }
}

/// No token in `from..to` is a newline.
pub open spec fn no_newline(tokens: Seq<Token>, from: int, to: int) -> bool {
    forall|j: int| from <= j < to ==> tokens[j].kind != JsonSyntaxKind::NEWLINE
}

/// The trivia pieces of the tokens `from..to`: a piece trails the token before
/// the scan unless the scan began the source or a newline came up to it.
pub open spec fn scanned_trivia(tokens: Seq<Token>, from: int, to: int, first_token: bool) -> Seq<
    Trivia,
> {
    Seq::new(
        (to - from) as nat,
        |i: int|
            Trivia {
                kind: tokens[from + i].kind.spec_trivia_kind().unwrap(),
                range: tokens[from + i].range,
                trailing: !first_token && no_newline(tokens, from, from + i + 1),
            },
    )
}

/// The scan from `from` stops at `first_stop`, and it passes only trivia.
pub proof fn lemma_first_stop(tokens: Seq<Token>, from: int, allow_comments: bool)
    requires
        0 <= from <= tokens.len(),
    ensures
        from <= first_stop(tokens, from, allow_comments) <= tokens.len(),
        forall|j: int|
            from <= j < first_stop(tokens, from, allow_comments) ==> !stops_scan(
                #[trigger] tokens[j].kind,
                allow_comments,
            ),
        first_stop(tokens, from, allow_comments) < tokens.len() ==> stops_scan(
            tokens[first_stop(tokens, from, allow_comments)].kind,
            allow_comments,
        ),
    decreases tokens.len() - from,
{
    if from < tokens.len() && !stops_scan(tokens[from].kind, allow_comments) {
        lemma_first_stop(tokens, from + 1, allow_comments);
    }
}

/// In the trivia of a scan over trivia tokens, a newline never trails the token
/// before it, a trailing piece never follows one that does not trail, and when
/// the scan began the source no piece trails at all.
pub proof fn lemma_trailing_trivia(tokens: Seq<Token>, from: int, to: int, first_token: bool)
    requires
        0 <= from <= to <= tokens.len(),
        forall|j: int| from <= j < to ==> (#[trigger] tokens[j].kind).spec_trivia_kind() is Some,
    ensures
        forall|i: int|
            0 <= i < to - from && (#[trigger] scanned_trivia(tokens, from, to, first_token)[i]).kind
                == TriviaPieceKind::Newline ==> !scanned_trivia(tokens, from, to, first_token)[i].trailing,
        forall|i: int, j: int|
            0 <= i < j < to - from && (#[trigger] scanned_trivia(tokens, from, to, first_token)[j]).trailing
                ==> (#[trigger] scanned_trivia(tokens, from, to, first_token)[i]).trailing,
        first_token ==> forall|i: int|
            0 <= i < to - from ==> !(#[trigger] scanned_trivia(tokens, from, to, first_token)[i]).trailing,
{
    let s = scanned_trivia(tokens, from, to, first_token);
    assert forall|i: int|
        0 <= i < to - from && (#[trigger] s[i]).kind == TriviaPieceKind::Newline implies !s[i].trailing by {
        let k = tokens[from + i].kind;
        assert(k.spec_trivia_kind() is Some);
        assert(k == JsonSyntaxKind::NEWLINE);
    }
}

/// A scan stops at every token that is not whitespace or a newline; it
/// passes comments only when comments are allowed, single-line and block
/// comments alike.
pub proof fn lemma_stops_scan_kinds(kind: JsonSyntaxKind, allow_comments: bool)
    ensures
        stops_scan(kind, allow_comments) <==> (kind != JsonSyntaxKind::WHITESPACE && kind
            != JsonSyntaxKind::NEWLINE && (allow_comments ==> kind != JsonSyntaxKind::COMMENT
            && kind != JsonSyntaxKind::MULTILINE_COMMENT)),
        !allow_comments ==> stops_scan(JsonSyntaxKind::COMMENT, allow_comments) && stops_scan(
            JsonSyntaxKind::MULTILINE_COMMENT,
            allow_comments,
        ),
{
}

/// When comments are not allowed, no comment of either kind is ever kept as
/// trivia: the pieces a scan collects are whitespace and newlines only.
pub proof fn lemma_no_comment_trivia_when_disallowed(tokens: Seq<Token>, from: int, first_token: bool)
    requires
        0 <= from <= tokens.len(),
    ensures
        forall|i: int|
            0 <= i < first_stop(tokens, from, false) - from ==> {
                let k = (#[trigger] scanned_trivia(tokens, from, first_stop(tokens, from, false), first_token)[i]).kind;
                k == TriviaPieceKind::Whitespace || k == TriviaPieceKind::Newline
            },
{
    lemma_first_stop(tokens, from, false);
    let stop = first_stop(tokens, from, false);
    assert forall|i: int| 0 <= i < stop - from implies {
        let k = (#[trigger] scanned_trivia(tokens, from, stop, first_token)[i]).kind;
        k == TriviaPieceKind::Whitespace || k == TriviaPieceKind::Newline
    } by {
        assert(!stops_scan(tokens[from + i].kind, false));
    }
}

/// After a token, trivia keeps trailing it until a newline: the first piece of
/// a scan that follows a token trails unless it is a newline, and every piece
/// after a trailing one trails too unless it is a newline.
pub proof fn lemma_trailing_until_newline(tokens: Seq<Token>, from: int, to: int, first_token: bool)
    requires
        0 <= from <= to <= tokens.len(),
    ensures
        !first_token && from < to && tokens[from].kind != JsonSyntaxKind::NEWLINE
            ==> scanned_trivia(tokens, from, to, first_token)[0].trailing,
        forall|j: int|
            1 <= j < to - from && scanned_trivia(tokens, from, to, first_token)[j - 1].trailing
                && tokens[from + j].kind != JsonSyntaxKind::NEWLINE ==> (#[trigger] scanned_trivia(
                tokens,
                from,
                to,
                first_token,
            )[j]).trailing,
{
    let s = scanned_trivia(tokens, from, to, first_token);
    if !first_token && from < to && tokens[from].kind != JsonSyntaxKind::NEWLINE {
        lemma_no_newline_extend(tokens, from, from);
        assert(s[0].trailing == (!first_token && no_newline(tokens, from, from + 1)));
    }
    assert forall|j: int|
        1 <= j < to - from && s[j - 1].trailing && tokens[from + j].kind != JsonSyntaxKind::NEWLINE
            implies (#[trigger] s[j]).trailing by {
        assert(s[j - 1].trailing == (!first_token && no_newline(tokens, from, from + j)));
        lemma_no_newline_extend(tokens, from, from + j);
        assert(s[j].trailing == (!first_token && no_newline(tokens, from, from + j + 1)));
    }
}

/// A stretch without newlines extends over one more token that is not a newline.
proof fn lemma_no_newline_extend(tokens: Seq<Token>, a: int, b: int)
    requires
        no_newline(tokens, a, b),
        tokens[b].kind != JsonSyntaxKind::NEWLINE,
    ensures
        no_newline(tokens, a, b + 1),
{
}

/// A scan over trivia tokens saw a line break exactly when one of the pieces
/// it collected is a newline.
pub proof fn lemma_line_break_is_newline_piece(
    tokens: Seq<Token>,
    from: int,
    to: int,
    first_token: bool,
)
    requires
        0 <= from <= to <= tokens.len(),
        forall|j: int| from <= j < to ==> (#[trigger] tokens[j].kind).spec_trivia_kind() is Some,
    ensures
        !no_newline(tokens, from, to) <==> exists|i: int|
            0 <= i < to - from && (#[trigger] scanned_trivia(tokens, from, to, first_token)[i]).kind
                == TriviaPieceKind::Newline,
{
    let s = scanned_trivia(tokens, from, to, first_token);
    if !no_newline(tokens, from, to) {
        let j = choose|j: int| from <= j < to && tokens[j].kind == JsonSyntaxKind::NEWLINE;
        assert(s[j - from].kind == TriviaPieceKind::Newline);
    }
    if exists|i: int| 0 <= i < to - from && (#[trigger] s[i]).kind == TriviaPieceKind::Newline {
        let i = choose|i: int| 0 <= i < to - from && (#[trigger] s[i]).kind == TriviaPieceKind::Newline;
        let k = tokens[from + i].kind;
        assert(k.spec_trivia_kind() is Some);
        assert(k == JsonSyntaxKind::NEWLINE);
    }
}

/// The lexer's tokens cover the source in order, each a well-formed range,
/// and the last one ends the file.
pub open spec fn lexed_in_order(tokens: Seq<Token>) -> bool {
    &&& tokens.len() > 0
    &&& tokens.last().kind == JsonSyntaxKind::EOF
    &&& forall|i: int| 0 <= i < tokens.len() ==> (#[trigger] tokens[i]).range.start <= tokens[i].range.end
    &&& forall|i: int, j: int|
        0 <= i < j < tokens.len() ==> (#[trigger] tokens[i]).range.end <= (
        #[trigger] tokens[j]).range.start
}

/// Each piece of trivia ends before the next one starts.
pub open spec fn trivia_ordered(trivia: Seq<Trivia>) -> bool {
    forall|i: int, j: int|
        0 <= i < j < trivia.len() ==> (#[trigger] trivia[i]).range.end <= (
        #[trigger] trivia[j]).range.start
}

/// Trivia added before a scan and by it stay in source order, and all of it
/// ends before the token the scan stops at.
pub proof fn lemma_scan_in_order(
    tokens: Seq<Token>,
    from: int,
    stop: int,
    first_token: bool,
    prev: Seq<Trivia>,
    bound: int,
)
    requires
        lexed_in_order(tokens),
        0 <= from <= stop < tokens.len(),
        trivia_ordered(prev),
        forall|i: int| 0 <= i < prev.len() ==> (#[trigger] prev[i]).range.end <= bound,
        bound <= tokens[from].range.start,
    ensures
        trivia_ordered(prev + scanned_trivia(tokens, from, stop, first_token)),
        forall|i: int|
            0 <= i < (prev + scanned_trivia(tokens, from, stop, first_token)).len() ==> (#[trigger] (
            prev + scanned_trivia(tokens, from, stop, first_token))[i]).range.end
                <= tokens[stop].range.start,
{
    let new = scanned_trivia(tokens, from, stop, first_token);
    let all = prev + new;
    assert forall|m: int| from <= m < tokens.len() implies tokens[from].range.start
        <= #[trigger] tokens[m].range.start by {
        if m > from {
            assert(tokens[from].range.start <= tokens[from].range.end);
            assert(tokens[from].range.end <= tokens[m].range.start);
        }
    }
    assert forall|i: int, j: int| 0 <= i < j < all.len() implies (#[trigger] all[i]).range.end <= (
    #[trigger] all[j]).range.start by {
        if j >= prev.len() {
            let b = j - prev.len();
            assert(all[j] == new[b]);
            assert(new[b].range == tokens[from + b].range);
            if i >= prev.len() {
                let a = i - prev.len();
                assert(all[i] == new[a]);
                assert(tokens[from + a].range.end <= tokens[from + b].range.start);
            } else {
                assert(tokens[from].range.start <= tokens[from + b].range.start);
            }
        }
    }
    assert forall|i: int| 0 <= i < all.len() implies (#[trigger] all[i]).range.end
        <= tokens[stop].range.start by {
        if i >= prev.len() {
            let a = i - prev.len();
            assert(all[i] == new[a]);
            assert(tokens[from + a].range.end <= tokens[stop].range.start);
        } else {
            assert(tokens[from].range.start <= tokens[stop].range.start);
        }
    }
}

/// On tokens that end with the end of the file, a scan from any token stops
/// before the end.
pub proof fn lemma_stop_before_end(tokens: Seq<Token>, from: int, allow_comments: bool)
    requires
        lexed_in_order(tokens),
        0 <= from < tokens.len(),
    ensures
        first_stop(tokens, from, allow_comments) < tokens.len(),
{
    lemma_first_stop(tokens, from, allow_comments);
    if first_stop(tokens, from, allow_comments) == tokens.len() {
        assert(!stops_scan(tokens[tokens.len() - 1].kind, allow_comments));
    }
}

/// The JSON token source: the current token, the trivia seen so far, and
/// whether a line break came before the current token.
pub struct JsonTokenSource {
    lexer: Lexer,
    trivia: Vec<Trivia>,
    current: JsonSyntaxKind,
    current_range: TextRange,
    preceding_line_break: bool,
    options: JsonParserOptions,
}

impl JsonTokenSource {
    pub closed spec fn tokens(&self) -> Seq<Token> {
        self.lexer.tokens()
    }

    /// How many tokens were read from the lexer.
    pub closed spec fn position(&self) -> int {
        self.lexer.position()
    }

    pub closed spec fn trivia_seen(&self) -> Seq<Trivia> {
        self.trivia@
    }

    pub closed spec fn current_kind(&self) -> JsonSyntaxKind {
        self.current
    }

    pub closed spec fn current_text_range(&self) -> TextRange {
        self.current_range
    }

    pub closed spec fn line_break_before(&self) -> bool {
        self.preceding_line_break
    }

    pub closed spec fn parser_options(&self) -> JsonParserOptions {
        self.options
    }

    pub closed spec fn diagnostics(&self) -> Seq<ParseDiagnostic> {
        self.lexer.diagnostics()
    }

    pub closed spec fn source_text(&self) -> Seq<char> {
        self.lexer.source_text()
    }

    /// The tokens read are among the tokens of the source.
    pub open spec fn wf(&self) -> bool {
        0 <= self.position() <= self.tokens().len()
    }

    /// The tokens came in order, the current token is the last one read and
    /// one at which a scan stops (never whitespace or a newline, nor a comment
    /// when comments are allowed), the trivia is in source order and all of it
    /// ends before the current token.
    pub open spec fn in_source_order(&self) -> bool {
        &&& lexed_in_order(self.tokens())
        &&& 1 <= self.position() <= self.tokens().len()
        &&& self.current_kind() == self.tokens()[self.position() - 1].kind
        &&& stops_scan(self.current_kind(), self.parser_options().allow_comments)
        &&& self.current_text_range() == self.tokens()[self.position() - 1].range
        &&& trivia_ordered(self.trivia_seen())
        &&& forall|i: int|
            0 <= i < self.trivia_seen().len() ==> (#[trigger] self.trivia_seen()[i]).range.end
                <= self.current_text_range().start
    }

    /// `post` is `pre` after the pieces `skipped` were added to its trivia and a scan
    /// for the next token that is not trivia followed.
    pub open spec fn scanned(
        pre: JsonTokenSource,
        skipped: Seq<Trivia>,
        post: JsonTokenSource,
        first_token: bool,
    ) -> bool {
        let toks = pre.tokens();
        let from = pre.position();
        let stop = first_stop(toks, from, pre.parser_options().allow_comments);
        &&& post.wf()
        &&& post.tokens() == toks
        &&& post.parser_options() == pre.parser_options()
        &&& post.diagnostics() == pre.diagnostics()
        &&& post.source_text() == pre.source_text()
        &&& post.trivia_seen() == pre.trivia_seen() + skipped + scanned_trivia(
            toks,
            from,
            stop,
            first_token,
        )
        &&& post.line_break_before() == !no_newline(toks, from, stop)
        &&& if stop < toks.len() {
            &&& post.position() == stop + 1
            &&& post.current_kind() == toks[stop].kind
            &&& post.current_text_range() == toks[stop].range
        } else {
            &&& post.position() == toks.len()
            &&& post.current_kind() == pre.current_kind()
            &&& post.current_text_range() == pre.current_text_range()
        }
    }

    /// The token source of a source text, over the tokens that lexing it gave
    /// and the lexer's diagnostics; it stands on the first token that is not trivia.
    pub fn from_str(
        source: &str,
        tokens: Vec<Token>,
        diagnostics: Vec<ParseDiagnostic>,
        options: JsonParserOptions,
    ) -> (r: JsonTokenSource)
        ensures
            r.wf(),
            r.tokens() == tokens@,
            r.parser_options() == options,
            r.diagnostics() == diagnostics@,
            r.source_text() == source@,
            ({
                let stop = first_stop(tokens@, 0, options.allow_comments);
                &&& r.trivia_seen() == scanned_trivia(tokens@, 0, stop, true)
                &&& r.line_break_before() == !no_newline(tokens@, 0, stop)
                &&& if stop < tokens@.len() {
                    &&& r.position() == stop + 1
                    &&& r.current_kind() == tokens@[stop].kind
                    &&& r.current_text_range() == tokens@[stop].range
                } else {
                    &&& r.position() == tokens@.len()
                    &&& r.current_kind() == JsonSyntaxKind::TOMBSTONE
                    &&& r.current_text_range() == TextRange::default_spec()
                }
            }),
            lexed_in_order(tokens@) ==> r.in_source_order(),
    {
        let lexer = Lexer::new(source.to_string(), tokens, diagnostics);
        let mut source = JsonTokenSource {
            lexer,
            trivia: Vec::new(),
            current: JsonSyntaxKind::TOMBSTONE,
            current_range: TextRange::default(),
            preceding_line_break: false,
            options,
        };
        source.next_non_trivia_token(true);
        assert(Seq::<Trivia>::empty() + scanned_trivia(tokens@, 0, first_stop(tokens@, 0, options.allow_comments), true)
            =~= scanned_trivia(tokens@, 0, first_stop(tokens@, 0, options.allow_comments), true));
        proof {
            if lexed_in_order(tokens@) {
                let stop = first_stop(tokens@, 0, options.allow_comments);
                lemma_first_stop(tokens@, 0, options.allow_comments);
                lemma_stop_before_end(tokens@, 0, options.allow_comments);
                lemma_scan_in_order(
                    tokens@,
                    0,
                    stop,
                    true,
                    Seq::empty(),
                    tokens@[0].range.start as int,
                );
            }
        }
        source
    }

    /// Reads tokens until one that is not trivia (or a comment, when comments
    /// are not allowed) and makes it the current token; the trivia passed is kept.
    fn next_non_trivia_token(&mut self, first_token: bool)
        requires
            old(self).wf(),
        ensures
            Self::scanned(*old(self), Seq::empty(), *final(self), first_token),
    {
        let ghost toks = self.tokens();
        let ghost from = self.position();
        let ghost trivia0 = self.trivia@;
        let ghost current0 = self.current;
        let ghost range0 = self.current_range;
        let ghost stop = first_stop(toks, from, self.options.allow_comments);
        proof {
            lemma_first_stop(toks, from, self.options.allow_comments);
            assert(scanned_trivia(toks, from, from, first_token) =~= Seq::<Trivia>::empty());
            assert(trivia0 + Seq::<Trivia>::empty() =~= trivia0);
            assert(trivia0 + Seq::<Trivia>::empty() + scanned_trivia(toks, from, stop, first_token)
                =~= trivia0 + scanned_trivia(toks, from, stop, first_token));
        }
        let mut trailing = !first_token;
        self.preceding_line_break = false;
        let mut done = false;
        while !done
            invariant
                self.lexer.wf(),
                self.lexer.tokens() == toks,
                self.lexer.diagnostics() == old(self).lexer.diagnostics(),
                self.lexer.source_text() == old(self).lexer.source_text(),
                self.options == old(self).options,
                from == old(self).lexer.position(),
                stop == first_stop(toks, from, self.options.allow_comments),
                from <= stop <= toks.len(),
                forall|j: int| from <= j < stop ==> !stops_scan(
                    #[trigger] toks[j].kind,
                    self.options.allow_comments,
                ),
                stop < toks.len() ==> stops_scan(toks[stop].kind, self.options.allow_comments),
                from <= self.lexer.position() <= toks.len(),
                !done ==> self.lexer.position() <= stop,
                !done ==> self.current == current0 && self.current_range == range0,
                done ==> if stop < toks.len() {
                    &&& self.lexer.position() == stop + 1
                    &&& self.current == toks[stop].kind
                    &&& self.current_range == toks[stop].range
                } else {
                    &&& self.lexer.position() == toks.len()
                    &&& self.current == current0
                    &&& self.current_range == range0
                },
                self.trivia@ == trivia0 + scanned_trivia(
                    toks,
                    from,
                    if done { stop } else { self.lexer.position() },
                    first_token,
                ),
                trailing == (!first_token && no_newline(
                    toks,
                    from,
                    if done { stop } else { self.lexer.position() },
                )),
                self.preceding_line_break == !no_newline(
                    toks,
                    from,
                    if done { stop } else { self.lexer.position() },
                ),
            decreases toks.len() - self.lexer.position() + (if done { 0int } else { 1int }),
        {
            let ghost pos = self.lexer.position();
            match self.lexer.next_token() {
                None => {
                    done = true;
                },
                Some(token) => {
                    match token.kind().trivia_kind() {
                        None => {
                            self.set_current_token(token);
                            done = true;
                        },
                        Some(trivia_kind) => {
                            if trivia_kind.is_comment() && !self.options.allow_comments {
                                self.set_current_token(token);
                                done = true;
                            } else {
                                assert(pos != stop);
                                if trivia_kind.is_newline() {
                                    trailing = false;
                                    self.preceding_line_break = true;
                                }
                                self.trivia.push(Trivia::new(trivia_kind, token.range(), trailing));
                                proof {
                                    let piece = Trivia {
                                        kind: trivia_kind,
                                        range: toks[pos].range,
                                        trailing: !first_token && no_newline(toks, from, pos + 1),
                                    };
                                    assert(scanned_trivia(toks, from, pos + 1, first_token)
                                        =~= scanned_trivia(toks, from, pos, first_token).push(piece));
                                    assert(trivia0 + scanned_trivia(toks, from, pos + 1, first_token)
                                        =~= (trivia0 + scanned_trivia(toks, from, pos, first_token)).push(piece));
                                    if toks[pos].kind == JsonSyntaxKind::NEWLINE {
                                        assert(!no_newline(toks, from, pos + 1));
                                    }
                                }
                            }
                        },
                    }
                },
            }
        }
    }

    fn set_current_token(&mut self, token: Token)
        ensures
            final(self).current == token.kind,
            final(self).current_range == token.range,
            final(self).lexer == old(self).lexer,
            final(self).trivia == old(self).trivia,
            final(self).preceding_line_break == old(self).preceding_line_break,
            final(self).options == old(self).options,
    {
        self.current = token.kind();
        self.current_range = token.range()
    }

    /// The kind of the current token.
    pub fn current(&self) -> (r: JsonSyntaxKind)
        ensures
            r == self.current_kind(),
    {
        self.current
    }

    /// Where the current token stands.
    pub fn current_range(&self) -> (r: TextRange)
        ensures
            r == self.current_text_range(),
    {
        self.current_range
    }

    /// The source text.
    pub fn text(&self) -> (r: &str)
        ensures
            r@ == self.source_text(),
    {
        self.lexer.source()
    }

    /// Whether a line break came between the previous token and the current one.
    pub fn has_preceding_line_break(&self) -> (r: bool)
        ensures
            r == self.line_break_before(),
    {
        self.preceding_line_break
    }

    /// Moves to the next token that is not trivia; at the end of the file it stays.
    pub fn bump(&mut self)
        requires
            old(self).wf(),
        ensures
            old(self).current_kind() != JsonSyntaxKind::EOF ==> Self::scanned(
                *old(self),
                Seq::empty(),
                *final(self),
                false,
            ),
            old(self).current_kind() == JsonSyntaxKind::EOF ==> *final(self) == *old(self),
            old(self).in_source_order() ==> final(self).in_source_order(),
    {
        if self.current != JsonSyntaxKind::EOF {
            let ghost pre = *self;
            self.next_non_trivia_token(false);
            proof {
                if pre.in_source_order() {
                    Self::lemma_scan_keeps_order(pre, Seq::empty(), *self);
                }
            }
        }
    }

    /// Turns the current token into skipped trivia and moves to the next token
    /// that is not trivia; at the end of the file it does nothing.
    pub fn skip_as_trivia(&mut self)
        requires
            old(self).wf(),
        ensures
            old(self).current_kind() != JsonSyntaxKind::EOF ==> Self::scanned(
                *old(self),
                seq![
                    Trivia {
                        kind: TriviaPieceKind::Skipped,
                        range: old(self).current_text_range(),
                        trailing: false,
                    },
                ],
                *final(self),
                false,
            ),
            old(self).current_kind() == JsonSyntaxKind::EOF ==> *final(self) == *old(self),
            old(self).in_source_order() ==> final(self).in_source_order(),
    {
        if self.current() != JsonSyntaxKind::EOF {
            let range = self.current_range();
            self.trivia.push(Trivia::new(TriviaPieceKind::Skipped, range, false));
            let ghost mid = *self;
            self.next_non_trivia_token(false);
            assert(old(self).trivia_seen() + seq![Trivia::new_spec(TriviaPieceKind::Skipped, range, false)]
                == mid.trivia_seen());
            proof {
                if old(self).in_source_order() {
                    Self::lemma_scan_keeps_order(
                        *old(self),
                        seq![Trivia::new_spec(TriviaPieceKind::Skipped, range, false)],
                        *self,
                    );
                }
            }
        }
    }

    /// Trivia comes back in source order: each piece ends before any later
    /// one starts, and all of it ends before the current token.
    pub proof fn lemma_trivia_in_source_order(&self)
        requires
            self.in_source_order(),
        ensures
            forall|i: int, j: int|
                0 <= i < j < self.trivia_seen().len() ==> (#[trigger] self.trivia_seen()[i]).range.end
                    <= (#[trigger] self.trivia_seen()[j]).range.start,
            forall|i: int|
                0 <= i < self.trivia_seen().len() ==> (#[trigger] self.trivia_seen()[i]).range.end
                    <= self.current_text_range().start,
    {
    }

    /// A scan from a source in order, after the current token was kept as
    /// skipped trivia or not, leaves the source in order.
    proof fn lemma_scan_keeps_order(pre: JsonTokenSource, skipped: Seq<Trivia>, post: JsonTokenSource)
        requires
            pre.in_source_order(),
            pre.current_kind() != JsonSyntaxKind::EOF,
            skipped == Seq::<Trivia>::empty() || skipped == seq![
                Trivia::new_spec(TriviaPieceKind::Skipped, pre.current_text_range(), false),
            ],
            Self::scanned(pre, skipped, post, false),
        ensures
            post.in_source_order(),
    {
        let toks = pre.tokens();
        let pos = pre.position();
        let allow = pre.parser_options().allow_comments;
        assert(pos - 1 != toks.len() - 1);
        lemma_stop_before_end(toks, pos, allow);
        lemma_first_stop(toks, pos, allow);
        let stop = first_stop(toks, pos, allow);
        let cur = toks[pos - 1].range;
        assert(cur.start <= cur.end);
        assert(cur.end <= toks[pos].range.start);
        let prev = pre.trivia_seen() + skipped;
        let bound = if skipped.len() == 0 { cur.start as int } else { cur.end as int };
        assert forall|i: int| 0 <= i < prev.len() implies (#[trigger] prev[i]).range.end <= bound by {
            if i < pre.trivia_seen().len() {
                assert(prev[i] == pre.trivia_seen()[i]);
            }
        }
        assert forall|i: int, j: int| 0 <= i < j < prev.len() implies (#[trigger] prev[i]).range.end
            <= (#[trigger] prev[j]).range.start by {
            if j < pre.trivia_seen().len() {
                assert(prev[i] == pre.trivia_seen()[i]);
                assert(prev[j] == pre.trivia_seen()[j]);
            } else {
                assert(prev[i] == pre.trivia_seen()[i]);
            }
        }
        lemma_scan_in_order(toks, pos, stop, false, prev, bound);
    }

    /// Ends the token source, giving back the trivia and the lexer's diagnostics.
    pub fn finish(self) -> (r: (Vec<Trivia>, Vec<ParseDiagnostic>))
        ensures
            r.0@ == self.trivia_seen(),
            r.1@ == self.diagnostics(),
    {
        (self.trivia, self.lexer.finish())
    }
}

} // verus!
