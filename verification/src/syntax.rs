//! The notation of grammars: from text to the rules of a grammar.
//!
//! A grammar is a list of rules, each closed by a semicolon:
//!
//! ```text
//! parser_rule := rule_name ":" rule_body ";"
//! token_rule  := TOKEN_NAME ":" token_lit ";"
//! rule_body   := rule_piece ("|" rule_piece)*
//! rule_piece  := [rule_name "="] rule_part+
//! rule_part   := rule_elem ("*" | "+" | "?")?  |  "[" rule_body "]"
//! rule_elem   := rule_name | TOKEN_NAME | token_lit | "(" rule_body ")"
//! ```
//!
//! A rule name begins with a lower-case letter and goes on with lower-case
//! letters, digits and underscores; a token name does the same in upper
//! case. A literal stands between two double quotes or two single quotes
//! and holds anything but its own quote. Blanks may stand between lexemes.

pub mod laws;
pub mod model;

use crate::ast::{
    lemma_children_views, node_views, parser_rule_views, token_rule_views, Grammar, GrammarView,
    Node, NodeView, ParserRule, ParserRuleView, TokenRule, TokenRuleView,
};
use crate::syntax::laws::{
    lemma_body_progress, lemma_parsed_well_formed, lemma_part_progress, lemma_piece_progress,
};
use crate::syntax::model::{
    choice_of, expect, is_name_char, kind_at, lex, lex_from, lexemes_grammar, name_run,
    parse_body, parse_elem, parse_entries, parse_part, parse_parts, parse_piece, parse_pieces,
    parse_text, punctuation, quote_offset, sequence_of, starts_part, unexpected,
};
use crate::text::{decimal, decimal_text};
use crate::transform::model::token_rules_well_formed;
use vstd::prelude::*;
use vstd::string::*;

verus! {

/// What is wrong with a text that is no grammar, and where: `position`
/// counts characters from the start of the text.
#[derive(Debug, Clone, Copy, PartialEq, Eq)]
pub enum SyntaxError {
    /// A character that begins no lexeme.
    UnexpectedCharacter { position: usize },
    /// A literal whose closing quote is missing; `position` is that of the
    /// opening quote.
    UnterminatedLiteral { position: usize },
    /// A lexeme that cannot stand where it is.
    UnexpectedLexeme { position: usize },
    /// The text ends where a rule is not complete.
    UnexpectedEnd { position: usize },
}

pub enum SyntaxErrorView {
    UnexpectedCharacter { position: nat },
    UnterminatedLiteral { position: nat },
    UnexpectedLexeme { position: nat },
    UnexpectedEnd { position: nat },
}

impl View for SyntaxError {
    type V = SyntaxErrorView;

    open spec fn view(&self) -> SyntaxErrorView {
        match self {
            SyntaxError::UnexpectedCharacter { position } => SyntaxErrorView::UnexpectedCharacter {
                position: *position as nat,
            },
            SyntaxError::UnterminatedLiteral { position } => SyntaxErrorView::UnterminatedLiteral {
                position: *position as nat,
            },
            SyntaxError::UnexpectedLexeme { position } => SyntaxErrorView::UnexpectedLexeme {
                position: *position as nat,
            },
            SyntaxError::UnexpectedEnd { position } => SyntaxErrorView::UnexpectedEnd {
                position: *position as nat,
            },
        }
    }
}

/// The position that an error speaks of.
pub open spec fn position_of(e: SyntaxErrorView) -> nat {
    match e {
        SyntaxErrorView::UnexpectedCharacter { position } => position,
        SyntaxErrorView::UnterminatedLiteral { position } => position,
        SyntaxErrorView::UnexpectedLexeme { position } => position,
        SyntaxErrorView::UnexpectedEnd { position } => position,
    }
}

/// The words for an error, without the position.
pub open spec fn words_of(e: SyntaxErrorView) -> Seq<char> {
    match e {
        SyntaxErrorView::UnexpectedCharacter { .. } => "unexpected character at position "@,
        SyntaxErrorView::UnterminatedLiteral { .. } => {
            "literal without closing quote at position "@
        },
        SyntaxErrorView::UnexpectedLexeme { .. } => "unexpected lexeme at position "@,
        SyntaxErrorView::UnexpectedEnd { .. } => "unexpected end of text at position "@,
    }
}

/// The message for an error: what is wrong, and the position in decimal
/// notation.
pub open spec fn message_of(e: SyntaxErrorView) -> Seq<char> {
    words_of(e) + decimal(position_of(e))
}

impl SyntaxError {
    /// The position that the error speaks of.
    pub fn position(&self) -> (r: usize)
        ensures
            r == position_of(self@),
    {
        match self {
            SyntaxError::UnexpectedCharacter { position } => *position,
            SyntaxError::UnterminatedLiteral { position } => *position,
            SyntaxError::UnexpectedLexeme { position } => *position,
            SyntaxError::UnexpectedEnd { position } => *position,
        }
    }

    /// The message for the error.
    pub fn message(&self) -> (r: String)
        ensures
            r@ == message_of(self@),
    {
        let words = match self {
            SyntaxError::UnexpectedCharacter { .. } => "unexpected character at position ",
            SyntaxError::UnterminatedLiteral { .. } => "literal without closing quote at position ",
            SyntaxError::UnexpectedLexeme { .. } => "unexpected lexeme at position ",
            SyntaxError::UnexpectedEnd { .. } => "unexpected end of text at position ",
        };
        let mut r = String::from_str(words);
        let digits = decimal_text(self.position() as u64);
        r.append(digits.as_str());
        r
    }
}

/// The kinds of lexeme.
#[derive(Debug, Clone, Copy, PartialEq, Eq, Structural)]
pub enum LexemeKind {
    RuleName,
    TokenName,
    Literal,
    Colon,
    Semicolon,
    Pipe,
    Equals,
    Star,
    Plus,
    Question,
    LBracket,
    RBracket,
    LParen,
    RParen,
    /// The end of the text: the last lexeme of every text, and of no text
    /// any other.
    End,
}

/// A lexeme: its kind, its text, and the position of its first character.
#[derive(Debug, PartialEq, Eq)]
pub struct Lexeme {
    pub kind: LexemeKind,
    pub text: String,
    pub pos: usize,
}

pub struct LexemeView {
    pub kind: LexemeKind,
    pub text: Seq<char>,
    pub pos: nat,
}

impl View for Lexeme {
    type V = LexemeView;

    open spec fn view(&self) -> LexemeView {
        LexemeView { kind: self.kind, text: self.text@, pos: self.pos as nat }
    }
}

/// The models of a list of lexemes.
pub open spec fn lexeme_views(lexemes: Seq<Lexeme>) -> Seq<LexemeView> {
    Seq::new(lexemes.len(), |i: int| lexemes[i]@)
}

/// The characters of a string.
fn chars_of(s: &str) -> (r: Vec<char>)
    ensures
        r@ == s@,
{
    let mut out: Vec<char> = Vec::new();
    for c in it: s.chars()
        invariant
            it.seq() == s@,
            out@ == it.seq().take(it.index() as int),
    {
        assert(it.seq().take(it.index() + 1) =~= it.seq().take(it.index() as int).push(c));
        out.push(c);
    }
    assert(s@.take(s@.len() as int) =~= s@);
    out
}

/// Whether a character may follow the first of a name.
fn name_char(c: char, upper: bool) -> (r: bool)
    ensures
        r == is_name_char(c, upper),
{
    (upper && 'A' <= c && c <= 'Z') || (!upper && 'a' <= c && c <= 'z') || ('0' <= c && c <= '9')
        || c == '_'
}

/// The kind of the lexeme that is the character `c` alone.
fn punctuation_kind(c: char) -> (r: Option<LexemeKind>)
    ensures
        r == punctuation(c),
{
    if c == ':' {
        Some(LexemeKind::Colon)
    } else if c == ';' {
        Some(LexemeKind::Semicolon)
    } else if c == '|' {
        Some(LexemeKind::Pipe)
    } else if c == '=' {
        Some(LexemeKind::Equals)
    } else if c == '*' {
        Some(LexemeKind::Star)
    } else if c == '+' {
        Some(LexemeKind::Plus)
    } else if c == '?' {
        Some(LexemeKind::Question)
    } else if c == '[' {
        Some(LexemeKind::LBracket)
    } else if c == ']' {
        Some(LexemeKind::RBracket)
    } else if c == '(' {
        Some(LexemeKind::LParen)
    } else if c == ')' {
        Some(LexemeKind::RParen)
    } else {
        None
    }
}

/// How many name characters stand at `pos` and behind it without a gap.
fn count_name_run(chars: &Vec<char>, pos: usize, upper: bool) -> (n: usize)
    requires
        pos <= chars.len(),
    ensures
        n == name_run(chars@, pos as nat, upper),
        pos + n <= chars.len(),
{
    let mut i: usize = pos;
    while i < chars.len() && name_char(chars[i], upper)
        invariant
            pos <= i <= chars.len(),
            name_run(chars@, pos as nat, upper) == (i - pos) + name_run(chars@, i as nat, upper),
        decreases chars.len() - i,
    {
        i += 1;
    }
    i - pos
}

/// How many characters stand between `pos` and the next `quote`.
fn find_quote(chars: &Vec<char>, pos: usize, quote: char) -> (r: Option<usize>)
    requires
        pos <= chars.len(),
    ensures
        match r {
            Some(n) => quote_offset(chars@, pos as nat, quote) == Some(n as nat) && pos + n
                < chars.len(),
            None => quote_offset(chars@, pos as nat, quote) is None,
        },
{
    let mut i: usize = pos;
    while i < chars.len() && chars[i] != quote
        invariant
            pos <= i <= chars.len(),
            quote_offset(chars@, pos as nat, quote) == match quote_offset(
                chars@,
                i as nat,
                quote,
            ) {
                Some(n) => Some((n + (i - pos)) as nat),
                None => None,
            },
        decreases chars.len() - i,
    {
        i += 1;
    }
    if i < chars.len() {
        Some(i - pos)
    } else {
        None
    }
}

/// The lexemes of a text, the end of the text being the last of them.
pub fn tokenize(data: &str) -> (r: Result<Vec<Lexeme>, SyntaxError>)
    ensures
        match r {
            Ok(lexemes) => lex(data@) == Ok::<Seq<LexemeView>, SyntaxErrorView>(
                lexeme_views(lexemes@),
            ),
            Err(e) => lex(data@) == Err::<Seq<LexemeView>, SyntaxErrorView>(e@),
        },
{
    let chars = chars_of(data);
    let ghost s = data@;
    let mut out: Vec<Lexeme> = Vec::new();
    let mut pos: usize = 0;
    assert(lexeme_views(out@) =~= Seq::<LexemeView>::empty());
    while pos < chars.len()
        invariant
            pos <= chars.len(),
            chars@ == s,
            s == data@,
            lex(s) == lex_from(s, pos as nat, lexeme_views(out@)),
        decreases chars.len() - pos,
    {
        let c = chars[pos];
        if c == ' ' || c == '\t' || c == '\n' || c == '\r' {
            pos += 1;
        } else {
            let ghost before = lexeme_views(out@);
            let kind: LexemeKind;
            let len: usize;
            if 'a' <= c && c <= 'z' {
                kind = LexemeKind::RuleName;
                len = 1 + count_name_run(&chars, pos + 1, false);
            } else if 'A' <= c && c <= 'Z' {
                kind = LexemeKind::TokenName;
                len = 1 + count_name_run(&chars, pos + 1, true);
            } else if c == '"' || c == '\'' {
                match find_quote(&chars, pos + 1, c) {
                    Some(n) => {
                        kind = LexemeKind::Literal;
                        len = n + 2;
                    },
                    None => {
                        return Err(SyntaxError::UnterminatedLiteral { position: pos });
                    },
                }
            } else {
                match punctuation_kind(c) {
                    Some(k) => {
                        kind = k;
                        len = 1;
                    },
                    None => {
                        return Err(SyntaxError::UnexpectedCharacter { position: pos });
                    },
                }
            }
            let text = data.substring_char(pos, pos + len).to_owned();
            let lexeme = Lexeme { kind, text, pos };
            out.push(lexeme);
            assert(lexeme_views(out@) =~= before.push(lexeme@));
            pos += len;
        }
    }
    let ghost before = lexeme_views(out@);
    let end = Lexeme { kind: LexemeKind::End, text: String::new(), pos: chars.len() };
    out.push(end);
    assert(lexeme_views(out@) =~= before.push(end@));
    Ok(out)
}

/// The model of what parsing a node gives.
pub open spec fn parsed_node(r: Result<(Node, usize), SyntaxError>) -> Result<
    (NodeView, nat),
    SyntaxErrorView,
> {
    match r {
        Ok((node, next)) => Ok((node@, next as nat)),
        Err(e) => Err(e@),
    }
}

/// The model of what parsing a list of nodes gives.
pub open spec fn parsed_nodes(r: Result<(Vec<Node>, usize), SyntaxError>) -> Result<
    (Seq<NodeView>, nat),
    SyntaxErrorView,
> {
    match r {
        Ok((nodes, next)) => Ok((node_views(nodes@), next as nat)),
        Err(e) => Err(e@),
    }
}

/// The model of what parsing a grammar gives.
pub open spec fn parsed_grammar(r: Result<Grammar, SyntaxError>) -> Result<
    GrammarView,
    SyntaxErrorView,
> {
    match r {
        Ok(g) => Ok(g@),
        Err(e) => Err(e@),
    }
}

/// The kind of the lexeme at `pos`.
fn kind_of(tokens: &Vec<Lexeme>, pos: usize) -> (k: LexemeKind)
    ensures
        k == kind_at(lexeme_views(tokens@), pos as nat),
{
    if pos < tokens.len() {
        tokens[pos].kind
    } else {
        LexemeKind::End
    }
}

/// What is wrong where the lexeme at `pos` cannot stand.
fn error_at(tokens: &Vec<Lexeme>, pos: usize) -> (e: SyntaxError)
    ensures
        e@ == unexpected(lexeme_views(tokens@), pos as nat),
{
    if pos < tokens.len() {
        if tokens[pos].kind == LexemeKind::End {
            SyntaxError::UnexpectedEnd { position: tokens[pos].pos }
        } else {
            SyntaxError::UnexpectedLexeme { position: tokens[pos].pos }
        }
    } else if tokens.len() > 0 {
        SyntaxError::UnexpectedEnd { position: tokens[tokens.len() - 1].pos }
    } else {
        SyntaxError::UnexpectedEnd { position: 0 }
    }
}

/// The position behind the lexeme at `pos`, which has to be of the given
/// kind.
fn expect_kind(tokens: &Vec<Lexeme>, pos: usize, kind: LexemeKind) -> (r: Result<
    usize,
    SyntaxError,
>)
    ensures
        match r {
            Ok(next) => expect(lexeme_views(tokens@), pos as nat, kind) == Ok::<
                nat,
                SyntaxErrorView,
            >(next as nat) && next == pos + 1 && pos < tokens.len(),
            Err(e) => expect(lexeme_views(tokens@), pos as nat, kind) == Err::<
                nat,
                SyntaxErrorView,
            >(e@),
        },
{
    if pos < tokens.len() && tokens[pos].kind == kind {
        Ok(pos + 1)
    } else {
        Err(error_at(tokens, pos))
    }
}

/// Whether the lexeme at `pos` can begin a part of a rule.
fn can_start_part(tokens: &Vec<Lexeme>, pos: usize) -> (r: bool)
    ensures
        r == starts_part(lexeme_views(tokens@), pos as nat),
{
    if pos < tokens.len() {
        let k = tokens[pos].kind;
        k == LexemeKind::RuleName || k == LexemeKind::TokenName || k == LexemeKind::Literal || k
            == LexemeKind::LParen || k == LexemeKind::LBracket
    } else {
        false
    }
}

/// The node of the parts of a piece.
fn make_sequence(parts: Vec<Node>) -> (n: Node)
    ensures
        n@ == sequence_of(node_views(parts@)),
{
    let mut parts = parts;
    if parts.len() == 1 {
        parts.remove(0)
    } else {
        let n = Node::MultipartBody { nodes: parts };
        proof {
            lemma_children_views(n);
        }
        n
    }
}

/// The node of the pieces of a body.
fn make_choice(pieces: Vec<Node>) -> (n: Node)
    ensures
        n@ == choice_of(node_views(pieces@)),
{
    let mut pieces = pieces;
    if pieces.len() == 1 {
        pieces.remove(0)
    } else {
        let n = Node::Alternatives { nodes: pieces };
        proof {
            lemma_children_views(n);
        }
        n
    }
}

/// Reads an element of a rule at `pos`.
fn read_elem(tokens: &Vec<Lexeme>, pos: usize) -> (r: Result<(Node, usize), SyntaxError>)
    ensures
        parsed_node(r) == parse_elem(lexeme_views(tokens@), pos as nat),
        r matches Ok((_, next)) ==> next <= tokens.len(),
    decreases tokens.len() - pos, 0nat,
{
    if pos >= tokens.len() {
        return Err(error_at(tokens, pos));
    }
    match tokens[pos].kind {
        LexemeKind::RuleName => Ok((Node::RuleRef { name: tokens[pos].text.clone() }, pos + 1)),
        LexemeKind::TokenName => Ok(
            (Node::TokenRef { name: tokens[pos].text.clone(), replaced_lit: None }, pos + 1),
        ),
        LexemeKind::Literal => Ok(
            (Node::TokenLit { literal: tokens[pos].text.clone() }, pos + 1),
        ),
        LexemeKind::LParen => match read_body(tokens, pos + 1) {
            Ok((node, p)) => match expect_kind(tokens, p, LexemeKind::RParen) {
                Ok(q) => Ok((node, q)),
                Err(e) => Err(e),
            },
            Err(e) => Err(e),
        },
        _ => Err(error_at(tokens, pos)),
    }
}

/// Reads a part of a rule at `pos`.
fn read_part(tokens: &Vec<Lexeme>, pos: usize) -> (r: Result<(Node, usize), SyntaxError>)
    ensures
        parsed_node(r) == parse_part(lexeme_views(tokens@), pos as nat),
        r matches Ok((_, next)) ==> next <= tokens.len(),
    decreases tokens.len() - pos, 1nat,
{
    if pos < tokens.len() && tokens[pos].kind == LexemeKind::LBracket {
        match read_body(tokens, pos + 1) {
            Ok((node, p)) => match expect_kind(tokens, p, LexemeKind::RBracket) {
                Ok(q) => Ok((Node::ZeroOrOne { node: Box::new(node), brackets: true }, q)),
                Err(e) => Err(e),
            },
            Err(e) => Err(e),
        }
    } else {
        match read_elem(tokens, pos) {
            Ok((node, p)) => match kind_of(tokens, p) {
                LexemeKind::Star => Ok((Node::ZeroOrMore { node: Box::new(node) }, p + 1)),
                LexemeKind::Plus => Ok((Node::OneOrMore { node: Box::new(node) }, p + 1)),
                LexemeKind::Question => Ok(
                    (Node::ZeroOrOne { node: Box::new(node), brackets: false }, p + 1),
                ),
                _ => Ok((node, p)),
            },
            Err(e) => Err(e),
        }
    }
}

/// Reads the parts of a piece from `pos` on.
fn read_parts(tokens: &Vec<Lexeme>, pos: usize) -> (r: Result<(Vec<Node>, usize), SyntaxError>)
    ensures
        parsed_nodes(r) == parse_parts(lexeme_views(tokens@), pos as nat, Seq::empty()),
        r matches Ok((_, next)) ==> next <= tokens.len(),
    decreases tokens.len() - pos, 2nat,
{
    let ghost t = lexeme_views(tokens@);
    let mut acc: Vec<Node> = Vec::new();
    let mut p: usize = pos;
    assert(node_views(acc@) =~= Seq::<NodeView>::empty());
    loop
        invariant
            t == lexeme_views(tokens@),
            pos <= p,
            p == pos || p <= tokens.len(),
            parse_parts(t, pos as nat, Seq::empty()) == parse_parts(
                t,
                p as nat,
                node_views(acc@),
            ),
        decreases tokens.len() - p,
    {
        let ghost before = node_views(acc@);
        proof {
            lemma_part_progress(t, p as nat);
        }
        match read_part(tokens, p) {
            Ok((node, next)) => {
                acc.push(node);
                assert(node_views(acc@) =~= before.push(node@));
                if can_start_part(tokens, next) {
                    p = next;
                } else {
                    return Ok((acc, next));
                }
            },
            Err(e) => {
                return Err(e);
            },
        }
    }
}

/// Reads a piece of a body at `pos`.
fn read_piece(tokens: &Vec<Lexeme>, pos: usize) -> (r: Result<(Node, usize), SyntaxError>)
    ensures
        parsed_node(r) == parse_piece(lexeme_views(tokens@), pos as nat),
        r matches Ok((_, next)) ==> next <= tokens.len(),
    decreases tokens.len() - pos, 3nat,
{
    if pos < tokens.len() && tokens[pos].kind == LexemeKind::RuleName && pos + 1 < tokens.len()
        && tokens[pos + 1].kind == LexemeKind::Equals {
        match read_parts(tokens, pos + 2) {
            Ok((parts, p)) => Ok(
                (
                    Node::Binding {
                        name: tokens[pos].text.clone(),
                        node: Box::new(make_sequence(parts)),
                    },
                    p,
                ),
            ),
            Err(e) => Err(e),
        }
    } else {
        match read_parts(tokens, pos) {
            Ok((parts, p)) => Ok((make_sequence(parts), p)),
            Err(e) => Err(e),
        }
    }
}

/// Reads a body at `pos`.
fn read_body(tokens: &Vec<Lexeme>, pos: usize) -> (r: Result<(Node, usize), SyntaxError>)
    ensures
        parsed_node(r) == parse_body(lexeme_views(tokens@), pos as nat),
        r matches Ok((_, next)) ==> next <= tokens.len(),
    decreases tokens.len() - pos, 5nat,
{
    let ghost t = lexeme_views(tokens@);
    let mut acc: Vec<Node> = Vec::new();
    let mut p: usize = pos;
    assert(node_views(acc@) =~= Seq::<NodeView>::empty());
    loop
        invariant
            t == lexeme_views(tokens@),
            pos <= p,
            p == pos || p <= tokens.len(),
            parse_pieces(t, pos as nat, Seq::empty()) == parse_pieces(
                t,
                p as nat,
                node_views(acc@),
            ),
        decreases tokens.len() - p,
    {
        let ghost before = node_views(acc@);
        proof {
            lemma_piece_progress(t, p as nat);
        }
        match read_piece(tokens, p) {
            Ok((node, next)) => {
                acc.push(node);
                assert(node_views(acc@) =~= before.push(node@));
                if next < tokens.len() && tokens[next].kind == LexemeKind::Pipe {
                    p = next + 1;
                } else {
                    return Ok((make_choice(acc), next));
                }
            },
            Err(e) => {
                return Err(e);
            },
        }
    }
}

/// The grammar that a list of lexemes spells: the rules in the order in
/// which they stand, each in the list of its kind. Reading stops at the
/// first lexeme that cannot stand where it is.
pub fn parse_lexemes(tokens: &Vec<Lexeme>) -> (r: Result<Grammar, SyntaxError>)
    ensures
        parsed_grammar(r) == lexemes_grammar(lexeme_views(tokens@)),
{
    let ghost t = lexeme_views(tokens@);
    let mut parser_rules: Vec<ParserRule> = Vec::new();
    let mut token_rules: Vec<TokenRule> = Vec::new();
    let mut pos: usize = 0;
    assert(parser_rule_views(parser_rules@) =~= Seq::<ParserRuleView>::empty());
    assert(token_rule_views(token_rules@) =~= Seq::<TokenRuleView>::empty());
    while pos < tokens.len()
        invariant
            t == lexeme_views(tokens@),
            lexemes_grammar(t) == parse_entries(
                t,
                pos as nat,
                GrammarView {
                    parser_rules: parser_rule_views(parser_rules@),
                    token_rules: token_rule_views(token_rules@),
                },
            ),
        decreases tokens.len() - pos,
    {
        let ghost rules_before = parser_rule_views(parser_rules@);
        let ghost tokens_before = token_rule_views(token_rules@);
        match tokens[pos].kind {
            LexemeKind::End => {
                return Ok(Grammar { parser_rules, token_rules });
            },
            LexemeKind::RuleName => {
                let at_body = match expect_kind(tokens, pos + 1, LexemeKind::Colon) {
                    Ok(p) => p,
                    Err(e) => {
                        return Err(e);
                    },
                };
                let (node, at_close) = match read_body(tokens, at_body) {
                    Ok(found) => found,
                    Err(e) => {
                        return Err(e);
                    },
                };
                let at_next = match expect_kind(tokens, at_close, LexemeKind::Semicolon) {
                    Ok(p) => p,
                    Err(e) => {
                        return Err(e);
                    },
                };
                proof {
                    lemma_body_progress(t, at_body as nat);
                }
                let rule = ParserRule { name: tokens[pos].text.clone(), node };
                parser_rules.push(rule);
                assert(parser_rule_views(parser_rules@) =~= rules_before.push(rule@));
                pos = at_next;
            },
            LexemeKind::TokenName => {
                let at_body = match expect_kind(tokens, pos + 1, LexemeKind::Colon) {
                    Ok(p) => p,
                    Err(e) => {
                        return Err(e);
                    },
                };
                let at_close = match expect_kind(tokens, at_body, LexemeKind::Literal) {
                    Ok(p) => p,
                    Err(e) => {
                        return Err(e);
                    },
                };
                let at_next = match expect_kind(tokens, at_close, LexemeKind::Semicolon) {
                    Ok(p) => p,
                    Err(e) => {
                        return Err(e);
                    },
                };
                let rule = TokenRule {
                    name: tokens[pos].text.clone(),
                    literal: Node::TokenLit { literal: tokens[at_body].text.clone() },
                };
                token_rules.push(rule);
                assert(token_rule_views(token_rules@) =~= tokens_before.push(rule@));
                pos = at_next;
            },
            _ => {
                return Err(error_at(tokens, pos));
            },
        }
    }
    Ok(Grammar { parser_rules, token_rules })
}

/// The grammar that a text spells, or what is wrong with the text and
/// where. The literal of every token rule of the grammar is a literal node,
/// so the grammar can go to the pass that binds literals.
pub fn parse_hrpg(data: &str) -> (r: Result<Grammar, SyntaxError>)
    ensures
        parsed_grammar(r) == parse_text(data@),
        r matches Ok(g) ==> token_rules_well_formed(g@),
{
    proof {
        lemma_parsed_well_formed(data@);
    }
    match tokenize(data) {
        Ok(tokens) => parse_lexemes(&tokens),
        Err(e) => Err(e),
    }
}

} // verus!
