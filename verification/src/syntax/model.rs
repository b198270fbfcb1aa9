//! What reading a grammar computes, stated over sequences of characters.

use crate::ast::{GrammarView, NodeView, ParserRuleView, TokenRuleView};
use crate::syntax::{LexemeKind, LexemeView, SyntaxErrorView};
use vstd::prelude::*;

verus! {

/// A blank between lexemes.
pub open spec fn is_space(c: char) -> bool {
    c == ' ' || c == '\t' || c == '\n' || c == '\r'
}

/// A lower-case letter of the Latin alphabet.
pub open spec fn is_lower(c: char) -> bool {
    'a' <= c <= 'z'
}

/// An upper-case letter of the Latin alphabet.
pub open spec fn is_upper(c: char) -> bool {
    'A' <= c <= 'Z'
}

/// A character that may follow the first of a name: a letter of the name's
/// case, a digit or an underscore.
pub open spec fn is_name_char(c: char, upper: bool) -> bool {
    ||| (upper && is_upper(c))
    ||| (!upper && is_lower(c))
    ||| '0' <= c <= '9'
    ||| c == '_'
}

/// The kind of the lexeme that is the character `c` alone.
pub open spec fn punctuation(c: char) -> Option<LexemeKind> {
    if c == ':' {
        Some(LexemeKind::Colon)
    } else if c == ';' {
        Some(LexemeKind::Semicolon)
    } else if c == '|' {
        Some(LexemeKind::Pipe)
    } else if c == '=' {
        Some(LexemeKind::Equals)
    } else if c == '*' {
        Some(LexemeKind::Star)
    } else if c == '+' {
        Some(LexemeKind::Plus)
    } else if c == '?' {
        Some(LexemeKind::Question)
    } else if c == '[' {
        Some(LexemeKind::LBracket)
    } else if c == ']' {
        Some(LexemeKind::RBracket)
    } else if c == '(' {
        Some(LexemeKind::LParen)
    } else if c == ')' {
        Some(LexemeKind::RParen)
    } else {
        None
    }
}

/// How many name characters stand at `pos` and behind it without a gap.
pub open spec fn name_run(s: Seq<char>, pos: nat, upper: bool) -> nat
    decreases s.len() - pos,
{
    if pos < s.len() && is_name_char(s[pos as int], upper) {
        1 + name_run(s, pos + 1, upper)
    } else {
        0
    }
}

/// How many characters stand between `pos` and the next `quote` at or
/// behind `pos`, if there is one.
pub open spec fn quote_offset(s: Seq<char>, pos: nat, quote: char) -> Option<nat>
    decreases s.len() - pos,
{
    if pos >= s.len() {
        None
    } else if s[pos as int] == quote {
        Some(0nat)
    } else {
        match quote_offset(s, pos + 1, quote) {
            Some(n) => Some(n + 1),
            None => None,
        }
    }
}

/// The length of the lexeme that begins at `pos` with a character that is no
/// blank, and its kind; or what is wrong there.
pub open spec fn lexeme_at(s: Seq<char>, pos: nat) -> Result<(LexemeKind, nat), SyntaxErrorView> {
    let c = s[pos as int];
    if is_lower(c) {
        Ok((LexemeKind::RuleName, 1 + name_run(s, pos + 1, false)))
    } else if is_upper(c) {
        Ok((LexemeKind::TokenName, 1 + name_run(s, pos + 1, true)))
    } else if c == '"' || c == '\'' {
        match quote_offset(s, pos + 1, c) {
            Some(n) => Ok((LexemeKind::Literal, n + 2)),
            None => Err(SyntaxErrorView::UnterminatedLiteral { position: pos }),
        }
    } else {
        match punctuation(c) {
            Some(kind) => Ok((kind, 1nat)),
            None => Err(SyntaxErrorView::UnexpectedCharacter { position: pos }),
        }
    }
}

/// The lexemes of `s` from `pos` on, behind those of `acc`; the last is the
/// end of the text. (A lexeme has at least one character and ends within the
/// text, so the test on its length never fails.)
pub open spec fn lex_from(s: Seq<char>, pos: nat, acc: Seq<LexemeView>) -> Result<
    Seq<LexemeView>,
    SyntaxErrorView,
>
    decreases s.len() - pos,
{
    if pos >= s.len() {
        Ok(acc.push(LexemeView { kind: LexemeKind::End, text: Seq::empty(), pos: s.len() }))
    } else if is_space(s[pos as int]) {
        lex_from(s, pos + 1, acc)
    } else {
        match lexeme_at(s, pos) {
            Ok((kind, len)) => if 0 < len <= s.len() - pos {
                lex_from(
                    s,
                    pos + len,
                    acc.push(
                        LexemeView { kind, text: s.subrange(pos as int, (pos + len) as int), pos },
                    ),
                )
            } else {
                Err(SyntaxErrorView::UnexpectedEnd { position: s.len() })
            },
            Err(e) => Err(e),
        }
    }
}

/// The lexemes of a text.
pub open spec fn lex(s: Seq<char>) -> Result<Seq<LexemeView>, SyntaxErrorView> {
    lex_from(s, 0, Seq::empty())
}

/// A lexeme that is a piece of the text: it is not the end, it has at least
/// one character, and its text is what stands in `s` at its position.
pub open spec fn placed(s: Seq<char>, l: LexemeView) -> bool {
    &&& l.kind != LexemeKind::End
    &&& l.text.len() > 0
    &&& l.pos + l.text.len() <= s.len()
    &&& l.text == s.subrange(l.pos as int, (l.pos + l.text.len()) as int)
}

/// Lexemes that are pieces of the text, one behind the other without
/// overlap, the last of them ending at `upto` or before it.
pub open spec fn in_order(s: Seq<char>, t: Seq<LexemeView>, upto: nat) -> bool {
    &&& forall|i: int| 0 <= i < t.len() ==> placed(s, #[trigger] t[i])
    &&& forall|i: int, j: int|
        0 <= i < j < t.len() ==> (#[trigger] t[i]).pos + t[i].text.len() <= (#[trigger] t[j]).pos
    &&& forall|i: int| 0 <= i < t.len() ==> (#[trigger] t[i]).pos + t[i].text.len() <= upto
}

/// The kind of the lexeme at `pos`; behind the last lexeme, the end of the
/// text.
pub open spec fn kind_at(t: Seq<LexemeView>, pos: nat) -> LexemeKind {
    if pos < t.len() {
        t[pos as int].kind
    } else {
        LexemeKind::End
    }
}

/// What is wrong where the lexeme at `pos` cannot stand.
pub open spec fn unexpected(t: Seq<LexemeView>, pos: nat) -> SyntaxErrorView {
    if pos < t.len() {
        if t[pos as int].kind == LexemeKind::End {
            SyntaxErrorView::UnexpectedEnd { position: t[pos as int].pos }
        } else {
            SyntaxErrorView::UnexpectedLexeme { position: t[pos as int].pos }
        }
    } else if t.len() > 0 {
        SyntaxErrorView::UnexpectedEnd { position: t.last().pos }
    } else {
        SyntaxErrorView::UnexpectedEnd { position: 0 }
    }
}

/// The position behind the lexeme at `pos`, which has to be of the given
/// kind.
pub open spec fn expect(t: Seq<LexemeView>, pos: nat, kind: LexemeKind) -> Result<
    nat,
    SyntaxErrorView,
> {
    if pos < t.len() && t[pos as int].kind == kind {
        Ok(pos + 1)
    } else {
        Err(unexpected(t, pos))
    }
}

/// Whether the lexeme at `pos` can begin a part of a rule.
pub open spec fn starts_part(t: Seq<LexemeView>, pos: nat) -> bool {
    pos < t.len() && (t[pos as int].kind == LexemeKind::RuleName || t[pos as int].kind
        == LexemeKind::TokenName || t[pos as int].kind == LexemeKind::Literal || t[pos as int].kind
        == LexemeKind::LParen || t[pos as int].kind == LexemeKind::LBracket)
}

/// The node of the parts of a piece: one part stands for itself, several
/// are a sequence.
pub open spec fn sequence_of(parts: Seq<NodeView>) -> NodeView {
    if parts.len() == 1 {
        parts[0]
    } else {
        NodeView::MultipartBody { nodes: parts }
    }
}

/// The node of the pieces of a body: one piece stands for itself, several
/// are a choice.
pub open spec fn choice_of(pieces: Seq<NodeView>) -> NodeView {
    if pieces.len() == 1 {
        pieces[0]
    } else {
        NodeView::Alternatives { nodes: pieces }
    }
}

/// `rule_elem`: a name, a literal, or a body in parentheses.
pub open spec fn parse_elem(t: Seq<LexemeView>, pos: nat) -> Result<
    (NodeView, nat),
    SyntaxErrorView,
>
    decreases t.len() - pos, 0nat,
{
    if pos >= t.len() {
        Err(unexpected(t, pos))
    } else {
        match t[pos as int].kind {
            LexemeKind::RuleName => Ok((NodeView::RuleRef { name: t[pos as int].text }, pos + 1)),
            LexemeKind::TokenName => Ok(
                (NodeView::TokenRef { name: t[pos as int].text, replaced_lit: None }, pos + 1),
            ),
            LexemeKind::Literal => Ok(
                (NodeView::TokenLit { literal: t[pos as int].text }, pos + 1),
            ),
            LexemeKind::LParen => match parse_body(t, pos + 1) {
                Ok((node, p)) => match expect(t, p, LexemeKind::RParen) {
                    Ok(q) => Ok((node, q)),
                    Err(e) => Err(e),
                },
                Err(e) => Err(e),
            },
            _ => Err(unexpected(t, pos)),
        }
    }
}

/// `rule_part`: an element with a quantifier behind it or without, or a
/// body in brackets.
pub open spec fn parse_part(t: Seq<LexemeView>, pos: nat) -> Result<
    (NodeView, nat),
    SyntaxErrorView,
>
    decreases t.len() - pos, 1nat,
{
    if pos < t.len() && t[pos as int].kind == LexemeKind::LBracket {
        match parse_body(t, pos + 1) {
            Ok((node, p)) => match expect(t, p, LexemeKind::RBracket) {
                Ok(q) => Ok((NodeView::ZeroOrOne { node: Box::new(node), brackets: true }, q)),
                Err(e) => Err(e),
            },
            Err(e) => Err(e),
        }
    } else {
        match parse_elem(t, pos) {
            Ok((node, p)) => match kind_at(t, p) {
                LexemeKind::Star => Ok((NodeView::ZeroOrMore { node: Box::new(node) }, p + 1)),
                LexemeKind::Plus => Ok((NodeView::OneOrMore { node: Box::new(node) }, p + 1)),
                LexemeKind::Question => Ok(
                    (NodeView::ZeroOrOne { node: Box::new(node), brackets: false }, p + 1),
                ),
                _ => Ok((node, p)),
            },
            Err(e) => Err(e),
        }
    }
}

/// `rule_part+`, behind the parts of `acc`: parts are taken as long as the
/// next lexeme can begin one. (A part holds at least one lexeme, so the test
/// on the position never fails.)
pub open spec fn parse_parts(t: Seq<LexemeView>, pos: nat, acc: Seq<NodeView>) -> Result<
    (Seq<NodeView>, nat),
    SyntaxErrorView,
>
    decreases t.len() - pos, 2nat,
{
    match parse_part(t, pos) {
        Ok((node, p)) => if p > pos && starts_part(t, p) {
            parse_parts(t, p, acc.push(node))
        } else {
            Ok((acc.push(node), p))
        },
        Err(e) => Err(e),
    }
}

/// `rule_piece`: parts, with the name of a binding and `=` before them or
/// without.
pub open spec fn parse_piece(t: Seq<LexemeView>, pos: nat) -> Result<
    (NodeView, nat),
    SyntaxErrorView,
>
    decreases t.len() - pos, 3nat,
{
    if kind_at(t, pos) == LexemeKind::RuleName && kind_at(t, pos + 1) == LexemeKind::Equals {
        match parse_parts(t, pos + 2, Seq::empty()) {
            Ok((parts, p)) => Ok(
                (
                    NodeView::Binding {
                        name: t[pos as int].text,
                        node: Box::new(sequence_of(parts)),
                    },
                    p,
                ),
            ),
            Err(e) => Err(e),
        }
    } else {
        match parse_parts(t, pos, Seq::empty()) {
            Ok((parts, p)) => Ok((sequence_of(parts), p)),
            Err(e) => Err(e),
        }
    }
}

/// The pieces of a body, behind those of `acc`: pieces are taken as long as
/// a `|` follows.
pub open spec fn parse_pieces(t: Seq<LexemeView>, pos: nat, acc: Seq<NodeView>) -> Result<
    (Seq<NodeView>, nat),
    SyntaxErrorView,
>
    decreases t.len() - pos, 4nat,
{
    match parse_piece(t, pos) {
        Ok((node, p)) => if p > pos && p < t.len() && t[p as int].kind == LexemeKind::Pipe {
            parse_pieces(t, p + 1, acc.push(node))
        } else {
            Ok((acc.push(node), p))
        },
        Err(e) => Err(e),
    }
}

/// `rule_body`: pieces with `|` between them.
pub open spec fn parse_body(t: Seq<LexemeView>, pos: nat) -> Result<
    (NodeView, nat),
    SyntaxErrorView,
>
    decreases t.len() - pos, 5nat,
{
    match parse_pieces(t, pos, Seq::empty()) {
        Ok((pieces, p)) => Ok((choice_of(pieces), p)),
        Err(e) => Err(e),
    }
}

/// The rules from `pos` on, behind those of `acc`, up to the end of the
/// text: each rule goes to the list of its kind.
pub open spec fn parse_entries(t: Seq<LexemeView>, pos: nat, acc: GrammarView) -> Result<
    GrammarView,
    SyntaxErrorView,
>
    decreases t.len() - pos,
{
    if pos >= t.len() {
        Ok(acc)
    } else {
        match t[pos as int].kind {
            LexemeKind::End => Ok(acc),
            LexemeKind::RuleName => match expect(t, pos + 1, LexemeKind::Colon) {
                Ok(at_body) => match parse_body(t, at_body) {
                    Ok((node, at_close)) => match expect(t, at_close, LexemeKind::Semicolon) {
                        Ok(at_next) => if at_next > pos {
                            parse_entries(
                                t,
                                at_next,
                                GrammarView {
                                    parser_rules: acc.parser_rules.push(
                                        ParserRuleView { name: t[pos as int].text, node },
                                    ),
                                    token_rules: acc.token_rules,
                                },
                            )
                        } else {
                            Err(unexpected(t, pos))
                        },
                        Err(e) => Err(e),
                    },
                    Err(e) => Err(e),
                },
                Err(e) => Err(e),
            },
            LexemeKind::TokenName => match expect(t, pos + 1, LexemeKind::Colon) {
                Ok(at_body) => match expect(t, at_body, LexemeKind::Literal) {
                    Ok(at_close) => match expect(t, at_close, LexemeKind::Semicolon) {
                        Ok(at_next) => parse_entries(
                            t,
                            at_next,
                            GrammarView {
                                parser_rules: acc.parser_rules,
                                token_rules: acc.token_rules.push(
                                    TokenRuleView {
                                        name: t[pos as int].text,
                                        literal: NodeView::TokenLit {
                                            literal: t[at_body as int].text,
                                        },
                                    },
                                ),
                            },
                        ),
                        Err(e) => Err(e),
                    },
                    Err(e) => Err(e),
                },
                Err(e) => Err(e),
            },
            _ => Err(unexpected(t, pos)),
        }
    }
}

/// The grammar that a list of lexemes spells.
pub open spec fn lexemes_grammar(t: Seq<LexemeView>) -> Result<GrammarView, SyntaxErrorView> {
    parse_entries(
        t,
        0,
        GrammarView { parser_rules: Seq::empty(), token_rules: Seq::empty() },
    )
}

/// The grammar that a text spells.
pub open spec fn parse_text(s: Seq<char>) -> Result<GrammarView, SyntaxErrorView> {
    match lex(s) {
        Ok(t) => lexemes_grammar(t),
        Err(e) => Err(e),
    }
}

} // verus!
