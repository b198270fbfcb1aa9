//! What holds of reading for every text.

use crate::ast::{GrammarView, NodeView, ParserRuleView, TokenRuleView};
use crate::syntax::model::{
    expect, in_order, is_lower, is_name_char, is_space, is_upper, kind_at, lex, lex_from, lexeme_at,
    name_run, parse_body, parse_elem, parse_entries, parse_part, parse_parts, parse_piece,
    parse_pieces, parse_text, placed, quote_offset, starts_part,
};
use crate::syntax::{LexemeKind, LexemeView};
use crate::transform::model::token_rules_well_formed;
use vstd::prelude::*;

verus! {

/// How many name characters stand at `pos` and behind it: no more than the
/// text holds from there.
pub proof fn lemma_name_run_fits(s: Seq<char>, pos: nat, upper: bool)
    requires
        pos <= s.len(),
    ensures
        pos + name_run(s, pos, upper) <= s.len(),
    decreases s.len() - pos,
{
    if pos < s.len() && is_name_char(s[pos as int], upper) {
        lemma_name_run_fits(s, pos + 1, upper);
    }
}

/// The next quote stands within the text.
pub proof fn lemma_quote_offset_fits(s: Seq<char>, pos: nat, quote: char)
    requires
        quote_offset(s, pos, quote) is Some,
    ensures
        pos + quote_offset(s, pos, quote)->0 < s.len(),
        s[(pos + quote_offset(s, pos, quote)->0) as int] == quote,
    decreases s.len() - pos,
{
    if pos < s.len() && s[pos as int] != quote {
        lemma_quote_offset_fits(s, pos + 1, quote);
    }
}

/// A lexeme has at least one character and ends within the text.
pub proof fn lemma_lexeme_fits(s: Seq<char>, pos: nat)
    requires
        pos < s.len(),
        lexeme_at(s, pos) is Ok,
    ensures
        0 < lexeme_at(s, pos)->Ok_0.1 <= s.len() - pos,
{
    let c = s[pos as int];
    if is_lower(c) {
        lemma_name_run_fits(s, pos + 1, false);
    } else if is_upper(c) {
        lemma_name_run_fits(s, pos + 1, true);
    } else if c == '"' || c == '\'' {
        lemma_quote_offset_fits(s, pos + 1, c);
    }
}

/// Lexing from `pos` on, behind lexemes that are pieces of the text in
/// order, gives pieces of the text in order, and the end of the text behind
/// them.
pub proof fn lemma_lex_from_in_order(s: Seq<char>, pos: nat, acc: Seq<LexemeView>)
    requires
        pos <= s.len(),
        in_order(s, acc, pos),
    ensures
        lex_from(s, pos, acc) matches Ok(t) ==> {
            &&& t.len() > 0
            &&& t.last() == (LexemeView { kind: LexemeKind::End, text: Seq::empty(), pos: s.len() })
            &&& in_order(s, t.drop_last(), s.len())
        },
    decreases s.len() - pos,
{
    if pos >= s.len() {
        let end = LexemeView { kind: LexemeKind::End, text: Seq::empty(), pos: s.len() };
        assert(acc.push(end).drop_last() =~= acc);
    } else if is_space(s[pos as int]) {
        lemma_lex_from_in_order(s, pos + 1, acc);
    } else {
        match lexeme_at(s, pos) {
            Ok((kind, len)) => {
                lemma_lexeme_fits(s, pos);
                let l = LexemeView {
                    kind,
                    text: s.subrange(pos as int, (pos + len) as int),
                    pos,
                };
                lemma_lexeme_not_end(s, pos);
                assert(placed(s, l));
                let next = acc.push(l);
                assert forall|i: int| 0 <= i < next.len() implies placed(s, #[trigger] next[i]) by {
                    if i < acc.len() {
                        assert(next[i] == acc[i]);
                    }
                }
                assert(in_order(s, next, pos + len));
                lemma_lex_from_in_order(s, pos + len, next);
            },
            Err(_) => {},
        }
    }
}

/// The lexeme that begins at a character is not the end of the text.
pub proof fn lemma_lexeme_not_end(s: Seq<char>, pos: nat)
    requires
        pos < s.len(),
        lexeme_at(s, pos) is Ok,
    ensures
        lexeme_at(s, pos)->Ok_0.0 != LexemeKind::End,
{
}

/// The lexemes of a text are pieces of the text, one behind the other
/// without overlap, and the end of the text behind them.
pub proof fn lemma_lexemes_in_order(s: Seq<char>)
    ensures
        lex(s) matches Ok(t) ==> {
            &&& t.len() > 0
            &&& t.last() == (LexemeView { kind: LexemeKind::End, text: Seq::empty(), pos: s.len() })
            &&& in_order(s, t.drop_last(), s.len())
        },
{
    lemma_lex_from_in_order(s, 0, Seq::empty());
}

/// Whatever is read takes at least one lexeme.
pub proof fn lemma_elem_progress(t: Seq<LexemeView>, pos: nat)
    ensures
        parse_elem(t, pos) matches Ok((_, next)) ==> pos < next <= t.len(),
    decreases t.len() - pos, 0nat,
{
    if pos < t.len() && t[pos as int].kind == LexemeKind::LParen {
        lemma_body_progress(t, pos + 1);
    }
}

/// A part takes at least one lexeme.
pub proof fn lemma_part_progress(t: Seq<LexemeView>, pos: nat)
    ensures
        parse_part(t, pos) matches Ok((_, next)) ==> pos < next <= t.len(),
    decreases t.len() - pos, 1nat,
{
    if pos < t.len() && t[pos as int].kind == LexemeKind::LBracket {
        lemma_body_progress(t, pos + 1);
    } else {
        lemma_elem_progress(t, pos);
    }
}

/// The parts of a piece take at least one lexeme, and there is at least one
/// part more than before.
pub proof fn lemma_parts_progress(t: Seq<LexemeView>, pos: nat, acc: Seq<NodeView>)
    ensures
        parse_parts(t, pos, acc) matches Ok((parts, next)) ==> pos < next <= t.len()
            && parts.len() > acc.len(),
    decreases t.len() - pos, 2nat,
{
    lemma_part_progress(t, pos);
    match parse_part(t, pos) {
        Ok((node, p)) => {
            if p > pos && starts_part(t, p) {
                lemma_parts_progress(t, p, acc.push(node));
            }
        },
        Err(_) => {},
    }
}

/// A piece takes at least one lexeme.
pub proof fn lemma_piece_progress(t: Seq<LexemeView>, pos: nat)
    ensures
        parse_piece(t, pos) matches Ok((_, next)) ==> pos < next <= t.len(),
    decreases t.len() - pos, 3nat,
{
    if kind_at(t, pos) == LexemeKind::RuleName && kind_at(t, pos + 1) == LexemeKind::Equals {
        lemma_parts_progress(t, pos + 2, Seq::empty());
    } else {
        lemma_parts_progress(t, pos, Seq::empty());
    }
}

/// The pieces of a body take at least one lexeme, and there is at least one
/// piece more than before.
pub proof fn lemma_pieces_progress(t: Seq<LexemeView>, pos: nat, acc: Seq<NodeView>)
    ensures
        parse_pieces(t, pos, acc) matches Ok((pieces, next)) ==> pos < next <= t.len()
            && pieces.len() > acc.len(),
    decreases t.len() - pos, 4nat,
{
    lemma_piece_progress(t, pos);
    match parse_piece(t, pos) {
        Ok((node, p)) => {
            if p > pos && p < t.len() && t[p as int].kind == LexemeKind::Pipe {
                lemma_pieces_progress(t, p + 1, acc.push(node));
            }
        },
        Err(_) => {},
    }
}

/// A body takes at least one lexeme.
pub proof fn lemma_body_progress(t: Seq<LexemeView>, pos: nat)
    ensures
        parse_body(t, pos) matches Ok((_, next)) ==> pos < next <= t.len(),
    decreases t.len() - pos, 5nat,
{
    lemma_pieces_progress(t, pos, Seq::empty());
}

/// Reading rules keeps the literal of every token rule a literal node.
pub proof fn lemma_entries_well_formed(t: Seq<LexemeView>, pos: nat, acc: GrammarView)
    requires
        token_rules_well_formed(acc),
    ensures
        parse_entries(t, pos, acc) matches Ok(g) ==> token_rules_well_formed(g),
    decreases t.len() - pos,
{
    if pos < t.len() {
        match t[pos as int].kind {
            LexemeKind::RuleName => match expect(t, pos + 1, LexemeKind::Colon) {
                Ok(at_body) => match parse_body(t, at_body) {
                    Ok((node, at_close)) => match expect(t, at_close, LexemeKind::Semicolon) {
                        Ok(at_next) => {
                            if at_next > pos {
                                lemma_entries_well_formed(
                                    t,
                                    at_next,
                                    GrammarView {
                                        parser_rules: acc.parser_rules.push(
                                            ParserRuleView { name: t[pos as int].text, node },
                                        ),
                                        token_rules: acc.token_rules,
                                    },
                                );
                            }
                        },
                        Err(_) => {},
                    },
                    Err(_) => {},
                },
                Err(_) => {},
            },
            LexemeKind::TokenName => match expect(t, pos + 1, LexemeKind::Colon) {
                Ok(at_body) => match expect(t, at_body, LexemeKind::Literal) {
                    Ok(at_close) => match expect(t, at_close, LexemeKind::Semicolon) {
                        Ok(at_next) => {
                            lemma_entries_well_formed(
                                t,
                                at_next,
                                GrammarView {
                                    parser_rules: acc.parser_rules,
                                    token_rules: acc.token_rules.push(
                                        TokenRuleView {
                                            name: t[pos as int].text,
                                            literal: NodeView::TokenLit {
                                                literal: t[at_body as int].text,
                                            },
                                        },
                                    ),
                                },
                            );
                        },
                        Err(_) => {},
                    },
                    Err(_) => {},
                },
                Err(_) => {},
            },
            _ => {},
        }
    }
}

/// Every grammar that a text spells can go to the pass that binds literals:
/// the literal of each of its token rules is a literal node.
pub proof fn lemma_parsed_well_formed(s: Seq<char>)
    ensures
        parse_text(s) matches Ok(g) ==> token_rules_well_formed(g),
{
    match lex(s) {
        Ok(t) => {
            lemma_entries_well_formed(
                t,
                0,
                GrammarView { parser_rules: Seq::empty(), token_rules: Seq::empty() },
            );
        },
        Err(_) => {},
    }
}

} // verus!
