//! What the pass computes, stated over the models of grammars.

use crate::ast::{GrammarView, NodeView, ParserRuleView, TokenRuleView};
use crate::transform::{EOF, ILLEGAL};
use vstd::prelude::*;

verus! {

/// A string without its first and its last character; empty where it has
/// fewer than two.
pub open spec fn unquoted(s: Seq<char>) -> Seq<char> {
    if s.len() >= 2 {
        s.subrange(1, s.len() - 1)
    } else {
        Seq::empty()
    }
}

/// The token that each literal text names: a later rule for the same text
/// replaces an earlier one. The key is the text without its quotes.
pub open spec fn token_table(rules: Seq<TokenRuleView>) -> Map<Seq<char>, Seq<char>> {
    token_table_upto(rules, rules.len())
}

/// The table of the first `k` token rules.
pub open spec fn token_table_upto(rules: Seq<TokenRuleView>, k: nat) -> Map<Seq<char>, Seq<char>>
    decreases k,
{
    if k == 0 || k > rules.len() {
        Map::empty()
    } else {
        token_table_upto(rules, (k - 1) as nat).insert(
            unquoted(rules[k - 1].literal->literal),
            rules[k - 1].name,
        )
    }
}

/// The literals under a node, as written, from left to right.
pub open spec fn literals_of(n: NodeView) -> Seq<Seq<char>>
    decreases n, 0nat,
{
    match n {
        NodeView::Binding { node, .. } => literals_of(*node),
        NodeView::Alternatives { nodes } => literals_upto(nodes, nodes.len()),
        NodeView::MultipartBody { nodes } => literals_upto(nodes, nodes.len()),
        NodeView::ZeroOrMore { node } => literals_of(*node),
        NodeView::OneOrMore { node } => literals_of(*node),
        NodeView::ZeroOrOne { node, .. } => literals_of(*node),
        NodeView::RuleRef { .. } => Seq::empty(),
        NodeView::TokenRef { .. } => Seq::empty(),
        NodeView::TokenLit { literal } => seq![literal],
    }
}

/// The literals under the first `k` nodes of a list.
pub open spec fn literals_upto(nodes: Seq<NodeView>, k: nat) -> Seq<Seq<char>>
    decreases nodes, k,
{
    if k == 0 || k > nodes.len() {
        Seq::empty()
    } else {
        literals_upto(nodes, (k - 1) as nat) + literals_of(nodes[k - 1])
    }
}

/// The literals under the bodies of the first `k` rules.
pub open spec fn rule_literals(rules: Seq<ParserRuleView>, k: nat) -> Seq<Seq<char>>
    decreases k,
{
    if k == 0 || k > rules.len() {
        Seq::empty()
    } else {
        rule_literals(rules, (k - 1) as nat) + literals_of(rules[k - 1].node)
    }
}

/// The names of the token references under a node, from left to right.
pub open spec fn token_refs_of(n: NodeView) -> Seq<Seq<char>>
    decreases n, 0nat,
{
    match n {
        NodeView::Binding { node, .. } => token_refs_of(*node),
        NodeView::Alternatives { nodes } => token_refs_upto(nodes, nodes.len()),
        NodeView::MultipartBody { nodes } => token_refs_upto(nodes, nodes.len()),
        NodeView::ZeroOrMore { node } => token_refs_of(*node),
        NodeView::OneOrMore { node } => token_refs_of(*node),
        NodeView::ZeroOrOne { node, .. } => token_refs_of(*node),
        NodeView::RuleRef { .. } => Seq::empty(),
        NodeView::TokenRef { name, .. } => seq![name],
        NodeView::TokenLit { .. } => Seq::empty(),
    }
}

/// The names of the token references under the first `k` nodes of a list.
pub open spec fn token_refs_upto(nodes: Seq<NodeView>, k: nat) -> Seq<Seq<char>>
    decreases nodes, k,
{
    if k == 0 || k > nodes.len() {
        Seq::empty()
    } else {
        token_refs_upto(nodes, (k - 1) as nat) + token_refs_of(nodes[k - 1])
    }
}

/// The names of the token references under the bodies of the first `k` rules.
pub open spec fn rule_token_refs(rules: Seq<ParserRuleView>, k: nat) -> Seq<Seq<char>>
    decreases k,
{
    if k == 0 || k > rules.len() {
        Seq::empty()
    } else {
        rule_token_refs(rules, (k - 1) as nat) + token_refs_of(rules[k - 1].node)
    }
}

/// The names of the first `k` token rules.
pub open spec fn token_rule_names(rules: Seq<TokenRuleView>, k: nat) -> Seq<Seq<char>>
    decreases k,
{
    if k == 0 || k > rules.len() {
        Seq::empty()
    } else {
        token_rule_names(rules, (k - 1) as nat).push(rules[k - 1].name)
    }
}

/// Every token name that a grammar mentions, in the order in which the pass
/// meets them: the two reserved names, the names of the token rules, and the
/// token references of the parser rules.
pub open spec fn mentioned_tokens(g: GrammarView) -> Seq<Seq<char>> {
    seq![EOF@, ILLEGAL@] + token_rule_names(g.token_rules, g.token_rules.len())
        + rule_token_refs(g.parser_rules, g.parser_rules.len())
}

/// The members of a list, each once, in the order of their first occurrence.
pub open spec fn first_occurrences(s: Seq<Seq<char>>) -> Seq<Seq<char>>
    decreases s.len(),
{
    if s.len() == 0 {
        Seq::empty()
    } else {
        let before = first_occurrences(s.drop_last());
        if before.contains(s.last()) {
            before
        } else {
            before.push(s.last())
        }
    }
}

/// The first literal of a list that, without its quotes, is `key`.
pub open spec fn first_text(occ: Seq<Seq<char>>, key: Seq<char>) -> Option<Seq<char>>
    decreases occ.len(),
{
    if occ.len() == 0 {
        None
    } else {
        match first_text(occ.drop_last(), key) {
            Some(t) => Some(t),
            None => if unquoted(occ.last()) == key {
                Some(occ.last())
            } else {
                None
            },
        }
    }
}

/// A node with its literals bound: a literal that the table knows becomes a
/// reference to its token, which carries the text of the first literal in
/// `occ` with the same key; any other literal stays as it is.
pub open spec fn resolve_node(
    n: NodeView,
    table: Map<Seq<char>, Seq<char>>,
    occ: Seq<Seq<char>>,
) -> NodeView
    decreases n,
{
    match n {
        NodeView::Binding { name, node } => NodeView::Binding {
            name,
            node: Box::new(resolve_node(*node, table, occ)),
        },
        NodeView::Alternatives { nodes } => NodeView::Alternatives {
            nodes: resolve_all(nodes, table, occ),
        },
        NodeView::MultipartBody { nodes } => NodeView::MultipartBody {
            nodes: resolve_all(nodes, table, occ),
        },
        NodeView::ZeroOrMore { node } => NodeView::ZeroOrMore {
            node: Box::new(resolve_node(*node, table, occ)),
        },
        NodeView::OneOrMore { node } => NodeView::OneOrMore {
            node: Box::new(resolve_node(*node, table, occ)),
        },
        NodeView::ZeroOrOne { node, brackets } => NodeView::ZeroOrOne {
            node: Box::new(resolve_node(*node, table, occ)),
            brackets,
        },
        NodeView::RuleRef { .. } => n,
        NodeView::TokenRef { .. } => n,
        NodeView::TokenLit { literal } => if table.contains_key(unquoted(literal)) {
            NodeView::TokenRef {
                name: table[unquoted(literal)],
                replaced_lit: first_text(occ, unquoted(literal)),
            }
        } else {
            n
        },
    }
}

/// The nodes of a list, each with its literals bound.
pub open spec fn resolve_all(
    nodes: Seq<NodeView>,
    table: Map<Seq<char>, Seq<char>>,
    occ: Seq<Seq<char>>,
) -> Seq<NodeView>
    decreases nodes,
{
    Seq::new(
        nodes.len(),
        |i: int|
            if 0 <= i < nodes.len() {
                resolve_node(nodes[i], table, occ)
            } else {
                arbitrary()
            },
    )
}

/// The rules of a list, each body with its literals bound.
pub open spec fn resolve_rules(
    rules: Seq<ParserRuleView>,
    table: Map<Seq<char>, Seq<char>>,
    occ: Seq<Seq<char>>,
) -> Seq<ParserRuleView> {
    Seq::new(
        rules.len(),
        |i: int|
            ParserRuleView { name: rules[i].name, node: resolve_node(rules[i].node, table, occ) },
    )
}

/// The grammar that the pass returns: the token rules as they are, and the
/// parser rules with every literal bound that a token rule declares.
pub open spec fn resolve_grammar(g: GrammarView) -> GrammarView {
    GrammarView {
        parser_rules: resolve_rules(
            g.parser_rules,
            token_table(g.token_rules),
            rule_literals(g.parser_rules, g.parser_rules.len()),
        ),
        token_rules: g.token_rules,
    }
}

/// The message for a literal that no token rule declares.
pub open spec fn unresolved_message(literal: Seq<char>) -> Seq<char> {
    "Literal "@ + literal + " does not have corresponding rule"@
}

/// One message for each literal of `occ` that the table does not know, in
/// the order of the literals.
pub open spec fn unresolved(occ: Seq<Seq<char>>, table: Map<Seq<char>, Seq<char>>) -> Seq<
    Seq<char>,
>
    decreases occ.len(),
{
    if occ.len() == 0 {
        Seq::empty()
    } else if table.contains_key(unquoted(occ.last())) {
        unresolved(occ.drop_last(), table)
    } else {
        unresolved(occ.drop_last(), table).push(unresolved_message(occ.last()))
    }
}

/// The messages that the pass reports for a grammar.
pub open spec fn grammar_errors(g: GrammarView) -> Seq<Seq<char>> {
    unresolved(rule_literals(g.parser_rules, g.parser_rules.len()), token_table(g.token_rules))
}

/// No literal is left under the node.
pub open spec fn literal_free(n: NodeView) -> bool
    decreases n,
{
    match n {
        NodeView::Binding { node, .. } => literal_free(*node),
        NodeView::Alternatives { nodes } => forall|i: int|
            0 <= i < nodes.len() ==> literal_free(#[trigger] nodes[i]),
        NodeView::MultipartBody { nodes } => forall|i: int|
            0 <= i < nodes.len() ==> literal_free(#[trigger] nodes[i]),
        NodeView::ZeroOrMore { node } => literal_free(*node),
        NodeView::OneOrMore { node } => literal_free(*node),
        NodeView::ZeroOrOne { node, .. } => literal_free(*node),
        NodeView::RuleRef { .. } => true,
        NodeView::TokenRef { .. } => true,
        NodeView::TokenLit { .. } => false,
    }
}

/// No literal is left under any parser rule of the grammar.
pub open spec fn is_resolved(g: GrammarView) -> bool {
    forall|i: int| 0 <= i < g.parser_rules.len() ==> literal_free(#[trigger] g.parser_rules[i].node)
}

/// The literal of every token rule is a literal node.
pub open spec fn token_rules_well_formed(g: GrammarView) -> bool {
    forall|i: int|
        0 <= i < g.token_rules.len() ==> (#[trigger] g.token_rules[i]).literal is TokenLit
}

/// Every literal under the node has a literal with the same key in `occ`.
pub open spec fn covered(n: NodeView, occ: Seq<Seq<char>>) -> bool
    decreases n,
{
    match n {
        NodeView::Binding { node, .. } => covered(*node, occ),
        NodeView::Alternatives { nodes } => forall|i: int|
            0 <= i < nodes.len() ==> covered(#[trigger] nodes[i], occ),
        NodeView::MultipartBody { nodes } => forall|i: int|
            0 <= i < nodes.len() ==> covered(#[trigger] nodes[i], occ),
        NodeView::ZeroOrMore { node } => covered(*node, occ),
        NodeView::OneOrMore { node } => covered(*node, occ),
        NodeView::ZeroOrOne { node, .. } => covered(*node, occ),
        NodeView::RuleRef { .. } => true,
        NodeView::TokenRef { .. } => true,
        NodeView::TokenLit { literal } => first_text(occ, unquoted(literal)) is Some,
    }
}

} // verus!
