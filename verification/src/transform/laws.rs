//! What holds of the pass for every grammar.

use crate::ast::{GrammarView, NodeView, ParserRuleView};
use crate::transform::model::{
    covered, first_occurrences, first_text, grammar_errors, is_resolved, literal_free,
    literals_of, literals_upto, mentioned_tokens, resolve_all, resolve_grammar, resolve_node,
    resolve_rules, rule_literals, token_table, unquoted, unresolved,
};
use crate::transform::{EOF, ILLEGAL};
use vstd::prelude::*;

verus! {

/// One more literal changes the first text of a key only where the key had
/// none.
pub proof fn lemma_first_text_push(occ: Seq<Seq<char>>, lit: Seq<char>, key: Seq<char>)
    ensures
        first_text(occ.push(lit), key) == match first_text(occ, key) {
            Some(t) => Some(t),
            None => if unquoted(lit) == key {
                Some(lit)
            } else {
                None
            },
        },
{
    assert(occ.push(lit).drop_last() =~= occ);
}

/// Literals that follow do not change a first text that is there.
pub proof fn lemma_first_text_append(a: Seq<Seq<char>>, b: Seq<Seq<char>>, key: Seq<char>)
    requires
        first_text(a, key) is Some,
    ensures
        first_text(a + b, key) == first_text(a, key),
    decreases b.len(),
{
    if b.len() == 0 {
        assert(a + b =~= a);
    } else {
        lemma_first_text_append(a, b.drop_last(), key);
        assert((a + b).drop_last() =~= a + b.drop_last());
    }
}

/// Literals that follow leave a covered node covered.
pub proof fn lemma_covered_append(n: NodeView, a: Seq<Seq<char>>, b: Seq<Seq<char>>)
    requires
        covered(n, a),
    ensures
        covered(n, a + b),
    decreases n,
{
    match n {
        NodeView::Binding { node, .. } => lemma_covered_append(*node, a, b),
        NodeView::Alternatives { nodes } => {
            assert forall|i: int| 0 <= i < nodes.len() implies covered(
                #[trigger] nodes[i],
                a + b,
            ) by {
                lemma_covered_append(nodes[i], a, b);
            }
        },
        NodeView::MultipartBody { nodes } => {
            assert forall|i: int| 0 <= i < nodes.len() implies covered(
                #[trigger] nodes[i],
                a + b,
            ) by {
                lemma_covered_append(nodes[i], a, b);
            }
        },
        NodeView::ZeroOrMore { node } => lemma_covered_append(*node, a, b),
        NodeView::OneOrMore { node } => lemma_covered_append(*node, a, b),
        NodeView::ZeroOrOne { node, .. } => lemma_covered_append(*node, a, b),
        NodeView::RuleRef { .. } => {},
        NodeView::TokenRef { .. } => {},
        NodeView::TokenLit { literal } => lemma_first_text_append(a, b, unquoted(literal)),
    }
}

/// Literals that follow do not change how a covered node is bound.
pub proof fn lemma_resolve_stable(
    n: NodeView,
    table: Map<Seq<char>, Seq<char>>,
    a: Seq<Seq<char>>,
    b: Seq<Seq<char>>,
)
    requires
        covered(n, a),
    ensures
        resolve_node(n, table, a + b) == resolve_node(n, table, a),
    decreases n,
{
    match n {
        NodeView::Binding { node, .. } => lemma_resolve_stable(*node, table, a, b),
        NodeView::Alternatives { nodes } => {
            assert forall|i: int| 0 <= i < nodes.len() implies resolve_node(nodes[i], table, a + b)
                == resolve_node(nodes[i], table, a) by {
                lemma_resolve_stable(nodes[i], table, a, b);
            }
            assert(resolve_all(nodes, table, a + b) =~= resolve_all(nodes, table, a));
        },
        NodeView::MultipartBody { nodes } => {
            assert forall|i: int| 0 <= i < nodes.len() implies resolve_node(nodes[i], table, a + b)
                == resolve_node(nodes[i], table, a) by {
                lemma_resolve_stable(nodes[i], table, a, b);
            }
            assert(resolve_all(nodes, table, a + b) =~= resolve_all(nodes, table, a));
        },
        NodeView::ZeroOrMore { node } => lemma_resolve_stable(*node, table, a, b),
        NodeView::OneOrMore { node } => lemma_resolve_stable(*node, table, a, b),
        NodeView::ZeroOrOne { node, .. } => lemma_resolve_stable(*node, table, a, b),
        NodeView::RuleRef { .. } => {},
        NodeView::TokenRef { .. } => {},
        NodeView::TokenLit { literal } => lemma_first_text_append(a, b, unquoted(literal)),
    }
}

/// The messages for two lists of literals, one after the other.
pub proof fn lemma_unresolved_append(
    a: Seq<Seq<char>>,
    b: Seq<Seq<char>>,
    table: Map<Seq<char>, Seq<char>>,
)
    ensures
        unresolved(a + b, table) == unresolved(a, table) + unresolved(b, table),
    decreases b.len(),
{
    if b.len() == 0 {
        assert(a + b =~= a);
        assert(unresolved(a, table) + unresolved(b, table) =~= unresolved(a, table));
    } else {
        lemma_unresolved_append(a, b.drop_last(), table);
        assert((a + b).drop_last() =~= a + b.drop_last());
        assert((a + b).last() == b.last());
        assert(unresolved(a + b, table) =~= unresolved(a, table) + unresolved(b, table));
    }
}

/// A node gives no message exactly when binding it leaves no literal.
pub proof fn lemma_node_errors(
    n: NodeView,
    table: Map<Seq<char>, Seq<char>>,
    occ: Seq<Seq<char>>,
)
    ensures
        unresolved(literals_of(n), table).len() == 0 <==> literal_free(
            resolve_node(n, table, occ),
        ),
    decreases n, 0nat,
{
    match n {
        NodeView::Binding { node, .. } => lemma_node_errors(*node, table, occ),
        NodeView::Alternatives { nodes } => {
            lemma_nodes_errors(nodes, nodes.len(), table, occ);
            assert(resolve_node(n, table, occ)->Alternatives_nodes == resolve_all(
                nodes,
                table,
                occ,
            ));
        },
        NodeView::MultipartBody { nodes } => {
            lemma_nodes_errors(nodes, nodes.len(), table, occ);
            assert(resolve_node(n, table, occ)->MultipartBody_nodes == resolve_all(
                nodes,
                table,
                occ,
            ));
        },
        NodeView::ZeroOrMore { node } => lemma_node_errors(*node, table, occ),
        NodeView::OneOrMore { node } => lemma_node_errors(*node, table, occ),
        NodeView::ZeroOrOne { node, .. } => lemma_node_errors(*node, table, occ),
        NodeView::RuleRef { .. } => {},
        NodeView::TokenRef { .. } => {},
        NodeView::TokenLit { literal } => {
            assert(seq![literal].drop_last() =~= Seq::<Seq<char>>::empty());
            assert(unresolved(Seq::<Seq<char>>::empty(), table).len() == 0);
        },
    }
}

/// The first `k` nodes of a list give no message exactly when binding them
/// leaves no literal.
pub proof fn lemma_nodes_errors(
    nodes: Seq<NodeView>,
    k: nat,
    table: Map<Seq<char>, Seq<char>>,
    occ: Seq<Seq<char>>,
)
    requires
        k <= nodes.len(),
    ensures
        unresolved(literals_upto(nodes, k), table).len() == 0 <==> (forall|i: int|
            0 <= i < k ==> literal_free(#[trigger] resolve_all(nodes, table, occ)[i])),
    decreases nodes, k,
{
    if k > 0 {
        lemma_nodes_errors(nodes, (k - 1) as nat, table, occ);
        lemma_node_errors(nodes[k - 1], table, occ);
        lemma_unresolved_append(
            literals_upto(nodes, (k - 1) as nat),
            literals_of(nodes[k - 1]),
            table,
        );
        let bound = resolve_all(nodes, table, occ);
        assert(bound[k - 1] == resolve_node(nodes[k - 1], table, occ));
        if unresolved(literals_upto(nodes, k), table).len() == 0 {
            assert forall|i: int| 0 <= i < k implies literal_free(#[trigger] bound[i]) by {
                if i < k - 1 {
                }
            }
        }
        if forall|i: int| 0 <= i < k ==> literal_free(#[trigger] bound[i]) {
            assert(literal_free(bound[k - 1]));
        }
    }
}

/// The first `k` rules give no message exactly when binding them leaves no
/// literal.
pub proof fn lemma_rules_errors(
    rules: Seq<ParserRuleView>,
    k: nat,
    table: Map<Seq<char>, Seq<char>>,
    occ: Seq<Seq<char>>,
)
    requires
        k <= rules.len(),
    ensures
        unresolved(rule_literals(rules, k), table).len() == 0 <==> (forall|i: int|
            0 <= i < k ==> literal_free(#[trigger] resolve_rules(rules, table, occ)[i].node)),
    decreases k,
{
    if k > 0 {
        lemma_rules_errors(rules, (k - 1) as nat, table, occ);
        lemma_node_errors(rules[k - 1].node, table, occ);
        lemma_unresolved_append(
            rule_literals(rules, (k - 1) as nat),
            literals_of(rules[k - 1].node),
            table,
        );
        let bound = resolve_rules(rules, table, occ);
        assert(bound[k - 1].node == resolve_node(rules[k - 1].node, table, occ));
        if unresolved(rule_literals(rules, k), table).len() == 0 {
            assert forall|i: int| 0 <= i < k implies literal_free(#[trigger] bound[i].node) by {
                if i < k - 1 {
                }
            }
        }
        if forall|i: int| 0 <= i < k ==> literal_free(#[trigger] bound[i].node) {
            assert(literal_free(bound[k - 1].node));
        }
    }
}

/// The pass reports no message exactly when no literal is left under any
/// parser rule of the grammar that it returns.
pub proof fn lemma_no_errors_iff_resolved(g: GrammarView)
    ensures
        grammar_errors(g).len() == 0 <==> is_resolved(resolve_grammar(g)),
{
    lemma_rules_errors(
        g.parser_rules,
        g.parser_rules.len(),
        token_table(g.token_rules),
        rule_literals(g.parser_rules, g.parser_rules.len()),
    );
}

/// Two literals with the same key are bound to the same reference, however
/// they are quoted.
pub proof fn lemma_same_key_same_reference(
    first: Seq<char>,
    second: Seq<char>,
    table: Map<Seq<char>, Seq<char>>,
    occ: Seq<Seq<char>>,
)
    requires
        unquoted(first) == unquoted(second),
        table.contains_key(unquoted(first)),
    ensures
        resolve_node(NodeView::TokenLit { literal: first }, table, occ) == resolve_node(
            NodeView::TokenLit { literal: second },
            table,
            occ,
        ),
        resolve_node(NodeView::TokenLit { literal: first }, table, occ) is TokenRef,
{
}

/// A literal that stands among the literals read has a first text for its
/// key, so the reference that it is bound to carries a text.
pub proof fn lemma_first_text_of_member(occ: Seq<Seq<char>>, i: int)
    requires
        0 <= i < occ.len(),
    ensures
        first_text(occ, unquoted(occ[i])) is Some,
        unquoted(first_text(occ, unquoted(occ[i]))->0) == unquoted(occ[i]),
    decreases occ.len(),
{
    if i < occ.len() - 1 {
        lemma_first_text_of_member(occ.drop_last(), i);
    } else {
        lemma_first_text_key(occ.drop_last(), unquoted(occ[i]));
    }
}

/// The first text for a key has that key.
pub proof fn lemma_first_text_key(occ: Seq<Seq<char>>, key: Seq<char>)
    ensures
        first_text(occ, key) matches Some(t) ==> unquoted(t) == key,
    decreases occ.len(),
{
    if occ.len() > 0 {
        lemma_first_text_key(occ.drop_last(), key);
    }
}

/// There are as many messages as there are literals that the table does not
/// know: one for each occurrence.
pub proof fn lemma_unresolved_count(occ: Seq<Seq<char>>, table: Map<Seq<char>, Seq<char>>)
    ensures
        unresolved(occ, table).len() == occ.filter(
            |l: Seq<char>| !table.contains_key(unquoted(l)),
        ).len(),
    decreases occ.len(),
{
    reveal(Seq::filter);
    if occ.len() > 0 {
        lemma_unresolved_count(occ.drop_last(), table);
    }
}

/// Taking first occurrences keeps every member and repeats none.
pub proof fn lemma_first_occurrences(s: Seq<Seq<char>>)
    ensures
        first_occurrences(s).no_duplicates(),
        forall|x: Seq<char>| first_occurrences(s).contains(x) <==> s.contains(x),
    decreases s.len(),
{
    if s.len() > 0 {
        let head = s.drop_last();
        let before = first_occurrences(head);
        let after = first_occurrences(s);
        lemma_first_occurrences(head);
        assert(head.contains(s.last()) <==> before.contains(s.last()));
        assert forall|x: Seq<char>| after.contains(x) <==> s.contains(x) by {
            assert(head.contains(x) <==> before.contains(x));
            if s.contains(x) {
                let i = choose|i: int| 0 <= i < s.len() && s[i] == x;
                if i < s.len() - 1 {
                    assert(head[i] == x);
                    let j = choose|j: int| 0 <= j < before.len() && before[j] == x;
                    assert(after[j] == x);
                } else if !before.contains(s.last()) {
                    assert(after[before.len() as int] == x);
                } else {
                    assert(after == before);
                }
            }
            if after.contains(x) {
                let j = choose|j: int| 0 <= j < after.len() && after[j] == x;
                if j < before.len() {
                    assert(before[j] == x);
                    let i = choose|i: int| 0 <= i < head.len() && head[i] == x;
                    assert(s[i] == x);
                } else {
                    assert(s[s.len() - 1] == x);
                }
            }
        }
    }
}

/// The token names of every grammar hold the two reserved names.
pub proof fn lemma_reserved_tokens(g: GrammarView)
    ensures
        first_occurrences(mentioned_tokens(g)).contains(EOF@),
        first_occurrences(mentioned_tokens(g)).contains(ILLEGAL@),
{
    lemma_first_occurrences(mentioned_tokens(g));
    assert(mentioned_tokens(g)[0] == EOF@);
    assert(mentioned_tokens(g)[1] == ILLEGAL@);
    assert(mentioned_tokens(g).contains(EOF@));
    assert(mentioned_tokens(g).contains(ILLEGAL@));
}

} // verus!
