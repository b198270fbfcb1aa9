//! What holds of lowering for every grammar.

use crate::ast::{render, render_rule, GrammarView, NodeView, ParserRuleView};
use crate::case::cased;
use crate::parser_gen::model::{
    bindings_under, bindings_upto, call_action, generated, is_reference, lower_func,
    lower_grammar, lower_node, lower_parts, lower_rule, lower_split, numbered_subs,
    numbered_subs_upto, numbers_from, plain_name, root_of,
};
use crate::parser_gen::{
    cell_kind, Cases, FuncDataView, FunctionView, MatchKind, MatchRuleView, ParserSpecView,
};
use crate::transform::model::resolve_grammar;
use vstd::prelude::*;

verus! {

/// Lowering changes the next free number by the count of the functions
/// split off.
pub proof fn lemma_lower_node_counter(
    cases: Cases,
    node: NodeView,
    ctx: FuncDataView,
    comment: Seq<char>,
    kind: MatchKind,
    top: bool,
    counter: nat,
)
    ensures
        lower_node(cases, node, ctx, comment, kind, top, counter).counter == counter
            + numbered_subs(node, top),
    decreases node, (if top { 0nat } else { 3nat }),
{
    match node {
        NodeView::Binding { name, node: inner } => {
            let sub = FuncDataView { sub_name: Some(name), ..ctx };
            lemma_lower_node_counter(
                cases,
                *inner,
                sub,
                render(node),
                MatchKind::Once,
                true,
                counter,
            );
            assert(lower_func(cases, sub, *inner, render(node), counter).counter == counter
                + numbered_subs(*inner, true));
        },
        NodeView::Alternatives { nodes } => {
            if top {
                lemma_lower_parts_counter(
                    cases,
                    nodes,
                    nodes.len(),
                    ctx,
                    MatchKind::ZeroOrOnce,
                    counter,
                );
            } else {
                let sub = FuncDataView { sub_num: Some(counter), ..ctx };
                lemma_lower_node_counter(
                    cases,
                    node,
                    sub,
                    render(node),
                    MatchKind::Once,
                    true,
                    counter + 1,
                );
                assert(lower_func(cases, sub, node, render(node), counter + 1).counter
                    == counter + 1 + numbered_subs(node, true));
                assert(lower_split(cases, node, ctx, comment, kind, counter).counter
                    == counter + 1 + numbered_subs(node, true));
            }
        },
        NodeView::MultipartBody { nodes } => {
            if top {
                lemma_lower_parts_counter(
                    cases,
                    nodes,
                    nodes.len(),
                    ctx,
                    MatchKind::Once,
                    counter,
                );
            } else {
                let sub = FuncDataView { sub_num: Some(counter), ..ctx };
                lemma_lower_node_counter(
                    cases,
                    node,
                    sub,
                    render(node),
                    MatchKind::Once,
                    true,
                    counter + 1,
                );
                assert(lower_func(cases, sub, node, render(node), counter + 1).counter
                    == counter + 1 + numbered_subs(node, true));
                assert(lower_split(cases, node, ctx, comment, kind, counter).counter
                    == counter + 1 + numbered_subs(node, true));
            }
        },
        NodeView::ZeroOrMore { node: inner } => lemma_lower_node_counter(
            cases,
            *inner,
            ctx,
            comment,
            MatchKind::ZeroOrMore,
            false,
            counter,
        ),
        NodeView::OneOrMore { node: inner } => lemma_lower_node_counter(
            cases,
            *inner,
            ctx,
            comment,
            MatchKind::OnceOrMore,
            false,
            counter,
        ),
        NodeView::ZeroOrOne { node: inner, .. } => lemma_lower_node_counter(
            cases,
            *inner,
            ctx,
            comment,
            MatchKind::ZeroOrOnce,
            false,
            counter,
        ),
        NodeView::RuleRef { .. } => {},
        NodeView::TokenRef { .. } => {},
        NodeView::TokenLit { .. } => {},
    }
}

/// Lowering the first `k` members changes the next free number by the count
/// of the functions split off under them.
pub proof fn lemma_lower_parts_counter(
    cases: Cases,
    nodes: Seq<NodeView>,
    k: nat,
    ctx: FuncDataView,
    kind: MatchKind,
    counter: nat,
)
    ensures
        lower_parts(cases, nodes, k, ctx, kind, counter).counter == counter
            + numbered_subs_upto(nodes, k),
    decreases nodes, k,
{
    if k == 0 || k > nodes.len() {
    } else {
        lemma_lower_parts_counter(cases, nodes, (k - 1) as nat, ctx, kind, counter);
        let before = lower_parts(cases, nodes, (k - 1) as nat, ctx, kind, counter);
        lemma_lower_node_counter(
            cases,
            nodes[k - 1],
            ctx,
            render(nodes[k - 1]),
            kind,
            false,
            before.counter,
        );
    }
}

/// The functions split off under a node get the numbers from the next free
/// one on, in the order in which they are split off: no number is given
/// twice, and none is left out.
pub proof fn lemma_lower_node_numbers(
    cases: Cases,
    node: NodeView,
    ctx: FuncDataView,
    comment: Seq<char>,
    kind: MatchKind,
    top: bool,
    counter: nat,
)
    ensures
        lower_node(cases, node, ctx, comment, kind, top, counter).numbers == numbers_from(
            counter,
            numbered_subs(node, top),
        ),
    decreases node, (if top { 0nat } else { 3nat }),
{
    let low = lower_node(cases, node, ctx, comment, kind, top, counter);
    match node {
        NodeView::Binding { name, node: inner } => {
            let sub = FuncDataView { sub_name: Some(name), ..ctx };
            let once = MatchKind::Once;
            lemma_lower_node_numbers(cases, *inner, sub, render(node), once, true, counter);
            assert(lower_func(cases, sub, *inner, render(node), counter).numbers == numbers_from(
                counter,
                numbered_subs(*inner, true),
            ));
        },
        NodeView::Alternatives { nodes } => {
            if top {
                lemma_lower_parts_numbers(
                    cases,
                    nodes,
                    nodes.len(),
                    ctx,
                    MatchKind::ZeroOrOnce,
                    counter,
                );
            } else {
                lemma_lower_split_numbers(cases, node, ctx, comment, kind, counter);
            }
        },
        NodeView::MultipartBody { nodes } => {
            if top {
                lemma_lower_parts_numbers(cases, nodes, nodes.len(), ctx, MatchKind::Once, counter);
            } else {
                lemma_lower_split_numbers(cases, node, ctx, comment, kind, counter);
            }
        },
        NodeView::ZeroOrMore { node: inner } => {
            let inner_kind = MatchKind::ZeroOrMore;
            lemma_lower_node_numbers(cases, *inner, ctx, comment, inner_kind, false, counter);
        },
        NodeView::OneOrMore { node: inner } => {
            let inner_kind = MatchKind::OnceOrMore;
            lemma_lower_node_numbers(cases, *inner, ctx, comment, inner_kind, false, counter);
        },
        NodeView::ZeroOrOne { node: inner, .. } => {
            let inner_kind = MatchKind::ZeroOrOnce;
            lemma_lower_node_numbers(cases, *inner, ctx, comment, inner_kind, false, counter);
        },
        NodeView::RuleRef { .. } => {
            assert(low.numbers =~= numbers_from(counter, 0));
        },
        NodeView::TokenRef { .. } => {
            assert(low.numbers =~= numbers_from(counter, 0));
        },
        NodeView::TokenLit { .. } => {
            assert(low.numbers =~= numbers_from(counter, 0));
        },
    }
}

/// A choice or a sequence that is split off gets the next free number, and
/// the functions split off under it the numbers that follow.
pub proof fn lemma_lower_split_numbers(
    cases: Cases,
    node: NodeView,
    ctx: FuncDataView,
    comment: Seq<char>,
    kind: MatchKind,
    counter: nat,
)
    requires
        node is Alternatives || node is MultipartBody,
    ensures
        lower_split(cases, node, ctx, comment, kind, counter).numbers == numbers_from(
            counter,
            1 + numbered_subs(node, true),
        ),
        lower_split(cases, node, ctx, comment, kind, counter).functions.last().name == cased(
            plain_name(FuncDataView { sub_num: Some(counter), ..ctx }),
            cases.function,
        ),
        lower_split(cases, node, ctx, comment, kind, counter).actions == seq![
            call_action(
                cases,
                FuncDataView { sub_num: Some(counter), ..ctx },
                ctx.base,
                comment,
                kind,
            ),
        ],
    decreases node, 2nat,
{
    let sub = FuncDataView { sub_num: Some(counter), ..ctx };
    lemma_lower_node_numbers(cases, node, sub, render(node), MatchKind::Once, true, counter + 1);
    let made = lower_func(cases, sub, node, render(node), counter + 1);
    assert(made.numbers == numbers_from(counter + 1, numbered_subs(node, true)));
    assert(seq![counter] + made.numbers =~= numbers_from(counter, 1 + numbered_subs(node, true)));
}

/// The functions split off under the first `k` members get the numbers from
/// the next free one on.
pub proof fn lemma_lower_parts_numbers(
    cases: Cases,
    nodes: Seq<NodeView>,
    k: nat,
    ctx: FuncDataView,
    kind: MatchKind,
    counter: nat,
)
    ensures
        lower_parts(cases, nodes, k, ctx, kind, counter).numbers == numbers_from(
            counter,
            numbered_subs_upto(nodes, k),
        ),
    decreases nodes, k,
{
    let low = lower_parts(cases, nodes, k, ctx, kind, counter);
    if k == 0 || k > nodes.len() {
        assert(low.numbers =~= numbers_from(counter, 0));
    } else {
        lemma_lower_parts_numbers(cases, nodes, (k - 1) as nat, ctx, kind, counter);
        lemma_lower_parts_counter(cases, nodes, (k - 1) as nat, ctx, kind, counter);
        let before = lower_parts(cases, nodes, (k - 1) as nat, ctx, kind, counter);
        lemma_lower_node_numbers(
            cases,
            nodes[k - 1],
            ctx,
            render(nodes[k - 1]),
            kind,
            false,
            before.counter,
        );
        let this = lower_node(
            cases,
            nodes[k - 1],
            ctx,
            render(nodes[k - 1]),
            kind,
            false,
            before.counter,
        );
        assert(before.numbers + this.numbers =~= numbers_from(
            counter,
            numbered_subs_upto(nodes, k),
        ));
    }
}

/// Lowering a node makes one function for each binding under it and one for
/// each choice or sequence that is split off, and no other.
pub proof fn lemma_lower_node_functions(
    cases: Cases,
    node: NodeView,
    ctx: FuncDataView,
    comment: Seq<char>,
    kind: MatchKind,
    top: bool,
    counter: nat,
)
    ensures
        lower_node(cases, node, ctx, comment, kind, top, counter).functions.len()
            == bindings_under(node) + numbered_subs(node, top),
    decreases node, (if top { 0nat } else { 3nat }),
{
    match node {
        NodeView::Binding { name, node: inner } => {
            let sub = FuncDataView { sub_name: Some(name), ..ctx };
            lemma_lower_node_functions(
                cases,
                *inner,
                sub,
                render(node),
                MatchKind::Once,
                true,
                counter,
            );
            assert(lower_func(cases, sub, *inner, render(node), counter).functions.len()
                == bindings_under(*inner) + numbered_subs(*inner, true) + 1);
        },
        NodeView::Alternatives { nodes } => {
            if top {
                lemma_lower_parts_functions(
                    cases,
                    nodes,
                    nodes.len(),
                    ctx,
                    MatchKind::ZeroOrOnce,
                    counter,
                );
            } else {
                let sub = FuncDataView { sub_num: Some(counter), ..ctx };
                lemma_lower_node_functions(
                    cases,
                    node,
                    sub,
                    render(node),
                    MatchKind::Once,
                    true,
                    counter + 1,
                );
                assert(lower_func(cases, sub, node, render(node), counter + 1).functions.len()
                    == bindings_under(node) + numbered_subs(node, true) + 1);
                assert(lower_split(cases, node, ctx, comment, kind, counter).functions.len()
                    == bindings_under(node) + numbered_subs(node, true) + 1);
            }
        },
        NodeView::MultipartBody { nodes } => {
            if top {
                lemma_lower_parts_functions(
                    cases,
                    nodes,
                    nodes.len(),
                    ctx,
                    MatchKind::Once,
                    counter,
                );
            } else {
                let sub = FuncDataView { sub_num: Some(counter), ..ctx };
                lemma_lower_node_functions(
                    cases,
                    node,
                    sub,
                    render(node),
                    MatchKind::Once,
                    true,
                    counter + 1,
                );
                assert(lower_func(cases, sub, node, render(node), counter + 1).functions.len()
                    == bindings_under(node) + numbered_subs(node, true) + 1);
                assert(lower_split(cases, node, ctx, comment, kind, counter).functions.len()
                    == bindings_under(node) + numbered_subs(node, true) + 1);
            }
        },
        NodeView::ZeroOrMore { node: inner } => lemma_lower_node_functions(
            cases,
            *inner,
            ctx,
            comment,
            MatchKind::ZeroOrMore,
            false,
            counter,
        ),
        NodeView::OneOrMore { node: inner } => lemma_lower_node_functions(
            cases,
            *inner,
            ctx,
            comment,
            MatchKind::OnceOrMore,
            false,
            counter,
        ),
        NodeView::ZeroOrOne { node: inner, .. } => lemma_lower_node_functions(
            cases,
            *inner,
            ctx,
            comment,
            MatchKind::ZeroOrOnce,
            false,
            counter,
        ),
        NodeView::RuleRef { .. } => {},
        NodeView::TokenRef { .. } => {},
        NodeView::TokenLit { .. } => {},
    }
}

/// Lowering the first `k` members makes one function for each binding under
/// them and one for each choice or sequence that is split off.
pub proof fn lemma_lower_parts_functions(
    cases: Cases,
    nodes: Seq<NodeView>,
    k: nat,
    ctx: FuncDataView,
    kind: MatchKind,
    counter: nat,
)
    ensures
        lower_parts(cases, nodes, k, ctx, kind, counter).functions.len() == bindings_upto(
            nodes,
            k,
        ) + numbered_subs_upto(nodes, k),
    decreases nodes, k,
{
    if k == 0 || k > nodes.len() {
    } else {
        lemma_lower_parts_functions(cases, nodes, (k - 1) as nat, ctx, kind, counter);
        let before = lower_parts(cases, nodes, (k - 1) as nat, ctx, kind, counter);
        lemma_lower_node_functions(
            cases,
            nodes[k - 1],
            ctx,
            render(nodes[k - 1]),
            kind,
            false,
            before.counter,
        );
    }
}

/// A rule becomes one function for itself, one for each binding in its body
/// and one for each choice or sequence that is split off; its own function
/// is the last of them.
pub proof fn lemma_rule_functions(cases: Cases, rule: ParserRuleView)
    ensures
        lower_rule(cases, rule).len() == 1 + bindings_under(rule.node) + numbered_subs(
            rule.node,
            true,
        ),
        lower_rule(cases, rule).last().name == cased(
            plain_name(root_of(rule.name)),
            cases.function,
        ),
        lower_rule(cases, rule).last().comment == render_rule(rule.name, rule.node),
        lower_rule(cases, rule).last().ret_on_match == !(rule.node is MultipartBody),
{
    lemma_lower_node_functions(
        cases,
        rule.node,
        root_of(rule.name),
        render_rule(rule.name, rule.node),
        MatchKind::Once,
        true,
        1,
    );
}

/// The count of the functions split off grows with the members counted.
pub proof fn lemma_numbered_subs_upto_grows(nodes: Seq<NodeView>, j: nat, k: nat)
    requires
        j <= k <= nodes.len(),
    ensures
        numbered_subs_upto(nodes, j) <= numbered_subs_upto(nodes, k),
    decreases k - j,
{
    if j < k {
        lemma_numbered_subs_upto_grows(nodes, j, (k - 1) as nat);
    }
}

/// Members that are references lower to one action each, of the kind asked
/// for and with the member's own text as comment; no function is made and no
/// number is used.
pub proof fn lemma_lower_references(
    cases: Cases,
    nodes: Seq<NodeView>,
    k: nat,
    ctx: FuncDataView,
    kind: MatchKind,
    counter: nat,
)
    requires
        k <= nodes.len(),
        forall|i: int| 0 <= i < k ==> is_reference(#[trigger] nodes[i]),
    ensures
        ({
            let low = lower_parts(cases, nodes, k, ctx, kind, counter);
            &&& low.functions == Seq::<FunctionView>::empty()
            &&& low.counter == counter
            &&& low.actions.len() == k
            &&& forall|i: int|
                0 <= i < k ==> (#[trigger] low.actions[i]) == lower_node(
                    cases,
                    nodes[i],
                    ctx,
                    render(nodes[i]),
                    kind,
                    false,
                    counter,
                ).actions[0]
            &&& forall|i: int|
                0 <= i < k ==> match #[trigger] low.actions[i] {
                    MatchRuleView::Token { match_kind, comment, .. } => match_kind == kind
                        && comment == render(nodes[i]) && nodes[i] is TokenRef,
                    MatchRuleView::Parser { match_kind, comment, .. } => match_kind == kind
                        && comment == render(nodes[i]) && nodes[i] is RuleRef,
                }
        }),
    decreases k,
{
    if k > 0 {
        lemma_lower_references(cases, nodes, (k - 1) as nat, ctx, kind, counter);
        let before = lower_parts(cases, nodes, (k - 1) as nat, ctx, kind, counter);
        let this = lower_node(
            cases,
            nodes[k - 1],
            ctx,
            render(nodes[k - 1]),
            kind,
            false,
            counter,
        );
        let low = lower_parts(cases, nodes, k, ctx, kind, counter);
        assert(is_reference(nodes[k - 1]));
        assert(this.actions.len() == 1);
        assert(low.functions =~= Seq::<FunctionView>::empty());
        assert(low.actions =~= before.actions.push(this.actions[0]));
    }
}

/// A rule whose body is a sequence of references becomes one function that
/// returns only when all its actions have matched: one action for each
/// member, in the order of the members, each matching once.
pub proof fn lemma_sequence_rule(cases: Cases, rule: ParserRuleView)
    requires
        rule.node is MultipartBody,
        forall|i: int|
            0 <= i < rule.node->MultipartBody_nodes.len() ==> is_reference(
                #[trigger] rule.node->MultipartBody_nodes[i],
            ),
    ensures
        ({
            let nodes = rule.node->MultipartBody_nodes;
            let functions = lower_rule(cases, rule);
            &&& functions.len() == 1
            &&& functions[0].name == cased(plain_name(root_of(rule.name)), cases.function)
            &&& functions[0].comment == render_rule(rule.name, rule.node)
            &&& !functions[0].ret_on_match
            &&& functions[0].actions.len() == nodes.len()
            &&& forall|i: int|
                0 <= i < nodes.len() ==> #[trigger] functions[0].actions[i] == lower_node(
                    cases,
                    nodes[i],
                    root_of(rule.name),
                    render(nodes[i]),
                    MatchKind::Once,
                    false,
                    1,
                ).actions[0]
            &&& forall|i: int|
                0 <= i < nodes.len() ==> cell_kind(#[trigger] functions[0].actions[i])
                    == MatchKind::Once
        }),
{
    let nodes = rule.node->MultipartBody_nodes;
    let ctx = root_of(rule.name);
    lemma_lower_references(cases, nodes, nodes.len(), ctx, MatchKind::Once, 1);
    let comment = render_rule(rule.name, rule.node);
    let body = lower_node(cases, rule.node, ctx, comment, MatchKind::Once, true, 1);
    assert(body == lower_parts(cases, nodes, nodes.len(), ctx, MatchKind::Once, 1));
    let made = lower_func(cases, ctx, rule.node, comment, 1);
    assert(made.functions.len() == 1);
    assert(made.functions[0].actions == body.actions);
}

/// A rule whose body is a choice of references becomes one function that
/// returns at the first match: one action for each branch, in the order of
/// the branches, each matching at most once.
pub proof fn lemma_choice_rule(cases: Cases, rule: ParserRuleView)
    requires
        rule.node is Alternatives,
        forall|i: int|
            0 <= i < rule.node->Alternatives_nodes.len() ==> is_reference(
                #[trigger] rule.node->Alternatives_nodes[i],
            ),
    ensures
        ({
            let nodes = rule.node->Alternatives_nodes;
            let functions = lower_rule(cases, rule);
            &&& functions.len() == 1
            &&& functions[0].name == cased(plain_name(root_of(rule.name)), cases.function)
            &&& functions[0].comment == render_rule(rule.name, rule.node)
            &&& functions[0].ret_on_match
            &&& functions[0].actions.len() == nodes.len()
            &&& forall|i: int|
                0 <= i < nodes.len() ==> #[trigger] functions[0].actions[i] == lower_node(
                    cases,
                    nodes[i],
                    root_of(rule.name),
                    render(nodes[i]),
                    MatchKind::ZeroOrOnce,
                    false,
                    1,
                ).actions[0]
            &&& forall|i: int|
                0 <= i < nodes.len() ==> cell_kind(#[trigger] functions[0].actions[i])
                    == MatchKind::ZeroOrOnce
        }),
{
    let nodes = rule.node->Alternatives_nodes;
    let ctx = root_of(rule.name);
    lemma_lower_references(cases, nodes, nodes.len(), ctx, MatchKind::ZeroOrOnce, 1);
    let comment = render_rule(rule.name, rule.node);
    let body = lower_node(cases, rule.node, ctx, comment, MatchKind::Once, true, 1);
    assert(body == lower_parts(cases, nodes, nodes.len(), ctx, MatchKind::ZeroOrOnce, 1));
    let made = lower_func(cases, ctx, rule.node, comment, 1);
    assert(made.functions.len() == 1);
    assert(made.functions[0].actions == body.actions);
}

/// A binding, wherever it stands, becomes one action, which calls the
/// function named after the binding; that function is the last of those made
/// for the binding, and its body is what the binding holds.
pub proof fn lemma_binding(
    cases: Cases,
    node: NodeView,
    ctx: FuncDataView,
    comment: Seq<char>,
    kind: MatchKind,
    top: bool,
    counter: nat,
)
    requires
        node is Binding,
    ensures
        ({
            let low = lower_node(cases, node, ctx, comment, kind, top, counter);
            let sub = FuncDataView { sub_name: Some(node->Binding_name), ..ctx };
            let body = lower_node(
                cases,
                *node->Binding_node,
                sub,
                render(node),
                MatchKind::Once,
                true,
                counter,
            );
            &&& low.actions == seq![
                call_action(cases, sub, node->Binding_name, comment, kind),
            ]
            &&& low.functions.len() == body.functions.len() + 1
            &&& low.functions.last() == (FunctionView {
                name: cased(plain_name(sub), cases.function),
                comment: render(node),
                ret_on_match: !(*node->Binding_node is MultipartBody),
                actions: body.actions,
            })
        }),
{
    let sub = FuncDataView { sub_name: Some(node->Binding_name), ..ctx };
    let made = lower_func(cases, sub, *node->Binding_node, render(node), counter);
    assert(made.functions.len() > 0);
}

/// A binding that holds a choice or a sequence of references gives exactly
/// one function, the one named after the binding, with one action for each
/// reference; where the binding stands, one action calls that function.
pub proof fn lemma_binding_of_references(
    cases: Cases,
    node: NodeView,
    ctx: FuncDataView,
    comment: Seq<char>,
    kind: MatchKind,
    top: bool,
    counter: nat,
)
    requires
        node is Binding,
        ({
            let inner = *node->Binding_node;
            ||| inner is Alternatives && forall|i: int|
                0 <= i < inner->Alternatives_nodes.len() ==> is_reference(
                    #[trigger] inner->Alternatives_nodes[i],
                )
            ||| inner is MultipartBody && forall|i: int|
                0 <= i < inner->MultipartBody_nodes.len() ==> is_reference(
                    #[trigger] inner->MultipartBody_nodes[i],
                )
        }),
    ensures
        ({
            let low = lower_node(cases, node, ctx, comment, kind, top, counter);
            let sub = FuncDataView { sub_name: Some(node->Binding_name), ..ctx };
            let inner = *node->Binding_node;
            &&& low.counter == counter
            &&& low.actions == seq![
                call_action(cases, sub, node->Binding_name, comment, kind),
            ]
            &&& low.functions.len() == 1
            &&& low.functions[0].name == cased(plain_name(sub), cases.function)
            &&& low.functions[0].comment == render(node)
            &&& low.functions[0].ret_on_match == (inner is Alternatives)
            &&& inner is Alternatives ==> low.functions[0].actions.len()
                == inner->Alternatives_nodes.len()
            &&& inner is MultipartBody ==> low.functions[0].actions.len()
                == inner->MultipartBody_nodes.len()
        }),
{
    let sub = FuncDataView { sub_name: Some(node->Binding_name), ..ctx };
    let inner = *node->Binding_node;
    let made = lower_func(cases, sub, inner, render(node), counter);
    let body = lower_node(cases, inner, sub, render(node), MatchKind::Once, true, counter);
    match inner {
        NodeView::Alternatives { nodes } => {
            lemma_lower_references(
                cases,
                nodes,
                nodes.len(),
                sub,
                MatchKind::ZeroOrOnce,
                counter,
            );
            assert(body == lower_parts(
                cases,
                nodes,
                nodes.len(),
                sub,
                MatchKind::ZeroOrOnce,
                counter,
            ));
        },
        NodeView::MultipartBody { nodes } => {
            lemma_lower_references(cases, nodes, nodes.len(), sub, MatchKind::Once, counter);
            assert(body == lower_parts(
                cases,
                nodes,
                nodes.len(),
                sub,
                MatchKind::Once,
                counter,
            ));
        },
        _ => {},
    }
    assert(made.functions.len() == 1);
}

/// A generator that has made no function yet gives the parser of the
/// grammar.
pub proof fn lemma_generated_fresh(cases: Cases, g: GrammarView)
    ensures
        generated(Seq::empty(), cases, g) == lower_grammar(cases, g),
{
    assert(Seq::<FunctionView>::empty() + lower_grammar(cases, g).functions
        =~= lower_grammar(cases, g).functions);
}

/// Two runs of the pass and of a fresh generator on one grammar, with the
/// same cases, give the same parser.
pub proof fn lemma_deterministic(
    cases: Cases,
    g: GrammarView,
    first_bound: GrammarView,
    first: ParserSpecView,
    second_bound: GrammarView,
    second: ParserSpecView,
)
    requires
        first_bound == resolve_grammar(g),
        second_bound == resolve_grammar(g),
        first == generated(Seq::empty(), cases, first_bound),
        second == generated(Seq::empty(), cases, second_bound),
    ensures
        first == second,
        first == lower_grammar(cases, resolve_grammar(g)),
{
    lemma_generated_fresh(cases, first_bound);
}

} // verus!
