//! What lowering computes, stated over the models of grammars.

use crate::ast::{render, render_rule, GrammarView, NodeView, ParserRuleView};
use crate::case::cased;
use crate::parser_gen::{
    Cases, FuncDataView, FunctionView, MatchKind, MatchRuleView, ParserSpecView, UNKNOWN_RET_TYPE,
};
use crate::text::decimal;
use crate::transform::model::is_resolved;
use vstd::prelude::*;

verus! {

/// What names the function of a rule itself.
pub open spec fn root_of(base: Seq<char>) -> FuncDataView {
    FuncDataView { base, sub_name: None, sub_num: None }
}

/// The name of a parser function before it is put into the case of the
/// target language: `parse_`, the rule, then `_` and the binding, then
/// `_sub` and the number, each where there is one.
pub open spec fn plain_name(fd: FuncDataView) -> Seq<char> {
    "parse_"@ + fd.base + (match fd.sub_name {
        Some(s) => seq!['_'] + s,
        None => Seq::empty(),
    }) + (match fd.sub_num {
        Some(n) => "_sub"@ + decimal(n),
        None => Seq::empty(),
    })
}

/// The action that calls the function named by `fd`.
pub open spec fn call_action(
    cases: Cases,
    fd: FuncDataView,
    var: Seq<char>,
    comment: Seq<char>,
    kind: MatchKind,
) -> MatchRuleView {
    MatchRuleView::Parser {
        match_kind: kind,
        func_name: cased(plain_name(fd), cases.function),
        var_name: cased(var, cases.var),
        comment,
    }
}

/// What lowering a node gives: the actions for the place where the node
/// stands, the functions made on the way, in the order in which they were
/// finished, the numbers given to the functions split off, in the order in
/// which they were given, and the next free number.
pub struct Lowered {
    pub actions: Seq<MatchRuleView>,
    pub functions: Seq<FunctionView>,
    pub numbers: Seq<nat>,
    pub counter: nat,
}

/// The lowering of a node that stands in the function named by `ctx`.
///
/// A binding becomes a function of its own, named after the binding, and one
/// action that calls it. A choice or a sequence at the top of a function
/// becomes one action for each member; elsewhere it is split off into a
/// numbered function, with one action that calls it. A quantifier only sets
/// the kind of what it holds. A reference becomes one action.
pub open spec fn lower_node(
    cases: Cases,
    node: NodeView,
    ctx: FuncDataView,
    comment: Seq<char>,
    kind: MatchKind,
    top: bool,
    counter: nat,
) -> Lowered
    decreases node, (if top { 0nat } else { 3nat }),
{
    match node {
        NodeView::Binding { name, node: inner } => {
            let sub = FuncDataView { sub_name: Some(name), ..ctx };
            let made = lower_func(cases, sub, *inner, render(node), counter);
            Lowered {
                actions: seq![call_action(cases, sub, name, comment, kind)],
                functions: made.functions,
                numbers: made.numbers,
                counter: made.counter,
            }
        },
        NodeView::Alternatives { nodes } => if top {
            lower_parts(cases, nodes, nodes.len(), ctx, MatchKind::ZeroOrOnce, counter)
        } else {
            lower_split(cases, node, ctx, comment, kind, counter)
        },
        NodeView::MultipartBody { nodes } => if top {
            lower_parts(cases, nodes, nodes.len(), ctx, MatchKind::Once, counter)
        } else {
            lower_split(cases, node, ctx, comment, kind, counter)
        },
        NodeView::ZeroOrMore { node: inner } => lower_node(
            cases,
            *inner,
            ctx,
            comment,
            MatchKind::ZeroOrMore,
            false,
            counter,
        ),
        NodeView::OneOrMore { node: inner } => lower_node(
            cases,
            *inner,
            ctx,
            comment,
            MatchKind::OnceOrMore,
            false,
            counter,
        ),
        NodeView::ZeroOrOne { node: inner, .. } => lower_node(
            cases,
            *inner,
            ctx,
            comment,
            MatchKind::ZeroOrOnce,
            false,
            counter,
        ),
        NodeView::RuleRef { name } => Lowered {
            actions: seq![call_action(cases, root_of(name), name, comment, kind)],
            functions: Seq::empty(),
            numbers: Seq::empty(),
            counter,
        },
        NodeView::TokenRef { name, .. } => Lowered {
            actions: seq![
                MatchRuleView::Token {
                    match_kind: kind,
                    token_name: name,
                    var_name: cased(name, cases.var),
                    comment,
                },
            ],
            functions: Seq::empty(),
            numbers: Seq::empty(),
            counter,
        },
        NodeView::TokenLit { .. } => Lowered {
            actions: Seq::empty(),
            functions: Seq::empty(),
            numbers: Seq::empty(),
            counter,
        },
    }
}

/// A choice or a sequence that cannot stand where it is: it becomes the
/// function with the next free number, and one action that calls it.
pub open spec fn lower_split(
    cases: Cases,
    node: NodeView,
    ctx: FuncDataView,
    comment: Seq<char>,
    kind: MatchKind,
    counter: nat,
) -> Lowered
    decreases node, 2nat,
{
    let sub = FuncDataView { sub_num: Some(counter), ..ctx };
    let made = lower_func(cases, sub, node, render(node), counter + 1);
    Lowered {
        actions: seq![call_action(cases, sub, ctx.base, comment, kind)],
        functions: made.functions,
        numbers: seq![counter] + made.numbers,
        counter: made.counter,
    }
}

/// The function named by `ctx` with `node` as its body: the functions made
/// under the body come first, the function itself last. It returns at the
/// first match unless its body is a sequence.
pub open spec fn lower_func(
    cases: Cases,
    ctx: FuncDataView,
    node: NodeView,
    comment: Seq<char>,
    counter: nat,
) -> Lowered
    decreases node, 1nat,
{
    let body = lower_node(cases, node, ctx, comment, MatchKind::Once, true, counter);
    Lowered {
        actions: Seq::empty(),
        functions: body.functions.push(
            FunctionView {
                name: cased(plain_name(ctx), cases.function),
                comment,
                ret_on_match: !(node is MultipartBody),
                actions: body.actions,
            },
        ),
        numbers: body.numbers,
        counter: body.counter,
    }
}

/// The lowering of the first `k` members of a choice or a sequence at the
/// top of a function, from left to right; each has its own text as its
/// comment.
pub open spec fn lower_parts(
    cases: Cases,
    nodes: Seq<NodeView>,
    k: nat,
    ctx: FuncDataView,
    kind: MatchKind,
    counter: nat,
) -> Lowered
    decreases nodes, k,
{
    if k == 0 || k > nodes.len() {
        Lowered {
            actions: Seq::empty(),
            functions: Seq::empty(),
            numbers: Seq::empty(),
            counter,
        }
    } else {
        let before = lower_parts(cases, nodes, (k - 1) as nat, ctx, kind, counter);
        let this = lower_node(
            cases,
            nodes[k - 1],
            ctx,
            render(nodes[k - 1]),
            kind,
            false,
            before.counter,
        );
        Lowered {
            actions: before.actions + this.actions,
            functions: before.functions + this.functions,
            numbers: before.numbers + this.numbers,
            counter: this.counter,
        }
    }
}

/// The numbers from `first` on, `count` of them.
pub open spec fn numbers_from(first: nat, count: nat) -> Seq<nat> {
    Seq::new(count, |i: int| (first + i) as nat)
}

/// The functions of one rule: numbering starts at one for each rule.
pub open spec fn lower_rule(cases: Cases, rule: ParserRuleView) -> Seq<FunctionView> {
    lower_func(
        cases,
        root_of(rule.name),
        rule.node,
        render_rule(rule.name, rule.node),
        1,
    ).functions
}

/// The functions of the first `k` rules.
pub open spec fn lower_rules(
    cases: Cases,
    rules: Seq<ParserRuleView>,
    k: nat,
) -> Seq<FunctionView>
    decreases k,
{
    if k == 0 || k > rules.len() {
        Seq::empty()
    } else {
        lower_rules(cases, rules, (k - 1) as nat) + lower_rule(cases, rules[k - 1])
    }
}

/// The parser of a grammar.
pub open spec fn lower_grammar(cases: Cases, g: GrammarView) -> ParserSpecView {
    ParserSpecView {
        ret_type: UNKNOWN_RET_TYPE@,
        functions: lower_rules(cases, g.parser_rules, g.parser_rules.len()),
    }
}

/// What a generator gives that has made the functions `made` before: the
/// parser of the grammar, behind those functions.
pub open spec fn generated(
    made: Seq<FunctionView>,
    cases: Cases,
    g: GrammarView,
) -> ParserSpecView {
    ParserSpecView {
        ret_type: lower_grammar(cases, g).ret_type,
        functions: made + lower_grammar(cases, g).functions,
    }
}

/// How many functions are split off and numbered under a node.
pub open spec fn numbered_subs(node: NodeView, top: bool) -> nat
    decreases node, (if top { 0nat } else { 1nat }),
{
    match node {
        NodeView::Binding { node: inner, .. } => numbered_subs(*inner, true),
        NodeView::Alternatives { nodes } => if top {
            numbered_subs_upto(nodes, nodes.len())
        } else {
            1 + numbered_subs(node, true)
        },
        NodeView::MultipartBody { nodes } => if top {
            numbered_subs_upto(nodes, nodes.len())
        } else {
            1 + numbered_subs(node, true)
        },
        NodeView::ZeroOrMore { node: inner } => numbered_subs(*inner, false),
        NodeView::OneOrMore { node: inner } => numbered_subs(*inner, false),
        NodeView::ZeroOrOne { node: inner, .. } => numbered_subs(*inner, false),
        NodeView::RuleRef { .. } => 0,
        NodeView::TokenRef { .. } => 0,
        NodeView::TokenLit { .. } => 0,
    }
}

/// How many functions are split off and numbered under the first `k` nodes
/// of a list.
pub open spec fn numbered_subs_upto(nodes: Seq<NodeView>, k: nat) -> nat
    decreases nodes, k,
{
    if k == 0 || k > nodes.len() {
        0
    } else {
        numbered_subs_upto(nodes, (k - 1) as nat) + numbered_subs(nodes[k - 1], false)
    }
}

/// How many bindings stand under a node, the node itself counted.
pub open spec fn bindings_under(node: NodeView) -> nat
    decreases node, 0nat,
{
    match node {
        NodeView::Binding { node: inner, .. } => 1 + bindings_under(*inner),
        NodeView::Alternatives { nodes } => bindings_upto(nodes, nodes.len()),
        NodeView::MultipartBody { nodes } => bindings_upto(nodes, nodes.len()),
        NodeView::ZeroOrMore { node: inner } => bindings_under(*inner),
        NodeView::OneOrMore { node: inner } => bindings_under(*inner),
        NodeView::ZeroOrOne { node: inner, .. } => bindings_under(*inner),
        NodeView::RuleRef { .. } => 0,
        NodeView::TokenRef { .. } => 0,
        NodeView::TokenLit { .. } => 0,
    }
}

/// How many bindings stand under the first `k` nodes of a list.
pub open spec fn bindings_upto(nodes: Seq<NodeView>, k: nat) -> nat
    decreases nodes, k,
{
    if k == 0 || k > nodes.len() {
        0
    } else {
        bindings_upto(nodes, (k - 1) as nat) + bindings_under(nodes[k - 1])
    }
}

/// A grammar that can be lowered: no literal is left under its parser rules,
/// and the numbers of the functions split off under one rule fit in 32 bits.
pub open spec fn lowerable(g: GrammarView) -> bool {
    &&& is_resolved(g)
    &&& forall|i: int|
        0 <= i < g.parser_rules.len() ==> numbered_subs(
            (#[trigger] g.parser_rules[i]).node,
            true,
        ) < u32::MAX
}

/// A reference to a rule or to a token.
pub open spec fn is_reference(n: NodeView) -> bool {
    n is RuleRef || n is TokenRef
}

} // verus!
