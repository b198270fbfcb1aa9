//! The syntax diagram of a grammar, as a tree of diagram elements.

use crate::ast::{
    lemma_children_views, node_views, Grammar, GrammarView, Node, NodeView, ParserRule, TokenRule,
};
use vstd::prelude::*;

verus! {

/// An element of a syntax diagram.
#[derive(Debug, PartialEq, Eq)]
pub enum Diagram {
    /// Where a rule's track begins.
    Start,
    /// Where a rule's track ends.
    End,
    /// A label beside the track.
    Comment(String),
    /// The text of a token.
    Terminal(String),
    /// The name of a rule or of a token.
    NonTerminal(String),
    /// Elements one after the other.
    Sequence(Vec<Diagram>),
    /// Elements side by side: the track takes one of them.
    Choice(Vec<Diagram>),
    /// An element that the track may pass by.
    Optional(Box<Diagram>),
    /// An element that the track may pass again and again.
    Repeat(Box<Diagram>),
    /// Elements one below the other.
    VerticalGrid(Vec<Diagram>),
}

pub enum DiagramView {
    Start,
    End,
    Comment(Seq<char>),
    Terminal(Seq<char>),
    NonTerminal(Seq<char>),
    Sequence(Seq<DiagramView>),
    Choice(Seq<DiagramView>),
    Optional(Box<DiagramView>),
    Repeat(Box<DiagramView>),
    VerticalGrid(Seq<DiagramView>),
}

/// The models of a list of diagram elements.
pub open spec fn diagram_views(items: Seq<Diagram>) -> Seq<DiagramView> {
    Seq::new(items.len(), |i: int| items[i]@)
}

impl Diagram {
    /// The tree that this element stands for.
    pub open spec fn model(&self) -> DiagramView
        decreases self,
    {
        match self {
            Diagram::Start => DiagramView::Start,
            Diagram::End => DiagramView::End,
            Diagram::Comment(text) => DiagramView::Comment(text@),
            Diagram::Terminal(text) => DiagramView::Terminal(text@),
            Diagram::NonTerminal(name) => DiagramView::NonTerminal(name@),
            Diagram::Sequence(items) => DiagramView::Sequence(
                Seq::new(
                    items.len() as nat,
                    |i: int| if 0 <= i < items.len() { items[i].model() } else { arbitrary() },
                ),
            ),
            Diagram::Choice(items) => DiagramView::Choice(
                Seq::new(
                    items.len() as nat,
                    |i: int| if 0 <= i < items.len() { items[i].model() } else { arbitrary() },
                ),
            ),
            Diagram::Optional(inner) => DiagramView::Optional(Box::new(inner.model())),
            Diagram::Repeat(inner) => DiagramView::Repeat(Box::new(inner.model())),
            Diagram::VerticalGrid(items) => DiagramView::VerticalGrid(
                Seq::new(
                    items.len() as nat,
                    |i: int| if 0 <= i < items.len() { items[i].model() } else { arbitrary() },
                ),
            ),
        }
    }
}

impl View for Diagram {
    type V = DiagramView;

    open spec fn view(&self) -> DiagramView {
        self.model()
    }
}

/// The elements of a sequence, a choice or a grid are modelled one by one.
pub proof fn lemma_item_views(d: Diagram)
    ensures
        d matches Diagram::Sequence(items) ==> d@ == DiagramView::Sequence(diagram_views(items@)),
        d matches Diagram::Choice(items) ==> d@ == DiagramView::Choice(diagram_views(items@)),
        d matches Diagram::VerticalGrid(items) ==> d@ == DiagramView::VerticalGrid(
            diagram_views(items@),
        ),
{
    match d {
        Diagram::Sequence(items) => {
            assert(d@->Sequence_0 =~= diagram_views(items@));
        },
        Diagram::Choice(items) => {
            assert(d@->Choice_0 =~= diagram_views(items@));
        },
        Diagram::VerticalGrid(items) => {
            assert(d@->VerticalGrid_0 =~= diagram_views(items@));
        },
        _ => {},
    }
}

/// The diagram element of a node: a binding is drawn as what it holds, a
/// choice as a choice, a sequence as a sequence, `x*` as an optional
/// repetition, `x+` as a repetition, an option as an optional element, a
/// rule reference by its name, a token reference by the literal it was made
/// from or else by its name, and a literal by its text.
pub open spec fn diagram_of(n: NodeView) -> DiagramView
    decreases n,
{
    match n {
        NodeView::Binding { node, .. } => diagram_of(*node),
        NodeView::Alternatives { nodes } => DiagramView::Choice(diagrams_of(nodes)),
        NodeView::MultipartBody { nodes } => DiagramView::Sequence(diagrams_of(nodes)),
        NodeView::ZeroOrMore { node } => DiagramView::Optional(
            Box::new(DiagramView::Repeat(Box::new(diagram_of(*node)))),
        ),
        NodeView::OneOrMore { node } => DiagramView::Repeat(Box::new(diagram_of(*node))),
        NodeView::ZeroOrOne { node, .. } => DiagramView::Optional(Box::new(diagram_of(*node))),
        NodeView::RuleRef { name } => DiagramView::NonTerminal(name),
        NodeView::TokenRef { name, replaced_lit } => match replaced_lit {
            Some(literal) => DiagramView::Terminal(literal),
            None => DiagramView::NonTerminal(name),
        },
        NodeView::TokenLit { literal } => DiagramView::Terminal(literal),
    }
}

/// The diagram elements of the nodes of a list.
pub open spec fn diagrams_of(nodes: Seq<NodeView>) -> Seq<DiagramView>
    decreases nodes,
{
    Seq::new(
        nodes.len(),
        |i: int| if 0 <= i < nodes.len() { diagram_of(nodes[i]) } else { arbitrary() },
    )
}

/// The track of a rule: its start, its name as a label, its body, its end.
pub open spec fn rule_diagram(name: Seq<char>, body: NodeView) -> DiagramView {
    DiagramView::Sequence(
        seq![DiagramView::Start, DiagramView::Comment(name), diagram_of(body), DiagramView::End],
    )
}

/// The tracks of a grammar, one below the other: the parser rules first,
/// then the token rules, each kind in the order of declaration.
pub open spec fn grammar_diagram(g: GrammarView) -> DiagramView {
    DiagramView::VerticalGrid(
        Seq::new(
            g.parser_rules.len() + g.token_rules.len(),
            |i: int|
                if i < g.parser_rules.len() {
                    rule_diagram(g.parser_rules[i].name, g.parser_rules[i].node)
                } else {
                    rule_diagram(
                        g.token_rules[i - g.parser_rules.len()].name,
                        g.token_rules[i - g.parser_rules.len()].literal,
                    )
                },
        ),
    )
}

/// The diagram of a grammar.
pub fn draw_diagram(grammar: &Grammar) -> (d: Diagram)
    ensures
        d@ == grammar_diagram(grammar@),
{
    let mut rows: Vec<Diagram> = Vec::new();
    let mut i: usize = 0;
    while i < grammar.parser_rules.len()
        invariant
            i <= grammar.parser_rules.len(),
            rows.len() == i,
            forall|j: int|
                0 <= j < i ==> (#[trigger] rows[j])@ == rule_diagram(
                    grammar@.parser_rules[j].name,
                    grammar@.parser_rules[j].node,
                ),
        decreases grammar.parser_rules.len() - i,
    {
        assert(grammar@.parser_rules[i as int] == grammar.parser_rules[i as int]@);
        rows.push(make_parser_rule(&grammar.parser_rules[i]));
        i += 1;
    }
    let mut k: usize = 0;
    while k < grammar.token_rules.len()
        invariant
            k <= grammar.token_rules.len(),
            rows.len() == grammar.parser_rules.len() + k,
            forall|j: int|
                0 <= j < grammar.parser_rules.len() ==> (#[trigger] rows[j])@ == rule_diagram(
                    grammar@.parser_rules[j].name,
                    grammar@.parser_rules[j].node,
                ),
            forall|j: int|
                0 <= j < k ==> (#[trigger] rows[grammar.parser_rules.len() + j])@ == rule_diagram(
                    grammar@.token_rules[j].name,
                    grammar@.token_rules[j].literal,
                ),
        decreases grammar.token_rules.len() - k,
    {
        assert(grammar@.token_rules[k as int] == grammar.token_rules[k as int]@);
        rows.push(make_token_rule(&grammar.token_rules[k]));
        k += 1;
    }
    let d = Diagram::VerticalGrid(rows);
    proof {
        lemma_item_views(d);
        let n = grammar.parser_rules.len();
        assert forall|j: int| 0 <= j < rows.len() implies diagram_views(rows@)[j]
            == grammar_diagram(grammar@)->VerticalGrid_0[j] by {
            if j >= n {
                assert(rows[n + (j - n)]@ == rule_diagram(
                    grammar@.token_rules[j - n].name,
                    grammar@.token_rules[j - n].literal,
                ));
            }
        }
        assert(diagram_views(rows@) =~= grammar_diagram(grammar@)->VerticalGrid_0);
    }
    d
}

/// The track of a parser rule.
fn make_parser_rule(rule: &ParserRule) -> (d: Diagram)
    ensures
        d@ == rule_diagram(rule@.name, rule@.node),
{
    make_rule(rule.name.as_str(), &rule.node)
}

/// The track of a token rule.
fn make_token_rule(rule: &TokenRule) -> (d: Diagram)
    ensures
        d@ == rule_diagram(rule@.name, rule@.literal),
{
    make_rule(rule.name.as_str(), &rule.literal)
}

/// The track of a rule with the given name and body.
fn make_rule(name: &str, node: &Node) -> (d: Diagram)
    ensures
        d@ == rule_diagram(name@, node@),
{
    let mut items: Vec<Diagram> = Vec::new();
    items.push(Diagram::Start);
    items.push(Diagram::Comment(name.to_owned()));
    items.push(make_node(node));
    items.push(Diagram::End);
    let d = Diagram::Sequence(items);
    proof {
        lemma_item_views(d);
        assert(diagram_views(items@) =~= seq![
            DiagramView::Start,
            DiagramView::Comment(name@),
            diagram_of(node@),
            DiagramView::End,
        ]);
    }
    d
}

/// The diagram elements of the nodes of a list.
fn make_nodes(nodes: &Vec<Node>) -> (items: Vec<Diagram>)
    ensures
        diagram_views(items@) == diagrams_of(node_views(nodes@)),
    decreases nodes,
{
    let mut items: Vec<Diagram> = Vec::new();
    let mut i: usize = 0;
    while i < nodes.len()
        invariant
            i <= nodes.len(),
            items.len() == i,
            forall|j: int| 0 <= j < i ==> (#[trigger] items[j])@ == diagram_of(nodes[j]@),
        decreases nodes.len() - i,
    {
        items.push(make_node(&nodes[i]));
        i += 1;
    }
    assert(diagram_views(items@) =~= diagrams_of(node_views(nodes@)));
    items
}

/// The diagram element of a node.
pub fn make_node(node: &Node) -> (d: Diagram)
    ensures
        d@ == diagram_of(node@),
    decreases node,
{
    proof {
        lemma_children_views(*node);
    }
    let d = match node {
        Node::Binding { node: inner, .. } => make_node(inner),
        Node::Alternatives { nodes } => Diagram::Choice(make_nodes(nodes)),
        Node::MultipartBody { nodes } => Diagram::Sequence(make_nodes(nodes)),
        Node::ZeroOrMore { node: inner } => {
            let repeat = Diagram::Repeat(Box::new(make_node(inner)));
            assert(repeat@ == DiagramView::Repeat(Box::new(diagram_of(inner@))));
            Diagram::Optional(Box::new(repeat))
        },
        Node::OneOrMore { node: inner } => Diagram::Repeat(Box::new(make_node(inner))),
        Node::ZeroOrOne { node: inner, .. } => Diagram::Optional(Box::new(make_node(inner))),
        Node::RuleRef { name } => Diagram::NonTerminal(name.clone()),
        Node::TokenRef { name, replaced_lit } => match replaced_lit {
            Some(literal) => Diagram::Terminal(literal.clone()),
            None => Diagram::NonTerminal(name.clone()),
        },
        Node::TokenLit { literal } => Diagram::Terminal(literal.clone()),
    };
    proof {
        lemma_item_views(d);
    }
    d
}

} // verus!
