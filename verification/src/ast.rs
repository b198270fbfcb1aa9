//! The grammar tree, its mathematical model, and its rendering as text.

pub use crate::syntax::parse_hrpg;
use vstd::prelude::*;
use vstd::string::*;

verus! {

/// One expression of a grammar.
#[derive(Debug, PartialEq, Eq)]
pub enum Node {
    /// A named sub-expression.
    Binding { name: String, node: Box<Node> },
    /// An ordered choice: the first branch that matches wins.
    Alternatives { nodes: Vec<Node> },
    /// A sequence: every part has to match.
    MultipartBody { nodes: Vec<Node> },
    ZeroOrMore { node: Box<Node> },
    OneOrMore { node: Box<Node> },
    /// `brackets` only chooses between the two ways of writing an option.
    ZeroOrOne { node: Box<Node>, brackets: bool },
    /// A reference to a parser rule.
    RuleRef { name: String },
    /// A reference to a token; `replaced_lit` holds the literal that the
    /// reference was made from, if it was made from one.
    TokenRef { name: String, replaced_lit: Option<String> },
    /// A quoted literal, as written in a rule.
    TokenLit { literal: String },
}

/// What a `Node` stands for: the same tree over sequences of characters.
pub enum NodeView {
    Binding { name: Seq<char>, node: Box<NodeView> },
    Alternatives { nodes: Seq<NodeView> },
    MultipartBody { nodes: Seq<NodeView> },
    ZeroOrMore { node: Box<NodeView> },
    OneOrMore { node: Box<NodeView> },
    ZeroOrOne { node: Box<NodeView>, brackets: bool },
    RuleRef { name: Seq<char> },
    TokenRef { name: Seq<char>, replaced_lit: Option<Seq<char>> },
    TokenLit { literal: Seq<char> },
}

/// A named production.
#[derive(Debug, PartialEq, Eq)]
pub struct ParserRule {
    pub name: String,
    pub node: Node,
}

pub struct ParserRuleView {
    pub name: Seq<char>,
    pub node: NodeView,
}

/// A named terminal with its fixed text; `literal` is a `Node::TokenLit`.
#[derive(Debug, PartialEq, Eq)]
pub struct TokenRule {
    pub name: String,
    pub literal: Node,
}

pub struct TokenRuleView {
    pub name: Seq<char>,
    pub literal: NodeView,
}

/// All the rules of a grammar, each kind in the order of declaration.
#[derive(Debug, PartialEq, Eq)]
pub struct Grammar {
    pub parser_rules: Vec<ParserRule>,
    pub token_rules: Vec<TokenRule>,
}

pub struct GrammarView {
    pub parser_rules: Seq<ParserRuleView>,
    pub token_rules: Seq<TokenRuleView>,
}

/// The model of an optional string.
pub open spec fn opt_str_view(s: Option<String>) -> Option<Seq<char>> {
    match s {
        Some(t) => Some(t@),
        None => None,
    }
}

/// The models of a list of strings.
pub open spec fn str_views(v: Seq<String>) -> Seq<Seq<char>> {
    Seq::new(v.len(), |i: int| v[i]@)
}

/// The models of a list of nodes.
pub open spec fn node_views(nodes: Seq<Node>) -> Seq<NodeView> {
    Seq::new(nodes.len(), |i: int| nodes[i]@)
}

pub open spec fn parser_rule_views(rules: Seq<ParserRule>) -> Seq<ParserRuleView> {
    Seq::new(rules.len(), |i: int| rules[i]@)
}

pub open spec fn token_rule_views(rules: Seq<TokenRule>) -> Seq<TokenRuleView> {
    Seq::new(rules.len(), |i: int| rules[i]@)
}

impl Node {
    /// The tree that this node stands for.
    pub open spec fn model(&self) -> NodeView
        decreases self,
    {
        match self {
            Node::Binding { name, node } => NodeView::Binding {
                name: name@,
                node: Box::new(node.model()),
            },
            Node::Alternatives { nodes } => NodeView::Alternatives {
                nodes: Seq::new(
                    nodes.len() as nat,
                    |i: int| if 0 <= i < nodes.len() { nodes[i].model() } else { arbitrary() },
                ),
            },
            Node::MultipartBody { nodes } => NodeView::MultipartBody {
                nodes: Seq::new(
                    nodes.len() as nat,
                    |i: int| if 0 <= i < nodes.len() { nodes[i].model() } else { arbitrary() },
                ),
            },
            Node::ZeroOrMore { node } => NodeView::ZeroOrMore { node: Box::new(node.model()) },
            Node::OneOrMore { node } => NodeView::OneOrMore { node: Box::new(node.model()) },
            Node::ZeroOrOne { node, brackets } => NodeView::ZeroOrOne {
                node: Box::new(node.model()),
                brackets: *brackets,
            },
            Node::RuleRef { name } => NodeView::RuleRef { name: name@ },
            Node::TokenRef { name, replaced_lit } => NodeView::TokenRef {
                name: name@,
                replaced_lit: opt_str_view(*replaced_lit),
            },
            Node::TokenLit { literal } => NodeView::TokenLit { literal: literal@ },
        }
    }
}

impl View for Node {
    type V = NodeView;

    open spec fn view(&self) -> NodeView {
        self.model()
    }
}

impl View for ParserRule {
    type V = ParserRuleView;

    open spec fn view(&self) -> ParserRuleView {
        ParserRuleView { name: self.name@, node: self.node@ }
    }
}

impl View for TokenRule {
    type V = TokenRuleView;

    open spec fn view(&self) -> TokenRuleView {
        TokenRuleView { name: self.name@, literal: self.literal@ }
    }
}

impl View for Grammar {
    type V = GrammarView;

    open spec fn view(&self) -> GrammarView {
        GrammarView {
            parser_rules: parser_rule_views(self.parser_rules@),
            token_rules: token_rule_views(self.token_rules@),
        }
    }
}

/// The children of a choice or a sequence are modelled one by one.
pub proof fn lemma_children_views(n: Node)
    ensures
        n matches Node::Alternatives { nodes } ==> n@ == (NodeView::Alternatives {
            nodes: node_views(nodes@),
        }),
        n matches Node::MultipartBody { nodes } ==> n@ == (NodeView::MultipartBody {
            nodes: node_views(nodes@),
        }),
{
    match n {
        Node::Alternatives { nodes } => {
            assert(n@->Alternatives_nodes =~= node_views(nodes@));
        },
        Node::MultipartBody { nodes } => {
            assert(n@->MultipartBody_nodes =~= node_views(nodes@));
        },
        _ => {},
    }
}

/// The strings of `parts` in order, with `sep` between each two.
pub open spec fn join(parts: Seq<Seq<char>>, sep: Seq<char>) -> Seq<char>
    decreases parts.len(),
{
    if parts.len() == 0 {
        Seq::empty()
    } else if parts.len() == 1 {
        parts[0]
    } else {
        join(parts.drop_last(), sep) + sep + parts.last()
    }
}

/// A leaf is a reference or a literal: it has no operand.
pub open spec fn is_leaf(n: NodeView) -> bool {
    n is RuleRef || n is TokenRef || n is TokenLit
}

/// `body` with the quantifier `mark` behind it; an operand that is no leaf
/// goes into parentheses first.
pub open spec fn quantified(operand: NodeView, body: Seq<char>, mark: char) -> Seq<char> {
    if is_leaf(operand) {
        body.push(mark)
    } else {
        (seq!['('] + body).push(')').push(mark)
    }
}

/// The text of a node in the notation of grammars.
pub open spec fn render(n: NodeView) -> Seq<char>
    decreases n,
{
    match n {
        NodeView::Binding { name, node } => name.push('=') + render(*node),
        NodeView::Alternatives { nodes } => join(render_branches(nodes), seq![' ', '|', ' ']),
        NodeView::MultipartBody { nodes } => join(render_parts(nodes), seq![' ']),
        NodeView::ZeroOrMore { node } => quantified(*node, render(*node), '*'),
        NodeView::OneOrMore { node } => quantified(*node, render(*node), '+'),
        NodeView::ZeroOrOne { node, brackets } => if brackets {
            (seq!['['] + render(*node)).push(']')
        } else {
            quantified(*node, render(*node), '?')
        },
        NodeView::RuleRef { name } => name,
        NodeView::TokenRef { name, replaced_lit } => match replaced_lit {
            Some(lit) => lit,
            None => name,
        },
        NodeView::TokenLit { literal } => (seq!['"'] + literal).push('"'),
    }
}

/// The texts of the branches of a choice.
pub open spec fn render_branches(nodes: Seq<NodeView>) -> Seq<Seq<char>>
    decreases nodes,
{
    Seq::new(
        nodes.len(),
        |i: int| if 0 <= i < nodes.len() { render(nodes[i]) } else { arbitrary() },
    )
}

/// The texts of the parts of a sequence: a choice among them goes into
/// parentheses.
pub open spec fn render_parts(nodes: Seq<NodeView>) -> Seq<Seq<char>>
    decreases nodes,
{
    Seq::new(
        nodes.len(),
        |i: int|
            if 0 <= i < nodes.len() {
                if nodes[i] is Alternatives {
                    (seq!['('] + render(nodes[i])).push(')')
                } else {
                    render(nodes[i])
                }
            } else {
                arbitrary()
            },
    )
}

/// The text of a rule: its name, a colon and a space, and its body.
pub open spec fn render_rule(name: Seq<char>, body: NodeView) -> Seq<char> {
    name + seq![':', ' '] + render(body)
}

/// A copy of an optional string.
fn clone_opt_string(s: &Option<String>) -> (r: Option<String>)
    ensures
        opt_str_view(r) == opt_str_view(*s),
{
    match s {
        Some(t) => Some(t.clone()),
        None => None,
    }
}

/// Copies of the nodes of a list, in the same order.
fn clone_nodes(nodes: &Vec<Node>) -> (r: Vec<Node>)
    ensures
        node_views(r@) == node_views(nodes@),
    decreases nodes,
{
    let mut out: Vec<Node> = Vec::new();
    let mut i: usize = 0;
    while i < nodes.len()
        invariant
            i <= nodes.len(),
            out.len() == i,
            forall|j: int| 0 <= j < i ==> out[j]@ == nodes[j]@,
        decreases nodes.len() - i,
    {
        let c = nodes[i].clone();
        out.push(c);
        i += 1;
    }
    assert(node_views(out@) =~= node_views(nodes@));
    out
}

impl Clone for Node {
    fn clone(&self) -> (r: Self)
        ensures
            r@ == self@,
        decreases self,
    {
        proof {
            lemma_children_views(*self);
        }
        let r = match self {
            Node::Binding { name, node } => {
                let inner = (&**node).clone();
                Node::Binding { name: name.clone(), node: Box::new(inner) }
            },
            Node::Alternatives { nodes } => Node::Alternatives { nodes: clone_nodes(nodes) },
            Node::MultipartBody { nodes } => Node::MultipartBody { nodes: clone_nodes(nodes) },
            Node::ZeroOrMore { node } => {
                let inner = (&**node).clone();
                Node::ZeroOrMore { node: Box::new(inner) }
            },
            Node::OneOrMore { node } => {
                let inner = (&**node).clone();
                Node::OneOrMore { node: Box::new(inner) }
            },
            Node::ZeroOrOne { node, brackets } => {
                let inner = (&**node).clone();
                Node::ZeroOrOne { node: Box::new(inner), brackets: *brackets }
            },
            Node::RuleRef { name } => Node::RuleRef { name: name.clone() },
            Node::TokenRef { name, replaced_lit } => Node::TokenRef {
                name: name.clone(),
                replaced_lit: clone_opt_string(replaced_lit),
            },
            Node::TokenLit { literal } => Node::TokenLit { literal: literal.clone() },
        };
        proof {
            lemma_children_views(r);
        }
        r
    }
}

/// `inner` between the two given delimiters.
fn wrapped(open: &str, inner: &str, close: &str) -> (r: String)
    ensures
        r@ == open@ + inner@ + close@,
{
    let mut out = String::from_str(open);
    out.append(inner);
    out.append(close);
    out
}

/// The text of a quantified operand, given the text of the operand.
fn quantified_text(operand: &Node, body: &str, mark: char) -> (r: String)
    requires
        mark == '*' || mark == '+' || mark == '?',
    ensures
        r@ == quantified(operand@, body@, mark),
{
    proof {
        reveal_strlit("*");
        reveal_strlit("+");
        reveal_strlit("?");
        reveal_strlit("");
        reveal_strlit("(");
        reveal_strlit(")*");
        reveal_strlit(")+");
        reveal_strlit(")?");
    }
    let r = if operand.is_leaf() {
        if mark == '*' {
            wrapped("", body, "*")
        } else if mark == '+' {
            wrapped("", body, "+")
        } else {
            wrapped("", body, "?")
        }
    } else {
        if mark == '*' {
            wrapped("(", body, ")*")
        } else if mark == '+' {
            wrapped("(", body, ")+")
        } else {
            wrapped("(", body, ")?")
        }
    };
    assert(r@ =~= quantified(operand@, body@, mark));
    r
}

impl Node {
    /// Whether this node is a reference or a literal.
    pub fn is_leaf(&self) -> (r: bool)
        ensures
            r == is_leaf(self@),
    {
        match self {
            Node::RuleRef { .. } | Node::TokenRef { .. } | Node::TokenLit { .. } => true,
            _ => false,
        }
    }

    /// The text of this node in the notation of grammars: a binding as
    /// `name=body`, the branches of a choice with ` | ` between them, the
    /// parts of a sequence with a space between them and a choice among them
    /// in parentheses, a quantifier behind its operand, with the operand in
    /// parentheses unless it is a leaf, an option in brackets where the node
    /// says so, a literal between quotes, and a token reference as the
    /// literal that it was made from, if it was made from one.
    pub fn comment(&self) -> (r: String)
        ensures
            r@ == render(self@),
        decreases self,
    {
        match self {
            Node::Binding { name, node } => {
                let inner = node.comment();
                proof {
                    reveal_strlit("=");
                }
                let r = wrapped(name.as_str(), "=", inner.as_str());
                assert(r@ =~= render(self@));
                r
            },
            Node::Alternatives { nodes } => {
                let ghost parts = Seq::new(
                    nodes.len() as nat,
                    |i: int| if 0 <= i < nodes.len() { render(nodes[i]@) } else { arbitrary() },
                );
                let ghost sep = seq![' ', '|', ' '];
                let mut out = String::new();
                let mut i: usize = 0;
                while i < nodes.len()
                    invariant
                        i <= nodes.len(),
                        sep == seq![' ', '|', ' '],
                        parts.len() == nodes.len(),
                        forall|j: int| 0 <= j < nodes.len() ==> parts[j] == render(nodes[j]@),
                        forall|j: int| 0 <= j < nodes.len() ==> decreases_to!(self => nodes[j]),
                        out@ == join(parts.take(i as int), sep),
                    decreases nodes.len() - i,
                {
                    let part = nodes[i].comment();
                    proof {
                        reveal_strlit(" | ");
                        assert(" | "@ =~= sep);
                        assert(parts.take(i + 1).drop_last() =~= parts.take(i as int));
                        assert(parts.take(i + 1).last() == part@);
                        if i == 0 {
                            assert(out@ + part@ =~= part@);
                        }
                    }
                    if i > 0 {
                        out.append(" | ");
                    }
                    out.append(part.as_str());
                    i += 1;
                }
                proof {
                    assert(parts.take(nodes.len() as int) =~= parts);
                    assert(self@->Alternatives_nodes.len() == nodes.len());
                    assert(parts =~= render_branches(self@->Alternatives_nodes));
                }
                out
            },
            Node::MultipartBody { nodes } => {
                let ghost parts = Seq::new(
                    nodes.len() as nat,
                    |i: int|
                        if 0 <= i < nodes.len() {
                            if nodes[i]@ is Alternatives {
                                (seq!['('] + render(nodes[i]@)).push(')')
                            } else {
                                render(nodes[i]@)
                            }
                        } else {
                            arbitrary()
                        },
                );
                let ghost sep = seq![' '];
                let mut out = String::new();
                let mut i: usize = 0;
                while i < nodes.len()
                    invariant
                        i <= nodes.len(),
                        sep == seq![' '],
                        parts.len() == nodes.len(),
                        forall|j: int|
                            0 <= j < nodes.len() ==> parts[j] == if nodes[j]@ is Alternatives {
                                (seq!['('] + render(nodes[j]@)).push(')')
                            } else {
                                render(nodes[j]@)
                            },
                        forall|j: int| 0 <= j < nodes.len() ==> decreases_to!(self => nodes[j]),
                        out@ == join(parts.take(i as int), sep),
                    decreases nodes.len() - i,
                {
                    let inner = nodes[i].comment();
                    let part = match &nodes[i] {
                        Node::Alternatives { .. } => {
                            proof {
                                reveal_strlit("(");
                                reveal_strlit(")");
                            }
                            let p = wrapped("(", inner.as_str(), ")");
                            assert(p@ =~= (seq!['('] + inner@).push(')'));
                            p
                        },
                        _ => inner,
                    };
                    proof {
                        reveal_strlit(" ");
                        assert(" "@ =~= sep);
                        assert(parts.take(i + 1).drop_last() =~= parts.take(i as int));
                        assert(parts.take(i + 1).last() == part@);
                        if i == 0 {
                            assert(out@ + part@ =~= part@);
                        }
                    }
                    if i > 0 {
                        out.append(" ");
                    }
                    out.append(part.as_str());
                    i += 1;
                }
                proof {
                    assert(parts.take(nodes.len() as int) =~= parts);
                    assert(self@->MultipartBody_nodes.len() == nodes.len());
                    assert(parts =~= render_parts(self@->MultipartBody_nodes));
                }
                out
            },
            Node::ZeroOrMore { node } => {
                let inner = node.comment();
                quantified_text(node, inner.as_str(), '*')
            },
            Node::OneOrMore { node } => {
                let inner = node.comment();
                quantified_text(node, inner.as_str(), '+')
            },
            Node::ZeroOrOne { node, brackets } => {
                let inner = node.comment();
                if *brackets {
                    proof {
                        reveal_strlit("[");
                        reveal_strlit("]");
                    }
                    let r = wrapped("[", inner.as_str(), "]");
                    assert(r@ =~= render(self@));
                    r
                } else {
                    quantified_text(node, inner.as_str(), '?')
                }
            },
            Node::RuleRef { name } => name.clone(),
            Node::TokenRef { name, replaced_lit } => match replaced_lit {
                Some(lit) => lit.clone(),
                None => name.clone(),
            },
            Node::TokenLit { literal } => {
                proof {
                    reveal_strlit("\"");
                }
                let r = wrapped("\"", literal.as_str(), "\"");
                assert(r@ =~= render(self@));
                r
            },
        }
    }
}

impl ParserRule {
    /// The text of the rule: `name: body`.
    pub fn comment(&self) -> (r: String)
        ensures
            r@ == render_rule(self@.name, self@.node),
    {
        let body = self.node.comment();
        proof {
            reveal_strlit(": ");
        }
        let r = wrapped(self.name.as_str(), ": ", body.as_str());
        assert(r@ =~= render_rule(self@.name, self@.node));
        r
    }
}

impl TokenRule {
    /// The text of the rule: `name: literal`.
    pub fn comment(&self) -> (r: String)
        ensures
            r@ == render_rule(self@.name, self@.literal),
    {
        let body = self.literal.comment();
        proof {
            reveal_strlit(": ");
        }
        let r = wrapped(self.name.as_str(), ": ", body.as_str());
        assert(r@ =~= render_rule(self@.name, self@.literal));
        r
    }
}

impl Clone for ParserRule {
    fn clone(&self) -> (r: Self)
        ensures
            r@ == self@,
    {
        ParserRule { name: self.name.clone(), node: self.node.clone() }
    }
}

impl Clone for TokenRule {
    fn clone(&self) -> (r: Self)
        ensures
            r@ == self@,
    {
        TokenRule { name: self.name.clone(), literal: self.literal.clone() }
    }
}

} // verus!
