//! The pass that binds the literals of the parser rules to tokens.

pub mod laws;
pub mod model;

use crate::ast::{
    lemma_children_views, node_views, parser_rule_views, str_views, token_rule_views, Grammar, Node,
    NodeView, ParserRule, TokenRule,
};
use crate::transform::laws::{
    lemma_covered_append, lemma_first_occurrences, lemma_first_text_push,
    lemma_no_errors_iff_resolved, lemma_reserved_tokens, lemma_resolve_stable,
};
use crate::transform::model::{
    covered, first_occurrences, first_text, grammar_errors, is_resolved, literals_of,
    literals_upto, mentioned_tokens, resolve_all, resolve_grammar, resolve_node, resolve_rules,
    rule_literals, rule_token_refs, token_refs_of, token_refs_upto, token_rule_names,
    token_rules_well_formed, token_table_upto, unquoted, unresolved, unresolved_message,
};
use vstd::hash_map::StringHashMap;
use vstd::prelude::*;
use vstd::string::*;

verus! {

/// The name of the token that ends the input; every grammar has it.
pub const EOF: &'static str = "EOF";

/// The name of the token for text that is no token; every grammar has it.
pub const ILLEGAL: &'static str = "ILLEGAL";

/// A string without its first and its last character.
pub fn strip_quotes(s: &str) -> (r: String)
    ensures
        r@ == unquoted(s@),
{
    let n = s.unicode_len();
    if n >= 2 {
        s.substring_char(1, n - 1).to_owned()
    } else {
        String::new()
    }
}

/// What the pass holds for one literal key: the token's name, and the
/// reference that the first literal with this key was bound to.
pub open spec fn entry_ok(
    entry: (String, Option<Node>),
    name: Seq<char>,
    first: Option<Seq<char>>,
) -> bool {
    &&& entry.0@ == name
    &&& match entry.1 {
        Some(node) => first is Some && node@ == (NodeView::TokenRef { name, replaced_lit: first }),
        None => first is None,
    }
}

/// The state and the report of one run of the pass.
pub struct Transform {
    /// For each literal key that a token rule declares: the token's name, and
    /// the reference that the first literal with this key was bound to.
    pub literals: StringHashMap<(String, Option<Node>)>,
    /// The token names that the grammar mentions, each once, in the order in
    /// which the pass met them.
    pub token_names: Vec<String>,
    /// One message for each literal that no token rule declares.
    pub errors: Vec<String>,
    /// What the pass has read so far.
    pub progress: Ghost<Progress>,
}

/// What a pass has read so far.
pub struct Progress {
    /// The table of the token rules.
    pub table: Map<Seq<char>, Seq<char>>,
    /// The literals of the parser rules.
    pub seen: Seq<Seq<char>>,
    /// The token names, with repetitions.
    pub names: Seq<Seq<char>>,
}

impl Transform {
    /// The table of the token rules read so far.
    pub open spec fn table(&self) -> Map<Seq<char>, Seq<char>> {
        self.progress@.table
    }

    /// The literals of the parser rules read so far.
    pub open spec fn seen(&self) -> Seq<Seq<char>> {
        self.progress@.seen
    }

    /// The token names met so far, with repetitions.
    pub open spec fn names(&self) -> Seq<Seq<char>> {
        self.progress@.names
    }

    /// The fields agree with what has been read so far.
    pub open spec fn inv(&self) -> bool {
        &&& self.literals@.dom() =~= self.table().dom()
        &&& forall|k: Seq<char>| #[trigger]
            self.table().contains_key(k) ==> entry_ok(
                self.literals@[k],
                self.table()[k],
                first_text(self.seen(), k),
            )
        &&& str_views(self.errors@) == unresolved(self.seen(), self.table())
        &&& str_views(self.token_names@) == first_occurrences(self.names())
    }

    fn new() -> (t: Transform)
        ensures
            t.inv(),
            t.table() == Map::<Seq<char>, Seq<char>>::empty(),
            t.seen() == Seq::<Seq<char>>::empty(),
            t.names() == seq![EOF@, ILLEGAL@],
    {
        let mut t = Transform {
            literals: StringHashMap::new(),
            token_names: Vec::new(),
            errors: Vec::new(),
            progress: Ghost(
                Progress { table: Map::empty(), seen: Seq::empty(), names: Seq::empty() },
            ),
        };
        assert(str_views(t.errors@) =~= unresolved(t.seen(), t.table()));
        assert(str_views(t.token_names@) =~= first_occurrences(t.names()));
        t.register(EOF.to_owned());
        t.register(ILLEGAL.to_owned());
        assert(t.names() =~= seq![EOF@, ILLEGAL@]);
        t
    }

    /// Adds a name to the token names unless it is there.
    fn register(&mut self, name: String)
        requires
            old(self).inv(),
        ensures
            final(self).inv(),
            final(self).table() == old(self).table(),
            final(self).seen() == old(self).seen(),
            final(self).names() == old(self).names().push(name@),
    {
        let mut found = false;
        let mut i: usize = 0;
        while i < self.token_names.len()
            invariant
                i <= self.token_names.len(),
                *self == *old(self),
                found == exists|j: int| 0 <= j < i && self.token_names[j]@ == name@,
            decreases self.token_names.len() - i,
        {
            if self.token_names[i] == name {
                found = true;
            }
            i += 1;
        }
        proof {
            let before = first_occurrences(self.names());
            assert(self.names().push(name@).drop_last() =~= self.names());
            if found {
                let j = choose|j: int| 0 <= j < i && self.token_names[j]@ == name@;
                assert(before[j] == name@);
            } else {
                if before.contains(name@) {
                    let j = choose|j: int| 0 <= j < before.len() && before[j] == name@;
                    assert(self.token_names[j]@ == name@);
                }
            }
            assert(found == before.contains(name@));
        }
        let ghost pushed = name@;
        if !found {
            self.token_names.push(name);
            assert(str_views(self.token_names@) =~= str_views(old(self).token_names@).push(pushed));
        }
        self.progress = Ghost(Progress { names: self.names().push(pushed), ..self.progress@ });
    }

    /// Adds a message to the report.
    fn log_error(&mut self, msg: String)
        ensures
            final(self).errors@ == old(self).errors@.push(msg),
            final(self).literals == old(self).literals,
            final(self).token_names == old(self).token_names,
            final(self).progress == old(self).progress,
    {
        self.errors.push(msg);
    }

    /// Reads a token rule: its literal, without the quotes, names its token
    /// from now on.
    fn process_token_rule(&mut self, rule: &TokenRule) -> (out: TokenRule)
        requires
            old(self).inv(),
            old(self).seen().len() == 0,
            rule@.literal is TokenLit,
        ensures
            final(self).inv(),
            final(self).seen() == old(self).seen(),
            final(self).table() == old(self).table().insert(
                unquoted(rule@.literal->literal),
                rule@.name,
            ),
            final(self).names() == old(self).names().push(rule@.name),
            out@ == rule@,
    {
        match &rule.literal {
            Node::TokenLit { literal } => {
                let key = strip_quotes(literal.as_str());
                let ghost k = key@;
                self.literals.insert(key, (rule.name.clone(), None));
                self.progress = Ghost(
                    Progress { table: self.table().insert(k, rule@.name), ..self.progress@ },
                );
                assert(self.inv()) by {
                    assert(self.literals@.dom() =~= self.table().dom());
                    assert forall|q: Seq<char>| #[trigger]
                        self.table().contains_key(q) implies entry_ok(
                        self.literals@[q],
                        self.table()[q],
                        first_text(self.seen(), q),
                    ) by {
                        if q != k {
                            assert(old(self).table().contains_key(q));
                        }
                    }
                    assert(unresolved(Seq::<Seq<char>>::empty(), self.table())
                        == unresolved(Seq::<Seq<char>>::empty(), old(self).table()));
                    assert(self.seen() =~= Seq::<Seq<char>>::empty());
                }
                self.register(rule.name.clone());
            },
            _ => {},
        }
        rule.clone()
    }

    /// Binds the literals under a node, and notes the token names that it
    /// refers to.
    fn process_node(&mut self, node: &Node) -> (out: Node)
        requires
            old(self).inv(),
        ensures
            final(self).inv(),
            final(self).table() == old(self).table(),
            final(self).seen() == old(self).seen() + literals_of(node@),
            final(self).names() == old(self).names() + token_refs_of(node@),
            out@ == resolve_node(node@, old(self).table(), final(self).seen()),
            covered(node@, final(self).seen()),
        decreases node,
    {
        proof {
            lemma_children_views(*node);
        }
        let out = match node {
            Node::Binding { name, node: inner } => {
                let bound = self.process_node(inner);
                Node::Binding { name: name.clone(), node: Box::new(bound) }
            },
            Node::Alternatives { nodes } => {
                let bound = self.process_nodes(nodes);
                Node::Alternatives { nodes: bound }
            },
            Node::MultipartBody { nodes } => {
                let bound = self.process_nodes(nodes);
                Node::MultipartBody { nodes: bound }
            },
            Node::ZeroOrMore { node: inner } => {
                let bound = self.process_node(inner);
                Node::ZeroOrMore { node: Box::new(bound) }
            },
            Node::OneOrMore { node: inner } => {
                let bound = self.process_node(inner);
                Node::OneOrMore { node: Box::new(bound) }
            },
            Node::ZeroOrOne { node: inner, brackets } => {
                let bound = self.process_node(inner);
                Node::ZeroOrOne { node: Box::new(bound), brackets: *brackets }
            },
            Node::RuleRef { .. } => {
                assert(self.seen() + literals_of(node@) =~= self.seen());
                assert(self.names() + token_refs_of(node@) =~= self.names());
                node.clone()
            },
            Node::TokenRef { name, .. } => {
                self.register(name.clone());
                assert(self.seen() + literals_of(node@) =~= self.seen());
                assert(old(self).names() + token_refs_of(node@) =~= old(self).names().push(name@));
                node.clone()
            },
            Node::TokenLit { literal } => {
                assert(self.names() + token_refs_of(node@) =~= self.names());
                assert(self.seen() + literals_of(node@) =~= self.seen().push(literal@));
                self.process_literal(node, literal)
            },
        };
        proof {
            lemma_children_views(out);
        }
        out
    }

    /// Binds one literal: to the reference that an earlier literal with the
    /// same key was bound to, or to a new reference to the token that the key
    /// names, or, where the key names none, not at all, with a message.
    fn process_literal(&mut self, node: &Node, literal: &String) -> (out: Node)
        requires
            old(self).inv(),
            node@ == (NodeView::TokenLit { literal: literal@ }),
        ensures
            final(self).inv(),
            final(self).table() == old(self).table(),
            final(self).seen() == old(self).seen().push(literal@),
            final(self).names() == old(self).names(),
            out@ == resolve_node(node@, old(self).table(), final(self).seen()),
            covered(node@, final(self).seen()),
    {
        let key = strip_quotes(literal.as_str());
        let ghost k = key@;
        let ghost seen_before = self.seen();
        proof {
            assert forall|q: Seq<char>| true implies first_text(seen_before.push(literal@), q)
                == match first_text(seen_before, q) {
                Some(t) => Some(t),
                None => if k == q {
                    Some(literal@)
                } else {
                    None
                },
            } by {
                lemma_first_text_push(seen_before, literal@, q);
            }
            assert(seen_before.push(literal@).drop_last() =~= seen_before);
        }
        let found: Option<(String, Option<Node>)> = match self.literals.get(key.as_str()) {
            Some(entry) => {
                let cached = match &entry.1 {
                    Some(token_ref) => Some(token_ref.clone()),
                    None => None,
                };
                Some((entry.0.clone(), cached))
            },
            None => None,
        };
        self.progress = Ghost(Progress { seen: self.seen().push(literal@), ..self.progress@ });
        match found {
            Some((_name, Some(token_ref))) => {
                assert(self.table().contains_key(k));
                token_ref
            },
            Some((name, None)) => {
                assert(self.table().contains_key(k));
                let token_ref = Node::TokenRef {
                    name: name.clone(),
                    replaced_lit: Some(literal.clone()),
                };
                let ref_copy = token_ref.clone();
                self.literals.insert(key, (name, Some(token_ref)));
                assert(self.literals@.dom() =~= self.table().dom());
                ref_copy
            },
            None => {
                proof {
                    reveal_strlit("Literal ");
                }
                let mut msg = String::from_str("Literal ");
                msg.append(literal.as_str());
                msg.append(" does not have corresponding rule");
                assert(msg@ =~= unresolved_message(literal@));
                self.log_error(msg);
                assert(str_views(self.errors@) =~= str_views(old(self).errors@).push(
                    unresolved_message(literal@),
                ));
                node.clone()
            },
        }
    }

    /// Binds the literals under the nodes of a list, from left to right.
    fn process_nodes(&mut self, nodes: &Vec<Node>) -> (out: Vec<Node>)
        requires
            old(self).inv(),
        ensures
            final(self).inv(),
            final(self).table() == old(self).table(),
            final(self).seen() == old(self).seen() + literals_upto(
                node_views(nodes@),
                nodes.len() as nat,
            ),
            final(self).names() == old(self).names() + token_refs_upto(
                node_views(nodes@),
                nodes.len() as nat,
            ),
            node_views(out@) == resolve_all(
                node_views(nodes@),
                old(self).table(),
                final(self).seen(),
            ),
            forall|i: int|
                0 <= i < nodes.len() ==> covered(#[trigger] nodes[i]@, final(self).seen()),
        decreases nodes,
    {
        let ghost views = node_views(nodes@);
        let mut out: Vec<Node> = Vec::new();
        let mut i: usize = 0;
        assert(self.seen() + literals_upto(views, 0) =~= self.seen());
        assert(self.names() + token_refs_upto(views, 0) =~= self.names());
        while i < nodes.len()
            invariant
                i <= nodes.len(),
                out.len() == i,
                views == node_views(nodes@),
                self.inv(),
                self.table() == old(self).table(),
                self.seen() == old(self).seen() + literals_upto(views, i as nat),
                self.names() == old(self).names() + token_refs_upto(views, i as nat),
                forall|j: int|
                    0 <= j < i ==> (#[trigger] out[j])@ == resolve_node(
                        nodes[j]@,
                        self.table(),
                        self.seen(),
                    ),
                forall|j: int| 0 <= j < i ==> covered(#[trigger] nodes[j]@, self.seen()),
            decreases nodes.len() - i,
        {
            let ghost seen_before = self.seen();
            let ghost names_before = self.names();
            let bound = self.process_node(&nodes[i]);
            proof {
                let more = literals_of(nodes[i as int]@);
                assert(self.seen() == seen_before + more);
                assert(views[i as int] == nodes[i as int]@);
                assert(seen_before + more =~= old(self).seen() + literals_upto(
                    views,
                    (i + 1) as nat,
                ));
                assert(names_before + token_refs_of(nodes[i as int]@) =~= old(self).names()
                    + token_refs_upto(views, (i + 1) as nat));
                assert forall|j: int| 0 <= j < i implies (#[trigger] out[j])@ == resolve_node(
                    nodes[j]@,
                    self.table(),
                    self.seen(),
                ) by {
                    lemma_resolve_stable(nodes[j]@, self.table(), seen_before, more);
                }
                assert forall|j: int| 0 <= j < i implies covered(
                    #[trigger] nodes[j]@,
                    self.seen(),
                ) by {
                    lemma_covered_append(nodes[j]@, seen_before, more);
                }
            }
            out.push(bound);
            i += 1;
        }
        assert(node_views(out@) =~= resolve_all(views, self.table(), self.seen()));
        out
    }

    /// Whether the pass takes the grammar: whether the literal of every
    /// token rule is a literal node.
    pub fn accepts(grammar: &Grammar) -> (r: bool)
        ensures
            r == token_rules_well_formed(grammar@),
    {
        let mut i: usize = 0;
        while i < grammar.token_rules.len()
            invariant
                i <= grammar.token_rules.len(),
                forall|j: int|
                    0 <= j < i ==> (#[trigger] grammar@.token_rules[j]).literal is TokenLit,
            decreases grammar.token_rules.len() - i,
        {
            assert(grammar@.token_rules[i as int] == grammar.token_rules[i as int]@);
            match &grammar.token_rules[i].literal {
                Node::TokenLit { .. } => {},
                _ => {
                    return false;
                },
            }
            i += 1;
        }
        true
    }

    /// Runs the pass on a grammar. The grammar that comes back has the token
    /// rules as they were and the parser rules with every literal bound that
    /// a token rule declares: all the literals with one key become the same
    /// token reference, which carries the text of the first of them. The
    /// report holds each token name once, the two reserved names first, and
    /// one message for each literal that no token rule declares, in the
    /// order of the literals; such a literal stays in the grammar, so the
    /// report is free of messages exactly when the grammar that comes back is
    /// free of literals.
    pub fn process(grammar: &Grammar) -> (out: (Grammar, Transform))
        requires
            token_rules_well_formed(grammar@),
        ensures
            out.0@ == resolve_grammar(grammar@),
            str_views(out.1.errors@) == grammar_errors(grammar@),
            str_views(out.1.token_names@) == first_occurrences(mentioned_tokens(grammar@)),
            str_views(out.1.token_names@).no_duplicates(),
            str_views(out.1.token_names@).contains(EOF@),
            str_views(out.1.token_names@).contains(ILLEGAL@),
            out.1.errors@.len() == 0 <==> is_resolved(out.0@),
    {
        let ghost g = grammar@;
        let mut transform = Transform::new();

        let mut token_rules: Vec<TokenRule> = Vec::new();
        let mut i: usize = 0;
        assert(transform.names() =~= seq![EOF@, ILLEGAL@] + token_rule_names(g.token_rules, 0));
        while i < grammar.token_rules.len()
            invariant
                i <= grammar.token_rules.len(),
                g == grammar@,
                token_rules_well_formed(g),
                token_rules.len() == i,
                transform.inv(),
                transform.seen().len() == 0,
                transform.table() == token_table_upto(g.token_rules, i as nat),
                transform.names() == seq![EOF@, ILLEGAL@] + token_rule_names(
                    g.token_rules,
                    i as nat,
                ),
                forall|j: int| 0 <= j < i ==> (#[trigger] token_rules[j])@ == g.token_rules[j],
            decreases grammar.token_rules.len() - i,
        {
            let ghost names_before = transform.names();
            assert(g.token_rules[i as int] == grammar.token_rules[i as int]@);
            let rule = transform.process_token_rule(&grammar.token_rules[i]);
            assert(names_before.push(g.token_rules[i as int].name) =~= seq![EOF@, ILLEGAL@]
                + token_rule_names(g.token_rules, (i + 1) as nat));
            token_rules.push(rule);
            i += 1;
        }
        let ghost table = transform.table();
        let ghost base = transform.names();

        let mut parser_rules: Vec<ParserRule> = Vec::new();
        let mut i: usize = 0;
        assert(transform.seen() =~= rule_literals(g.parser_rules, 0));
        assert(transform.names() =~= base + rule_token_refs(g.parser_rules, 0));
        while i < grammar.parser_rules.len()
            invariant
                i <= grammar.parser_rules.len(),
                g == grammar@,
                parser_rules.len() == i,
                transform.inv(),
                transform.table() == table,
                transform.seen() == rule_literals(g.parser_rules, i as nat),
                transform.names() == base + rule_token_refs(g.parser_rules, i as nat),
                forall|j: int|
                    0 <= j < i ==> (#[trigger] parser_rules[j])@.name == g.parser_rules[j].name,
                forall|j: int|
                    0 <= j < i ==> (#[trigger] parser_rules[j])@.node == resolve_node(
                        g.parser_rules[j].node,
                        table,
                        transform.seen(),
                    ),
                forall|j: int|
                    0 <= j < i ==> covered(#[trigger] g.parser_rules[j].node, transform.seen()),
            decreases grammar.parser_rules.len() - i,
        {
            let ghost seen_before = transform.seen();
            let ghost names_before = transform.names();
            assert(g.parser_rules[i as int] == grammar.parser_rules[i as int]@);
            let rule = transform.process_parser_rule(&grammar.parser_rules[i]);
            proof {
                let more = literals_of(g.parser_rules[i as int].node);
                assert(names_before + token_refs_of(g.parser_rules[i as int].node) =~= base
                    + rule_token_refs(g.parser_rules, (i + 1) as nat));
                assert forall|j: int| 0 <= j < i implies (#[trigger] parser_rules[j])@.node
                    == resolve_node(g.parser_rules[j].node, table, transform.seen()) by {
                    lemma_resolve_stable(g.parser_rules[j].node, table, seen_before, more);
                }
                assert forall|j: int| 0 <= j < i implies covered(
                    #[trigger] g.parser_rules[j].node,
                    transform.seen(),
                ) by {
                    lemma_covered_append(g.parser_rules[j].node, seen_before, more);
                }
            }
            parser_rules.push(rule);
            i += 1;
        }
        let bound = Grammar { parser_rules, token_rules };
        proof {
            assert(token_rule_views(bound.token_rules@) =~= g.token_rules);
            assert(parser_rule_views(bound.parser_rules@) =~= resolve_rules(
                g.parser_rules,
                table,
                transform.seen(),
            ));
            assert(transform.names() =~= mentioned_tokens(g));
            lemma_first_occurrences(mentioned_tokens(g));
            lemma_reserved_tokens(g);
            lemma_no_errors_iff_resolved(g);
            assert(str_views(transform.errors@).len() == transform.errors@.len());
        }
        (bound, transform)
    }

    /// Binds the literals of a parser rule.
    fn process_parser_rule(&mut self, rule: &ParserRule) -> (out: ParserRule)
        requires
            old(self).inv(),
        ensures
            final(self).inv(),
            final(self).table() == old(self).table(),
            final(self).seen() == old(self).seen() + literals_of(rule@.node),
            final(self).names() == old(self).names() + token_refs_of(rule@.node),
            out@.name == rule@.name,
            out@.node == resolve_node(rule@.node, old(self).table(), final(self).seen()),
            covered(rule@.node, final(self).seen()),
    {
        ParserRule { name: rule.name.clone(), node: self.process_node(&rule.node) }
    }
}

} // verus!
