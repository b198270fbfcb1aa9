use hrpg::ast::{Node, ParserRule, TokenRule};

fn rule_ref(name: &str) -> Node {
    Node::RuleRef { name: name.to_string() }
}

fn token_ref(name: &str) -> Node {
    Node::TokenRef { name: name.to_string(), replaced_lit: None }
}

fn lit(text: &str) -> Node {
    Node::TokenLit { literal: text.to_string() }
}

fn choice(nodes: Vec<Node>) -> Node {
    Node::Alternatives { nodes }
}

fn sequence(nodes: Vec<Node>) -> Node {
    Node::MultipartBody { nodes }
}

#[test]
fn bracketed_option_renders_in_brackets() {
    let n = Node::ZeroOrOne { node: Box::new(rule_ref("foo")), brackets: true };
    assert_eq!(n.comment(), "[foo]");
}

#[test]
fn plain_option_renders_with_question_mark() {
    let n = Node::ZeroOrOne { node: Box::new(rule_ref("foo")), brackets: false };
    assert_eq!(n.comment(), "foo?");
}

#[test]
fn repeated_choice_renders_in_parentheses() {
    let n = Node::ZeroOrMore { node: Box::new(choice(vec![rule_ref("a"), rule_ref("b")])) };
    assert_eq!(n.comment(), "(a | b)*");
}

#[test]
fn leaves_render_as_themselves() {
    assert_eq!(rule_ref("value").comment(), "value");
    assert_eq!(token_ref("STRING").comment(), "STRING");
    let bound = Node::TokenRef { name: "COMMA".to_string(), replaced_lit: Some("','".to_string()) };
    assert_eq!(bound.comment(), "','");
    assert_eq!(lit("x").comment(), "\"x\"");
    assert_eq!(lit("").comment(), "\"\"");
}

#[test]
fn quantifiers_stand_behind_leaves_without_parentheses() {
    assert_eq!(Node::ZeroOrMore { node: Box::new(rule_ref("a")) }.comment(), "a*");
    assert_eq!(Node::OneOrMore { node: Box::new(token_ref("B")) }.comment(), "B+");
    assert_eq!(Node::OneOrMore { node: Box::new(lit("c")) }.comment(), "\"c\"+");
    assert_eq!(
        Node::ZeroOrOne { node: Box::new(token_ref("B")), brackets: false }.comment(),
        "B?"
    );
}

#[test]
fn quantifiers_put_containers_into_parentheses() {
    let seq = sequence(vec![rule_ref("a"), rule_ref("b")]);
    assert_eq!(Node::OneOrMore { node: Box::new(seq) }.comment(), "(a b)+");
    let bound = Node::Binding { name: "x".to_string(), node: Box::new(rule_ref("a")) };
    assert_eq!(Node::ZeroOrOne { node: Box::new(bound), brackets: false }.comment(), "(x=a)?");
    let inner = Node::ZeroOrMore { node: Box::new(rule_ref("a")) };
    assert_eq!(Node::OneOrMore { node: Box::new(inner) }.comment(), "(a*)+");
    let alts = choice(vec![rule_ref("a"), rule_ref("b")]);
    assert_eq!(Node::ZeroOrOne { node: Box::new(alts), brackets: true }.comment(), "[a | b]");
}

#[test]
fn sequence_puts_a_choice_among_its_parts_into_parentheses() {
    let n = sequence(vec![
        rule_ref("a"),
        choice(vec![rule_ref("b"), token_ref("C")]),
        sequence(vec![rule_ref("d"), rule_ref("e")]),
    ]);
    assert_eq!(n.comment(), "a (b | C) d e");
    assert_eq!(sequence(vec![]).comment(), "");
    assert_eq!(sequence(vec![rule_ref("a")]).comment(), "a");
    assert_eq!(choice(vec![]).comment(), "");
    assert_eq!(choice(vec![rule_ref("a")]).comment(), "a");
    let mixed = choice(vec![sequence(vec![rule_ref("a"), rule_ref("b")]), rule_ref("c")]);
    assert_eq!(mixed.comment(), "a b | c");
}

#[test]
fn binding_renders_with_its_name() {
    let n = Node::Binding {
        name: "value".to_string(),
        node: Box::new(choice(vec![token_ref("STRING"), token_ref("NUMBER")])),
    };
    assert_eq!(n.comment(), "value=STRING | NUMBER");
}

#[test]
fn rules_render_with_name_and_colon() {
    let rule = ParserRule {
        name: "value".to_string(),
        node: choice(vec![rule_ref("dict"), token_ref("STRING")]),
    };
    assert_eq!(rule.comment(), "value: dict | STRING");
    let token = TokenRule { name: "COMMA".to_string(), literal: lit("','") };
    assert_eq!(token.comment(), "COMMA: \"','\"");
}

#[test]
fn leaves_are_references_and_literals() {
    assert!(rule_ref("a").is_leaf());
    assert!(token_ref("A").is_leaf());
    assert!(lit("'a'").is_leaf());
    assert!(!choice(vec![]).is_leaf());
    assert!(!sequence(vec![rule_ref("a")]).is_leaf());
    assert!(!Node::ZeroOrMore { node: Box::new(rule_ref("a")) }.is_leaf());
    assert!(!Node::Binding { name: "x".to_string(), node: Box::new(rule_ref("a")) }.is_leaf());
}

#[test]
fn clone_copies_the_whole_tree() {
    let n = sequence(vec![
        Node::Binding {
            name: "x".to_string(),
            node: Box::new(Node::ZeroOrOne {
                node: Box::new(choice(vec![lit("'a'"), token_ref("B")])),
                brackets: true,
            }),
        },
        Node::OneOrMore {
            node: Box::new(Node::TokenRef {
                name: "C".to_string(),
                replaced_lit: Some("'c'".to_string()),
            }),
        },
        Node::ZeroOrMore { node: Box::new(rule_ref("d")) },
    ]);
    assert_eq!(n.clone(), n);
    let rule = ParserRule { name: "r".to_string(), node: n };
    assert_eq!(rule.clone(), rule);
    let token = TokenRule { name: "T".to_string(), literal: lit("'t'") };
    assert_eq!(token.clone(), token);
}
