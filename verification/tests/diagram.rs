use hrpg::ast::{Grammar, Node, ParserRule, TokenRule};
use hrpg::diagram::{draw_diagram, make_node, Diagram};

fn rule_ref(name: &str) -> Node {
    Node::RuleRef { name: name.to_string() }
}

fn non_terminal(name: &str) -> Diagram {
    Diagram::NonTerminal(name.to_string())
}

fn terminal(text: &str) -> Diagram {
    Diagram::Terminal(text.to_string())
}

#[test]
fn each_node_has_its_element() {
    assert_eq!(make_node(&rule_ref("a")), non_terminal("a"));
    assert_eq!(
        make_node(&Node::TokenRef { name: "T".to_string(), replaced_lit: None }),
        non_terminal("T")
    );
    assert_eq!(
        make_node(&Node::TokenRef { name: "T".to_string(), replaced_lit: Some("'t'".to_string()) }),
        terminal("'t'")
    );
    assert_eq!(make_node(&Node::TokenLit { literal: "\"x\"".to_string() }), terminal("\"x\""));
    assert_eq!(
        make_node(&Node::Binding { name: "b".to_string(), node: Box::new(rule_ref("a")) }),
        non_terminal("a")
    );
    assert_eq!(
        make_node(&Node::Alternatives { nodes: vec![rule_ref("a"), rule_ref("b")] }),
        Diagram::Choice(vec![non_terminal("a"), non_terminal("b")])
    );
    assert_eq!(
        make_node(&Node::MultipartBody { nodes: vec![rule_ref("a"), rule_ref("b")] }),
        Diagram::Sequence(vec![non_terminal("a"), non_terminal("b")])
    );
    assert_eq!(
        make_node(&Node::ZeroOrMore { node: Box::new(rule_ref("a")) }),
        Diagram::Optional(Box::new(Diagram::Repeat(Box::new(non_terminal("a")))))
    );
    assert_eq!(
        make_node(&Node::OneOrMore { node: Box::new(rule_ref("a")) }),
        Diagram::Repeat(Box::new(non_terminal("a")))
    );
    assert_eq!(
        make_node(&Node::ZeroOrOne { node: Box::new(rule_ref("a")), brackets: true }),
        Diagram::Optional(Box::new(non_terminal("a")))
    );
    assert_eq!(
        make_node(&Node::ZeroOrOne { node: Box::new(rule_ref("a")), brackets: false }),
        Diagram::Optional(Box::new(non_terminal("a")))
    );
}

#[test]
fn grammar_is_drawn_rule_by_rule() {
    let g = Grammar {
        parser_rules: vec![
            ParserRule { name: "a".to_string(), node: rule_ref("b") },
            ParserRule {
                name: "b".to_string(),
                node: Node::TokenLit { literal: "'x'".to_string() },
            },
        ],
        token_rules: vec![TokenRule {
            name: "X".to_string(),
            literal: Node::TokenLit { literal: "'x'".to_string() },
        }],
    };
    let track = |name: &str, body: Diagram| {
        let label = Diagram::Comment(name.to_string());
        Diagram::Sequence(vec![Diagram::Start, label, body, Diagram::End])
    };
    assert_eq!(
        draw_diagram(&g),
        Diagram::VerticalGrid(vec![
            track("a", non_terminal("b")),
            track("b", terminal("'x'")),
            track("X", terminal("'x'")),
        ])
    );
    assert_eq!(
        draw_diagram(&Grammar { parser_rules: vec![], token_rules: vec![] }),
        Diagram::VerticalGrid(vec![])
    );
}
