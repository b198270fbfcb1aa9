use hrpg::ast::{Grammar, Node, ParserRule, TokenRule};
use hrpg::transform::{strip_quotes, Transform};

fn lit(text: &str) -> Node {
    Node::TokenLit { literal: text.to_string() }
}

fn rule_ref(name: &str) -> Node {
    Node::RuleRef { name: name.to_string() }
}

fn token_ref(name: &str) -> Node {
    Node::TokenRef { name: name.to_string(), replaced_lit: None }
}

fn bound(name: &str, text: &str) -> Node {
    Node::TokenRef { name: name.to_string(), replaced_lit: Some(text.to_string()) }
}

fn parser_rule(name: &str, node: Node) -> ParserRule {
    ParserRule { name: name.to_string(), node }
}

fn token_rule(name: &str, text: &str) -> TokenRule {
    TokenRule { name: name.to_string(), literal: lit(text) }
}

fn has(names: &[String], name: &str) -> bool {
    names.iter().any(|n| n == name)
}

#[test]
fn reserved_tokens_are_always_there() {
    let g = Grammar { parser_rules: vec![], token_rules: vec![] };
    let (out, report) = Transform::process(&g);
    assert_eq!(report.token_names, vec!["EOF".to_string(), "ILLEGAL".to_string()]);
    assert!(report.errors.is_empty());
    assert!(out.parser_rules.is_empty());
    assert!(out.token_rules.is_empty());
}

#[test]
fn reserved_tokens_stay_when_the_grammar_declares_them() {
    let g = Grammar {
        parser_rules: vec![parser_rule("file", token_ref("EOF"))],
        token_rules: vec![token_rule("ILLEGAL", "\"?\"")],
    };
    let (_, report) = Transform::process(&g);
    assert_eq!(report.token_names, vec!["EOF".to_string(), "ILLEGAL".to_string()]);
}

#[test]
fn repeated_literal_resolves_to_equal_references() {
    let g = Grammar {
        parser_rules: vec![parser_rule(
            "list",
            Node::MultipartBody {
                nodes: vec![rule_ref("item"), lit("\",\""), rule_ref("item"), lit("\",\"")],
            },
        )],
        token_rules: vec![token_rule("COMMA", "\",\"")],
    };
    let (out, report) = Transform::process(&g);
    assert!(report.errors.is_empty());
    assert!(has(&report.token_names, "COMMA"));
    let expected = bound("COMMA", "\",\"");
    match &out.parser_rules[0].node {
        Node::MultipartBody { nodes } => {
            assert_eq!(nodes.len(), 4);
            assert_eq!(nodes[0], rule_ref("item"));
            assert_eq!(nodes[1], expected);
            assert_eq!(nodes[2], rule_ref("item"));
            assert_eq!(nodes[3], expected);
            assert_eq!(nodes[1], nodes[3]);
        }
        other => panic!("unexpected body {:?}", other),
    }
    assert_eq!(out.token_rules, g.token_rules);
}

#[test]
fn unresolved_literal_is_reported_once_for_each_occurrence() {
    let g = Grammar {
        parser_rules: vec![parser_rule(
            "sum",
            Node::MultipartBody {
                nodes: vec![rule_ref("a"), lit("\"+\""), rule_ref("b"), lit("\"+\"")],
            },
        )],
        token_rules: vec![],
    };
    let (out, report) = Transform::process(&g);
    assert_eq!(report.errors.len(), 2);
    assert_eq!(report.errors[0], "Literal \"+\" does not have corresponding rule");
    assert_eq!(report.errors[1], "Literal \"+\" does not have corresponding rule");
    assert_eq!(out.parser_rules, g.parser_rules);
}

#[test]
fn errors_keep_the_order_of_the_literals() {
    let g = Grammar {
        parser_rules: vec![
            parser_rule(
                "a",
                Node::Alternatives { nodes: vec![lit("'x'"), lit("';'"), lit("'y'")] },
            ),
            parser_rule("b", Node::ZeroOrMore { node: Box::new(lit("'z'")) }),
        ],
        token_rules: vec![token_rule("SEMI", "\";\"")],
    };
    let (out, report) = Transform::process(&g);
    assert_eq!(
        report.errors,
        vec![
            "Literal 'x' does not have corresponding rule".to_string(),
            "Literal 'y' does not have corresponding rule".to_string(),
            "Literal 'z' does not have corresponding rule".to_string(),
        ]
    );
    match &out.parser_rules[0].node {
        Node::Alternatives { nodes } => {
            assert_eq!(nodes[0], lit("'x'"));
            assert_eq!(nodes[1], bound("SEMI", "';'"));
            assert_eq!(nodes[2], lit("'y'"));
        }
        other => panic!("unexpected body {:?}", other),
    }
}

#[test]
fn reference_carries_the_text_of_the_first_literal_with_the_key() {
    let g = Grammar {
        parser_rules: vec![
            parser_rule("a", lit("';'")),
            parser_rule("b", Node::OneOrMore { node: Box::new(lit("\";\"")) }),
        ],
        token_rules: vec![token_rule("SEMI", "\";\"")],
    };
    let (out, report) = Transform::process(&g);
    assert!(report.errors.is_empty());
    assert_eq!(out.parser_rules[0].node, bound("SEMI", "';'"));
    assert_eq!(out.parser_rules[1].node, Node::OneOrMore { node: Box::new(bound("SEMI", "';'")) });
}

#[test]
fn later_token_rule_for_the_same_literal_wins() {
    let g = Grammar {
        parser_rules: vec![parser_rule("a", lit("\"=\""))],
        token_rules: vec![token_rule("EQ", "\"=\""), token_rule("ASSIGN", "\"=\"")],
    };
    let (out, report) = Transform::process(&g);
    assert_eq!(out.parser_rules[0].node, bound("ASSIGN", "\"=\""));
    assert_eq!(
        report.token_names,
        vec!["EOF".to_string(), "ILLEGAL".to_string(), "EQ".to_string(), "ASSIGN".to_string()]
    );
}

#[test]
fn token_names_hold_each_name_once_in_order() {
    let g = Grammar {
        parser_rules: vec![parser_rule(
            "pair",
            Node::MultipartBody {
                nodes: vec![
                    token_ref("STRING"),
                    token_ref("COLON"),
                    Node::Binding {
                        name: "value".to_string(),
                        node: Box::new(Node::Alternatives {
                            nodes: vec![token_ref("STRING"), token_ref("NUMBER")],
                        }),
                    },
                ],
            },
        )],
        token_rules: vec![token_rule("COLON", "\":\"")],
    };
    let (out, report) = Transform::process(&g);
    assert_eq!(
        report.token_names,
        vec![
            "EOF".to_string(),
            "ILLEGAL".to_string(),
            "COLON".to_string(),
            "STRING".to_string(),
            "NUMBER".to_string(),
        ]
    );
    assert_eq!(out, g);
}

#[test]
fn shape_is_kept_around_bound_literals() {
    let body = Node::Binding {
        name: "x".to_string(),
        node: Box::new(Node::ZeroOrOne {
            node: Box::new(Node::MultipartBody {
                nodes: vec![lit("\"(\""), rule_ref("e"), lit("\")\"")],
            }),
            brackets: true,
        }),
    };
    let g = Grammar {
        parser_rules: vec![parser_rule("p", body)],
        token_rules: vec![token_rule("LP", "\"(\""), token_rule("RP", "\")\"")],
    };
    let (out, report) = Transform::process(&g);
    assert!(report.errors.is_empty());
    let expected = Node::Binding {
        name: "x".to_string(),
        node: Box::new(Node::ZeroOrOne {
            node: Box::new(Node::MultipartBody {
                nodes: vec![bound("LP", "\"(\""), rule_ref("e"), bound("RP", "\")\"")],
            }),
            brackets: true,
        }),
    };
    assert_eq!(out.parser_rules[0].node, expected);
    assert_eq!(out.parser_rules[0].name, "p");
}

#[test]
fn strip_quotes_drops_first_and_last_character() {
    assert_eq!(strip_quotes("\"abc\""), "abc");
    assert_eq!(strip_quotes("'+'"), "+");
    assert_eq!(strip_quotes("ab"), "");
    assert_eq!(strip_quotes("a"), "");
    assert_eq!(strip_quotes(""), "");
    assert_eq!(strip_quotes("\"é→\""), "é→");
}

#[test]
fn reference_made_from_a_literal_passes_through() {
    let g = Grammar {
        parser_rules: vec![parser_rule(
            "a",
            Node::MultipartBody { nodes: vec![bound("PLUS", "'+'"), rule_ref("b")] },
        )],
        token_rules: vec![],
    };
    let (out, report) = Transform::process(&g);
    assert_eq!(out, g);
    assert!(report.errors.is_empty());
    assert!(has(&report.token_names, "PLUS"));
    assert_eq!(report.token_names.len(), 3);
}

#[test]
fn literal_of_one_character_has_the_empty_key() {
    let g = Grammar {
        parser_rules: vec![parser_rule("a", Node::Alternatives { nodes: vec![lit("x"), lit("")] })],
        token_rules: vec![token_rule("EMPTY", "\"\"")],
    };
    let (out, report) = Transform::process(&g);
    assert!(report.errors.is_empty());
    assert_eq!(
        out.parser_rules[0].node,
        Node::Alternatives { nodes: vec![bound("EMPTY", "x"), bound("EMPTY", "x")] }
    );
}

#[test]
fn pass_takes_grammars_whose_token_rules_hold_literals() {
    let good = Grammar {
        parser_rules: vec![parser_rule("a", lit("'x'"))],
        token_rules: vec![token_rule("X", "'x'"), token_rule("Y", "")],
    };
    assert!(Transform::accepts(&good));
    let bad = Grammar {
        parser_rules: vec![],
        token_rules: vec![
            token_rule("X", "'x'"),
            TokenRule { name: "Y".to_string(), literal: rule_ref("y") },
        ],
    };
    assert!(!Transform::accepts(&bad));
    assert!(Transform::accepts(&Grammar { parser_rules: vec![], token_rules: vec![] }));
}
