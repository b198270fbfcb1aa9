use hrpg::ast::{Grammar, Node, ParserRule};
use hrpg::case::Case;
use hrpg::lang::rust::RustConfig;
use hrpg::parser_gen::{
    count_numbered_subs, has_literal, is_lowerable, FuncData, MatchKind, MatchRule, ParserGen,
};
use hrpg::text::decimal_text;

fn rule_ref(name: &str) -> Node {
    Node::RuleRef { name: name.to_string() }
}

fn token_ref(name: &str) -> Node {
    Node::TokenRef { name: name.to_string(), replaced_lit: None }
}

fn bound(name: &str, text: &str) -> Node {
    Node::TokenRef { name: name.to_string(), replaced_lit: Some(text.to_string()) }
}

fn grammar(rules: Vec<(&str, Node)>) -> Grammar {
    Grammar {
        parser_rules: rules
            .into_iter()
            .map(|(name, node)| ParserRule { name: name.to_string(), node })
            .collect(),
        token_rules: vec![],
    }
}

fn parser(kind: MatchKind, func: &str, var: &str, comment: &str) -> MatchRule {
    MatchRule::Parser {
        match_kind: kind,
        func_name: func.to_string(),
        var_name: var.to_string(),
        comment: comment.to_string(),
    }
}

fn token(kind: MatchKind, name: &str, var: &str, comment: &str) -> MatchRule {
    MatchRule::Token {
        match_kind: kind,
        token_name: name.to_string(),
        var_name: var.to_string(),
        comment: comment.to_string(),
    }
}

#[test]
fn sequence_lowers_to_one_function_of_once_actions() {
    let g = grammar(vec![(
        "value",
        Node::MultipartBody {
            nodes: vec![rule_ref("dict"), rule_ref("list"), token_ref("STRING")],
        },
    )]);
    let spec = ParserGen::new(RustConfig).generate(&g);
    assert_eq!(spec.functions.len(), 1);
    let f = &spec.functions[0];
    assert_eq!(f.name, "parse_value");
    assert_eq!(f.comment, "value: dict list STRING");
    assert!(!f.ret_on_match);
    assert_eq!(
        f.actions,
        vec![
            parser(MatchKind::Once, "parse_dict", "dict", "dict"),
            parser(MatchKind::Once, "parse_list", "list", "list"),
            token(MatchKind::Once, "STRING", "string", "STRING"),
        ]
    );
}

#[test]
fn choice_lowers_to_one_function_of_optional_actions() {
    let g = grammar(vec![(
        "value",
        Node::Alternatives { nodes: vec![rule_ref("dict"), rule_ref("list"), token_ref("STRING")] },
    )]);
    let spec = ParserGen::new(RustConfig).generate(&g);
    assert_eq!(spec.functions.len(), 1);
    let f = &spec.functions[0];
    assert_eq!(f.name, "parse_value");
    assert_eq!(f.comment, "value: dict | list | STRING");
    assert!(f.ret_on_match);
    assert_eq!(
        f.actions,
        vec![
            parser(MatchKind::ZeroOrOnce, "parse_dict", "dict", "dict"),
            parser(MatchKind::ZeroOrOnce, "parse_list", "list", "list"),
            token(MatchKind::ZeroOrOnce, "STRING", "string", "STRING"),
        ]
    );
}

#[test]
fn choice_under_a_binding_becomes_one_named_function() {
    let g = grammar(vec![(
        "pair",
        Node::MultipartBody {
            nodes: vec![
                rule_ref("key"),
                bound("COLON", "\":\""),
                Node::Binding {
                    name: "value".to_string(),
                    node: Box::new(Node::Alternatives {
                        nodes: vec![token_ref("STRING"), token_ref("NUMBER")],
                    }),
                },
            ],
        },
    )]);
    let spec = ParserGen::new(RustConfig).generate(&g);
    assert_eq!(spec.functions.len(), 2);
    let sub = &spec.functions[0];
    assert_eq!(sub.name, "parse_pair_value");
    assert_eq!(sub.comment, "value=STRING | NUMBER");
    assert!(sub.ret_on_match);
    assert_eq!(
        sub.actions,
        vec![
            token(MatchKind::ZeroOrOnce, "STRING", "string", "STRING"),
            token(MatchKind::ZeroOrOnce, "NUMBER", "number", "NUMBER"),
        ]
    );
    let root = &spec.functions[1];
    assert_eq!(root.name, "parse_pair");
    assert_eq!(root.comment, "pair: key \":\" value=STRING | NUMBER");
    assert!(!root.ret_on_match);
    assert_eq!(
        root.actions,
        vec![
            parser(MatchKind::Once, "parse_key", "key", "key"),
            token(MatchKind::Once, "COLON", "colon", "\":\""),
            parser(MatchKind::Once, "parse_pair_value", "value", "value=STRING | NUMBER"),
        ]
    );
}

#[test]
fn nested_containers_are_split_off_with_rising_numbers() {
    let inner = Node::Alternatives { nodes: vec![rule_ref("a"), rule_ref("b")] };
    let repeated = Node::ZeroOrMore {
        node: Box::new(Node::MultipartBody { nodes: vec![token_ref("COMMA"), inner] }),
    };
    let option = Node::ZeroOrOne {
        node: Box::new(Node::Alternatives { nodes: vec![rule_ref("c"), rule_ref("d")] }),
        brackets: true,
    };
    let g = grammar(vec![
        ("list", Node::MultipartBody { nodes: vec![rule_ref("a"), repeated, option] }),
        (
            "other",
            Node::OneOrMore {
                node: Box::new(Node::Alternatives { nodes: vec![rule_ref("x"), token_ref("Y")] }),
            },
        ),
    ]);
    let spec = ParserGen::new(RustConfig).generate(&g);
    let names: Vec<&str> = spec.functions.iter().map(|f| f.name.as_str()).collect();
    assert_eq!(
        names,
        vec![
            "parse_list_sub_2",
            "parse_list_sub_1",
            "parse_list_sub_3",
            "parse_list",
            "parse_other_sub_1",
            "parse_other",
        ]
    );
    assert_eq!(spec.functions[0].comment, "a | b");
    assert!(spec.functions[0].ret_on_match);
    assert_eq!(spec.functions[1].comment, "COMMA (a | b)");
    assert!(!spec.functions[1].ret_on_match);
    assert_eq!(
        spec.functions[1].actions,
        vec![
            token(MatchKind::Once, "COMMA", "comma", "COMMA"),
            parser(MatchKind::Once, "parse_list_sub_2", "list", "a | b"),
        ]
    );
    assert_eq!(
        spec.functions[3].actions,
        vec![
            parser(MatchKind::Once, "parse_a", "a", "a"),
            parser(MatchKind::ZeroOrMore, "parse_list_sub_1", "list", "(COMMA (a | b))*"),
            parser(MatchKind::ZeroOrOnce, "parse_list_sub_3", "list", "[c | d]"),
        ]
    );
    assert_eq!(spec.functions[5].comment, "other: (x | Y)+");
    assert!(spec.functions[5].ret_on_match);
    assert_eq!(
        spec.functions[5].actions,
        vec![parser(MatchKind::OnceOrMore, "parse_other_sub_1", "other", "other: (x | Y)+")]
    );
    assert_eq!(spec.ret_type, "<todo>");
}

#[test]
fn leaf_body_gives_a_function_that_returns_on_match() {
    let g = grammar(vec![("name", token_ref("IDENT")), ("alias", rule_ref("name"))]);
    let spec = ParserGen::new(RustConfig).generate(&g);
    assert_eq!(spec.functions.len(), 2);
    assert!(spec.functions[0].ret_on_match);
    assert_eq!(
        spec.functions[0].actions,
        vec![token(MatchKind::Once, "IDENT", "ident", "name: IDENT")]
    );
    assert!(spec.functions[1].ret_on_match);
    assert_eq!(
        spec.functions[1].actions,
        vec![parser(MatchKind::Once, "parse_name", "name", "alias: name")]
    );
}

#[test]
fn lowering_twice_gives_equal_parsers() {
    let g = grammar(vec![(
        "doc",
        Node::MultipartBody {
            nodes: vec![
                Node::ZeroOrMore {
                    node: Box::new(Node::Alternatives {
                        nodes: vec![rule_ref("a"), token_ref("B")],
                    }),
                },
                Node::Binding { name: "tail".to_string(), node: Box::new(rule_ref("c")) },
            ],
        },
    )]);
    let first = ParserGen::new(RustConfig).generate(&g);
    let second = ParserGen::new(RustConfig).generate(&g);
    assert_eq!(first, second);
    assert_eq!(first.functions.len(), 3);
}

#[test]
fn func_data_names() {
    let root = FuncData::new("value");
    assert_eq!(root.base_name(), "value");
    assert_eq!(root.plain_name(), "parse_value");
    let named = root.to_named_sub("key");
    assert_eq!(named.plain_name(), "parse_value_key");
    let mut counter: u32 = 1;
    let first = root.to_num_sub(&mut counter);
    assert_eq!(counter, 2);
    assert_eq!(first.plain_name(), "parse_value_sub1");
    let second = named.to_num_sub(&mut counter);
    assert_eq!(counter, 3);
    assert_eq!(second.plain_name(), "parse_value_key_sub2");
    assert_eq!(second.base_name(), "value");
    let renamed = first.to_named_sub("x");
    assert_eq!(renamed.plain_name(), "parse_value_x_sub1");
}

#[test]
fn func_data_name_is_put_into_the_case() {
    let root = FuncData::new("json_value");
    assert_eq!(root.name(Case::Snake), "parse_json_value");
    assert_eq!(root.name(Case::UpperCamel), "ParseJsonValue");
    assert_eq!(root.name(Case::Camel), "parseJsonValue");
    assert_eq!(root.name(Case::UpperSnake), "PARSE_JSON_VALUE");
    assert_eq!(root.name(Case::Kebab), "parse-json-value");
    assert_eq!(root.name(Case::UpperKebab), "PARSE-JSON-VALUE");
    assert_eq!(root.name(Case::Train), "Parse-Json-Value");
    assert_eq!(root.name(Case::Flat), "parsejsonvalue");
    assert_eq!(root.name(Case::UpperFlat), "PARSEJSONVALUE");
}

#[test]
fn decimal_text_of_numbers() {
    assert_eq!(decimal_text(0), "0");
    assert_eq!(decimal_text(7), "7");
    assert_eq!(decimal_text(10), "10");
    assert_eq!(decimal_text(4096), "4096");
    assert_eq!(decimal_text(u64::MAX), "18446744073709551615");
}

#[test]
fn literals_are_found_wherever_they_stand() {
    let lit = Node::TokenLit { literal: "'x'".to_string() };
    assert!(has_literal(&lit));
    assert!(!has_literal(&rule_ref("a")));
    assert!(!has_literal(&bound("X", "'x'")));
    let deep = Node::MultipartBody {
        nodes: vec![
            rule_ref("a"),
            Node::Binding {
                name: "b".to_string(),
                node: Box::new(Node::ZeroOrOne {
                    node: Box::new(Node::Alternatives {
                        nodes: vec![token_ref("C"), Node::OneOrMore { node: Box::new(lit) }],
                    }),
                    brackets: false,
                }),
            },
        ],
    };
    assert!(has_literal(&deep));
    assert!(!has_literal(&Node::Alternatives { nodes: vec![] }));
    assert!(!is_lowerable(&grammar(vec![("r", deep)])));
    assert!(is_lowerable(&grammar(vec![])));
}

#[test]
fn numbered_functions_are_counted() {
    let refs = Node::Alternatives { nodes: vec![rule_ref("a"), rule_ref("b")] };
    assert_eq!(count_numbered_subs(&refs, true), Some(0));
    assert_eq!(count_numbered_subs(&refs, false), Some(1));
    assert_eq!(count_numbered_subs(&rule_ref("a"), false), Some(0));
    let nested = Node::MultipartBody {
        nodes: vec![
            Node::ZeroOrMore { node: Box::new(refs) },
            Node::Binding {
                name: "x".to_string(),
                node: Box::new(Node::MultipartBody {
                    nodes: vec![
                        rule_ref("c"),
                        Node::Alternatives { nodes: vec![rule_ref("d"), rule_ref("e")] },
                    ],
                }),
            },
        ],
    };
    assert_eq!(count_numbered_subs(&nested, true), Some(2));
    assert_eq!(count_numbered_subs(&nested, false), Some(3));
    let spec = ParserGen::new(RustConfig).generate(&grammar(vec![("r", nested)]));
    let names: Vec<&str> = spec.functions.iter().map(|f| f.name.as_str()).collect();
    assert_eq!(names, vec!["parse_r_sub_1", "parse_r_x_sub_2", "parse_r_x", "parse_r"]);
}

#[test]
fn numbering_starts_again_with_each_rule() {
    let body = || Node::MultipartBody {
        nodes: vec![
            Node::Alternatives { nodes: vec![rule_ref("a"), rule_ref("b")] },
            Node::Alternatives { nodes: vec![rule_ref("c"), rule_ref("d")] },
        ],
    };
    let spec = ParserGen::new(RustConfig).generate(&grammar(vec![("p", body()), ("q", body())]));
    let names: Vec<&str> = spec.functions.iter().map(|f| f.name.as_str()).collect();
    assert_eq!(
        names,
        vec![
            "parse_p_sub_1",
            "parse_p_sub_2",
            "parse_p",
            "parse_q_sub_1",
            "parse_q_sub_2",
            "parse_q",
        ]
    );
}
