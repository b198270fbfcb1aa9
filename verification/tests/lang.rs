use hrpg::ast::{Grammar, Node, ParserRule};
use hrpg::case::Case;
use hrpg::lang::rust::RustConfig;
use hrpg::parser_gen::{
    Cases, Cell, Function, LangCodeGen, LangConfig, MatchKind, MatchRule, ParserGen, ParserSpec,
};
use vstd::hash_set::StringHashSet;

#[test]
fn rust_config_cases() {
    assert_eq!(RustConfig.var_case(), Case::Snake);
    assert_eq!(RustConfig.class_case(), Case::UpperCamel);
    assert_eq!(RustConfig.function_case(), Case::Snake);
}

#[test]
fn rust_config_keywords() {
    let k = RustConfig.keywords();
    assert_eq!(k.len(), 51);
    for word in ["fn", "match", "Self", "self", "async", "yield", "try", "where"] {
        assert!(k.contains(word), "{} is reserved", word);
    }
    assert!(!k.contains("parse"));
    assert!(!k.contains(""));
}

/// A backend that gives the name of the method called.
struct Names;

impl LangCodeGen for Names {
    fn file_start(&self) -> String {
        "file_start;".to_string()
    }

    fn class_start(&self) -> String {
        "class_start;".to_string()
    }

    fn class_end(&self) -> String {
        "class_end;".to_string()
    }

    fn func_start(&self, func: &Function, _spec: &ParserSpec) -> String {
        format!("func_start {};", func.name)
    }

    fn func_end(&self, func: &Function, _spec: &ParserSpec) -> String {
        format!("func_end {};", func.name)
    }

    fn match_token_once(&self, _action: &MatchRule, _func: &Function) -> String {
        "match_token_once;".to_string()
    }

    fn match_token_zero_or_once(&self, _action: &MatchRule, _func: &Function) -> String {
        "match_token_zero_or_once;".to_string()
    }

    fn match_token_zero_or_more(&self, _action: &MatchRule, _func: &Function) -> String {
        "match_token_zero_or_more;".to_string()
    }

    fn match_token_once_or_more(&self, _action: &MatchRule, _func: &Function) -> String {
        "match_token_once_or_more;".to_string()
    }

    fn match_rule_once(&self, _action: &MatchRule, _func: &Function) -> String {
        "match_rule_once;".to_string()
    }

    fn match_rule_zero_or_once(&self, _action: &MatchRule, _func: &Function) -> String {
        "match_rule_zero_or_once;".to_string()
    }

    fn match_rule_zero_or_more(&self, _action: &MatchRule, _func: &Function) -> String {
        "match_rule_zero_or_more;".to_string()
    }

    fn match_rule_once_or_more(&self, _action: &MatchRule, _func: &Function) -> String {
        "match_rule_once_or_more;".to_string()
    }
}

/// Naming conventions other than those of Rust.
struct Shouting;

impl LangConfig for Shouting {
    fn var_case(&self) -> Case {
        Case::Camel
    }

    fn class_case(&self) -> Case {
        Case::UpperCamel
    }

    fn function_case(&self) -> Case {
        Case::UpperSnake
    }

    fn keywords(&self) -> StringHashSet {
        StringHashSet::new()
    }
}

#[test]
fn generator_takes_the_cases_of_its_config() {
    let g = Grammar {
        parser_rules: vec![ParserRule {
            name: "json_value".to_string(),
            node: Node::Alternatives {
                nodes: vec![
                    Node::RuleRef { name: "json_dict".to_string() },
                    Node::TokenRef { name: "STRING_LIT".to_string(), replaced_lit: None },
                ],
            },
        }],
        token_rules: vec![],
    };
    let spec = ParserGen::new(Shouting).generate(&g);
    assert_eq!(spec.functions.len(), 1);
    assert_eq!(spec.functions[0].name, "PARSE_JSON_VALUE");
    assert_eq!(
        spec.functions[0].actions,
        vec![
            MatchRule::Parser {
                match_kind: MatchKind::ZeroOrOnce,
                func_name: "PARSE_JSON_DICT".to_string(),
                var_name: "jsonDict".to_string(),
                comment: "json_dict".to_string(),
            },
            MatchRule::Token {
                match_kind: MatchKind::ZeroOrOnce,
                token_name: "STRING_LIT".to_string(),
                var_name: "stringLit".to_string(),
                comment: "STRING_LIT".to_string(),
            },
        ]
    );
    let cases = Cases { function: Case::UpperSnake, var: Case::Camel };
    let same = ParserGen::new(Shouting).generate_with(cases, &g);
    assert_eq!(spec, same);
    let cases = Cases { function: Case::Kebab, var: Case::Flat };
    let other = ParserGen::new(Shouting).generate_with(cases, &g);
    assert_eq!(other.functions[0].name, "parse-json-value");
    assert_eq!(
        other.functions[0].actions[0],
        MatchRule::Parser {
            match_kind: MatchKind::ZeroOrOnce,
            func_name: "parse-json-dict".to_string(),
            var_name: "jsondict".to_string(),
            comment: "json_dict".to_string(),
        }
    );
}

fn token(kind: MatchKind) -> MatchRule {
    MatchRule::Token {
        match_kind: kind,
        token_name: "T".to_string(),
        var_name: "t".to_string(),
        comment: "T".to_string(),
    }
}

fn parser(kind: MatchKind) -> MatchRule {
    MatchRule::Parser {
        match_kind: kind,
        func_name: "parse_r".to_string(),
        var_name: "r".to_string(),
        comment: "r".to_string(),
    }
}

#[test]
fn action_calls_the_method_of_its_cell() {
    let func = Function {
        name: "parse_x".to_string(),
        comment: "x: T".to_string(),
        ret_on_match: true,
        actions: vec![],
    };
    let cases = vec![
        (token(MatchKind::Once), "match_token_once;"),
        (token(MatchKind::ZeroOrOnce), "match_token_zero_or_once;"),
        (token(MatchKind::ZeroOrMore), "match_token_zero_or_more;"),
        (token(MatchKind::OnceOrMore), "match_token_once_or_more;"),
        (parser(MatchKind::Once), "match_rule_once;"),
        (parser(MatchKind::ZeroOrOnce), "match_rule_zero_or_once;"),
        (parser(MatchKind::ZeroOrMore), "match_rule_zero_or_more;"),
        (parser(MatchKind::OnceOrMore), "match_rule_once_or_more;"),
    ];
    for (action, expected) in cases {
        assert_eq!(Names.action(&action, &func), expected);
    }
    assert_eq!(token(MatchKind::ZeroOrMore).cell(), Cell::TokenZeroOrMore);
    assert_eq!(parser(MatchKind::Once).cell(), Cell::RuleOnce);
    assert_eq!(Names.file_start(), "file_start;");
    let spec = ParserSpec { ret_type: String::new(), functions: vec![] };
    assert_eq!(Names.func_start(&func, &spec), "func_start parse_x;");
    assert_eq!(Names.func_end(&func, &spec), "func_end parse_x;");
}

#[test]
fn cells_are_distinct() {
    assert_ne!(Cell::TokenOnce, Cell::RuleOnce);
    assert_eq!(Cell::RuleZeroOrMore, Cell::RuleZeroOrMore);
}
