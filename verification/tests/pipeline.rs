use hrpg::lang::rust::RustConfig;
use hrpg::parser_gen::{is_lowerable, MatchKind, MatchRule, ParserGen};
use hrpg::syntax::parse_hrpg;
use hrpg::transform::Transform;

const JSON: &str = "
value: dict | list | STRING | NUMBER | 'true' | 'false' | 'null';
dict: '{' [pair (',' pair)*] '}';
pair: key=STRING ':' value;
list: '[' [value (',' value)*] ']';
TRUE: 'true';
FALSE: 'false';
NULL: 'null';
LBRACE: '{';
RBRACE: '}';
LBRACKET: '[';
RBRACKET: ']';
COMMA: ',';
COLON: ':';
";

#[test]
fn json_grammar_goes_through_the_pipeline() {
    let g = parse_hrpg(JSON).unwrap();
    assert_eq!(g.parser_rules.len(), 4);
    assert_eq!(g.token_rules.len(), 9);
    assert!(!is_lowerable(&g));
    let (bound, report) = Transform::process(&g);
    assert!(report.errors.is_empty());
    assert_eq!(report.token_names.len(), 13);
    assert!(is_lowerable(&bound));
    let spec = ParserGen::new(RustConfig).generate(&bound);
    let names: Vec<&str> = spec.functions.iter().map(|f| f.name.as_str()).collect();
    assert_eq!(
        names,
        vec![
            "parse_value",
            "parse_dict_sub_2",
            "parse_dict_sub_1",
            "parse_dict",
            "parse_pair_key",
            "parse_pair",
            "parse_list_sub_2",
            "parse_list_sub_1",
            "parse_list",
        ]
    );
    assert_eq!(spec.functions[0].actions.len(), 7);
    assert_eq!(
        spec.functions[0].actions[4],
        MatchRule::Token {
            match_kind: MatchKind::ZeroOrOnce,
            token_name: "TRUE".to_string(),
            var_name: "true".to_string(),
            comment: "'true'".to_string(),
        }
    );
    assert_eq!(spec.functions[3].comment, "dict: '{' [pair (',' pair)*] '}'");
    assert_eq!(
        spec.functions[3].actions[1],
        MatchRule::Parser {
            match_kind: MatchKind::ZeroOrOnce,
            func_name: "parse_dict_sub_1".to_string(),
            var_name: "dict".to_string(),
            comment: "[pair (',' pair)*]".to_string(),
        }
    );
}

#[test]
fn pipeline_is_deterministic() {
    let g = parse_hrpg(JSON).unwrap();
    let (first_bound, first_report) = Transform::process(&g);
    let (second_bound, second_report) = Transform::process(&g);
    assert_eq!(first_bound, second_bound);
    assert_eq!(first_report.token_names, second_report.token_names);
    assert_eq!(first_report.errors, second_report.errors);
    let first = ParserGen::new(RustConfig).generate(&first_bound);
    let second = ParserGen::new(RustConfig).generate(&second_bound);
    assert_eq!(first, second);
}

#[test]
fn grammar_with_a_literal_left_is_not_lowerable() {
    let g = parse_hrpg("sum: a '+' b '+' c;").unwrap();
    let (bound, report) = Transform::process(&g);
    assert_eq!(report.errors.len(), 2);
    assert!(!is_lowerable(&bound));
    assert!(!is_lowerable(&g));
}
