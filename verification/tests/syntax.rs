use hrpg::ast::{Grammar, Node, ParserRule, TokenRule};
use hrpg::syntax::{parse_hrpg, parse_lexemes, tokenize, Lexeme, LexemeKind, SyntaxError};

fn lit(text: &str) -> Node {
    Node::TokenLit { literal: text.to_string() }
}

fn rule_ref(name: &str) -> Node {
    Node::RuleRef { name: name.to_string() }
}

fn token_ref(name: &str) -> Node {
    Node::TokenRef { name: name.to_string(), replaced_lit: None }
}

fn parser_rule(name: &str, node: Node) -> ParserRule {
    ParserRule { name: name.to_string(), node }
}

fn lexeme(kind: LexemeKind, text: &str, pos: usize) -> Lexeme {
    Lexeme { kind, text: text.to_string(), pos }
}

#[test]
fn empty_text_is_the_empty_grammar() {
    assert_eq!(parse_hrpg(""), Ok(Grammar { parser_rules: vec![], token_rules: vec![] }));
    assert_eq!(parse_hrpg(" \n\t\r "), Ok(Grammar { parser_rules: vec![], token_rules: vec![] }));
}

#[test]
fn tokenize_gives_kinds_texts_and_positions() {
    let lexemes = tokenize("ab_1: X2 \"a b\"* | 'c'?;").unwrap();
    assert_eq!(
        lexemes,
        vec![
            lexeme(LexemeKind::RuleName, "ab_1", 0),
            lexeme(LexemeKind::Colon, ":", 4),
            lexeme(LexemeKind::TokenName, "X2", 6),
            lexeme(LexemeKind::Literal, "\"a b\"", 9),
            lexeme(LexemeKind::Star, "*", 14),
            lexeme(LexemeKind::Pipe, "|", 16),
            lexeme(LexemeKind::Literal, "'c'", 18),
            lexeme(LexemeKind::Question, "?", 21),
            lexeme(LexemeKind::Semicolon, ";", 22),
            lexeme(LexemeKind::End, "", 23),
        ]
    );
}

#[test]
fn tokenize_knows_every_punctuation() {
    let lexemes = tokenize(":;|=*+?[]()").unwrap();
    let kinds: Vec<LexemeKind> = lexemes.into_iter().map(|l| l.kind).collect();
    assert_eq!(
        kinds,
        vec![
            LexemeKind::Colon,
            LexemeKind::Semicolon,
            LexemeKind::Pipe,
            LexemeKind::Equals,
            LexemeKind::Star,
            LexemeKind::Plus,
            LexemeKind::Question,
            LexemeKind::LBracket,
            LexemeKind::RBracket,
            LexemeKind::LParen,
            LexemeKind::RParen,
            LexemeKind::End,
        ]
    );
}

#[test]
fn tokenize_counts_positions_in_characters() {
    let lexemes = tokenize("'é→' x").unwrap();
    assert_eq!(
        lexemes,
        vec![
            lexeme(LexemeKind::Literal, "'é→'", 0),
            lexeme(LexemeKind::RuleName, "x", 5),
            lexeme(LexemeKind::End, "", 6),
        ]
    );
}

#[test]
fn names_change_kind_with_the_case() {
    let lexemes = tokenize("abC_d").unwrap();
    assert_eq!(
        lexemes,
        vec![
            lexeme(LexemeKind::RuleName, "ab", 0),
            lexeme(LexemeKind::TokenName, "C_", 2),
            lexeme(LexemeKind::RuleName, "d", 4),
            lexeme(LexemeKind::End, "", 5),
        ]
    );
}

#[test]
fn sequence_rule_is_parsed() {
    let g = parse_hrpg("value: dict list STRING;").unwrap();
    assert_eq!(
        g.parser_rules,
        vec![parser_rule(
            "value",
            Node::MultipartBody {
                nodes: vec![rule_ref("dict"), rule_ref("list"), token_ref("STRING")],
            }
        )]
    );
    assert!(g.token_rules.is_empty());
}

#[test]
fn choice_rule_is_parsed() {
    let g = parse_hrpg("value: dict | list | STRING;").unwrap();
    assert_eq!(
        g.parser_rules,
        vec![parser_rule(
            "value",
            Node::Alternatives {
                nodes: vec![rule_ref("dict"), rule_ref("list"), token_ref("STRING")],
            }
        )]
    );
}

#[test]
fn single_element_stands_for_itself() {
    let g = parse_hrpg("a: b; c: (D);").unwrap();
    assert_eq!(
        g.parser_rules,
        vec![parser_rule("a", rule_ref("b")), parser_rule("c", token_ref("D"))]
    );
}

#[test]
fn token_rules_and_parser_rules_go_to_their_lists() {
    let g = parse_hrpg("COMMA: \",\";\nlist: item (\",\" item)*;\nSEMI: ';';").unwrap();
    assert_eq!(
        g.token_rules,
        vec![
            TokenRule { name: "COMMA".to_string(), literal: lit("\",\"") },
            TokenRule { name: "SEMI".to_string(), literal: lit("';'") },
        ]
    );
    assert_eq!(
        g.parser_rules,
        vec![parser_rule(
            "list",
            Node::MultipartBody {
                nodes: vec![
                    rule_ref("item"),
                    Node::ZeroOrMore {
                        node: Box::new(Node::MultipartBody {
                            nodes: vec![lit("\",\""), rule_ref("item")],
                        }),
                    },
                ],
            }
        )]
    );
}

#[test]
fn quantifiers_and_brackets_are_parsed() {
    let g = parse_hrpg("r: a* B+ 'c'? [d | e] (f g)?;").unwrap();
    assert_eq!(
        g.parser_rules[0].node,
        Node::MultipartBody {
            nodes: vec![
                Node::ZeroOrMore { node: Box::new(rule_ref("a")) },
                Node::OneOrMore { node: Box::new(token_ref("B")) },
                Node::ZeroOrOne { node: Box::new(lit("'c'")), brackets: false },
                Node::ZeroOrOne {
                    node: Box::new(Node::Alternatives {
                        nodes: vec![rule_ref("d"), rule_ref("e")],
                    }),
                    brackets: true,
                },
                Node::ZeroOrOne {
                    node: Box::new(Node::MultipartBody {
                        nodes: vec![rule_ref("f"), rule_ref("g")],
                    }),
                    brackets: false,
                },
            ],
        }
    );
}

#[test]
fn binding_holds_the_parts_behind_it() {
    let g = parse_hrpg("pair: key \":\" (value=(STRING | NUMBER)); p: x=a b | y=C;").unwrap();
    assert_eq!(
        g.parser_rules[0].node,
        Node::MultipartBody {
            nodes: vec![
                rule_ref("key"),
                lit("\":\""),
                Node::Binding {
                    name: "value".to_string(),
                    node: Box::new(Node::Alternatives {
                        nodes: vec![token_ref("STRING"), token_ref("NUMBER")],
                    }),
                },
            ],
        }
    );
    assert_eq!(
        g.parser_rules[1].node,
        Node::Alternatives {
            nodes: vec![
                Node::Binding {
                    name: "x".to_string(),
                    node: Box::new(Node::MultipartBody {
                        nodes: vec![rule_ref("a"), rule_ref("b")],
                    }),
                },
                Node::Binding { name: "y".to_string(), node: Box::new(token_ref("C")) },
            ],
        }
    );
}

#[test]
fn rendering_a_parsed_rule_gives_its_text_back() {
    let text = "list: head=item (COMMA item)* [tail | END]";
    let g = parse_hrpg("list: head=item (COMMA item)* [tail | END];").unwrap();
    assert_eq!(g.parser_rules[0].comment(), text);
}

#[test]
fn unexpected_character_is_reported() {
    assert_eq!(parse_hrpg("a: b # c;"), Err(SyntaxError::UnexpectedCharacter { position: 5 }));
    assert_eq!(parse_hrpg("_a: b;"), Err(SyntaxError::UnexpectedCharacter { position: 0 }));
}

#[test]
fn unterminated_literal_is_reported() {
    assert_eq!(parse_hrpg("a: \"b;"), Err(SyntaxError::UnterminatedLiteral { position: 3 }));
    assert_eq!(parse_hrpg("a: 'b\";"), Err(SyntaxError::UnterminatedLiteral { position: 3 }));
    assert_eq!(parse_hrpg("a: '"), Err(SyntaxError::UnterminatedLiteral { position: 3 }));
}

#[test]
fn unexpected_lexeme_is_reported() {
    assert_eq!(parse_hrpg("a b;"), Err(SyntaxError::UnexpectedLexeme { position: 2 }));
    assert_eq!(parse_hrpg("a: ;"), Err(SyntaxError::UnexpectedLexeme { position: 3 }));
    assert_eq!(parse_hrpg("a: b | ;"), Err(SyntaxError::UnexpectedLexeme { position: 7 }));
    assert_eq!(parse_hrpg("a: (b;"), Err(SyntaxError::UnexpectedLexeme { position: 5 }));
    assert_eq!(parse_hrpg("a: [b);"), Err(SyntaxError::UnexpectedLexeme { position: 5 }));
    assert_eq!(parse_hrpg("A: b;"), Err(SyntaxError::UnexpectedLexeme { position: 3 }));
    assert_eq!(parse_hrpg("A: 'b' 'c';"), Err(SyntaxError::UnexpectedLexeme { position: 7 }));
    assert_eq!(parse_hrpg(": a;"), Err(SyntaxError::UnexpectedLexeme { position: 0 }));
    assert_eq!(
        parse_hrpg("pair: key \":\" value=(STRING | NUMBER);"),
        Err(SyntaxError::UnexpectedLexeme { position: 19 })
    );
}

#[test]
fn unexpected_end_is_reported() {
    assert_eq!(parse_hrpg("a: b"), Err(SyntaxError::UnexpectedEnd { position: 4 }));
    assert_eq!(parse_hrpg("a"), Err(SyntaxError::UnexpectedEnd { position: 1 }));
    assert_eq!(parse_hrpg("a: (b | "), Err(SyntaxError::UnexpectedEnd { position: 8 }));
    assert_eq!(parse_hrpg("A: 'x' "), Err(SyntaxError::UnexpectedEnd { position: 7 }));
}

#[test]
fn lexemes_without_an_end_are_read_to_the_last() {
    let lexemes = vec![
        lexeme(LexemeKind::RuleName, "a", 0),
        lexeme(LexemeKind::Colon, ":", 1),
        lexeme(LexemeKind::RuleName, "b", 3),
        lexeme(LexemeKind::Semicolon, ";", 4),
    ];
    assert_eq!(
        parse_lexemes(&lexemes),
        Ok(Grammar { parser_rules: vec![parser_rule("a", rule_ref("b"))], token_rules: vec![] })
    );
    let cut = copies(&lexemes[..3]);
    assert_eq!(parse_lexemes(&cut), Err(SyntaxError::UnexpectedEnd { position: 3 }));
    assert_eq!(parse_lexemes(&vec![]), Ok(Grammar { parser_rules: vec![], token_rules: vec![] }));
}

fn copies(lexemes: &[Lexeme]) -> Vec<Lexeme> {
    lexemes.iter().map(|l| lexeme(l.kind, &l.text, l.pos)).collect()
}

#[test]
fn messages_name_the_fault_and_the_position() {
    assert_eq!(
        SyntaxError::UnexpectedCharacter { position: 5 }.message(),
        "unexpected character at position 5"
    );
    assert_eq!(
        SyntaxError::UnterminatedLiteral { position: 12 }.message(),
        "literal without closing quote at position 12"
    );
    assert_eq!(
        SyntaxError::UnexpectedLexeme { position: 0 }.message(),
        "unexpected lexeme at position 0"
    );
    assert_eq!(
        SyntaxError::UnexpectedEnd { position: 104 }.message(),
        "unexpected end of text at position 104"
    );
    assert_eq!(SyntaxError::UnexpectedEnd { position: 104 }.position(), 104);
}
