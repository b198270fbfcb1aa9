//! The lowering of a grammar to the functions of a recursive-descent parser.

pub mod laws;
pub mod model;

use crate::ast::{lemma_children_views, node_views, Grammar, Node};
use crate::case::{cased, to_case, Case};
use crate::parser_gen::laws::{lemma_lower_parts_counter, lemma_numbered_subs_upto_grows};
use crate::parser_gen::model::{
    call_action, generated, lower_func, lower_node, lower_parts, lower_rule, lower_rules,
    lower_split, lowerable, numbered_subs, numbered_subs_upto, plain_name, root_of,
};
use crate::text::decimal_text;
use crate::transform::model::literal_free;
use vstd::hash_set::StringHashSet;
use vstd::prelude::*;
use vstd::string::*;

verus! {

/// What stands for the type that the functions of a parser return: the
/// generator does not know that type.
pub const UNKNOWN_RET_TYPE: &'static str = "<todo>";

/// How often an action matches.
#[derive(Debug, Clone, Copy, PartialEq, Eq)]
pub enum MatchKind {
    /// Exactly once.
    Once,
    /// Once or not at all.
    ZeroOrOnce,
    /// Any number of times.
    ZeroOrMore,
    /// Once, and then any number of times.
    OnceOrMore,
}

/// One step of a parser function: match a token, or call a parser function.
#[derive(Debug, PartialEq, Eq)]
pub enum MatchRule {
    Token { match_kind: MatchKind, token_name: String, var_name: String, comment: String },
    Parser { match_kind: MatchKind, func_name: String, var_name: String, comment: String },
}

pub enum MatchRuleView {
    Token { match_kind: MatchKind, token_name: Seq<char>, var_name: Seq<char>, comment: Seq<char> },
    Parser { match_kind: MatchKind, func_name: Seq<char>, var_name: Seq<char>, comment: Seq<char> },
}

impl View for MatchRule {
    type V = MatchRuleView;

    open spec fn view(&self) -> MatchRuleView {
        match self {
            MatchRule::Token { match_kind, token_name, var_name, comment } => MatchRuleView::Token {
                match_kind: *match_kind,
                token_name: token_name@,
                var_name: var_name@,
                comment: comment@,
            },
            MatchRule::Parser {
                match_kind,
                func_name,
                var_name,
                comment,
            } => MatchRuleView::Parser {
                match_kind: *match_kind,
                func_name: func_name@,
                var_name: var_name@,
                comment: comment@,
            },
        }
    }
}

/// The models of a list of actions.
pub open spec fn rule_views(rules: Seq<MatchRule>) -> Seq<MatchRuleView> {
    Seq::new(rules.len(), |i: int| rules[i]@)
}

/// A function of the parser. With `ret_on_match` its actions are
/// alternatives, and it returns at the first that matches; without, they are
/// a sequence, and it returns when all have matched.
#[derive(Debug, PartialEq, Eq)]
pub struct Function {
    pub name: String,
    pub comment: String,
    pub ret_on_match: bool,
    pub actions: Vec<MatchRule>,
}

pub struct FunctionView {
    pub name: Seq<char>,
    pub comment: Seq<char>,
    pub ret_on_match: bool,
    pub actions: Seq<MatchRuleView>,
}

impl View for Function {
    type V = FunctionView;

    open spec fn view(&self) -> FunctionView {
        FunctionView {
            name: self.name@,
            comment: self.comment@,
            ret_on_match: self.ret_on_match,
            actions: rule_views(self.actions@),
        }
    }
}

/// The models of a list of functions.
pub open spec fn function_views(functions: Seq<Function>) -> Seq<FunctionView> {
    Seq::new(functions.len(), |i: int| functions[i]@)
}

/// The parser of a grammar, before any target language is chosen.
#[derive(Debug, PartialEq, Eq)]
pub struct ParserSpec {
    pub ret_type: String,
    pub functions: Vec<Function>,
}

pub struct ParserSpecView {
    pub ret_type: Seq<char>,
    pub functions: Seq<FunctionView>,
}

impl View for ParserSpec {
    type V = ParserSpecView;

    open spec fn view(&self) -> ParserSpecView {
        ParserSpecView { ret_type: self.ret_type@, functions: function_views(self.functions@) }
    }
}

/// What names a parser function: the rule it belongs to, the binding it was
/// made for, if any, and its number among the functions split off under the
/// rule, if it was split off.
pub struct FuncDataView {
    pub base: Seq<char>,
    pub sub_name: Option<Seq<char>>,
    pub sub_num: Option<nat>,
}

/// The cases that the names of a parser are put into.
#[derive(Debug, Clone, Copy, PartialEq, Eq)]
pub struct Cases {
    /// The case of the names of functions.
    pub function: Case,
    /// The case of the names of variables.
    pub var: Case,
}

/// What names a parser function.
#[derive(Debug, Clone, Copy)]
pub struct FuncData<'n> {
    base: &'n str,
    sub_name: Option<&'n str>,
    sub_num: Option<u32>,
}

impl<'n> View for FuncData<'n> {
    type V = FuncDataView;

    closed spec fn view(&self) -> FuncDataView {
        FuncDataView {
            base: self.base@,
            sub_name: match self.sub_name {
                Some(s) => Some(s@),
                None => None,
            },
            sub_num: match self.sub_num {
                Some(n) => Some(n as nat),
                None => None,
            },
        }
    }
}

impl<'n> FuncData<'n> {
    /// What names the function of the rule `base` itself.
    pub fn new(base: &'n str) -> (r: Self)
        ensures
            r@ == root_of(base@),
    {
        FuncData { base, sub_name: None, sub_num: None }
    }

    /// What names the next function split off: it takes the next free number
    /// from `counter`, which all the functions under one rule share.
    pub fn to_num_sub(&self, counter: &mut u32) -> (r: Self)
        requires
            *old(counter) < u32::MAX,
        ensures
            r@ == (FuncDataView { sub_num: Some(*old(counter) as nat), ..self@ }),
            *final(counter) == *old(counter) + 1,
    {
        let sub_num = *counter;
        *counter = sub_num + 1;
        FuncData { base: self.base, sub_name: self.sub_name, sub_num: Some(sub_num) }
    }

    /// What names the function of the binding `sub_name`.
    pub fn to_named_sub(&self, sub_name: &'n str) -> (r: Self)
        ensures
            r@ == (FuncDataView { sub_name: Some(sub_name@), ..self@ }),
    {
        FuncData { base: self.base, sub_name: Some(sub_name), sub_num: self.sub_num }
    }

    /// The name of the function before it is put into a case.
    pub fn plain_name(&self) -> (r: String)
        ensures
            r@ == plain_name(self@),
    {
        let mut r = String::from_str("parse_");
        r.append(self.base);
        match self.sub_name {
            Some(sub_name) => {
                proof {
                    reveal_strlit("_");
                }
                r.append("_");
                r.append(sub_name);
            },
            None => {},
        }
        match self.sub_num {
            Some(sub_num) => {
                let digits = decimal_text(sub_num as u64);
                r.append("_sub");
                r.append(digits.as_str());
            },
            None => {},
        }
        assert(r@ =~= plain_name(self@));
        r
    }

    /// The name of the function in the given case.
    pub fn name(&self, case: Case) -> (r: String)
        ensures
            r@ == cased(plain_name(self@), case),
    {
        let plain = self.plain_name();
        to_case(plain.as_str(), case)
    }

    /// The name of the rule that the function belongs to.
    pub fn base_name(&self) -> (r: &str)
        ensures
            r@ == self@.base,
    {
        self.base
    }
}

/// The naming conventions of a target language.
pub trait LangConfig {
    /// The case of variable names.
    fn var_case(&self) -> Case;

    /// The case of class names.
    fn class_case(&self) -> Case;

    /// The case of function names.
    fn function_case(&self) -> Case;

    /// The reserved words of the language.
    fn keywords(&self) -> StringHashSet;
}

/// The eight kinds of action that a backend writes text for: a token or a
/// parser function, matched in one of the four ways.
#[derive(Debug, Clone, Copy, PartialEq, Eq)]
pub enum Cell {
    TokenOnce,
    TokenZeroOrOnce,
    TokenZeroOrMore,
    TokenOnceOrMore,
    RuleOnce,
    RuleZeroOrOnce,
    RuleZeroOrMore,
    RuleOnceOrMore,
}

/// The kind of an action.
pub open spec fn cell_of(action: MatchRuleView) -> Cell {
    match action {
        MatchRuleView::Token { match_kind, .. } => match match_kind {
            MatchKind::Once => Cell::TokenOnce,
            MatchKind::ZeroOrOnce => Cell::TokenZeroOrOnce,
            MatchKind::ZeroOrMore => Cell::TokenZeroOrMore,
            MatchKind::OnceOrMore => Cell::TokenOnceOrMore,
        },
        MatchRuleView::Parser { match_kind, .. } => match match_kind {
            MatchKind::Once => Cell::RuleOnce,
            MatchKind::ZeroOrOnce => Cell::RuleZeroOrOnce,
            MatchKind::ZeroOrMore => Cell::RuleZeroOrMore,
            MatchKind::OnceOrMore => Cell::RuleOnceOrMore,
        },
    }
}

/// How often an action matches.
pub open spec fn cell_kind(action: MatchRuleView) -> MatchKind {
    match action {
        MatchRuleView::Token { match_kind, .. } => match_kind,
        MatchRuleView::Parser { match_kind, .. } => match_kind,
    }
}

/// A backend: it gives the text of a parser in one target language, piece
/// by piece. The library chooses the method for an action; the backend says
/// what the text is.
pub trait LangCodeGen {
    /// The text that opens the file.
    fn file_start(&self) -> String;

    /// The text that opens the class of the parser.
    fn class_start(&self) -> String;

    /// The text that closes the class of the parser.
    fn class_end(&self) -> String;

    /// The text that opens a function.
    fn func_start(&self, func: &Function, spec: &ParserSpec) -> String;

    /// The text that closes a function.
    fn func_end(&self, func: &Function, spec: &ParserSpec) -> String;

    /// The text of an action: the method for its kind gives it.
    fn action(&self, action: &MatchRule, func: &Function) -> (text: String)
        ensures
            match cell_of(action@) {
                Cell::TokenOnce => call_ensures(
                    Self::match_token_once,
                    (self, action, func),
                    text,
                ),
                Cell::TokenZeroOrOnce => call_ensures(
                    Self::match_token_zero_or_once,
                    (self, action, func),
                    text,
                ),
                Cell::TokenZeroOrMore => call_ensures(
                    Self::match_token_zero_or_more,
                    (self, action, func),
                    text,
                ),
                Cell::TokenOnceOrMore => call_ensures(
                    Self::match_token_once_or_more,
                    (self, action, func),
                    text,
                ),
                Cell::RuleOnce => call_ensures(Self::match_rule_once, (self, action, func), text),
                Cell::RuleZeroOrOnce => call_ensures(
                    Self::match_rule_zero_or_once,
                    (self, action, func),
                    text,
                ),
                Cell::RuleZeroOrMore => call_ensures(
                    Self::match_rule_zero_or_more,
                    (self, action, func),
                    text,
                ),
                Cell::RuleOnceOrMore => call_ensures(
                    Self::match_rule_once_or_more,
                    (self, action, func),
                    text,
                ),
            },
    {
        match action.cell() {
            Cell::TokenOnce => self.match_token_once(action, func),
            Cell::TokenZeroOrOnce => self.match_token_zero_or_once(action, func),
            Cell::TokenZeroOrMore => self.match_token_zero_or_more(action, func),
            Cell::TokenOnceOrMore => self.match_token_once_or_more(action, func),
            Cell::RuleOnce => self.match_rule_once(action, func),
            Cell::RuleZeroOrOnce => self.match_rule_zero_or_once(action, func),
            Cell::RuleZeroOrMore => self.match_rule_zero_or_more(action, func),
            Cell::RuleOnceOrMore => self.match_rule_once_or_more(action, func),
        }
    }

    /// The text for a token that has to match once.
    fn match_token_once(&self, action: &MatchRule, func: &Function) -> String
        requires
            cell_of(action@) == Cell::TokenOnce,
    ;

    /// The text for a token that may match once.
    fn match_token_zero_or_once(&self, action: &MatchRule, func: &Function) -> String
        requires
            cell_of(action@) == Cell::TokenZeroOrOnce,
    ;

    /// The text for a token that may match any number of times.
    fn match_token_zero_or_more(&self, action: &MatchRule, func: &Function) -> String
        requires
            cell_of(action@) == Cell::TokenZeroOrMore,
    ;

    /// The text for a token that has to match once and may match again.
    fn match_token_once_or_more(&self, action: &MatchRule, func: &Function) -> String
        requires
            cell_of(action@) == Cell::TokenOnceOrMore,
    ;

    /// The text for a call that has to match once.
    fn match_rule_once(&self, action: &MatchRule, func: &Function) -> String
        requires
            cell_of(action@) == Cell::RuleOnce,
    ;

    /// The text for a call that may match once.
    fn match_rule_zero_or_once(&self, action: &MatchRule, func: &Function) -> String
        requires
            cell_of(action@) == Cell::RuleZeroOrOnce,
    ;

    /// The text for a call that may match any number of times.
    fn match_rule_zero_or_more(&self, action: &MatchRule, func: &Function) -> String
        requires
            cell_of(action@) == Cell::RuleZeroOrMore,
    ;

    /// The text for a call that has to match once and may match again.
    fn match_rule_once_or_more(&self, action: &MatchRule, func: &Function) -> String
        requires
            cell_of(action@) == Cell::RuleOnceOrMore,
    ;
}

impl MatchRule {
    /// The kind of the action: what it matches, and how often.
    pub fn cell(&self) -> (c: Cell)
        ensures
            c == cell_of(self@),
    {
        match self {
            MatchRule::Token { match_kind, .. } => match match_kind {
                MatchKind::Once => Cell::TokenOnce,
                MatchKind::ZeroOrOnce => Cell::TokenZeroOrOnce,
                MatchKind::ZeroOrMore => Cell::TokenZeroOrMore,
                MatchKind::OnceOrMore => Cell::TokenOnceOrMore,
            },
            MatchRule::Parser { match_kind, .. } => match match_kind {
                MatchKind::Once => Cell::RuleOnce,
                MatchKind::ZeroOrOnce => Cell::RuleZeroOrOnce,
                MatchKind::ZeroOrMore => Cell::RuleZeroOrMore,
                MatchKind::OnceOrMore => Cell::RuleOnceOrMore,
            },
        }
    }
}

/// Whether a literal is left under the node.
pub fn has_literal(node: &Node) -> (r: bool)
    ensures
        r == !literal_free(node@),
    decreases node,
{
    proof {
        lemma_children_views(*node);
    }
    match node {
        Node::Binding { node: inner, .. } => has_literal(inner),
        Node::Alternatives { nodes } => {
            assert(node@->Alternatives_nodes == node_views(nodes@));
            any_has_literal(nodes)
        },
        Node::MultipartBody { nodes } => {
            assert(node@->MultipartBody_nodes == node_views(nodes@));
            any_has_literal(nodes)
        },
        Node::ZeroOrMore { node: inner } => has_literal(inner),
        Node::OneOrMore { node: inner } => has_literal(inner),
        Node::ZeroOrOne { node: inner, .. } => has_literal(inner),
        Node::RuleRef { .. } => false,
        Node::TokenRef { .. } => false,
        Node::TokenLit { .. } => true,
    }
}

/// Whether a literal is left under one of the nodes.
fn any_has_literal(nodes: &Vec<Node>) -> (r: bool)
    ensures
        r == !(forall|i: int|
            0 <= i < nodes.len() ==> literal_free(#[trigger] node_views(nodes@)[i])),
    decreases nodes,
{
    let ghost views = node_views(nodes@);
    let mut i: usize = 0;
    while i < nodes.len()
        invariant
            i <= nodes.len(),
            views == node_views(nodes@),
            forall|j: int| 0 <= j < i ==> literal_free(#[trigger] views[j]),
        decreases nodes.len() - i,
    {
        if has_literal(&nodes[i]) {
            assert(!literal_free(views[i as int]));
            return true;
        }
        i += 1;
    }
    false
}

/// How many functions are split off and numbered under a node, if the
/// count fits in 32 bits.
pub fn count_numbered_subs(node: &Node, top: bool) -> (r: Option<u32>)
    ensures
        match r {
            Some(n) => n == numbered_subs(node@, top),
            None => numbered_subs(node@, top) > u32::MAX,
        },
    decreases node, (if top { 0nat } else { 1nat }),
{
    proof {
        lemma_children_views(*node);
    }
    match node {
        Node::Binding { node: inner, .. } => count_numbered_subs(inner, true),
        Node::Alternatives { nodes } => {
            if top {
                count_numbered_subs_of(nodes)
            } else {
                match count_numbered_subs(node, true) {
                    Some(n) => if n < u32::MAX {
                        Some(n + 1)
                    } else {
                        None
                    },
                    None => None,
                }
            }
        },
        Node::MultipartBody { nodes } => {
            if top {
                count_numbered_subs_of(nodes)
            } else {
                match count_numbered_subs(node, true) {
                    Some(n) => if n < u32::MAX {
                        Some(n + 1)
                    } else {
                        None
                    },
                    None => None,
                }
            }
        },
        Node::ZeroOrMore { node: inner } => count_numbered_subs(inner, false),
        Node::OneOrMore { node: inner } => count_numbered_subs(inner, false),
        Node::ZeroOrOne { node: inner, .. } => count_numbered_subs(inner, false),
        Node::RuleRef { .. } => Some(0),
        Node::TokenRef { .. } => Some(0),
        Node::TokenLit { .. } => Some(0),
    }
}

/// How many functions are split off and numbered under the nodes of a list,
/// if the count fits in 32 bits.
fn count_numbered_subs_of(nodes: &Vec<Node>) -> (r: Option<u32>)
    ensures
        match r {
            Some(n) => n == numbered_subs_upto(node_views(nodes@), nodes.len() as nat),
            None => numbered_subs_upto(node_views(nodes@), nodes.len() as nat)
                > u32::MAX,
        },
    decreases nodes,
{
    let ghost views = node_views(nodes@);
    let mut total: u32 = 0;
    let mut i: usize = 0;
    while i < nodes.len()
        invariant
            i <= nodes.len(),
            views == node_views(nodes@),
            total == numbered_subs_upto(views, i as nat),
        decreases nodes.len() - i,
    {
        proof {
            lemma_numbered_subs_upto_grows(views, (i + 1) as nat, nodes.len() as nat);
            assert(views[i as int] == nodes[i as int]@);
        }
        match count_numbered_subs(&nodes[i], false) {
            Some(n) => {
                if n > u32::MAX - total {
                    return None;
                }
                total = total + n;
            },
            None => {
                return None;
            },
        }
        i += 1;
    }
    Some(total)
}

/// Whether the grammar can be lowered.
pub fn is_lowerable(grammar: &Grammar) -> (r: bool)
    ensures
        r == lowerable(grammar@),
{
    let mut i: usize = 0;
    while i < grammar.parser_rules.len()
        invariant
            i <= grammar.parser_rules.len(),
            forall|j: int| 0 <= j < i ==> literal_free(#[trigger] grammar@.parser_rules[j].node),
            forall|j: int|
                0 <= j < i ==> numbered_subs((#[trigger] grammar@.parser_rules[j]).node, true)
                    < u32::MAX,
        decreases grammar.parser_rules.len() - i,
    {
        assert(grammar@.parser_rules[i as int] == grammar.parser_rules[i as int]@);
        if has_literal(&grammar.parser_rules[i].node) {
            return false;
        }
        match count_numbered_subs(&grammar.parser_rules[i].node, true) {
            Some(n) => {
                if n == u32::MAX {
                    return false;
                }
            },
            None => {
                return false;
            },
        }
        i += 1;
    }
    true
}

/// The generator: it lowers the rules of a grammar one by one and collects
/// the functions.
pub struct ParserGen<L> {
    functions: Vec<Function>,
    lang_config: L,
}

impl<L: LangConfig> ParserGen<L> {
    /// The naming conventions that the generator was made with.
    pub closed spec fn config(&self) -> L {
        self.lang_config
    }

    /// The functions collected so far.
    pub closed spec fn made(&self) -> Seq<FunctionView> {
        function_views(self.functions@)
    }

    /// A generator for a target language, with no function made yet.
    pub fn new(config: L) -> (r: Self)
        ensures
            r.config() == config,
            r.made() == Seq::<FunctionView>::empty(),
    {
        let r = ParserGen { functions: Vec::new(), lang_config: config };
        assert(function_views(r.functions@) =~= Seq::<FunctionView>::empty());
        r
    }

    /// Lowers every parser rule of the grammar, in the order of declaration:
    /// each rule becomes the function named after it, which stands behind the
    /// functions made under it. The cases of the names are those that the
    /// naming conventions give, asked once.
    pub fn generate(self, grammar: &Grammar) -> (out: ParserSpec)
        requires
            lowerable(grammar@),
        ensures
            exists|cases: Cases|
                {
                    &&& call_ensures(L::function_case, (&self.config(),), cases.function)
                    &&& call_ensures(L::var_case, (&self.config(),), cases.var)
                    &&& out@ == #[trigger] generated(self.made(), cases, grammar@)
                },
    {
        let function = self.lang_config.function_case();
        let var = self.lang_config.var_case();
        self.generate_with(Cases { function, var }, grammar)
    }

    /// Lowers every parser rule of the grammar with the given cases for the
    /// names.
    pub fn generate_with(self, cases: Cases, grammar: &Grammar) -> (out: ParserSpec)
        requires
            lowerable(grammar@),
        ensures
            out@ == generated(self.made(), cases, grammar@),
    {
        let mut generator = self;
        let ghost rules = grammar@.parser_rules;
        let ghost made_before = function_views(self.functions@);
        generator.functions.reserve(grammar.parser_rules.len());
        let mut i: usize = 0;
        assert(made_before + lower_rules(cases, rules, 0) =~= made_before);
        while i < grammar.parser_rules.len()
            invariant
                i <= grammar.parser_rules.len(),
                rules == grammar@.parser_rules,
                lowerable(grammar@),
                function_views(generator.functions@) == made_before + lower_rules(
                    cases,
                    rules,
                    i as nat,
                ),
            decreases grammar.parser_rules.len() - i,
        {
            let rule = &grammar.parser_rules[i];
            let ghost before = function_views(generator.functions@);
            assert(rules[i as int] == rule@);
            let comment = rule.comment();
            let mut counter: u32 = 1;
            let root = FuncData::new(rule.name.as_str());
            generator.make_func(cases, &root, &mut counter, &rule.node, comment.as_str());
            assert(before + lower_rule(cases, rules[i as int]) =~= made_before + lower_rules(
                cases,
                rules,
                (i + 1) as nat,
            ));
            i += 1;
        }
        ParserSpec { ret_type: UNKNOWN_RET_TYPE.to_owned(), functions: generator.functions }
    }

    /// Makes the function named by `func_data` with `node` as its body, and
    /// puts it behind the functions made under the body.
    fn make_func(
        &mut self,
        cases: Cases,
        func_data: &FuncData,
        counter: &mut u32,
        node: &Node,
        comment: &str,
    )
        requires
            literal_free(node@),
            *old(counter) + numbered_subs(node@, true) <= u32::MAX,
        ensures
            final(self).lang_config == old(self).lang_config,
            ({
                let low = lower_func(
                    cases,
                    func_data@,
                    node@,
                    comment@,
                    *old(counter) as nat,
                );
                &&& function_views(final(self).functions@) == function_views(old(self).functions@)
                    + low.functions
                &&& *final(counter) == low.counter
            }),
        decreases node, 1nat,
    {
        let name = func_data.name(cases.function);
        let ret_on_match = match node {
            Node::MultipartBody { .. } => false,
            _ => true,
        };
        let kind = MatchKind::Once;
        let actions = self.process_node(cases, node, func_data, counter, comment, kind, true);
        let ghost before = function_views(self.functions@);
        let function = Function { name, comment: comment.to_owned(), ret_on_match, actions };
        self.functions.push(function);
        assert(function_views(self.functions@) =~= before.push(function@));
        proof {
            let low = lower_func(
                cases,
                func_data@,
                node@,
                comment@,
                *old(counter) as nat,
            );
            assert(function_views(self.functions@) =~= function_views(old(self).functions@)
                + low.functions);
        }
    }

    /// The action that calls the function named by `func_data`.
    fn process_rule_ref(
        &self,
        cases: Cases,
        func_data: &FuncData,
        var: &str,
        comment: &str,
        kind: MatchKind,
    ) -> (actions: Vec<MatchRule>)
        ensures
            rule_views(actions@) == seq![
                call_action(
                    cases,
                    func_data@,
                    var@,
                    comment@,
                    kind,
                ),
            ],
    {
        let var_name = to_case(var, cases.var);
        let mut actions: Vec<MatchRule> = Vec::new();
        actions.push(
            MatchRule::Parser {
                match_kind: kind,
                func_name: func_data.name(cases.function),
                var_name,
                comment: comment.to_owned(),
            },
        );
        assert(rule_views(actions@) =~= seq![
            call_action(
                cases,
                func_data@,
                var@,
                comment@,
                kind,
            ),
        ]);
        actions
    }

    /// Lowers a node that stands in the function named by `curr_func`.
    fn process_node(
        &mut self,
        cases: Cases,
        node: &Node,
        curr_func: &FuncData,
        counter: &mut u32,
        comment: &str,
        match_kind: MatchKind,
        top_level: bool,
    ) -> (actions: Vec<MatchRule>)
        requires
            literal_free(node@),
            *old(counter) + numbered_subs(node@, top_level) <= u32::MAX,
        ensures
            final(self).lang_config == old(self).lang_config,
            ({
                let low = lower_node(
                    cases,
                    node@,
                    curr_func@,
                    comment@,
                    match_kind,
                    top_level,
                    *old(counter) as nat,
                );
                &&& rule_views(actions@) == low.actions
                &&& function_views(final(self).functions@) == function_views(old(self).functions@)
                    + low.functions
                &&& *final(counter) == low.counter
            }),
        decreases node, (if top_level { 0nat } else { 3nat }),
    {
        let ghost before = function_views(self.functions@);
        proof {
            lemma_children_views(*node);
        }
        match node {
            Node::Binding { name, node: next_node } => {
                let func_name = curr_func.to_named_sub(name.as_str());
                let own = node.comment();
                self.make_func(cases, &func_name, counter, next_node, own.as_str());
                self.process_rule_ref(cases, &func_name, name.as_str(), comment, match_kind)
            },
            Node::Alternatives { nodes } => {
                proof {
                    let views = node_views(nodes@);
                    assert(node@->Alternatives_nodes == views);
                    assert forall|i: int| 0 <= i < nodes.len() implies literal_free(
                        #[trigger] nodes[i]@,
                    ) by {
                        assert(literal_free(views[i]));
                    }
                }
                if top_level {
                    self.process_parts(cases, nodes, curr_func, counter, MatchKind::ZeroOrOnce)
                } else {
                    self.process_split(cases, node, curr_func, counter, comment, match_kind)
                }
            },
            Node::MultipartBody { nodes } => {
                proof {
                    let views = node_views(nodes@);
                    assert(node@->MultipartBody_nodes == views);
                    assert forall|i: int| 0 <= i < nodes.len() implies literal_free(
                        #[trigger] nodes[i]@,
                    ) by {
                        assert(literal_free(views[i]));
                    }
                }
                if top_level {
                    self.process_parts(cases, nodes, curr_func, counter, MatchKind::Once)
                } else {
                    self.process_split(cases, node, curr_func, counter, comment, match_kind)
                }
            },
            Node::ZeroOrMore { node: inner } => {
                let kind = MatchKind::ZeroOrMore;
                self.process_node(cases, inner, curr_func, counter, comment, kind, false)
            },
            Node::OneOrMore { node: inner } => {
                let kind = MatchKind::OnceOrMore;
                self.process_node(cases, inner, curr_func, counter, comment, kind, false)
            },
            Node::ZeroOrOne { node: inner, .. } => {
                let kind = MatchKind::ZeroOrOnce;
                self.process_node(cases, inner, curr_func, counter, comment, kind, false)
            },
            Node::RuleRef { name } => {
                assert(before + Seq::<FunctionView>::empty() =~= before);
                let called = FuncData::new(name.as_str());
                self.process_rule_ref(cases, &called, name.as_str(), comment, match_kind)
            },
            Node::TokenRef { name, .. } => {
                let var_name = to_case(name.as_str(), cases.var);
                let mut actions: Vec<MatchRule> = Vec::new();
                actions.push(
                    MatchRule::Token {
                        match_kind,
                        token_name: name.clone(),
                        var_name,
                        comment: comment.to_owned(),
                    },
                );
                assert(before + Seq::<FunctionView>::empty() =~= before);
                assert(rule_views(actions@) =~= lower_node(
                    cases,
                    node@,
                    curr_func@,
                    comment@,
                    match_kind,
                    top_level,
                    *old(counter) as nat,
                ).actions);
                actions
            },
            Node::TokenLit { .. } => Vec::new(),
        }
    }

    /// Splits a choice or a sequence off into the function with the next
    /// free number.
    fn process_split(
        &mut self,
        cases: Cases,
        node: &Node,
        curr_func: &FuncData,
        counter: &mut u32,
        comment: &str,
        match_kind: MatchKind,
    ) -> (actions: Vec<MatchRule>)
        requires
            literal_free(node@),
            node@ is Alternatives || node@ is MultipartBody,
            *old(counter) + 1 + numbered_subs(node@, true) <= u32::MAX,
        ensures
            final(self).lang_config == old(self).lang_config,
            ({
                let low = lower_split(
                    cases,
                    node@,
                    curr_func@,
                    comment@,
                    match_kind,
                    *old(counter) as nat,
                );
                &&& rule_views(actions@) == low.actions
                &&& function_views(final(self).functions@) == function_views(old(self).functions@)
                    + low.functions
                &&& *final(counter) == low.counter
            }),
        decreases node, 2nat,
    {
        let func_name = curr_func.to_num_sub(counter);
        let own = node.comment();
        self.make_func(cases, &func_name, counter, node, own.as_str());
        self.process_rule_ref(cases, &func_name, curr_func.base_name(), comment, match_kind)
    }

    /// Lowers the members of a choice or a sequence at the top of a
    /// function, from left to right.
    fn process_parts(
        &mut self,
        cases: Cases,
        nodes: &Vec<Node>,
        curr_func: &FuncData,
        counter: &mut u32,
        kind: MatchKind,
    ) -> (actions: Vec<MatchRule>)
        requires
            forall|i: int| 0 <= i < nodes.len() ==> literal_free(#[trigger] nodes[i]@),
            *old(counter) + numbered_subs_upto(node_views(nodes@), nodes.len() as nat)
                <= u32::MAX,
        ensures
            final(self).lang_config == old(self).lang_config,
            ({
                let low = lower_parts(
                    cases,
                    node_views(nodes@),
                    nodes.len() as nat,
                    curr_func@,
                    kind,
                    *old(counter) as nat,
                );
                &&& rule_views(actions@) == low.actions
                &&& function_views(final(self).functions@) == function_views(old(self).functions@)
                    + low.functions
                &&& *final(counter) == low.counter
            }),
        decreases nodes,
    {
        let ghost views = node_views(nodes@);
        let ghost before = function_views(self.functions@);
        let ghost start = *counter as nat;
        let mut actions: Vec<MatchRule> = Vec::new();
        let mut i: usize = 0;
        assert(rule_views(actions@) =~= Seq::<MatchRuleView>::empty());
        assert(before + Seq::<FunctionView>::empty() =~= before);
        while i < nodes.len()
            invariant
                i <= nodes.len(),
                views == node_views(nodes@),
                forall|j: int| 0 <= j < nodes.len() ==> literal_free(#[trigger] nodes[j]@),
                start + numbered_subs_upto(views, nodes.len() as nat) <= u32::MAX,
                self.lang_config == old(self).lang_config,
                rule_views(actions@) == lower_parts(
                    cases,
                    views,
                    i as nat,
                    curr_func@,
                    kind,
                    start,
                ).actions,
                function_views(self.functions@) == before + lower_parts(
                    cases,
                    views,
                    i as nat,
                    curr_func@,
                    kind,
                    start,
                ).functions,
                *counter == lower_parts(cases, views, i as nat, curr_func@, kind, start).counter,
            decreases nodes.len() - i,
        {
            let ghost so_far = lower_parts(cases, views, i as nat, curr_func@, kind, start);
            let ghost made = function_views(self.functions@);
            let ghost acts = rule_views(actions@);
            proof {
                lemma_lower_parts_counter(cases, views, i as nat, curr_func@, kind, start);
                lemma_numbered_subs_upto_grows(views, (i + 1) as nat, nodes.len() as nat);
                assert(views[i as int] == nodes[i as int]@);
            }
            let node = &nodes[i];
            let own = node.comment();
            let text = own.as_str();
            let mut part = self.process_node(cases, node, curr_func, counter, text, kind, false);
            let ghost this = rule_views(part@);
            actions.append(&mut part);
            proof {
                assert(rule_views(actions@) =~= acts + this);
                let next = lower_parts(cases, views, (i + 1) as nat, curr_func@, kind, start);
                assert(function_views(self.functions@) =~= before + next.functions);
            }
            i += 1;
        }
        actions
    }
}

} // verus!
