//! Rust as a target language.

use crate::case::Case;
use crate::parser_gen::LangConfig;
use vstd::hash_set::StringHashSet;
use vstd::prelude::*;

verus! {

/// The words that Rust reserves, in every edition up to 2021: the keywords
/// in use and those kept for later.
pub open spec fn rust_keywords() -> Set<Seq<char>> {
    Set::<Seq<char>>::empty()
        .insert("as"@)
        .insert("break"@)
        .insert("const"@)
        .insert("continue"@)
        .insert("crate"@)
        .insert("else"@)
        .insert("enum"@)
        .insert("extern"@)
        .insert("false"@)
        .insert("fn"@)
        .insert("for"@)
        .insert("if"@)
        .insert("impl"@)
        .insert("in"@)
        .insert("let"@)
        .insert("loop"@)
        .insert("match"@)
        .insert("mod"@)
        .insert("move"@)
        .insert("mut"@)
        .insert("pub"@)
        .insert("ref"@)
        .insert("return"@)
        .insert("self"@)
        .insert("Self"@)
        .insert("static"@)
        .insert("struct"@)
        .insert("super"@)
        .insert("trait"@)
        .insert("true"@)
        .insert("type"@)
        .insert("unsafe"@)
        .insert("use"@)
        .insert("where"@)
        .insert("while"@)
        .insert("async"@)
        .insert("await"@)
        .insert("dyn"@)
        .insert("abstract"@)
        .insert("become"@)
        .insert("box"@)
        .insert("do"@)
        .insert("final"@)
        .insert("macro"@)
        .insert("override"@)
        .insert("priv"@)
        .insert("typeof"@)
        .insert("unsized"@)
        .insert("virtual"@)
        .insert("yield"@)
        .insert("try"@)
}

/// The naming conventions of Rust.
pub struct RustConfig;

impl LangConfig for RustConfig {
    fn var_case(&self) -> (c: Case)
        ensures
            c == Case::Snake,
    {
        Case::Snake
    }

    fn class_case(&self) -> (c: Case)
        ensures
            c == Case::UpperCamel,
    {
        Case::UpperCamel
    }

    fn function_case(&self) -> (c: Case)
        ensures
            c == Case::Snake,
    {
        Case::Snake
    }

    fn keywords(&self) -> (k: StringHashSet)
        ensures
            k@ == rust_keywords(),
    {
        let mut k = StringHashSet::new();
        k.insert("as".to_owned());
        k.insert("break".to_owned());
        k.insert("const".to_owned());
        k.insert("continue".to_owned());
        k.insert("crate".to_owned());
        k.insert("else".to_owned());
        k.insert("enum".to_owned());
        k.insert("extern".to_owned());
        k.insert("false".to_owned());
        k.insert("fn".to_owned());
        k.insert("for".to_owned());
        k.insert("if".to_owned());
        k.insert("impl".to_owned());
        k.insert("in".to_owned());
        k.insert("let".to_owned());
        k.insert("loop".to_owned());
        k.insert("match".to_owned());
        k.insert("mod".to_owned());
        k.insert("move".to_owned());
        k.insert("mut".to_owned());
        k.insert("pub".to_owned());
        k.insert("ref".to_owned());
        k.insert("return".to_owned());
        k.insert("self".to_owned());
        k.insert("Self".to_owned());
        k.insert("static".to_owned());
        k.insert("struct".to_owned());
        k.insert("super".to_owned());
        k.insert("trait".to_owned());
        k.insert("true".to_owned());
        k.insert("type".to_owned());
        k.insert("unsafe".to_owned());
        k.insert("use".to_owned());
        k.insert("where".to_owned());
        k.insert("while".to_owned());
        k.insert("async".to_owned());
        k.insert("await".to_owned());
        k.insert("dyn".to_owned());
        k.insert("abstract".to_owned());
        k.insert("become".to_owned());
        k.insert("box".to_owned());
        k.insert("do".to_owned());
        k.insert("final".to_owned());
        k.insert("macro".to_owned());
        k.insert("override".to_owned());
        k.insert("priv".to_owned());
        k.insert("typeof".to_owned());
        k.insert("unsized".to_owned());
        k.insert("virtual".to_owned());
        k.insert("yield".to_owned());
        k.insert("try".to_owned());
        k
    }
}

} // verus!
