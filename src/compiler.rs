//! The pipeline from source text to a function body: tokenize, parse each
//! statement group, lower the statements in order.
use vstd::prelude::*;

use cranelift::frontend::FunctionBuilder;

use crate::lowering::{
    block_filled, cranelift_treverse_tree, declared_slots, lower_all, positioned, program_terms,
    result_term, returned_term, FunctionTranslator, LowerError, Term,
};
use crate::parser::{generate_tree, group_tokens, parse_groups, ParseError};
use crate::tokenizer::{lex, token_views, tokenize, LexError, Token, TokenView};

verus! {

/// The first failure of a compilation, by stage.
#[derive(Clone, Debug)]
pub enum CompileError {
    Lex(LexError),
    Parse(ParseError),
    Lower(LowerError),
    /// The builder does not stand in an open block.
    BuilderNotReady,
}

pub open spec fn group_views(gs: Seq<Seq<Token>>) -> Seq<Seq<TokenView>> {
    gs.map_values(|g: Seq<Token>| token_views(g))
}

/// Compiles `my_str` into `builder`, which stands in the open entry block of
/// a function with no variable declared. Every statement is lowered, in
/// order, and the body returns the term of `return_var` (see `result_term`
/// and `program_terms`; `eval` gives its value); the first error of any stage
/// ends the compilation and is returned instead of the builder.
pub fn compile_function<'a>(my_str: &str, builder: FunctionBuilder<'a>) -> (r: Result<
    FunctionBuilder<'a>,
    CompileError,
>)
    requires
        my_str@.len() < usize::MAX,
        declared_slots(builder) == Set::<nat>::empty(),
    ensures
        !(positioned(builder) && !block_filled(builder)) ==> r is Err && r->Err_0
            is BuilderNotReady,
        positioned(builder) && !block_filled(builder) ==> match lex(my_str@) {
            Err(e) => r is Err && r->Err_0 is Lex && r->Err_0->Lex_0@ == e,
            Ok(gs) => exists|ts: Seq<Seq<Token>>|
                #![trigger group_views(ts)]
                group_views(ts) == gs && match parse_groups(ts) {
                    Err(pe) => r is Err && r->Err_0 == CompileError::Parse(pe),
                    Ok(es) => match lower_all(es, Seq::empty()) {
                        Err(x) => r is Err && r->Err_0 == CompileError::Lower(x),
                        Ok(ns) => r is Ok && positioned(r->Ok_0) && block_filled(r->Ok_0)
                            && returned_term(r->Ok_0) == Some(
                            result_term(ns, program_terms(es, Seq::empty(), Seq::empty())),
                        ),
                    },
                },
        },
{
    let mut trans = match FunctionTranslator::new(builder) {
        Some(t) => t,
        None => {
            return Err(CompileError::BuilderNotReady);
        },
    };
    assert(trans.terms() =~= Seq::<Term>::empty());
    let groups = match tokenize(my_str) {
        Ok(g) => g,
        Err(e) => {
            return Err(CompileError::Lex(e));
        },
    };
    let ghost ts = group_tokens(groups.token_lists@);
    assert(group_views(ts) =~= groups@);
    let exprs = match generate_tree(groups) {
        Ok(es) => es,
        Err(e) => {
            assert(group_views(ts) == lex(my_str@)->Ok_0);
            return Err(CompileError::Parse(e));
        },
    };
    match cranelift_treverse_tree(&exprs, &mut trans) {
        Ok(()) => {},
        Err(x) => {
            assert(group_views(ts) == lex(my_str@)->Ok_0);
            return Err(CompileError::Lower(x));
        },
    }
    let done = trans.finish();
    assert(group_views(ts) == lex(my_str@)->Ok_0);
    Ok(done)
}

} // verus!
