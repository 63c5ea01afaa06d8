use cranelift::codegen::data_value::DataValue;
use cranelift::codegen::ir::{AbiParam, ExternalName, Function, Signature};
use cranelift::codegen::isa::CallConv;
use cranelift::frontend::{FunctionBuilder, FunctionBuilderContext};
use cranelift::prelude::types::I32;
use cranelift_interpreter::environment::FunctionStore;
use cranelift_interpreter::interpreter::{Interpreter, InterpreterState};

use toy_jit::compiler::{compile_function, CompileError};
use toy_jit::lowering::{FunctionTranslator, LowerError};
use toy_jit::parser::{
    generate_tree, is_identifier, is_number, is_operator, recursive_generate_tree, Expr,
    IdentifierToken, NumberToken, OpType1, OpType2, Operation, OperatorToken, OperatorType,
    ParseError,
};
use toy_jit::text::{append_str, chars_of, string_of};
use toy_jit::tokenizer::{tokenize, IterRef, SymbolType, Token, TokenConstructor, TokenList, TokenType};

fn empty_function() -> Function {
    let mut sig = Signature::new(CallConv::SystemV);
    sig.returns.push(AbiParam::new(I32));
    Function::with_name_signature(ExternalName::testcase("run"), sig)
}

fn compile_into(source: &str, func: &mut Function) -> Result<(), CompileError> {
    let mut ctx = FunctionBuilderContext::new();
    let mut builder = FunctionBuilder::new(func, &mut ctx);
    let block = builder.create_block();
    builder.switch_to_block(block);
    builder.seal_block(block);
    let mut builder = compile_function(source, builder)?;
    builder.finalize();
    Ok(())
}

fn run(source: &str) -> i32 {
    let mut func = empty_function();
    assert!(compile_into(source, &mut func).is_ok());
    let mut store = FunctionStore::default();
    store.add(func.name.to_string(), &func);
    let state = InterpreterState::default().with_function_store(store);
    let result = Interpreter::new(state)
        .call_by_name("%run", &[])
        .unwrap()
        .unwrap_return();
    match result.as_slice() {
        [DataValue::I32(v)] => *v,
        _ => panic!("unexpected return values"),
    }
}

fn failure_of(source: &str) -> CompileError {
    let mut func = empty_function();
    match compile_into(source, &mut func) {
        Err(e) => e,
        Ok(()) => panic!("compiled"),
    }
}

fn parse_text(source: &str) -> Result<Expr, ParseError> {
    let mut groups = tokenize(source).unwrap();
    assert_eq!(groups.token_lists.len(), 1);
    let mut list = groups.token_lists.remove(0);
    recursive_generate_tree(&mut list, None)
}

fn rendered(source: &str) -> String {
    parse_text(source).unwrap().to_string()
}

fn kinds(list: &TokenList) -> Vec<TokenType> {
    list.tokens.iter().map(|t| t.token_type).collect()
}

fn texts(list: &TokenList) -> Vec<String> {
    list.tokens.iter().map(|t| t.text.clone()).collect()
}

#[test]
fn tests_working() {
    assert_eq!(2 + 2, 4);
}

#[test]
fn tokenizer_a_plus_b() {
    let data = "a + b".to_string();
    let mut tokanized_text = tokenize(&data).unwrap();
    let mut token_list = tokanized_text.token_lists.remove(0);
    assert_eq!(tokanized_text.token_lists.first().is_none(), true);
    match token_list.tokens.remove(0) {
        Token { token_type: TokenType::IdentifierOrNumber, .. } => {}
        _ => {
            panic!("Invalid type")
        }
    }
    match token_list.tokens.remove(0) {
        Token { token_type: TokenType::Operator(_), .. } => {}
        _ => {
            panic!("Invalid type")
        }
    }
    match token_list.tokens.remove(0) {
        Token { token_type: TokenType::IdentifierOrNumber, .. } => {}
        _ => {
            panic!("Invalid type")
        }
    }
    assert_eq!(token_list.tokens.first().is_none(), true);
}

#[test]
fn tokenizer_abc_plus_xyz() {
    let data = "abc + xyz".to_string();
    let mut tokanized_text = tokenize(&data).unwrap();
    let mut token_list = tokanized_text.token_lists.remove(0);
    assert_eq!(tokanized_text.token_lists.first().is_none(), true);
    match token_list.tokens.remove(0) {
        Token { token_type: TokenType::IdentifierOrNumber, text, .. } => {
            assert_eq!(text, "abc".to_string());
        }
        _ => {
            panic!("Invalid type")
        }
    }
    match token_list.tokens.remove(0) {
        Token { token_type: TokenType::Operator(_), text, .. } => {
            assert_eq!(text, "+".to_string());
        }
        _ => {
            panic!("Invalid type")
        }
    }
    match token_list.tokens.remove(0) {
        Token { token_type: TokenType::IdentifierOrNumber, text, .. } => {
            assert_eq!(text, "xyz".to_string());
        }
        _ => {
            panic!("Invalid type")
        }
    }
    assert_eq!(token_list.tokens.first().is_none(), true);
}

#[test]
fn tokenizer_a_minus_bc_plus_xyz() {
    let data = "a - bc + xyz".to_string();
    let mut tokanized_text = tokenize(&data).unwrap();
    let mut token_list = tokanized_text.token_lists.remove(0);
    assert_eq!(tokanized_text.token_lists.first().is_none(), true);
    match token_list.tokens.remove(0) {
        Token { token_type: TokenType::IdentifierOrNumber, text, .. } => {
            assert_eq!(text, "a".to_string());
        }
        _ => {
            panic!("Invalid type")
        }
    }
    match token_list.tokens.remove(0) {
        Token { token_type: TokenType::Operator(_), text, .. } => {
            assert_eq!(text, "-".to_string());
        }
        _ => {
            panic!("Invalid type")
        }
    }
    match token_list.tokens.remove(0) {
        Token { token_type: TokenType::IdentifierOrNumber, text, .. } => {
            assert_eq!(text, "bc".to_string());
        }
        _ => {
            panic!("Invalid type")
        }
    }
    match token_list.tokens.remove(0) {
        Token { token_type: TokenType::Operator(_), text, .. } => {
            assert_eq!(text, "+".to_string());
        }
        _ => {
            panic!("Invalid type")
        }
    }
    match token_list.tokens.remove(0) {
        Token { token_type: TokenType::IdentifierOrNumber, text, .. } => {
            assert_eq!(text, "xyz".to_string());
        }
        _ => {
            panic!("Invalid type")
        }
    }
    assert_eq!(token_list.tokens.first().is_none(), true);
}

#[test]
fn parser_test() {
    assert_eq!(rendered("a + b"), "(a + b)");
}

#[test]
fn tokenize_a_plus_b_kinds() {
    let groups = tokenize("a + b").unwrap();
    assert_eq!(groups.token_lists.len(), 1);
    assert_eq!(
        kinds(&groups.token_lists[0]),
        vec![TokenType::IdentifierOrNumber, TokenType::Operator(2), TokenType::IdentifierOrNumber]
    );
}

#[test]
fn tokenize_one_group_per_statement() {
    let groups = tokenize("x = 1 ; y = 2").unwrap();
    assert_eq!(groups.token_lists.len(), 2);
    assert_eq!(texts(&groups.token_lists[0]), vec!["x", "=", "1"]);
    assert_eq!(texts(&groups.token_lists[1]), vec!["y", "=", "2"]);
}

#[test]
fn tokenize_skips_empty_groups() {
    let groups = tokenize(";; a ;;; b ;").unwrap();
    assert_eq!(groups.token_lists.len(), 2);
    assert_eq!(texts(&groups.token_lists[0]), vec!["a"]);
    assert_eq!(texts(&groups.token_lists[1]), vec!["b"]);
    assert_eq!(tokenize("").unwrap().token_lists.len(), 0);
    assert_eq!(tokenize(" ; \n ;").unwrap().token_lists.len(), 0);
}

#[test]
fn tokenize_positions() {
    let groups = tokenize("ab +\n\t(cd)").unwrap();
    let list = &groups.token_lists[0];
    let positions: Vec<(usize, usize)> =
        list.tokens.iter().map(|t| (t.line_num, t.col_num)).collect();
    assert_eq!(positions, vec![(1, 1), (1, 4), (2, 2), (2, 3), (2, 5)]);
    assert_eq!(
        kinds(list),
        vec![
            TokenType::IdentifierOrNumber,
            TokenType::Operator(2),
            TokenType::LParen,
            TokenType::IdentifierOrNumber,
            TokenType::RParen
        ]
    );
}

#[test]
fn tokenize_operator_table() {
    let groups = tokenize(". * / + - < >= == && , : = += -= {x}").unwrap();
    assert_eq!(
        kinds(&groups.token_lists[0]),
        vec![
            TokenType::Operator(0),
            TokenType::Operator(1),
            TokenType::Operator(1),
            TokenType::Operator(2),
            TokenType::Operator(2),
            TokenType::Operator(3),
            TokenType::Operator(3),
            TokenType::Operator(3),
            TokenType::Operator(3),
            TokenType::Operator(4),
            TokenType::Operator(5),
            TokenType::Operator(6),
            TokenType::Operator(6),
            TokenType::Operator(6),
            TokenType::LCurrBracket,
            TokenType::IdentifierOrNumber,
            TokenType::RCurrBracket
        ]
    );
}

#[test]
fn tokenize_numbers() {
    let groups = tokenize("2147483647 007").unwrap();
    assert_eq!(texts(&groups.token_lists[0]), vec!["2147483647", "007"]);
    assert!(kinds(&groups.token_lists[0]).iter().all(|k| *k == TokenType::IdentifierOrNumber));
    let groups = tokenize("-5").unwrap();
    assert_eq!(texts(&groups.token_lists[0]), vec!["-", "5"]);
    assert!(tokenize("-2147483648").is_err());
}

#[test]
fn tokenize_splits_operator_runs() {
    let groups = tokenize("x=1;y+=x*(2-1)").unwrap();
    assert_eq!(texts(&groups.token_lists[0]), vec!["x", "=", "1"]);
    assert_eq!(texts(&groups.token_lists[1]), vec!["y", "+=", "x", "*", "(", "2", "-", "1", ")"]);
    let cols: Vec<usize> = groups.token_lists[1].tokens.iter().map(|t| t.col_num).collect();
    assert_eq!(cols, vec![5, 6, 8, 9, 10, 11, 12, 13, 14]);
    assert_eq!(run("x=1;y=x*(2-1)+4;return_var=y"), 5);
    assert!(tokenize("a=>b").is_err());
}

#[test]
fn tokenize_rejects_unclassifiable_runs() {
    match tokenize("a = 1 ;\n  b $ c") {
        Err(toy_jit::tokenizer::LexError::UnclassifiableToken { text, line, column }) => {
            assert_eq!(text, "$");
            assert_eq!((line, column), (2, 5));
        }
        Ok(_) => panic!("tokenized"),
    }
    assert!(tokenize("x1").is_err());
    assert!(tokenize("Abc").is_err());
    assert!(tokenize("2147483648").is_err());
    assert!(tokenize("--").is_err());
}

#[test]
fn parse_multiply_binds_tighter() {
    assert_eq!(rendered("a + b * c"), "(a + (b * c))");
}

#[test]
fn parse_equal_priority_left_to_right() {
    assert_eq!(rendered("a + b + c"), "((a + b) + c)");
    assert_eq!(rendered("a - b + c"), "((a - b) + c)");
}

#[test]
fn parse_parentheses_override_precedence() {
    assert_eq!(rendered("(a + b) * c"), "((a + b) * c)");
    assert_eq!(rendered("a * (b + c)"), "(a * (b + c))");
    assert_eq!(rendered("((a))"), "a");
}

#[test]
fn parse_single_operand() {
    assert_eq!(rendered("x"), "x");
    assert_eq!(rendered("007"), "7");
}

#[test]
fn parse_assignment_chain() {
    assert_eq!(rendered("x += 8 + 10 * 5 + 3"), "(x += (8 + ((10 * 5) + 3)))");
}

#[test]
fn parse_trailing_operator_fails() {
    match parse_text("a +") {
        Err(ParseError::ExpectedOperandAfterOperator(t)) => {
            assert_eq!(t.text, "+");
            assert_eq!(t.col_num, 3);
        }
        other => panic!("unexpected {:?}", other),
    }
}

#[test]
fn parse_errors() {
    match parse_text(") a") {
        Err(ParseError::UnexpectedTokenKind(t)) => assert_eq!(t.text, ")"),
        other => panic!("unexpected {:?}", other),
    }
    match parse_text("a b") {
        Err(ParseError::ExpectedOperator(t)) => assert_eq!(t.text, "b"),
        other => panic!("unexpected {:?}", other),
    }
    match parse_text("a + b c") {
        Err(ParseError::ExpectedOperator(t)) => assert_eq!(t.text, "c"),
        other => panic!("unexpected {:?}", other),
    }
    match parse_text("a + )") {
        Err(ParseError::ExpectedOperandAfterOperator(t)) => assert_eq!(t.text, ")"),
        other => panic!("unexpected {:?}", other),
    }
    match parse_text("(a + b") {
        Err(ParseError::UnclosedParenthesis(t)) => assert_eq!(t.text, "("),
        other => panic!("unexpected {:?}", other),
    }
    match parse_text("a )") {
        Err(ParseError::ExpectedOperator(t)) => assert_eq!(t.text, ")"),
        other => panic!("unexpected {:?}", other),
    }
    let mut empty = TokenList::new();
    assert!(matches!(recursive_generate_tree(&mut empty, None), Err(ParseError::EmptyExpression)));
}

#[test]
fn parse_with_accumulated_operand() {
    let mut groups = tokenize("+ b").unwrap();
    let mut list = groups.token_lists.remove(0);
    let acc = Expr::IdentifierToken(IdentifierToken { text: "a".to_string() });
    assert_eq!(recursive_generate_tree(&mut list, Some(acc)).unwrap().to_string(), "(a + b)");
}

#[test]
fn generate_tree_all_groups() {
    let exprs = generate_tree(tokenize("a + b ; c * d").unwrap()).unwrap();
    let shown: Vec<String> = exprs.iter().map(|e| e.to_string()).collect();
    assert_eq!(shown, vec!["(a + b)", "(c * d)"]);
    assert!(matches!(
        generate_tree(tokenize("a ; b + ; c").unwrap()),
        Err(ParseError::ExpectedOperandAfterOperator(_))
    ));
}

#[test]
fn classification_functions() {
    let n = is_number("-42".to_string()).unwrap();
    assert_eq!(n.num, -42);
    assert!(is_number("4a".to_string()).is_none());
    assert!(is_number("-".to_string()).is_none());
    assert_eq!(is_identifier("return_var".to_string()).unwrap().text, "return_var");
    assert!(is_identifier("a1".to_string()).is_none());
    let op = is_operator("+=".to_string()).unwrap();
    assert_eq!(op.priority, 6);
    assert_eq!(op.op_type, OperatorType::OpType2(OpType2::AddEq));
    assert_eq!(is_operator("-".to_string()).unwrap().op_type, OperatorType::OpType1(OpType1::Sub));
    assert_eq!(is_operator("<=".to_string()).unwrap().op_type, OperatorType::Other);
    assert!(is_operator("++".to_string()).is_none());
}

#[test]
fn token_constructor_queries() {
    let mut c = TokenConstructor::new();
    assert_eq!(TokenConstructor::get_symbol_type('='), Some(SymbolType::Operator));
    assert_eq!(TokenConstructor::get_symbol_type('7'), Some(SymbolType::Number));
    assert_eq!(TokenConstructor::get_symbol_type('a'), Some(SymbolType::Identifier));
    c.text = vec!['+', '='];
    assert!(c.is_operator() && !c.is_identifier() && !c.is_number());
    c.text = vec!['1', '2'];
    assert!(c.is_number() && !c.is_operator());
    c.text = vec!['a', '_'];
    assert!(c.is_identifier() && !c.is_number());
    c.col = 4;
    c.start_col = 3;
    c.new_line();
    assert_eq!((c.line, c.col, c.start_col), (2, 0, 0));
    c.text = vec!['('];
    c.col = 5;
    assert!(c.process_text().is_ok());
    assert_eq!(c.current.tokens[0].token_type, TokenType::LParen);
    assert_eq!(c.current.tokens[0].line_num, 2);
    assert_eq!(c.start_col, 5);
    c.text = vec!['=', '>'];
    assert!(c.process_text().is_err());
    assert_eq!(c.text, vec!['=', '>']);
    assert_eq!(c.current.tokens.len(), 1);
}

#[test]
fn iter_ref_walks_characters() {
    let mut it = IterRef::new("ab");
    assert!(!it.reached_end());
    assert_eq!(it.next(), Some('a'));
    assert_eq!(it.next(), Some('b'));
    assert!(it.reached_end());
    assert_eq!(it.next(), None);
}

#[test]
fn token_list_cursor() {
    let mut list = tokenize("a + b").unwrap().token_lists.remove(0);
    assert_eq!(list.get_curr().unwrap().text, "a");
    assert_eq!(list.get_curr_inc().unwrap().text, "a");
    list.inc_curr();
    assert_eq!(list.get_curr().unwrap().text, "b");
    assert_eq!(list.get(1).unwrap().text, "+");
    list.inc_curr();
    assert!(list.is_end());
    assert!(list.get_curr().is_none());
    list.add_token_from_text(String::new(), TokenType::LParen, 1, 1);
    assert_eq!(list.tokens.len(), 3);
}

#[test]
fn text_helpers() {
    assert_eq!(chars_of("ab"), vec!['a', 'b']);
    assert_eq!(string_of(&vec!['x', 'y', 'z']), "xyz");
    let mut s = "ab".to_string();
    append_str(&mut s, "cd");
    assert_eq!(s, "abcd");
}

#[test]
fn end_to_end_return_var() {
    assert_eq!(run("x = 7 ; x += 8 + 10 * 5 + 3 ; return_var = x"), 68);
}

#[test]
fn end_to_end_arithmetic() {
    assert_eq!(run("return_var = 2 * (3 + 4) - 5"), 9);
    assert_eq!(run("a = 10 ; a -= 3 ; return_var = a * a"), 49);
    assert_eq!(run("x = 10 ; x -= 3 ; return_var = x"), 7);
    assert_eq!(run("x += 5 ; return_var = x"), 5);
    assert_eq!(run("x = 5"), 0);
    assert_eq!(run("x = 1 ; x + 2 ; return_var = x"), 1);
}

#[test]
fn lowering_nested_assignment_fails() {
    assert!(matches!(
        failure_of("x = 1 ; (x = 2) + 3"),
        CompileError::Lower(LowerError::NestedAssignmentOperator)
    ));
    assert!(matches!(
        failure_of("y = x = 1"),
        CompileError::Lower(LowerError::NestedAssignmentOperator)
    ));
}

#[test]
fn lowering_nested_assignment_built_by_hand() {
    let assign = Expr::Operation(Operation {
        expr1: Box::new(Expr::IdentifierToken(IdentifierToken { text: "x".to_string() })),
        operator: is_operator("=".to_string()).unwrap(),
        expr2: Box::new(Expr::NumberToken(NumberToken { num: 1 })),
    });
    let sum = Expr::Operation(Operation {
        expr1: Box::new(assign),
        operator: OperatorToken {
            text: "+".to_string(),
            priority: 2,
            op_type: OperatorType::OpType1(OpType1::Add),
        },
        expr2: Box::new(Expr::NumberToken(NumberToken { num: 2 })),
    });
    let mut func = empty_function();
    let mut ctx = FunctionBuilderContext::new();
    let mut builder = FunctionBuilder::new(&mut func, &mut ctx);
    let block = builder.create_block();
    builder.switch_to_block(block);
    let mut trans = FunctionTranslator::new(builder).unwrap();
    assert!(matches!(trans.lower_statement(&sum), Err(LowerError::NestedAssignmentOperator)));
    assert_eq!(trans.variables.len(), 0);
}

#[test]
fn lowering_use_before_assignment_fails() {
    match failure_of("y = x + 1") {
        CompileError::Lower(LowerError::UseOfUndeclaredVariable(name)) => assert_eq!(name, "x"),
        other => panic!("unexpected {:?}", other),
    }
    assert!(matches!(
        failure_of("z ; z = 1"),
        CompileError::Lower(LowerError::UseOfUndeclaredVariable(_))
    ));
}

#[test]
fn lowering_other_errors() {
    assert!(matches!(
        failure_of("1 = 2"),
        CompileError::Lower(LowerError::InvalidAssignmentTarget)
    ));
    match failure_of("x = 4 / 2") {
        CompileError::Lower(LowerError::UnsupportedOperator(op)) => assert_eq!(op, "/"),
        other => panic!("unexpected {:?}", other),
    }
    assert!(matches!(failure_of("a $"), CompileError::Lex(_)));
    assert!(matches!(failure_of("a +"), CompileError::Parse(_)));
}

#[test]
fn builder_without_block_is_refused() {
    let mut func = empty_function();
    let mut ctx = FunctionBuilderContext::new();
    let builder = FunctionBuilder::new(&mut func, &mut ctx);
    assert!(matches!(compile_function("x = 1", builder), Err(CompileError::BuilderNotReady)));
}

#[test]
fn translator_declares_each_name_once() {
    let mut func = empty_function();
    let mut ctx = FunctionBuilderContext::new();
    let mut builder = FunctionBuilder::new(&mut func, &mut ctx);
    let block = builder.create_block();
    builder.switch_to_block(block);
    let mut trans = FunctionTranslator::new(builder).unwrap();
    let exprs = generate_tree(tokenize("a = 1 ; b = 2 ; a += b").unwrap()).unwrap();
    for e in exprs.iter() {
        assert!(trans.lower_statement(e).is_ok());
    }
    assert_eq!(trans.variables.names, vec!["a".to_string(), "b".to_string()]);
}

#[test]
fn token_text_for_diagnostics() {
    let groups = tokenize("a + b ; (c)").unwrap();
    assert_eq!(
        groups.token_lists[0].tokens[1].to_string(),
        "('+', 'Operator(2)', ln:1, col:3)"
    );
    assert_eq!(
        groups.token_lists[0].to_string(),
        "{('a', 'IdentifierOrNumber', ln:1, col:1), ('+', 'Operator(2)', ln:1, col:3), ('b', 'IdentifierOrNumber', ln:1, col:5)}"
    );
    assert_eq!(
        groups.to_string(),
        "{  {('a', 'IdentifierOrNumber', ln:1, col:1), ('+', 'Operator(2)', ln:1, col:3), ('b', 'IdentifierOrNumber', ln:1, col:5)}, {('(', 'LParen', ln:1, col:9), ('c', 'IdentifierOrNumber', ln:1, col:10), (')', 'RParen', ln:1, col:11)}  }"
    );
    assert_eq!(TokenList::new().to_string(), "{}");
}

#[test]
fn decimal_positions() {
    let mut s = String::new();
    toy_jit::text::push_decimal(&mut s, 1203);
    assert_eq!(s, "1203");
    let t = Token::new("x".to_string(), TokenType::Operator(10), 12, 0);
    assert_eq!(t.to_string(), "('x', 'Operator(10)', ln:12, col:0)");
}
