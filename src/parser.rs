//! Parser: builds one expression tree per statement group by precedence
//! climbing over the group's tokens.
use vstd::prelude::*;

use crate::text::{append_str, chars_of, int_text, push_char, push_int};
use crate::tokenizer::{
    is_identifier_text, number_of, identifier_chars, number_of_chars, Token, TokenExpressions,
    TokenList, TokenType,
};

verus! {

#[derive(Clone, Debug)]
pub struct IdentifierToken {
    pub text: String,
}

/// A numeric literal.
#[derive(Clone, Debug)]
pub struct NumberToken {
    pub num: i32,
}

#[derive(Clone, Copy, Debug, PartialEq, Eq, Structural)]
pub enum OpType0 {
    Div,
    Mul,
}

#[derive(Clone, Copy, Debug, PartialEq, Eq, Structural)]
pub enum OpType1 {
    Add,
    Sub,
}

/// The assignment operators `=`, `+=` and `-=`.
#[derive(Clone, Copy, Debug, PartialEq, Eq, Structural)]
pub enum OpType2 {
    Eq,
    AddEq,
    SubEq,
}

/// What an operator means to the lowering pass; `Other` is an operator of the
/// table that has no meaning there.
#[derive(Clone, Copy, Debug, PartialEq, Eq, Structural)]
pub enum OperatorType {
    OpType0(OpType0),
    OpType1(OpType1),
    OpType2(OpType2),
    Other,
}

#[derive(Clone, Debug)]
pub struct OperatorToken {
    pub text: String,
    pub priority: u32,
    pub op_type: OperatorType,
}

/// An expression tree; each operation owns its two operands.
#[derive(Debug)]
pub enum Expr {
    Operation(Operation),
    IdentifierToken(IdentifierToken),
    NumberToken(NumberToken),
}

#[derive(Debug)]
pub struct Operation {
    pub expr1: Box<Expr>,
    pub operator: OperatorToken,
    pub expr2: Box<Expr>,
}

/// Why a statement group does not parse; each carries the offending token.
#[derive(Clone, Debug)]
pub enum ParseError {
    /// An operand was expected at the start of an expression.
    UnexpectedTokenKind(Token),
    /// An operator was expected after an operand.
    ExpectedOperator(Token),
    /// An operator is not followed by an operand: the token in its place, or
    /// the operator itself at the end of the group.
    ExpectedOperandAfterOperator(Token),
    /// A `(` whose expression is not closed by a `)`.
    UnclosedParenthesis(Token),
    /// The group holds no token.
    EmptyExpression,
}

pub open spec fn op_type_of(s: Seq<char>) -> OperatorType {
    if s == seq!['*'] {
        OperatorType::OpType0(OpType0::Mul)
    } else if s == seq!['/'] {
        OperatorType::OpType0(OpType0::Div)
    } else if s == seq!['+'] {
        OperatorType::OpType1(OpType1::Add)
    } else if s == seq!['-'] {
        OperatorType::OpType1(OpType1::Sub)
    } else if s == seq!['='] {
        OperatorType::OpType2(OpType2::Eq)
    } else if s == seq!['+', '='] {
        OperatorType::OpType2(OpType2::AddEq)
    } else if s == seq!['-', '='] {
        OperatorType::OpType2(OpType2::SubEq)
    } else {
        OperatorType::Other
    }
}

/// The operator token made from the token `t` of priority `p`.
pub open spec fn operator_of(t: Token, p: u32) -> OperatorToken {
    OperatorToken { text: t.text, priority: p, op_type: op_type_of(t.text@) }
}

/// The leaf that an identifier-or-number token stands for.
pub open spec fn leaf_of(t: Token) -> Option<Expr> {
    match number_of(t.text@) {
        Some(n) => Some(Expr::NumberToken(NumberToken { num: n })),
        None => if is_identifier_text(t.text@) {
            Some(Expr::IdentifierToken(IdentifierToken { text: t.text }))
        } else {
            None
        },
    }
}

pub open spec fn binary(left: Expr, op: OperatorToken, right: Expr) -> Expr {
    Expr::Operation(Operation { expr1: Box::new(left), operator: op, expr2: Box::new(right) })
}

/// Whether an expression ends before position `pos`: at the end of the
/// tokens, or at a `)` when it stands inside parentheses.
pub open spec fn at_stop(ts: Seq<Token>, pos: int, nested: bool) -> bool {
    pos == ts.len() || (nested && ts[pos].token_type == TokenType::RParen)
}

pub open spec fn bad_operand(t: Token, after: Option<Token>) -> ParseError {
    if after is None {
        ParseError::UnexpectedTokenKind(t)
    } else {
        ParseError::ExpectedOperandAfterOperator(t)
    }
}

/// Reads one operand at `pos`: a leaf, or an expression in parentheses.
/// `after` is the operator before it, if any. Gives the result and, on
/// success, the position after the operand.
pub open spec fn operand_spec(ts: Seq<Token>, pos: int, after: Option<Token>) -> (Result<
    Expr,
    ParseError,
>, int)
    decreases ts.len() - pos, 0int,
{
    if pos < 0 || pos > ts.len() {
        (Err(ParseError::EmptyExpression), pos)
    } else if pos == ts.len() {
        match after {
            Some(o) => (Err(ParseError::ExpectedOperandAfterOperator(o)), pos),
            None => (Err(ParseError::EmptyExpression), pos),
        }
    } else {
        let t = ts[pos];
        match t.token_type {
            TokenType::IdentifierOrNumber => match leaf_of(t) {
                Some(e) => (Ok(e), pos + 1),
                None => (Err(bad_operand(t, after)), pos),
            },
            TokenType::LParen => {
                let (r, p) = parse_spec(ts, pos + 1, None, true);
                match r {
                    Ok(e) => if 0 <= p < ts.len() && ts[p].token_type == TokenType::RParen {
                        (Ok(e), p + 1)
                    } else {
                        (Err(ParseError::UnclosedParenthesis(t)), p)
                    },
                    Err(err) => (Err(err), p),
                }
            },
            _ => (Err(bad_operand(t, after)), pos),
        }
    }
}

/// Precedence climbing from `pos`, with `acc` as the left operand when given.
/// After an operator and its right operand, a following operator of a
/// strictly lower priority number takes the right operand first and the rest
/// of the expression with it; otherwise the pair is closed and becomes the
/// left operand of what follows, so equal priorities associate to the left.
/// Gives the result and, on success, the position where it stopped.
pub open spec fn parse_spec(ts: Seq<Token>, pos: int, acc: Option<Expr>, nested: bool) -> (Result<
    Expr,
    ParseError,
>, int)
    decreases ts.len() - pos, 1int,
{
    if pos < 0 || pos > ts.len() {
        (Err(ParseError::EmptyExpression), pos)
    } else {
        let (lr, left_end) = match acc {
            Some(e) => (Ok(e), pos),
            None => operand_spec(ts, pos, None),
        };
        match lr {
            Err(e) => (Err(e), left_end),
            Ok(left) => if left_end < pos || left_end > ts.len() {
                (Err(ParseError::EmptyExpression), left_end)
            } else if at_stop(ts, left_end, nested) {
                (Ok(left), left_end)
            } else {
                let t = ts[left_end];
                match t.token_type {
                    TokenType::Operator(p) => {
                        let op = operator_of(t, p);
                        let (rr, right_end) = operand_spec(ts, left_end + 1, Some(t));
                        match rr {
                            Err(e) => (Err(e), right_end),
                            Ok(right) => if right_end <= pos || right_end > ts.len() {
                                (Err(ParseError::EmptyExpression), right_end)
                            } else if at_stop(ts, right_end, nested) {
                                (Ok(binary(left, op, right)), right_end)
                            } else {
                                match ts[right_end].token_type {
                                    TokenType::Operator(q) => if q < p {
                                        let (r3, rest_end) = parse_spec(ts, right_end, Some(right), nested);
                                        match r3 {
                                            Ok(e3) => (Ok(binary(left, op, e3)), rest_end),
                                            Err(e) => (Err(e), rest_end),
                                        }
                                    } else {
                                        parse_spec(ts, right_end, Some(binary(left, op, right)), nested)
                                    },
                                    _ => (Err(ParseError::ExpectedOperator(ts[right_end])), right_end),
                                }
                            },
                        }
                    },
                    _ => (Err(ParseError::ExpectedOperator(t)), left_end),
                }
            },
        }
    }
}

/// The expression of one statement group.
pub open spec fn parse_group(ts: Seq<Token>) -> Result<Expr, ParseError> {
    parse_spec(ts, 0, None, false).0
}

/// The meaning of the operator symbol `cs` to the lowering pass.
fn op_type_of_chars(cs: &Vec<char>) -> (r: OperatorType)
    ensures
        r == op_type_of(cs@),
{
    if cs.len() == 1 {
        let c = cs[0];
        assert(cs@ == seq![c]);
        if c == '*' {
            OperatorType::OpType0(OpType0::Mul)
        } else if c == '/' {
            OperatorType::OpType0(OpType0::Div)
        } else if c == '+' {
            OperatorType::OpType1(OpType1::Add)
        } else if c == '-' {
            OperatorType::OpType1(OpType1::Sub)
        } else if c == '=' {
            OperatorType::OpType2(OpType2::Eq)
        } else {
            OperatorType::Other
        }
    } else if cs.len() == 2 && cs[1] == '=' && (cs[0] == '+' || cs[0] == '-') {
        assert(cs@ == seq![cs@[0], '=']);
        if cs[0] == '+' {
            OperatorType::OpType2(OpType2::AddEq)
        } else {
            OperatorType::OpType2(OpType2::SubEq)
        }
    } else {
        proof {
            if cs@.len() == 2 {
                assert(cs@ != seq!['+', '='] && cs@ != seq!['-', '=']) by {
                    if cs@ == seq!['+', '='] {
                        assert(cs@[0] == '+' && cs@[1] == '=');
                    }
                    if cs@ == seq!['-', '='] {
                        assert(cs@[0] == '-' && cs@[1] == '=');
                    }
                }
            }
        }
        OperatorType::Other
    }
}

/// Reads `my_str` as a numeric literal that fits in an `i32`.
pub fn is_number(my_str: String) -> (r: Option<NumberToken>)
    ensures
        r == match number_of(my_str@) {
            Some(n) => Some(NumberToken { num: n }),
            None => None::<NumberToken>,
        },
{
    let cs = chars_of(my_str.as_str());
    match number_of_chars(&cs) {
        Some(n) => Some(NumberToken { num: n }),
        None => None,
    }
}

/// Reads `my_str` as an identifier.
pub fn is_identifier(my_str: String) -> (r: Option<IdentifierToken>)
    ensures
        r == if is_identifier_text(my_str@) {
            Some(IdentifierToken { text: my_str })
        } else {
            None::<IdentifierToken>
        },
{
    let cs = chars_of(my_str.as_str());
    if identifier_chars(&cs) {
        Some(IdentifierToken { text: my_str })
    } else {
        None
    }
}

/// Reads `my_str` as an operator of the table, with its priority.
pub fn is_operator(my_str: String) -> (r: Option<OperatorToken>)
    ensures
        r == match crate::tokenizer::operator_priority(my_str@) {
            Some(p) => Some(OperatorToken { text: my_str, priority: p, op_type: op_type_of(my_str@) }),
            None => None::<OperatorToken>,
        },
{
    let cs = chars_of(my_str.as_str());
    match crate::tokenizer::operator_priority_of(&cs) {
        Some(p) => {
            let op_type = op_type_of_chars(&cs);
            Some(OperatorToken { text: my_str, priority: p, op_type })
        },
        None => None,
    }
}

fn leaf_of_token(t: &Token) -> (r: Option<Expr>)
    ensures
        r == leaf_of(*t),
{
    match is_number(t.text.clone()) {
        Some(n) => Some(Expr::NumberToken(n)),
        None => match is_identifier(t.text.clone()) {
            Some(i) => Some(Expr::IdentifierToken(i)),
            None => None,
        },
    }
}

fn operator_of_token(t: &Token, p: u32) -> (r: OperatorToken)
    ensures
        r == operator_of(*t, p),
{
    let cs = chars_of(t.text.as_str());
    OperatorToken { text: t.text.clone(), priority: p, op_type: op_type_of_chars(&cs) }
}

fn bad_operand_error(t: Token, after: &Option<Token>) -> (r: ParseError)
    ensures
        r == bad_operand(t, *after),
{
    match after {
        None => ParseError::UnexpectedTokenKind(t),
        Some(_) => ParseError::ExpectedOperandAfterOperator(t),
    }
}

fn stops_at(tokens: &TokenList, nested: bool) -> (r: bool)
    requires
        tokens.wf(),
    ensures
        r == at_stop(tokens.tokens@, tokens.curr as int, nested),
{
    match tokens.get_curr() {
        None => true,
        Some(t) => nested && t.token_type == TokenType::RParen,
    }
}

/// Reads one operand (see `operand_spec`).
fn parse_operand(tokens: &mut TokenList, after: Option<Token>) -> (r: Result<Expr, ParseError>)
    requires
        old(tokens).wf(),
    ensures
        final(tokens).wf(),
        final(tokens).tokens == old(tokens).tokens,
        r == operand_spec(old(tokens).tokens@, old(tokens).curr as int, after).0,
        r is Ok ==> final(tokens).curr == operand_spec(
            old(tokens).tokens@,
            old(tokens).curr as int,
            after,
        ).1 && final(tokens).curr > old(tokens).curr,
    decreases old(tokens).tokens@.len() - old(tokens).curr, 0int,
{
    match tokens.get_curr_inc() {
        None => match after {
            Some(o) => Err(ParseError::ExpectedOperandAfterOperator(o)),
            None => Err(ParseError::EmptyExpression),
        },
        Some(t) => match t.token_type {
            TokenType::IdentifierOrNumber => match leaf_of_token(&t) {
                Some(e) => Ok(e),
                None => Err(bad_operand_error(t, &after)),
            },
            TokenType::LParen => {
                let inner = parse_expr(tokens, None, true);
                match inner {
                    Ok(e) => {
                        match tokens.get_curr_inc() {
                            Some(close) => if close.token_type == TokenType::RParen {
                                Ok(e)
                            } else {
                                Err(ParseError::UnclosedParenthesis(t))
                            },
                            None => Err(ParseError::UnclosedParenthesis(t)),
                        }
                    },
                    Err(err) => Err(err),
                }
            },
            _ => Err(bad_operand_error(t, &after)),
        },
    }
}

/// Precedence climbing (see `parse_spec`).
fn parse_expr(tokens: &mut TokenList, acc: Option<Expr>, nested: bool) -> (r: Result<
    Expr,
    ParseError,
>)
    requires
        old(tokens).wf(),
    ensures
        final(tokens).wf(),
        final(tokens).tokens == old(tokens).tokens,
        r == parse_spec(old(tokens).tokens@, old(tokens).curr as int, acc, nested).0,
        r is Ok ==> final(tokens).curr == parse_spec(
            old(tokens).tokens@,
            old(tokens).curr as int,
            acc,
            nested,
        ).1 && final(tokens).curr >= old(tokens).curr,
    decreases old(tokens).tokens@.len() - old(tokens).curr, 1int,
{
    let left = match acc {
        Some(e) => e,
        None => match parse_operand(tokens, None) {
            Ok(e) => e,
            Err(err) => {
                return Err(err);
            },
        },
    };
    if stops_at(tokens, nested) {
        return Ok(left);
    }
    let t = tokens.get_curr_inc().unwrap();
    let p = match t.token_type {
        TokenType::Operator(p) => p,
        _ => {
            return Err(ParseError::ExpectedOperator(t));
        },
    };
    let op = operator_of_token(&t, p);
    let right = match parse_operand(tokens, Some(t)) {
        Ok(e) => e,
        Err(err) => {
            return Err(err);
        },
    };
    if stops_at(tokens, nested) {
        return Ok(binary_expr(left, op, right));
    }
    let next = tokens.get_curr().unwrap();
    match next.token_type {
        TokenType::Operator(q) => {
            if q < p {
                match parse_expr(tokens, Some(right), nested) {
                    Ok(e3) => Ok(binary_expr(left, op, e3)),
                    Err(err) => Err(err),
                }
            } else {
                parse_expr(tokens, Some(binary_expr(left, op, right)), nested)
            }
        },
        _ => Err(ParseError::ExpectedOperator(next)),
    }
}

fn binary_expr(left: Expr, op: OperatorToken, right: Expr) -> (r: Expr)
    ensures
        r == binary(left, op, right),
{
    Expr::Operation(Operation { expr1: Box::new(left), operator: op, expr2: Box::new(right) })
}

/// A successful parse ends where the expression may stop: at the end of the
/// tokens, or before a `)` inside parentheses.
proof fn lemma_parse_stops(ts: Seq<Token>, pos: int, acc: Option<Expr>, nested: bool)
    ensures
        parse_spec(ts, pos, acc, nested).0 is Ok ==> at_stop(
            ts,
            parse_spec(ts, pos, acc, nested).1,
            nested,
        ),
    decreases ts.len() - pos,
{
    if 0 <= pos <= ts.len() {
        let (lr, left_end) = match acc {
            Some(e) => (Ok::<Expr, ParseError>(e), pos),
            None => operand_spec(ts, pos, None),
        };
        if lr is Ok && pos <= left_end <= ts.len() && !at_stop(ts, left_end, nested) {
            let t = ts[left_end];
            if let TokenType::Operator(p) = t.token_type {
                let (rr, right_end) = operand_spec(ts, left_end + 1, Some(t));
                if rr is Ok && pos < right_end <= ts.len() && !at_stop(ts, right_end, nested) {
                    if let TokenType::Operator(q) = ts[right_end].token_type {
                        if q < p {
                            lemma_parse_stops(ts, right_end, Some(rr->Ok_0), nested);
                        } else {
                            lemma_parse_stops(
                                ts,
                                right_end,
                                Some(binary(lr->Ok_0, operator_of(t, p), rr->Ok_0)),
                                nested,
                            );
                        }
                    }
                }
            }
        }
    }
}

/// Parses what is left of `tokens` as one expression, with `arg1_input` as its
/// first operand when given (see `parse_spec`).
pub fn recursive_generate_tree(tokens: &mut TokenList, arg1_input: Option<Expr>) -> (r: Result<
    Expr,
    ParseError,
>)
    requires
        old(tokens).wf(),
    ensures
        final(tokens).wf(),
        final(tokens).tokens == old(tokens).tokens,
        r == parse_spec(old(tokens).tokens@, old(tokens).curr as int, arg1_input, false).0,
        r is Ok ==> final(tokens).curr == final(tokens).tokens.len(),
{
    proof {
        lemma_parse_stops(tokens.tokens@, tokens.curr as int, arg1_input, false);
    }
    parse_expr(tokens, arg1_input, false)
}

pub open spec fn group_tokens(ls: Seq<TokenList>) -> Seq<Seq<Token>> {
    ls.map_values(|l: TokenList| l.tokens@)
}

/// The expressions of the groups `gs`, in order, or the first group's error.
pub open spec fn parse_groups(gs: Seq<Seq<Token>>) -> Result<Seq<Expr>, ParseError>
    decreases gs.len(),
{
    if gs.len() == 0 {
        Ok(Seq::empty())
    } else {
        match parse_groups(gs.drop_last()) {
            Ok(es) => match parse_group(gs.last()) {
                Ok(e) => Ok(es.push(e)),
                Err(err) => Err(err),
            },
            Err(err) => Err(err),
        }
    }
}

proof fn lemma_parse_groups_error(gs: Seq<Seq<Token>>, k: int)
    requires
        0 <= k <= gs.len(),
        parse_groups(gs.take(k)) is Err,
    ensures
        parse_groups(gs) == parse_groups(gs.take(k)),
    decreases gs.len() - k,
{
    if k < gs.len() {
        assert(gs.take(k + 1).drop_last() =~= gs.take(k));
        lemma_parse_groups_error(gs, k + 1);
    } else {
        assert(gs.take(k) =~= gs);
    }
}

/// Parses every statement group from its first token, in order; stops at the
/// first group that does not parse.
pub fn generate_tree(token_expressions: TokenExpressions) -> (r: Result<Vec<Expr>, ParseError>)
    ensures
        match parse_groups(group_tokens(token_expressions.token_lists@)) {
            Ok(es) => r is Ok && r->Ok_0@ == es,
            Err(e) => r is Err && r->Err_0 == e,
        },
{
    let ghost gs = group_tokens(token_expressions.token_lists@);
    let mut lists = token_expressions.token_lists;
    let mut out: Vec<Expr> = Vec::new();
    let count = lists.len();
    let ghost n = count as nat;
    let mut k: usize = 0;
    assert(gs.skip(0) =~= gs);
    assert(gs.take(0) =~= Seq::<Seq<Token>>::empty());
    assert(out@ =~= Seq::<Expr>::empty());
    while lists.len() > 0
        invariant
            n == gs.len(),
            gs == group_tokens(token_expressions.token_lists@),
            n <= usize::MAX,
            k + lists@.len() == n,
            group_tokens(lists@) == gs.skip(k as int),
            parse_groups(gs.take(k as int)) == Ok::<Seq<Expr>, ParseError>(out@),
        decreases lists@.len(),
    {
        let ghost before = lists@;
        let mut group = lists.remove(0);
        assert(group.tokens@ == gs[k as int]) by {
            assert(gs.skip(k as int)[0] == gs[k as int]);
            assert(group_tokens(before)[0] == before[0].tokens@);
        }
        assert(group_tokens(lists@) =~= gs.skip(k + 1)) by {
            assert forall|j: int| 0 <= j < lists@.len() implies group_tokens(lists@)[j] == gs.skip(
                k + 1,
            )[j] by {
                assert(lists@[j] == before[j + 1]);
                assert(group_tokens(before)[j + 1] == gs.skip(k as int)[j + 1]);
            }
        }
        group.curr = 0;
        assert(gs.take(k + 1).drop_last() =~= gs.take(k as int));
        assert(gs.take(k + 1).last() == gs[k as int]);
        match recursive_generate_tree(&mut group, None) {
            Ok(e) => {
                out.push(e);
                assert(parse_groups(gs.take(k + 1)) == Ok::<Seq<Expr>, ParseError>(out@));
            },
            Err(err) => {
                proof {
                    assert(parse_groups(gs.take(k + 1)) == Err::<Seq<Expr>, ParseError>(err));
                    lemma_parse_groups_error(gs, k + 1);
                    assert(parse_groups(gs) == Err::<Seq<Expr>, ParseError>(err));
                }
                return Err(err);
            },
        }
        k = k + 1;
    }
    assert(gs.take(k as int) =~= gs);
    Ok(out)
}

/// The fully parenthesized text of an expression: a literal is the decimal
/// text of its value, an identifier its name, an operation `(left op right)`.
pub open spec fn render(e: Expr) -> Seq<char>
    decreases e,
{
    match e {
        Expr::NumberToken(n) => int_text(n.num),
        Expr::IdentifierToken(i) => i.text@,
        Expr::Operation(o) => seq!['('] + render(*o.expr1) + seq![' '] + o.operator.text@ + seq![
            ' ',
        ] + render(*o.expr2) + seq![')'],
    }
}

impl Expr {
    pub fn to_string(&self) -> (r: String)
        ensures
            r@ == render(*self),
        decreases self,
    {
        match self {
            Expr::NumberToken(n) => {
                let mut s = String::new();
                push_int(&mut s, n.num);
                assert(s@ =~= int_text(n.num));
                s
            },
            Expr::IdentifierToken(i) => i.text.clone(),
            Expr::Operation(o) => {
                let mut s = String::new();
                push_char(&mut s, '(');
                let left = o.expr1.to_string();
                append_str(&mut s, left.as_str());
                push_char(&mut s, ' ');
                append_str(&mut s, o.operator.text.as_str());
                push_char(&mut s, ' ');
                let right = o.expr2.to_string();
                append_str(&mut s, right.as_str());
                push_char(&mut s, ')');
                assert(s@ =~= render(*self));
                s
            },
        }
    }
}

} // verus!
