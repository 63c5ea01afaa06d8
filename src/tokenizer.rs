//! Tokenizer: splits source text into statement groups of classified tokens.
use vstd::prelude::*;

use crate::text::{append_str, chars_of, decimal, push_decimal, string_of};

verus! {

/// The kind of a token. `Operator` carries the operator's priority: a lower
/// number binds more tightly.
#[derive(Clone, Copy, Debug, PartialEq, Eq, Structural)]
pub enum TokenType {
    Operator(u32),
    IdentifierOrNumber,
    LParen,
    RParen,
    LCurrBracket,
    RCurrBracket,
}

/// A token with the 1-based line and column of its first character.
#[derive(Clone, Debug)]
pub struct Token {
    pub text: String,
    pub token_type: TokenType,
    pub line_num: usize,
    pub col_num: usize,
}

/// What a token is, with its text as a character sequence.
pub struct TokenView {
    pub text: Seq<char>,
    pub token_type: TokenType,
    pub line_num: int,
    pub col_num: int,
}

impl View for Token {
    type V = TokenView;

    open spec fn view(&self) -> TokenView {
        TokenView {
            text: self.text@,
            token_type: self.token_type,
            line_num: self.line_num as int,
            col_num: self.col_num as int,
        }
    }
}

pub open spec fn is_digit(c: char) -> bool {
    '0' <= c && c <= '9'
}

pub open spec fn all_digits(s: Seq<char>) -> bool {
    forall|i: int| 0 <= i < s.len() ==> is_digit(#[trigger] s[i])
}

/// The value of a run of decimal digits.
pub open spec fn digits_value(s: Seq<char>) -> int
    decreases s.len(),
{
    if s.len() == 0 {
        0
    } else {
        digits_value(s.drop_last()) * 10 + (s.last() as int - '0' as int)
    }
}

/// The value of a numeric literal `-?[0-9]+`, or `None` for other text.
pub open spec fn number_value(s: Seq<char>) -> Option<int> {
    if s.len() > 1 && s[0] == '-' && all_digits(s.skip(1)) {
        Some(-digits_value(s.skip(1)))
    } else if s.len() > 0 && all_digits(s) {
        Some(digits_value(s))
    } else {
        None
    }
}

/// The value of a numeric literal that fits in an `i32`.
pub open spec fn number_of(s: Seq<char>) -> Option<i32> {
    match number_value(s) {
        Some(v) => if i32::MIN <= v && v <= i32::MAX {
            Some(v as i32)
        } else {
            None
        },
        None => None,
    }
}

pub open spec fn is_identifier_char(c: char) -> bool {
    ('a' <= c && c <= 'z') || c == '_'
}

/// Identifiers are `[a-z_][a-z_]*`.
pub open spec fn is_identifier_text(s: Seq<char>) -> bool {
    s.len() > 0 && forall|i: int| 0 <= i < s.len() ==> is_identifier_char(#[trigger] s[i])
}

/// The fixed operator table: the priority of each operator symbol.
pub open spec fn operator_priority(s: Seq<char>) -> Option<u32> {
    if s.len() == 1 {
        let c = s[0];
        if c == '.' {
            Some(0)
        } else if c == '*' || c == '/' {
            Some(1)
        } else if c == '+' || c == '-' {
            Some(2)
        } else if c == '<' || c == '>' || c == '!' {
            Some(3)
        } else if c == ',' {
            Some(4)
        } else if c == ':' {
            Some(5)
        } else if c == '=' {
            Some(6)
        } else {
            None
        }
    } else if s.len() == 2 {
        let a = s[0];
        let b = s[1];
        if (a == '=' || a == '!' || a == '<' || a == '>') && b == '=' {
            Some(3)
        } else if (a == '&' && b == '&') || (a == '|' && b == '|') {
            Some(3)
        } else if (a == '+' || a == '-') && b == '=' {
            Some(6)
        } else {
            None
        }
    } else {
        None
    }
}

/// The kind of a run of text: a number, an operator or an identifier, tried in
/// that order; `None` for text that is none of these. A number must fit in an
/// `i32`.
pub open spec fn classify(s: Seq<char>) -> Option<TokenType> {
    if s.len() == 1 && punctuation_type(s[0]) is Some {
        punctuation_type(s[0])
    } else if number_of(s) is Some {
        Some(TokenType::IdentifierOrNumber)
    } else if operator_priority(s) is Some {
        Some(TokenType::Operator(operator_priority(s)->0))
    } else if is_identifier_text(s) {
        Some(TokenType::IdentifierOrNumber)
    } else {
        None
    }
}

/// The class of a character inside a run: a run of operator characters ends
/// where another character starts, and the other way round.
#[derive(Clone, Copy, Debug, PartialEq, Eq, Structural)]
pub enum SymbolType {
    Operator,
    Number,
    Identifier,
}

pub open spec fn is_operator_char(c: char) -> bool {
    c == '=' || c == '+' || c == '-' || c == '/' || c == '.' || c == '*' || c == '%' || c == '!'
        || c == '>' || c == '<' || c == ':' || c == ',' || c == '&' || c == '|'
}

pub open spec fn symbol_type(c: char) -> SymbolType {
    if is_operator_char(c) {
        SymbolType::Operator
    } else if is_digit(c) {
        SymbolType::Number
    } else {
        SymbolType::Identifier
    }
}

fn operator_char(c: char) -> (r: bool)
    ensures
        r == is_operator_char(c),
{
    c == '=' || c == '+' || c == '-' || c == '/' || c == '.' || c == '*' || c == '%' || c == '!'
        || c == '>' || c == '<' || c == ':' || c == ',' || c == '&' || c == '|'
}

fn punctuation_of(c: char) -> (r: Option<TokenType>)
    ensures
        r == punctuation_type(c),
{
    if c == '(' {
        Some(TokenType::LParen)
    } else if c == ')' {
        Some(TokenType::RParen)
    } else if c == '{' {
        Some(TokenType::LCurrBracket)
    } else if c == '}' {
        Some(TokenType::RCurrBracket)
    } else {
        None
    }
}

/// The kind of a single-character punctuation token.
pub open spec fn punctuation_type(c: char) -> Option<TokenType> {
    if c == '(' {
        Some(TokenType::LParen)
    } else if c == ')' {
        Some(TokenType::RParen)
    } else if c == '{' {
        Some(TokenType::LCurrBracket)
    } else if c == '}' {
        Some(TokenType::RCurrBracket)
    } else {
        None
    }
}

proof fn lemma_digits_value_prefix(s: Seq<char>, k: int)
    requires
        0 <= k <= s.len(),
        all_digits(s),
    ensures
        0 <= digits_value(s.take(k)) <= digits_value(s),
    decreases s.len(),
{
    if s.len() > 0 {
        if k == s.len() {
            assert(s.take(k) =~= s);
            lemma_digits_value_prefix(s.drop_last(), s.len() - 1);
            assert(s.drop_last().take(s.len() - 1) =~= s.drop_last());
        } else {
            assert(all_digits(s.drop_last()));
            lemma_digits_value_prefix(s.drop_last(), k);
            assert(s.drop_last().take(k) =~= s.take(k));
        }
    }
}

/// The value of a run of digits `cs[start..]`, if it is at most `limit`.
fn digits_value_upto(cs: &Vec<char>, start: usize, limit: i64) -> (r: Option<i64>)
    requires
        start <= cs.len(),
        all_digits(cs@.skip(start as int)),
        0 <= limit <= 1_000_000_000_000,
    ensures
        r is Some <==> digits_value(cs@.skip(start as int)) <= limit,
        r is Some ==> r->0 == digits_value(cs@.skip(start as int)) && r->0 >= 0,
{
    let ghost s = cs@.skip(start as int);
    let mut acc: i64 = 0;
    let mut i: usize = start;
    while i < cs.len()
        invariant
            start <= i <= cs.len(),
            s == cs@.skip(start as int),
            all_digits(s),
            0 <= limit <= 1_000_000_000_000,
            acc == digits_value(s.take(i - start)),
            0 <= acc <= limit,
        decreases cs.len() - i,
    {
        let ghost k = i - start;
        assert(s.take(k + 1).drop_last() =~= s.take(k));
        assert(s[k] == cs@[i as int]);
        assert(is_digit(s[k]));
        let d = (cs[i] as u32 - '0' as u32) as i64;
        acc = acc * 10 + d;
        i = i + 1;
        if acc > limit {
            proof {
                lemma_digits_value_prefix(s, i - start);
            }
            return None;
        }
    }
    assert(s.take(i - start) =~= s);
    Some(acc)
}

/// The value of `cs` read as a numeric literal that fits in an `i32`.
pub fn number_of_chars(cs: &Vec<char>) -> (r: Option<i32>)
    ensures
        r == number_of(cs@),
{
    if cs.len() > 1 && cs[0] == '-' {
        let mut i: usize = 1;
        while i < cs.len()
            invariant
                1 <= i <= cs.len(),
                cs@[0] == '-',
                forall|j: int| 1 <= j < i ==> is_digit(cs@[j]),
            decreases cs.len() - i,
        {
            if !('0' <= cs[i] && cs[i] <= '9') {
                assert(cs@.skip(1)[i - 1] == cs@[i as int]);
                assert(!all_digits(cs@.skip(1)));
                assert(!all_digits(cs@)) by {
                    assert(!is_digit(cs@[0]));
                }
                return None;
            }
            i = i + 1;
        }
        assert(all_digits(cs@.skip(1))) by {
            assert forall|j: int| 0 <= j < cs@.skip(1).len() implies is_digit(#[trigger] cs@.skip(1)[j]) by {
                assert(cs@.skip(1)[j] == cs@[j + 1]);
            }
        }
        match digits_value_upto(cs, 1, 2147483648) {
            Some(v) => Some((-v) as i32),
            None => None,
        }
    } else {
        let mut i: usize = 0;
        while i < cs.len()
            invariant
                i <= cs.len(),
                !(cs.len() > 1 && cs@[0] == '-'),
                forall|j: int| 0 <= j < i ==> is_digit(cs@[j]),
            decreases cs.len() - i,
        {
            if !('0' <= cs[i] && cs[i] <= '9') {
                assert(!is_digit(cs@[i as int]));
                return None;
            }
            i = i + 1;
        }
        if cs.len() == 0 {
            return None;
        }
        assert(all_digits(cs@));
        assert(cs@.skip(0) =~= cs@);
        match digits_value_upto(cs, 0, 2147483647) {
            Some(v) => Some(v as i32),
            None => None,
        }
    }
}

/// Whether `cs` is an identifier.
pub fn identifier_chars(cs: &Vec<char>) -> (r: bool)
    ensures
        r == is_identifier_text(cs@),
{
    if cs.len() == 0 {
        return false;
    }
    let mut i: usize = 0;
    while i < cs.len()
        invariant
            i <= cs.len(),
            forall|j: int| 0 <= j < i ==> is_identifier_char(cs@[j]),
        decreases cs.len() - i,
    {
        let c = cs[i];
        if !(('a' <= c && c <= 'z') || c == '_') {
            assert(!is_identifier_char(cs@[i as int]));
            return false;
        }
        i = i + 1;
    }
    true
}

/// The priority of `cs` in the operator table.
pub fn operator_priority_of(cs: &Vec<char>) -> (r: Option<u32>)
    ensures
        r == operator_priority(cs@),
{
    if cs.len() == 1 {
        let c = cs[0];
        if c == '.' {
            Some(0)
        } else if c == '*' || c == '/' {
            Some(1)
        } else if c == '+' || c == '-' {
            Some(2)
        } else if c == '<' || c == '>' || c == '!' {
            Some(3)
        } else if c == ',' {
            Some(4)
        } else if c == ':' {
            Some(5)
        } else if c == '=' {
            Some(6)
        } else {
            None
        }
    } else if cs.len() == 2 {
        let a = cs[0];
        let b = cs[1];
        if (a == '=' || a == '!' || a == '<' || a == '>') && b == '=' {
            Some(3)
        } else if (a == '&' && b == '&') || (a == '|' && b == '|') {
            Some(3)
        } else if (a == '+' || a == '-') && b == '=' {
            Some(6)
        } else {
            None
        }
    } else {
        None
    }
}

/// The kind of the run `cs`, as `classify` gives it.
pub fn classify_chars(cs: &Vec<char>) -> (r: Option<TokenType>)
    ensures
        r == classify(cs@),
{
    if cs.len() == 1 {
        if let Some(k) = punctuation_of(cs[0]) {
            return Some(k);
        }
    }
    if number_of_chars(cs).is_some() {
        Some(TokenType::IdentifierOrNumber)
    } else {
        match operator_priority_of(cs) {
            Some(p) => Some(TokenType::Operator(p)),
            None => if identifier_chars(cs) {
                Some(TokenType::IdentifierOrNumber)
            } else {
                None
            },
        }
    }
}

impl Token {
    pub fn new(text: String, token_type: TokenType, line_num: usize, col_num: usize) -> (r: Self)
        ensures
            r.text == text,
            r.token_type == token_type,
            r.line_num == line_num,
            r.col_num == col_num,
    {
        Token { text, token_type, line_num, col_num }
    }

    /// This token for diagnostics (see `token_text`).
    pub fn to_string(&self) -> (r: String)
        ensures
            r@ == token_text(self@),
    {
        let mut s = String::new();
        append_str(&mut s, "('");
        append_str(&mut s, self.text.as_str());
        append_str(&mut s, "', '");
        match self.token_type {
            TokenType::Operator(p) => {
                append_str(&mut s, "Operator(");
                push_decimal(&mut s, p as usize);
                append_str(&mut s, ")");
            },
            TokenType::IdentifierOrNumber => append_str(&mut s, "IdentifierOrNumber"),
            TokenType::LParen => append_str(&mut s, "LParen"),
            TokenType::RParen => append_str(&mut s, "RParen"),
            TokenType::LCurrBracket => append_str(&mut s, "LCurrBracket"),
            TokenType::RCurrBracket => append_str(&mut s, "RCurrBracket"),
        }
        append_str(&mut s, "', ln:");
        push_decimal(&mut s, self.line_num);
        append_str(&mut s, ", col:");
        push_decimal(&mut s, self.col_num);
        append_str(&mut s, ")");
        assert(s@ =~= token_text(self@));
        s
    }

    /// A copy of this token.
    pub fn duplicate(&self) -> (r: Self)
        ensures
            r == *self,
    {
        Token {
            text: self.text.clone(),
            token_type: self.token_type,
            line_num: self.line_num,
            col_num: self.col_num,
        }
    }
}

/// The name of a token kind, as `Debug` writes it.
pub open spec fn kind_text(k: TokenType) -> Seq<char> {
    match k {
        TokenType::Operator(p) => "Operator("@ + decimal(p as nat) + ")"@,
        TokenType::IdentifierOrNumber => "IdentifierOrNumber"@,
        TokenType::LParen => "LParen"@,
        TokenType::RParen => "RParen"@,
        TokenType::LCurrBracket => "LCurrBracket"@,
        TokenType::RCurrBracket => "RCurrBracket"@,
    }
}

/// A token for diagnostics: `('text', 'Kind', ln:1, col:2)`.
pub open spec fn token_text(t: TokenView) -> Seq<char> {
    "('"@ + t.text + "', '"@ + kind_text(t.token_type) + "', ln:"@ + decimal(t.line_num as nat)
        + ", col:"@ + decimal(t.col_num as nat) + ")"@
}

/// The texts of `ts`, each after `sep` but the first.
pub open spec fn joined(ts: Seq<Seq<char>>, sep: Seq<char>) -> Seq<char>
    decreases ts.len(),
{
    if ts.len() == 0 {
        Seq::empty()
    } else if ts.len() == 1 {
        ts[0]
    } else {
        joined(ts.drop_last(), sep) + sep + ts.last()
    }
}

pub open spec fn list_text(ts: Seq<TokenView>) -> Seq<char> {
    "{"@ + joined(ts.map_values(|t: TokenView| token_text(t)), ", "@) + "}"@
}

pub open spec fn token_views(ts: Seq<Token>) -> Seq<TokenView> {
    ts.map_values(|t: Token| t@)
}

/// One statement group, read through a cursor: `tokens[curr..]` is what is
/// left to consume.
#[derive(Clone, Debug)]
pub struct TokenList {
    pub tokens: Vec<Token>,
    pub curr: usize,
}

impl TokenList {
    pub open spec fn wf(&self) -> bool {
        self.curr <= self.tokens.len()
    }

    /// The tokens not consumed yet.
    pub open spec fn remaining(&self) -> Seq<Token> {
        self.tokens@.subrange(self.curr as int, self.tokens@.len() as int)
    }

    pub fn new() -> (r: TokenList)
        ensures
            r.wf(),
            r.tokens@ == Seq::<Token>::empty(),
            r.curr == 0,
    {
        TokenList { tokens: Vec::new(), curr: 0 }
    }

    /// Appends `token` unless its text is empty.
    pub fn add_token(&mut self, token: Token)
        ensures
            final(self).curr == old(self).curr,
            final(self).tokens@ == if token.text@.len() == 0 {
                old(self).tokens@
            } else {
                old(self).tokens@.push(token)
            },
    {
        if token.text.as_str().is_empty() {
            return ;
        }
        self.tokens.push(token);
    }

    /// Appends a token made of the given parts unless `text` is empty.
    pub fn add_token_from_text(
        &mut self,
        text: String,
        token_type: TokenType,
        line_num: usize,
        col_num: usize,
    )
        ensures
            final(self).curr == old(self).curr,
            final(self).tokens@ == if text@.len() == 0 {
                old(self).tokens@
            } else {
                old(self).tokens@.push(Token { text, token_type, line_num, col_num })
            },
    {
        self.add_token(Token::new(text, token_type, line_num, col_num));
    }

    /// The tokens for diagnostics: `{` then each token's text, separated by
    /// `, `, then `}`.
    pub fn to_string(&self) -> (r: String)
        ensures
            r@ == list_text(token_views(self.tokens@)),
    {
        let ghost texts = token_views(self.tokens@).map_values(|t: TokenView| token_text(t));
        let mut s = String::new();
        append_str(&mut s, "{");
        let mut i: usize = 0;
        while i < self.tokens.len()
            invariant
                i <= self.tokens@.len(),
                texts == token_views(self.tokens@).map_values(|t: TokenView| token_text(t)),
                s@ == "{"@ + joined(texts.take(i as int), ", "@),
            decreases self.tokens@.len() - i,
        {
            if i != 0 {
                append_str(&mut s, ", ");
            }
            let t = self.tokens[i].to_string();
            append_str(&mut s, t.as_str());
            proof {
                assert(texts.take(i + 1).drop_last() =~= texts.take(i as int));
                assert(texts[i as int] == token_text(self.tokens@[i as int]@));
                if i == 0 {
                    assert(joined(texts.take(1), ", "@) == texts[0]);
                }
            }
            i = i + 1;
        }
        append_str(&mut s, "}");
        assert(texts.take(i as int) =~= texts);
        s
    }

    pub fn is_end(&self) -> (r: bool)
        ensures
            r == (self.curr >= self.tokens.len()),
    {
        self.curr >= self.tokens.len()
    }

    /// The next token, without consuming it.
    pub fn get_curr(&self) -> (r: Option<Token>)
        ensures
            r == if self.curr < self.tokens.len() {
                Some(self.tokens@[self.curr as int])
            } else {
                None::<Token>
            },
    {
        if self.is_end() {
            return None;
        }
        Some(self.tokens[self.curr].duplicate())
    }

    /// The next token, consumed.
    pub fn get_curr_inc(&mut self) -> (r: Option<Token>)
        ensures
            final(self).tokens == old(self).tokens,
            r == if old(self).curr < old(self).tokens.len() {
                Some(old(self).tokens@[old(self).curr as int])
            } else {
                None::<Token>
            },
            final(self).curr == if old(self).curr < old(self).tokens.len() {
                old(self).curr + 1
            } else {
                old(self).curr as int
            },
    {
        if self.is_end() {
            return None;
        }
        let t = self.tokens[self.curr].duplicate();
        self.curr = self.curr + 1;
        Some(t)
    }

    /// Skips the next token, if there is one.
    pub fn inc_curr(&mut self)
        ensures
            final(self).tokens == old(self).tokens,
            final(self).curr == if old(self).curr < old(self).tokens.len() {
                old(self).curr + 1
            } else {
                old(self).curr as int
            },
    {
        if !self.is_end() {
            self.curr = self.curr + 1;
        }
    }

    /// The token at index `i`, consumed or not.
    pub fn get(&self, i: usize) -> (r: Option<Token>)
        ensures
            r == if i < self.tokens.len() {
                Some(self.tokens@[i as int])
            } else {
                None::<Token>
            },
    {
        if i >= self.tokens.len() {
            return None;
        }
        Some(self.tokens[i].duplicate())
    }
}

/// The statement groups of a source text, in order.
#[derive(Clone, Debug)]
pub struct TokenExpressions {
    pub token_lists: Vec<TokenList>,
}

impl View for TokenExpressions {
    type V = Seq<Seq<TokenView>>;

    open spec fn view(&self) -> Seq<Seq<TokenView>> {
        self.token_lists@.map_values(|l: TokenList| token_views(l.tokens@))
    }
}

pub open spec fn groups_text(gs: Seq<Seq<TokenView>>) -> Seq<char> {
    "{  "@ + joined(gs.map_values(|g: Seq<TokenView>| list_text(g)), ", "@) + "  }"@
}

impl TokenExpressions {
    /// The statement groups for diagnostics: `{  `, each group's text
    /// separated by `, `, then `  }`.
    pub fn to_string(&self) -> (r: String)
        ensures
            r@ == groups_text(self@),
    {
        let ghost texts = self@.map_values(|g: Seq<TokenView>| list_text(g));
        let mut s = String::new();
        append_str(&mut s, "{  ");
        let mut i: usize = 0;
        while i < self.token_lists.len()
            invariant
                i <= self.token_lists@.len(),
                texts == self@.map_values(|g: Seq<TokenView>| list_text(g)),
                s@ == "{  "@ + joined(texts.take(i as int), ", "@),
            decreases self.token_lists@.len() - i,
        {
            if i != 0 {
                append_str(&mut s, ", ");
            }
            let t = self.token_lists[i].to_string();
            append_str(&mut s, t.as_str());
            proof {
                assert(texts.take(i + 1).drop_last() =~= texts.take(i as int));
                assert(texts[i as int] == list_text(token_views(self.token_lists@[i as int].tokens@)));
                if i == 0 {
                    assert(joined(texts.take(1), ", "@) == texts[0]);
                }
            }
            i = i + 1;
        }
        append_str(&mut s, "  }");
        assert(texts.take(i as int) =~= texts);
        s
    }

    pub fn new() -> (r: Self)
        ensures
            r@ == Seq::<Seq<TokenView>>::empty(),
            r.token_lists@.len() == 0,
    {
        TokenExpressions { token_lists: Vec::new() }
    }
}

/// A run of text that is neither a number, an operator nor an identifier.
#[derive(Clone, Debug)]
pub enum LexError {
    UnclassifiableToken { text: String, line: usize, column: usize },
}

pub struct LexErrorView {
    pub text: Seq<char>,
    pub line: int,
    pub column: int,
}

impl View for LexError {
    type V = LexErrorView;

    open spec fn view(&self) -> LexErrorView {
        match self {
            LexError::UnclassifiableToken { text, line, column } => LexErrorView {
                text: text@,
                line: *line as int,
                column: *column as int,
            },
        }
    }
}

/// The tokenizer's state between two characters: the pending run of text and
/// where it started, the position of the last character read, the tokens of
/// the open statement group and the groups closed so far.
pub struct LexState {
    pub text: Seq<char>,
    pub line: int,
    pub col: int,
    pub start_col: int,
    pub current: Seq<TokenView>,
    pub groups: Seq<Seq<TokenView>>,
}

pub open spec fn initial_state() -> LexState {
    LexState {
        text: Seq::empty(),
        line: 1,
        col: 0,
        start_col: 0,
        current: Seq::empty(),
        groups: Seq::empty(),
    }
}

/// Ends the pending run: a non-empty run becomes a token of the open group, or
/// an error when it cannot be classified. The next run is taken to start at
/// the current column.
pub open spec fn flush(st: LexState) -> Result<LexState, LexErrorView> {
    if st.text.len() == 0 {
        Ok(LexState { start_col: st.col, ..st })
    } else {
        match classify(st.text) {
            Some(k) => Ok(
                LexState {
                    text: Seq::empty(),
                    start_col: st.col,
                    current: st.current.push(
                        TokenView {
                            text: st.text,
                            token_type: k,
                            line_num: st.line,
                            col_num: st.start_col,
                        },
                    ),
                    ..st
                },
            ),
            None => Err(LexErrorView { text: st.text, line: st.line, column: st.start_col }),
        }
    }
}

/// Closes the open statement group, unless it holds no token.
pub open spec fn close_group(st: LexState) -> LexState {
    if st.current.len() > 0 {
        LexState { current: Seq::empty(), groups: st.groups.push(st.current), ..st }
    } else {
        st
    }
}

/// Reads one character.
pub open spec fn lex_step(st0: LexState, c: char) -> Result<LexState, LexErrorView> {
    let st = LexState { col: st0.col + 1, ..st0 };
    if c == ' ' || c == '\t' {
        flush(st)
    } else if c == '\n' {
        match flush(st) {
            Ok(s) => Ok(LexState { line: s.line + 1, col: 0, start_col: 0, ..s }),
            Err(e) => Err(e),
        }
    } else if punctuation_type(c) is Some {
        match flush(st) {
            Ok(s) => flush(LexState { text: seq![c], start_col: s.col, ..s }),
            Err(e) => Err(e),
        }
    } else if c == ';' {
        match flush(st) {
            Ok(s) => Ok(close_group(s)),
            Err(e) => Err(e),
        }
    } else if st.text.len() > 0 && is_operator_char(st.text[0]) != is_operator_char(c) {
        match flush(st) {
            Ok(s) => Ok(LexState { text: seq![c], start_col: s.col, ..s }),
            Err(e) => Err(e),
        }
    } else {
        Ok(
            LexState {
                text: st.text.push(c),
                start_col: if st.text.len() == 0 {
                    st.col
                } else {
                    st.start_col
                },
                ..st
            },
        )
    }
}

/// The state after reading the first `n` characters of `cs`.
pub open spec fn lex_prefix(cs: Seq<char>, n: nat) -> Result<LexState, LexErrorView>
    decreases n,
{
    if n == 0 {
        Ok(initial_state())
    } else {
        match lex_prefix(cs, (n - 1) as nat) {
            Ok(st) => lex_step(st, cs[n - 1]),
            Err(e) => Err(e),
        }
    }
}

/// The statement groups of `cs`, or the first run that cannot be classified.
pub open spec fn lex(cs: Seq<char>) -> Result<Seq<Seq<TokenView>>, LexErrorView> {
    match lex_prefix(cs, cs.len()) {
        Ok(st) => match flush(st) {
            Ok(s) => Ok(close_group(s).groups),
            Err(e) => Err(e),
        },
        Err(e) => Err(e),
    }
}

/// Builds the tokens of one source text, one character at a time.
pub struct TokenConstructor {
    pub text: Vec<char>,
    pub line: usize,
    pub col: usize,
    pub start_col: usize,
    pub current: TokenList,
}

impl TokenConstructor {
    /// The state this constructor stands for, with `groups` closed so far.
    pub open spec fn state(&self, groups: Seq<Seq<TokenView>>) -> LexState {
        LexState {
            text: self.text@,
            line: self.line as int,
            col: self.col as int,
            start_col: self.start_col as int,
            current: token_views(self.current.tokens@),
            groups,
        }
    }

    pub fn new() -> (r: Self)
        ensures
            r.state(Seq::empty()) == initial_state(),
            r.line == 1,
            r.col == 0,
    {
        let r = TokenConstructor {
            text: Vec::new(),
            line: 1,
            col: 0,
            start_col: 0,
            current: TokenList::new(),
        };
        assert(r.text@ =~= Seq::<char>::empty());
        assert(token_views(r.current.tokens@) =~= Seq::<TokenView>::empty());
        r
    }

    /// The class of `c` inside a run.
    pub fn get_symbol_type(c: char) -> (r: Option<SymbolType>)
        ensures
            r == Some(symbol_type(c)),
    {
        if operator_char(c) {
            Some(SymbolType::Operator)
        } else if '0' <= c && c <= '9' {
            Some(SymbolType::Number)
        } else {
            Some(SymbolType::Identifier)
        }
    }

    /// Whether the pending run is an operator of the table.
    pub fn is_operator(&self) -> (r: bool)
        ensures
            r == (operator_priority(self.state(Seq::empty()).text) is Some),
    {
        operator_priority_of(&self.text).is_some()
    }

    /// Whether the pending run is an identifier.
    pub fn is_identifier(&self) -> (r: bool)
        ensures
            r == is_identifier_text(self.state(Seq::empty()).text),
    {
        identifier_chars(&self.text)
    }

    /// Whether the pending run is a numeric literal that fits in an `i32`.
    pub fn is_number(&self) -> (r: bool)
        ensures
            r == (number_of(self.state(Seq::empty()).text) is Some),
    {
        number_of_chars(&self.text).is_some()
    }

    /// Moves to the start of the next line.
    pub fn new_line(&mut self)
        requires
            old(self).line < usize::MAX,
        ensures
            forall|g: Seq<Seq<TokenView>>| #[trigger]
                final(self).state(g) == (LexState {
                    line: old(self).state(g).line + 1,
                    col: 0,
                    start_col: 0,
                    ..old(self).state(g)
                }),
            final(self).line == old(self).line + 1,
            final(self).col == 0,
    {
        self.line = self.line + 1;
        self.col = 0;
        self.start_col = 0;
    }

    /// Ends the pending run of text (see `flush`); on an error nothing changes.
    pub fn process_text(&mut self) -> (r: Result<(), LexError>)
        ensures
            final(self).line == old(self).line,
            final(self).col == old(self).col,
            r is Err ==> *final(self) == *old(self),
            forall|g: Seq<Seq<TokenView>>| #[trigger]
                flush(old(self).state(g)) == (match r {
                    Ok(()) => Ok::<LexState, LexErrorView>(final(self).state(g)),
                    Err(e) => Err(e@),
                }),
    {
        if self.text.len() == 0 {
            self.start_col = self.col;
            return Ok(());
        }
        match classify_chars(&self.text) {
            Some(k) => {
                let t = Token::new(string_of(&self.text), k, self.line, self.start_col);
                self.current.tokens.push(t);
                self.text = Vec::new();
                self.start_col = self.col;
                proof {
                    assert(token_views(self.current.tokens@) =~= token_views(
                        old(self).current.tokens@,
                    ).push(t@));
                }
                Ok(())
            },
            None => Err(
                LexError::UnclassifiableToken {
                    text: string_of(&self.text),
                    line: self.line,
                    column: self.start_col,
                },
            ),
        }
    }

    /// Closes the open statement group into `out` (see `close_group`).
    fn close_group(&mut self, out: &mut TokenExpressions)
        ensures
            final(self).line == old(self).line,
            final(self).col == old(self).col,
            final(self).state(final(out)@) == close_group(old(self).state(old(out)@)),
            forall|k: int| 0 <= k < old(out).token_lists@.len() ==> #[trigger] final(out).token_lists@[k] == old(out).token_lists@[k],
            final(out).token_lists@.len() >= old(out).token_lists@.len(),
            forall|k: int| old(out).token_lists@.len() <= k < final(out).token_lists@.len() ==> (#[trigger] final(out).token_lists@[k]).curr == 0,
    {
        if self.current.tokens.len() > 0 {
            let mut group = TokenList::new();
            std::mem::swap(&mut group, &mut self.current);
            group.curr = 0;
            out.token_lists.push(group);
            proof {
                assert(out@ =~= old(out)@.push(token_views(old(self).current.tokens@)));
                assert(token_views(self.current.tokens@) =~= Seq::<TokenView>::empty());
            }
        }
    }

    /// Reads the character `c` (see `lex_step`); closed groups go to `out`.
    pub fn insert(&mut self, c: char, out: &mut TokenExpressions) -> (r: Result<(), LexError>)
        requires
            old(self).col < usize::MAX,
            old(self).line < usize::MAX,
        ensures
            match lex_step(old(self).state(old(out)@), c) {
                Ok(st) => r is Ok && final(self).state(final(out)@) == st,
                Err(e) => r is Err && r->Err_0@ == e,
            },
            final(self).line <= old(self).line + 1,
            final(self).col <= old(self).col + 1,
            forall|k: int| 0 <= k < old(out).token_lists@.len() ==> #[trigger] final(out).token_lists@[k] == old(out).token_lists@[k],
            final(out).token_lists@.len() >= old(out).token_lists@.len(),
            forall|k: int| old(out).token_lists@.len() <= k < final(out).token_lists@.len() ==> (#[trigger] final(out).token_lists@[k]).curr == 0,
    {
        let ghost st0 = old(self).state(old(out)@);
        self.col = self.col + 1;
        assert(self.state(out@) == LexState { col: st0.col + 1, ..st0 });
        if c == ' ' || c == '\t' {
            self.process_text()
        } else if c == '\n' {
            match self.process_text() {
                Ok(()) => {
                    self.new_line();
                    Ok(())
                },
                Err(e) => Err(e),
            }
        } else {
            match punctuation_of(c) {
                Some(_) => {
                    match self.process_text() {
                        Ok(()) => {
                            let ghost s1 = self.state(out@);
                            self.text = vec![c];
                            self.start_col = self.col;
                            assert(self.text@ =~= seq![c]);
                            assert(self.state(out@) == (LexState { text: seq![c], start_col: s1.col, ..s1 }));
                            self.process_text()
                        },
                        Err(e) => Err(e),
                    }
                },
                None => {
                    if c == ';' {
                        match self.process_text() {
                            Ok(()) => {
                                self.close_group(out);
                                Ok(())
                            },
                            Err(e) => Err(e),
                        }
                    } else if self.text.len() > 0 && operator_char(self.text[0]) != operator_char(c) {
                        match self.process_text() {
                            Ok(()) => {
                                let ghost s1 = self.state(out@);
                                self.text = vec![c];
                                self.start_col = self.col;
                                assert(self.text@ =~= seq![c]);
                                assert(self.state(out@) == (LexState { text: seq![c], start_col: s1.col, ..s1 }));
                                Ok(())
                            },
                            Err(e) => Err(e),
                        }
                    } else {
                        if self.text.len() == 0 {
                            self.start_col = self.col;
                        }
                        self.text.push(c);
                        Ok(())
                    }
                },
            }
        }
    }

    /// Ends the text: the pending run and the open group are closed into `out`.
    pub fn finish(&mut self, out: &mut TokenExpressions) -> (r: Result<(), LexError>)
        ensures
            match flush(old(self).state(old(out)@)) {
                Ok(st) => r is Ok && final(out)@ == close_group(st).groups,
                Err(e) => r is Err && r->Err_0@ == e,
            },
            forall|k: int| 0 <= k < old(out).token_lists@.len() ==> #[trigger] final(out).token_lists@[k] == old(out).token_lists@[k],
            forall|k: int| old(out).token_lists@.len() <= k < final(out).token_lists@.len() ==> (#[trigger] final(out).token_lists@[k]).curr == 0,
    {
        match self.process_text() {
            Ok(()) => {
                self.close_group(out);
                Ok(())
            },
            Err(e) => Err(e),
        }
    }
}

/// A cursor over the characters of a source text.
pub struct IterRef {
    pub char_num: usize,
    pub chars: Vec<char>,
    pub len: usize,
}

impl IterRef {
    pub open spec fn wf(&self) -> bool {
        self.len == self.chars@.len() && self.char_num <= self.len
    }

    pub fn new(text: &str) -> (r: Self)
        ensures
            r.wf(),
            r.chars@ == text@,
            r.char_num == 0,
    {
        let chars = chars_of(text);
        let len = chars.len();
        IterRef { char_num: 0, chars, len }
    }

    /// The next character, if any is left.
    pub fn next(&mut self) -> (r: Option<char>)
        requires
            old(self).wf(),
        ensures
            final(self).wf(),
            final(self).chars == old(self).chars,
            final(self).len == old(self).len,
            r == if old(self).char_num < old(self).len {
                Some(old(self).chars@[old(self).char_num as int])
            } else {
                None::<char>
            },
            final(self).char_num == if old(self).char_num < old(self).len {
                old(self).char_num + 1
            } else {
                old(self).char_num as int
            },
    {
        if !self.reached_end() {
            let c = self.chars[self.char_num];
            self.char_num = self.char_num + 1;
            return Some(c);
        }
        None
    }

    pub fn reached_end(&self) -> (r: bool)
        ensures
            r == (self.len <= self.char_num),
    {
        self.len <= self.char_num
    }
}

proof fn lemma_lex_prefix_error(cs: Seq<char>, k: nat, n: nat)
    requires
        k <= n,
        lex_prefix(cs, k) is Err,
    ensures
        lex_prefix(cs, n) == lex_prefix(cs, k),
    decreases n - k,
{
    if n > k {
        lemma_lex_prefix_error(cs, k, (n - 1) as nat);
    }
}

pub open spec fn groups_non_empty(gs: Seq<Seq<TokenView>>) -> bool {
    forall|k: int| 0 <= k < gs.len() ==> (#[trigger] gs[k]).len() > 0
}

proof fn lemma_prefix_groups_non_empty(cs: Seq<char>, n: nat)
    ensures
        lex_prefix(cs, n) is Ok ==> groups_non_empty(lex_prefix(cs, n)->Ok_0.groups),
    decreases n,
{
    if n > 0 {
        lemma_prefix_groups_non_empty(cs, (n - 1) as nat);
    }
}

/// No statement group is empty: separators with no token between them, or at
/// either end of the text, yield no group.
pub proof fn lemma_no_empty_group(cs: Seq<char>)
    ensures
        lex(cs) is Ok ==> groups_non_empty(lex(cs)->Ok_0),
{
    lemma_prefix_groups_non_empty(cs, cs.len());
}

pub open spec fn is_blank(c: char) -> bool {
    c == ' ' || c == '\t' || c == '\n'
}

/// Counts the `;`-separated segments among the first `n` characters of `cs`
/// that hold a character other than a blank: the segments closed so far, and
/// whether the open segment holds one.
pub open spec fn segments_prefix(cs: Seq<char>, n: nat) -> (nat, bool)
    decreases n,
{
    if n == 0 {
        (0, false)
    } else {
        let (count, open) = segments_prefix(cs, (n - 1) as nat);
        let c = cs[n - 1];
        if c == ';' {
            (if open {
                count + 1
            } else {
                count
            }, false)
        } else if is_blank(c) {
            (count, open)
        } else {
            (count, true)
        }
    }
}

/// The number of `;`-separated segments of `cs` that hold a character other
/// than a blank.
pub open spec fn non_empty_segments(cs: Seq<char>) -> nat {
    let (count, open) = segments_prefix(cs, cs.len());
    if open {
        count + 1
    } else {
        count
    }
}

proof fn lemma_prefix_segments(cs: Seq<char>, n: nat)
    requires
        n <= cs.len(),
    ensures
        lex_prefix(cs, n) is Ok ==> {
            let st = lex_prefix(cs, n)->Ok_0;
            &&& st.groups.len() == segments_prefix(cs, n).0
            &&& (st.current.len() > 0 || st.text.len() > 0) == segments_prefix(cs, n).1
        },
    decreases n,
{
    if n > 0 {
        lemma_prefix_segments(cs, (n - 1) as nat);
    }
}

/// Each `;`-separated segment of the text that holds a character other than
/// a blank becomes exactly one statement group, in order; the others, such as
/// the one between two consecutive separators, become none.
pub proof fn lemma_one_group_per_segment(cs: Seq<char>)
    ensures
        lex(cs) is Ok ==> lex(cs)->Ok_0.len() == non_empty_segments(cs),
{
    lemma_prefix_segments(cs, cs.len());
}

/// Splits `text` into statement groups of tokens (see `lex`).
pub fn tokenize(text: &str) -> (r: Result<TokenExpressions, LexError>)
    requires
        text@.len() < usize::MAX,
    ensures
        match lex(text@) {
            Ok(gs) => r is Ok && r->Ok_0@ == gs,
            Err(e) => r is Err && r->Err_0@ == e,
        },
        r is Ok ==> forall|k: int|
            0 <= k < r->Ok_0.token_lists@.len() ==> (#[trigger] r->Ok_0.token_lists@[k]).curr == 0
                && r->Ok_0.token_lists@[k].tokens@.len() > 0,
{
    let mut iter_ref = IterRef::new(text);
    let mut token_constructor = TokenConstructor::new();
    let mut token_expressions = TokenExpressions::new();
    while !iter_ref.reached_end()
        invariant
            iter_ref.wf(),
            iter_ref.chars@ == text@,
            text@.len() < usize::MAX,
            lex_prefix(text@, iter_ref.char_num as nat) == Ok::<LexState, LexErrorView>(
                token_constructor.state(token_expressions@),
            ),
            token_constructor.line <= iter_ref.char_num + 1,
            token_constructor.col <= iter_ref.char_num,
            forall|k: int|
                0 <= k < token_expressions.token_lists@.len() ==> (#[trigger] token_expressions.token_lists@[k]).curr == 0,
        decreases iter_ref.len - iter_ref.char_num,
    {
        let ghost i = iter_ref.char_num;
        let c = iter_ref.next().unwrap();
        match token_constructor.insert(c, &mut token_expressions) {
            Ok(()) => {},
            Err(e) => {
                proof {
                    lemma_lex_prefix_error(text@, (i + 1) as nat, text@.len());
                }
                return Err(e);
            },
        }
    }
    match token_constructor.finish(&mut token_expressions) {
        Ok(()) => {},
        Err(e) => {
            return Err(e);
        },
    }
    proof {
        lemma_no_empty_group(text@);
        assert forall|k: int| 0 <= k < token_expressions.token_lists@.len() implies (#[trigger] token_expressions.token_lists@[k]).tokens@.len() > 0 by {
            assert(token_expressions@[k] == token_views(token_expressions.token_lists@[k].tokens@));
        }
    }
    Ok(token_expressions)
}

} // verus!
