//! The parser: reads source text into syntax trees, as the grammar in
//! [`crate::syntax`] says.

use crate::ast::{Ast, Expr, Range, TypeAst};
use crate::syntax::{
    arith_more, arith_step, arith_with, chars_of, decimal, in_class, is_ident_start, is_keyword,
    read_arith, read_atom, read_bool_literal, read_expr, read_function, read_function_head,
    read_i32, read_ident, read_int_literal, read_let, read_let_head, read_paren, read_program,
    read_type_atom, read_type_expr, read_type_paren, read_u32, read_var, reinterpret, run_end,
    lemma_run_is_of_class, lemma_words, spaced_token, token, type_arrows, whole, with_signs, Class, Infix,
};
use vstd::prelude::*;
use vstd::string::StringSliceAdditionalSpecFns;

verus! {

/// The text is not of the form that was asked for.
#[derive(Debug, PartialEq)]
pub struct ParseError();

/// What a parser of expressions found, as the grammar states it.
pub open spec fn expr_found(res: Option<(Ast, usize)>) -> Option<(Expr, int)> {
    match res {
        Some((ast, end)) => Some((ast@, end as int)),
        None => None,
    }
}

/// What a parser found, as the grammar states it.
pub open spec fn found<T>(res: Option<(T, usize)>) -> Option<(T, int)> {
    match res {
        Some((value, end)) => Some((value, end as int)),
        None => None,
    }
}

/// Where a parser of a word ended, as the grammar states it.
pub open spec fn found_at(res: Option<usize>) -> Option<int> {
    match res {
        Some(end) => Some(end as int),
        None => None,
    }
}

/// The model of the result of parsing an expression.
pub open spec fn parsed_expr(res: Result<Ast, ParseError>) -> Option<Expr> {
    match res {
        Ok(ast) => Some(ast@),
        Err(_) => None,
    }
}

/// The result of parsing a type, as an option.
pub open spec fn parsed_type(res: Result<TypeAst, ParseError>) -> Option<TypeAst> {
    match res {
        Ok(t) => Some(t),
        Err(_) => None,
    }
}

fn starts_ident(b: u8) -> (res: bool)
    ensures
        res == is_ident_start(b),
{
    ('a' as u8 <= b && b <= 'z' as u8) || ('A' as u8 <= b && b <= 'Z' as u8) || b == '_' as u8 || b
        == '?' as u8 || b == '!' as u8
}

fn class_has(class: Class, b: u8) -> (res: bool)
    ensures
        res == in_class(class, b),
{
    match class {
        Class::Space => b == ' ' as u8 || b == '\t' as u8 || b == '\n' as u8 || b == '\r' as u8,
        Class::Digit => '0' as u8 <= b && b <= '9' as u8,
        Class::Sign => b == '-' as u8 || b == '+' as u8,
        Class::Ident => starts_ident(b) || ('0' as u8 <= b && b <= '9' as u8),
    }
}

/// The end of the run of bytes of `class` at `pos`.
fn skip(s: &[u8], pos: usize, class: Class) -> (end: usize)
    requires
        pos <= s.len(),
    ensures
        end == run_end(s@, pos as int, class),
        pos <= end <= s.len(),
{
    let mut at: usize = pos;
    while at < s.len() && class_has(class, s[at])
        invariant
            pos <= at <= s.len(),
            run_end(s@, at as int, class) == run_end(s@, pos as int, class),
        decreases s.len() - at,
    {
        at += 1;
    }
    at
}

/// Whether the bytes of `s` from `from` to `to` are those of `word`.
fn same_bytes(s: &[u8], from: usize, to: usize, word: &str) -> (res: bool)
    requires
        from <= to <= s.len(),
    ensures
        res == (s@.subrange(from as int, to as int) == word.spec_bytes()),
{
    let w = word.as_bytes();
    if w.len() != to - from {
        return false;
    }
    let mut i: usize = 0;
    while i < w.len()
        invariant
            i <= w.len(),
            w@ == word.spec_bytes(),
            from + w.len() == to,
            to <= s.len(),
            forall|j: int| 0 <= j < i ==> s@[from + j] == w@[j],
        decreases w.len() - i,
    {
        if s[from + i] != w[i] {
            assert(s@.subrange(from as int, to as int)[i as int] != w@[i as int]);
            return false;
        }
        i += 1;
    }
    assert(s@.subrange(from as int, to as int) =~= w@);
    true
}

/// The position after `word`, where the text holds `word` at `pos`.
fn eat(s: &[u8], pos: usize, word: &str) -> (res: Option<usize>)
    requires
        pos <= s.len(),
    ensures
        found_at(res) == token(s@, pos as int, word),
        res matches Some(end) ==> end == pos + word.spec_bytes().len() && end <= s.len(),
{
    let len = word.as_bytes().len();
    if len <= s.len() - pos && same_bytes(s, pos, pos + len, word) {
        Some(pos + len)
    } else {
        None
    }
}

/// The position after `word` and the white space on both sides of it.
fn eat_spaced(s: &[u8], pos: usize, word: &str) -> (res: Option<usize>)
    requires
        pos <= s.len(),
    ensures
        found_at(res) == spaced_token(s@, pos as int, word),
        res matches Some(end) ==> pos + word.spec_bytes().len() <= end <= s.len(),
{
    let at = skip(s, pos, Class::Space);
    match eat(s, at, word) {
        Some(after) => Some(skip(s, after, Class::Space)),
        None => None,
    }
}

/// A sequence of digits with digits added denotes no smaller a number.
proof fn lemma_decimal_grows(digits: Seq<u8>, upto: int)
    requires
        0 <= upto <= digits.len(),
        forall|i: int| 0 <= i < digits.len() ==> '0' as u8 <= #[trigger] digits[i],
    ensures
        decimal(digits.take(upto)) <= decimal(digits),
    decreases digits.len() - upto,
{
    if upto < digits.len() {
        assert(digits.take(digits.len() - 1) =~= digits.drop_last());
        assert(digits.drop_last().take(upto) =~= digits.take(upto));
        lemma_decimal_grows(digits.drop_last(), upto);
    } else {
        assert(digits.take(upto) =~= digits);
    }
}

/// An unsigned number at `pos`.
fn parse_u32(s: &[u8], pos: usize) -> (res: Option<(u32, usize)>)
    requires
        pos <= s.len(),
    ensures
        found(res) == read_u32(s@, pos as int),
        res matches Some((_, end)) ==> pos < end <= s.len(),
{
    let end = skip(s, pos, Class::Digit);
    if end == pos {
        return None;
    }
    let ghost digits = s@.subrange(pos as int, end as int);
    assert forall|i: int| 0 <= i < digits.len() implies '0' as u8 <= #[trigger] digits[i] <= '9' as u8 by {
        lemma_run_is_of_class(s@, pos as int, Class::Digit, pos + i);
    }
    let mut value: u32 = 0;
    let mut at: usize = pos;
    while at < end
        invariant
            pos <= at <= end <= s.len(),
            end == run_end(s@, pos as int, Class::Digit),
            digits == s@.subrange(pos as int, end as int),
            forall|i: int| 0 <= i < digits.len() ==> '0' as u8 <= #[trigger] digits[i] <= '9' as u8,
            value == decimal(digits.take(at - pos)),
        decreases end - at,
    {
        let ghost seen = digits.take(at - pos + 1);
        proof {
            assert(digits[at - pos] == s@[at as int]);
            assert(seen.drop_last() =~= digits.take(at - pos));
            assert(seen.last() == s@[at as int]);
            lemma_decimal_grows(digits, at - pos + 1);
        }
        let next: u64 = value as u64 * 10 + (s[at] - '0' as u8) as u64;
        assert(next == decimal(seen));
        if next > u32::MAX as u64 {
            return None;
        }
        value = next as u32;
        at += 1;
    }
    assert(digits.take(at - pos) =~= digits);
    Some((value, end))
}

/// A signed number at `pos`.
fn parse_i32(s: &[u8], pos: usize) -> (res: Option<(i32, usize)>)
    requires
        pos <= s.len(),
    ensures
        found(res) == read_i32(s@, pos as int),
        res matches Some((_, end)) ==> pos < end <= s.len(),
{
    let digits = skip(s, pos, Class::Sign);
    let (u, end) = parse_u32(s, digits)?;
    let mut value: i32 = if u <= 0x7fff_ffff {
        u as i32
    } else {
        ((u - 0x8000_0000) as i64 - 0x8000_0000) as i32
    };
    let ghost signs = s@.subrange(pos as int, digits as int);
    let mut at: usize = pos;
    while at < digits
        invariant
            pos <= at <= digits <= s.len(),
            signs == s@.subrange(pos as int, digits as int),
            value == with_signs(signs.take(at - pos), reinterpret(u)),
        decreases digits - at,
    {
        proof {
            assert(signs[at - pos] == s@[at as int]);
            assert(signs.take(at - pos + 1).drop_last() =~= signs.take(at - pos));
        }
        if s[at] == '-' as u8 {
            value = if value == i32::MIN {
                value
            } else {
                -value
            };
        }
        at += 1;
    }
    assert(signs.take(at - pos) =~= signs);
    Some((value, end))
}

/// `String::push`: the string with the character `c` added at its end.
#[verifier::external_body]
fn push_char(text: &mut String, c: char)
    ensures
        final(text)@ == old(text)@.push(c),
{
    text.push(c)
}

/// The bytes of `s` from `from` to `to` as a string, one character for each
/// byte.
fn text_of(s: &[u8], from: usize, to: usize) -> (res: String)
    requires
        from <= to <= s.len(),
    ensures
        res@ == chars_of(s@.subrange(from as int, to as int)),
{
    let mut text = String::new();
    let mut at: usize = from;
    while at < to
        invariant
            from <= at <= to <= s.len(),
            text@ == chars_of(s@.subrange(from as int, at as int)),
        decreases to - at,
    {
        push_char(&mut text, s[at] as char);
        assert(chars_of(s@.subrange(from as int, at + 1)) =~= chars_of(
            s@.subrange(from as int, at as int),
        ).push(s@[at as int] as char));
        at += 1;
    }
    text
}

/// Whether the bytes of `s` from `from` to `to` are a keyword.
fn keyword_at(s: &[u8], from: usize, to: usize) -> (res: bool)
    requires
        from <= to <= s.len(),
    ensures
        res == is_keyword(s@.subrange(from as int, to as int)),
{
    same_bytes(s, from, to, "in") || same_bytes(s, from, to, "let") || same_bytes(
        s,
        from,
        to,
        "int",
    ) || same_bytes(s, from, to, "bool") || same_bytes(s, from, to, "and") || same_bytes(
        s,
        from,
        to,
        "true",
    ) || same_bytes(s, from, to, "false")
}

/// An identifier at `pos`.
fn parse_ident(s: &[u8], pos: usize) -> (res: Option<(String, usize)>)
    requires
        pos <= s.len(),
    ensures
        match res {
            Some((name, end)) => read_ident(s@, pos as int) == Some((name@, end as int)),
            None => read_ident(s@, pos as int) is None,
        },
        res matches Some((_, end)) ==> pos < end <= s.len(),
{
    if pos < s.len() && starts_ident(s[pos]) {
        let end = skip(s, pos + 1, Class::Ident);
        if keyword_at(s, pos, end) {
            None
        } else {
            Some((text_of(s, pos, end), end))
        }
    } else {
        None
    }
}

/// A type in parentheses at `pos`.
fn parse_type_paren(s: &[u8], pos: usize) -> (res: Option<(TypeAst, usize)>)
    requires
        pos <= s.len(),
    ensures
        found(res) == read_type_paren(s@, pos as int),
        res matches Some((_, end)) ==> pos < end <= s.len(),
    decreases s.len() - pos, 0nat,
{
    proof {
        lemma_words();
    }
    let open = eat(s, pos, "(")?;
    let at = skip(s, open, Class::Space);
    let (inner, after) = parse_type_expr(s, at)?;
    let close = skip(s, after, Class::Space);
    let end = eat(s, close, ")")?;
    Some((TypeAst::Paren(Box::new(inner), Range(pos, end)), end))
}

/// An atomic type at `pos`.
fn parse_type_atom(s: &[u8], pos: usize) -> (res: Option<(TypeAst, usize)>)
    requires
        pos <= s.len(),
    ensures
        found(res) == read_type_atom(s@, pos as int),
        res matches Some((_, end)) ==> pos < end <= s.len(),
    decreases s.len() - pos, 1nat,
{
    proof {
        lemma_words();
    }
    if let Some(paren) = parse_type_paren(s, pos) {
        return Some(paren);
    }
    if let Some(end) = eat(s, pos, "int") {
        return Some((TypeAst::Int(Range(pos, end)), end));
    }
    if let Some(end) = eat(s, pos, "bool") {
        return Some((TypeAst::Bool(Range(pos, end)), end));
    }
    None
}

/// The type that starts with `left`, which ends at `pos`.
fn parse_type_arrows(s: &[u8], left: TypeAst, pos: usize) -> (res: (TypeAst, usize))
    requires
        pos <= s.len(),
    ensures
        (res.0, res.1 as int) == type_arrows(s@, left, pos as int),
        pos <= res.1 <= s.len(),
    decreases s.len() - pos, 2nat,
{
    proof {
        lemma_words();
    }
    match eat_spaced(s, pos, "->") {
        Some(at) => match parse_type_expr(s, at) {
            Some((right, end)) => parse_type_arrows(
                s,
                TypeAst::Function(Box::new(left), Box::new(right)),
                end,
            ),
            None => (left, pos),
        },
        None => (left, pos),
    }
}

/// A type at `pos`.
fn parse_type_expr(s: &[u8], pos: usize) -> (res: Option<(TypeAst, usize)>)
    requires
        pos <= s.len(),
    ensures
        found(res) == read_type_expr(s@, pos as int),
        res matches Some((_, end)) ==> pos < end <= s.len(),
    decreases s.len() - pos, 3nat,
{
    let (first, after) = parse_type_atom(s, pos)?;
    Some(parse_type_arrows(s, first, after))
}

impl Infix {
    fn binds(self) -> (res: u8)
        ensures
            res == self.level(),
    {
        match self {
            Infix::Pipe | Infix::Call => 0,
            Infix::And => 1,
            Infix::Eq => 2,
            Infix::Add => 3,
        }
    }

    fn written(self) -> (res: &'static str)
        ensures
            res == self.word(),
    {
        match self {
            Infix::Pipe => ">",
            Infix::Call => "<",
            Infix::And => "and",
            Infix::Eq => "=",
            Infix::Add => "+",
        }
    }

    fn join(self, left: Ast, right: Ast) -> (res: Ast)
        ensures
            res@ == self.build(left@, right@),
    {
        match self {
            Infix::Pipe => Ast::RApp(Box::new(left), Box::new(right)),
            Infix::Call => Ast::LApp(Box::new(left), Box::new(right)),
            Infix::And => Ast::And(Box::new(left), Box::new(right)),
            Infix::Eq => Ast::Eq(Box::new(left), Box::new(right)),
            Infix::Add => Ast::Add(Box::new(left), Box::new(right)),
        }
    }
}

/// An integer literal at `pos`.
fn parse_int_literal(s: &[u8], pos: usize) -> (res: Option<(Ast, usize)>)
    requires
        pos <= s.len(),
    ensures
        expr_found(res) == read_int_literal(s@, pos as int),
        res matches Some((_, end)) ==> pos < end <= s.len(),
{
    let (i, end) = parse_i32(s, pos)?;
    Some((Ast::IntLiteral(i, Range(pos, end)), end))
}

/// A boolean literal at `pos`.
fn parse_bool_literal(s: &[u8], pos: usize) -> (res: Option<(Ast, usize)>)
    requires
        pos <= s.len(),
    ensures
        expr_found(res) == read_bool_literal(s@, pos as int),
        res matches Some((_, end)) ==> pos < end <= s.len(),
{
    proof {
        lemma_words();
    }
    if let Some(end) = eat(s, pos, "true") {
        return Some((Ast::BoolLiteral(true, Range(pos, end)), end));
    }
    if let Some(end) = eat(s, pos, "false") {
        return Some((Ast::BoolLiteral(false, Range(pos, end)), end));
    }
    None
}

/// A variable at `pos`.
fn parse_var(s: &[u8], pos: usize) -> (res: Option<(Ast, usize)>)
    requires
        pos <= s.len(),
    ensures
        expr_found(res) == read_var(s@, pos as int),
        res matches Some((_, end)) ==> pos < end <= s.len(),
{
    let (name, end) = parse_ident(s, pos)?;
    Some((Ast::Var(name, Range(pos, end)), end))
}

/// The start of a `let` at `pos`.
fn parse_let_head(s: &[u8], pos: usize) -> (res: Option<(String, usize)>)
    requires
        pos <= s.len(),
    ensures
        match res {
            Some((name, at)) => read_let_head(s@, pos as int) == Some((name@, at as int)),
            None => read_let_head(s@, pos as int) is None,
        },
        res matches Some((_, at)) ==> pos < at <= s.len(),
{
    proof {
        lemma_words();
    }
    let after = eat(s, pos, "let")?;
    let (name, end) = parse_ident(s, skip(s, after, Class::Space))?;
    let at = eat_spaced(s, end, "=")?;
    Some((name, at))
}

/// The start of a function at `pos`.
fn parse_function_head(s: &[u8], pos: usize) -> (res: Option<((String, Range), TypeAst, usize)>)
    requires
        pos <= s.len(),
    ensures
        match res {
            Some((input, input_type, at)) => read_function_head(s@, pos as int) == Some(
                ((input.0@, input.1), input_type, at as int),
            ),
            None => read_function_head(s@, pos as int) is None,
        },
        res matches Some((_, _, at)) ==> pos < at <= s.len(),
{
    proof {
        lemma_words();
    }
    let (name, end) = parse_ident(s, pos)?;
    let at = eat_spaced(s, end, ":")?;
    let (input_type, after) = parse_type_atom(s, at)?;
    let body = eat_spaced(s, after, "->")?;
    Some(((name, Range(pos, end)), input_type, body))
}

/// An expression in parentheses at `pos`.
fn parse_paren(s: &[u8], pos: usize) -> (res: Option<(Ast, usize)>)
    requires
        pos <= s.len(),
    ensures
        expr_found(res) == read_paren(s@, pos as int),
        res matches Some((_, end)) ==> pos < end <= s.len(),
    decreases s.len() - pos, 0nat,
{
    proof {
        lemma_words();
    }
    let open = eat(s, pos, "(")?;
    let at = skip(s, open, Class::Space);
    let (inner, after) = parse_expr(s, at)?;
    let close = skip(s, after, Class::Space);
    let end = eat(s, close, ")")?;
    Some((Ast::Paren(Box::new(inner), Range(pos, end)), end))
}

/// An atom at `pos`.
fn parse_atom(s: &[u8], pos: usize) -> (res: Option<(Ast, usize)>)
    requires
        pos <= s.len(),
    ensures
        expr_found(res) == read_atom(s@, pos as int),
        res matches Some((_, end)) ==> pos < end <= s.len(),
    decreases s.len() - pos, 1nat,
{
    if let Some(literal) = parse_int_literal(s, pos) {
        return Some(literal);
    }
    if let Some(literal) = parse_bool_literal(s, pos) {
        return Some(literal);
    }
    if let Some(paren) = parse_paren(s, pos) {
        return Some(paren);
    }
    parse_var(s, pos)
}

/// `left`, which ends at `pos`, joined by `op` to the operand after it; or
/// `left` as it was.
fn parse_with(s: &[u8], left: Ast, pos: usize, min: u8, op: Infix) -> (res: (Ast, Option<usize>))
    requires
        pos <= s.len(),
        min <= 4,
    ensures
        match res.1 {
            Some(end) => arith_with(s@, left@, pos as int, min as nat, op) == Some(
                (res.0@, end as int),
            ) && pos < end <= s.len(),
            None => arith_with(s@, left@, pos as int, min as nat, op) is None && res.0@ == left@,
        },
    decreases s.len() - pos, 1nat,
{
    proof {
        lemma_words();
    }
    if op.binds() < min {
        return (left, None);
    }
    match eat_spaced(s, pos, op.written()) {
        Some(at) => match parse_arith(s, at, op.binds() + 1) {
            Some((right, end)) => (op.join(left, right), Some(end)),
            None => (left, None),
        },
        None => (left, None),
    }
}

/// `left`, which ends at `pos`, joined to the operand after it by the first
/// operator that can; or `left` as it was.
fn parse_step(s: &[u8], left: Ast, pos: usize, min: u8) -> (res: (Ast, Option<usize>))
    requires
        pos <= s.len(),
        min <= 4,
    ensures
        match res.1 {
            Some(end) => arith_step(s@, left@, pos as int, min as nat) == Some(
                (res.0@, end as int),
            ) && pos < end <= s.len(),
            None => arith_step(s@, left@, pos as int, min as nat) is None && res.0@ == left@,
        },
    decreases s.len() - pos, 2nat,
{
    let (left, end) = parse_with(s, left, pos, min, Infix::Pipe);
    if end.is_some() {
        return (left, end);
    }
    let (left, end) = parse_with(s, left, pos, min, Infix::Call);
    if end.is_some() {
        return (left, end);
    }
    let (left, end) = parse_with(s, left, pos, min, Infix::And);
    if end.is_some() {
        return (left, end);
    }
    let (left, end) = parse_with(s, left, pos, min, Infix::Eq);
    if end.is_some() {
        return (left, end);
    }
    parse_with(s, left, pos, min, Infix::Add)
}

/// An operation at `pos` of operators that bind at least as tightly as
/// `min`.
fn parse_arith(s: &[u8], pos: usize, min: u8) -> (res: Option<(Ast, usize)>)
    requires
        pos <= s.len(),
        min <= 4,
    ensures
        expr_found(res) == read_arith(s@, pos as int, min as nat),
        res matches Some((_, end)) ==> pos < end <= s.len(),
    decreases s.len() - pos, 4nat,
{
    let (first, after) = parse_atom(s, pos)?;
    let ghost goal = arith_more(s@, first@, after as int, min as nat);
    let mut left = first;
    let mut at = after;
    loop
        invariant
            pos < at <= s.len(),
            min <= 4,
            arith_more(s@, left@, at as int, min as nat) == goal,
        ensures
            pos < at <= s.len(),
            (left@, at as int) == goal,
        decreases s.len() - at,
    {
        let (joined, end) = parse_step(s, left, at, min);
        left = joined;
        match end {
            Some(end) => {
                at = end;
            },
            None => {
                break ;
            },
        }
    }
    Some((left, at))
}

/// A `let` at `pos`.
fn parse_let(s: &[u8], pos: usize) -> (res: Option<(Ast, usize)>)
    requires
        pos <= s.len(),
    ensures
        expr_found(res) == read_let(s@, pos as int),
        res matches Some((_, end)) ==> pos < end <= s.len(),
    decreases s.len() - pos, 5nat,
{
    proof {
        lemma_words();
    }
    let (name, at) = parse_let_head(s, pos)?;
    let (right, after) = parse_expr(s, at)?;
    let then = eat_spaced(s, after, "in")?;
    let (body, end) = parse_expr(s, then)?;
    Some(
        (
            Ast::Let { name, right: Box::new(right), body: Box::new(body), range: Range(pos, end) },
            end,
        ),
    )
}

/// A function at `pos`.
fn parse_function(s: &[u8], pos: usize) -> (res: Option<(Ast, usize)>)
    requires
        pos <= s.len(),
    ensures
        expr_found(res) == read_function(s@, pos as int),
        res matches Some((_, end)) ==> pos < end <= s.len(),
    decreases s.len() - pos, 5nat,
{
    let (input, input_type, at) = parse_function_head(s, pos)?;
    let (ret, end) = parse_expr(s, at)?;
    Some((Ast::Function { input, input_type, ret: Box::new(ret) }, end))
}

/// An expression at `pos`.
fn parse_expr(s: &[u8], pos: usize) -> (res: Option<(Ast, usize)>)
    requires
        pos <= s.len(),
    ensures
        expr_found(res) == read_expr(s@, pos as int),
        res matches Some((_, end)) ==> pos < end <= s.len(),
    decreases s.len() - pos, 6nat,
{
    if let Some(bind) = parse_let(s, pos) {
        return Some(bind);
    }
    if let Some(func) = parse_function(s, pos) {
        return Some(func);
    }
    parse_arith(s, pos, 0)
}

/// A program.
fn parse_program(s: &[u8]) -> (res: Option<(Ast, usize)>)
    ensures
        expr_found(res) == read_program(s@),
        res matches Some((_, end)) ==> end <= s.len(),
{
    let (e, end) = parse_expr(s, skip(s, 0, Class::Space))?;
    Some((e, skip(s, end, Class::Space)))
}

/// What was found, if it was found up to the end of the text.
fn whole_expr(s: &[u8], res: Option<(Ast, usize)>) -> (out: Result<Ast, ParseError>)
    requires
        res matches Some((_, end)) ==> end <= s.len(),
    ensures
        parsed_expr(out) == whole(s@, expr_found(res)),
{
    match res {
        Some((ast, end)) => if end >= s.len() {
            Ok(ast)
        } else {
            Err(ParseError())
        },
        None => Err(ParseError()),
    }
}

/// What was found, if it was found up to the end of the text.
fn whole_type(s: &[u8], res: Option<(TypeAst, usize)>) -> (out: Result<TypeAst, ParseError>)
    requires
        res matches Some((_, end)) ==> end <= s.len(),
    ensures
        parsed_type(out) == whole(s@, found(res)),
{
    match res {
        Some((t, end)) => if end >= s.len() {
            Ok(t)
        } else {
            Err(ParseError())
        },
        None => Err(ParseError()),
    }
}

/// Reads `input` as an atomic type.
pub fn type_atom(input: &str) -> (res: Result<TypeAst, ParseError>)
    ensures
        parsed_type(res) == whole(input.spec_bytes(), read_type_atom(input.spec_bytes(), 0)),
{
    let s = input.as_bytes();
    whole_type(s, parse_type_atom(s, 0))
}

/// Reads `input` as a type.
pub fn type_expr(input: &str) -> (res: Result<TypeAst, ParseError>)
    ensures
        parsed_type(res) == whole(input.spec_bytes(), read_type_expr(input.spec_bytes(), 0)),
{
    let s = input.as_bytes();
    whole_type(s, parse_type_expr(s, 0))
}

/// Reads `input` as an integer literal.
pub fn int_literal(input: &str) -> (res: Result<Ast, ParseError>)
    ensures
        parsed_expr(res) == whole(input.spec_bytes(), read_int_literal(input.spec_bytes(), 0)),
{
    let s = input.as_bytes();
    whole_expr(s, parse_int_literal(s, 0))
}

/// Reads `input` as a boolean literal.
pub fn bool_literal(input: &str) -> (res: Result<Ast, ParseError>)
    ensures
        parsed_expr(res) == whole(input.spec_bytes(), read_bool_literal(input.spec_bytes(), 0)),
{
    let s = input.as_bytes();
    whole_expr(s, parse_bool_literal(s, 0))
}

/// Reads `input` as an atom.
pub fn atom(input: &str) -> (res: Result<Ast, ParseError>)
    ensures
        parsed_expr(res) == whole(input.spec_bytes(), read_atom(input.spec_bytes(), 0)),
{
    let s = input.as_bytes();
    whole_expr(s, parse_atom(s, 0))
}

/// Reads `input` as an operation.
pub fn arith(input: &str) -> (res: Result<Ast, ParseError>)
    ensures
        parsed_expr(res) == whole(input.spec_bytes(), read_arith(input.spec_bytes(), 0, 0)),
{
    let s = input.as_bytes();
    whole_expr(s, parse_arith(s, 0, 0))
}

/// Reads `input` as a `let`.
pub fn let_declaration(input: &str) -> (res: Result<Ast, ParseError>)
    ensures
        parsed_expr(res) == whole(input.spec_bytes(), read_let(input.spec_bytes(), 0)),
{
    let s = input.as_bytes();
    whole_expr(s, parse_let(s, 0))
}

/// Reads `input` as a function.
pub fn function(input: &str) -> (res: Result<Ast, ParseError>)
    ensures
        parsed_expr(res) == whole(input.spec_bytes(), read_function(input.spec_bytes(), 0)),
{
    let s = input.as_bytes();
    whole_expr(s, parse_function(s, 0))
}

/// Reads `input` as an expression.
pub fn expr(input: &str) -> (res: Result<Ast, ParseError>)
    ensures
        parsed_expr(res) == whole(input.spec_bytes(), read_expr(input.spec_bytes(), 0)),
{
    let s = input.as_bytes();
    whole_expr(s, parse_expr(s, 0))
}

/// Reads `input` as a program: an expression with white space around it.
pub fn program(input: &str) -> (res: Result<Ast, ParseError>)
    ensures
        parsed_expr(res) == whole(input.spec_bytes(), read_program(input.spec_bytes())),
{
    let s = input.as_bytes();
    whole_expr(s, parse_program(s))
}

} // verus!
