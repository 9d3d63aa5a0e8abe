//! The concrete syntax of the language, as functions from the bytes of the
//! source text and a position to what is read there.
//!
//! Each function reads one form of the grammar at a position and gives what
//! it read with the position after it, or `None`. Alternatives are tried in
//! order and the first that matches is taken; repetitions take as much as
//! they can; nothing is ever read twice in another way. Positions count
//! bytes.

use crate::ast::{Expr, Range, TypeAst};
use vstd::prelude::*;
use vstd::string::is_ascii_spec_bytes;
use vstd::string::StringSliceAdditionalSpecFns;

verus! {

/// The classes of bytes of which the grammar reads runs.
#[derive(Clone, Copy)]
pub enum Class {
    /// Space, tab, line feed, carriage return.
    Space,
    /// `0` to `9`.
    Digit,
    /// `-` and `+`.
    Sign,
    /// What may follow the first character of an identifier: a letter,
    /// `_`, `?`, `!`, or a digit.
    Ident,
}

/// The binary operators, in the order in which the grammar tries them.
#[derive(Clone, Copy)]
pub enum Infix {
    /// `arg > func`
    Pipe,
    /// `func < arg`
    Call,
    /// `l and r`
    And,
    /// `l = r`
    Eq,
    /// `l + r`
    Add,
}

pub open spec fn is_digit(b: u8) -> bool {
    '0' as u8 <= b <= '9' as u8
}

/// Whether an identifier may start with `b`.
pub open spec fn is_ident_start(b: u8) -> bool {
    ||| 'a' as u8 <= b <= 'z' as u8
    ||| 'A' as u8 <= b <= 'Z' as u8
    ||| b == '_' as u8
    ||| b == '?' as u8
    ||| b == '!' as u8
}

pub open spec fn in_class(class: Class, b: u8) -> bool {
    match class {
        Class::Space => b == ' ' as u8 || b == '\t' as u8 || b == '\n' as u8 || b == '\r' as u8,
        Class::Digit => is_digit(b),
        Class::Sign => b == '-' as u8 || b == '+' as u8,
        Class::Ident => is_ident_start(b) || is_digit(b),
    }
}

/// The end of the longest run of bytes of `class` that starts at `pos`.
pub open spec fn run_end(s: Seq<u8>, pos: int, class: Class) -> int
    decreases s.len() - pos,
{
    if 0 <= pos < s.len() && in_class(class, s[pos]) {
        run_end(s, pos + 1, class)
    } else {
        pos
    }
}

/// The position after the white space at `pos`, if there is any.
pub open spec fn spaces(s: Seq<u8>, pos: int) -> int {
    run_end(s, pos, Class::Space)
}

/// The position after `word`, where `s` holds `word` at `pos`.
pub open spec fn token(s: Seq<u8>, pos: int, word: &str) -> Option<int> {
    let w = word.spec_bytes();
    if 0 <= pos && pos + w.len() <= s.len() && s.subrange(pos, pos + w.len()) == w {
        Some(pos + w.len())
    } else {
        None
    }
}

/// The position after `word` and the white space on both sides of it.
pub open spec fn spaced_token(s: Seq<u8>, pos: int, word: &str) -> Option<int> {
    match token(s, spaces(s, pos), word) {
        Some(end) => Some(spaces(s, end)),
        None => None,
    }
}

/// Whether `next` is a position of `s` after `pos`. Every part of a form is
/// read after the parts before it, so the grammar reads on only where this
/// holds. It always holds: each form ends after its start, as the lemmas at
/// the end of this file show.
pub open spec fn follows(s: Seq<u8>, pos: int, next: int) -> bool {
    pos < next <= s.len()
}

pub open spec fn span(from: int, to: int) -> Range {
    Range(from as usize, to as usize)
}

/// The number that a sequence of digits denotes in base ten.
pub open spec fn decimal(digits: Seq<u8>) -> nat
    decreases digits.len(),
{
    if digits.len() == 0 {
        0
    } else {
        (decimal(digits.drop_last()) * 10 + (digits.last() - '0' as u8)) as nat
    }
}

/// An unsigned number: one or more digits that denote a number that fits
/// in 32 bits.
pub open spec fn read_u32(s: Seq<u8>, pos: int) -> Option<(u32, int)> {
    let end = run_end(s, pos, Class::Digit);
    if pos < end && decimal(s.subrange(pos, end)) <= u32::MAX {
        Some((decimal(s.subrange(pos, end)) as u32, end))
    } else {
        None
    }
}

/// The `i32` with the same 32 bits as `u`.
pub open spec fn reinterpret(u: u32) -> i32 {
    if u <= i32::MAX {
        u as i32
    } else {
        (u - 0x1_0000_0000) as i32
    }
}

/// The negative of `x` in two's complement: the least `i32` is its own.
pub open spec fn negate(x: i32) -> i32 {
    if x == i32::MIN {
        x
    } else {
        (-x) as i32
    }
}

/// `x`, negated once for each `-` among `signs`.
pub open spec fn with_signs(signs: Seq<u8>, x: i32) -> i32
    decreases signs.len(),
{
    if signs.len() == 0 {
        x
    } else if signs.last() == '-' as u8 {
        negate(with_signs(signs.drop_last(), x))
    } else {
        with_signs(signs.drop_last(), x)
    }
}

/// A signed number: any signs, then an unsigned number.
pub open spec fn read_i32(s: Seq<u8>, pos: int) -> Option<(i32, int)> {
    let digits = run_end(s, pos, Class::Sign);
    match read_u32(s, digits) {
        Some((u, end)) => Some((with_signs(s.subrange(pos, digits), reinterpret(u)), end)),
        None => None,
    }
}

/// The characters that a sequence of bytes stands for, one for one.
pub open spec fn chars_of(bytes: Seq<u8>) -> Seq<char> {
    bytes.map_values(|b: u8| b as char)
}

/// Whether `word` is reserved and so no identifier.
pub open spec fn is_keyword(word: Seq<u8>) -> bool {
    ||| word == "in".spec_bytes()
    ||| word == "let".spec_bytes()
    ||| word == "int".spec_bytes()
    ||| word == "bool".spec_bytes()
    ||| word == "and".spec_bytes()
    ||| word == "true".spec_bytes()
    ||| word == "false".spec_bytes()
}

/// An identifier: a start character and all that may follow it, unless
/// that is a keyword.
pub open spec fn read_ident(s: Seq<u8>, pos: int) -> Option<(Seq<char>, int)> {
    if 0 <= pos < s.len() && is_ident_start(s[pos]) {
        let end = run_end(s, pos + 1, Class::Ident);
        if is_keyword(s.subrange(pos, end)) {
            None
        } else {
            Some((chars_of(s.subrange(pos, end)), end))
        }
    } else {
        None
    }
}

/// `(`, a type, `)`, with white space inside the parentheses.
pub open spec fn read_type_paren(s: Seq<u8>, pos: int) -> Option<(TypeAst, int)>
    decreases s.len() - pos, 0nat,
{
    match token(s, pos, "(") {
        Some(open) if follows(s, pos, spaces(s, open)) => match read_type_expr(
            s,
            spaces(s, open),
        ) {
            Some((inner, after)) => match token(s, spaces(s, after), ")") {
                Some(end) => Some((TypeAst::Paren(Box::new(inner), span(pos, end)), end)),
                None => None,
            },
            None => None,
        },
        _ => None,
    }
}

/// An atomic type: a type in parentheses, `int`, or `bool`.
pub open spec fn read_type_atom(s: Seq<u8>, pos: int) -> Option<(TypeAst, int)>
    decreases s.len() - pos, 1nat,
{
    match read_type_paren(s, pos) {
        Some(found) => Some(found),
        None => match token(s, pos, "int") {
            Some(end) => Some((TypeAst::Int(span(pos, end)), end)),
            None => match token(s, pos, "bool") {
                Some(end) => Some((TypeAst::Bool(span(pos, end)), end)),
                None => None,
            },
        },
    }
}

/// A type: atomic types joined by `->`, which groups to the right.
pub open spec fn read_type_expr(s: Seq<u8>, pos: int) -> Option<(TypeAst, int)>
    decreases s.len() - pos, 3nat,
{
    match read_type_atom(s, pos) {
        Some((first, after)) if follows(s, pos, after) => Some(type_arrows(s, first, after)),
        _ => None,
    }
}

/// The type that starts with `left`, which ends at `pos`: `left` itself, or
/// a function type from `left` where `->` and a type follow.
pub open spec fn type_arrows(s: Seq<u8>, left: TypeAst, pos: int) -> (TypeAst, int)
    decreases s.len() - pos, 2nat,
{
    match spaced_token(s, pos, "->") {
        Some(at) if follows(s, pos, at) => match read_type_expr(s, at) {
            Some((right, end)) if follows(s, pos, end) => type_arrows(
                s,
                TypeAst::Function(Box::new(left), Box::new(right)),
                end,
            ),
            _ => (left, pos),
        },
        _ => (left, pos),
    }
}

impl Infix {
    /// How tightly the operator binds; a higher level binds tighter.
    pub open spec fn level(self) -> nat {
        match self {
            Infix::Pipe | Infix::Call => 0,
            Infix::And => 1,
            Infix::Eq => 2,
            Infix::Add => 3,
        }
    }

    /// How the operator is written.
    pub open spec fn word(self) -> &'static str {
        match self {
            Infix::Pipe => ">",
            Infix::Call => "<",
            Infix::And => "and",
            Infix::Eq => "=",
            Infix::Add => "+",
        }
    }

    /// The expression that the operator makes of its operands.
    pub open spec fn build(self, left: Expr, right: Expr) -> Expr {
        match self {
            Infix::Pipe => Expr::RApp(Box::new(left), Box::new(right)),
            Infix::Call => Expr::LApp(Box::new(left), Box::new(right)),
            Infix::And => Expr::And(Box::new(left), Box::new(right)),
            Infix::Eq => Expr::Eq(Box::new(left), Box::new(right)),
            Infix::Add => Expr::Add(Box::new(left), Box::new(right)),
        }
    }
}

/// An integer literal.
pub open spec fn read_int_literal(s: Seq<u8>, pos: int) -> Option<(Expr, int)> {
    match read_i32(s, pos) {
        Some((i, end)) => Some((Expr::IntLiteral(i, span(pos, end)), end)),
        None => None,
    }
}

/// `true` or `false`.
pub open spec fn read_bool_literal(s: Seq<u8>, pos: int) -> Option<(Expr, int)> {
    match token(s, pos, "true") {
        Some(end) => Some((Expr::BoolLiteral(true, span(pos, end)), end)),
        None => match token(s, pos, "false") {
            Some(end) => Some((Expr::BoolLiteral(false, span(pos, end)), end)),
            None => None,
        },
    }
}

/// A variable: an identifier.
pub open spec fn read_var(s: Seq<u8>, pos: int) -> Option<(Expr, int)> {
    match read_ident(s, pos) {
        Some((name, end)) => Some((Expr::Var(name, span(pos, end)), end)),
        None => None,
    }
}

/// The start of a `let`: `let`, the name, `=`, and the white space between
/// and after them. Gives the name and where the bound expression starts.
pub open spec fn read_let_head(s: Seq<u8>, pos: int) -> Option<(Seq<char>, int)> {
    match token(s, pos, "let") {
        Some(after) => match read_ident(s, spaces(s, after)) {
            Some((name, end)) => match spaced_token(s, end, "=") {
                Some(at) => Some((name, at)),
                None => None,
            },
            None => None,
        },
        None => None,
    }
}

/// The start of a function: the parameter, `:`, its atomic type, `->`, and
/// the white space between and after them. Gives the parameter with its
/// span, the type, and where the body starts.
pub open spec fn read_function_head(s: Seq<u8>, pos: int) -> Option<
    ((Seq<char>, Range), TypeAst, int),
> {
    match read_ident(s, pos) {
        Some((name, end)) => match spaced_token(s, end, ":") {
            Some(at) => match read_type_atom(s, at) {
                Some((input_type, after)) => match spaced_token(s, after, "->") {
                    Some(body) => Some(((name, span(pos, end)), input_type, body)),
                    None => None,
                },
                None => None,
            },
            None => None,
        },
        None => None,
    }
}

/// `(`, an expression, `)`, with white space inside the parentheses.
pub open spec fn read_paren(s: Seq<u8>, pos: int) -> Option<(Expr, int)>
    decreases s.len() - pos, 0nat,
{
    match token(s, pos, "(") {
        Some(open) if follows(s, pos, spaces(s, open)) => match read_expr(s, spaces(s, open)) {
            Some((inner, after)) => match token(s, spaces(s, after), ")") {
                Some(end) => Some((Expr::Paren(Box::new(inner), span(pos, end)), end)),
                None => None,
            },
            None => None,
        },
        _ => None,
    }
}

/// An atom: an integer literal, a boolean literal, an expression in
/// parentheses, or a variable.
pub open spec fn read_atom(s: Seq<u8>, pos: int) -> Option<(Expr, int)>
    decreases s.len() - pos, 1nat,
{
    match read_int_literal(s, pos) {
        Some(found) => Some(found),
        None => match read_bool_literal(s, pos) {
            Some(found) => Some(found),
            None => match read_paren(s, pos) {
                Some(found) => Some(found),
                None => read_var(s, pos),
            },
        },
    }
}

/// `left`, which ends at `pos`, joined by `op` to the operand that follows:
/// an operation of operators that bind tighter than `op`. `None` where `op`
/// binds less tightly than `min`, or is not written at `pos`, or has no
/// operand after it.
pub open spec fn arith_with(s: Seq<u8>, left: Expr, pos: int, min: nat, op: Infix) -> Option<
    (Expr, int),
>
    decreases s.len() - pos, 1nat,
{
    if op.level() >= min {
        match spaced_token(s, pos, op.word()) {
            Some(at) if follows(s, pos, at) => match read_arith(s, at, op.level() + 1) {
                Some((right, end)) => Some((op.build(left, right), end)),
                None => None,
            },
            _ => None,
        }
    } else {
        None
    }
}

/// `left`, which ends at `pos`, joined to a following operand by the first
/// operator that can join them.
pub open spec fn arith_step(s: Seq<u8>, left: Expr, pos: int, min: nat) -> Option<(Expr, int)>
    decreases s.len() - pos, 2nat,
{
    match arith_with(s, left, pos, min, Infix::Pipe) {
        Some(found) => Some(found),
        None => match arith_with(s, left, pos, min, Infix::Call) {
            Some(found) => Some(found),
            None => match arith_with(s, left, pos, min, Infix::And) {
                Some(found) => Some(found),
                None => match arith_with(s, left, pos, min, Infix::Eq) {
                    Some(found) => Some(found),
                    None => arith_with(s, left, pos, min, Infix::Add),
                },
            },
        },
    }
}

/// The operation that starts with `left`, which ends at `pos`: `left`
/// joined to following operands for as long as an operator that binds at
/// least as tightly as `min` joins them. Operators of one level group to
/// the left.
pub open spec fn arith_more(s: Seq<u8>, left: Expr, pos: int, min: nat) -> (Expr, int)
    decreases s.len() - pos, 3nat,
{
    match arith_step(s, left, pos, min) {
        Some((joined, end)) if follows(s, pos, end) => arith_more(s, joined, end, min),
        _ => (left, pos),
    }
}

/// An operation of operators that bind at least as tightly as `min`: an
/// atom, and all that such operators join to it.
pub open spec fn read_arith(s: Seq<u8>, pos: int, min: nat) -> Option<(Expr, int)>
    decreases s.len() - pos, 4nat,
{
    match read_atom(s, pos) {
        Some((first, after)) if follows(s, pos, after) => Some(arith_more(s, first, after, min)),
        _ => None,
    }
}

/// `let name = right in body`.
pub open spec fn read_let(s: Seq<u8>, pos: int) -> Option<(Expr, int)>
    decreases s.len() - pos, 5nat,
{
    match read_let_head(s, pos) {
        Some((name, at)) if follows(s, pos, at) => match read_expr(s, at) {
            Some((right, after)) => match spaced_token(s, after, "in") {
                Some(then) if follows(s, pos, then) => match read_expr(s, then) {
                    Some((body, end)) => Some(
                        (
                            Expr::Let {
                                name,
                                right: Box::new(right),
                                body: Box::new(body),
                                range: span(pos, end),
                            },
                            end,
                        ),
                    ),
                    None => None,
                },
                _ => None,
            },
            None => None,
        },
        _ => None,
    }
}

/// `input: type -> ret`.
pub open spec fn read_function(s: Seq<u8>, pos: int) -> Option<(Expr, int)>
    decreases s.len() - pos, 5nat,
{
    match read_function_head(s, pos) {
        Some((input, input_type, at)) if follows(s, pos, at) => match read_expr(s, at) {
            Some((ret, end)) => Some(
                (Expr::Function { input, input_type, ret: Box::new(ret) }, end),
            ),
            None => None,
        },
        _ => None,
    }
}

/// An expression: a `let`, a function, or an operation.
pub open spec fn read_expr(s: Seq<u8>, pos: int) -> Option<(Expr, int)>
    decreases s.len() - pos, 6nat,
{
    match read_let(s, pos) {
        Some(found) => Some(found),
        None => match read_function(s, pos) {
            Some(found) => Some(found),
            None => read_arith(s, pos, 0),
        },
    }
}

/// A program: an expression with white space around it.
pub open spec fn read_program(s: Seq<u8>) -> Option<(Expr, int)> {
    match read_expr(s, spaces(s, 0)) {
        Some((e, end)) => Some((e, spaces(s, end))),
        None => None,
    }
}

/// What was read, where it was read up to the end of the text.
pub open spec fn whole<T>(s: Seq<u8>, found: Option<(T, int)>) -> Option<T> {
    match found {
        Some((value, end)) if end >= s.len() => Some(value),
        _ => None,
    }
}

/// The bytes of the words of the grammar.
pub proof fn lemma_words()
    ensures
        "(".spec_bytes() == seq!['(' as u8],
        ")".spec_bytes() == seq![')' as u8],
        ":".spec_bytes() == seq![':' as u8],
        ">".spec_bytes() == seq!['>' as u8],
        "<".spec_bytes() == seq!['<' as u8],
        "=".spec_bytes() == seq!['=' as u8],
        "+".spec_bytes() == seq!['+' as u8],
        "->".spec_bytes() == seq!['-' as u8, '>' as u8],
        "in".spec_bytes() == seq!['i' as u8, 'n' as u8],
        "int".spec_bytes() == seq!['i' as u8, 'n' as u8, 't' as u8],
        "let".spec_bytes() == seq!['l' as u8, 'e' as u8, 't' as u8],
        "and".spec_bytes() == seq!['a' as u8, 'n' as u8, 'd' as u8],
        "bool".spec_bytes() == seq!['b' as u8, 'o' as u8, 'o' as u8, 'l' as u8],
        "true".spec_bytes() == seq!['t' as u8, 'r' as u8, 'u' as u8, 'e' as u8],
        "false".spec_bytes() == seq!['f' as u8, 'a' as u8, 'l' as u8, 's' as u8, 'e' as u8],
{
    reveal_strlit("(");
    reveal_strlit(")");
    reveal_strlit(":");
    reveal_strlit(">");
    reveal_strlit("<");
    reveal_strlit("=");
    reveal_strlit("+");
    reveal_strlit("->");
    reveal_strlit("in");
    reveal_strlit("int");
    reveal_strlit("let");
    reveal_strlit("and");
    reveal_strlit("bool");
    reveal_strlit("true");
    reveal_strlit("false");
    is_ascii_spec_bytes("(");
    is_ascii_spec_bytes(")");
    is_ascii_spec_bytes(":");
    is_ascii_spec_bytes(">");
    is_ascii_spec_bytes("<");
    is_ascii_spec_bytes("=");
    is_ascii_spec_bytes("+");
    is_ascii_spec_bytes("->");
    is_ascii_spec_bytes("in");
    is_ascii_spec_bytes("int");
    is_ascii_spec_bytes("let");
    is_ascii_spec_bytes("and");
    is_ascii_spec_bytes("bool");
    is_ascii_spec_bytes("true");
    is_ascii_spec_bytes("false");
    assert("(".spec_bytes() =~= seq!['(' as u8]);
    assert(")".spec_bytes() =~= seq![')' as u8]);
    assert(":".spec_bytes() =~= seq![':' as u8]);
    assert(">".spec_bytes() =~= seq!['>' as u8]);
    assert("<".spec_bytes() =~= seq!['<' as u8]);
    assert("=".spec_bytes() =~= seq!['=' as u8]);
    assert("+".spec_bytes() =~= seq!['+' as u8]);
    assert("->".spec_bytes() =~= seq!['-' as u8, '>' as u8]);
    assert("in".spec_bytes() =~= seq!['i' as u8, 'n' as u8]);
    assert("int".spec_bytes() =~= seq!['i' as u8, 'n' as u8, 't' as u8]);
    assert("let".spec_bytes() =~= seq!['l' as u8, 'e' as u8, 't' as u8]);
    assert("and".spec_bytes() =~= seq!['a' as u8, 'n' as u8, 'd' as u8]);
    assert("bool".spec_bytes() =~= seq!['b' as u8, 'o' as u8, 'o' as u8, 'l' as u8]);
    assert("true".spec_bytes() =~= seq!['t' as u8, 'r' as u8, 'u' as u8, 'e' as u8]);
    assert("false".spec_bytes() =~= seq!['f' as u8, 'a' as u8, 'l' as u8, 's' as u8, 'e' as u8]);
}

/// A run of bytes of a class ends at or after its start, within the text.
pub proof fn lemma_run_end_bounds(s: Seq<u8>, pos: int, class: Class)
    requires
        0 <= pos <= s.len(),
    ensures
        pos <= run_end(s, pos, class) <= s.len(),
    decreases s.len() - pos,
{
    if pos < s.len() && in_class(class, s[pos]) {
        lemma_run_end_bounds(s, pos + 1, class);
    }
}

/// Every byte of a run of bytes of a class is of the class.
pub proof fn lemma_run_is_of_class(s: Seq<u8>, pos: int, class: Class, i: int)
    requires
        0 <= pos <= i < run_end(s, pos, class),
    ensures
        i < s.len(),
        in_class(class, s[i]),
    decreases s.len() - pos,
{
    if pos < s.len() && in_class(class, s[pos]) {
        if pos < i {
            lemma_run_is_of_class(s, pos + 1, class, i);
        }
    }
}

/// A word with white space around it ends after its start, within the
/// text.
pub proof fn lemma_spaced_token_advances(s: Seq<u8>, pos: int, word: &str)
    requires
        0 <= pos <= s.len(),
        word.spec_bytes().len() > 0,
    ensures
        spaced_token(s, pos, word) matches Some(end) ==> follows(s, pos, end),
{
    lemma_run_end_bounds(s, pos, Class::Space);
    if let Some(end) = token(s, spaces(s, pos), word) {
        lemma_run_end_bounds(s, end, Class::Space);
    }
}

/// An identifier ends after its start, within the text.
pub proof fn lemma_ident_advances(s: Seq<u8>, pos: int)
    requires
        0 <= pos <= s.len(),
    ensures
        read_ident(s, pos) matches Some((_, end)) ==> follows(s, pos, end),
{
    if pos < s.len() {
        lemma_run_end_bounds(s, pos + 1, Class::Ident);
    }
}

/// A number ends after its start, within the text.
pub proof fn lemma_number_advances(s: Seq<u8>, pos: int)
    requires
        0 <= pos <= s.len(),
    ensures
        read_i32(s, pos) matches Some((_, end)) ==> follows(s, pos, end),
{
    lemma_run_end_bounds(s, pos, Class::Sign);
    lemma_run_end_bounds(s, run_end(s, pos, Class::Sign), Class::Digit);
}

/// A type in parentheses ends after its start, within the text.
pub proof fn lemma_type_paren_advances(s: Seq<u8>, pos: int)
    requires
        0 <= pos <= s.len(),
    ensures
        read_type_paren(s, pos) matches Some((_, end)) ==> follows(s, pos, end),
    decreases s.len() - pos, 0nat,
{
    lemma_words();
    if let Some(open) = token(s, pos, "(") {
        let at = spaces(s, open);
        lemma_run_end_bounds(s, open, Class::Space);
        lemma_type_expr_advances(s, at);
        if let Some((_, after)) = read_type_expr(s, at) {
            lemma_run_end_bounds(s, after, Class::Space);
        }
    }
}

/// An atomic type ends after its start, within the text.
pub proof fn lemma_type_atom_advances(s: Seq<u8>, pos: int)
    requires
        0 <= pos <= s.len(),
    ensures
        read_type_atom(s, pos) matches Some((_, end)) ==> follows(s, pos, end),
    decreases s.len() - pos, 1nat,
{
    lemma_words();
    lemma_type_paren_advances(s, pos);
}

/// What follows a type ends at or after its start, within the text.
pub proof fn lemma_type_arrows_advances(s: Seq<u8>, left: TypeAst, pos: int)
    requires
        0 <= pos <= s.len(),
    ensures
        pos <= type_arrows(s, left, pos).1 <= s.len(),
    decreases s.len() - pos, 2nat,
{
    lemma_words();
    lemma_spaced_token_advances(s, pos, "->");
    if let Some(at) = spaced_token(s, pos, "->") {
        lemma_type_expr_advances(s, at);
        if let Some((right, end)) = read_type_expr(s, at) {
            lemma_type_arrows_advances(
                s,
                TypeAst::Function(Box::new(left), Box::new(right)),
                end,
            );
        }
    }
}

/// A type ends after its start, within the text. So a type is an atomic
/// type and what follows it.
pub proof fn lemma_type_expr_advances(s: Seq<u8>, pos: int)
    requires
        0 <= pos <= s.len(),
    ensures
        read_type_expr(s, pos) matches Some((_, end)) ==> follows(s, pos, end),
        read_type_expr(s, pos) == match read_type_atom(s, pos) {
            Some((first, after)) => Some(type_arrows(s, first, after)),
            None => None,
        },
    decreases s.len() - pos, 3nat,
{
    lemma_type_atom_advances(s, pos);
    if let Some((first, after)) = read_type_atom(s, pos) {
        lemma_type_arrows_advances(s, first, after);
    }
}

/// An integer literal, a boolean literal and a variable end after their
/// start, within the text.
pub proof fn lemma_leaf_advances(s: Seq<u8>, pos: int)
    requires
        0 <= pos <= s.len(),
    ensures
        read_int_literal(s, pos) matches Some((_, end)) ==> follows(s, pos, end),
        read_bool_literal(s, pos) matches Some((_, end)) ==> follows(s, pos, end),
        read_var(s, pos) matches Some((_, end)) ==> follows(s, pos, end),
{
    lemma_words();
    lemma_number_advances(s, pos);
    lemma_ident_advances(s, pos);
}

/// The start of a `let` ends after its start, within the text.
pub proof fn lemma_let_head_advances(s: Seq<u8>, pos: int)
    requires
        0 <= pos <= s.len(),
    ensures
        read_let_head(s, pos) matches Some((_, at)) ==> follows(s, pos, at),
{
    lemma_words();
    if let Some(after) = token(s, pos, "let") {
        lemma_run_end_bounds(s, after, Class::Space);
        lemma_ident_advances(s, spaces(s, after));
        if let Some((_, end)) = read_ident(s, spaces(s, after)) {
            lemma_spaced_token_advances(s, end, "=");
        }
    }
}

/// The start of a function ends after its start, within the text.
pub proof fn lemma_function_head_advances(s: Seq<u8>, pos: int)
    requires
        0 <= pos <= s.len(),
    ensures
        read_function_head(s, pos) matches Some((_, _, at)) ==> follows(s, pos, at),
{
    lemma_words();
    lemma_ident_advances(s, pos);
    if let Some((_, end)) = read_ident(s, pos) {
        lemma_spaced_token_advances(s, end, ":");
        if let Some(at) = spaced_token(s, end, ":") {
            lemma_type_atom_advances(s, at);
            if let Some((_, after)) = read_type_atom(s, at) {
                lemma_spaced_token_advances(s, after, "->");
            }
        }
    }
}

/// An expression in parentheses ends after its start, within the text.
pub proof fn lemma_paren_advances(s: Seq<u8>, pos: int)
    requires
        0 <= pos <= s.len(),
    ensures
        read_paren(s, pos) matches Some((_, end)) ==> follows(s, pos, end),
    decreases s.len() - pos, 0nat,
{
    lemma_words();
    if let Some(open) = token(s, pos, "(") {
        let at = spaces(s, open);
        lemma_run_end_bounds(s, open, Class::Space);
        lemma_expr_advances(s, at);
        if let Some((_, after)) = read_expr(s, at) {
            lemma_run_end_bounds(s, after, Class::Space);
        }
    }
}

/// An atom ends after its start, within the text.
pub proof fn lemma_atom_advances(s: Seq<u8>, pos: int)
    requires
        0 <= pos <= s.len(),
    ensures
        read_atom(s, pos) matches Some((_, end)) ==> follows(s, pos, end),
    decreases s.len() - pos, 1nat,
{
    lemma_leaf_advances(s, pos);
    lemma_paren_advances(s, pos);
}

/// An operator with its operand ends after its start, within the text.
pub proof fn lemma_arith_with_advances(s: Seq<u8>, left: Expr, pos: int, min: nat, op: Infix)
    requires
        0 <= pos <= s.len(),
    ensures
        arith_with(s, left, pos, min, op) matches Some((_, end)) ==> follows(s, pos, end),
    decreases s.len() - pos, 1nat,
{
    lemma_words();
    lemma_spaced_token_advances(s, pos, op.word());
    if let Some(at) = spaced_token(s, pos, op.word()) {
        lemma_arith_advances(s, at, op.level() + 1);
    }
}

/// One step of an operation ends after its start, within the text.
pub proof fn lemma_arith_step_advances(s: Seq<u8>, left: Expr, pos: int, min: nat)
    requires
        0 <= pos <= s.len(),
    ensures
        arith_step(s, left, pos, min) matches Some((_, end)) ==> follows(s, pos, end),
    decreases s.len() - pos, 2nat,
{
    lemma_arith_with_advances(s, left, pos, min, Infix::Pipe);
    lemma_arith_with_advances(s, left, pos, min, Infix::Call);
    lemma_arith_with_advances(s, left, pos, min, Infix::And);
    lemma_arith_with_advances(s, left, pos, min, Infix::Eq);
    lemma_arith_with_advances(s, left, pos, min, Infix::Add);
}

/// What follows the first operand of an operation ends at or after its
/// start, within the text. So it is the operand itself where no step can
/// be made, and else what follows the step.
pub proof fn lemma_arith_more_advances(s: Seq<u8>, left: Expr, pos: int, min: nat)
    requires
        0 <= pos <= s.len(),
    ensures
        pos <= arith_more(s, left, pos, min).1 <= s.len(),
        arith_more(s, left, pos, min) == match arith_step(s, left, pos, min) {
            Some((joined, end)) => arith_more(s, joined, end, min),
            None => (left, pos),
        },
    decreases s.len() - pos, 3nat,
{
    lemma_arith_step_advances(s, left, pos, min);
    if let Some((joined, end)) = arith_step(s, left, pos, min) {
        lemma_arith_more_advances(s, joined, end, min);
    }
}

/// An operation ends after its start, within the text. So an operation is
/// an atom and what follows it.
pub proof fn lemma_arith_advances(s: Seq<u8>, pos: int, min: nat)
    requires
        0 <= pos <= s.len(),
    ensures
        read_arith(s, pos, min) matches Some((_, end)) ==> follows(s, pos, end),
        read_arith(s, pos, min) == match read_atom(s, pos) {
            Some((first, after)) => Some(arith_more(s, first, after, min)),
            None => None,
        },
    decreases s.len() - pos, 4nat,
{
    lemma_atom_advances(s, pos);
    if let Some((first, after)) = read_atom(s, pos) {
        lemma_arith_more_advances(s, first, after, min);
    }
}

/// A `let` ends after its start, within the text.
pub proof fn lemma_let_advances(s: Seq<u8>, pos: int)
    requires
        0 <= pos <= s.len(),
    ensures
        read_let(s, pos) matches Some((_, end)) ==> follows(s, pos, end),
    decreases s.len() - pos, 5nat,
{
    lemma_words();
    lemma_let_head_advances(s, pos);
    if let Some((_, at)) = read_let_head(s, pos) {
        lemma_expr_advances(s, at);
        if let Some((_, after)) = read_expr(s, at) {
            lemma_spaced_token_advances(s, after, "in");
            if let Some(then) = spaced_token(s, after, "in") {
                lemma_expr_advances(s, then);
            }
        }
    }
}

/// A function ends after its start, within the text.
pub proof fn lemma_function_advances(s: Seq<u8>, pos: int)
    requires
        0 <= pos <= s.len(),
    ensures
        read_function(s, pos) matches Some((_, end)) ==> follows(s, pos, end),
    decreases s.len() - pos, 5nat,
{
    lemma_function_head_advances(s, pos);
    if let Some((_, _, at)) = read_function_head(s, pos) {
        lemma_expr_advances(s, at);
    }
}

/// An expression ends after its start, within the text.
pub proof fn lemma_expr_advances(s: Seq<u8>, pos: int)
    requires
        0 <= pos <= s.len(),
    ensures
        read_expr(s, pos) matches Some((_, end)) ==> follows(s, pos, end),
    decreases s.len() - pos, 6nat,
{
    lemma_let_advances(s, pos);
    lemma_function_advances(s, pos);
    lemma_arith_advances(s, pos, 0);
}

} // verus!
