//! The parser: turns source text into a syntax tree.
//!
//! The grammar is stated by `parse_text` and the functions under it, which
//! say for every text which tree it has, or where and why it has none.
//!
//! ```text
//! program    := statement*                 (separated by blanks and `;`)
//! statement  := "fn" name "(" names ")" block | expression
//! block      := "{" statement* "}" | statement
//! expression := operand (operator operand)*
//! operand    := "if" expression block ("else" block)?
//!             | "while" expression block
//!             | name "=" expression
//!             | ("-" | "+")* primary suffix*
//! suffix     := "(" list ")" | "." name | "!" | "[" expression "]"
//! primary    := digits | string | "(" expression ")" | "[" list "]" | name
//! ```

use vstd::prelude::*;
use crate::ast::{
    Call, Expr, ExprStmt, Expression, FunctionDeclare, GetInstance, GetVar, If, Index, Infix,
    Integer, Prefix, Program, SetVar, Span, Statement, Stmt, VectorDec, While, exprs_model,
    names_model, program_model,
};
use crate::lexer::{
    at_keyword, digit, digits_end, digits_value, is_digit, keyword_at, name_at, name_end,
    name_start, operator_at, scan_blanks, scan_digits, scan_name, scan_separators, skip_blanks,
    skip_separators, slice_text, string_body, unescape, lemma_digits_grow, lemma_digits_run,
    lemma_scan_bounds,
};
use vstd::string::StringExecFns;
use crate::text::{chars_of, decimal, push_decimal};

verus! {

/// Why a text has no tree.
#[derive(Debug, Clone, Copy, PartialEq, Eq, Structural)]
pub enum ParseErrorKind {
    /// An expression had to start here.
    ExpectedExpression,
    /// A name had to stand here.
    ExpectedIdentifier,
    /// A `(` had to stand here.
    ExpectedOpenParen,
    /// A `)` had to stand here.
    ExpectedCloseParen,
    /// A `]` had to stand here.
    ExpectedCloseBracket,
    /// A `}` had to stand here.
    ExpectedCloseBrace,
    /// The string literal that starts here is not closed.
    UnterminatedString,
    /// The number that starts here is larger than the largest integer.
    IntegerOverflow,
}

/// A parse error: what was wrong, and the offset in characters where.
#[derive(Debug, Clone, Copy, PartialEq, Eq, Structural)]
pub struct ParseError {
    pub kind: ParseErrorKind,
    pub pos: usize,
}

/// A parse error as a mathematical value.
pub struct Failure {
    pub kind: ParseErrorKind,
    pub at: int,
}

impl View for ParseError {
    type V = Failure;

    open spec fn view(&self) -> Failure {
        Failure { kind: self.kind, at: self.pos as int }
    }
}

/// What a parse error of kind `kind` says.
pub open spec fn kind_text(kind: ParseErrorKind) -> Seq<char> {
    match kind {
        ParseErrorKind::ExpectedExpression => "expected an expression"@,
        ParseErrorKind::ExpectedIdentifier => "expected a name"@,
        ParseErrorKind::ExpectedOpenParen => "expected '('"@,
        ParseErrorKind::ExpectedCloseParen => "expected ')'"@,
        ParseErrorKind::ExpectedCloseBracket => "expected ']'"@,
        ParseErrorKind::ExpectedCloseBrace => "expected '}'"@,
        ParseErrorKind::UnterminatedString => "unterminated string literal"@,
        ParseErrorKind::IntegerOverflow => "integer literal is too large"@,
    }
}

/// The message of a parse error: what was wrong, and the offset.
pub open spec fn failure_text(f: Failure) -> Seq<char> {
    kind_text(f.kind) + " at offset "@ + decimal(f.at as nat)
}

impl ParseError {
    /// The message of this error.
    pub fn to_string(&self) -> (r: std::string::String)
        ensures
            r@ == failure_text(self@),
    {
        let head = match self.kind {
            ParseErrorKind::ExpectedExpression => "expected an expression",
            ParseErrorKind::ExpectedIdentifier => "expected a name",
            ParseErrorKind::ExpectedOpenParen => "expected '('",
            ParseErrorKind::ExpectedCloseParen => "expected ')'",
            ParseErrorKind::ExpectedCloseBracket => "expected ']'",
            ParseErrorKind::ExpectedCloseBrace => "expected '}'",
            ParseErrorKind::UnterminatedString => "unterminated string literal",
            ParseErrorKind::IntegerOverflow => "integer literal is too large",
        };
        let mut r = std::string::String::from_str(head);
        r.append(" at offset ");
        push_decimal(&mut r, self.pos as u64);
        r
    }
}

/// The span from `a` up to `b`.
pub open spec fn span(a: int, b: int) -> Span {
    Span { start: a as usize, end: b as usize }
}

/// The error for a list that is not closed by `close`.
pub open spec fn unclosed(close: char) -> ParseErrorKind {
    if close == ')' {
        ParseErrorKind::ExpectedCloseParen
    } else {
        ParseErrorKind::ExpectedCloseBracket
    }
}

/// Whether the name at `pos` is followed by a `=` that is no `==`.
pub open spec fn assign_at(s: Seq<char>, pos: int) -> bool {
    let q = skip_blanks(s, name_end(s, pos));
    name_at(s, pos) && q < s.len() && s[q] == '=' && !(q + 1 < s.len() && s[q + 1] == '=')
}

/// The names of a function's parameters from `pos` on, behind the `(`, after
/// those in `acc`, and the offset behind the `)`.
pub open spec fn parse_names(s: Seq<char>, pos: int, acc: Seq<Seq<char>>) -> Result<
    (Seq<Seq<char>>, int),
    Failure,
>
    decreases s.len() - pos,
{
    let p = skip_blanks(s, pos);
    if pos < 0 || pos > s.len() {
        Err(Failure { kind: ParseErrorKind::ExpectedIdentifier, at: pos })
    } else if p < s.len() && s[p] == ')' {
        Ok((acc, p + 1))
    } else if name_at(s, p) {
        let e = name_end(s, p);
        let q = skip_blanks(s, e);
        if q < s.len() && s[q] == ',' {
            proof {
                lemma_scan_bounds(s, pos);
                lemma_scan_bounds(s, p);
                lemma_scan_bounds(s, e);
            }
            parse_names(s, q + 1, acc.push(s.subrange(p, e)))
        } else if q < s.len() && s[q] == ')' {
            Ok((acc.push(s.subrange(p, e)), q + 1))
        } else {
            Err(Failure { kind: ParseErrorKind::ExpectedCloseParen, at: q })
        }
    } else {
        Err(Failure { kind: ParseErrorKind::ExpectedIdentifier, at: p })
    }
}

/// The statements from `pos` on, after those in `acc`: up to the `}` where
/// `braces` is set, up to the end of the text where it is not.
pub open spec fn parse_statements(s: Seq<char>, pos: int, braces: bool, acc: Seq<Stmt>) -> Result<
    (Seq<Stmt>, int),
    Failure,
>
    decreases s.len() - pos, 14nat,
{
    let p = skip_separators(s, pos);
    if pos < 0 || pos > s.len() {
        Err(Failure { kind: ParseErrorKind::ExpectedExpression, at: pos })
    } else if p >= s.len() {
        if braces {
            Err(Failure { kind: ParseErrorKind::ExpectedCloseBrace, at: p })
        } else {
            Ok((acc, p))
        }
    } else if braces && s[p] == '}' {
        Ok((acc, p + 1))
    } else {
        proof {
            lemma_scan_bounds(s, pos);
        }
        match parse_statement(s, p) {
            Err(f) => Err(f),
            Ok((st, t1)) => {
                if p < t1 <= s.len() {
                    parse_statements(s, t1, braces, acc.push(st))
                } else {
                    Err(Failure { kind: ParseErrorKind::ExpectedExpression, at: p })
                }
            },
        }
    }
}

/// A block from `pos` on: statements in braces, or one statement.
pub open spec fn parse_block(s: Seq<char>, pos: int) -> Result<(Seq<Stmt>, int), Failure>
    decreases s.len() - pos, 13nat,
{
    let p = skip_blanks(s, pos);
    if pos < 0 || pos > s.len() {
        Err(Failure { kind: ParseErrorKind::ExpectedExpression, at: pos })
    } else if p < s.len() && s[p] == '{' {
        proof {
            lemma_scan_bounds(s, pos);
        }
        parse_statements(s, p + 1, true, Seq::empty())
    } else {
        proof {
            lemma_scan_bounds(s, pos);
        }
        match parse_statement(s, p) {
            Err(f) => Err(f),
            Ok((st, t1)) => Ok((seq![st], t1)),
        }
    }
}

/// The statement that starts at `pos`.
pub open spec fn parse_statement(s: Seq<char>, pos: int) -> Result<(Stmt, int), Failure>
    decreases s.len() - pos, 12nat,
{
    if pos < 0 || pos > s.len() {
        Err(Failure { kind: ParseErrorKind::ExpectedExpression, at: pos })
    } else if keyword_at(s, pos, seq!['f', 'n']) {
        parse_function(s, pos)
    } else {
        match parse_expr(s, pos, 0) {
            Err(f) => Err(f),
            Ok((e, t1)) => Ok((Stmt::Expr { expr: e, pos: span(pos, t1) }, t1)),
        }
    }
}

/// The function declaration whose `fn` stands at `pos`.
pub open spec fn parse_function(s: Seq<char>, pos: int) -> Result<(Stmt, int), Failure>
    decreases s.len() - pos, 3nat,
{
    let n0 = skip_blanks(s, pos + 2);
    let n1 = name_end(s, n0);
    let q = skip_blanks(s, n1);
    if pos < 0 || pos + 2 > s.len() {
        Err(Failure { kind: ParseErrorKind::ExpectedIdentifier, at: pos })
    } else if !name_at(s, n0) {
        Err(Failure { kind: ParseErrorKind::ExpectedIdentifier, at: n0 })
    } else if !(q < s.len() && s[q] == '(') {
        Err(Failure { kind: ParseErrorKind::ExpectedOpenParen, at: q })
    } else {
        match parse_names(s, q + 1, Seq::empty()) {
            Err(f) => Err(f),
            Ok((names, t1)) => {
                if pos < t1 <= s.len() {
                    match parse_block(s, t1) {
                        Err(f) => Err(f),
                        Ok((body, t2)) => Ok(
                            (
                                Stmt::Function {
                                    name: s.subrange(n0, n1),
                                    args: names,
                                    body: body,
                                    pos: span(pos, t2),
                                },
                                t2,
                            ),
                        ),
                    }
                } else {
                    Err(Failure { kind: ParseErrorKind::ExpectedCloseParen, at: q })
                }
            },
        }
    }
}

/// The expressions of a list from `pos` on, separated by `,`, after those
/// in `acc`, and the offset behind the closing character.
pub open spec fn parse_list(s: Seq<char>, pos: int, close: char, acc: Seq<Expr>) -> Result<
    (Seq<Expr>, int),
    Failure,
>
    decreases s.len() - pos, 11nat,
{
    let p = skip_blanks(s, pos);
    if pos < 0 || pos > s.len() {
        Err(Failure { kind: ParseErrorKind::ExpectedExpression, at: pos })
    } else if p < s.len() && s[p] == close {
        Ok((acc, p + 1))
    } else {
        proof {
            lemma_scan_bounds(s, pos);
        }
        match parse_expr(s, p, 0) {
            Err(f) => Err(f),
            Ok((e, t1)) => {
                let q = skip_blanks(s, t1);
                if !(p < t1 <= s.len()) {
                    Err(Failure { kind: ParseErrorKind::ExpectedExpression, at: p })
                } else if q < s.len() && s[q] == ',' {
                    proof {
                        lemma_scan_bounds(s, t1);
                    }
                    parse_list(s, q + 1, close, acc.push(e))
                } else if q < s.len() && s[q] == close {
                    Ok((acc.push(e), q + 1))
                } else {
                    Err(Failure { kind: unclosed(close), at: q })
                }
            },
        }
    }
}

/// The expression that starts at `pos`, with only operators of level `min`
/// and up.
pub open spec fn parse_expr(s: Seq<char>, pos: int, min: int) -> Result<(Expr, int), Failure>
    decreases s.len() - pos, 10nat,
{
    if pos < 0 || pos > s.len() {
        Err(Failure { kind: ParseErrorKind::ExpectedExpression, at: pos })
    } else {
        match parse_operand(s, pos) {
            Err(f) => Err(f),
            Ok((left, t1)) => {
                if pos < t1 <= s.len() {
                    parse_operators(s, t1, left, min)
                } else {
                    Err(Failure { kind: ParseErrorKind::ExpectedExpression, at: pos })
                }
            },
        }
    }
}

/// The expression that `left` becomes with the operators of level `min` and
/// up that follow it from `pos` on. An operator takes as its right operand
/// what binds tighter than itself, so operators of one level group from the
/// left.
pub open spec fn parse_operators(s: Seq<char>, pos: int, left: Expr, min: int) -> Result<
    (Expr, int),
    Failure,
>
    decreases s.len() - pos, 9nat,
{
    let p = skip_blanks(s, pos);
    if pos < 0 || pos > s.len() {
        Err(Failure { kind: ParseErrorKind::ExpectedExpression, at: pos })
    } else {
        match operator_at(s, p) {
            Some(op) => {
                if op.level >= min {
                    proof {
                        lemma_scan_bounds(s, pos);
                    }
                    match parse_expr(s, p + op.text.len(), op.level + 1) {
                        Err(f) => Err(f),
                        Ok((right, t2)) => {
                            if p < t2 <= s.len() {
                                parse_operators(
                                    s,
                                    t2,
                                    Expr::Infix {
                                        left: Box::new(left),
                                        operator: op.text,
                                        right: Box::new(right),
                                        pos: span(p, p + op.text.len()),
                                    },
                                    min,
                                )
                            } else {
                                Err(Failure { kind: ParseErrorKind::ExpectedExpression, at: p })
                            }
                        },
                    }
                } else {
                    Ok((left, pos))
                }
            },
            None => Ok((left, pos)),
        }
    }
}

/// The operand that starts at or behind `pos`.
pub open spec fn parse_operand(s: Seq<char>, pos: int) -> Result<(Expr, int), Failure>
    decreases s.len() - pos, 8nat,
{
    let p = skip_blanks(s, pos);
    if pos < 0 || pos > s.len() {
        Err(Failure { kind: ParseErrorKind::ExpectedExpression, at: pos })
    } else {
        proof {
            lemma_scan_bounds(s, pos);
        }
        if keyword_at(s, p, seq!['i', 'f']) {
            parse_if(s, p)
        } else if keyword_at(s, p, seq!['w', 'h', 'i', 'l', 'e']) {
            parse_while(s, p)
        } else if assign_at(s, p) {
            parse_assign(s, p)
        } else {
            parse_unary(s, p, p)
        }
    }
}

/// The assignment whose name stands at `pos`.
pub open spec fn parse_assign(s: Seq<char>, pos: int) -> Result<(Expr, int), Failure>
    decreases s.len() - pos, 3nat,
{
    let e = name_end(s, pos);
    let q = skip_blanks(s, e);
    if pos < 0 || pos >= s.len() || !assign_at(s, pos) {
        Err(Failure { kind: ParseErrorKind::ExpectedExpression, at: pos })
    } else {
        proof {
            lemma_scan_bounds(s, pos);
            lemma_scan_bounds(s, e);
        }
        match parse_expr(s, q + 1, 0) {
            Err(f) => Err(f),
            Ok((v, t1)) => Ok(
                (Expr::SetVar { name: s.subrange(pos, e), value: Box::new(v), pos: span(pos, t1) }, t1),
            ),
        }
    }
}

/// The operand at `pos` with its prefix operators. `start` is where the
/// first of them stands.
pub open spec fn parse_unary(s: Seq<char>, pos: int, start: int) -> Result<(Expr, int), Failure>
    decreases s.len() - pos, 7nat,
{
    if pos < 0 || pos > s.len() {
        Err(Failure { kind: ParseErrorKind::ExpectedExpression, at: pos })
    } else if pos < s.len() && (s[pos] == '-' || s[pos] == '+') {
        proof {
            lemma_scan_bounds(s, pos + 1);
        }
        match parse_unary(s, skip_blanks(s, pos + 1), start) {
            Err(f) => Err(f),
            Ok((right, t1)) => Ok(
                (
                    Expr::Prefix {
                        operator: seq![s[pos]],
                        right: Box::new(right),
                        pos: span(start, t1),
                    },
                    t1,
                ),
            ),
        }
    } else {
        parse_postfix(s, pos)
    }
}

/// The primary at `pos` with the suffixes that follow it.
pub open spec fn parse_postfix(s: Seq<char>, pos: int) -> Result<(Expr, int), Failure>
    decreases s.len() - pos, 6nat,
{
    if pos < 0 || pos > s.len() {
        Err(Failure { kind: ParseErrorKind::ExpectedExpression, at: pos })
    } else {
        match parse_primary(s, pos) {
            Err(f) => Err(f),
            Ok((e, t1)) => {
                if pos < t1 <= s.len() {
                    parse_suffixes(s, t1, e, pos)
                } else {
                    Err(Failure { kind: ParseErrorKind::ExpectedExpression, at: pos })
                }
            },
        }
    }
}

/// The expression that `callee` becomes with the suffixes that follow it
/// from `pos` on. `start` is where the primary stands.
pub open spec fn parse_suffixes(s: Seq<char>, pos: int, callee: Expr, start: int) -> Result<
    (Expr, int),
    Failure,
>
    decreases s.len() - pos, 5nat,
{
    let p = skip_blanks(s, pos);
    if pos < 0 || pos > s.len() {
        Err(Failure { kind: ParseErrorKind::ExpectedExpression, at: pos })
    } else if p >= s.len() {
        Ok((callee, pos))
    } else {
        proof {
            lemma_scan_bounds(s, pos);
            lemma_scan_bounds(s, p + 1);
        }
        if s[p] == '(' {
            match parse_list(s, p + 1, ')', Seq::empty()) {
                Err(f) => Err(f),
                Ok((args, e)) => {
                    if p < e <= s.len() {
                        parse_suffixes(
                            s,
                            e,
                            Expr::Call {
                                callee: Box::new(callee),
                                arguments: args,
                                pos: span(start, e),
                            },
                            start,
                        )
                    } else {
                        Err(Failure { kind: ParseErrorKind::ExpectedCloseParen, at: p })
                    }
                },
            }
        } else if s[p] == '.' && name_at(s, p + 1) {
            parse_suffixes(
                s,
                name_end(s, p + 1),
                Expr::GetInstance {
                    parent: Box::new(callee),
                    name: s.subrange(p + 1, name_end(s, p + 1)),
                    pos: span(start, name_end(s, p + 1)),
                },
                start,
            )
        } else if s[p] == '!' && !(p + 1 < s.len() && s[p + 1] == '=') {
            parse_suffixes(
                s,
                p + 1,
                Expr::Call {
                    callee: Box::new(callee),
                    arguments: Seq::empty(),
                    pos: span(start, p + 1),
                },
                start,
            )
        } else if s[p] == '[' {
            match parse_expr(s, p + 1, 0) {
                Err(f) => Err(f),
                Ok((index, t1)) => {
                    let q = skip_blanks(s, t1);
                    if !(p < t1 <= s.len()) {
                        Err(Failure { kind: ParseErrorKind::ExpectedExpression, at: p })
                    } else if q < s.len() && s[q] == ']' {
                        proof {
                            lemma_scan_bounds(s, t1);
                        }
                        parse_suffixes(
                            s,
                            q + 1,
                            Expr::Index {
                                callee: Box::new(callee),
                                index: Box::new(index),
                                pos: span(start, q + 1),
                            },
                            start,
                        )
                    } else {
                        Err(Failure { kind: ParseErrorKind::ExpectedCloseBracket, at: q })
                    }
                },
            }
        } else {
            Ok((callee, pos))
        }
    }
}

/// The primary that starts at `pos`: a number, a string literal, an
/// expression in parentheses, a vector literal or a name.
pub open spec fn parse_primary(s: Seq<char>, pos: int) -> Result<(Expr, int), Failure>
    decreases s.len() - pos, 4nat,
{
    if pos < 0 || pos >= s.len() {
        Err(Failure { kind: ParseErrorKind::ExpectedExpression, at: pos })
    } else if is_digit(s[pos]) {
        let e = digits_end(s, pos);
        if digits_value(s, pos, e) > i64::MAX {
            Err(Failure { kind: ParseErrorKind::IntegerOverflow, at: pos })
        } else {
            Ok((Expr::Int { value: digits_value(s, pos, e) as u64, pos: span(pos, e) }, e))
        }
    } else if s[pos] == '"' {
        match string_body(s, pos + 1, Seq::empty()) {
            None => Err(Failure { kind: ParseErrorKind::UnterminatedString, at: pos }),
            Some((text, e)) => Ok((Expr::Str { value: text, pos: span(pos, e) }, e)),
        }
    } else if s[pos] == '(' {
        match parse_expr(s, pos + 1, 0) {
            Err(f) => Err(f),
            Ok((e, t1)) => {
                let q = skip_blanks(s, t1);
                if q < s.len() && s[q] == ')' {
                    Ok((e, q + 1))
                } else {
                    Err(Failure { kind: ParseErrorKind::ExpectedCloseParen, at: q })
                }
            },
        }
    } else if s[pos] == '[' {
        match parse_list(s, pos + 1, ']', Seq::empty()) {
            Err(f) => Err(f),
            Ok((items, e)) => Ok((Expr::Vector { values: items, pos: span(pos, e) }, e)),
        }
    } else if name_at(s, pos) {
        Ok(
            (
                Expr::GetVar { name: s.subrange(pos, name_end(s, pos)), pos: span(pos, name_end(s, pos)) },
                name_end(s, pos),
            ),
        )
    } else {
        Err(Failure { kind: ParseErrorKind::ExpectedExpression, at: pos })
    }
}

/// The conditional whose `if` stands at `pos`.
pub open spec fn parse_if(s: Seq<char>, pos: int) -> Result<(Expr, int), Failure>
    decreases s.len() - pos, 3nat,
{
    if pos < 0 || pos + 2 > s.len() {
        Err(Failure { kind: ParseErrorKind::ExpectedExpression, at: pos })
    } else {
        match parse_expr(s, pos + 2, 0) {
            Err(f) => Err(f),
            Ok((cond, t1)) => {
                if !(pos < t1 <= s.len()) {
                    Err(Failure { kind: ParseErrorKind::ExpectedExpression, at: pos })
                } else {
                    match parse_block(s, t1) {
                        Err(f) => Err(f),
                        Ok((body, t2)) => {
                            let q = skip_blanks(s, t2);
                            if !(t1 < t2 <= s.len()) {
                                Err(Failure { kind: ParseErrorKind::ExpectedExpression, at: t1 })
                            } else if keyword_at(s, q, seq!['e', 'l', 's', 'e']) {
                                proof {
                                    lemma_scan_bounds(s, t2);
                                }
                                match parse_block(s, q + 4) {
                                    Err(f) => Err(f),
                                    Ok((other, t3)) => Ok(
                                        (
                                            Expr::If {
                                                cond: Box::new(cond),
                                                body: body,
                                                other: other,
                                                pos: span(pos, t3),
                                            },
                                            t3,
                                        ),
                                    ),
                                }
                            } else {
                                Ok(
                                    (
                                        Expr::If {
                                            cond: Box::new(cond),
                                            body: body,
                                            other: Seq::empty(),
                                            pos: span(pos, t2),
                                        },
                                        t2,
                                    ),
                                )
                            }
                        },
                    }
                }
            },
        }
    }
}

/// The loop whose `while` stands at `pos`.
pub open spec fn parse_while(s: Seq<char>, pos: int) -> Result<(Expr, int), Failure>
    decreases s.len() - pos, 3nat,
{
    if pos < 0 || pos + 5 > s.len() {
        Err(Failure { kind: ParseErrorKind::ExpectedExpression, at: pos })
    } else {
        match parse_expr(s, pos + 5, 0) {
            Err(f) => Err(f),
            Ok((cond, t1)) => {
                if !(pos < t1 <= s.len()) {
                    Err(Failure { kind: ParseErrorKind::ExpectedExpression, at: pos })
                } else {
                    match parse_block(s, t1) {
                        Err(f) => Err(f),
                        Ok((body, t2)) => Ok(
                            (Expr::While { cond: Box::new(cond), body: body, pos: span(pos, t2) }, t2),
                        ),
                    }
                }
            },
        }
    }
}

/// The tree of a whole text, or where and why it has none.
pub open spec fn parse_text(s: Seq<char>) -> Result<Seq<Stmt>, Failure> {
    match parse_statements(s, 0, false, Seq::empty()) {
        Ok((stmts, _)) => Ok(stmts),
        Err(f) => Err(f),
    }
}


/// What an expression parser returned, as mathematical values.
pub open spec fn expr_outcome(r: Result<(Expression, usize), ParseError>) -> Result<
    (Expr, int),
    Failure,
> {
    match r {
        Ok((e, p)) => Ok((e.model(), p as int)),
        Err(e) => Err(e@),
    }
}

/// What a statement parser returned, as mathematical values.
pub open spec fn stmt_outcome(r: Result<(Statement, usize), ParseError>) -> Result<
    (Stmt, int),
    Failure,
> {
    match r {
        Ok((e, p)) => Ok((e.model(), p as int)),
        Err(e) => Err(e@),
    }
}

/// What a block parser returned, as mathematical values.
pub open spec fn block_outcome(r: Result<(Vec<Statement>, usize), ParseError>) -> Result<
    (Seq<Stmt>, int),
    Failure,
> {
    match r {
        Ok((v, p)) => Ok((program_model(v@), p as int)),
        Err(e) => Err(e@),
    }
}

/// What a list parser returned, as mathematical values.
pub open spec fn list_outcome(r: Result<(Vec<Expression>, usize), ParseError>) -> Result<
    (Seq<Expr>, int),
    Failure,
> {
    match r {
        Ok((v, p)) => Ok((exprs_model(v@), p as int)),
        Err(e) => Err(e@),
    }
}

/// Whether a parser that started at `pos` stopped behind it, inside the text.
pub open spec fn advanced<T>(r: Result<(T, usize), ParseError>, pos: usize, len: usize) -> bool {
    match r {
        Ok((_, p)) => pos < p <= len,
        Err(_) => true,
    }
}

/// The error of kind `kind` at `pos`.
fn fail<T>(kind: ParseErrorKind, pos: usize) -> (r: Result<T, ParseError>)
    ensures
        r == Err::<T, ParseError>(ParseError { kind, pos }),
{
    Err(ParseError { kind, pos })
}

/// Whether a name starts at `pos`.
fn at_name(src: &Vec<char>, pos: usize) -> (r: bool)
    requires
        pos <= src.len(),
    ensures
        r == name_at(src@, pos as int),
{
    proof {
        reveal_strlit("if");
        reveal_strlit("else");
        reveal_strlit("while");
        reveal_strlit("fn");
        assert("if"@ =~= seq!['i', 'f']);
        assert("else"@ =~= seq!['e', 'l', 's', 'e']);
        assert("while"@ =~= seq!['w', 'h', 'i', 'l', 'e']);
        assert("fn"@ =~= seq!['f', 'n']);
    }
    pos < src.len() && name_start(src[pos]) && !at_keyword(src, pos, "if") && !at_keyword(
        src,
        pos,
        "else",
    ) && !at_keyword(src, pos, "while") && !at_keyword(src, pos, "fn")
}

/// Whether the keyword `if` stands at `pos`.
fn at_if(src: &Vec<char>, pos: usize) -> (r: bool)
    requires
        pos <= src.len(),
    ensures
        r == keyword_at(src@, pos as int, seq!['i', 'f']),
{
    proof {
        reveal_strlit("if");
        assert("if"@ =~= seq!['i', 'f']);
    }
    at_keyword(src, pos, "if")
}

/// Whether the keyword `else` stands at `pos`.
fn at_else(src: &Vec<char>, pos: usize) -> (r: bool)
    requires
        pos <= src.len(),
    ensures
        r == keyword_at(src@, pos as int, seq!['e', 'l', 's', 'e']),
{
    proof {
        reveal_strlit("else");
        assert("else"@ =~= seq!['e', 'l', 's', 'e']);
    }
    at_keyword(src, pos, "else")
}

/// Whether the keyword `while` stands at `pos`.
fn at_while(src: &Vec<char>, pos: usize) -> (r: bool)
    requires
        pos <= src.len(),
    ensures
        r == keyword_at(src@, pos as int, seq!['w', 'h', 'i', 'l', 'e']),
{
    proof {
        reveal_strlit("while");
        assert("while"@ =~= seq!['w', 'h', 'i', 'l', 'e']);
    }
    at_keyword(src, pos, "while")
}

/// Whether the keyword `fn` stands at `pos`.
fn at_fn(src: &Vec<char>, pos: usize) -> (r: bool)
    requires
        pos <= src.len(),
    ensures
        r == keyword_at(src@, pos as int, seq!['f', 'n']),
{
    proof {
        reveal_strlit("fn");
        assert("fn"@ =~= seq!['f', 'n']);
    }
    at_keyword(src, pos, "fn")
}

/// Whether `c` stands at `pos`.
fn char_at(src: &Vec<char>, pos: usize, c: char) -> (r: bool)
    ensures
        r == (pos < src.len() && src@[pos as int] == c),
{
    pos < src.len() && src[pos] == c
}

/// Whether an assignment starts at `pos`.
fn at_assign(src: &Vec<char>, pos: usize) -> (r: bool)
    requires
        pos <= src.len(),
    ensures
        r == assign_at(src@, pos as int),
{
    if !at_name(src, pos) {
        return false;
    }
    let e = scan_name(src, pos);
    let q = scan_blanks(src, e);
    char_at(src, q, '=') && !(q < src.len() && char_at(src, q + 1, '='))
}

/// The length and the level of the binary operator at `pos`.
fn operator(src: &Vec<char>, pos: usize) -> (r: Option<(usize, u8)>)
    requires
        pos <= src.len(),
    ensures
        r is Some <==> operator_at(src@, pos as int) is Some,
        r is Some ==> ({
            let op = operator_at(src@, pos as int).unwrap();
            &&& op.text.len() == r.unwrap().0
            &&& op.level == r.unwrap().1
            &&& pos + op.text.len() <= src.len()
            &&& op.text == src@.subrange(pos as int, pos + op.text.len())
            &&& 1 <= op.text.len() <= 2
            &&& 1 <= op.level <= 4
        }),
{
    if pos >= src.len() {
        return None;
    }
    let c = src[pos];
    let eq = pos + 1 < src.len() && src[pos + 1] == '=';
    let r = if c == '=' && eq {
        Some((2usize, 1u8))
    } else if c == '!' && eq {
        Some((2, 1))
    } else if c == '<' && eq {
        Some((2, 2))
    } else if c == '>' && eq {
        Some((2, 2))
    } else if c == '<' {
        Some((1, 2))
    } else if c == '>' {
        Some((1, 2))
    } else if c == '+' {
        Some((1, 3))
    } else if c == '-' {
        Some((1, 3))
    } else if c == '*' {
        Some((1, 4))
    } else if c == '/' {
        Some((1, 4))
    } else if c == '%' {
        Some((1, 4))
    } else {
        None
    };
    proof {
        if r is Some {
            let op = operator_at(src@, pos as int).unwrap();
            assert(op.text =~= src@.subrange(pos as int, pos + op.text.len()));
        }
    }
    r
}

/// Parses the number that starts at `pos`.
#[verifier::rlimit(30)]
#[verifier::spinoff_prover]
fn number(src: &Vec<char>, pos: usize) -> (r: Result<(Expression, usize), ParseError>)
    requires
        pos < src.len(),
        is_digit(src@[pos as int]),
    ensures
        expr_outcome(r) == parse_primary(src@, pos as int),
        advanced(r, pos, src.len()),
{
    let end = scan_digits(src, pos);
    let mut value: u64 = 0;
    let mut i = pos;
    proof {
        lemma_digits_run(src@, pos as int);
        lemma_scan_bounds(src@, pos + 1);
        assert(digits_end(src@, pos as int) == digits_end(src@, pos + 1));
    }
    while i < end
        invariant
            pos <= i <= end <= src.len(),
            end == digits_end(src@, pos as int),
            value == digits_value(src@, pos as int, i as int),
            value <= i64::MAX,
            forall|k: int| pos <= k < end ==> is_digit(#[trigger] src@[k]),
        decreases end - i,
    {
        let d: u64 = (src[i] as u32 - '0' as u32) as u64;
        if value > (i64::MAX as u64 - d) / 10 {
            proof {
                lemma_digits_grow(src@, pos as int, i + 1, end as int);
            }
            return fail(ParseErrorKind::IntegerOverflow, pos);
        }
        value = value * 10 + d;
        i += 1;
    }
    let e = Expression::Int(Integer { value, pos: Span { start: pos, end } });
    Ok((e, end))
}

/// Decodes the character behind a backslash.
fn unescaped(c: char) -> (r: char)
    ensures
        r == unescape(c),
{
    if c == 'n' {
        '\n'
    } else if c == 'r' {
        '\r'
    } else if c == 't' {
        '\t'
    } else if c == '0' {
        '\0'
    } else {
        c
    }
}

/// Parses the string literal whose opening quote stands at `pos`.
#[verifier::rlimit(30)]
#[verifier::spinoff_prover]
fn string_literal(src: &Vec<char>, pos: usize) -> (r: Result<(Expression, usize), ParseError>)
    requires
        pos < src.len(),
        src@[pos as int] == '"',
    ensures
        expr_outcome(r) == parse_primary(src@, pos as int),
        advanced(r, pos, src.len()),
{
    let mut text = std::string::String::new();
    let mut i = pos + 1;
    loop
        invariant
            pos < i <= src.len(),
            src@[pos as int] == '"',
            string_body(src@, pos + 1, Seq::empty()) == string_body(src@, i as int, text@),
        decreases src.len() - i,
    {
        if i >= src.len() {
            return fail(ParseErrorKind::UnterminatedString, pos);
        }
        let c = src[i];
        if c == '"' {
            let e = Expression::String(
                crate::ast::String { value: text, pos: Span { start: pos, end: i + 1 } },
            );
            return Ok((e, i + 1));
        }
        if c == '\\' {
            if i + 1 >= src.len() {
                return fail(ParseErrorKind::UnterminatedString, pos);
            }
            text.push(unescaped(src[i + 1]));
            i += 2;
        } else {
            text.push(c);
            i += 1;
        }
    }
}

/// Parses the names of a function's parameters behind the `(`.
#[verifier::rlimit(30)]
#[verifier::spinoff_prover]
fn names(src: &Vec<char>, pos: usize) -> (r: Result<(Vec<std::string::String>, usize), ParseError>)
    requires
        pos <= src.len(),
    ensures
        match r {
            Ok((v, p)) => parse_names(src@, pos as int, Seq::empty()) == Ok::<
                (Seq<Seq<char>>, int),
                Failure,
            >((names_model(v@), p as int)) && pos < p <= src.len(),
            Err(e) => parse_names(src@, pos as int, Seq::empty()) == Err::<
                (Seq<Seq<char>>, int),
                Failure,
            >(e@),
        },
{
    let mut acc: Vec<std::string::String> = Vec::new();
    let mut cur = pos;
    proof {
        assert(names_model(acc@) =~= Seq::empty());
    }
    loop
        invariant
            pos <= cur <= src.len(),
            parse_names(src@, pos as int, Seq::empty()) == parse_names(
                src@,
                cur as int,
                names_model(acc@),
            ),
        decreases src.len() - cur,
    {
        let p = scan_blanks(src, cur);
        if char_at(src, p, ')') {
            return Ok((acc, p + 1));
        }
        if !at_name(src, p) {
            return fail(ParseErrorKind::ExpectedIdentifier, p);
        }
        let e = scan_name(src, p);
        let q = scan_blanks(src, e);
        let ghost before = names_model(acc@);
        if char_at(src, q, ',') {
            acc.push(slice_text(src, p, e));
            proof {
                assert(names_model(acc@) =~= before.push(src@.subrange(p as int, e as int)));
            }
            cur = q + 1;
        } else if char_at(src, q, ')') {
            acc.push(slice_text(src, p, e));
            proof {
                assert(names_model(acc@) =~= before.push(src@.subrange(p as int, e as int)));
            }
            return Ok((acc, q + 1));
        } else {
            return fail(ParseErrorKind::ExpectedCloseParen, q);
        }
    }
}

/// Parses statements up to the `}` where `braces` is set, up to the end of
/// the text where it is not.
#[verifier::rlimit(30)]
#[verifier::spinoff_prover]
fn statements(src: &Vec<char>, pos: usize, braces: bool) -> (r: Result<
    (Vec<Statement>, usize),
    ParseError,
>)
    requires
        pos <= src.len(),
    ensures
        block_outcome(r) == parse_statements(src@, pos as int, braces, Seq::empty()),
        r is Ok ==> pos <= r.unwrap().1 <= src.len(),
        r is Ok && braces ==> pos < r.unwrap().1,
    decreases src.len() - pos, 14nat,
{
    let mut acc: Vec<Statement> = Vec::new();
    let mut cur = pos;
    proof {
        assert(program_model(acc@) =~= Seq::empty());
    }
    loop
        invariant
            pos <= cur <= src.len(),
            parse_statements(src@, pos as int, braces, Seq::empty()) == parse_statements(
                src@,
                cur as int,
                braces,
                program_model(acc@),
            ),
        decreases src.len() - cur,
    {
        let p = scan_separators(src, cur);
        if p >= src.len() {
            if braces {
                return fail(ParseErrorKind::ExpectedCloseBrace, p);
            }
            return Ok((acc, p));
        }
        if braces && src[p] == '}' {
            return Ok((acc, p + 1));
        }
        match statement(src, p) {
            Err(e) => {
                return Err(e);
            },
            Ok((st, t1)) => {
                let ghost before = program_model(acc@);
                let ghost m = st.model();
                acc.push(st);
                proof {
                    assert(program_model(acc@) =~= before.push(m));
                }
                cur = t1;
            },
        }
    }
}

/// Parses a block: statements in braces, or one statement.
fn block(src: &Vec<char>, pos: usize) -> (r: Result<(Vec<Statement>, usize), ParseError>)
    requires
        pos <= src.len(),
    ensures
        block_outcome(r) == parse_block(src@, pos as int),
        advanced(r, pos, src.len()),
    decreases src.len() - pos, 13nat,
{
    let p = scan_blanks(src, pos);
    if char_at(src, p, '{') {
        statements(src, p + 1, true)
    } else {
        match statement(src, p) {
            Err(e) => Err(e),
            Ok((st, t1)) => {
                let mut v: Vec<Statement> = Vec::new();
                let ghost m = st.model();
                v.push(st);
                proof {
                    assert(program_model(v@) =~= seq![m]);
                }
                Ok((v, t1))
            },
        }
    }
}

/// Parses the statement that starts at `pos`.
fn statement(src: &Vec<char>, pos: usize) -> (r: Result<(Statement, usize), ParseError>)
    requires
        pos <= src.len(),
    ensures
        stmt_outcome(r) == parse_statement(src@, pos as int),
        advanced(r, pos, src.len()),
    decreases src.len() - pos, 12nat,
{
    if at_fn(src, pos) {
        function(src, pos)
    } else {
        match expression(src, pos, 0) {
            Err(e) => Err(e),
            Ok((e, t1)) => Ok(
                (Statement::ExprStmt(ExprStmt { expr: e, pos: Span { start: pos, end: t1 } }), t1),
            ),
        }
    }
}

/// Parses the function declaration whose `fn` stands at `pos`.
#[verifier::rlimit(30)]
#[verifier::spinoff_prover]
fn function(src: &Vec<char>, pos: usize) -> (r: Result<(Statement, usize), ParseError>)
    requires
        pos <= src.len(),
        keyword_at(src@, pos as int, seq!['f', 'n']),
    ensures
        stmt_outcome(r) == parse_function(src@, pos as int),
        advanced(r, pos, src.len()),
    decreases src.len() - pos, 3nat,
{
    let n0 = scan_blanks(src, pos + 2);
    if !at_name(src, n0) {
        return fail(ParseErrorKind::ExpectedIdentifier, n0);
    }
    let n1 = scan_name(src, n0);
    let q = scan_blanks(src, n1);
    if !char_at(src, q, '(') {
        return fail(ParseErrorKind::ExpectedOpenParen, q);
    }
    match names(src, q + 1) {
        Err(e) => Err(e),
        Ok((args, t1)) => {
            match block(src, t1) {
                Err(e) => Err(e),
                Ok((body, t2)) => {
                    let ghost am = names_model(args@);
                    let ghost bm = program_model(body@);
                    let st = Statement::FunctionDeclare(
                        FunctionDeclare {
                            name: slice_text(src, n0, n1),
                            args,
                            body,
                            pos: Span { start: pos, end: t2 },
                        },
                    );
                    proof {
                        assert(st.model()->Function_args =~= am);
                        assert(st.model()->Function_body =~= bm);
                    }
                    Ok((st, t2))
                },
            }
        },
    }
}

/// Parses the expressions of a list up to the closing character.
#[verifier::rlimit(30)]
#[verifier::spinoff_prover]
fn list(src: &Vec<char>, pos: usize, close: char) -> (r: Result<
    (Vec<Expression>, usize),
    ParseError,
>)
    requires
        pos <= src.len(),
        close == ')' || close == ']',
    ensures
        list_outcome(r) == parse_list(src@, pos as int, close, Seq::empty()),
        advanced(r, pos, src.len()),
    decreases src.len() - pos, 11nat,
{
    let mut acc: Vec<Expression> = Vec::new();
    let mut cur = pos;
    proof {
        assert(exprs_model(acc@) =~= Seq::empty());
    }
    loop
        invariant
            pos <= cur <= src.len(),
            close == ')' || close == ']',
            parse_list(src@, pos as int, close, Seq::empty()) == parse_list(
                src@,
                cur as int,
                close,
                exprs_model(acc@),
            ),
        decreases src.len() - cur,
    {
        let p = scan_blanks(src, cur);
        if char_at(src, p, close) {
            return Ok((acc, p + 1));
        }
        match expression(src, p, 0) {
            Err(e) => {
                return Err(e);
            },
            Ok((e, t1)) => {
                let q = scan_blanks(src, t1);
                let ghost before = exprs_model(acc@);
                let ghost m = e.model();
                if char_at(src, q, ',') {
                    acc.push(e);
                    proof {
                        assert(exprs_model(acc@) =~= before.push(m));
                    }
                    cur = q + 1;
                } else if char_at(src, q, close) {
                    acc.push(e);
                    proof {
                        assert(exprs_model(acc@) =~= before.push(m));
                    }
                    return Ok((acc, q + 1));
                } else {
                    let kind = if close == ')' {
                        ParseErrorKind::ExpectedCloseParen
                    } else {
                        ParseErrorKind::ExpectedCloseBracket
                    };
                    return fail(kind, q);
                }
            },
        }
    }
}

/// Parses the expression that starts at `pos`, with only operators of
/// level `min` and up.
fn expression(src: &Vec<char>, pos: usize, min: u8) -> (r: Result<(Expression, usize), ParseError>)
    requires
        pos <= src.len(),
        min <= 5,
    ensures
        expr_outcome(r) == parse_expr(src@, pos as int, min as int),
        advanced(r, pos, src.len()),
    decreases src.len() - pos, 10nat,
{
    match operand(src, pos) {
        Err(e) => Err(e),
        Ok((left, t1)) => operators(src, t1, left, min, Ghost(pos)),
    }
}

/// Parses the operators of level `min` and up that follow `left`.
#[verifier::rlimit(30)]
#[verifier::spinoff_prover]
fn operators(src: &Vec<char>, pos: usize, left: Expression, min: u8, Ghost(from): Ghost<usize>) -> (r:
    Result<(Expression, usize), ParseError>)
    requires
        from < pos <= src.len(),
        min <= 5,
    ensures
        expr_outcome(r) == parse_operators(src@, pos as int, left.model(), min as int),
        advanced(r, from, src.len()),
    decreases src.len() - pos, 9nat,
{
    let ghost first = left.model();
    let mut left = left;
    let mut cur = pos;
    let mut failure: Option<ParseError> = None;
    loop
        invariant_except_break
            failure is None,
            parse_operators(src@, pos as int, first, min as int) == parse_operators(
                src@,
                cur as int,
                left.model(),
                min as int,
            ),
        invariant
            from < pos <= cur <= src.len(),
            min <= 5,
        ensures
            match failure {
                None => parse_operators(src@, pos as int, first, min as int) == Ok::<
                    (Expr, int),
                    Failure,
                >((left.model(), cur as int)),
                Some(e) => parse_operators(src@, pos as int, first, min as int) == Err::<
                    (Expr, int),
                    Failure,
                >(e@),
            },
        decreases src.len() - cur,
    {
        let p = scan_blanks(src, cur);
        match operator(src, p) {
            None => {
                break ;
            },
            Some((n, level)) => {
                if level < min {
                    break ;
                }
                match expression(src, p + n, level + 1) {
                    Err(e) => {
                        failure = Some(e);
                        break ;
                    },
                    Ok((right, t2)) => {
                        left =
                        Expression::Infix(
                            Box::new(
                                Infix {
                                    left,
                                    operator: slice_text(src, p, p + n),
                                    right,
                                    pos: Span { start: p, end: p + n },
                                },
                            ),
                        );
                        cur = t2;
                    },
                }
            },
        }
    }
    match failure {
        Some(e) => Err(e),
        None => Ok((left, cur)),
    }
}

/// Parses the operand that starts at or behind `pos`.
fn operand(src: &Vec<char>, pos: usize) -> (r: Result<(Expression, usize), ParseError>)
    requires
        pos <= src.len(),
    ensures
        expr_outcome(r) == parse_operand(src@, pos as int),
        advanced(r, pos, src.len()),
    decreases src.len() - pos, 8nat,
{
    let p = scan_blanks(src, pos);
    if at_if(src, p) {
        conditional(src, p)
    } else if at_while(src, p) {
        while_loop(src, p)
    } else if at_assign(src, p) {
        assignment(src, p)
    } else {
        unary(src, p, p)
    }
}

/// Parses the assignment whose name stands at `pos`.
fn assignment(src: &Vec<char>, pos: usize) -> (r: Result<(Expression, usize), ParseError>)
    requires
        pos <= src.len(),
        assign_at(src@, pos as int),
    ensures
        expr_outcome(r) == parse_assign(src@, pos as int),
        advanced(r, pos, src.len()),
    decreases src.len() - pos, 3nat,
{
    let e = scan_name(src, pos);
    let q = scan_blanks(src, e);
    match expression(src, q + 1, 0) {
        Err(f) => Err(f),
        Ok((v, t1)) => Ok(
            (
                Expression::SetVar(
                    Box::new(
                        SetVar {
                            name: slice_text(src, pos, e),
                            value: v,
                            pos: Span { start: pos, end: t1 },
                        },
                    ),
                ),
                t1,
            ),
        ),
    }
}

/// Parses the operand at `pos` with its prefix operators.
fn unary(src: &Vec<char>, pos: usize, start: usize) -> (r: Result<(Expression, usize), ParseError>)
    requires
        pos <= src.len(),
    ensures
        expr_outcome(r) == parse_unary(src@, pos as int, start as int),
        advanced(r, pos, src.len()),
    decreases src.len() - pos, 7nat,
{
    if char_at(src, pos, '-') || char_at(src, pos, '+') {
        let p = scan_blanks(src, pos + 1);
        match unary(src, p, start) {
            Err(f) => Err(f),
            Ok((right, t1)) => {
                let operator = slice_text(src, pos, pos + 1);
                proof {
                    assert(operator@ =~= seq![src@[pos as int]]);
                }
                Ok(
                    (
                        Expression::Prefix(
                            Box::new(Prefix { operator, right, pos: Span { start, end: t1 } }),
                        ),
                        t1,
                    ),
                )
            },
        }
    } else {
        postfix(src, pos)
    }
}

/// Parses the primary at `pos` with the suffixes that follow it.
fn postfix(src: &Vec<char>, pos: usize) -> (r: Result<(Expression, usize), ParseError>)
    requires
        pos <= src.len(),
    ensures
        expr_outcome(r) == parse_postfix(src@, pos as int),
        advanced(r, pos, src.len()),
    decreases src.len() - pos, 6nat,
{
    match primary(src, pos) {
        Err(f) => Err(f),
        Ok((e, t1)) => suffixes(src, t1, e, pos),
    }
}

/// Parses the suffixes that follow `callee`.
#[verifier::rlimit(30)]
#[verifier::spinoff_prover]
fn suffixes(src: &Vec<char>, pos: usize, callee: Expression, start: usize) -> (r: Result<
    (Expression, usize),
    ParseError,
>)
    requires
        start < pos <= src.len(),
    ensures
        expr_outcome(r) == parse_suffixes(src@, pos as int, callee.model(), start as int),
        advanced(r, start, src.len()),
    decreases src.len() - pos, 5nat,
{
    let ghost first = callee.model();
    let mut callee = callee;
    let mut cur = pos;
    let mut failure: Option<ParseError> = None;
    loop
        invariant_except_break
            failure is None,
            parse_suffixes(src@, pos as int, first, start as int) == parse_suffixes(
                src@,
                cur as int,
                callee.model(),
                start as int,
            ),
        invariant
            start < pos <= cur <= src.len(),
        ensures
            match failure {
                None => parse_suffixes(src@, pos as int, first, start as int) == Ok::<
                    (Expr, int),
                    Failure,
                >((callee.model(), cur as int)),
                Some(e) => parse_suffixes(src@, pos as int, first, start as int) == Err::<
                    (Expr, int),
                    Failure,
                >(e@),
            },
        decreases src.len() - cur,
    {
        let p = scan_blanks(src, cur);
        if p >= src.len() {
            break ;
        }
        let c = src[p];
        if c == '(' {
            match list(src, p + 1, ')') {
                Err(f) => {
                    failure = Some(f);
                    break ;
                },
                Ok((args, e)) => {
                    let ghost am = exprs_model(args@);
                    callee =
                    Expression::Call(
                        Box::new(Call { callee, arguments: args, pos: Span { start, end: e } }),
                    );
                    proof {
                        assert(callee.model()->Call_arguments =~= am);
                    }
                    cur = e;
                },
            }
        } else if c == '.' && at_name(src, p + 1) {
            let e = scan_name(src, p + 1);
            callee =
            Expression::GetInstance(
                Box::new(
                    GetInstance {
                        parent: callee,
                        name: slice_text(src, p + 1, e),
                        pos: Span { start, end: e },
                    },
                ),
            );
            cur = e;
        } else if c == '!' && !char_at(src, p + 1, '=') {
            callee =
            Expression::Call(
                Box::new(Call { callee, arguments: Vec::new(), pos: Span { start, end: p + 1 } }),
            );
            proof {
                assert(callee.model()->Call_arguments =~= Seq::<Expr>::empty());
            }
            cur = p + 1;
        } else if c == '[' {
            match expression(src, p + 1, 0) {
                Err(f) => {
                    failure = Some(f);
                    break ;
                },
                Ok((index, t1)) => {
                    let q = scan_blanks(src, t1);
                    if !char_at(src, q, ']') {
                        failure = Some(ParseError { kind: ParseErrorKind::ExpectedCloseBracket, pos: q });
                        break ;
                    }
                    callee =
                    Expression::Index(
                        Box::new(Index { callee, index, pos: Span { start, end: q + 1 } }),
                    );
                    cur = q + 1;
                },
            }
        } else {
            break ;
        }
    }
    match failure {
        Some(e) => Err(e),
        None => Ok((callee, cur)),
    }
}

/// Parses the primary that starts at `pos`.
#[verifier::rlimit(30)]
#[verifier::spinoff_prover]
fn primary(src: &Vec<char>, pos: usize) -> (r: Result<(Expression, usize), ParseError>)
    requires
        pos <= src.len(),
    ensures
        expr_outcome(r) == parse_primary(src@, pos as int),
        advanced(r, pos, src.len()),
    decreases src.len() - pos, 4nat,
{
    if pos >= src.len() {
        return fail(ParseErrorKind::ExpectedExpression, pos);
    }
    let c = src[pos];
    if digit(c) {
        number(src, pos)
    } else if c == '"' {
        string_literal(src, pos)
    } else if c == '(' {
        match expression(src, pos + 1, 0) {
            Err(f) => Err(f),
            Ok((e, t1)) => {
                let q = scan_blanks(src, t1);
                if char_at(src, q, ')') {
                    Ok((e, q + 1))
                } else {
                    fail(ParseErrorKind::ExpectedCloseParen, q)
                }
            },
        }
    } else if c == '[' {
        match list(src, pos + 1, ']') {
            Err(f) => Err(f),
            Ok((items, e)) => {
                let ghost im = exprs_model(items@);
                let v = Expression::Vec_(
                    Box::new(VectorDec { values: items, pos: Span { start: pos, end: e } }),
                );
                proof {
                    assert(v.model()->Vector_values =~= im);
                }
                Ok((v, e))
            },
        }
    } else if at_name(src, pos) {
        let e = scan_name(src, pos);
        proof {
            lemma_scan_bounds(src@, pos + 1);
            assert(name_end(src@, pos as int) == name_end(src@, pos + 1));
        }
        Ok(
            (
                Expression::GetVar(
                    GetVar { name: slice_text(src, pos, e), pos: Span { start: pos, end: e } },
                ),
                e,
            ),
        )
    } else {
        fail(ParseErrorKind::ExpectedExpression, pos)
    }
}

/// Parses the conditional whose `if` stands at `pos`.
#[verifier::rlimit(30)]
#[verifier::spinoff_prover]
fn conditional(src: &Vec<char>, pos: usize) -> (r: Result<(Expression, usize), ParseError>)
    requires
        pos <= src.len(),
        keyword_at(src@, pos as int, seq!['i', 'f']),
    ensures
        expr_outcome(r) == parse_if(src@, pos as int),
        advanced(r, pos, src.len()),
    decreases src.len() - pos, 3nat,
{
    match expression(src, pos + 2, 0) {
        Err(f) => Err(f),
        Ok((cond, t1)) => {
            match block(src, t1) {
                Err(f) => Err(f),
                Ok((body, t2)) => {
                    let q = scan_blanks(src, t2);
                    let ghost bm = program_model(body@);
                    if at_else(src, q) {
                        match block(src, q + 4) {
                            Err(f) => Err(f),
                            Ok((other, t3)) => {
                                let ghost om = program_model(other@);
                                let e = Expression::If(
                                    Box::new(
                                        If { cond, body, other, pos: Span { start: pos, end: t3 } },
                                    ),
                                );
                                proof {
                                    assert(e.model()->If_body =~= bm);
                                    assert(e.model()->If_other =~= om);
                                }
                                Ok((e, t3))
                            },
                        }
                    } else {
                        let e = Expression::If(
                            Box::new(
                                If {
                                    cond,
                                    body,
                                    other: Vec::new(),
                                    pos: Span { start: pos, end: t2 },
                                },
                            ),
                        );
                        proof {
                            assert(e.model()->If_body =~= bm);
                            assert(e.model()->If_other =~= Seq::<Stmt>::empty());
                        }
                        Ok((e, t2))
                    }
                },
            }
        },
    }
}

/// Parses the loop whose `while` stands at `pos`.
fn while_loop(src: &Vec<char>, pos: usize) -> (r: Result<(Expression, usize), ParseError>)
    requires
        pos <= src.len(),
        keyword_at(src@, pos as int, seq!['w', 'h', 'i', 'l', 'e']),
    ensures
        expr_outcome(r) == parse_while(src@, pos as int),
        advanced(r, pos, src.len()),
    decreases src.len() - pos, 3nat,
{
    match expression(src, pos + 5, 0) {
        Err(f) => Err(f),
        Ok((cond, t1)) => {
            match block(src, t1) {
                Err(f) => Err(f),
                Ok((body, t2)) => {
                    let ghost bm = program_model(body@);
                    let e = Expression::While(
                        Box::new(While { cond, body, pos: Span { start: pos, end: t2 } }),
                    );
                    proof {
                        assert(e.model()->While_body =~= bm);
                    }
                    Ok((e, t2))
                },
            }
        },
    }
}

/// Parses the expression that starts at or behind `pos`, with its operators
/// by their levels.
pub fn climb(src: &Vec<char>, pos: usize) -> (r: Result<(Expression, usize), ParseError>)
    requires
        pos <= src.len(),
    ensures
        expr_outcome(r) == parse_expr(src@, pos as int, 0),
        advanced(r, pos, src.len()),
{
    expression(src, pos, 0)
}

/// The parser of the language.
#[derive(Debug)]
pub struct GorillaParser;

impl GorillaParser {
    /// Parses a whole text. Returns its tree, or where and why it has none.
    pub fn parse(code: &str) -> (r: Result<Program, ParseError>)
        ensures
            match r {
                Ok(p) => parse_text(code@) == Ok::<Seq<Stmt>, Failure>(program_model(p@)),
                Err(e) => parse_text(code@) == Err::<Seq<Stmt>, Failure>(e@),
            },
    {
        parse(code)
    }
}

/// Parses a whole text. Returns its tree, or where and why it has none.
pub fn parse(code: &str) -> (r: Result<Program, ParseError>)
    ensures
        match r {
            Ok(p) => parse_text(code@) == Ok::<Seq<Stmt>, Failure>(program_model(p@)),
            Err(e) => parse_text(code@) == Err::<Seq<Stmt>, Failure>(e@),
        },
{
    let src = chars_of(code);
    match statements(&src, 0, false) {
        Ok((p, _)) => Ok(p),
        Err(e) => Err(e),
    }
}

} // verus!
