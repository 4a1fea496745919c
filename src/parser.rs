//! The grammar of the filter language, and a parser for it.
//!
//! ```text
//! or      := and ("or" and)*
//! and     := not ("and" not)*
//! not     := "not" not | atom
//! atom    := "(" or ")" | field cmp literal | literal "in" field | literal "not" "in" field
//! literal := integer | string | "[" "]" | "[" integer ("," integer)* "]"
//! cmp     := ">" | ">=" | "<" | "<=" | "==" | "!="
//! ```
use crate::ast::{Expr, ExprModel, Field, Opcode, Operand, Value};
use crate::consent::chars_of;
use crate::lexer::{lex_from, lexemes_model, tokenize, Lexeme, ParseError, Tok, Token};
use vstd::prelude::*;

verus! {

/// The literal at token `p`, and the token after it; or the token at which it fails.
pub open spec fn parse_literal(ts: Seq<(Tok, int)>, p: int) -> Result<(Operand, int), int> {
    if !(0 <= p < ts.len()) {
        Err(p)
    } else {
        match ts[p].0 {
            Tok::Int(n) => Ok((Operand::Int(n), p + 1)),
            Tok::Str(s) => Ok((Operand::Str(s), p + 1)),
            Tok::LBracket => if p + 1 < ts.len() && ts[p + 1].0 is RBracket {
                Ok((Operand::Ints(Set::empty()), p + 2))
            } else {
                match list_tail(ts, p + 1) {
                    Ok((items, q)) => Ok((Operand::Ints(Set::new(|x: u64| items.contains(x))), q)),
                    Err(e) => Err(e),
                }
            },
            _ => Err(p),
        }
    }
}

/// The integers of a list literal from token `q` up to its closing bracket, and the token
/// after that bracket.
pub open spec fn list_tail(ts: Seq<(Tok, int)>, q: int) -> Result<(Seq<u64>, int), int>
    decreases ts.len() - q,
{
    if !(0 <= q < ts.len()) {
        Err(q)
    } else {
        match ts[q].0 {
            Tok::Int(n) => if q + 1 < ts.len() && ts[q + 1].0 is Comma {
                match list_tail(ts, q + 2) {
                    Ok((rest, r)) => Ok((seq![n] + rest, r)),
                    Err(e) => Err(e),
                }
            } else if q + 1 < ts.len() && ts[q + 1].0 is RBracket {
                Ok((seq![n], q + 2))
            } else {
                Err(q + 1)
            },
            _ => Err(q),
        }
    }
}

/// A comparison of the field named at token `q` with `v` under `op`.
pub open spec fn name_after(ts: Seq<(Tok, int)>, q: int, op: Opcode, v: Operand) -> Result<
    (ExprModel, int),
    int,
> {
    if 0 <= q < ts.len() && ts[q].0 is Name {
        Ok((ExprModel::Op(ts[q].0->Name_0, op, v), q + 1))
    } else {
        Err(q)
    }
}

/// A comparison at token `p`.
pub open spec fn parse_cmp(ts: Seq<(Tok, int)>, p: int) -> Result<(ExprModel, int), int> {
    if 0 <= p < ts.len() && ts[p].0 is Name {
        if p + 1 < ts.len() && ts[p + 1].0 is Cmp {
            match parse_literal(ts, p + 2) {
                Ok((v, q)) => Ok((ExprModel::Op(ts[p].0->Name_0, ts[p + 1].0->Cmp_0, v), q)),
                Err(e) => Err(e),
            }
        } else {
            Err(p + 1)
        }
    } else {
        match parse_literal(ts, p) {
            Err(e) => Err(e),
            Ok((v, q)) => if 0 <= q < ts.len() && ts[q].0 is In {
                name_after(ts, q + 1, Opcode::In, v)
            } else if 0 <= q < ts.len() && ts[q].0 is Not {
                if q + 1 < ts.len() && ts[q + 1].0 is In {
                    name_after(ts, q + 2, Opcode::NotIn, v)
                } else {
                    Err(q + 1)
                }
            } else {
                Err(q)
            },
        }
    }
}

/// An `or` chain at token `p`.
pub open spec fn parse_or(ts: Seq<(Tok, int)>, p: int) -> Result<(ExprModel, int), int>
    decreases ts.len() - p, 4nat,
{
    if !(0 <= p <= ts.len()) {
        Err(p)
    } else {
        match parse_and(ts, p) {
            Err(e) => Err(e),
            Ok((l, q)) => if p < q <= ts.len() {
                or_rest(ts, q, l)
            } else {
                Err(q)
            },
        }
    }
}

/// The rest of an `or` chain whose left part, `l`, ends before token `q`.
pub open spec fn or_rest(ts: Seq<(Tok, int)>, q: int, l: ExprModel) -> Result<(ExprModel, int), int>
    decreases ts.len() - q, 5nat,
{
    if 0 <= q < ts.len() && ts[q].0 is Or {
        match parse_and(ts, q + 1) {
            Err(e) => Err(e),
            Ok((r, q2)) => if q < q2 <= ts.len() {
                or_rest(ts, q2, ExprModel::Or(Box::new(l), Box::new(r)))
            } else {
                Err(q2)
            },
        }
    } else {
        Ok((l, q))
    }
}

/// An `and` chain at token `p`.
pub open spec fn parse_and(ts: Seq<(Tok, int)>, p: int) -> Result<(ExprModel, int), int>
    decreases ts.len() - p, 3nat,
{
    if !(0 <= p <= ts.len()) {
        Err(p)
    } else {
        match parse_not(ts, p) {
            Err(e) => Err(e),
            Ok((l, q)) => if p < q <= ts.len() {
                and_rest(ts, q, l)
            } else {
                Err(q)
            },
        }
    }
}

/// The rest of an `and` chain whose left part, `l`, ends before token `q`.
pub open spec fn and_rest(ts: Seq<(Tok, int)>, q: int, l: ExprModel) -> Result<(ExprModel, int), int>
    decreases ts.len() - q, 2nat,
{
    if 0 <= q < ts.len() && ts[q].0 is And {
        match parse_not(ts, q + 1) {
            Err(e) => Err(e),
            Ok((r, q2)) => if q < q2 <= ts.len() {
                and_rest(ts, q2, ExprModel::And(Box::new(l), Box::new(r)))
            } else {
                Err(q2)
            },
        }
    } else {
        Ok((l, q))
    }
}

/// A possibly negated atom at token `p`.
pub open spec fn parse_not(ts: Seq<(Tok, int)>, p: int) -> Result<(ExprModel, int), int>
    decreases ts.len() - p, 1nat,
{
    if !(0 <= p <= ts.len()) {
        Err(p)
    } else if p < ts.len() && ts[p].0 is Not {
        match parse_not(ts, p + 1) {
            Ok((e, q)) => Ok((ExprModel::Not(Box::new(e)), q)),
            Err(e) => Err(e),
        }
    } else {
        parse_atom(ts, p)
    }
}

/// A parenthesised expression or a comparison at token `p`.
pub open spec fn parse_atom(ts: Seq<(Tok, int)>, p: int) -> Result<(ExprModel, int), int>
    decreases ts.len() - p, 0nat,
{
    if !(0 <= p <= ts.len()) {
        Err(p)
    } else if p < ts.len() && ts[p].0 is LParen {
        match parse_or(ts, p + 1) {
            Ok((e, q)) => if 0 <= q < ts.len() && ts[q].0 is RParen {
                Ok((e, q + 1))
            } else {
                Err(q)
            },
            Err(e) => Err(e),
        }
    } else {
        parse_cmp(ts, p)
    }
}

/// The character index of token `k`, or `eof` past the last token.
pub open spec fn position_of(ts: Seq<(Tok, int)>, k: int, eof: int) -> int {
    if 0 <= k < ts.len() {
        ts[k].1
    } else {
        eof
    }
}

/// The expression that the text `cs` writes, or the character index at which it fails.
pub open spec fn query_spec(cs: Seq<char>) -> Result<ExprModel, int> {
    match lex_from(cs, 0) {
        Err(p) => Err(p),
        Ok(ts) => match parse_or(ts, 0) {
            Err(k) => Err(position_of(ts, k, cs.len() as int)),
            Ok((m, q)) => if q == ts.len() {
                Ok(m)
            } else {
                Err(position_of(ts, q, cs.len() as int))
            },
        },
    }
}

/// `r` is the outcome that `s` describes, token indices and all.
pub open spec fn agrees(r: Result<(Expr, usize), usize>, s: Result<(ExprModel, int), int>) -> bool {
    match (r, s) {
        (Ok((e, q)), Ok((m, k))) => e.model() == m && q == k,
        (Err(a), Err(b)) => a == b,
        _ => false,
    }
}

fn literal(ts: &Vec<Lexeme>, p: usize) -> (r: Result<(Value, usize), usize>)
    requires
        p <= ts.len(),
    ensures
        match (r, parse_literal(lexemes_model(ts@), p as int)) {
            (Ok((v, q)), Ok((o, k))) => v.model() == o && q == k && q <= ts.len(),
            (Err(a), Err(b)) => a == b,
            _ => false,
        },
{
    let ghost m = lexemes_model(ts@);
    if p >= ts.len() {
        return Err(p);
    }
    match &ts[p].token {
        Token::Int(n) => Ok((Value::Int(*n), p + 1)),
        Token::Str(s) => Ok((Value::Str(s.clone()), p + 1)),
        Token::LBracket => {
            if p + 1 < ts.len() && matches!(ts[p + 1].token, Token::RBracket) {
                let v: Vec<u64> = Vec::new();
                proof {
                    assert(Set::new(|x: u64| v@.contains(x)) =~= Set::<u64>::empty());
                }
                return Ok((Value::Vec(v), p + 2));
            }
            let mut items: Vec<u64> = Vec::new();
            let mut q: usize = p + 1;
            loop
                invariant
                    p + 1 <= q <= ts.len() + 1,
                    m == lexemes_model(ts@),
                    list_tail(m, p + 1) == match list_tail(m, q as int) {
                        Ok((rest, r)) => Ok((items@ + rest, r)),
                        Err(e) => Err::<(Seq<u64>, int), int>(e),
                    },
                    parse_literal(m, p as int) == match list_tail(m, p + 1) {
                        Ok((xs, r)) => Ok((Operand::Ints(Set::new(|x: u64| xs.contains(x))), r)),
                        Err(e) => Err::<(Operand, int), int>(e),
                    },
                decreases ts.len() + 1 - q,
            {
                if q >= ts.len() {
                    return Err(q);
                }
                let n = match &ts[q].token {
                    Token::Int(n) => *n,
                    _ => return Err(q),
                };
                if q + 1 < ts.len() && matches!(ts[q + 1].token, Token::Comma) {
                    let ghost before = items@;
                    items.push(n);
                    proof {
                        match list_tail(m, q + 2) {
                            Ok((rest, r)) => {
                                assert(items@ + rest =~= before + (seq![n] + rest));
                            },
                            Err(_) => {},
                        }
                    }
                    q = q + 2;
                } else if q + 1 < ts.len() && matches!(ts[q + 1].token, Token::RBracket) {
                    let ghost before = items@;
                    items.push(n);
                    proof {
                        assert(items@ =~= before + seq![n]);
                    }
                    return Ok((Value::Vec(items), q + 2));
                } else {
                    return Err(q + 1);
                }
            }
        },
        _ => Err(p),
    }
}

fn name_then(ts: &Vec<Lexeme>, q: usize, op: Opcode, v: Value) -> (r: Result<(Expr, usize), usize>)
    requires
        q <= ts.len(),
    ensures
        agrees(r, name_after(lexemes_model(ts@), q as int, op, v.model())),
        r matches Ok((_, k)) ==> k <= ts.len(),
{
    if q < ts.len() {
        match ts[q].token {
            Token::Name(f) => {
                return Ok((Expr::Op(f, op, v), q + 1));
            },
            _ => {},
        }
    }
    Err(q)
}

fn comparison(ts: &Vec<Lexeme>, p: usize) -> (r: Result<(Expr, usize), usize>)
    requires
        p <= ts.len(),
    ensures
        agrees(r, parse_cmp(lexemes_model(ts@), p as int)),
        r matches Ok((_, k)) ==> k <= ts.len(),
{
    if p < ts.len() {
        match ts[p].token {
            Token::Name(f) => {
                if p + 1 < ts.len() {
                    match ts[p + 1].token {
                        Token::Cmp(op) => {
                            return match literal(ts, p + 2) {
                                Ok((v, q)) => Ok((Expr::Op(f, op, v), q)),
                                Err(e) => Err(e),
                            };
                        },
                        _ => {},
                    }
                }
                return Err(p + 1);
            },
            _ => {},
        }
    }
    let (v, q) = match literal(ts, p) {
        Ok(x) => x,
        Err(e) => return Err(e),
    };
    if q < ts.len() && matches!(ts[q].token, Token::In) {
        name_then(ts, q + 1, Opcode::In, v)
    } else if q < ts.len() && matches!(ts[q].token, Token::Not) {
        if q + 1 < ts.len() && matches!(ts[q + 1].token, Token::In) {
            name_then(ts, q + 2, Opcode::NotIn, v)
        } else {
            Err(q + 1)
        }
    } else {
        Err(q)
    }
}

fn or_expr(ts: &Vec<Lexeme>, p: usize) -> (r: Result<(Expr, usize), usize>)
    requires
        p <= ts.len(),
    ensures
        agrees(r, parse_or(lexemes_model(ts@), p as int)),
        r matches Ok((_, k)) ==> k <= ts.len(),
    decreases ts.len() - p, 4nat,
{
    match and_expr(ts, p) {
        Err(e) => Err(e),
        Ok((l, q)) => if p < q && q <= ts.len() {
            or_tail(ts, q, l)
        } else {
            Err(q)
        },
    }
}

fn or_tail(ts: &Vec<Lexeme>, q: usize, l: Expr) -> (r: Result<(Expr, usize), usize>)
    requires
        q <= ts.len(),
    ensures
        agrees(r, or_rest(lexemes_model(ts@), q as int, l.model())),
        r matches Ok((_, k)) ==> k <= ts.len(),
    decreases ts.len() - q, 5nat,
{
    if q < ts.len() && matches!(ts[q].token, Token::Or) {
        match and_expr(ts, q + 1) {
            Err(e) => Err(e),
            Ok((r, q2)) => if q < q2 && q2 <= ts.len() {
                let e = Expr::Or(Box::new(l), Box::new(r));
                or_tail(ts, q2, e)
            } else {
                Err(q2)
            },
        }
    } else {
        Ok((l, q))
    }
}

fn and_expr(ts: &Vec<Lexeme>, p: usize) -> (r: Result<(Expr, usize), usize>)
    requires
        p <= ts.len(),
    ensures
        agrees(r, parse_and(lexemes_model(ts@), p as int)),
        r matches Ok((_, k)) ==> k <= ts.len(),
    decreases ts.len() - p, 3nat,
{
    match not_expr(ts, p) {
        Err(e) => Err(e),
        Ok((l, q)) => if p < q && q <= ts.len() {
            and_tail(ts, q, l)
        } else {
            Err(q)
        },
    }
}

fn and_tail(ts: &Vec<Lexeme>, q: usize, l: Expr) -> (r: Result<(Expr, usize), usize>)
    requires
        q <= ts.len(),
    ensures
        agrees(r, and_rest(lexemes_model(ts@), q as int, l.model())),
        r matches Ok((_, k)) ==> k <= ts.len(),
    decreases ts.len() - q, 2nat,
{
    if q < ts.len() && matches!(ts[q].token, Token::And) {
        match not_expr(ts, q + 1) {
            Err(e) => Err(e),
            Ok((r, q2)) => if q < q2 && q2 <= ts.len() {
                let e = Expr::And(Box::new(l), Box::new(r));
                and_tail(ts, q2, e)
            } else {
                Err(q2)
            },
        }
    } else {
        Ok((l, q))
    }
}

fn not_expr(ts: &Vec<Lexeme>, p: usize) -> (r: Result<(Expr, usize), usize>)
    requires
        p <= ts.len(),
    ensures
        agrees(r, parse_not(lexemes_model(ts@), p as int)),
        r matches Ok((_, k)) ==> k <= ts.len(),
    decreases ts.len() - p, 1nat,
{
    if p < ts.len() && matches!(ts[p].token, Token::Not) {
        match not_expr(ts, p + 1) {
            Ok((e, q)) => Ok((Expr::Not(Box::new(e)), q)),
            Err(e) => Err(e),
        }
    } else {
        atom(ts, p)
    }
}

fn atom(ts: &Vec<Lexeme>, p: usize) -> (r: Result<(Expr, usize), usize>)
    requires
        p <= ts.len(),
    ensures
        agrees(r, parse_atom(lexemes_model(ts@), p as int)),
        r matches Ok((_, k)) ==> k <= ts.len(),
    decreases ts.len() - p, 0nat,
{
    if p < ts.len() && matches!(ts[p].token, Token::LParen) {
        match or_expr(ts, p + 1) {
            Ok((e, q)) => if q < ts.len() && matches!(ts[q].token, Token::RParen) {
                Ok((e, q + 1))
            } else {
                Err(q)
            },
            Err(e) => Err(e),
        }
    } else {
        comparison(ts, p)
    }
}

/// Parses a filter expression. On failure, the error holds the index of the character where
/// the text stops making sense, or the text's length where it ends too early.
pub fn parse_query(text: &str) -> (r: Result<Expr, ParseError>)
    ensures
        match (r, query_spec(text@)) {
            (Ok(e), Ok(m)) => e.model() == m,
            (Err(e), Err(p)) => e.position == p,
            _ => false,
        },
{
    let eof = chars_of(text).len();
    let ts = match tokenize(text) {
        Ok(ts) => ts,
        Err(e) => return Err(e),
    };
    let ghost m = lexemes_model(ts@);
    match or_expr(&ts, 0) {
        Ok((e, q)) => if q == ts.len() {
            Ok(e)
        } else {
            Err(ParseError { position: ts[q].at })
        },
        Err(k) => if k < ts.len() {
            Err(ParseError { position: ts[k].at })
        } else {
            Err(ParseError { position: eof })
        },
    }
}

} // verus!
