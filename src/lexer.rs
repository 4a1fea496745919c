//! The tokens of the filter language, and the lexer that produces them from text.

use crate::ast::{push_char, Field, Opcode};
use crate::consent::chars_of;
use vstd::arithmetic::power2::pow2;
use vstd::prelude::*;

verus! {

/// A token of the filter language.
#[derive(Debug, Clone)]
pub enum Token {
    Int(u64),
    Str(String),
    LParen,
    RParen,
    LBracket,
    RBracket,
    Comma,
    Cmp(Opcode),
    And,
    Or,
    Not,
    In,
    Name(Field),
}

/// What a token stands for.
pub ghost enum Tok {
    Int(u64),
    Str(Seq<char>),
    LParen,
    RParen,
    LBracket,
    RBracket,
    Comma,
    Cmp(Opcode),
    And,
    Or,
    Not,
    In,
    Name(Field),
}

impl Token {
    pub open spec fn model(&self) -> Tok {
        match self {
            Token::Int(n) => Tok::Int(*n),
            Token::Str(s) => Tok::Str(s@),
            Token::LParen => Tok::LParen,
            Token::RParen => Tok::RParen,
            Token::LBracket => Tok::LBracket,
            Token::RBracket => Tok::RBracket,
            Token::Comma => Tok::Comma,
            Token::Cmp(o) => Tok::Cmp(*o),
            Token::And => Tok::And,
            Token::Or => Tok::Or,
            Token::Not => Tok::Not,
            Token::In => Tok::In,
            Token::Name(f) => Tok::Name(*f),
        }
    }
}

/// A token and the index of the character it starts at.
#[derive(Debug, Clone)]
pub struct Lexeme {
    pub token: Token,
    pub at: usize,
}

/// The tokens of `v`, each with its position.
pub open spec fn lexemes_model(v: Seq<Lexeme>) -> Seq<(Tok, int)> {
    Seq::new(v.len(), |i: int| (v[i].token.model(), v[i].at as int))
}

/// A failure to read a filter expression, at a character index (the text's length for an
/// unexpected end).
#[derive(Debug, Clone, Copy, PartialEq, Eq, Structural)]
pub struct ParseError {
    pub position: usize,
}

pub open spec fn is_space(c: char) -> bool {
    c == ' ' || c == '\t' || c == '\n' || c == '\r'
}

pub open spec fn is_digit(c: char) -> bool {
    48 <= c as u32 <= 57
}

/// A character that may stand in a keyword or a field name.
pub open spec fn is_word_char(c: char) -> bool {
    97 <= c as u32 <= 122 || 65 <= c as u32 <= 90 || is_digit(c) || c == '_'
}

/// The end of the run of word characters that starts at `i`.
pub open spec fn word_end(cs: Seq<char>, i: int) -> int
    decreases cs.len() - i,
{
    if 0 <= i < cs.len() && is_word_char(cs[i]) {
        word_end(cs, i + 1)
    } else {
        i
    }
}

/// The end of the run of digits that starts at `i`.
pub open spec fn number_end(cs: Seq<char>, i: int) -> int
    decreases cs.len() - i,
{
    if 0 <= i < cs.len() && is_digit(cs[i]) {
        number_end(cs, i + 1)
    } else {
        i
    }
}

/// The decimal number written by the digits from `i` up to `j`.
pub open spec fn digits_value(cs: Seq<char>, i: int, j: int) -> nat
    decreases j - i,
{
    if j <= i {
        0
    } else {
        digits_value(cs, i, j - 1) * 10 + (cs[j - 1] as u32 - 48) as nat
    }
}

/// The index of the first `"` at or after `i`, or the text's length where there is none.
pub open spec fn quote_end(cs: Seq<char>, i: int) -> int
    decreases cs.len() - i,
{
    if 0 <= i < cs.len() && cs[i] != '"' {
        quote_end(cs, i + 1)
    } else {
        i
    }
}

/// The token that a word stands for: a keyword or a field name.
pub open spec fn keyword(w: Seq<char>) -> Option<Tok> {
    if w == seq!['a', 'n', 'd'] {
        Some(Tok::And)
    } else if w == seq!['o', 'r'] {
        Some(Tok::Or)
    } else if w == seq!['n', 'o', 't'] {
        Some(Tok::Not)
    } else if w == seq!['i', 'n'] {
        Some(Tok::In)
    } else {
        match field_named(w) {
            Some(f) => Some(Tok::Name(f)),
            None => None,
        }
    }
}

/// The field that a name stands for.
pub open spec fn field_named(w: Seq<char>) -> Option<Field> {
    if w == seq!['v', 'e', 'r', 's', 'i', 'o', 'n'] {
        Some(Field::Version)
    } else if w == seq!['c', 'r', 'e', 'a', 't', 'e', 'd'] {
        Some(Field::Created)
    } else if w == seq!['l', 'a', 's', 't', '_', 'u', 'p', 'd', 'a', 't', 'e', 'd'] {
        Some(Field::LastUpdated)
    } else if w == seq!['c', 'm', 'p', '_', 'i', 'd'] {
        Some(Field::CmpId)
    } else if w == seq!['c', 'm', 'p', '_', 'v', 'e', 'r', 's', 'i', 'o', 'n'] {
        Some(Field::CmpVersion)
    } else if w == seq!['c', 'o', 'n', 's', 'e', 'n', 't', '_', 's', 'c', 'r', 'e', 'e', 'n'] {
        Some(Field::ConsentScreen)
    } else if w == seq![
        'c', 'o', 'n', 's', 'e', 'n', 't', '_', 'l', 'a', 'n', 'g', 'u', 'a', 'g', 'e',
    ] {
        Some(Field::ConsentLanguage)
    } else if w == seq![
        'v', 'e', 'n', 'd', 'o', 'r', '_', 'l', 'i', 's', 't', '_', 'v', 'e', 'r', 's', 'i', 'o', 'n',
    ] {
        Some(Field::VendorListVersion)
    } else if w == seq!['p', 'u', 'r', 'p', 'o', 's', 'e', 's'] {
        Some(Field::Purposes)
    } else if w == seq!['m', 'a', 'x', '_', 'v', 'e', 'n', 'd', 'o', 'r', '_', 'i', 'd'] {
        Some(Field::MaxVendorId)
    } else if w == seq!['c', 'o', 'n', 's', 'e', 'n', 't', 's'] {
        Some(Field::Consents)
    } else {
        None
    }
}

/// The token that starts at `i` (not a space) and the index after it; or the index at which
/// the text cannot be read.
pub open spec fn lex_step(cs: Seq<char>, i: int) -> Result<(Tok, int), int> {
    let c = cs[i];
    let next_is_eq = i + 1 < cs.len() && cs[i + 1] == '=';
    if c == '(' {
        Ok((Tok::LParen, i + 1))
    } else if c == ')' {
        Ok((Tok::RParen, i + 1))
    } else if c == '[' {
        Ok((Tok::LBracket, i + 1))
    } else if c == ']' {
        Ok((Tok::RBracket, i + 1))
    } else if c == ',' {
        Ok((Tok::Comma, i + 1))
    } else if c == '>' {
        if next_is_eq {
            Ok((Tok::Cmp(Opcode::Ge), i + 2))
        } else {
            Ok((Tok::Cmp(Opcode::Gt), i + 1))
        }
    } else if c == '<' {
        if next_is_eq {
            Ok((Tok::Cmp(Opcode::Le), i + 2))
        } else {
            Ok((Tok::Cmp(Opcode::Lt), i + 1))
        }
    } else if c == '=' {
        if next_is_eq {
            Ok((Tok::Cmp(Opcode::Eq), i + 2))
        } else {
            Err(i)
        }
    } else if c == '!' {
        if next_is_eq {
            Ok((Tok::Cmp(Opcode::Ne), i + 2))
        } else {
            Err(i)
        }
    } else if is_digit(c) {
        let j = number_end(cs, i);
        if digits_value(cs, i, j) >= pow2(64) {
            Err(i)
        } else {
            Ok((Tok::Int(digits_value(cs, i, j) as u64), j))
        }
    } else if c == '"' {
        let j = quote_end(cs, i + 1);
        if j >= cs.len() {
            Err(i)
        } else {
            Ok((Tok::Str(cs.subrange(i + 1, j)), j + 1))
        }
    } else if is_word_char(c) {
        let j = word_end(cs, i);
        match keyword(cs.subrange(i, j)) {
            Some(t) => Ok((t, j)),
            None => Err(i),
        }
    } else {
        Err(i)
    }
}

/// The tokens of the text from index `i` on, each with its position; spaces separate tokens.
pub open spec fn lex_from(cs: Seq<char>, i: int) -> Result<Seq<(Tok, int)>, int>
    decreases cs.len() - i,
{
    if i < 0 || i >= cs.len() {
        Ok(Seq::empty())
    } else if is_space(cs[i]) {
        lex_from(cs, i + 1)
    } else {
        match lex_step(cs, i) {
            Err(e) => Err(e),
            Ok((t, j)) => if i < j <= cs.len() {
                match lex_from(cs, j) {
                    Ok(rest) => Ok(seq![(t, i)] + rest),
                    Err(e) => Err(e),
                }
            } else {
                Err(i)
            },
        }
    }
}

fn scan_word(cs: &Vec<char>, i: usize) -> (j: usize)
    requires
        i <= cs.len(),
    ensures
        j == word_end(cs@, i as int),
        i <= j <= cs.len(),
{
    let mut j = i;
    while j < cs.len() && is_word(cs[j])
        invariant
            i <= j <= cs.len(),
            word_end(cs@, i as int) == word_end(cs@, j as int),
        decreases cs.len() - j,
    {
        j = j + 1;
    }
    j
}

fn scan_quote(cs: &Vec<char>, i: usize) -> (j: usize)
    requires
        i <= cs.len(),
    ensures
        j == quote_end(cs@, i as int),
        i <= j <= cs.len(),
{
    let mut j = i;
    while j < cs.len() && cs[j] != '"'
        invariant
            i <= j <= cs.len(),
            quote_end(cs@, i as int) == quote_end(cs@, j as int),
        decreases cs.len() - j,
    {
        j = j + 1;
    }
    j
}

/// Reads the digits from `i`: the index after them, and their value where it fits in 64 bits.
fn scan_number(cs: &Vec<char>, i: usize) -> (r: (Option<u64>, usize))
    requires
        i <= cs.len(),
    ensures
        r.1 == number_end(cs@, i as int),
        i <= r.1 <= cs.len(),
        r.0 == if digits_value(cs@, i as int, r.1 as int) >= pow2(64) {
            None
        } else {
            Some(digits_value(cs@, i as int, r.1 as int) as u64)
        },
{
    proof {
        vstd::arithmetic::power2::lemma2_to64_rest();
    }
    let mut j = i;
    let mut acc: Option<u64> = Some(0);
    while j < cs.len() && is_digit_char(cs[j])
        invariant
            i <= j <= cs.len(),
            number_end(cs@, i as int) == number_end(cs@, j as int),
            pow2(64) == 0x1_0000_0000_0000_0000,
            acc == if digits_value(cs@, i as int, j as int) >= pow2(64) {
                None
            } else {
                Some(digits_value(cs@, i as int, j as int) as u64)
            },
        decreases cs.len() - j,
    {
        let d = (cs[j] as u32 - 48) as u64;
        let ghost prev = digits_value(cs@, i as int, j as int);
        acc = match acc {
            None => None,
            Some(v) => if v > (u64::MAX - d) / 10 {
                proof {
                    assert(v * 10 + d > u64::MAX) by (nonlinear_arith)
                        requires
                            v > (u64::MAX - d) / 10,
                            d <= 9,
                    ;
                }
                None
            } else {
                proof {
                    assert(v * 10 + d <= u64::MAX) by (nonlinear_arith)
                        requires
                            v <= (u64::MAX - d) / 10,
                            d <= 9,
                    ;
                }
                Some(v * 10 + d)
            },
        };
        j = j + 1;
        proof {
            assert(digits_value(cs@, i as int, j as int) == prev * 10 + d);
        }
    }
    (acc, j)
}

fn is_word(c: char) -> (r: bool)
    ensures
        r == is_word_char(c),
{
    let x = c as u32;
    (97 <= x && x <= 122) || (65 <= x && x <= 90) || (48 <= x && x <= 57) || c == '_'
}

fn is_digit_char(c: char) -> (r: bool)
    ensures
        r == is_digit(c),
{
    let x = c as u32;
    48 <= x && x <= 57
}

fn is_space_char(c: char) -> (r: bool)
    ensures
        r == is_space(c),
{
    c == ' ' || c == '\t' || c == '\n' || c == '\r'
}

/// Whether `a` holds the characters of `b`.
fn same_chars(a: &Vec<char>, b: &[char]) -> (r: bool)
    ensures
        r == (a@ == b@),
{
    if a.len() != b.len() {
        return false;
    }
    let mut k: usize = 0;
    while k < a.len()
        invariant
            a.len() == b@.len(),
            k <= a.len(),
            forall|m: int| 0 <= m < k ==> a@[m] == b@[m],
        decreases a.len() - k,
    {
        if a[k] != b[k] {
            return false;
        }
        k = k + 1;
    }
    assert(a@ =~= b@);
    true
}

fn field_of_word(w: &Vec<char>) -> (r: Option<Field>)
    ensures
        r == field_named(w@),
{
    if same_chars(w, &['v', 'e', 'r', 's', 'i', 'o', 'n']) {
        Some(Field::Version)
    } else if same_chars(w, &['c', 'r', 'e', 'a', 't', 'e', 'd']) {
        Some(Field::Created)
    } else if same_chars(w, &['l', 'a', 's', 't', '_', 'u', 'p', 'd', 'a', 't', 'e', 'd']) {
        Some(Field::LastUpdated)
    } else if same_chars(w, &['c', 'm', 'p', '_', 'i', 'd']) {
        Some(Field::CmpId)
    } else if same_chars(w, &['c', 'm', 'p', '_', 'v', 'e', 'r', 's', 'i', 'o', 'n']) {
        Some(Field::CmpVersion)
    } else if same_chars(
        w,
        &['c', 'o', 'n', 's', 'e', 'n', 't', '_', 's', 'c', 'r', 'e', 'e', 'n'],
    ) {
        Some(Field::ConsentScreen)
    } else if same_chars(
        w,
        &['c', 'o', 'n', 's', 'e', 'n', 't', '_', 'l', 'a', 'n', 'g', 'u', 'a', 'g', 'e'],
    ) {
        Some(Field::ConsentLanguage)
    } else if same_chars(
        w,
        &['v', 'e', 'n', 'd', 'o', 'r', '_', 'l', 'i', 's', 't', '_', 'v', 'e', 'r', 's', 'i', 'o', 'n'],
    ) {
        Some(Field::VendorListVersion)
    } else if same_chars(w, &['p', 'u', 'r', 'p', 'o', 's', 'e', 's']) {
        Some(Field::Purposes)
    } else if same_chars(w, &['m', 'a', 'x', '_', 'v', 'e', 'n', 'd', 'o', 'r', '_', 'i', 'd']) {
        Some(Field::MaxVendorId)
    } else if same_chars(w, &['c', 'o', 'n', 's', 'e', 'n', 't', 's']) {
        Some(Field::Consents)
    } else {
        None
    }
}

fn keyword_of(w: &Vec<char>) -> (r: Option<Token>)
    ensures
        match (r, keyword(w@)) {
            (Some(t), Some(u)) => t.model() == u,
            (None, None) => true,
            _ => false,
        },
{
    if same_chars(w, &['a', 'n', 'd']) {
        Some(Token::And)
    } else if same_chars(w, &['o', 'r']) {
        Some(Token::Or)
    } else if same_chars(w, &['n', 'o', 't']) {
        Some(Token::Not)
    } else if same_chars(w, &['i', 'n']) {
        Some(Token::In)
    } else {
        match field_of_word(w) {
            Some(f) => Some(Token::Name(f)),
            None => None,
        }
    }
}

/// Reads the token at `i`, which is not a space.
fn lex_token(cs: &Vec<char>, i: usize) -> (r: Result<(Token, usize), usize>)
    requires
        i < cs.len(),
    ensures
        match (r, lex_step(cs@, i as int)) {
            (Ok((t, j)), Ok((u, k))) => t.model() == u && j == k && j <= cs.len(),
            (Err(a), Err(b)) => a == b,
            _ => false,
        },
{
    let c = cs[i];
    let next_is_eq = i + 1 < cs.len() && cs[i + 1] == '=';
    if c == '(' {
        Ok((Token::LParen, i + 1))
    } else if c == ')' {
        Ok((Token::RParen, i + 1))
    } else if c == '[' {
        Ok((Token::LBracket, i + 1))
    } else if c == ']' {
        Ok((Token::RBracket, i + 1))
    } else if c == ',' {
        Ok((Token::Comma, i + 1))
    } else if c == '>' {
        if next_is_eq {
            Ok((Token::Cmp(Opcode::Ge), i + 2))
        } else {
            Ok((Token::Cmp(Opcode::Gt), i + 1))
        }
    } else if c == '<' {
        if next_is_eq {
            Ok((Token::Cmp(Opcode::Le), i + 2))
        } else {
            Ok((Token::Cmp(Opcode::Lt), i + 1))
        }
    } else if c == '=' {
        if next_is_eq {
            Ok((Token::Cmp(Opcode::Eq), i + 2))
        } else {
            Err(i)
        }
    } else if c == '!' {
        if next_is_eq {
            Ok((Token::Cmp(Opcode::Ne), i + 2))
        } else {
            Err(i)
        }
    } else if is_digit_char(c) {
        let (v, j) = scan_number(cs, i);
        match v {
            Some(n) => Ok((Token::Int(n), j)),
            None => Err(i),
        }
    } else if c == '"' {
        let j = scan_quote(cs, i + 1);
        if j >= cs.len() {
            return Err(i);
        }
        let mut s = String::new();
        let mut k = i + 1;
        while k < j
            invariant
                i + 1 <= k <= j < cs.len(),
                s@ == cs@.subrange(i + 1, k as int),
            decreases j - k,
        {
            push_char(&mut s, cs[k]);
            k = k + 1;
            proof {
                assert(s@ =~= cs@.subrange(i + 1, k as int));
            }
        }
        Ok((Token::Str(s), j + 1))
    } else if is_word(c) {
        let j = scan_word(cs, i);
        let mut w: Vec<char> = Vec::new();
        let mut k = i;
        while k < j
            invariant
                i <= k <= j <= cs.len(),
                w@ == cs@.subrange(i as int, k as int),
            decreases j - k,
        {
            w.push(cs[k]);
            k = k + 1;
            proof {
                assert(w@ =~= cs@.subrange(i as int, k as int));
            }
        }
        match keyword_of(&w) {
            Some(t) => Ok((t, j)),
            None => Err(i),
        }
    } else {
        Err(i)
    }
}

/// Splits a filter expression into tokens; fails at the first character that starts no token.
pub fn tokenize(text: &str) -> (r: Result<Vec<Lexeme>, ParseError>)
    ensures
        match (r, lex_from(text@, 0)) {
            (Ok(v), Ok(ts)) => lexemes_model(v@) == ts,
            (Err(e), Err(p)) => e.position == p,
            _ => false,
        },
{
    let cs = chars_of(text);
    let mut out: Vec<Lexeme> = Vec::new();
    let mut i: usize = 0;
    while i < cs.len()
        invariant
            i <= cs.len(),
            cs@ == text@,
            lex_from(cs@, 0) == match lex_from(cs@, i as int) {
                Ok(rest) => Ok(lexemes_model(out@) + rest),
                Err(e) => Err(e),
            },
        decreases cs.len() - i,
    {
        if is_space_char(cs[i]) {
            i = i + 1;
        } else {
            match lex_token(&cs, i) {
                Ok((t, j)) => {
                    if j <= i {
                        return Err(ParseError { position: i });
                    }
                    let ghost before = out@;
                    out.push(Lexeme { token: t, at: i });
                    proof {
                        assert(lexemes_model(out@) =~= lexemes_model(before) + seq![
                            (t.model(), i as int),
                        ]);
                        match lex_from(cs@, j as int) {
                            Ok(rest) => {
                                assert(lexemes_model(out@) + rest =~= lexemes_model(before) + (
                                seq![(t.model(), i as int)] + rest));
                            },
                            Err(_) => {},
                        }
                    }
                    i = j;
                },
                Err(p) => return Err(ParseError { position: p }),
            }
        }
    }
    proof {
        assert(lexemes_model(out@) + Seq::<(Tok, int)>::empty() =~= lexemes_model(out@));
    }
    Ok(out)
}

} // verus!
