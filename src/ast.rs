//! Filter expressions over decoded consent strings, and their evaluation.

use crate::consent::{ConsentString, Purpose};
use vstd::prelude::*;

verus! {

/// A field of a consent string that an expression can look at.
#[derive(Debug, Clone, Copy, PartialEq, Eq, Structural)]
pub enum Field {
    Version,
    Created,
    LastUpdated,
    CmpId,
    CmpVersion,
    ConsentScreen,
    ConsentLanguage,
    VendorListVersion,
    Purposes,
    MaxVendorId,
    Consents,
}

/// A filter expression.
#[derive(Debug)]
pub enum Expr {
    And(Box<Expr>, Box<Expr>),
    Or(Box<Expr>, Box<Expr>),
    Op(Field, Opcode, Value),
    Not(Box<Expr>),
}

/// A comparison between a field and a value.
#[derive(Debug, Clone, Copy, PartialEq, Eq, Structural)]
pub enum Opcode {
    Gt,
    Ge,
    Lt,
    Le,
    Eq,
    Ne,
    In,
    NotIn,
}

/// A value that a field yields or that an expression compares with.
#[derive(Debug, Clone)]
pub enum Value {
    Int(u64),
    Str(String),
    Vec(Vec<u64>),
}

/// An evaluation failure.
#[derive(Debug, Clone, Copy, PartialEq, Eq, Structural)]
pub enum QueryError {
    /// The opcode does not apply to the kinds of its two operands.
    TypeMismatch,
}

/// The meaning of a value: an integer, a string, or a set of integers.
pub ghost enum Operand {
    Int(u64),
    Str(Seq<char>),
    Ints(Set<u64>),
}

/// The meaning of an expression.
pub ghost enum ExprModel {
    And(Box<ExprModel>, Box<ExprModel>),
    Or(Box<ExprModel>, Box<ExprModel>),
    Op(Field, Opcode, Operand),
    Not(Box<ExprModel>),
}

impl Expr {
    /// What the expression stands for.
    pub open spec fn model(&self) -> ExprModel
        decreases self,
    {
        match self {
            Expr::And(l, r) => ExprModel::And(Box::new(l.model()), Box::new(r.model())),
            Expr::Or(l, r) => ExprModel::Or(Box::new(l.model()), Box::new(r.model())),
            Expr::Op(f, o, v) => ExprModel::Op(*f, *o, v.model()),
            Expr::Not(e) => ExprModel::Not(Box::new(e.model())),
        }
    }
}

impl Value {
    /// What the value stands for; a vector stands for the set of its elements.
    pub open spec fn model(&self) -> Operand {
        match self {
            Value::Int(n) => Operand::Int(*n),
            Value::Str(s) => Operand::Str(s@),
            Value::Vec(v) => Operand::Ints(Set::new(|x: u64| v@.contains(x))),
        }
    }
}

/// The purposes allowed in `cs`, among the five that are named.
pub open spec fn named_purposes(cs: ConsentString) -> Set<u64> {
    Set::new(|p: u64| 1 <= p <= 5 && cs.purposes_allowed@.contains(p as nat))
}

/// The vendor IDs that `cs` grants consent to; index 0 stands for no vendor.
pub open spec fn granted_vendors(cs: ConsentString) -> Set<u64> {
    Set::new(|i: u64| 1 <= i < cs.vendor_consents.len() && cs.vendor_consents@[i as int])
}

/// Vendor ID 0 is never among the granted vendors.
pub proof fn lemma_vendor_zero_never_granted(cs: ConsentString)
    ensures
        !granted_vendors(cs).contains(0),
{
}

/// What field `f` of `cs` yields.
pub open spec fn field_value(f: Field, cs: ConsentString) -> Operand {
    match f {
        Field::Version => Operand::Int(cs.version as u64),
        Field::Created => Operand::Int(cs.created.deciseconds),
        Field::LastUpdated => Operand::Int(cs.last_updated.deciseconds),
        Field::CmpId => Operand::Int(cs.cmp_id as u64),
        Field::CmpVersion => Operand::Int(cs.cmp_version as u64),
        Field::ConsentScreen => Operand::Int(cs.consent_screen as u64),
        Field::ConsentLanguage => Operand::Str(cs.consent_language@),
        Field::VendorListVersion => Operand::Int(cs.vendor_list_version as u64),
        Field::Purposes => Operand::Ints(named_purposes(cs)),
        Field::MaxVendorId => Operand::Int(cs.max_vendor_id as u64),
        Field::Consents => Operand::Ints(granted_vendors(cs)),
    }
}

/// The outcome of comparing `l` with `r` under `op`.
pub open spec fn check_spec(op: Opcode, l: Operand, r: Operand) -> Result<bool, QueryError> {
    match (l, r) {
        (Operand::Int(a), Operand::Int(b)) => match op {
            Opcode::Gt => Ok(a > b),
            Opcode::Ge => Ok(a >= b),
            Opcode::Lt => Ok(a < b),
            Opcode::Le => Ok(a <= b),
            Opcode::Eq => Ok(a == b),
            Opcode::Ne => Ok(a != b),
            _ => Err(QueryError::TypeMismatch),
        },
        (Operand::Ints(a), Operand::Int(b)) => match op {
            Opcode::In => Ok(a.contains(b)),
            Opcode::NotIn => Ok(!a.contains(b)),
            _ => Err(QueryError::TypeMismatch),
        },
        (Operand::Str(a), Operand::Str(b)) => match op {
            Opcode::Eq => Ok(a == b),
            Opcode::Ne => Ok(a != b),
            _ => Err(QueryError::TypeMismatch),
        },
        _ => Err(QueryError::TypeMismatch),
    }
}

/// The outcome of evaluating `e` against `cs`; `and` and `or` look at their right side only
/// where the left does not settle the result.
pub open spec fn eval_spec(e: Expr, cs: ConsentString) -> Result<bool, QueryError>
    decreases e,
{
    match e {
        Expr::And(l, r) => match eval_spec(*l, cs) {
            Ok(true) => eval_spec(*r, cs),
            other => other,
        },
        Expr::Or(l, r) => match eval_spec(*l, cs) {
            Ok(false) => eval_spec(*r, cs),
            other => other,
        },
        Expr::Op(f, op, v) => check_spec(op, field_value(f, cs), v.model()),
        Expr::Not(x) => match eval_spec(*x, cs) {
            Ok(b) => Ok(!b),
            Err(err) => Err(err),
        },
    }
}

/// Negating an expression twice gives back its outcome.
pub proof fn lemma_double_negation(e: Expr, cs: ConsentString)
    ensures
        eval_spec(Expr::Not(Box::new(Expr::Not(Box::new(e)))), cs) == eval_spec(e, cs),
{
    reveal_with_fuel(eval_spec, 3);
}

/// `e and (a or b)` has the outcome of `(e and a) or (e and b)`.
pub proof fn lemma_and_distributes_over_or(e: Expr, a: Expr, b: Expr, cs: ConsentString)
    ensures
        eval_spec(
            Expr::And(Box::new(e), Box::new(Expr::Or(Box::new(a), Box::new(b)))),
            cs,
        ) == eval_spec(
            Expr::Or(
                Box::new(Expr::And(Box::new(e), Box::new(a))),
                Box::new(Expr::And(Box::new(e), Box::new(b))),
            ),
            cs,
        ),
{
    reveal_with_fuel(eval_spec, 3);
}

/// Each element of `s` is smaller than the next.
pub open spec fn ascending_u64(s: Seq<u64>) -> bool {
    forall|i: int, j: int| 0 <= i < j < s.len() ==> s[i] < s[j]
}

/// After a push, a sequence holds what it held before and the pushed element.
pub proof fn lemma_push_contains<T>(s: Seq<T>, k: T)
    ensures
        forall|x: T| #[trigger] s.push(k).contains(x) <==> (s.contains(x) || x == k),
{
    assert forall|x: T| #[trigger] s.push(k).contains(x) implies (s.contains(x) || x == k) by {
        let j = choose|j: int| 0 <= j < s.len() + 1 && s.push(k)[j] == x;
        if j < s.len() {
            assert(s[j] == x);
        }
    }
    assert forall|x: T| (s.contains(x) || x == k) implies #[trigger] s.push(k).contains(x) by {
        if s.contains(x) {
            let j = choose|j: int| 0 <= j < s.len() && s[j] == x;
            assert(s.push(k)[j] == x);
        } else {
            assert(s.push(k)[s.len() as int] == x);
        }
    }
}

impl Expr {
    /// Evaluates the expression against a consent string.
    pub fn eval(&self, gdpr: &ConsentString) -> (r: Result<bool, QueryError>)
        ensures
            r == eval_spec(*self, *gdpr),
        decreases self,
    {
        match self {
            Expr::And(left, right) => match left.eval(gdpr) {
                Ok(true) => right.eval(gdpr),
                other => other,
            },
            Expr::Or(left, right) => match left.eval(gdpr) {
                Ok(false) => right.eval(gdpr),
                other => other,
            },
            Expr::Op(field, opcode, val) => opcode.check(field.get(gdpr), val),
            Expr::Not(expr) => match expr.eval(gdpr) {
                Ok(b) => Ok(!b),
                Err(e) => Err(e),
            },
        }
    }
}

/// Relies on `String::push`: the character is appended.
#[verifier::external_body]
pub(crate) fn push_char(s: &mut String, c: char)
    ensures
        final(s)@ == old(s)@.push(c),
{
    s.push(c)
}

impl Field {
    /// The value that this field of `gdpr` yields.
    pub fn get(&self, gdpr: &ConsentString) -> (r: Value)
        ensures
            r.model() == field_value(*self, *gdpr),
            *self == Field::Purposes || *self == Field::Consents ==> (r matches Value::Vec(v)
                && ascending_u64(v@)),
    {
        match self {
            Field::Version => Value::Int(gdpr.version as u64),
            Field::Created => Value::Int(gdpr.created.deciseconds),
            Field::LastUpdated => Value::Int(gdpr.last_updated.deciseconds),
            Field::CmpId => Value::Int(gdpr.cmp_id as u64),
            Field::CmpVersion => Value::Int(gdpr.cmp_version as u64),
            Field::ConsentScreen => Value::Int(gdpr.consent_screen as u64),
            Field::ConsentLanguage => {
                let mut s = String::new();
                push_char(&mut s, gdpr.consent_language[0]);
                push_char(&mut s, gdpr.consent_language[1]);
                proof {
                    assert(s@ =~= gdpr.consent_language@);
                }
                Value::Str(s)
            },
            Field::VendorListVersion => Value::Int(gdpr.vendor_list_version as u64),
            Field::Purposes => {
                let mut rv: Vec<u64> = Vec::new();
                let mut k: u8 = 1;
                while k <= 5
                    invariant
                        1 <= k <= 6,
                        ascending_u64(rv@),
                        forall|j: int| 0 <= j < rv@.len() ==> rv@[j] < k,
                        forall|x: u64|
                            #![trigger rv@.contains(x)]
                            rv@.contains(x) <==> (x < k && named_purposes(*gdpr).contains(x)),
                    decreases 6 - k,
                {
                    if gdpr.purposes_allowed.contains(Purpose::from_number(k)) {
                        proof {
                            lemma_push_contains(rv@, k as u64);
                        }
                        rv.push(k as u64);
                    }
                    k = k + 1;
                }
                proof {
                    assert(Set::new(|x: u64| rv@.contains(x)) =~= named_purposes(*gdpr));
                }
                Value::Vec(rv)
            },
            Field::MaxVendorId => Value::Int(gdpr.max_vendor_id as u64),
            Field::Consents => {
                let v = &gdpr.vendor_consents;
                let mut rv: Vec<u64> = Vec::new();
                let mut i: usize = 1;
                while i < v.len()
                    invariant
                        1 <= i <= v.len() || v.len() == 0,
                        ascending_u64(rv@),
                        forall|j: int| 0 <= j < rv@.len() ==> rv@[j] < i,
                        forall|x: u64|
                            #![trigger rv@.contains(x)]
                            rv@.contains(x) <==> (1 <= x < i && x < v.len() && v@[x as int]),
                    decreases v.len() - i,
                {
                    if v[i] {
                        proof {
                            lemma_push_contains(rv@, i as u64);
                        }
                        rv.push(i as u64);
                    }
                    i = i + 1;
                }
                proof {
                    assert(Set::new(|x: u64| rv@.contains(x)) =~= granted_vendors(*gdpr));
                }
                Value::Vec(rv)
            },
        }
    }
}

impl Opcode {
    /// Compares `l` with `r`; fails where the opcode does not apply to the kinds of the two.
    pub fn check(&self, l: Value, r: &Value) -> (res: Result<bool, QueryError>)
        ensures
            res == check_spec(*self, l.model(), r.model()),
    {
        match l {
            Value::Int(a) => match r {
                Value::Int(b) => match self {
                    Opcode::Gt => Ok(a > *b),
                    Opcode::Ge => Ok(a >= *b),
                    Opcode::Lt => Ok(a < *b),
                    Opcode::Le => Ok(a <= *b),
                    Opcode::Eq => Ok(a == *b),
                    Opcode::Ne => Ok(a != *b),
                    _ => Err(QueryError::TypeMismatch),
                },
                _ => Err(QueryError::TypeMismatch),
            },
            Value::Vec(v) => match r {
                Value::Int(b) => match self {
                    Opcode::In => Ok(holds(&v, *b)),
                    Opcode::NotIn => Ok(!holds(&v, *b)),
                    _ => Err(QueryError::TypeMismatch),
                },
                _ => Err(QueryError::TypeMismatch),
            },
            Value::Str(a) => match r {
                Value::Str(b) => match self {
                    Opcode::Eq => Ok(a == *b),
                    Opcode::Ne => Ok(!(a == *b)),
                    _ => Err(QueryError::TypeMismatch),
                },
                _ => Err(QueryError::TypeMismatch),
            },
        }
    }
}

/// Whether `v` holds `x`.
fn holds(v: &Vec<u64>, x: u64) -> (r: bool)
    ensures
        r == v@.contains(x),
{
    let mut i: usize = 0;
    while i < v.len()
        invariant
            i <= v.len(),
            forall|j: int| 0 <= j < i ==> v@[j] != x,
        decreases v.len() - i,
    {
        if v[i] == x {
            return true;
        }
        i = i + 1;
    }
    false
}

} // verus!
