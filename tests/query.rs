use gdpr_consent::{ConsentString, Expr, Field, Opcode, QueryError, Value};

fn sample() -> ConsentString {
    ConsentString::parse("BOEFEAyOEFEAyAHABDENAI4AAAB9vABAASA").unwrap()
}

fn op(f: Field, o: Opcode, v: Value) -> Expr {
    Expr::Op(f, o, v)
}

fn and(l: Expr, r: Expr) -> Expr {
    Expr::And(Box::new(l), Box::new(r))
}

fn or(l: Expr, r: Expr) -> Expr {
    Expr::Or(Box::new(l), Box::new(r))
}

fn not(e: Expr) -> Expr {
    Expr::Not(Box::new(e))
}

#[test]
fn integer_comparisons() {
    let cs = sample();
    assert_eq!(op(Field::CmpId, Opcode::Eq, Value::Int(7)).eval(&cs), Ok(true));
    assert_eq!(op(Field::CmpId, Opcode::Ne, Value::Int(7)).eval(&cs), Ok(false));
    assert_eq!(op(Field::Version, Opcode::Ge, Value::Int(2)).eval(&cs), Ok(false));
    assert_eq!(op(Field::MaxVendorId, Opcode::Gt, Value::Int(2010)).eval(&cs), Ok(true));
    assert_eq!(op(Field::MaxVendorId, Opcode::Lt, Value::Int(2011)).eval(&cs), Ok(false));
    assert_eq!(op(Field::ConsentScreen, Opcode::Le, Value::Int(3)).eval(&cs), Ok(true));
    assert_eq!(op(Field::Created, Opcode::Eq, Value::Int(15100821554)).eval(&cs), Ok(true));
    assert_eq!(op(Field::LastUpdated, Opcode::Lt, Value::Int(15100821554)).eval(&cs), Ok(false));
    assert_eq!(op(Field::CmpVersion, Opcode::Eq, Value::Int(1)).eval(&cs), Ok(true));
    assert_eq!(op(Field::VendorListVersion, Opcode::Eq, Value::Int(8)).eval(&cs), Ok(true));
}

#[test]
fn set_membership() {
    let cs = sample();
    assert_eq!(op(Field::Purposes, Opcode::In, Value::Int(1)).eval(&cs), Ok(true));
    assert_eq!(op(Field::Purposes, Opcode::In, Value::Int(4)).eval(&cs), Ok(false));
    assert_eq!(op(Field::Consents, Opcode::NotIn, Value::Int(9)).eval(&cs), Ok(true));
    assert_eq!(op(Field::Consents, Opcode::In, Value::Int(10)).eval(&cs), Ok(true));
    assert_eq!(op(Field::Consents, Opcode::In, Value::Int(0)).eval(&cs), Ok(false));
    assert_eq!(op(Field::Consents, Opcode::In, Value::Int(2011)).eval(&cs), Ok(true));
    assert_eq!(op(Field::Consents, Opcode::In, Value::Int(2012)).eval(&cs), Ok(false));
}

#[test]
fn string_comparison() {
    let cs = sample();
    let en = Value::Str("en".to_string());
    assert_eq!(op(Field::ConsentLanguage, Opcode::Eq, en.clone()).eval(&cs), Ok(true));
    assert_eq!(op(Field::ConsentLanguage, Opcode::Ne, en).eval(&cs), Ok(false));
    let fr = Value::Str("fr".to_string());
    assert_eq!(op(Field::ConsentLanguage, Opcode::Eq, fr).eval(&cs), Ok(false));
}

#[test]
fn composition() {
    let cs = sample();
    let e = and(
        and(
            op(Field::Version, Opcode::Eq, Value::Int(1)),
            or(
                op(Field::Purposes, Opcode::In, Value::Int(1)),
                op(Field::Purposes, Opcode::In, Value::Int(4)),
            ),
        ),
        not(op(Field::Consents, Opcode::In, Value::Int(9))),
    );
    assert_eq!(e.eval(&cs), Ok(true));
}

#[test]
fn double_negation_and_distribution() {
    let cs = sample();
    let e = || op(Field::CmpId, Opcode::Eq, Value::Int(7));
    let a = || op(Field::Purposes, Opcode::In, Value::Int(4));
    let b = || op(Field::Consents, Opcode::In, Value::Int(10));
    assert_eq!(not(not(e())).eval(&cs), e().eval(&cs));
    assert_eq!(
        and(e(), or(a(), b())).eval(&cs),
        or(and(e(), a()), and(e(), b())).eval(&cs)
    );
}

#[test]
fn type_mismatches_are_errors() {
    let cs = sample();
    assert_eq!(
        op(Field::CmpId, Opcode::In, Value::Int(7)).eval(&cs),
        Err(QueryError::TypeMismatch)
    );
    assert_eq!(
        op(Field::Purposes, Opcode::Eq, Value::Int(1)).eval(&cs),
        Err(QueryError::TypeMismatch)
    );
    assert_eq!(
        op(Field::ConsentLanguage, Opcode::Gt, Value::Str("en".to_string())).eval(&cs),
        Err(QueryError::TypeMismatch)
    );
    assert_eq!(
        op(Field::CmpId, Opcode::Eq, Value::Str("7".to_string())).eval(&cs),
        Err(QueryError::TypeMismatch)
    );
    assert_eq!(
        not(op(Field::Consents, Opcode::In, Value::Vec(vec![1]))).eval(&cs),
        Err(QueryError::TypeMismatch)
    );
}

#[test]
fn short_circuit_skips_right_side() {
    let cs = sample();
    let bad = || op(Field::CmpId, Opcode::In, Value::Int(7));
    let no = op(Field::CmpId, Opcode::Eq, Value::Int(8));
    let yes = op(Field::CmpId, Opcode::Eq, Value::Int(7));
    assert_eq!(and(no, bad()).eval(&cs), Ok(false));
    assert_eq!(or(yes, bad()).eval(&cs), Ok(true));
}

#[test]
fn field_values() {
    let cs = sample();
    match Field::Purposes.get(&cs) {
        Value::Vec(v) => assert_eq!(v, vec![1, 2, 3]),
        _ => panic!("purposes should be a vector"),
    }
    match Field::ConsentLanguage.get(&cs) {
        Value::Str(s) => assert_eq!(s, "en"),
        _ => panic!("language should be a string"),
    }
    match Field::Consents.get(&cs) {
        Value::Vec(v) => {
            assert_eq!(v.len(), 2010);
            assert_eq!(v[v.len() - 1], 2011);
            assert_eq!(v[0], 1);
            assert!(!v.contains(&9));
            assert!(!v.contains(&0));
        }
        _ => panic!("consents should be a vector"),
    }
    assert!(Opcode::In.check(Value::Vec(vec![3, 4]), &Value::Int(4)).unwrap());
}
