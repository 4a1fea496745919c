use gdpr_consent::{parse_query, tokenize, ConsentString, Expr, Field, Opcode, Token, Value};

fn sample() -> ConsentString {
    ConsentString::parse("BOEFEAyOEFEAyAHABDENAI4AAAB9vABAASA").unwrap()
}

fn run(q: &str) -> bool {
    parse_query(q).unwrap().eval(&sample()).unwrap()
}

#[test]
fn query_integer_comparison() {
    assert!(run("cmp_id == 7"));
    assert!(!run("cmp_id != 7"));
    assert!(!run("version >= 2"));
    assert!(run("max_vendor_id > 2010"));
    assert!(run("created <= 15100821554"));
    assert!(!run("last_updated < 15100821554"));
}

#[test]
fn query_set_membership() {
    assert!(run("1 in purposes"));
    assert!(!run("4 in purposes"));
    assert!(run("9 not in consents"));
    assert!(run("10 in consents"));
}

#[test]
fn query_composition() {
    assert!(run("version == 1 and (1 in purposes or 4 in purposes) and not (9 in consents)"));
}

#[test]
fn query_string_comparison() {
    assert!(run("consent_language == \"en\""));
    assert!(!run("consent_language != \"en\""));
}

#[test]
fn precedence_not_and_or() {
    // not binds tighter than and, which binds tighter than or
    match parse_query("not version == 1 or cmp_id == 7 and version == 2").unwrap() {
        Expr::Or(l, r) => {
            assert!(matches!(*l, Expr::Not(_)));
            assert!(matches!(*r, Expr::And(_, _)));
        }
        _ => panic!("expected an or at the top"),
    }
    assert!(!run("not version == 1 or cmp_id == 7 and version == 2"));
    assert!(run("not version == 2 or cmp_id == 8 and version == 2"));
}

#[test]
fn parse_builds_the_comparison() {
    match parse_query("cmp_id >= 12").unwrap() {
        Expr::Op(Field::CmpId, Opcode::Ge, Value::Int(12)) => {}
        other => panic!("unexpected {:?}", other),
    }
    match parse_query("[1, 2, 3] in consents").unwrap() {
        Expr::Op(Field::Consents, Opcode::In, Value::Vec(v)) => assert_eq!(v, vec![1, 2, 3]),
        other => panic!("unexpected {:?}", other),
    }
    match parse_query("[] not in purposes").unwrap() {
        Expr::Op(Field::Purposes, Opcode::NotIn, Value::Vec(v)) => assert!(v.is_empty()),
        other => panic!("unexpected {:?}", other),
    }
}

#[test]
fn parse_errors_carry_positions() {
    assert_eq!(parse_query("cmp_id == ").unwrap_err().position, 10);
    assert_eq!(parse_query("cmp_id = 7").unwrap_err().position, 7);
    assert_eq!(parse_query("colour == 7").unwrap_err().position, 0);
    assert_eq!(parse_query("cmp_id == 7 7").unwrap_err().position, 12);
    assert_eq!(parse_query("(cmp_id == 7").unwrap_err().position, 12);
    assert_eq!(parse_query("1 not purposes").unwrap_err().position, 6);
    assert_eq!(parse_query("consent_language == \"en").unwrap_err().position, 20);
    assert_eq!(parse_query("cmp_id == 99999999999999999999").unwrap_err().position, 10);
    assert_eq!(parse_query("").unwrap_err().position, 0);
}

#[test]
fn tokenize_reads_each_token() {
    let ts = tokenize("(max_vendor_id<=18446744073709551615)!=\"x y\"").unwrap();
    let ats: Vec<usize> = ts.iter().map(|l| l.at).collect();
    assert_eq!(ats, vec![0, 1, 14, 16, 36, 37, 39]);
    assert!(matches!(ts[2].token, Token::Cmp(Opcode::Le)));
    assert!(matches!(ts[3].token, Token::Int(u64::MAX)));
    match &ts[6].token {
        Token::Str(s) => assert_eq!(s, "x y"),
        other => panic!("unexpected {:?}", other),
    }
}
