use ritz::condition::{eval_opt, parse, Expr};
use ritz::error::RitzError;

fn lookup_from<'a>(truthy: &'a [&'a str]) -> impl Fn(&str) -> bool + 'a {
    move |name: &str| truthy.contains(&name)
}

fn ev(expr: &str, truthy: &[&str]) -> bool {
    eval_opt(Some(expr), &lookup_from(truthy)).unwrap()
}

#[test]
fn empty_is_true() {
    assert!(eval_opt(None, &lookup_from(&[])).unwrap());
    assert!(eval_opt(Some("   "), &lookup_from(&[])).unwrap());
}

#[test]
fn single_var() {
    assert!(ev("a", &["a"]));
    assert!(!ev("a", &[]));
}

#[test]
fn negation() {
    assert!(ev("!a", &[]));
    assert!(!ev("!a", &["a"]));
    assert!(ev("!!a", &["a"]));
}

#[test]
fn and_or() {
    assert!(ev("a AND b", &["a", "b"]));
    assert!(!ev("a AND b", &["a"]));
    assert!(ev("a OR b", &["a"]));
    assert!(!ev("a OR b", &[]));
}

#[test]
fn precedence_and_binds_tighter_than_or() {
    // a OR (b AND c)
    assert!(ev("a OR b AND c", &["a"]));
    assert!(!ev("a OR b AND c", &["b"]));
    assert!(ev("a OR b AND c", &["b", "c"]));
}

#[test]
fn combined_with_negation() {
    // fsr_enabled AND !native_res
    assert!(ev("fsr_enabled AND !native_res", &["fsr_enabled"]));
    assert!(!ev("fsr_enabled AND !native_res", &["fsr_enabled", "native_res"]));
}

#[test]
fn global_identifiers_parse() {
    assert!(ev("global:hdr_on", &["global:hdr_on"]));
}

#[test]
fn referenced_vars_collects_all() {
    let expr = parse("a AND !b OR global:c").unwrap().unwrap();
    let vars = expr.referenced_vars();
    assert_eq!(vars, vec!["a", "b", "global:c"]);
}

#[test]
fn bad_input_errors() {
    assert!(parse("a AND").is_err());
    assert!(parse("AND a").is_err());
    assert!(parse("a @ b").is_err());
}

fn message(s: &str) -> String {
    match parse(s) {
        Err(e) => e.message(),
        Ok(_) => panic!("{s} was read"),
    }
}

#[test]
fn each_fault_has_its_message() {
    assert_eq!(message("a AND"), "condition parse error: unexpected end of condition");
    assert_eq!(message("AND a"), "condition parse error: expected variable, found `And`");
    assert_eq!(
        message("a @ b"),
        "condition parse error: unexpected character `@` in condition `a @ b`"
    );
    assert_eq!(message("a AND OR"), "condition parse error: expected variable, found `Or`");
    assert_eq!(message("a b"), "condition parse error: trailing tokens in condition `a b`");
    assert!(matches!(parse("!"), Err(RitzError::Condition(_))));
}

#[test]
fn reading_builds_the_tree() {
    match parse("a OR b AND !c").unwrap().unwrap() {
        Expr::Or(l, r) => {
            assert!(matches!(*l, Expr::Var(ref v) if v == "a"));
            match *r {
                Expr::And(x, y) => {
                    assert!(matches!(*x, Expr::Var(ref v) if v == "b"));
                    assert!(matches!(*y, Expr::Not(_)));
                }
                _ => panic!("AND binds tighter"),
            }
        }
        _ => panic!("OR binds loosest"),
    }
    assert!(parse("").unwrap().is_none());
    assert!(parse(" \t\u{a0}").unwrap().is_none());
    // `NOT` is another spelling of `!`, and both can be repeated.
    assert!(matches!(parse("NOT a").unwrap().unwrap(), Expr::Not(_)));
    assert!(ev("NOT NOT a", &["a"]));
}

#[test]
fn words_that_hold_an_operator_are_names() {
    assert!(ev("ANDROID", &["ANDROID"]));
    assert!(ev("and", &["and"]));
    assert!(ev("ORANGE OR x", &["ORANGE"]));
    assert!(parse("a-b").is_err());
}

#[test]
fn evaluation_is_by_the_tree() {
    let expr = parse("a AND b OR !c").unwrap().unwrap();
    for mask in 0..8u32 {
        let (a, b, c) = (mask & 1 != 0, mask & 2 != 0, mask & 4 != 0);
        let truth = move |n: &str| match n {
            "a" => a,
            "b" => b,
            _ => c,
        };
        assert_eq!(expr.eval(&truth), (a && b) || !c);
    }
}

#[test]
fn only_the_variables_of_a_condition_are_asked_for() {
    let expr = parse("a AND !b OR a").unwrap().unwrap();
    let asked = |n: &str| match n {
        "a" => true,
        "b" => false,
        other => panic!("asked for {other}"),
    };
    assert!(expr.eval(&asked));
    // Other variables make no difference.
    assert_eq!(expr.eval(&|n: &str| n == "a"), expr.eval(&|n: &str| n == "a" || n == "c"));
}
