//! Plural and ordinal forms.

use overseer::plurals::{trim, Ast, Resolver};

fn plural() -> Resolver {
    Resolver::Expr(Ast::parse("n == 1 ? 0 : 1").expect("plural parses"))
}

fn ordinal() -> Resolver {
    Resolver::Expr(Ast::parse("(((n+9)%10)<3 && ((n+90)%100)>10) ? ((n+9)%10) : 3").expect("ordinal parses"))
}

fn value(src: &str, n: u64) -> Option<usize> {
    Ast::parse(src).expect("parses").try_resolve(n)
}

#[test]
fn english_plural_singular_vs_plural() {
    let p = plural();
    assert_eq!(p.resolve(1), 0);
    assert_eq!(p.resolve(0), 1);
    assert_eq!(p.resolve(2), 1);
    assert_eq!(p.resolve(21), 1);
}

#[test]
fn english_ordinal_suffix_index() {
    let o = ordinal();
    assert_eq!(o.resolve(1), 0);
    assert_eq!(o.resolve(2), 1);
    assert_eq!(o.resolve(3), 2);
    assert_eq!(o.resolve(4), 3);
    assert_eq!(o.resolve(11), 3);
    assert_eq!(o.resolve(12), 3);
    assert_eq!(o.resolve(13), 3);
    assert_eq!(o.resolve(21), 0);
    assert_eq!(o.resolve(22), 1);
    assert_eq!(o.resolve(113), 3);
}

#[test]
fn the_default_is_the_first_form() {
    assert_eq!(Resolver::First.resolve(0), 0);
    assert_eq!(Resolver::First.resolve(7), 0);
}

#[test]
fn every_operator_computes() {
    assert_eq!(value("n + 2", 5), Some(7));
    assert_eq!(value("n - 2", 5), Some(3));
    assert_eq!(value("n * 2", 5), Some(10));
    assert_eq!(value("n / 2", 5), Some(2));
    assert_eq!(value("n % 2", 5), Some(1));
    assert_eq!(value("n != 5", 5), Some(0));
    assert_eq!(value("n >= 5", 5), Some(1));
    assert_eq!(value("n <= 4", 5), Some(0));
    assert_eq!(value("n > 4", 5), Some(1));
    assert_eq!(value("n < 4", 5), Some(0));
    assert_eq!(value("n == 5 || n == 6", 6), Some(1));
    assert_eq!(value("!n", 6), Some(0));
}

#[test]
fn what_has_no_value_resolves_to_the_first_form() {
    let under = Resolver::Expr(Ast::parse("n - 2").expect("parses"));
    assert_eq!(under.try_resolve(1), None);
    assert_eq!(under.resolve(1), 0);
    assert_eq!(value("n / 0", 1), None);
    assert_eq!(value("n % 0", 1), None);
}

#[test]
fn white_space_and_outer_parentheses_say_nothing() {
    for n in 0..30u64 {
        assert_eq!(value("  n==1?0:1 ", n), value("n == 1 ? 0 : 1", n));
        assert_eq!(value("((n == 1 ? 0 : 1))", n), value("n == 1 ? 0 : 1", n));
    }
    assert_eq!(trim("  a b "), "a b");
    assert_eq!(trim(&trim("\t x \n")), "x");
}

#[test]
fn operators_are_found_outside_parentheses() {
    assert_eq!(value("!n!=1", 5), Some(1));
    assert_eq!(value("(n!=1)!=0", 2), Some(1));
    assert_eq!(value("(n==1)+(n==2)", 2), Some(1));
    assert_eq!(value("(n!=1)", 1), Some(0));
}

#[test]
fn ordinals_follow_the_last_digits() {
    let o = ordinal();
    for n in 0..400u64 {
        let form = if (11..=13).contains(&(n % 100)) {
            3
        } else if (1..=3).contains(&(n % 10)) {
            n % 10 - 1
        } else {
            3
        };
        assert_eq!(o.resolve(n), form as usize, "{n}");
    }
}

#[test]
fn what_is_no_expression_is_refused() {
    for bad in ["", "x", "n ==", "(n", "n ? 0", "1 : 0", "n ? : 1", "(", "(n1", "n!!=1", "(n)(n)", "99999999999999999999"] {
        assert!(Ast::parse(bad).is_err(), "{bad:?}");
    }
}
