//! Templates in localized text.

use overseer::plurals::{Ast, Resolver};
use overseer::template::{
    builtin_parser, eval, Context, EmptyContext, Filter, FilterRemovalContext, Pack, Parser, Reading, Token,
};

fn pack() -> Pack {
    Pack {
        plural_form: Resolver::Expr(Ast::parse("n == 1 ? 0 : 1").expect("parses")),
        ordinal_form: Resolver::Expr(
            Ast::parse("(((n+9)%10)<3 && ((n+90)%100)>10) ? ((n+9)%10) : 3").expect("parses"),
        ),
        ordinal_types: ["$st", "$nd", "$rd", "$th"].iter().map(|s| s.to_string()).collect(),
        months: ["January", "February"].iter().map(|s| s.to_string()).collect(),
    }
}

/// What the number literals of a text read as.
fn readings(text: &str) -> Vec<(String, Reading)> {
    builtin_parser()
        .numbers(text)
        .into_iter()
        .map(|s| {
            let v: f64 = s.parse().unwrap_or(0.0);
            (s, Reading { whole: v as u64, shown: v.to_string() })
        })
        .collect()
}

fn expand(text: &str) -> String {
    eval(text, &pack(), &readings(text))
}

#[test]
fn a_plural_form_is_picked() {
    assert_eq!(expand("$(plural 1 '$ turn' '$ turns') left"), "1 turn left");
    assert_eq!(expand("$(plural 5 '$ turn' '$ turns') left"), "5 turns left");
}

#[test]
fn an_ordinal_suffix_is_picked() {
    assert_eq!(expand("the $(ordinal 22) race"), "the 22nd race");
    assert_eq!(expand("the $(ordinal 11) race"), "the 11th race");
}

#[test]
fn a_month_is_named() {
    assert_eq!(expand("$(month 2)"), "February");
    assert_eq!(expand("$(month 0)"), "January");
    assert_eq!(expand("$(month 3)"), "$(month 3)");
}

#[test]
fn a_text_without_dollar_is_left_alone() {
    assert_eq!(expand("plain (text) 'quoted'"), "plain (text) 'quoted'");
}

#[test]
fn what_no_filter_answers_is_left_alone() {
    assert_eq!(expand("$(shout 1) and $5"), "$(shout 1) and $5");
    assert_eq!(expand("$(plural 2 'one')"), "$(plural 2 'one')");
}

#[test]
fn filters_are_erased() {
    assert_eq!(builtin_parser().remove_filters("a $(month 1)b$(plural 1 'x' 'y')"), "a b");
}

#[test]
fn a_parser_knows_its_own_filters_only() {
    let p = Parser::new(&vec![("moon", Filter::Month)]);
    let text = "$(moon 1) $(month 1)";
    assert_eq!(p.eval(text, &pack(), &readings(text)), "January $(month 1)");
}

struct Loud {
    asked: usize,
}

impl Context for Loud {
    fn on_filter_eval(&mut self, name: &str, args: &[Token]) -> Option<String> {
        self.asked += 1;
        if name == "month" {
            Some(format!("<{}>", args.len()))
        } else {
            None
        }
    }
}

#[test]
fn a_context_is_asked_first() {
    let text = "$(month 1) $(ordinal 1)";
    let mut c = Loud { asked: 0 };
    let said = builtin_parser().eval_with_context(text, &pack(), &readings(text), &mut c);
    assert_eq!(said, "<1> 1st");
    assert_eq!(c.asked, 2);
}

/// A context that notes what it is asked, and answers everything.
#[derive(Default)]
struct Notes {
    asked: Vec<String>,
}

impl Context for Notes {
    fn on_filter_eval(&mut self, name: &str, args: &[Token]) -> Option<String> {
        let mut line = name.to_string();
        for a in args {
            line.push_str(&match a {
                Token::Identifier(s) => format!(" word {s}"),
                Token::NumberLit(s) => format!(" number {s}"),
                Token::StringLit(s) => format!(" text {s}"),
            });
        }
        self.asked.push(line);
        Some("X".to_string())
    }
}

#[test]
fn a_context_is_handed_the_name_and_the_words_and_wins() {
    let p = Parser::new(&vec![("f", Filter::Month)]);
    let text = "<$(f 1,234 'a)b')>";
    let mut c = Notes::default();
    assert_eq!(p.eval_with_context(text, &pack(), &readings(text), &mut c), "<X>");
    assert_eq!(c.asked, vec!["f number 1234 text a)b".to_string()]);
    let other = "$() $('f' 1) $(g) $(f x)";
    let mut c = Notes::default();
    assert_eq!(p.eval_with_context(other, &pack(), &readings(other), &mut c), "$() $('f' 1) X X");
    assert_eq!(c.asked, vec!["g".to_string(), "f word x".to_string()]);
}

#[test]
fn what_a_context_said_is_settled() {
    let p = builtin_parser();
    let tokens = vec![Token::Identifier("month".to_string()), Token::NumberLit("2".to_string())];
    let numbers = readings("$(month 2)");
    assert_eq!(p.settle(&tokens, Some("X".to_string()), &pack(), &numbers).as_deref(), Some("X"));
    assert_eq!(p.settle(&tokens, None, &pack(), &numbers).as_deref(), Some("February"));
    let mut nobody = EmptyContext;
    assert_eq!(p.eval_filter(&tokens, &pack(), &numbers, &mut nobody).as_deref(), Some("February"));
    let mut eraser = FilterRemovalContext;
    assert_eq!(p.eval_filter(&tokens, &pack(), &numbers, &mut eraser).as_deref(), Some(""));
}
