use named_tup::token::tokenize;
use named_tup::tup_invocation::{
    Invocation, TupElementInvocation, TupTypeInvocation, parse_invocation,
};
use named_tup::tup_element::TupDefault;
use named_tup::{to_chars, to_string_exec};

fn ch(s: &str) -> Vec<char> {
    to_chars(s)
}

fn text(v: &Vec<char>) -> String {
    to_string_exec(v)
}

fn parse_elements(src: &str) -> TupElementInvocation {
    let input = ch(src);
    let toks = tokenize(&input).expect("tokenize");
    TupElementInvocation::parse(&input, &toks).expect("parse")
}

fn parse_types(src: &str) -> TupTypeInvocation {
    let input = ch(src);
    let toks = tokenize(&input).expect("tokenize");
    TupTypeInvocation::parse(&input, &toks).expect("parse")
}

fn element_names(inv: &TupElementInvocation) -> Vec<String> {
    inv.0.iter().map(|e| text(&e.name)).collect()
}

#[test]
fn elements_leave_the_parser_sorted() {
    let inv = parse_elements("count, ingredients: [1, 2], eggs: true");
    // Canonical order sorts the lexicographically greater name earlier.
    assert_eq!(element_names(&inv), vec!["ingredients", "eggs", "count"]);
}

#[test]
fn any_input_order_yields_identical_sorted_output() {
    let a = parse_elements("a: 1, b: 2, c: 3");
    let b = parse_elements("c: 3, a: 1, b: 2");
    let c = parse_elements("b: 2, c: 3, a: 1");
    let render = |inv: &TupElementInvocation| -> Vec<(String, String)> {
        inv.0
            .iter()
            .map(|e| (text(&e.name), e.value.as_ref().map(text).unwrap_or_default()))
            .collect()
    };
    assert_eq!(render(&a), render(&b));
    assert_eq!(render(&a), render(&c));
}

#[test]
fn bare_name_is_shorthand() {
    let inv = parse_elements("count");
    assert_eq!(element_names(&inv), vec!["count"]);
    assert!(inv.0[0].value.is_none());
}

#[test]
fn duplicate_field_name_is_a_hard_error() {
    let input = ch("a: 1, a: 2");
    let toks = tokenize(&input).expect("tokenize");
    assert!(TupElementInvocation::parse(&input, &toks).is_err());
}

#[test]
fn type_arguments_carry_their_defaults() {
    let inv = parse_types("read: bool = true, timeout: i32 == my_rule, path: &'static str");
    let names: Vec<String> = inv.0.iter().map(|e| text(&e.name)).collect();
    assert_eq!(names, vec!["timeout", "read", "path"]);
    match &inv.0[0].default {
        TupDefault::Finished { id } => assert_eq!(text(id), "my_rule"),
        _ => panic!("a double-equals default names a lowered rule"),
    }
    match &inv.0[1].default {
        TupDefault::Unfinished { expr } => assert_eq!(text(expr), "true"),
        _ => panic!("a single-equals default is an inline expression"),
    }
    assert!(matches!(inv.0[2].default, TupDefault::Absent));
    assert_eq!(text(&inv.0[2].value), "&'static str");
}

#[test]
fn type_grammar_keeps_generic_commas_together() {
    let inv = parse_types("table: Map<K, V>, count: i32");
    let names: Vec<String> = inv.0.iter().map(|e| text(&e.name)).collect();
    assert_eq!(names, vec!["table", "count"]);
    assert_eq!(text(&inv.0[0].value), "Map<K, V>");
}

#[test]
fn disambiguation_prefers_the_type_grammar() {
    let input = ch("count: i32, eggs: bool");
    let toks = tokenize(&input).expect("tokenize");
    match parse_invocation(&input, &toks).expect("parse") {
        Invocation::Type(_) => {}
        Invocation::Expr(_) => panic!("a fully type-shaped list commits to the type grammar"),
    }
}

#[test]
fn disambiguation_falls_back_to_the_expression_grammar() {
    // A bare name is no type argument, so the expression grammar applies.
    let input = ch("count, eggs: true");
    let toks = tokenize(&input).expect("tokenize");
    match parse_invocation(&input, &toks).expect("parse") {
        Invocation::Expr(inv) => {
            assert_eq!(element_names(&inv), vec!["eggs", "count"]);
        }
        Invocation::Type(_) => panic!("a bare name cannot fit the type grammar"),
    }
}

#[test]
fn neither_grammar_reports_both_errors() {
    let input = ch("123");
    let toks = tokenize(&input).expect("tokenize");
    match parse_invocation(&input, &toks) {
        Err(e) => {
            assert_eq!(e.expr_error.pos, 0);
            assert_eq!(e.type_error.pos, 0);
        }
        Ok(_) => panic!("a number heads no argument"),
    }
}

#[test]
fn tokenizer_rejects_unterminated_text() {
    assert!(tokenize(&ch("\"unterminated")).is_err());
    assert!(tokenize(&ch("/* open")).is_err());
    assert!(tokenize(&ch("a: 1")).is_ok());
}

#[test]
fn tokenizer_skips_comments() {
    let input = ch("a // line\n: /* block /* nested */ */ 1");
    let toks = tokenize(&input).expect("tokenize");
    assert_eq!(toks.len(), 3);
}

#[test]
fn string_round_trip_through_chars() {
    let v = ch("hêllo, wörld");
    assert_eq!(to_string_exec(&v), "hêllo, wörld");
}

#[test]
fn written_out_arguments_reparse_unchanged() {
    let inv = parse_types("read: bool == my_rule, timeout: Vec<u8>, path: &'static str = dflt()");
    let mut texts: Vec<String> = Vec::new();
    for e in inv.0.iter() {
        texts.push(text(&e.to_tokens()));
    }
    let joined = texts.join(", ");
    let again = parse_types(&joined);
    assert_eq!(again.0.len(), inv.0.len());
    for (a, b) in inv.0.iter().zip(again.0.iter()) {
        assert_eq!(text(&a.name), text(&b.name));
        assert_eq!(text(&a.value), text(&b.value));
        match (&a.default, &b.default) {
            (TupDefault::Absent, TupDefault::Absent) => {}
            (TupDefault::Finished { id: x }, TupDefault::Finished { id: y }) => {
                assert_eq!(text(x), text(y))
            }
            (TupDefault::Unfinished { expr: x }, TupDefault::Unfinished { expr: y }) => {
                assert_eq!(text(x), text(y))
            }
            _ => panic!("a written-out default descriptor must reparse as itself"),
        }
    }
}
