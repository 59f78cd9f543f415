use named_tup::tup_default::tup_default;
use named_tup::tup_info::TupInfo;
use named_tup::tup_invocation::ExpandError;
use named_tup::{MacroError, Tup, sealed, to_chars, to_string_exec, tup, tup_struct_builder};

fn ch(s: &str) -> Vec<char> {
    to_chars(s)
}

fn text(v: &Vec<char>) -> String {
    to_string_exec(v)
}

fn registry(names: &[&str]) -> Vec<Vec<char>> {
    names.iter().map(|n| ch(n)).collect()
}

#[test]
fn expression_expansion_matches_the_registry_order() {
    let reg = registry(&["b", "a"]);
    let out = tup(&ch("a: 1"), &reg).expect("expand");
    assert_eq!(
        text(&out),
        "named_tup::__private::Tup::<_, _, named_tup::__private::Unused, \
         named_tup::__private::Used>::new((), 1)"
    );
}

#[test]
fn bare_name_expands_to_itself() {
    let reg = registry(&["a"]);
    let out = tup(&ch("a"), &reg).expect("expand");
    assert_eq!(
        text(&out),
        "named_tup::__private::Tup::<_, named_tup::__private::Used>::new(a)"
    );
}

#[test]
fn empty_invocation_expands_to_the_default_record() {
    let reg = registry(&["a"]);
    let out = tup(&ch(""), &reg).expect("expand");
    assert_eq!(text(&out), "named_tup::__private::Tup::default()");
}

#[test]
fn unknown_field_fails_loudly() {
    let reg = registry(&["b"]);
    match tup(&ch("a: 1"), &reg) {
        Err(MacroError::Expand(ExpandError::UnknownField { name })) => {
            assert_eq!(text(&name), "a")
        }
        _ => panic!("an unregistered field must fail loudly"),
    }
}

#[test]
fn type_expansion_instantiates_the_record_type() {
    let reg = registry(&["b", "a"]);
    let out = Tup(&ch("a: i32 == my_rule"), &reg).expect("expand");
    assert_eq!(
        text(&out),
        "named_tup::__private::Tup::<(), i32, named_tup::__private::Unused, my_rule>"
    );
}

#[test]
fn unlowered_default_is_refused() {
    let reg = registry(&["a"]);
    match Tup(&ch("a: i32 = 3"), &reg) {
        Err(MacroError::Expand(ExpandError::UnfinishedDefault { name })) => {
            assert_eq!(text(&name), "a")
        }
        _ => panic!("an inline default must be lowered before expansion"),
    }
}

#[test]
fn lex_and_parse_errors_surface() {
    let reg = registry(&["a"]);
    assert!(matches!(tup(&ch("\"open"), &reg), Err(MacroError::Lex(_))));
    assert!(matches!(tup(&ch("a:"), &reg), Err(MacroError::Parse(_))));
}

#[test]
fn generator_emits_the_whole_machinery() {
    let reg = registry(&["a"]);
    let out = text(&tup_struct_builder(&reg));
    assert!(out.starts_with(
        "#[derive(Copy, Clone)]\n#[must_use]\npub struct Tup<T0, P0> {\n    pub a: T0,\n"
    ));
    assert!(out.contains("pub fn new(a: T0) -> Self"));
    assert!(out.contains("impl core::default::Default for Tup<(), crate::tup_struct::Unused>"));
    assert!(out.contains("core::fmt::Debug for Tup<T0, P0>"));
    assert!(out.contains("core::ops::Add<Tup<RHST0, RHSP0>> for Tup<T0, P0>"));
    assert!(out.contains("crate::convert::TupFrom<Tup<T0, P0>>"));
    assert!(out.contains("(&self.a) == (&other.a)"));
    assert!(out.contains(
        "match core::cmp::Ord::cmp(&self.a, &other.a) { core::cmp::Ordering::Equal => { \
         core::cmp::Ordering::Equal }, cmp => cmp, }"
    ));
    assert!(out.contains("core::hash::Hash::hash(&self.a, state);"));
}

#[test]
fn generator_walks_fields_in_registry_order() {
    let reg = registry(&["b", "a"]);
    let out = text(&tup_struct_builder(&reg));
    let b_decl = out.find("pub b: T0").expect("first field");
    let a_decl = out.find("pub a: T1").expect("second field");
    assert!(b_decl < a_decl);
}

#[test]
fn sealed_module_covers_the_record_type() {
    let reg = registry(&["a"]);
    let info = TupInfo::new(&reg);
    let out = text(&sealed::to_token_stream(&info));
    assert_eq!(
        out,
        "mod private {\n    pub trait Sealed {}\n    impl<T0, P0> Sealed for \
         crate::tup_struct::Tup<T0, P0> {}\n}\n"
    );
}

#[test]
fn default_materializer_lowers_inline_defaults() {
    let out = text(&tup_default(&ch("fn read(books: Tup!(count: i32 = 3)) {}")));
    assert!(out.starts_with("#[allow(non_camel_case_types)]"));
    assert!(out.contains("#[derive(Default, Copy, Clone)]"));
    assert!(out.contains("impl named_tup::__private::TupDefault for __count_"));
    assert!(out.contains("type Output = i32;"));
    assert!(out.contains("count: i32 == __count_"));
    assert!(!out.contains("count: i32 = 3"));
}

#[test]
fn default_materializer_leaves_other_text_alone() {
    let source = "fn main() { let x = 1; }";
    let out = text(&tup_default(&ch(source)));
    assert_eq!(out, source);
}

#[test]
fn materializer_walk_is_deterministic_given_the_tag() {
    let mut replace = named_tup::tup_default::TupDefaultReplace::empty();
    let out = replace.visit_type_macros(&ch("fn f(x: Tup!(a: i32 = 3, b: u8)) {}"), 7);
    assert_eq!(text(&out), "fn f(x: Tup!(a: i32 == __a_7, b: u8)) {}");
    assert_eq!(
        text(&replace.struct_invocations),
        "#[allow(non_camel_case_types)]\n#[derive(Default, Copy, Clone)]\nstruct __a_7;\nimpl \
         named_tup::__private::TupDefault for __a_7 {\n    type Output = i32;\n\n    fn default() \
         -> Self::Output {\n        3\n    }\n}\n"
    );
}

#[test]
fn materializer_counts_tags_across_groups() {
    let mut replace = named_tup::tup_default::TupDefaultReplace::empty();
    let out = replace.visit_type_macros(
        &ch("fn f(x: Tup!(a: i32 = 3), y: Tup!(a: u8 = 9)) {}"),
        100,
    );
    assert_eq!(
        text(&out),
        "fn f(x: Tup!(a: i32 == __a_100), y: Tup!(a: u8 == __a_101)) {}"
    );
}
