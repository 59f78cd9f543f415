use named_tup::convert::{CanInto, ConvertError, FieldShape, TupFrom, TupInto};
use named_tup::combine::CanCombine;
use named_tup::tup_struct::{DefaultRule, FieldSlot, Tup, UnknownField, Value};
use named_tup::{to_chars, to_string_exec};
use core::cmp::Ordering;

fn ch(s: &str) -> Vec<char> {
    to_chars(s)
}

fn text(v: &Vec<char>) -> String {
    to_string_exec(v)
}

fn registry(names: &[&str]) -> Vec<Vec<char>> {
    let mut r = Vec::new();
    for n in names {
        r.push(ch(n));
    }
    r
}

fn record(names: &[&str], args: &[(&str, Value)]) -> Tup {
    let reg = registry(names);
    let mut list: Vec<(Vec<char>, Value)> = Vec::new();
    for (n, v) in args {
        list.push((ch(n), v.dup()));
    }
    match Tup::new(&reg, &list) {
        Ok(t) => t,
        Err(_) => panic!("record construction failed"),
    }
}

fn int_of(t: &Tup, name: &str) -> i64 {
    match t.get(&ch(name)) {
        Some(Value::Int(n)) => n,
        _ => panic!("expected an integer field"),
    }
}

#[test]
fn round_trip_reads_back_supplied_values() {
    let t = record(&["z", "y", "x"], &[("x", Value::Int(4)), ("y", Value::Int(7))]);
    assert_eq!(int_of(&t, "x"), 4);
    assert_eq!(int_of(&t, "y"), 7);
    match t.get(&ch("z")) {
        Some(Value::Unit) => {}
        _ => panic!("an unsupplied field must read back as the unit placeholder"),
    }
    assert!(t.get(&ch("w")).is_none());
}

#[test]
fn constructor_rejects_unknown_field() {
    let reg = registry(&["b"]);
    let mut list: Vec<(Vec<char>, Value)> = Vec::new();
    list.push((ch("a"), Value::Int(1)));
    match Tup::new(&reg, &list) {
        Err(UnknownField { name }) => assert_eq!(text(&name), "a"),
        Ok(_) => panic!("an unregistered field must fail loudly"),
    }
}

#[test]
fn merge_right_bias() {
    let left = record(
        &["c", "b", "a"],
        &[("a", Value::Int(4)), ("b", Value::Int(7)), ("c", Value::Int(1))],
    );
    let right = record(&["c", "b", "a"], &[("b", Value::Int(56)), ("c", Value::Int(3))]);
    let merged = left.combine(right);
    assert_eq!(int_of(&merged, "a"), 4);
    assert_eq!(int_of(&merged, "b"), 56);
    assert_eq!(int_of(&merged, "c"), 3);
}

#[test]
fn merge_left_preservation_when_right_absent() {
    let names = ["z", "y", "x", "w"];
    let left = record(
        &names,
        &[("x", Value::Int(4)), ("y", Value::Int(7)), ("z", Value::Int(1))],
    );
    let right = record(&names, &[("w", Value::Int(2))]);
    let merged = left.combine(right);
    assert_eq!(int_of(&merged, "x"), 4);
    assert_eq!(int_of(&merged, "y"), 7);
    assert_eq!(int_of(&merged, "z"), 1);
    assert_eq!(int_of(&merged, "w"), 2);
}

#[test]
fn merge_default_cells() {
    let rule1 = DefaultRule { id: ch("one"), value: Value::Int(1) };
    let rule2 = DefaultRule { id: ch("two"), value: Value::Int(2) };
    // Used beats a right-hand default: the left value is kept.
    let m = FieldSlot::Used(Value::Int(9)).combine(FieldSlot::Defaulted {
        rule: rule1.dup(),
        stored: Value::Int(1),
    });
    match m {
        FieldSlot::Used(Value::Int(9)) => {}
        _ => panic!("a concrete left value must survive a defaulted right slot"),
    }
    // Both defaulted: the right-hand rule wins.
    let m = FieldSlot::Defaulted { rule: rule1.dup(), stored: Value::Int(1) }.combine(
        FieldSlot::Defaulted { rule: rule2.dup(), stored: Value::Int(2) },
    );
    match m {
        FieldSlot::Defaulted { rule, stored: Value::Int(2) } => assert_eq!(text(&rule.id), "two"),
        _ => panic!("the right-hand default rule must win"),
    }
    // A right-hand explicit value always wins.
    let m = FieldSlot::Defaulted { rule: rule1, stored: Value::Int(1) }.combine(FieldSlot::Used(
        Value::Int(8),
    ));
    match m {
        FieldSlot::Used(Value::Int(8)) => {}
        _ => panic!("an explicit right value must win"),
    }
}

#[test]
fn conversion_totality_on_the_table() {
    let rule = DefaultRule { id: ch("three"), value: Value::Int(3) };
    // Unused to Unused.
    match CanInto::into(FieldSlot::Unused, &FieldShape::Unused) {
        Some(FieldSlot::Unused) => {}
        _ => panic!("unused to unused must pass"),
    }
    // Used to Used keeps the value.
    match CanInto::into(FieldSlot::Used(Value::Int(5)), &FieldShape::Used) {
        Some(FieldSlot::Used(Value::Int(5))) => {}
        _ => panic!("used to used must pass the value through"),
    }
    // Unused to Defaulted materializes the rule's default.
    match CanInto::into(FieldSlot::Unused, &FieldShape::Defaulted(rule.dup())) {
        Some(FieldSlot::Defaulted { stored: Value::Int(3), .. }) => {}
        _ => panic!("unused to defaulted must materialize the default"),
    }
    // Used to Defaulted passes the concrete value through.
    match CanInto::into(FieldSlot::Used(Value::Int(9)), &FieldShape::Defaulted(rule.dup())) {
        Some(FieldSlot::Defaulted { stored: Value::Int(9), .. }) => {}
        _ => panic!("used to defaulted must keep the concrete value"),
    }
    // Defaulted to Used passes the stored value through.
    match CanInto::into(
        FieldSlot::Defaulted { rule, stored: Value::Int(3) },
        &FieldShape::Used,
    ) {
        Some(FieldSlot::Used(Value::Int(3))) => {}
        _ => panic!("defaulted to used must keep the stored value"),
    }
}

#[test]
fn conversion_rejection_off_the_table() {
    let rule = DefaultRule { id: ch("three"), value: Value::Int(3) };
    assert!(CanInto::into(FieldSlot::Used(Value::Int(5)), &FieldShape::Unused).is_none());
    assert!(CanInto::into(
        FieldSlot::Defaulted { rule: rule.dup(), stored: Value::Int(3) },
        &FieldShape::Unused,
    )
    .is_none());
    assert!(CanInto::into(
        FieldSlot::Defaulted { rule: rule.dup(), stored: Value::Int(3) },
        &FieldShape::Defaulted(rule),
    )
    .is_none());
}

#[test]
fn record_conversion_and_error() {
    let t = record(&["b", "a"], &[("a", Value::Int(1))]);
    // b: Unused -> Defaulted, a: Used -> Used.
    let mut shape: Vec<FieldShape> = Vec::new();
    shape.push(FieldShape::Defaulted(DefaultRule { id: ch("dflt"), value: Value::Int(10) }));
    shape.push(FieldShape::Used);
    let converted = match t.convert(&shape) {
        Ok(c) => c,
        Err(_) => panic!("a declared-compatible conversion must succeed"),
    };
    assert_eq!(int_of(&converted, "b"), 10);
    assert_eq!(int_of(&converted, "a"), 1);

    // a is Used; reshaping it to Unused has no rule and must name the field.
    let t2 = record(&["b", "a"], &[("a", Value::Int(1))]);
    let mut bad: Vec<FieldShape> = Vec::new();
    bad.push(FieldShape::Unused);
    bad.push(FieldShape::Unused);
    match t2.convert(&bad) {
        Err(ConvertError { field }) => assert_eq!(text(&field), "a"),
        Ok(_) => panic!("a conversion without a rule must be rejected"),
    }
}

#[test]
fn tup_from_and_into_mirror_convert() {
    let t = record(&["a"], &[("a", Value::Int(1))]);
    let mut shape: Vec<FieldShape> = Vec::new();
    shape.push(FieldShape::Used);
    let c: Tup = match Tup::from_tup(t, &shape) {
        Ok(c) => c,
        Err(_) => panic!("from_tup must succeed on a declared-compatible shape"),
    };
    assert_eq!(int_of(&c, "a"), 1);
    let c2: Tup = match TupInto::<Tup>::into_tup(c, &shape) {
        Ok(c2) => c2,
        Err(_) => panic!("into_tup must succeed on a declared-compatible shape"),
    };
    assert_eq!(int_of(&c2, "a"), 1);
}

#[test]
fn equality_ignores_field_states() {
    let a = record(&["b", "a"], &[("a", Value::Int(5))]);
    let mut shape: Vec<FieldShape> = Vec::new();
    shape.push(FieldShape::Unused);
    shape.push(FieldShape::Defaulted(DefaultRule { id: ch("five"), value: Value::Int(5) }));
    let b = match record(&["b", "a"], &[]).convert(&shape) {
        Ok(t) => t,
        Err(_) => panic!("conversion must succeed"),
    };
    // One record holds `a` explicitly, the other by a default rule; the
    // semantic values agree, so they compare equal.
    assert!(a == b);
    assert_eq!(a.cmp(&b), Ordering::Equal);
}

#[test]
fn ordering_compares_values_in_registry_order() {
    let small = record(&["b", "a"], &[("b", Value::Int(1)), ("a", Value::Int(9))]);
    let large = record(&["b", "a"], &[("b", Value::Int(2)), ("a", Value::Int(0))]);
    // The first field in registry order (b) decides.
    assert_eq!(small.cmp(&large), Ordering::Less);
    assert_eq!(large.cmp(&small), Ordering::Greater);
}

#[test]
fn hash_folds_in_registry_order() {
    let t = record(&["a"], &[("a", Value::Int(1))]);
    // One field: mix(mix(0, 2), 1) = (0 * 31 + 2) * 31 + 1 = 63.
    assert_eq!(t.hash_tup(), 63);
    let t2 = record(&["a"], &[("a", Value::Int(1))]);
    assert_eq!(t.hash_tup(), t2.hash_tup());
}

#[test]
fn test_rebuilds_count_with_a_default() {
    let t = record(&["count"], &[("count", Value::Int(7))]);
    let out = match named_tup::convert::test(t) {
        Ok(out) => out,
        Err(_) => panic!("a record with a count field must convert"),
    };
    assert_eq!(int_of(&out, "count"), 7);
    let no_count = record(&["x"], &[]);
    assert!(named_tup::convert::test(no_count).is_err());
}

#[test]
fn debug_format_omits_unused_fields() {
    let t = record(
        &["zebra", "married", "farmer", "apple"],
        &[("married", Value::Bool(true)), ("farmer", Value::Text(ch("Joe")))],
    );
    assert_eq!(text(&t.debug_render()), "tup { married: true, farmer: \"Joe\" }");
    let empty = record(&["a"], &[]);
    assert_eq!(text(&empty.debug_render()), "tup");
}

#[test]
fn debug_format_shows_defaults_and_escapes() {
    let mut shape: Vec<FieldShape> = Vec::new();
    shape.push(FieldShape::Defaulted(DefaultRule { id: ch("five"), value: Value::Int(5) }));
    let t = match record(&["a"], &[]).convert(&shape) {
        Ok(t) => t,
        Err(_) => panic!("conversion must succeed"),
    };
    assert_eq!(text(&t.debug_render()), "tup { a: 5 = 5 }");
    let q = record(&["s"], &[("s", Value::Text(ch("say \"hi\"")))]);
    assert_eq!(text(&q.debug_render()), "tup { s: \"say \\\"hi\\\"\" }");
    let neg = record(&["n"], &[("n", Value::Int(-42))]);
    assert_eq!(text(&neg.debug_render()), "tup { n: -42 }");
}
