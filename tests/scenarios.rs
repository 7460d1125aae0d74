use nablo_data::{
    curve_pick, floats_changed, int_to_text, nat_to_text, numeric_leaves, rewrite_at_path, tree_delta, AnyShape,
    Change, CurvePick, DataEnum, Error, FloatEdit, FloatRule, IntEdit, IntRange, IntRule, Layer, Number,
    ParsedData,
};

fn position(x: i32, y: f32) -> ParsedData {
    let mut layer = Layer::new(String::from("Position"));
    layer.push_field("x", ParsedData::from_i32(x));
    layer.push_field("y", ParsedData::from_float_bits((y as f64).to_bits()));
    layer.end()
}

fn circle(radius: u8) -> ParsedData {
    let mut layer = Layer::new(String::from("Circle"));
    layer.push_field("radius", ParsedData::from_u8(radius));
    layer.end()
}

fn children(t: &ParsedData) -> &Vec<ParsedData> {
    match &t.data {
        DataEnum::Node(v) => v,
        _ => panic!("not an aggregate"),
    }
}

fn int_of(t: &ParsedData) -> i128 {
    match &t.data {
        DataEnum::Int(v, _) => *v,
        _ => panic!("not an integer"),
    }
}

fn float_of(t: &ParsedData) -> f64 {
    match &t.data {
        DataEnum::Float(b) => f64::from_bits(*b),
        _ => panic!("not a float"),
    }
}

fn int_rule(path: &str, edit: IntEdit) -> IntRule {
    IntRule { path: String::from(path), edit }
}

#[test]
fn position_delta_names_changed_field() {
    let left = position(10, 2.0);
    let right = position(4, 2.0);
    let delta = tree_delta(&left, &right);
    assert_eq!(delta.len(), 1);
    assert_eq!(delta[0].path, "----x");
    assert_eq!(delta[0].change, Change::Int(10, 4));
}

#[test]
fn position_patch_restores_left() {
    let mut right = position(4, 2.0);
    rewrite_at_path(&mut right, String::new(), &vec![int_rule("----x", IntEdit::Shift(6))], &vec![]);
    assert_eq!(int_of(&children(&right)[0]), 10);
    assert_eq!(float_of(&children(&right)[1]), 2.0);
}

#[test]
fn float_field_delta_and_patch() {
    let left = position(1, 3.5);
    let right = position(1, 1.25);
    let delta = tree_delta(&left, &right);
    assert_eq!(delta.len(), 1);
    assert_eq!(delta[0].path, "----y");
    assert_eq!(delta[0].change, Change::Float(3.5f64.to_bits(), 1.25f64.to_bits()));
    let mut patched = position(1, 1.25);
    let to = (1.25f64 + 2.25f64).to_bits();
    let rule = FloatRule { path: String::from("----y"), edit: FloatEdit::Replace(1.25f64.to_bits(), to) };
    rewrite_at_path(&mut patched, String::new(), &vec![], &vec![rule]);
    assert_eq!(float_of(&children(&patched)[1]), 3.5);
}

#[test]
fn circle_after_curve_end_takes_end_value() {
    let second: i128 = 1_000_000_000;
    assert_eq!(curve_pick(false, 2 * second, 0, second, false), CurvePick::End);
    let mut c = circle(0);
    rewrite_at_path(&mut c, String::new(), &vec![int_rule("----radius", IntEdit::Assign(100))], &vec![]);
    assert_eq!(int_of(&children(&c)[0]), 100);
}

#[test]
fn curve_pick_window_cases() {
    assert_eq!(curve_pick(false, -1, 0, 10, false), CurvePick::Start);
    assert_eq!(curve_pick(false, 10, 0, 10, false), CurvePick::End);
    assert_eq!(curve_pick(true, 20, 0, 10, false), CurvePick::Sampled);
    assert_eq!(curve_pick(false, 20, 0, 10, true), CurvePick::Keep);
    assert_eq!(curve_pick(false, 5, 0, 10, false), CurvePick::Keep);
    assert_eq!(curve_pick(false, i128::MAX, i128::MAX, 5, false), CurvePick::Keep);
}

#[test]
fn assigned_value_is_clamped_into_range() {
    let mut c = circle(7);
    rewrite_at_path(&mut c, String::new(), &vec![int_rule("----radius", IntEdit::Assign(300))], &vec![]);
    assert_eq!(int_of(&children(&c)[0]), 255);
    rewrite_at_path(&mut c, String::new(), &vec![int_rule("----radius", IntEdit::Shift(-1000))], &vec![]);
    assert_eq!(int_of(&children(&c)[0]), 0);
}

#[test]
fn shift_past_largest_integer_clamps() {
    let mut t = ParsedData::from_i64(i64::MAX - 1);
    rewrite_at_path(&mut t, String::new(), &vec![int_rule("", IntEdit::Shift(i128::MAX))], &vec![]);
    assert_eq!(int_of(&t), i64::MAX as i128);
}

#[test]
fn text_into_integer_fails_and_stays_unmarked() {
    let mut t = ParsedData::from_str("hello");
    match t.take_int() {
        Err(Error::UnexpectedType(kind)) => assert_eq!(kind, "integer"),
        other => panic!("unexpected {:?}", other),
    }
    assert!(!t.need_delete);
}

#[test]
fn integer_read_marks_consumed() {
    let mut t = ParsedData::from_u16(513);
    assert_eq!(t.take_int().unwrap(), 513);
    assert!(t.need_delete);
}

#[test]
fn other_leaf_reads() {
    assert_eq!(ParsedData::from_bool(true).take_bool().unwrap(), true);
    assert_eq!(ParsedData::from_string(String::from("ab")).take_text().unwrap(), "ab");
    assert_eq!(ParsedData::from_bytes(&[1u8, 2, 3]).take_bytes().unwrap(), vec![1u8, 2, 3]);
    assert_eq!(ParsedData::from_float_bits(0.5f64.to_bits()).take_float_bits().unwrap(), 0.5f64.to_bits());
    assert!(ParsedData::empty().expect_empty().is_ok());
    assert!(ParsedData::empty().is_empty_marker());
    match ParsedData::from_bool(false).expect_empty() {
        Err(Error::UnexpectedType(kind)) => assert_eq!(kind, "None"),
        other => panic!("unexpected {:?}", other),
    }
    match ParsedData::from_i8(1).take_bool() {
        Err(Error::UnexpectedType(kind)) => assert_eq!(kind, "bool"),
        other => panic!("unexpected {:?}", other),
    }
}

#[test]
fn diff_of_a_value_with_itself_is_empty() {
    let a = position(3, 0.25);
    let b = position(3, 0.25);
    assert!(tree_delta(&a, &b).is_empty());
}

#[test]
fn empty_rules_leave_tree_unchanged() {
    let mut c = position(9, 1.5);
    rewrite_at_path(&mut c, String::new(), &vec![], &vec![]);
    assert_eq!(int_of(&children(&c)[0]), 9);
    assert_eq!(float_of(&children(&c)[1]), 1.5);
    assert_eq!(c.name, "Position");
}

#[test]
fn integer_leaves_carry_type_ranges() {
    let cases = vec![
        (ParsedData::from_i8(-5), -5i128, i8::MIN as i128, i8::MAX as i128),
        (ParsedData::from_i16(300), 300, i16::MIN as i128, i16::MAX as i128),
        (ParsedData::from_i32(-70000), -70000, i32::MIN as i128, i32::MAX as i128),
        (ParsedData::from_i64(1), 1, i64::MIN as i128, i64::MAX as i128),
        (ParsedData::from_u8(200), 200, 0, u8::MAX as i128),
        (ParsedData::from_u16(2), 2, 0, u16::MAX as i128),
        (ParsedData::from_u32(4_000_000_000), 4_000_000_000, 0, u32::MAX as i128),
        (ParsedData::from_u64(u64::MAX), u64::MAX as i128, 0, u64::MAX as i128),
    ];
    for (t, v, lo, hi) in cases {
        match t.data {
            DataEnum::Int(x, r) => {
                assert_eq!(x, v);
                assert_eq!(r, IntRange { start: lo, end: hi });
            },
            _ => panic!("not an integer"),
        }
        assert_eq!(t.name, "");
    }
}

#[test]
fn struct_round_trip_through_entries() {
    let mut t = position(-12, 0.75);
    t.struct_as_map(&["x", "y"]).unwrap();
    let mut seen = Vec::new();
    while let Some((mut key, mut value)) = t.next_entry().unwrap() {
        let field = key.take_text().unwrap();
        if field == "x" {
            seen.push((field, value.take_int().unwrap() as f64));
        } else {
            seen.push((field, f64::from_bits(value.take_float_bits().unwrap())));
        }
        t.consume_last();
    }
    assert_eq!(seen, vec![(String::from("y"), 0.75), (String::from("x"), -12.0)]);
}

#[test]
fn struct_read_needs_enough_field_names() {
    let mut t = position(1, 1.0);
    match t.struct_as_map(&["x"]) {
        Err(Error::UnexpectedType(kind)) => assert_eq!(kind, "struct"),
        other => panic!("unexpected {:?}", other),
    }
    let mut leaf = ParsedData::from_bool(true);
    assert!(leaf.struct_as_map(&["x"]).is_err());
}

#[test]
fn sequence_elements_named_by_position() {
    let mut layer = Layer::new(String::from("3"));
    layer.push_element(ParsedData::from_u8(1));
    layer.push_element(ParsedData::from_u8(2));
    layer.push_element(ParsedData::from_u8(3));
    let t = layer.end();
    assert_eq!(t.name, "3");
    let names: Vec<&str> = children(&t).iter().map(|c| c.name.as_str()).collect();
    assert_eq!(names, vec!["0", "1", "2"]);
    let leaves = numeric_leaves(&t);
    let paths: Vec<&str> = leaves.iter().map(|l| l.path.as_str()).collect();
    assert_eq!(paths, vec!["----0", "----1", "----2"]);
    assert_eq!(leaves[2].number, Number::Int(3, IntRange { start: 0, end: 255 }));
}

#[test]
fn remaining_drops_consumed_children() {
    let mut layer = Layer::new(String::new());
    layer.push_element(ParsedData::from_u8(1));
    layer.push_element(ParsedData::from_u8(2));
    let mut t = layer.end();
    assert_eq!(t.remaining().unwrap(), 2);
    if let DataEnum::Node(v) = &mut t.data {
        v[1].take_int().unwrap();
    }
    assert_eq!(t.remaining().unwrap(), 1);
    assert_eq!(int_of(&children(&t)[0]), 1);
    match ParsedData::from_u8(1).remaining() {
        Err(Error::UnexpectedType(kind)) => assert_eq!(kind, "seq"),
        other => panic!("unexpected {:?}", other),
    }
}

#[test]
fn map_keys_name_entries() {
    let mut layer = Layer::new(String::new());
    layer.push_key(ParsedData::from_i32(-7));
    layer.push_value(ParsedData::from_bool(true));
    layer.push_key(ParsedData::from_bool(false));
    layer.push_value(ParsedData::from_u8(1));
    layer.push_key(ParsedData::from_str("k"));
    layer.push_value(ParsedData::from_u8(2));
    layer.push_key(ParsedData::empty());
    layer.push_value(ParsedData::from_u8(3));
    let t = layer.end();
    let names: Vec<&str> = children(&t).iter().map(|c| c.name.as_str()).collect();
    assert_eq!(names, vec!["-7", "false", "k", ""]);
    match &children(&t)[2].data {
        DataEnum::Pair(b) => {
            assert_eq!(b.0.name, "k");
            assert_eq!(int_of(&b.1), 2);
        },
        _ => panic!("not an entry"),
    }
    let paths: Vec<String> = numeric_leaves(&t).into_iter().map(|l| l.path).collect();
    assert_eq!(paths, vec!["----false----", "----k----", "--------"]);
}

#[test]
fn next_entry_needs_entries() {
    let mut layer = Layer::new(String::new());
    layer.push_element(ParsedData::from_u8(1));
    let mut t = layer.end();
    match t.next_entry() {
        Err(Error::UnexpectedType(kind)) => assert_eq!(kind, "Map"),
        other => panic!("unexpected {:?}", other),
    }
}

#[test]
fn enum_values() {
    let unit = ParsedData::unit_variant("Color", "Red");
    match &unit.data {
        DataEnum::Enum(v, p) => {
            assert_eq!(v, "Red");
            assert!(p.is_empty());
        },
        _ => panic!("not an enum"),
    }
    assert_eq!(unit.name, "Color");
    let one = ParsedData::newtype_variant(2, "Size", ParsedData::from_u32(9));
    assert_eq!(one.name, "2");
    let mut layer = Layer::new(String::from("Move"));
    layer.push_field("dx", ParsedData::from_i16(-3));
    let st = layer.end_variant();
    assert_eq!(st.name, "Move");
    let leaves = numeric_leaves(&st);
    assert_eq!(leaves[0].path, "----dx");
    let unit_struct = ParsedData::unit_struct("Marker");
    assert!(unit_struct.is_empty_marker());
    assert_eq!(unit_struct.name, "Marker");
}

#[test]
fn self_describing_reads() {
    let mut layer = Layer::new(String::from("Outer"));
    layer.push_field("only", ParsedData::from_u8(5));
    let mut single = layer.end();
    assert_eq!(single.settle_any(), AnyShape::Single);
    assert_eq!(single.name, "only");

    let mut layer = Layer::new(String::new());
    layer.push_unnamed(ParsedData::from_u8(1));
    layer.push_unnamed(ParsedData::from_u8(2));
    let mut seq = layer.end();
    assert_eq!(seq.settle_any(), AnyShape::Sequence);

    let mut layer = Layer::new(String::from("S"));
    layer.push_field("a", ParsedData::from_u8(1));
    layer.push_field("b", ParsedData::from_u8(2));
    let mut map = layer.end();
    assert_eq!(map.settle_any(), AnyShape::Mapping);
    assert_eq!(map.name, "");
    match &children(&map)[1].data {
        DataEnum::Pair(b) => {
            assert!(matches!(&b.0.data, DataEnum::String(s) if s == "b"));
            assert_eq!(int_of(&b.1), 2);
        },
        _ => panic!("not an entry"),
    }
}

#[test]
fn decimal_rendering() {
    assert_eq!(int_to_text(-42), "-42");
    assert_eq!(int_to_text(0), "0");
    assert_eq!(int_to_text(i128::MIN), i128::MIN.to_string());
    assert_eq!(nat_to_text(1234567890), "1234567890");
}

#[test]
fn float_change_by_bits_and_value() {
    assert!(!floats_changed(0.0f64.to_bits(), (-0.0f64).to_bits()));
    assert!(!floats_changed(f64::NAN.to_bits(), f64::NAN.to_bits()));
    assert!(floats_changed(f64::NAN.to_bits(), 1.0f64.to_bits()));
    assert!(!floats_changed(1.5f64.to_bits(), 1.5f64.to_bits()));
    assert!(floats_changed(1.5f64.to_bits(), 2.5f64.to_bits()));
}

#[test]
fn nan_leaf_does_not_differ_from_itself() {
    let a = ParsedData::from_float_bits(f64::NAN.to_bits());
    let b = a.duplicate();
    assert!(tree_delta(&a, &b).is_empty());
    let c = position(1, f32::NAN);
    assert!(tree_delta(&c, &c.duplicate()).is_empty());
}

#[test]
fn nested_sequence_elements_are_each_taken_once() {
    let mut outer = Layer::new(String::from("2"));
    for v in [1u8, 2u8] {
        let mut inner = Layer::new(String::from("1"));
        inner.push_element(ParsedData::from_u8(v));
        outer.push_element(inner.end());
    }
    let mut t = outer.end();
    let mut seen = Vec::new();
    while let Some(mut child) = t.take_last_child().unwrap() {
        let mut values = Vec::new();
        while let Some(mut leaf) = child.take_last_child().unwrap() {
            values.push(leaf.take_int().unwrap());
        }
        seen.push(values);
    }
    assert_eq!(seen, vec![vec![2], vec![1]]);
    match ParsedData::from_u8(1).take_last_child() {
        Err(Error::UnexpectedType(kind)) => assert_eq!(kind, "seq"),
        other => panic!("unexpected {:?}", other),
    }
}

#[test]
fn duplicate_copies_whole_tree() {
    let t = position(8, 4.0);
    let c = t.duplicate();
    assert_eq!(c.name, "Position");
    assert_eq!(int_of(&children(&c)[0]), 8);
    assert_eq!(float_of(&children(&c)[1]), 4.0);
}

fn outer(x: i32, y: f32, z: i64) -> ParsedData {
    let mut layer = Layer::new(String::from("Outer"));
    layer.push_field("inner", position(x, y));
    layer.push_field("z", ParsedData::from_i64(z));
    layer.end()
}

#[test]
fn nested_patch_restores_integers() {
    let left = outer(-3, 1.0, 40);
    let mut right = outer(5, 1.0, -2);
    let delta = tree_delta(&left, &right);
    let paths: Vec<&str> = delta.iter().map(|d| d.path.as_str()).collect();
    assert_eq!(paths, vec!["----inner----x", "----z"]);
    let rules: Vec<IntRule> = delta
        .iter()
        .map(|d| match d.change {
            Change::Int(l, r) => int_rule(&d.path, IntEdit::Shift(l - r)),
            Change::Float(_, _) => int_rule(&d.path, IntEdit::Shift(0)),
        })
        .collect();
    rewrite_at_path(&mut right, String::new(), &rules, &vec![]);
    assert_eq!(int_of(&children(&children(&right)[0])[0]), -3);
    assert_eq!(int_of(&children(&right)[1]), 40);
}

#[test]
fn equality_clone_and_default() {
    let a = position(2, 0.5);
    let b = a.clone();
    assert!(a == b);
    assert!(a != position(3, 0.5));
    assert!(a != position(2, 0.25));
    let mut c = a.clone();
    c.name = String::from("Other");
    assert!(a != c);
    let mut d = ParsedData::from_u8(1);
    let e = d.clone();
    d.take_int().unwrap();
    assert!(d != e);
    let z = ParsedData::default();
    assert!(z.is_empty_marker());
    assert_eq!(z.name, "");
    assert!(matches!(DataEnum::default(), DataEnum::Empty));
}
