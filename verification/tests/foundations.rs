use cerebro_tidex::error::BrainError;
use cerebro_tidex::identity::{ModelId, Sha256Digest, TensorId};
use cerebro_tidex::json::{parse_json, Json};
use cerebro_tidex::order::{
    find_named, insert_named, text_standing, Named, Standing,
};
use cerebro_tidex::paths::{FilePath, PathPart};
use cerebro_tidex::scalar::{finite_row, row_copy, Scalar};
use cerebro_tidex::text::{
    alphanumeric, byte_length, chars_of, collapse, contains_text, decimal_text, joined, lower,
    lower_text, padded_or_empty, parse_u64, replace_pairs, split, strip_prefix, text_eq, text_of,
    trim, Margin,
};

fn scalar(value: f64) -> Scalar {
    Scalar::from_bits(value.to_bits())
}

fn number(value: Scalar) -> f64 {
    f64::from_bits(value.bits)
}

fn samples() -> Vec<f64> {
    vec![
        f64::NEG_INFINITY,
        -1.5e300,
        -2.0,
        -1.0,
        -f64::MIN_POSITIVE,
        -5e-324,
        -0.0,
        0.0,
        5e-324,
        0.3,
        1.0,
        1.0000000000000002,
        2.0,
        4.5e15,
        1.8e19,
        f64::MAX,
        f64::INFINITY,
        f64::NAN,
        -f64::NAN,
    ]
}

#[test]
fn scalars_compare_like_doubles() {
    for a in samples() {
        let x = scalar(a);
        assert_eq!(x.is_finite(), a.is_finite());
        assert_eq!(x.is_nan(), a.is_nan());
        assert_eq!(x.is_at_least_zero(), a >= 0.0);
        assert_eq!(x.is_positive(), a > 0.0);
        assert_eq!(x.is_at_most_one(), a <= 1.0);
        assert_eq!(x.is_within_one(), (-1.0..=1.0).contains(&a));
        assert_eq!(x.is_within_two(), (-2.0..=2.0).contains(&a));
        assert_eq!(x.in_unit_interval(), (0.0..=1.0).contains(&a));
        assert_eq!(x.abs().bits, a.abs().to_bits());
        for b in samples() {
            let y = scalar(b);
            assert_eq!(x.lt(y), a < b, "{a} < {b}");
            assert_eq!(x.le(y), a <= b, "{a} <= {b}");
            assert_eq!(x.same_value(y), a == b, "{a} == {b}");
        }
    }
}

#[test]
fn extremes_and_clamping_follow_doubles() {
    for a in samples() {
        let clamped = number(scalar(a).clamp_unit());
        assert!(clamped == a.clamp(0.0, 1.0) || (clamped.is_nan() && a.is_nan()));
        for b in samples() {
            let least = number(scalar(a).min(scalar(b)));
            let greatest = number(scalar(a).max(scalar(b)));
            assert!(least == a.min(b) || (least.is_nan() && a.min(b).is_nan()));
            assert!(greatest == a.max(b) || (greatest.is_nan() && a.max(b).is_nan()));
        }
    }
}

#[test]
fn whole_numbers_are_recognised() {
    for (value, whole) in [
        (0.0, Some(0)),
        (-0.0, Some(0)),
        (1.0, Some(1)),
        (1200.0, Some(1200)),
        (4503599627370497.0, Some(4503599627370497)),
        (9007199254740992.0, Some(9007199254740992)),
        (0.5, None),
        (-1.0, None),
        (1e300, None),
        (f64::NAN, None),
        (f64::INFINITY, None),
    ] {
        assert_eq!(scalar(value).to_whole_u64(), whole, "{value}");
    }
}

#[test]
fn rows_are_finite_or_not() {
    let row = vec![scalar(1.0), scalar(-2.0)];
    assert!(finite_row(&row));
    assert_eq!(row_copy(&row), row);
    assert!(!finite_row(&vec![scalar(1.0), scalar(f64::INFINITY)]));
    assert!(finite_row(&Vec::new()));
}

#[test]
fn texts_are_cut_and_joined() {
    assert!(text_eq("a\u{E9}", "a\u{E9}") && !text_eq("a", "b"));
    assert_eq!(text_of(&chars_of("a\u{1F600}b")), "a\u{1F600}b");
    assert_eq!(joined("ab", "cd"), "abcd");
    assert_eq!(byte_length("a\u{E9}\u{1F600}"), 7);
    let trimmed = |text, margin| text_of(&trim(&chars_of(text), margin));
    assert_eq!(trimmed(" \t\u{3000}x y\u{A0}\n", Margin::WhiteSpace), "x y");
    assert_eq!(trimmed("--a-b--", Margin::Dash), "a-b");
    assert_eq!(trimmed("._-a.b-_.", Margin::Separator), "a.b");
    assert_eq!(trimmed("---", Margin::Dash), "");
    assert!(padded_or_empty("") && padded_or_empty(" a") && padded_or_empty("a\u{2003}"));
    assert!(!padded_or_empty("a b"));
}

#[test]
fn texts_are_rewritten() {
    assert!(alphanumeric('z') && alphanumeric('0') && !alphanumeric('\u{E9}'));
    assert_eq!((lower('A'), lower('\u{C9}'), lower('-')), ('a', '\u{C9}', '-'));
    assert_eq!(text_of(&lower_text(&chars_of("AbC"))), "abc");
    assert!(contains_text(&chars_of("layernorm"), "norm"));
    assert!(!contains_text(&chars_of("nor"), "norm"));
    assert!(contains_text(&chars_of("x"), ""));
    let parts: Vec<String> = split(&chars_of("a,,b"), ',').iter().map(text_of).collect();
    assert_eq!(parts, ["a", "", "b"]);
    assert_eq!(split(&Vec::new(), ',').len(), 1);
    assert_eq!(text_of(&collapse(&chars_of("a...b.c.."), '.')), "a.b.c.");
    assert_eq!(
        text_of(&replace_pairs(&chars_of("a---b--c"), '-', '-', '.')),
        "a.-b.c"
    );
    assert_eq!(
        text_of(&strip_prefix(&chars_of("xyxyz"), "xy")),
        "z"
    );
}

#[test]
fn decimals_read_back() {
    for value in [0, 7, 10, 1200, u64::MAX] {
        assert_eq!(decimal_text(value), value.to_string());
        assert_eq!(parse_u64(&chars_of(&decimal_text(value))), Some(value));
    }
    for text in [
        "", "+", "-1", "1 ", "0x1", "18446744073709551616", "+5", "007", "1_0", "\u{661}",
    ] {
        assert_eq!(parse_u64(&chars_of(text)), text.parse::<u64>().ok(), "{text}");
    }
}

#[test]
fn texts_are_ordered_by_code_point() {
    for (a, b) in [("a", "b"), ("", "a"), ("a", "ab"), ("Z", "a"), ("z", "\u{E9}")] {
        assert_eq!(text_standing(a, b), Standing::Before);
        assert_eq!(text_standing(b, a), Standing::After);
        assert_eq!(text_standing(a, a), Standing::Same);
    }
}

#[test]
fn tables_keep_one_entry_per_name() {
    let mut table: Vec<Named<u64>> = Vec::new();
    for (name, value) in [("b", 1), ("a", 2), ("c", 3), ("b", 4)] {
        let inserted = insert_named(
            &mut table,
            Named {
                name: name.to_string(),
                value,
            },
        );
        assert_eq!(inserted, value != 4);
    }
    let entries: Vec<(&str, u64)> = table
        .iter()
        .map(|entry| (entry.name.as_str(), entry.value))
        .collect();
    assert_eq!(entries, [("a", 2), ("b", 1), ("c", 3)]);
    assert_eq!(find_named(&table, "b").unwrap().value, 1);
    assert!(find_named(&table, "d").is_none());
}

fn name(text: &str) -> PathPart {
    PathPart::Name(text.as_bytes().to_vec())
}

#[test]
fn paths_are_compared_by_component() {
    let base = FilePath {
        parts: vec![PathPart::Root, name("a")],
    };
    let inner = base.duplicate().join_name(b"b".to_vec());
    assert!(inner.starts_with(&base) && !base.starts_with(&inner));
    assert!(base.starts_with(&base));
    let sibling = FilePath {
        parts: vec![PathPart::Root, name("ab")],
    };
    assert!(!sibling.starts_with(&base));
    assert!(inner.parent().unwrap().same(&base));
    assert!(inner.has_file_name(&b"b".to_vec()) && !inner.has_file_name(&b"a".to_vec()));
    assert!(base.is_absolute());
    let up = FilePath {
        parts: vec![name("a"), PathPart::Parent],
    };
    assert!(up.has_parent_part() && !up.is_absolute() && !base.has_parent_part());
    let root = FilePath {
        parts: vec![PathPart::Root],
    };
    assert!(root.parent().is_none());
}

#[test]
fn json_documents_are_read_layer_by_layer() {
    let json = parse_json(br#"{"b":[1,-2.5,null,true,"x"],"a":{"c":18446744073709551615}}"#)
        .unwrap();
    assert!(json.is_object());
    match json.get("b").unwrap() {
        Json::Array(items) => {
            assert_eq!(items.len(), 5);
            assert_eq!(items[0].as_unsigned(), Some(1));
            assert_eq!(items[0].as_double().map(number), Some(1.0));
            assert_eq!(items[1].as_unsigned(), None);
            assert_eq!(items[1].as_double().map(number), Some(-2.5));
            assert!(matches!(items[2], Json::Null));
            assert!(matches!(items[3], Json::Bool(true)));
            assert_eq!(items[4].as_text(), Some("x"));
        }
        other => panic!("{other:?}"),
    }
    let inner = json.get("a").unwrap().get("c").unwrap();
    assert_eq!(inner.as_unsigned(), Some(u64::MAX));
    assert!(json.get("d").is_none() && inner.get("x").is_none());
    assert!(parse_json(b"{").is_none());
    assert!(parse_json(b"{} trailing").is_none());
}

#[test]
fn identities_and_errors_keep_their_texts() {
    let model = ModelId {
        text: "m".to_string(),
    };
    assert!(model.same(&model.clone()) && model.as_str() == "m");
    let tensor = TensorId {
        text: "t".to_string(),
    };
    assert!(!tensor.same(&TensorId {
        text: "u".to_string()
    }));
    assert_eq!(Sha256Digest::zero().as_str(), "0".repeat(64));
    let error = BrainError::integrity("code");
    assert_eq!(error.duplicate().code(), Some("code"));
    assert_eq!(BrainError::Io.code(), None);
    assert_eq!(BrainError::Json.code(), None);
}
