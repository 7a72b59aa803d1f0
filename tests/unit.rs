use infer_json_stream::formatting::{format_property_key, format_type_to_ts_string};
use infer_json_stream::inference::{infer_type_from_value, JsonValue};
use infer_json_stream::keys::compare_keys;
use infer_json_stream::merge::merge_types;
use infer_json_stream::types::{InferredType, PrimitiveType, PropertyDefinition, PropertyMap};

fn prim(p: PrimitiveType) -> InferredType {
    InferredType::Primitive(p)
}

fn prop(t: InferredType, optional: bool) -> PropertyDefinition {
    PropertyDefinition { ty: t, optional }
}

#[test]
fn test_format_property_key() {
    assert_eq!(format_property_key("normalKey"), "normalKey");
    assert_eq!(format_property_key("with-dash"), "\"with-dash\"");
    assert_eq!(format_property_key("123numeric"), "\"123numeric\"");
    assert_eq!(format_property_key("with\"quote"), "\"with\\\"quote\"");
    assert_eq!(format_property_key("$special"), "$special");
    assert_eq!(format_property_key("_underscore"), "_underscore");
}

#[test]
fn test_primitive_type_as_str() {
    assert_eq!(PrimitiveType::String.as_str(), "string");
    assert_eq!(PrimitiveType::Number.as_str(), "number");
    assert_eq!(PrimitiveType::Boolean.as_str(), "boolean");
    assert_eq!(PrimitiveType::Null.as_str(), "null");
}

#[test]
fn test_infer_primitive_types() {
    assert!(matches!(
        infer_type_from_value(JsonValue::Str("test".to_string())),
        InferredType::Primitive(PrimitiveType::String)
    ));
    assert!(matches!(
        infer_type_from_value(JsonValue::Number),
        InferredType::Primitive(PrimitiveType::Number)
    ));
    assert!(matches!(
        infer_type_from_value(JsonValue::Bool(true)),
        InferredType::Primitive(PrimitiveType::Boolean)
    ));
    assert!(matches!(
        infer_type_from_value(JsonValue::Null),
        InferredType::Primitive(PrimitiveType::Null)
    ));
}

#[test]
fn test_merge_primitive_types() {
    assert_eq!(
        merge_types(prim(PrimitiveType::String), prim(PrimitiveType::String)),
        prim(PrimitiveType::String)
    );

    let merged = merge_types(prim(PrimitiveType::String), prim(PrimitiveType::Number));
    if let InferredType::PrimitiveUnion(types) = merged {
        assert_eq!(types.len(), 2);
        assert!(types.contains(&PrimitiveType::String));
        assert!(types.contains(&PrimitiveType::Number));
    } else {
        panic!("Expected PrimitiveUnion, got {merged:?}");
    }

    assert_eq!(
        merge_types(prim(PrimitiveType::String), InferredType::Any),
        InferredType::Any
    );
}

#[test]
fn test_merge_objects() {
    let mut obj1 = PropertyMap::new();
    obj1.insert("id".to_string(), prop(prim(PrimitiveType::Number), false));
    obj1.insert("name".to_string(), prop(prim(PrimitiveType::String), false));

    let mut obj2 = PropertyMap::new();
    obj2.insert("id".to_string(), prop(prim(PrimitiveType::Number), false));
    obj2.insert("age".to_string(), prop(prim(PrimitiveType::Number), false));

    let merged = merge_types(InferredType::Object(obj1), InferredType::Object(obj2));

    if let InferredType::Object(props) = merged {
        assert_eq!(props.len(), 3);
        assert!(!props.get("id").unwrap().optional);
        assert!(props.get("name").unwrap().optional);
        assert!(props.get("age").unwrap().optional);
    } else {
        panic!("Expected Object, got {merged:?}");
    }
}

#[test]
fn test_custom_primitive_type_ordering() {
    let types = [
        PrimitiveType::String,
        PrimitiveType::Number,
        PrimitiveType::Boolean,
        PrimitiveType::Null,
    ];
    let mut sorted_types = types;
    sorted_types.sort();
    assert_eq!(sorted_types, types,);
}

#[test]
fn merge_is_commutative_on_examples() {
    let pairs = [
        (PrimitiveType::Null, PrimitiveType::String),
        (PrimitiveType::Boolean, PrimitiveType::Number),
    ];
    for (a, b) in pairs {
        assert_eq!(merge_types(prim(a), prim(b)), merge_types(prim(b), prim(a)));
    }
    let t1 = || InferredType::PrimitiveTuple(vec![PrimitiveType::Number, PrimitiveType::Number]);
    let t2 = || InferredType::PrimitiveTuple(vec![PrimitiveType::String]);
    assert_eq!(merge_types(t1(), t2()), merge_types(t2(), t1()));
}

#[test]
fn never_is_identity_and_any_absorbs() {
    let obj = || {
        let mut m = PropertyMap::new();
        m.insert("a".to_string(), prop(prim(PrimitiveType::Boolean), true));
        InferredType::Object(m)
    };
    assert_eq!(merge_types(InferredType::Never, obj()), obj());
    assert_eq!(merge_types(obj(), InferredType::Never), obj());
    assert_eq!(merge_types(InferredType::Any, obj()), InferredType::Any);
    assert_eq!(merge_types(InferredType::Never, InferredType::Any), InferredType::Any);
}

#[test]
fn union_keeps_fixed_order_without_duplicates() {
    let u = merge_types(prim(PrimitiveType::Null), prim(PrimitiveType::String));
    assert_eq!(
        u,
        InferredType::PrimitiveUnion(vec![PrimitiveType::String, PrimitiveType::Null])
    );
    let u2 = merge_types(u, prim(PrimitiveType::Number));
    assert_eq!(
        u2,
        InferredType::PrimitiveUnion(vec![
            PrimitiveType::String,
            PrimitiveType::Number,
            PrimitiveType::Null
        ])
    );
    let u3 = merge_types(u2, prim(PrimitiveType::Null));
    assert_eq!(format_type_to_ts_string(u3), "string | number | null");
}

#[test]
fn tuples_collapse_to_arrays() {
    let two = InferredType::PrimitiveTuple(vec![PrimitiveType::Number, PrimitiveType::Number]);
    let three = InferredType::PrimitiveTuple(vec![PrimitiveType::Number; 3]);
    assert_eq!(
        merge_types(two, three),
        InferredType::Array(Box::new(prim(PrimitiveType::Number)))
    );
    let mixed = InferredType::PrimitiveTuple(vec![
        PrimitiveType::String,
        PrimitiveType::Number,
        PrimitiveType::Number,
    ]);
    let arr = InferredType::Array(Box::new(prim(PrimitiveType::Boolean)));
    assert_eq!(
        merge_types(mixed, arr),
        InferredType::Array(Box::new(InferredType::PrimitiveUnion(vec![
            PrimitiveType::String,
            PrimitiveType::Number,
            PrimitiveType::Boolean
        ])))
    );
    let empty = InferredType::PrimitiveTuple(vec![]);
    let arr2 = InferredType::Array(Box::new(prim(PrimitiveType::String)));
    assert_eq!(
        merge_types(empty, arr2),
        InferredType::Array(Box::new(prim(PrimitiveType::String)))
    );
}

#[test]
fn null_with_object_and_nullable() {
    let obj = || {
        let mut m = PropertyMap::new();
        m.insert("x".to_string(), prop(prim(PrimitiveType::Number), false));
        InferredType::Object(m)
    };
    let n = merge_types(obj(), prim(PrimitiveType::Null));
    assert_eq!(n, InferredType::NullableObj(Box::new(obj())));
    let again = merge_types(prim(PrimitiveType::Null), n);
    assert_eq!(again, InferredType::NullableObj(Box::new(obj())));
    assert_eq!(format_type_to_ts_string(again), "{\n  x: number\n} | null");
    let tuple = || InferredType::PrimitiveTuple(vec![PrimitiveType::Number]);
    assert_eq!(
        merge_types(tuple(), prim(PrimitiveType::Null)),
        InferredType::NullableObj(Box::new(tuple()))
    );
}

#[test]
fn nullable_that_meets_an_incompatible_shape_is_any() {
    let empty = || InferredType::Object(PropertyMap::new());
    let s = || prim(PrimitiveType::String);
    let n = || prim(PrimitiveType::Null);
    let left = merge_types(merge_types(n(), empty()), s());
    let right = merge_types(n(), merge_types(empty(), s()));
    assert_eq!(left, InferredType::Any);
    assert_eq!(right, InferredType::Any);
    let t1 = || InferredType::PrimitiveTuple(vec![PrimitiveType::Number]);
    let t2 = || InferredType::PrimitiveTuple(vec![PrimitiveType::Number, PrimitiveType::Number]);
    let l2 = merge_types(merge_types(n(), t1()), t2());
    let r2 = merge_types(n(), merge_types(t1(), t2()));
    assert_eq!(l2, r2);
    assert_eq!(format_type_to_ts_string(l2), "Array<number> | null");
}

#[test]
fn incompatible_shapes_become_any() {
    let mut m = PropertyMap::new();
    m.insert("x".to_string(), prop(prim(PrimitiveType::Number), false));
    assert_eq!(
        merge_types(prim(PrimitiveType::String), InferredType::Object(m)),
        InferredType::Any
    );
}

#[test]
fn object_rendering_ignores_insertion_order() {
    let mut a = PropertyMap::new();
    a.insert("zeta".to_string(), prop(prim(PrimitiveType::Number), false));
    a.insert("alpha".to_string(), prop(prim(PrimitiveType::String), true));
    a.insert("mid".to_string(), prop(prim(PrimitiveType::Null), false));
    let mut b = PropertyMap::new();
    b.insert("mid".to_string(), prop(prim(PrimitiveType::Null), false));
    b.insert("alpha".to_string(), prop(prim(PrimitiveType::String), true));
    b.insert("zeta".to_string(), prop(prim(PrimitiveType::Number), false));
    let ra = format_type_to_ts_string(InferredType::Object(a));
    let rb = format_type_to_ts_string(InferredType::Object(b));
    assert_eq!(ra, rb);
    assert_eq!(ra, "{\n  alpha?: string;\n  mid: null;\n  zeta: number\n}");
}

#[test]
fn insert_replaces_existing_key() {
    let mut m = PropertyMap::new();
    m.insert("k".to_string(), prop(prim(PrimitiveType::Number), false));
    m.insert("k".to_string(), prop(prim(PrimitiveType::String), true));
    assert_eq!(m.len(), 1);
    assert!(m.get("k").unwrap().optional);
    assert!(m.get("missing").is_none());
    assert!(!m.is_empty());
}

#[test]
fn rendering_of_each_variant() {
    assert_eq!(format_type_to_ts_string(InferredType::Any), "any");
    assert_eq!(format_type_to_ts_string(InferredType::PrimitiveTuple(vec![])), "[]");
    assert_eq!(
        format_type_to_ts_string(InferredType::PrimitiveTuple(vec![
            PrimitiveType::String,
            PrimitiveType::Number
        ])),
        "[string, number]"
    );
    assert_eq!(
        format_type_to_ts_string(InferredType::Array(Box::new(prim(PrimitiveType::Boolean)))),
        "Array<boolean>"
    );
    assert_eq!(format_type_to_ts_string(InferredType::Object(PropertyMap::new())), "object");
}

#[test]
fn inference_of_arrays_and_objects() {
    let arr = JsonValue::Array(vec![
        JsonValue::Number,
        JsonValue::Str("a".to_string()),
        JsonValue::Null,
    ]);
    assert_eq!(
        infer_type_from_value(arr),
        InferredType::PrimitiveTuple(vec![
            PrimitiveType::String,
            PrimitiveType::Number,
            PrimitiveType::Null
        ])
    );
    assert_eq!(
        infer_type_from_value(JsonValue::Array(vec![])),
        InferredType::PrimitiveTuple(vec![])
    );
    let nested = JsonValue::Array(vec![
        JsonValue::Array(vec![JsonValue::Number]),
        JsonValue::Array(vec![JsonValue::Number, JsonValue::Number]),
    ]);
    assert_eq!(
        infer_type_from_value(nested),
        InferredType::Array(Box::new(InferredType::Array(Box::new(prim(
            PrimitiveType::Number
        )))))
    );
    let obj = JsonValue::Object(vec![
        ("b".to_string(), JsonValue::Bool(false)),
        ("a".to_string(), JsonValue::Null),
    ]);
    let t = infer_type_from_value(obj);
    assert_eq!(format_type_to_ts_string(t), "{\n  a: null;\n  b: boolean\n}");
}

#[test]
fn key_comparison_is_lexicographic() {
    assert!(compare_keys("a", "b") < 0);
    assert!(compare_keys("b", "a") > 0);
    assert!(compare_keys("ab", "a") > 0);
    assert_eq!(compare_keys("same", "same"), 0);
    assert!(compare_keys("Z", "a") < 0);
}

#[test]
fn merge_grouping_does_not_matter_for_objects() {
    let obj = |keys: &[(&str, PrimitiveType)]| {
        let mut m = PropertyMap::new();
        for (k, p) in keys {
            m.insert(k.to_string(), prop(prim(*p), false));
        }
        InferredType::Object(m)
    };
    let a = || obj(&[("id", PrimitiveType::Number), ("name", PrimitiveType::String)]);
    let b = || obj(&[("id", PrimitiveType::String)]);
    let c = || obj(&[("tag", PrimitiveType::Boolean), ("name", PrimitiveType::String)]);
    let left = merge_types(merge_types(a(), b()), c());
    let right = merge_types(a(), merge_types(b(), c()));
    assert_eq!(left, right);
    assert_eq!(
        format_type_to_ts_string(left),
        "{\n  id?: string | number;\n  name?: string;\n  tag?: boolean\n}"
    );
}

#[test]
fn quoted_keys_escape_backslashes() {
    assert_eq!(format_property_key("a\\b"), "\"a\\\\b\"");
    assert_eq!(format_property_key("end\\"), "\"end\\\\\"");
    assert_eq!(format_property_key("q\"\\"), "\"q\\\"\\\\\"");
}
