use infer_json_stream::generation::{
    format_declaration, format_invalid_declaration, format_member, generate_typescript_definitions,
};
use infer_json_stream::types::{InferredType, PrimitiveType};
use infer_json_stream::types::InputData;

fn inputs(json_input: &str) -> Vec<InputData> {
    let records: serde_json::Value = serde_json::from_str(json_input).unwrap();
    records
        .as_array()
        .unwrap()
        .iter()
        .map(|r| InputData {
            category: r.get("type").unwrap().as_str().unwrap().to_string(),
            content: r.get("content").unwrap().as_str().unwrap().to_string(),
        })
        .collect()
}

fn normalize_ts_output(output: &str) -> String {
    output
        .lines()
        .map(|line| {
            if line.trim().starts_with("export type") && line.contains("= {") {
                let parts: Vec<&str> = line.splitn(2, "= {").collect();
                if parts.len() == 2 {
                    let type_def_start = parts[0];
                    let properties_block = parts[1].trim_end_matches("};").trim_end_matches("}");
                    let mut properties: Vec<&str> = properties_block
                        .split(';')
                        .map(|p| p.trim())
                        .filter(|p| !p.is_empty())
                        .collect();
                    properties.sort();
                    return format!("{} = {{\n{}\n}};", type_def_start, properties.join(";\n"));
                }
            }
            line.to_string()
        })
        .collect::<Vec<String>>()
        .join("\n")
}

#[test]
fn test_basic_type_inference_simple_primitives() {
    let json_input = r#"[
        { "type": "simpleEvent", "content": "\"{\\\"name\\\":\\\"test\\\",\\\"value\\\":123,\\\"isActive\\\":true,\\\"meta\\\":null}\"" }
    ]"#;
    let expected_output = r#"export type SimpleEventContent = {
  isActive: boolean;
  meta: null;
  name: string;
  value: number
};

export type Events = { type: "simpleEvent", content: SimpleEventContent };
"#;
    let result = generate_typescript_definitions(inputs(json_input), "Events");
    assert_eq!(result.trim(), expected_output.trim());
}

#[test]
fn test_basic_type_inference_optional_fields() {
    let json_input = r#"[
        { "type": "userEvent", "content": "\"{\\\"id\\\":1,\\\"tags\\\":[\\\"a\\\",\\\"b\\\"]}\"" },
        { "type": "userEvent", "content": "\"{\\\"id\\\":2,\\\"name\\\":\\\"User2\\\",\\\"tags\\\":[\\\"c\\\"]}\"" }
    ]"#;
    let expected_output = r#"export type UserEventContent = {
  id: number;
  name?: string;
  tags: Array<string>
};

export type Events = { type: "userEvent", content: UserEventContent };
"#;
    let result = generate_typescript_definitions(inputs(json_input), "Events");
    assert_eq!(result.trim(), expected_output.trim());
}

#[test]
fn test_basic_type_inference_mixed_array_types() {
    let json_input = r#"[
        { "type": "dataEvent", "content": "\"{\\\"values\\\":[1,2]}\"" },
        { "type": "dataEvent", "content": "\"{\\\"values\\\":[\\\"a\\\",\\\"b\\\"]}\"" }
    ]"#;
    let expected_output = r#"export type DataEventContent = {
  values: Array<string | number>
};

export type Events = { type: "dataEvent", content: DataEventContent };
"#;
    let result = generate_typescript_definitions(inputs(json_input), "Events");
    assert_eq!(result.trim(), expected_output.trim());
}

#[test]
fn test_array_empty_to_typed_empty_then_typed_array() {
    let json_input = r#"[
        { "type": "userCreated", "content": "\"{\\\"id\\\":1,\\\"name\\\":\\\"Alice\\\",\\\"email\\\":\\\"alice@example.com\\\",\\\"arr\\\":[]}\"" },
        { "type": "userCreated", "content": "\"{\\\"id\\\":2,\\\"name\\\":\\\"Bob\\\",\\\"age\\\":30,\\\"arr\\\":[1,2,3]}\"" }
    ]"#;
    let expected_output = r#"export type UserCreatedContent = {
  age?: number;
  arr: Array<number>;
  email?: string;
  id: number;
  name: string
};

export type Events = { type: "userCreated", content: UserCreatedContent };
"#;
    let result = generate_typescript_definitions(inputs(json_input), "Events");
    assert_eq!(normalize_ts_output(&result), normalize_ts_output(expected_output));
}

#[test]
fn test_tuple_inference_simple_tuple() {
    let json_input = r#"[
        { "type": "tupleEvent", "content": "\"{\\\"coords\\\":[10, 20]}\"" }
    ]"#;
    let expected_output = r#"export type TupleEventContent = {
  coords: [number, number]
};

export type Events = { type: "tupleEvent", content: TupleEventContent };
"#;
    let result = generate_typescript_definitions(inputs(json_input), "Events");
    assert_eq!(result.trim(), expected_output.trim());
}

#[test]
fn test_tuple_inference_tuple_length_mismatch() {
    let json_input = r#"[
        { "type": "tupleEvent", "content": "\"{\\\"coords\\\":[10, 20]}\"" },
        { "type": "tupleEvent", "content": "\"{\\\"coords\\\":[30, 40, 50]}\"" }
    ]"#;
    let expected_output = r#"export type TupleEventContent = {
  coords: Array<number>
};

export type Events = { type: "tupleEvent", content: TupleEventContent };
"#;
    let result = generate_typescript_definitions(inputs(json_input), "Events");
    assert_eq!(result.trim(), expected_output.trim());
}

#[test]
fn test_tuple_inference_tuple_type_mismatch() {
    let json_input = r#"[
        { "type": "tupleEvent", "content": "\"{\\\"mixed\\\":[10, \\\"hello\\\"]}\"" }
    ]"#;
    let expected_output = r#"export type TupleEventContent = {
  mixed: [string, number]
};

export type Events = { type: "tupleEvent", content: TupleEventContent };
"#;
    let result = generate_typescript_definitions(inputs(json_input), "Events");
    assert_eq!(result.trim(), expected_output.trim());
}

#[test]
fn test_nested_and_nullable_objects_nested_objects() {
    let json_input = r#"[
        { "type": "nestedEvent", "content": "\"{\\\"user\\\":{\\\"id\\\":1,\\\"profile\\\":{\\\"name\\\":\\\"Alice\\\",\\\"age\\\":30}}}\"" }
    ]"#;
    let expected_output = r#"export type NestedEventContent = {
  user: {
  id: number;
  profile: {
  age: number;
  name: string
}
}
};

export type Events = { type: "nestedEvent", content: NestedEventContent };
"#;
    let result = generate_typescript_definitions(inputs(json_input), "Events");
    assert_eq!(result.trim(), expected_output.trim());
}

#[test]
fn test_nested_and_nullable_objects_nullable_object() {
    let json_input = r#"[
        { "type": "nullableEvent", "content": "\"{\\\"user\\\":{\\\"id\\\":1,\\\"name\\\":\\\"Alice\\\"}}\"" },
        { "type": "nullableEvent", "content": "\"{\\\"user\\\":null}\"" }
    ]"#;
    let expected_output = r#"export type NullableEventContent = {
  user: {
  id: number;
  name: string
} | null
};

export type Events = { type: "nullableEvent", content: NullableEventContent };
"#;
    let result = generate_typescript_definitions(inputs(json_input), "Events");
    assert_eq!(result.trim(), expected_output.trim());
}

#[test]
fn test_complex_array_objects_complex_array_with_objects() {
    let json_input = r#"[
        { "type": "itemsEvent", "content": "\"{\\\"items\\\":[{\\\"id\\\":1,\\\"name\\\":\\\"Item1\\\"},{\\\"id\\\":2,\\\"name\\\":\\\"Item2\\\"}]}\"" }
    ]"#;
    let expected_output = r#"export type ItemsEventContent = {
  items: Array<{
  id: number;
  name: string
}>
};

export type Events = { type: "itemsEvent", content: ItemsEventContent };
"#;
    let result = generate_typescript_definitions(inputs(json_input), "Events");
    assert_eq!(result.trim(), expected_output.trim());
}

#[test]
fn test_complex_array_objects_mixed_type_objects_in_array() {
    let json_input = r#"[
        { "type": "mixedItems", "content": "\"{\\\"items\\\":[{\\\"id\\\":1,\\\"type\\\":\\\"product\\\"},{\\\"code\\\":\\\"ABC\\\",\\\"type\\\":\\\"coupon\\\"}]}\"" }
    ]"#;
    let expected_output = r#"export type MixedItemsContent = {
  items: Array<{
  code?: string;
  id?: number;
  type: string
}>
};

export type Events = { type: "mixedItems", content: MixedItemsContent };
"#;
    let result = generate_typescript_definitions(inputs(json_input), "Events");
    assert_eq!(result.trim(), expected_output.trim());
}

#[test]
fn test_multiple_event_types_multiple_events() {
    let json_input = r#"[
        { "type": "login", "content": "\"{\\\"userId\\\":123,\\\"timestamp\\\":1621234567890}\"" },
        { "type": "logout", "content": "\"{\\\"userId\\\":123,\\\"timestamp\\\":1621234599999}\"" },
        { "type": "purchase", "content": "\"{\\\"userId\\\":123,\\\"productId\\\":456,\\\"amount\\\":29.99}\"" }
    ]"#;
    let expected_output = r#"export type LoginContent = {
  timestamp: number;
  userId: number
};

export type LogoutContent = {
  timestamp: number;
  userId: number
};

export type PurchaseContent = {
  amount: number;
  productId: number;
  userId: number
};

export type Events = { type: "login", content: LoginContent } | { type: "logout", content: LogoutContent } | { type: "purchase", content: PurchaseContent };
"#;
    let result = generate_typescript_definitions(inputs(json_input), "Events");
    assert_eq!(normalize_ts_output(&result), normalize_ts_output(expected_output));
}

#[test]
fn test_complex_property_keys_complex_property_keys() {
    let json_input = r#"[
        { "type": "specialKeys", "content": "\"{\\\"valid-key\\\":true,\\\"123numeric\\\":42,\\\"normal_key\\\":\\\"value\\\"}\"" }
    ]"#;
    let expected_output = r#"export type SpecialKeysContent = {
  "123numeric": number;
  normal_key: string;
  "valid-key": boolean
};

export type Events = { type: "specialKeys", content: SpecialKeysContent };
"#;
    let result = generate_typescript_definitions(inputs(json_input), "Events");
    assert_eq!(result.trim(), expected_output.trim());
}

#[test]
fn test_union_types_three_way_primitive_union() {
    let json_input = r#"[
        { "type": "unionEvent", "content": "\"{\\\"value\\\":true}\"" },
        { "type": "unionEvent", "content": "\"{\\\"value\\\":42}\"" },
        { "type": "unionEvent", "content": "\"{\\\"value\\\":\\\"string\\\"}\"" }
    ]"#;
    let expected_output = r#"export type UnionEventContent = {
  value: string | number | boolean
};

export type Events = { type: "unionEvent", content: UnionEventContent };
"#;
    let result = generate_typescript_definitions(inputs(json_input), "Events");
    assert_eq!(result.trim(), expected_output.trim());
}

#[test]
fn test_nullable_complex_structures_nullable_primitive() {
    let json_input = r#"[
        { "type": "nullablePrimitive", "content": "\"{\\\"value\\\":42}\"" },
        { "type": "nullablePrimitive", "content": "\"{\\\"value\\\":null}\"" }
    ]"#;
    let expected_output = r#"export type NullablePrimitiveContent = {
  value: number | null
};

export type Events = { type: "nullablePrimitive", content: NullablePrimitiveContent };
"#;
    let result = generate_typescript_definitions(inputs(json_input), "Events");
    assert_eq!(result.trim(), expected_output.trim());
}

#[test]
fn test_nullable_complex_structures_nested_nullable_objects() {
    let json_input = r#"[
        { "type": "deepNullable", "content": "\"{\\\"user\\\":{\\\"profile\\\":{\\\"settings\\\":{\\\"theme\\\":\\\"dark\\\"}}}}\"" },
        { "type": "deepNullable", "content": "\"{\\\"user\\\":{\\\"profile\\\":{\\\"settings\\\":null}}}\"" },
        { "type": "deepNullable", "content": "\"{\\\"user\\\":{\\\"profile\\\":null}}\"" },
        { "type": "deepNullable", "content": "\"{\\\"user\\\":null}\"" }
    ]"#;
    let expected_output = r#"export type DeepNullableContent = {
  user: {
  profile: {
  settings: {
  theme: string
} | null
} | null
} | null
};

export type Events = { type: "deepNullable", content: DeepNullableContent };
"#;
    let result = generate_typescript_definitions(inputs(json_input), "Events");
    assert_eq!(result.trim(), expected_output.trim());
}

#[test]
fn test_edge_cases_empty_object() {
    let json_input = r#"[
        { "type": "emptyEvent", "content": "\"{}\""}
    ]"#;
    let expected_output = r#"export type EmptyEventContent = object;

export type Events = { type: "emptyEvent", content: EmptyEventContent };
"#;
    let result = generate_typescript_definitions(inputs(json_input), "Events");
    assert_eq!(result.trim(), expected_output.trim());
}

#[test]
fn test_edge_cases_special_key() {
    let json_input = r#"[
        { "type": "specialKey", "content": "\"{\\\"normal\\\":\\\"value\\\",\\\"special-key\\\":\\\"test\\\"}\"" }
    ]"#;
    let expected_output = r#"export type SpecialKeyContent = {
  normal: string;
  "special-key": string
};

export type Events = { type: "specialKey", content: SpecialKeyContent };
"#;
    let result = generate_typescript_definitions(inputs(json_input), "Events");
    assert_eq!(result.trim(), expected_output.trim());
}

#[test]
fn test_mixed_content_formats_mixed_content_types() {
    let json_input = r#"[
        { "type": "mixedContent", "content": "\"{\\\"id\\\":1,\\\"data\\\":\\\"string data\\\"}\"" },
        { "type": "mixedContent", "content": "{\"id\": 2, \"data\": \"object data directly\"}" }
    ]"#;
    let expected_output = r#"export type MixedContentContent = {
  data: string;
  id: number
};

export type Events = { type: "mixedContent", content: MixedContentContent };
"#;
    let result = generate_typescript_definitions(inputs(json_input), "Events");
    assert_eq!(normalize_ts_output(&result), normalize_ts_output(expected_output));
}

#[test]
fn test_complex_nested_structures_deeply_nested_arrays() {
    let json_input = r#"[
        { "type": "nestedArrays", "content": "\"{\\\"data\\\":[[1,2],[3,4]]}\"" }
    ]"#;
    let expected_output = r#"export type NestedArraysContent = {
  data: Array<[number, number]>
};

export type Events = { type: "nestedArrays", content: NestedArraysContent };
"#;
    let result = generate_typescript_definitions(inputs(json_input), "Events");
    assert_eq!(normalize_ts_output(&result), normalize_ts_output(expected_output));
}

#[test]
fn test_complex_nested_structures_complex_nested_data() {
    let json_input = r#"[
        { "type": "complexNested", "content": "\"{\\\"users\\\":[{\\\"id\\\":1,\\\"addresses\\\":[{\\\"city\\\":\\\"NYC\\\",\\\"zipCode\\\":10001},{\\\"city\\\":\\\"SF\\\",\\\"zipCode\\\":94107}]}]}\"" }
    ]"#;
    let expected_output = r#"export type ComplexNestedContent = {
  users: Array<{
  addresses: Array<{
  city: string;
  zipCode: number
}>;
  id: number
}>
};

export type Events = { type: "complexNested", content: ComplexNestedContent };
"#;
    let result = generate_typescript_definitions(inputs(json_input), "Events");
    assert_eq!(normalize_ts_output(&result), normalize_ts_output(expected_output));
}

#[test]
fn test_heterogeneous_arrays_heterogeneous_objects_array() {
    let json_input = r#"[
        { "type": "mixedObjects", "content": "\"{\\\"items\\\":[{\\\"type\\\":\\\"user\\\",\\\"id\\\":1,\\\"name\\\":\\\"Alice\\\"},{\\\"type\\\":\\\"product\\\",\\\"id\\\":100,\\\"price\\\":29.99}]}\"" }
    ]"#;
    let expected_output = r#"export type MixedObjectsContent = {
  items: Array<{
  id: number;
  name?: string;
  price?: number;
  type: string
}>
};

export type Events = { type: "mixedObjects", content: MixedObjectsContent };
"#;
    let result = generate_typescript_definitions(inputs(json_input), "Events");
    assert_eq!(normalize_ts_output(&result), normalize_ts_output(expected_output));
}

#[test]
fn test_heterogeneous_arrays_empty_array_then_populated() {
    let json_input = r#"[
        { "type": "arrayEvent", "content": "\"{\\\"items\\\":[]}\"" },
        { "type": "arrayEvent", "content": "\"{\\\"items\\\":[{\\\"id\\\":1}]}\"" }
    ]"#;
    let expected_output = r#"export type ArrayEventContent = {
  items: Array<{
  id: number
}>
};

export type Events = { type: "arrayEvent", content: ArrayEventContent };
"#;
    let result = generate_typescript_definitions(inputs(json_input), "Events");
    assert_eq!(normalize_ts_output(&result), normalize_ts_output(expected_output));
}
#[test]
fn test_invalid_json_handling() {
    let input_data = vec![InputData {
        category: "invalidJson".to_string(),
        content: "{invalid-json}".to_string(),
    }];

    let ts_output = generate_typescript_definitions(input_data, "Events");
    assert!(
        ts_output.contains("// The 'content' field contained invalid JSON: \"{invalid-json}\"")
            && ts_output.contains("export type InvalidJsonContent = string;"),
        "Should output a string type for invalid JSON"
    );
}

#[test]
fn invalid_sample_forces_string_even_with_valid_ones() {
    let input_data = vec![
        InputData { category: "ev".to_string(), content: "{\"a\":1}".to_string() },
        InputData { category: "ev".to_string(), content: "\"not json inside\"".to_string() },
        InputData { category: "ev".to_string(), content: "{broken".to_string() },
    ];
    let out = generate_typescript_definitions(input_data, "Root");
    assert_eq!(
        out,
        "// The 'content' field contained invalid JSON: \"\"not json inside\"\"\nexport type EvContent = string;\n\nexport type Root = { type: \"ev\", content: EvContent };\n"
    );
}

#[test]
fn categories_are_sorted_and_keys_quoted() {
    let input_data = vec![
        InputData { category: "zeta".to_string(), content: "{\"123numeric\":1,\"valid_key\":true}".to_string() },
        InputData { category: "alpha".to_string(), content: "[1,\"x\"]".to_string() },
    ];
    let out = generate_typescript_definitions(input_data, "Events");
    assert_eq!(
        out,
        "export type AlphaContent = [string, number];\n\nexport type ZetaContent = {\n  \"123numeric\": number;\n  valid_key: boolean\n};\n\nexport type Events = { type: \"alpha\", content: AlphaContent } | { type: \"zeta\", content: ZetaContent };\n"
    );
}

#[test]
fn empty_input_gives_never_root() {
    let out = generate_typescript_definitions(Vec::new(), "Events");
    assert_eq!(out, "export type Events = never;\n");
}

#[test]
fn sometimes_null_object_is_nullable() {
    let input_data = vec![
        InputData { category: "c".to_string(), content: "{\"p\":null}".to_string() },
        InputData { category: "c".to_string(), content: "{\"p\":{\"q\":\"s\"}}".to_string() },
        InputData { category: "c".to_string(), content: "{\"p\":null}".to_string() },
    ];
    let out = generate_typescript_definitions(input_data, "Events");
    assert_eq!(
        out,
        "export type CContent = {\n  p: {\n  q: string\n} | null\n};\n\nexport type Events = { type: \"c\", content: CContent };\n"
    );
}

#[test]
fn sample_order_does_not_change_output() {
    let samples = [
        "{\"id\":1,\"tags\":[\"a\",\"b\"]}",
        "{\"id\":2,\"name\":\"User2\",\"tags\":[\"c\"]}",
        "{\"id\":3,\"tags\":[],\"extra\":{\"k\":true}}",
        "{\"id\":4,\"tags\":[\"d\",\"e\",\"f\"],\"extra\":{\"k\":false,\"j\":\"x\"}}",
    ];
    let build = |order: &[usize]| {
        order
            .iter()
            .map(|&i| InputData { category: "userEvent".to_string(), content: samples[i].to_string() })
            .collect::<Vec<_>>()
    };
    let first = generate_typescript_definitions(build(&[0, 1, 2, 3]), "Events");
    for order in [[3, 2, 1, 0], [1, 3, 0, 2], [2, 0, 3, 1]] {
        assert_eq!(generate_typescript_definitions(build(&order), "Events"), first);
    }
    assert_eq!(
        first,
        "export type UserEventContent = {\n  extra?: {\n  j?: string;\n  k: boolean\n};\n  id: number;\n  name?: string;\n  tags: Array<string>\n};\n\nexport type Events = { type: \"userEvent\", content: UserEventContent };\n"
    );
}

#[test]
fn null_object_and_string_in_any_order() {
    let contents = ["{\"p\":null}", "{\"p\":{}}", "{\"p\":\"s\"}"];
    let build = |order: &[usize]| {
        order
            .iter()
            .map(|&i| InputData { category: "c".to_string(), content: contents[i].to_string() })
            .collect::<Vec<_>>()
    };
    let expected = "export type CContent = {\n  p: any\n};\n\nexport type Events = { type: \"c\", content: CContent };\n";
    for order in [[0, 1, 2], [1, 2, 0], [2, 0, 1], [0, 2, 1]] {
        assert_eq!(generate_typescript_definitions(build(&order), "Events"), expected);
    }
}

#[test]
fn declaration_pieces_from_given_names() {
    assert_eq!(
        format_declaration("UserEvent", InferredType::Primitive(PrimitiveType::Number)),
        "export type UserEventContent = number;\n\n"
    );
    assert_eq!(
        format_invalid_declaration("Broken", "{x"),
        "// The 'content' field contained invalid JSON: \"{x\"\nexport type BrokenContent = string;\n\n"
    );
    assert_eq!(
        format_member("user_event", "UserEvent"),
        "{ type: \"user_event\", content: UserEventContent }"
    );
}

#[test]
fn mixed_categories_in_any_order() {
    let samples = [
        ("b", "{\"x\":[1,2],\"y\":null}"),
        ("a", "{\"p\":null}"),
        ("b", "{\"x\":null,\"y\":{\"z\":true}}"),
        ("a", "{\"p\":[\"s\"],\"q\":1}"),
        ("b", "{\"x\":[3,4,5]}"),
    ];
    let build = |order: &[usize]| {
        order
            .iter()
            .map(|&i| InputData { category: samples[i].0.to_string(), content: samples[i].1.to_string() })
            .collect::<Vec<_>>()
    };
    let first = generate_typescript_definitions(build(&[0, 1, 2, 3, 4]), "Events");
    for order in [[4, 3, 2, 1, 0], [2, 4, 0, 3, 1], [1, 3, 4, 0, 2]] {
        assert_eq!(generate_typescript_definitions(build(&order), "Events"), first);
    }
    assert_eq!(
        first,
        "export type AContent = {\n  p: [string] | null;\n  q?: number\n};\n\nexport type BContent = {\n  x: Array<number> | null;\n  y?: {\n  z: boolean\n} | null\n};\n\nexport type Events = { type: \"a\", content: AContent } | { type: \"b\", content: BContent };\n"
    );
}
