use swagger::schema::{rust_type_to_openapi_type, Type};

fn primitive(name: &str) -> Type {
    Type::Primitive { ty: name.to_string() }
}

#[test]
fn string_is_a_string() {
    assert_eq!(rust_type_to_openapi_type("string"), primitive("string"));
    assert_eq!(rust_type_to_openapi_type("String"), primitive("string"));
}

#[test]
fn eight_bit_integers_are_bytes() {
    assert_eq!(rust_type_to_openapi_type("i8"), primitive("byte"));
    assert_eq!(rust_type_to_openapi_type("u8"), primitive("byte"));
}

#[test]
fn wider_integers_are_integers() {
    for name in ["i16", "i32", "i64", "i128", "u16", "u32", "u64", "u128"] {
        assert_eq!(rust_type_to_openapi_type(name), primitive("integer"));
    }
}

#[test]
fn floating_point_types_are_numbers() {
    assert_eq!(rust_type_to_openapi_type("f32"), primitive("number"));
    assert_eq!(rust_type_to_openapi_type("f64"), primitive("number"));
}

#[test]
fn boolean_is_a_boolean() {
    assert_eq!(rust_type_to_openapi_type("boolean"), primitive("boolean"));
}

#[test]
fn classification_ignores_case() {
    assert_eq!(rust_type_to_openapi_type("STRING"), primitive("string"));
    assert_eq!(rust_type_to_openapi_type("sTrInG"), primitive("string"));
    assert_eq!(rust_type_to_openapi_type("I8"), primitive("byte"));
    assert_eq!(rust_type_to_openapi_type("U128"), primitive("integer"));
    assert_eq!(rust_type_to_openapi_type("F64"), primitive("number"));
    assert_eq!(rust_type_to_openapi_type("Boolean"), primitive("boolean"));
}

#[test]
fn every_other_name_is_a_reference() {
    assert_eq!(
        rust_type_to_openapi_type("PostFooRequestBody"),
        Type::Ref { reference: "#/components/schemas/PostFooRequestBody".to_string() }
    );
    assert_eq!(
        rust_type_to_openapi_type("bool"),
        Type::Ref { reference: "#/components/schemas/bool".to_string() }
    );
    assert_eq!(
        rust_type_to_openapi_type("usize"),
        Type::Ref { reference: "#/components/schemas/usize".to_string() }
    );
    assert_eq!(
        rust_type_to_openapi_type(""),
        Type::Ref { reference: "#/components/schemas/".to_string() }
    );
    assert_eq!(
        rust_type_to_openapi_type("string "),
        Type::Ref { reference: "#/components/schemas/string ".to_string() }
    );
}

#[test]
fn reference_keeps_the_case_of_the_name() {
    assert_eq!(
        rust_type_to_openapi_type("foo"),
        Type::Ref { reference: "#/components/schemas/foo".to_string() }
    );
    assert_eq!(
        rust_type_to_openapi_type("FOO"),
        Type::Ref { reference: "#/components/schemas/FOO".to_string() }
    );
}

#[test]
fn folding_is_of_ascii_letters_only() {
    // U+017F folds to `s` in Unicode, but it is no ASCII letter.
    assert_eq!(
        rust_type_to_openapi_type("\u{17f}tring"),
        Type::Ref { reference: "#/components/schemas/\u{17f}tring".to_string() }
    );
}
