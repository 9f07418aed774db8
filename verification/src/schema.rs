//! The rendering of type names: the fixed table of primitive types, and the
//! reference that every other name becomes.

use crate::text::{ascii_fold, str_eq_ignore_ascii_case};
use vstd::prelude::*;
use vstd::string::StringExecFns;

verus! {

/// The rendering of a type name.
#[derive(Debug, Clone, PartialEq, Eq)]
pub enum Type {
    /// A primitive type, by its name in the document.
    Primitive { ty: String },
    /// A reference to the component schema of that name.
    Ref { reference: String },
}

/// What a `Type` holds.
pub enum TypeModel {
    Primitive { ty: Seq<char> },
    Ref { reference: Seq<char> },
}

impl View for Type {
    type V = TypeModel;

    open spec fn view(&self) -> TypeModel {
        match self {
            Type::Primitive { ty } => TypeModel::Primitive { ty: ty@ },
            Type::Ref { reference } => TypeModel::Ref { reference: reference@ },
        }
    }
}

impl DeepView for Type {
    type V = TypeModel;

    open spec fn deep_view(&self) -> TypeModel {
        self@
    }
}

/// Whether two texts are the same once the case of ASCII letters is left
/// out of account.
pub open spec fn same_ignoring_case(a: Seq<char>, b: Seq<char>) -> bool {
    ascii_fold(a) == ascii_fold(b)
}

/// The primitive type that the table gives a type name, whatever the case
/// of its letters: `string` is a string, the 8-bit integers are bytes, the
/// wider integers are integers, the floating-point types are numbers and
/// `boolean` is a boolean. Any other name has none.
pub open spec fn primitive_of(name: Seq<char>) -> Option<Seq<char>> {
    if same_ignoring_case(name, "string"@) {
        Some("string"@)
    } else if same_ignoring_case(name, "i8"@) || same_ignoring_case(name, "u8"@) {
        Some("byte"@)
    } else if same_ignoring_case(name, "i16"@) || same_ignoring_case(name, "i32"@)
        || same_ignoring_case(name, "i64"@) || same_ignoring_case(name, "i128"@)
        || same_ignoring_case(name, "u16"@) || same_ignoring_case(name, "u32"@)
        || same_ignoring_case(name, "u64"@) || same_ignoring_case(name, "u128"@) {
        Some("integer"@)
    } else if same_ignoring_case(name, "f32"@) || same_ignoring_case(name, "f64"@) {
        Some("number"@)
    } else if same_ignoring_case(name, "boolean"@) {
        Some("boolean"@)
    } else {
        None
    }
}

/// The text of a reference to the component schema `name`.
pub open spec fn schema_reference(name: Seq<char>) -> Seq<char> {
    "#/components/schemas/"@ + name
}

/// The rendering of a type name: its primitive type where the table has
/// one, and a reference to the component of that name otherwise.
pub open spec fn openapi_type(name: Seq<char>) -> TypeModel {
    match primitive_of(name) {
        Some(ty) => TypeModel::Primitive { ty },
        None => TypeModel::Ref { reference: schema_reference(name) },
    }
}

/// The classification of type names is total and does not look at the case
/// of letters: two names that differ in case alone are both primitive, of
/// the same primitive type, or both references; and a name is rendered as a
/// reference to itself exactly where the table has no primitive type for
/// it.
pub proof fn lemma_classification_ignores_case(a: Seq<char>, b: Seq<char>)
    requires
        same_ignoring_case(a, b),
    ensures
        primitive_of(a) == primitive_of(b),
        primitive_of(a) is None <==> openapi_type(a) == (TypeModel::Ref {
            reference: schema_reference(a),
        }),
        primitive_of(a) matches Some(ty) ==> openapi_type(a) == (TypeModel::Primitive { ty })
            && openapi_type(b) == openapi_type(a),
{
}

/// The primitive type of `rust_type` in the table, if it has one.
fn primitive_name(rust_type: &str) -> (res: Option<&'static str>)
    ensures
        res is Some == primitive_of(rust_type@) is Some,
        res matches Some(ty) ==> primitive_of(rust_type@) == Some(ty@),
{
    if str_eq_ignore_ascii_case(rust_type, "string") {
        Some("string")
    } else if str_eq_ignore_ascii_case(rust_type, "i8") || str_eq_ignore_ascii_case(
        rust_type,
        "u8",
    ) {
        Some("byte")
    } else if str_eq_ignore_ascii_case(rust_type, "i16") || str_eq_ignore_ascii_case(
        rust_type,
        "i32",
    ) || str_eq_ignore_ascii_case(rust_type, "i64") || str_eq_ignore_ascii_case(rust_type, "i128")
        || str_eq_ignore_ascii_case(rust_type, "u16") || str_eq_ignore_ascii_case(rust_type, "u32")
        || str_eq_ignore_ascii_case(rust_type, "u64") || str_eq_ignore_ascii_case(
        rust_type,
        "u128",
    ) {
        Some("integer")
    } else if str_eq_ignore_ascii_case(rust_type, "f32") || str_eq_ignore_ascii_case(
        rust_type,
        "f64",
    ) {
        Some("number")
    } else if str_eq_ignore_ascii_case(rust_type, "boolean") {
        Some("boolean")
    } else {
        None
    }
}

/// Renders a type name: a primitive type where the fixed table has one for
/// the name, whatever the case of its letters, and a reference to the
/// component schema of that name otherwise.
pub fn rust_type_to_openapi_type(rust_type: &str) -> (res: Type)
    ensures
        res@ == openapi_type(rust_type@),
{
    match primitive_name(rust_type) {
        Some(ty) => Type::Primitive { ty: String::from_str(ty) },
        None => {
            let mut reference = String::from_str("#/components/schemas/");
            reference.append(rust_type);
            Type::Ref { reference }
        },
    }
}

} // verus!
