//! The syntax tree that the engine inspects, as plain values: the parts of
//! declarations, statements, expressions, patterns and type expressions
//! that route discovery, parameter classification and schema resolution
//! read.

use crate::document::Path;
use crate::schema::Type;
use vstd::prelude::*;

verus! {

/// A type expression.
#[derive(Debug)]
pub enum TypeExpr {
    /// A path, such as `Option<String>` or `std::string::String`.
    Path(TypePath),
    /// A tuple of type expressions.
    Tuple(Vec<TypeExpr>),
    /// A shape that is known but has no case in the resolver: an array, a
    /// reference, a slice, a function pointer and the like.
    Unhandled,
    /// A shape outside the set of shapes that the resolver knows.
    Unknown,
}

/// The segments of a path that names a type.
#[derive(Debug)]
pub struct TypePath {
    pub segments: Vec<PathSegment>,
}

/// One segment of a type path: an identifier and its arguments.
#[derive(Debug)]
pub struct PathSegment {
    pub ident: String,
    pub arguments: PathArguments,
}

/// The arguments that stand behind a path segment.
#[derive(Debug)]
pub enum PathArguments {
    /// No arguments, as in `String`.
    Plain,
    /// Generic arguments in angle brackets, as in `Option<String>`.
    AngleBracketed(Vec<GenericArgument>),
    /// Arguments in round brackets, as in `Fn(u8) -> bool`.
    Parenthesized,
}

/// One generic argument.
#[derive(Debug)]
pub enum GenericArgument {
    /// A type.
    Type(TypeExpr),
    /// A lifetime, a constant, a binding or a constraint.
    Other,
}

/// A pattern that binds a function parameter.
#[derive(Debug)]
pub enum Pattern {
    /// A plain name, as in `query: Query<T>`.
    Ident(String),
    /// A wrapper that is taken apart, as in `Query(query): Query<T>`: the
    /// identifiers of the wrapper's path and the patterns inside it.
    TupleStruct(Vec<String>, Vec<Pattern>),
    /// Any other pattern.
    Other,
}

/// A parameter of a function.
#[derive(Debug)]
pub enum FnParam {
    /// `self` in one of its forms.
    Receiver,
    /// A pattern with its declared type.
    Typed(Pattern, TypeExpr),
}

/// A method call: the name of the method and the arguments. The receiver is
/// left out, since nothing reads it.
#[derive(Debug)]
pub struct MethodCall {
    pub method: String,
    pub args: Vec<Expr>,
}

/// A call: what is called and the arguments.
#[derive(Debug)]
pub struct Call {
    pub func: Box<Expr>,
    pub args: Vec<Expr>,
}

/// An expression.
#[derive(Debug)]
pub enum Expr {
    /// A method call.
    MethodCall(MethodCall),
    /// A call.
    Call(Call),
    /// A path: the identifiers of its segments.
    Path(Vec<String>),
    /// A string literal: its value.
    StrLit(String),
    /// Any other expression.
    Other,
}

/// A statement of a function body.
#[derive(Debug)]
pub enum Stmt {
    /// A local binding with its initializer, if it has one.
    Local(Option<Expr>),
    /// An item declared inside the body.
    Item,
    /// An expression without a semicolon behind it.
    Expr(Expr),
    /// An expression with a semicolon behind it.
    Semi(Expr),
}

/// One field of a record: its name and its type.
#[derive(Debug)]
pub struct RecordField {
    pub name: String,
    pub ty: TypeExpr,
}

/// The declaration of a record type.
#[derive(Debug)]
pub struct RecordDecl {
    pub name: String,
    pub fields: Vec<RecordField>,
}

/// The declaration of a function.
#[derive(Debug)]
pub struct FnDecl {
    pub name: String,
    pub params: Vec<FnParam>,
    pub body: Vec<Stmt>,
}

/// A declaration at the top level of a source file.
#[derive(Debug)]
pub enum Item {
    Record(RecordDecl),
    Function(FnDecl),
    Other,
}

/// A parsed source file.
#[derive(Debug)]
pub struct SourceFile {
    pub items: Vec<Item>,
}

/// The identifiers of `segments`, in order.
pub open spec fn segment_idents(segments: Seq<PathSegment>) -> Seq<Seq<char>> {
    Seq::new(segments.len(), |i: int| segments[i].ident@)
}

/// The views of `names`, in order.
pub open spec fn name_views(names: Seq<String>) -> Seq<Seq<char>> {
    Seq::new(names.len(), |i: int| names[i]@)
}

/// The non-tuple type expressions that `ty` is made of, from left to right:
/// `ty` itself, or what the elements of the tuple are made of.
pub open spec fn leaves(ty: TypeExpr) -> Seq<TypeExpr>
    decreases ty, 1nat, 0nat,
{
    match ty {
        TypeExpr::Tuple(elems) => leaves_of_first(ty, elems@.len()),
        _ => seq![ty],
    }
}

/// The leaves of the first `count` elements of the tuple `ty`.
pub open spec fn leaves_of_first(ty: TypeExpr, count: nat) -> Seq<TypeExpr>
    decreases ty, 0nat, count,
{
    match ty {
        TypeExpr::Tuple(elems) => if 0 < count <= elems@.len() {
            leaves_of_first(ty, (count - 1) as nat) + leaves(elems@[count - 1])
        } else {
            Seq::empty()
        },
        _ => Seq::empty(),
    }
}

} // verus!
