//! Type references: the canonical text of a type expression, by which a
//! type is looked up among the records and tested for the optional wrapper.

use crate::syntax::{GenericArgument, PathArguments, PathSegment, TypeExpr, leaves, segment_idents};
use crate::text::join;
use vstd::prelude::*;
use vstd::string::StringExecFns;

verus! {

/// What canonicalising a type expression gives.
pub enum Reference {
    /// The canonical text of the type.
    Named(Seq<char>),
    /// The type has a shape for which there is no case: it is passed over.
    Ignored,
    /// The type has a shape outside the known set: resolution cannot go on.
    Fatal,
}

/// What canonicalising a type expression gives, with the text owned.
#[derive(Debug, Clone, PartialEq, Eq)]
pub enum TypeReference {
    Named(String),
    Ignored,
    Fatal,
}

impl View for TypeReference {
    type V = Reference;

    open spec fn view(&self) -> Reference {
        match self {
            TypeReference::Named(text) => Reference::Named(text@),
            TypeReference::Ignored => Reference::Ignored,
            TypeReference::Fatal => Reference::Fatal,
        }
    }
}

/// The identifiers of a path, joined by `::`.
pub open spec fn ident_path(segments: Seq<PathSegment>) -> Seq<char> {
    join(segment_idents(segments), "::"@)
}

/// The canonical text of one path segment: its identifier, followed, where
/// the segment has generic arguments, by the identifier path of the last of
/// them in angle brackets. The last argument alone counts. A last argument
/// that is no type path, and arguments in round brackets, have no case; a
/// last argument of unknown shape is fatal.
pub open spec fn segment_reference(segment: PathSegment) -> Reference {
    match segment.arguments {
        PathArguments::Plain => Reference::Named(segment.ident@),
        PathArguments::Parenthesized => Reference::Ignored,
        PathArguments::AngleBracketed(args) => if args@.len() == 0 {
            Reference::Named(segment.ident@)
        } else {
            match args@.last() {
                GenericArgument::Type(TypeExpr::Path(inner)) => Reference::Named(
                    segment.ident@ + "<"@ + ident_path(inner.segments@) + ">"@,
                ),
                GenericArgument::Type(TypeExpr::Unknown) => Reference::Fatal,
                _ => Reference::Ignored,
            }
        },
    }
}

/// The canonical text of a path: the canonical texts of its segments,
/// joined by `::`. The first segment that has no text decides what the path
/// gives instead.
pub open spec fn path_reference(segments: Seq<PathSegment>) -> Reference
    decreases segments.len(),
{
    if segments.len() == 0 {
        Reference::Named(Seq::empty())
    } else {
        match path_reference(segments.drop_last()) {
            Reference::Named(before) => match segment_reference(segments.last()) {
                Reference::Named(text) => Reference::Named(
                    if segments.len() == 1 {
                        text
                    } else {
                        before + "::"@ + text
                    },
                ),
                other => other,
            },
            other => other,
        }
    }
}

/// The reference of a type expression that is no tuple: the canonical text
/// of a path; nothing for a shape without a case; fatal for an unknown
/// shape.
pub open spec fn type_reference(ty: TypeExpr) -> Reference {
    match ty {
        TypeExpr::Path(path) => path_reference(path.segments@),
        TypeExpr::Unknown => Reference::Fatal,
        _ => Reference::Ignored,
    }
}

/// The references of the non-tuple types that `ty` is made of, from left to
/// right.
pub open spec fn leaf_references(ty: TypeExpr) -> Seq<Reference> {
    Seq::new(leaves(ty).len(), |i: int| type_reference(leaves(ty)[i]))
}

/// The views of `references`, in order.
pub open spec fn reference_views(references: Seq<TypeReference>) -> Seq<Reference> {
    Seq::new(references.len(), |i: int| references[i]@)
}

/// Joins the identifiers of a path by `::`.
pub fn join_idents(segments: &Vec<PathSegment>) -> (res: String)
    ensures
        res@ == ident_path(segments@),
{
    let mut text = String::new();
    let mut index: usize = 0;
    assert(segment_idents(segments@.take(0)) =~= Seq::<Seq<char>>::empty());
    while index < segments.len()
        invariant
            index <= segments@.len(),
            text@ == ident_path(segments@.take(index as int)),
        decreases segments@.len() - index,
    {
        proof {
            let now = segment_idents(segments@.take(index + 1));
            assert(now.drop_last() =~= segment_idents(segments@.take(index as int)));
            assert(now.last() == segments@[index as int].ident@);
            if index == 0 {
                assert(text@ + segments@[0].ident@ =~= segments@[0].ident@);
            }
        }
        if index > 0 {
            text.append("::");
        }
        text.append(segments[index].ident.as_str());
        index += 1;
    }
    assert(segments@.take(index as int) =~= segments@);
    text
}

/// Canonicalises one path segment.
pub fn segment_type_reference(segment: &PathSegment) -> (res: TypeReference)
    ensures
        res@ == segment_reference(*segment),
{
    match &segment.arguments {
        PathArguments::Plain => TypeReference::Named(segment.ident.clone()),
        PathArguments::Parenthesized => TypeReference::Ignored,
        PathArguments::AngleBracketed(args) => {
            if args.len() == 0 {
                return TypeReference::Named(segment.ident.clone());
            }
            match &args[args.len() - 1] {
                GenericArgument::Type(TypeExpr::Path(inner)) => {
                    let mut text = segment.ident.clone();
                    text.append("<");
                    let inner_text = join_idents(&inner.segments);
                    text.append(inner_text.as_str());
                    text.append(">");
                    TypeReference::Named(text)
                },
                GenericArgument::Type(TypeExpr::Unknown) => TypeReference::Fatal,
                _ => TypeReference::Ignored,
            }
        },
    }
}

/// Canonicalises a path.
pub fn path_type_reference(segments: &Vec<PathSegment>) -> (res: TypeReference)
    ensures
        res@ == path_reference(segments@),
{
    let mut text = String::new();
    let mut index: usize = 0;
    while index < segments.len()
        invariant
            index <= segments@.len(),
            path_reference(segments@.take(index as int)) == Reference::Named(text@),
        decreases segments@.len() - index,
    {
        proof {
            assert(segments@.take(index + 1).drop_last() =~= segments@.take(index as int));
            assert(segments@.take(index + 1).last() == segments@[index as int]);
        }
        match segment_type_reference(&segments[index]) {
            TypeReference::Named(part) => {
                if index > 0 {
                    text.append("::");
                    text.append(part.as_str());
                } else {
                    assert(text@ + part@ =~= part@);
                    text.append(part.as_str());
                }
            },
            other => {
                proof {
                    lemma_path_reference_stops(segments@, index + 1);
                }
                return other;
            },
        }
        index += 1;
    }
    assert(segments@.take(index as int) =~= segments@);
    TypeReference::Named(text)
}

/// Once the first segments of a path give no text, the whole path gives
/// what they give.
pub proof fn lemma_path_reference_stops(segments: Seq<PathSegment>, count: int)
    requires
        0 <= count <= segments.len(),
        !(path_reference(segments.take(count)) is Named),
    ensures
        path_reference(segments) == path_reference(segments.take(count)),
    decreases segments.len(),
{
    if count == segments.len() {
        assert(segments.take(count) =~= segments);
    } else {
        assert(segments.drop_last().take(count) =~= segments.take(count));
        lemma_path_reference_stops(segments.drop_last(), count);
    }
}

/// Canonicalises a type expression that is no tuple.
pub fn leaf_type_reference(ty: &TypeExpr) -> (res: TypeReference)
    ensures
        res@ == type_reference(*ty),
{
    match ty {
        TypeExpr::Path(path) => path_type_reference(&path.segments),
        TypeExpr::Unknown => TypeReference::Fatal,
        _ => TypeReference::Ignored,
    }
}

} // verus!
