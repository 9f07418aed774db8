//! The report of what a run passes over without failing: statements in
//! which no route is looked for, calls of `route` that register nothing,
//! query parameters that bind no name and fields whose type has no case.

use crate::params::{binding_name, is_query, is_query_param, param_name};
use crate::reference::{Reference, TypeReference, leaf_references, reference_views};
use crate::resolver::collect_leaf_references;
use crate::routes::{match_route_call, registration_of, statement_call};
use crate::syntax::{
    Expr, FnDecl, FnParam, Item, MethodCall, RecordDecl, RecordField, SourceFile, Stmt,
};
use crate::text::str_eq;
use vstd::prelude::*;

verus! {

/// One thing that a run passes over.
#[derive(Debug, Clone, PartialEq, Eq)]
pub enum Diagnostic {
    /// A statement of a form in which no route is looked for: an item, or
    /// an expression without a semicolon.
    StatementPassedOver { function: String, statement: usize },
    /// A call of `route` that does not have the shape of a registration.
    UnrecognizedRoute { function: String, statement: usize },
    /// A parameter that is bound to the query but binds no name.
    UnrecognizedParameter { function: String, parameter: usize },
    /// A field with a type, or part of a type, of a shape without a case.
    UnsupportedFieldType { record: String, field: String },
}

/// What a `Diagnostic` holds.
pub enum Finding {
    StatementPassedOver { function: Seq<char>, statement: int },
    UnrecognizedRoute { function: Seq<char>, statement: int },
    UnrecognizedParameter { function: Seq<char>, parameter: int },
    UnsupportedFieldType { record: Seq<char>, field: Seq<char> },
}

impl DeepView for Diagnostic {
    type V = Finding;

    open spec fn deep_view(&self) -> Finding {
        match self {
            Diagnostic::StatementPassedOver { function, statement } => Finding::StatementPassedOver {
                function: function@,
                statement: *statement as int,
            },
            Diagnostic::UnrecognizedRoute { function, statement } => Finding::UnrecognizedRoute {
                function: function@,
                statement: *statement as int,
            },
            Diagnostic::UnrecognizedParameter {
                function,
                parameter,
            } => Finding::UnrecognizedParameter {
                function: function@,
                parameter: *parameter as int,
            },
            Diagnostic::UnsupportedFieldType { record, field } => Finding::UnsupportedFieldType {
                record: record@,
                field: field@,
            },
        }
    }
}

/// What is to be said of the statement at place `index` of the body of
/// `function`: that it is passed over, where it is an item or an expression
/// without a semicolon; that it is no registration, where it holds a call
/// of `route` that registers nothing; else nothing.
pub open spec fn statement_finding(function: Seq<char>, index: int, stmt: Stmt) -> Option<Finding> {
    match stmt {
        Stmt::Item => Some(Finding::StatementPassedOver { function, statement: index }),
        Stmt::Expr(_) => Some(Finding::StatementPassedOver { function, statement: index }),
        _ => match statement_call(stmt) {
            Some(call) => if call.method@ == "route"@ && registration_of(call) is None {
                Some(Finding::UnrecognizedRoute { function, statement: index })
            } else {
                None
            },
            None => None,
        },
    }
}

/// What is to be said of the statements of a body, in order.
pub open spec fn body_findings(function: Seq<char>, stmts: Seq<Stmt>) -> Seq<Finding>
    decreases stmts.len(),
{
    if stmts.len() == 0 {
        Seq::empty()
    } else {
        let before = body_findings(function, stmts.drop_last());
        match statement_finding(function, stmts.len() - 1, stmts.last()) {
            Some(finding) => before.push(finding),
            None => before,
        }
    }
}

/// What is to be said of the parameter at place `index` of `function`:
/// that it is not recognised, where it is bound to the query and binds no
/// name.
pub open spec fn param_finding(function: Seq<char>, index: int, param: FnParam) -> Option<Finding> {
    if is_query(param) && binding_name(param) is None {
        Some(Finding::UnrecognizedParameter { function, parameter: index })
    } else {
        None
    }
}

/// What is to be said of the parameters of a function, in order.
pub open spec fn param_findings(function: Seq<char>, params: Seq<FnParam>) -> Seq<Finding>
    decreases params.len(),
{
    if params.len() == 0 {
        Seq::empty()
    } else {
        let before = param_findings(function, params.drop_last());
        match param_finding(function, params.len() - 1, params.last()) {
            Some(finding) => before.push(finding),
            None => before,
        }
    }
}

/// Whether one of `references` is passed over.
pub open spec fn has_ignored(references: Seq<Reference>) -> bool {
    exists|i: int| 0 <= i < references.len() && (#[trigger] references[i]) is Ignored
}

/// What is to be said of a field of `record`: that its type is not
/// supported, where the type, or a type that it is made of, has a shape
/// without a case.
pub open spec fn field_finding(record: Seq<char>, field: RecordField) -> Option<Finding> {
    if has_ignored(leaf_references(field.ty)) {
        Some(Finding::UnsupportedFieldType { record, field: field.name@ })
    } else {
        None
    }
}

/// What is to be said of the fields of a record, in order.
pub open spec fn record_findings(record: Seq<char>, fields: Seq<RecordField>) -> Seq<Finding>
    decreases fields.len(),
{
    if fields.len() == 0 {
        Seq::empty()
    } else {
        let before = record_findings(record, fields.drop_last());
        match field_finding(record, fields.last()) {
            Some(finding) => before.push(finding),
            None => before,
        }
    }
}

/// What is to be said of one declaration: of a record what is to be said
/// of its fields; of a function what is to be said of its parameters and
/// then of its statements; of any other declaration nothing.
pub open spec fn item_findings(item: Item) -> Seq<Finding> {
    match item {
        Item::Record(record) => record_findings(record.name@, record.fields@),
        Item::Function(func) => param_findings(func.name@, func.params@) + body_findings(
            func.name@,
            func.body@,
        ),
        Item::Other => Seq::empty(),
    }
}

/// What is to be said of the declarations of a file, in order.
pub open spec fn file_findings(items: Seq<Item>) -> Seq<Finding>
    decreases items.len(),
{
    if items.len() == 0 {
        Seq::empty()
    } else {
        file_findings(items.drop_last()) + item_findings(items.last())
    }
}

/// Whether a statement holds a call of `route` that registers nothing.
fn is_unrecognized_route(stmt: &Stmt) -> (res: bool)
    ensures
        res == (statement_call(*stmt) matches Some(call) && call.method@ == "route"@
            && registration_of(call) is None),
{
    let call: Option<&MethodCall> = match stmt {
        Stmt::Semi(Expr::MethodCall(call)) => Some(call),
        Stmt::Local(Some(Expr::MethodCall(call))) => Some(call),
        _ => None,
    };
    match call {
        Some(call) => str_eq(call.method.as_str(), "route") && match_route_call(call).is_none(),
        None => false,
    }
}

/// Reports the statements of the body of `func` that are passed over.
pub fn diagnose_body(func: &FnDecl, out: &mut Vec<Diagnostic>)
    ensures
        final(out).deep_view() == old(out).deep_view() + body_findings(func.name@, func.body@),
{
    let ghost start = out.deep_view();
    let mut index: usize = 0;
    assert(func.body@.take(0) =~= Seq::<Stmt>::empty());
    assert(out.deep_view() =~= start + body_findings(func.name@, func.body@.take(0)));
    while index < func.body.len()
        invariant
            index <= func.body@.len(),
            out.deep_view() == start + body_findings(func.name@, func.body@.take(index as int)),
        decreases func.body@.len() - index,
    {
        let ghost before = out.deep_view();
        proof {
            assert(func.body@.take(index + 1).drop_last() =~= func.body@.take(index as int));
            assert(func.body@.take(index + 1).last() == func.body@[index as int]);
        }
        let found: Option<Diagnostic> = match &func.body[index] {
            Stmt::Item => Some(
                Diagnostic::StatementPassedOver { function: func.name.clone(), statement: index },
            ),
            Stmt::Expr(_) => Some(
                Diagnostic::StatementPassedOver { function: func.name.clone(), statement: index },
            ),
            other => if is_unrecognized_route(other) {
                Some(Diagnostic::UnrecognizedRoute { function: func.name.clone(), statement: index })
            } else {
                None
            },
        };
        match found {
            Some(diagnostic) => {
                out.push(diagnostic);
                assert(out.deep_view() =~= before.push(diagnostic.deep_view()));
                assert(out.deep_view() =~= start + body_findings(
                    func.name@,
                    func.body@.take(index + 1),
                ));
            },
            None => {},
        }
        index += 1;
    }
    assert(func.body@.take(index as int) =~= func.body@);
}

/// Reports the parameters of `func` that are bound to the query and bind
/// no name.
pub fn diagnose_params(func: &FnDecl, out: &mut Vec<Diagnostic>)
    ensures
        final(out).deep_view() == old(out).deep_view() + param_findings(func.name@, func.params@),
{
    let ghost start = out.deep_view();
    let mut index: usize = 0;
    assert(func.params@.take(0) =~= Seq::<FnParam>::empty());
    assert(out.deep_view() =~= start + param_findings(func.name@, func.params@.take(0)));
    while index < func.params.len()
        invariant
            index <= func.params@.len(),
            out.deep_view() == start + param_findings(func.name@, func.params@.take(index as int)),
        decreases func.params@.len() - index,
    {
        let ghost before = out.deep_view();
        proof {
            assert(func.params@.take(index + 1).drop_last() =~= func.params@.take(index as int));
            assert(func.params@.take(index + 1).last() == func.params@[index as int]);
        }
        if is_query_param(&func.params[index]) && param_name(&func.params[index]).is_none() {
            let diagnostic = Diagnostic::UnrecognizedParameter {
                function: func.name.clone(),
                parameter: index,
            };
            out.push(diagnostic);
            assert(out.deep_view() =~= before.push(diagnostic.deep_view()));
            assert(out.deep_view() =~= start + param_findings(
                func.name@,
                func.params@.take(index + 1),
            ));
        }
        index += 1;
    }
    assert(func.params@.take(index as int) =~= func.params@);
}

/// Whether the type of a field, or a type that it is made of, has a shape
/// without a case.
pub fn has_unsupported_type(field: &RecordField) -> (res: bool)
    ensures
        res == has_ignored(leaf_references(field.ty)),
{
    let mut references: Vec<TypeReference> = Vec::new();
    collect_leaf_references(&field.ty, &mut references);
    assert(reference_views(references@) =~= leaf_references(field.ty));
    let mut index: usize = 0;
    while index < references.len()
        invariant
            index <= references@.len(),
            reference_views(references@) == leaf_references(field.ty),
            forall|i: int|
                0 <= i < index ==> !((#[trigger] leaf_references(field.ty)[i]) is Ignored),
        decreases references@.len() - index,
    {
        assert(leaf_references(field.ty)[index as int] == references@[index as int]@);
        match &references[index] {
            TypeReference::Ignored => {
                return true;
            },
            _ => {},
        }
        index += 1;
    }
    false
}

/// Reports the fields of `record` whose type is not supported.
pub fn diagnose_record(record: &RecordDecl, out: &mut Vec<Diagnostic>)
    ensures
        final(out).deep_view() == old(out).deep_view() + record_findings(
            record.name@,
            record.fields@,
        ),
{
    let ghost start = out.deep_view();
    let mut index: usize = 0;
    assert(record.fields@.take(0) =~= Seq::<RecordField>::empty());
    assert(out.deep_view() =~= start + record_findings(record.name@, record.fields@.take(0)));
    while index < record.fields.len()
        invariant
            index <= record.fields@.len(),
            out.deep_view() == start + record_findings(
                record.name@,
                record.fields@.take(index as int),
            ),
        decreases record.fields@.len() - index,
    {
        let ghost before = out.deep_view();
        proof {
            assert(record.fields@.take(index + 1).drop_last() =~= record.fields@.take(
                index as int,
            ));
            assert(record.fields@.take(index + 1).last() == record.fields@[index as int]);
        }
        if has_unsupported_type(&record.fields[index]) {
            let diagnostic = Diagnostic::UnsupportedFieldType {
                record: record.name.clone(),
                field: record.fields[index].name.clone(),
            };
            out.push(diagnostic);
            assert(out.deep_view() =~= before.push(diagnostic.deep_view()));
            assert(out.deep_view() =~= start + record_findings(
                record.name@,
                record.fields@.take(index + 1),
            ));
        }
        index += 1;
    }
    assert(record.fields@.take(index as int) =~= record.fields@);
}

/// Reports what a run on `syntax` passes over without failing, declaration
/// by declaration: the fields of records whose type is not supported, the
/// query parameters of functions that bind no name, the statements in which
/// no route is looked for and the calls of `route` that register nothing.
pub fn diagnose(syntax: &SourceFile) -> (res: Vec<Diagnostic>)
    ensures
        res.deep_view() == file_findings(syntax.items@),
{
    let mut out: Vec<Diagnostic> = Vec::new();
    let mut index: usize = 0;
    assert(syntax.items@.take(0) =~= Seq::<Item>::empty());
    assert(out.deep_view() =~= Seq::<Finding>::empty());
    while index < syntax.items.len()
        invariant
            index <= syntax.items@.len(),
            out.deep_view() == file_findings(syntax.items@.take(index as int)),
        decreases syntax.items@.len() - index,
    {
        let ghost before = out.deep_view();
        proof {
            assert(syntax.items@.take(index + 1).drop_last() =~= syntax.items@.take(index as int));
            assert(syntax.items@.take(index + 1).last() == syntax.items@[index as int]);
        }
        match &syntax.items[index] {
            Item::Record(record) => {
                diagnose_record(record, &mut out);
            },
            Item::Function(func) => {
                diagnose_params(func, &mut out);
                diagnose_body(func, &mut out);
                assert(out.deep_view() =~= before + item_findings(syntax.items@[index as int]));
            },
            Item::Other => {
                assert(out.deep_view() =~= before + item_findings(syntax.items@[index as int]));
            },
        }
        index += 1;
    }
    assert(syntax.items@.take(index as int) =~= syntax.items@);
    out
}

} // verus!
