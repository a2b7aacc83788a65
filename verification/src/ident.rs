//! The classified identifier kinds and their mathematical model.

use vstd::prelude::*;

verus! {

/// An optional qualifier (the `Foo.Bar` in `Foo.Bar.baz`).
/// If `module_parts` is empty, the name is unqualified. Segment order
/// matches source order, outermost module first.
#[derive(Debug, PartialEq, Eq)]
pub struct MaybeQualified<Val> {
    pub module_parts: Vec<String>,
    pub value: Val,
}

/// A classified identifier-like token. All of these are accepted wherever
/// any one of them could appear, so that later compiler stages can give
/// helpful error messages about misuse.
#[derive(Debug, PartialEq, Eq)]
pub enum Ident {
    /// `foo` or `Bar.Baz.foo`
    Var(MaybeQualified<String>),
    /// `Foo` or `Bar.Baz.Foo`
    Variant(MaybeQualified<String>),
    /// `foo.bar` or `Foo.Bar.baz.qux`
    Field(MaybeQualified<Vec<String>>),
    /// `.foo`
    AccessorFunction(String),
    /// `.Foo` or `foo.` or something like `foo.Bar`
    Malformed(String),
}

/// The mathematical value of an [`Ident`]: each segment as a sequence of
/// characters.
pub ghost enum IdentModel {
    Var { modules: Seq<Seq<char>>, name: Seq<char> },
    Variant { modules: Seq<Seq<char>>, name: Seq<char> },
    Field { modules: Seq<Seq<char>>, names: Seq<Seq<char>> },
    AccessorFunction { name: Seq<char> },
    Malformed { text: Seq<char> },
}

/// The model of a classified value.
pub open spec fn ident_model(i: Ident) -> IdentModel {
    match i {
        Ident::Var(mq) => IdentModel::Var {
            modules: mq.module_parts.deep_view(),
            name: mq.value@,
        },
        Ident::Variant(mq) => IdentModel::Variant {
            modules: mq.module_parts.deep_view(),
            name: mq.value@,
        },
        Ident::Field(mq) => IdentModel::Field {
            modules: mq.module_parts.deep_view(),
            names: mq.value.deep_view(),
        },
        Ident::AccessorFunction(s) => IdentModel::AccessorFunction { name: s@ },
        Ident::Malformed(s) => IdentModel::Malformed { text: s@ },
    }
}

/// A plain or qualified lowercase-leading name.
pub fn var(module_parts: Vec<String>, value: String) -> (r: Ident)
    ensures
        ident_model(r) == (IdentModel::Var {
            modules: module_parts.deep_view(),
            name: value@,
        }),
{
    Ident::Var(MaybeQualified { module_parts, value })
}

/// A plain or qualified uppercase-leading name.
pub fn variant(module_parts: Vec<String>, value: String) -> (r: Ident)
    ensures
        ident_model(r) == (IdentModel::Variant {
            modules: module_parts.deep_view(),
            name: value@,
        }),
{
    Ident::Variant(MaybeQualified { module_parts, value })
}

/// A dotted chain of two or more lowercase-leading segments, possibly
/// qualified.
pub fn field(module_parts: Vec<String>, value: Vec<String>) -> (r: Ident)
    ensures
        ident_model(r) == (IdentModel::Field {
            modules: module_parts.deep_view(),
            names: value.deep_view(),
        }),
{
    Ident::Field(MaybeQualified { module_parts, value })
}

/// A leading-dot field accessor.
pub fn accessor_fn(value: String) -> (r: Ident)
    ensures
        ident_model(r) == (IdentModel::AccessorFunction { name: value@ }),
{
    Ident::AccessorFunction(value)
}

/// A structurally invalid token, carrying the exact consumed text.
pub fn malformed(value: String) -> (r: Ident)
    ensures
        ident_model(r) == (IdentModel::Malformed { text: value@ }),
{
    Ident::Malformed(value)
}

} // verus!
