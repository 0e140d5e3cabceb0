//! Turns an object schema (types with named, typed pointers in a tree of
//! namespaces) into relational table definitions rendered as source text.
use vstd::prelude::*;

pub mod context;
pub mod generate;
pub mod laws;
pub mod naming;
pub mod partition;
pub mod path;
pub mod text;
pub mod transform;
pub mod vocabulary;

verus! {

/// How many values a pointer holds.
#[derive(Debug, Clone, Copy, PartialEq, Eq, Structural)]
pub enum Cardinality {
    One,
    Many,
}

/// A named, typed attribute of an object type: a scalar property, or a link
/// to another object type.
#[derive(Debug, Clone, PartialEq, Eq)]
pub struct Pointer {
    pub name: String,
    pub target_name: String,
    pub is_link: bool,
    pub cardinality: Cardinality,
    pub required: bool,
    pub default: Option<String>,
}

pub struct PointerView {
    pub name: Seq<char>,
    pub target_name: Seq<char>,
    pub is_link: bool,
    pub cardinality: Cardinality,
    pub required: bool,
    pub default: Option<Seq<char>>,
}

pub open spec fn opt_view(o: Option<String>) -> Option<Seq<char>> {
    match o {
        Some(s) => Some(s@),
        None => None,
    }
}

impl View for Pointer {
    type V = PointerView;

    open spec fn view(&self) -> PointerView {
        PointerView {
            name: self.name@,
            target_name: self.target_name@,
            is_link: self.is_link,
            cardinality: self.cardinality,
            required: self.required,
            default: opt_view(self.default),
        }
    }
}

pub open spec fn pointer_views(v: Seq<Pointer>) -> Seq<PointerView> {
    v.map_values(|p: Pointer| p@)
}

/// A named entity of the schema, with its pointers. The name is qualified by
/// its namespaces, joined by `::`.
#[derive(Debug, Clone, PartialEq, Eq)]
pub struct ObjectType {
    pub name: String,
    pub ptrs: Vec<Pointer>,
}

pub struct ObjectTypeView {
    pub name: Seq<char>,
    pub ptrs: Seq<PointerView>,
}

impl View for ObjectType {
    type V = ObjectTypeView;

    open spec fn view(&self) -> ObjectTypeView {
        ObjectTypeView { name: self.name@, ptrs: pointer_views(self.ptrs@) }
    }
}

/// A relational table: a name and its columns, in order.
#[derive(Debug, Clone, PartialEq, Eq)]
pub struct Table {
    pub name: String,
    pub columns: Vec<Pointer>,
}

pub struct TableView {
    pub name: Seq<char>,
    pub columns: Seq<PointerView>,
}

impl View for Table {
    type V = TableView;

    open spec fn view(&self) -> TableView {
        TableView { name: self.name@, columns: pointer_views(self.columns@) }
    }
}

/// Why a generation run stops.
#[derive(Debug, Clone, PartialEq, Eq)]
pub enum GenerateError {
    /// A scalar type outside the vocabulary.
    UnknownScalarType(String),
    /// A scalar type that is known but has no column type yet.
    UnimplementedScalarType(String),
}

pub enum GenerateErrorView {
    UnknownScalarType(Seq<char>),
    UnimplementedScalarType(Seq<char>),
}

impl View for GenerateError {
    type V = GenerateErrorView;

    open spec fn view(&self) -> GenerateErrorView {
        match self {
            GenerateError::UnknownScalarType(s) => GenerateErrorView::UnknownScalarType(s@),
            GenerateError::UnimplementedScalarType(s) => GenerateErrorView::UnimplementedScalarType(s@),
        }
    }
}

/// Why the unit of a module could not be generated: the failure, and the
/// table and column it arose in.
#[derive(Debug, Clone, PartialEq, Eq)]
pub struct UnitError {
    pub table: String,
    pub column: String,
    pub cause: GenerateError,
}

pub struct UnitErrorView {
    pub table: Seq<char>,
    pub column: Seq<char>,
    pub cause: GenerateErrorView,
}

impl View for UnitError {
    type V = UnitErrorView;

    open spec fn view(&self) -> UnitErrorView {
        UnitErrorView { table: self.table@, column: self.column@, cause: self.cause@ }
    }
}

/// One namespace of the schema: its path from the root, its own tables,
/// and its child namespaces, each known by the last segment of its path.
#[derive(Debug)]
pub struct Module {
    pub path: Vec<String>,
    pub tables: Vec<Table>,
    pub submodules: Vec<Module>,
}

pub open spec fn table_views(v: Seq<Table>) -> Seq<TableView> {
    v.map_values(|t: Table| t@)
}

} // verus!
