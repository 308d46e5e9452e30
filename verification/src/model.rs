//! Plain-data description of a derive input: what the derive logic reads of
//! the struct declaration it is applied to.

use vstd::prelude::*;

verus! {

/// The path in front of a nested attribute entry, or the attribute's own path.
#[derive(Debug)]
pub enum MetaPath {
    /// A path made of a single identifier with no leading `::`.
    Ident(String),
    /// Any other path (several segments, or a leading `::`).
    Other,
    /// No path could be read where one was expected (a literal, a stray
    /// punctuation mark, a `::` with no identifier after it), with the
    /// message of the parser that tried to read it.
    Missing(String),
}

/// What follows `= ` in a nested entry `key = value`.
#[derive(Debug)]
pub enum AssignValue {
    /// The value is exactly one path, written here as its text.
    Path(String),
    /// A path (its text) is followed by more tokens before the next comma.
    PathThen(String),
    /// The value does not start with a path, with the message of the parser
    /// that tried to read one.
    NotPath(String),
}

/// The tokens that follow the path of a nested entry, up to the next
/// top-level comma.
#[derive(Debug)]
pub enum ItemArg {
    /// Nothing: the entry is a bare key such as `default`.
    Empty,
    /// `= value`.
    Assign(AssignValue),
    /// Anything else, such as a parenthesized group.
    Other,
}

/// One comma-separated entry of `#[rlp(...)]`.
#[derive(Debug)]
pub struct NestedItem {
    pub path: MetaPath,
    pub arg: ItemArg,
}

/// The form of an attribute after its path.
#[derive(Debug)]
pub enum AttrMeta {
    /// `#[path]`
    Path,
    /// `#[path = value]`
    NameValue,
    /// `#[path(...)]`, with its comma-separated entries in order (none for
    /// `#[path()]`). An entry whose path is `Missing` ends the list.
    List(Vec<NestedItem>),
}

/// An outer attribute `#[...]`.
#[derive(Debug)]
pub struct AttrModel {
    pub path: MetaPath,
    pub meta: AttrMeta,
}

/// The type of a field, as far as the derive looks at it.
#[derive(Debug)]
pub enum TypeModel {
    /// A path type `qself? ::? seg1::seg2...`, with the identifier of each
    /// segment in order (generic arguments are not kept).
    Path { qself: bool, leading_colon: bool, segments: Vec<String> },
    /// Any other type (reference, array, tuple, ...).
    Other,
}

/// A field of a struct: its name (`None` in a tuple struct), its type and
/// its attributes.
#[derive(Debug)]
pub struct FieldModel {
    pub ident: Option<String>,
    pub ty: TypeModel,
    pub attrs: Vec<AttrModel>,
}

/// A generic parameter of the struct, by its name.
#[derive(Debug)]
pub enum GenericParamModel {
    Type(String),
    Lifetime(String),
    Const(String),
}

/// A predicate of a `where` clause.
#[derive(Debug)]
pub enum WherePredicateModel {
    /// A predicate as written in the input, by its text.
    Written(String),
    /// `subject: bound`, where `subject` is a type parameter's name and
    /// `bound` the path of a trait.
    Bound { subject: String, bound: String },
}

/// The generics of a declaration.
#[derive(Debug)]
pub struct GenericsModel {
    pub params: Vec<GenericParamModel>,
    /// `None` when there is no `where` clause at all.
    pub where_clause: Option<Vec<WherePredicateModel>>,
}

/// What kind of item the derive is applied to.
#[derive(Debug)]
pub enum DataModel {
    Struct(Vec<FieldModel>),
    Enum,
    Union,
}

/// A derive input: attributes, name, generics and body of the item.
#[derive(Debug)]
pub struct DeriveInputModel {
    pub attrs: Vec<AttrModel>,
    pub ident: String,
    pub generics: GenericsModel,
    pub data: DataModel,
}

/// Whether `s` is the identifier `name`.
pub open spec fn is_ident(p: MetaPath, name: Seq<char>) -> bool {
    p matches MetaPath::Ident(s) && s@ == name
}

/// Executable form of [`is_ident`].
pub fn path_is_ident(p: &MetaPath, name: &str) -> (b: bool)
    ensures
        b == is_ident(*p, name@),
{
    match p {
        MetaPath::Ident(s) => {
            let n = String::from_str(name);
            *s == n
        },
        _ => false,
    }
}

} // verus!
