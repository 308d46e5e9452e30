//! Errors reported by the derive logic, and their messages.

use vstd::prelude::*;

verus! {

/// A malformed `#[rlp(...)]` entry.
#[derive(Debug)]
pub enum SyntaxIssue {
    /// `key = value` was expected for a key that takes a value.
    ExpectedEq,
    /// The entry goes on after what its key takes.
    ExpectedComma,
    /// A key or a value could not be read as a path; the parser's message.
    Unreadable(String),
}

/// The keys that take a path and may be given only once.
#[derive(Debug)]
pub enum ArgName {
    With,
    PreEncodeWith,
    PostEncodeWith,
    PreDecodeWith,
    PostDecodeWith,
}

/// What went wrong.
#[derive(Debug)]
pub enum ErrorKind {
    /// The derive, named here, was applied to an enum or a union.
    NotAStruct(String),
    Syntax(SyntaxIssue),
    /// A key that takes a path was given twice.
    Duplicate(ArgName),
    /// An `Option` field in a struct without `#[rlp(trailing)]`.
    OptionalDisabled,
    /// A field that is neither optional nor default after an optional one.
    RequiredAfterOptional,
    /// A wrapper derive on a struct without exactly one field.
    WrapperFieldCount,
}

/// An error inside the attribute list number `attr`, at its entry `item`.
#[derive(Debug)]
pub struct AttrError {
    pub attr: usize,
    pub item: usize,
    pub kind: ErrorKind,
}

/// Where an error is reported.
#[derive(Debug)]
pub enum ErrorSite {
    /// The whole derive input.
    Input,
    /// The name of the struct.
    Ident,
    /// A field, by its position.
    Field(usize),
    /// An entry of an attribute of the struct.
    StructAttr { attr: usize, item: usize },
    /// An entry of an attribute of a field.
    FieldAttr { field: usize, attr: usize, item: usize },
}

/// An error of the derive: what and where.
#[derive(Debug)]
pub struct DeriveError {
    pub kind: ErrorKind,
    pub site: ErrorSite,
}

pub open spec fn arg_name_text(n: ArgName) -> Seq<char> {
    match n {
        ArgName::With => "with"@,
        ArgName::PreEncodeWith => "pre_encode_with"@,
        ArgName::PostEncodeWith => "post_encode_with"@,
        ArgName::PreDecodeWith => "pre_decode_with"@,
        ArgName::PostDecodeWith => "post_decode_with"@,
    }
}

/// The message reported for an error of the given kind.
pub open spec fn message_text(k: ErrorKind) -> Seq<char> {
    match k {
        ErrorKind::NotAStruct(d) => "#[derive("@ + d@ + ")] is only defined for structs."@,
        ErrorKind::Syntax(SyntaxIssue::ExpectedEq) => "expected `=`"@,
        ErrorKind::Syntax(SyntaxIssue::Unreadable(m)) => m@,
        ErrorKind::Syntax(SyntaxIssue::ExpectedComma) => "expected `,`"@,
        ErrorKind::Duplicate(n) => "duplicate `"@ + arg_name_text(n) + "` argument"@,
        ErrorKind::OptionalDisabled =>
            "optional fields are disabled.\nAdd the `#[rlp(trailing)]` attribute to the struct in order to enable optional fields"@,
        ErrorKind::RequiredAfterOptional =>
            "all the fields after the first optional field must be either optional or default"@,
        ErrorKind::WrapperFieldCount =>
            "`RlpEncodableWrapper` is only defined for structs with one field."@,
    }
}

fn arg_name_str(n: &ArgName) -> (s: &'static str)
    ensures
        s@ == arg_name_text(*n),
{
    match n {
        ArgName::With => "with",
        ArgName::PreEncodeWith => "pre_encode_with",
        ArgName::PostEncodeWith => "post_encode_with",
        ArgName::PreDecodeWith => "pre_decode_with",
        ArgName::PostDecodeWith => "post_decode_with",
    }
}

impl ErrorKind {
    /// The message of this error.
    pub fn message(&self) -> (m: String)
        ensures
            m@ == message_text(*self),
    {
        match self {
            ErrorKind::NotAStruct(d) => {
                let mut m = String::from_str("#[derive(");
                m.append(d.as_str());
                m.append(")] is only defined for structs.");
                m
            },
            ErrorKind::Syntax(SyntaxIssue::ExpectedEq) => String::from_str("expected `=`"),
            ErrorKind::Syntax(SyntaxIssue::Unreadable(m)) => m.clone(),
            ErrorKind::Syntax(SyntaxIssue::ExpectedComma) => String::from_str("expected `,`"),
            ErrorKind::Duplicate(n) => {
                let mut m = String::from_str("duplicate `");
                m.append(arg_name_str(n));
                m.append("` argument");
                m
            },
            ErrorKind::OptionalDisabled => String::from_str(
                "optional fields are disabled.\nAdd the `#[rlp(trailing)]` attribute to the struct in order to enable optional fields",
            ),
            ErrorKind::RequiredAfterOptional => String::from_str(
                "all the fields after the first optional field must be either optional or default",
            ),
            ErrorKind::WrapperFieldCount => String::from_str(
                "`RlpEncodableWrapper` is only defined for structs with one field.",
            ),
        }
    }
}

} // verus!
