//! Checking a derive input against the rules of the RLP decoding derives,
//! and building the plan of the decoder they generate.

use vstd::prelude::*;
use crate::attrs::{
    attributes_include, attrs_name, field_attrs_of, parse_field_attrs, parse_struct_attrs,
    struct_attrs_of, FieldAttrs, StructAttrs,
};
use crate::error::{DeriveError, ErrorKind, ErrorSite};
use crate::model::{
    DataModel, DeriveInputModel, FieldModel, GenericParamModel, GenericsModel, TypeModel,
    WherePredicateModel,
};

verus! {

/// The first byte of the RLP encoding of an empty string; in the place of
/// an optional field it stands for `None`.
pub const EMPTY_STRING_CODE: u8 = 0x80;

/// How a field is named in the struct expression: by its identifier, or by
/// its position in a tuple struct.
#[derive(Debug)]
pub enum Member {
    Named(String),
    Unnamed(usize),
}

/// The function that reads a field's value.
#[derive(Debug)]
pub enum Decoder {
    /// The `alloy_rlp::Decodable` impl of the field's type.
    Trait,
    /// `path::decode`, from `#[rlp(with = path)]`.
    With(String),
}

/// How one field is obtained when decoding.
#[derive(Debug)]
pub enum FieldStep {
    /// `#[rlp(default, skip)]`: the field is left out of the encoding; it
    /// takes `Default::default()` and nothing is read.
    Default,
    /// An `Option` field: `None` when the input is exhausted (the list's
    /// payload, or the whole buffer when `nolist`) or when the next byte is
    /// [`EMPTY_STRING_CODE`] (which is then consumed), `Some` of the decoded
    /// value otherwise. With `or_default` (`#[rlp(default)]`), a value that
    /// fails to decode gives `Default::default()` and nothing is read.
    Optional { decoder: Decoder, nolist: bool, or_default: bool },
    /// The decoded value. With `or_default` (`#[rlp(default)]`), a value
    /// that fails to decode gives `Default::default()` and nothing is read.
    Required { decoder: Decoder, or_default: bool },
}

/// The decoding of one field.
#[derive(Debug)]
pub struct FieldPlan {
    pub member: Member,
    pub step: FieldStep,
}

/// The decoder generated for a struct.
#[derive(Debug)]
pub struct DecodablePlan {
    pub name: String,
    /// The struct's generics with an `alloy_rlp::Decodable` bound on each
    /// type parameter.
    pub generics: GenericsModel,
    /// `#[rlp(pre_decode_with = path)]`: called on the buffer first.
    pub pre_decode: Option<String>,
    /// `#[rlp(post_decode_with = path)]`: called on the buffer last.
    pub post_decode: Option<String>,
    /// The fields follow each other with no list header around them.
    pub nolist: bool,
    /// One step per field, in the order of the declaration.
    pub fields: Vec<FieldPlan>,
}

/// The decoder generated for a single-field wrapper: it decodes the field
/// and wraps it.
#[derive(Debug)]
pub struct WrapperPlan {
    pub name: String,
    pub generics: GenericsModel,
}

/// The trait bound put on every type parameter of a decodable struct.
pub open spec fn decodable_bound() -> Seq<char> {
    "alloy_rlp::Decodable"@
}

/// `Option<...>` written as a bare one-segment path.
pub open spec fn is_optional_type(ty: TypeModel) -> bool {
    match ty {
        TypeModel::Path { qself, leading_colon, segments } => !qself && !leading_colon
            && segments@.len() == 1 && segments@[0]@ == "Option"@,
        TypeModel::Other => false,
    }
}

pub open spec fn member_of(index: usize, ident: Option<String>) -> Member {
    match ident {
        Some(name) => Member::Named(name),
        None => Member::Unnamed(index),
    }
}

pub open spec fn decoder_of(with: Option<String>) -> Decoder {
    match with {
        Some(p) => Decoder::With(p),
        None => Decoder::Trait,
    }
}

pub open spec fn field_plan_of(index: usize, field: FieldModel, attrs: FieldAttrs, is_opt: bool, nolist: bool) -> FieldPlan {
    FieldPlan {
        member: member_of(index, field.ident),
        step: if attrs.default && attrs.skip {
            FieldStep::Default
        } else if is_opt {
            FieldStep::Optional { decoder: decoder_of(attrs.with), nolist, or_default: attrs.default }
        } else {
            FieldStep::Required { decoder: decoder_of(attrs.with), or_default: attrs.default }
        },
    }
}

/// The names of the type parameters, in order.
pub open spec fn type_param_names(params: Seq<GenericParamModel>) -> Seq<String>
    decreases params.len(),
{
    if params.len() == 0 {
        Seq::empty()
    } else {
        match params.last() {
            GenericParamModel::Type(n) => type_param_names(params.drop_last()).push(n),
            _ => type_param_names(params.drop_last()),
        }
    }
}

pub open spec fn where_predicates(g: GenericsModel) -> Seq<WherePredicateModel> {
    match g.where_clause {
        Some(w) => w@,
        None => Seq::empty(),
    }
}

/// `new` is `old` with a `where` clause that keeps the predicates of `old`
/// and adds `T: bound` for each type parameter `T`, in order.
pub open spec fn bounds_added(old: GenericsModel, new: GenericsModel, bound: Seq<char>) -> bool {
    let before = where_predicates(old);
    let names = type_param_names(old.params@);
    &&& new.params@ == old.params@
    &&& new.where_clause is Some
    &&& where_predicates(new).len() == before.len() + names.len()
    &&& where_predicates(new).take(before.len() as int) == before
    &&& forall|i: int|
        0 <= i < names.len() ==> (#[trigger] where_predicates(new)[before.len() + i] matches WherePredicateModel::Bound { subject, bound: b }
            && subject == names[i] && b@ == bound)
}

/// The attributes of every field, or the error of the first field whose
/// attributes cannot be read.
pub open spec fn all_field_attrs(fields: Seq<FieldModel>) -> Result<Seq<FieldAttrs>, DeriveError>
    decreases fields.len(),
{
    if fields.len() == 0 {
        Ok(Seq::empty())
    } else {
        match all_field_attrs(fields.drop_last()) {
            Ok(s) => match field_attrs_of(fields.last().attrs@) {
                Ok(a) => Ok(s.push(a)),
                Err(e) => Err(
                    DeriveError {
                        kind: e.kind,
                        site: ErrorSite::FieldAttr {
                            field: (fields.len() - 1) as usize,
                            attr: e.attr,
                            item: e.item,
                        },
                    },
                ),
            },
            Err(e) => Err(e),
        }
    }
}

pub open spec fn optional_before(fields: Seq<FieldModel>, i: int) -> bool {
    exists|j: int| 0 <= j < i && is_optional_type(#[trigger] fields[j].ty)
}

/// The rule on optional fields, at field `i`: an optional field needs
/// `#[rlp(trailing)]` on the struct, and after the first optional field
/// every field is optional or default.
pub open spec fn field_violation(fields: Seq<FieldModel>, fattrs: Seq<FieldAttrs>, trailing: bool, i: int) -> Option<ErrorKind> {
    if is_optional_type(fields[i].ty) {
        if trailing {
            None
        } else {
            Some(ErrorKind::OptionalDisabled)
        }
    } else if optional_before(fields, i) && !fattrs[i].default {
        Some(ErrorKind::RequiredAfterOptional)
    } else {
        None
    }
}

/// The first field, among the first `n`, that breaks the rule, and how.
pub open spec fn first_violation(fields: Seq<FieldModel>, fattrs: Seq<FieldAttrs>, trailing: bool, n: nat) -> Option<(nat, ErrorKind)>
    decreases n,
{
    if n == 0 {
        None
    } else {
        match first_violation(fields, fattrs, trailing, (n - 1) as nat) {
            Some(x) => Some(x),
            None => match field_violation(fields, fattrs, trailing, n - 1) {
                Some(k) => Some(((n - 1) as nat, k)),
                None => None,
            },
        }
    }
}

/// The checks of the decodable derive on a struct, in order: the struct's
/// attributes, each field's attributes, the rule on optional fields.
pub open spec fn decodable_check(attrs: Seq<crate::model::AttrModel>, fields: Seq<FieldModel>) -> Result<(StructAttrs, Seq<FieldAttrs>), DeriveError> {
    match struct_attrs_of(attrs) {
        Err(e) => Err(
            DeriveError { kind: e.kind, site: ErrorSite::StructAttr { attr: e.attr, item: e.item } },
        ),
        Ok(sa) => match all_field_attrs(fields) {
            Err(e) => Err(e),
            Ok(fa) => match first_violation(fields, fa, attrs_name(attrs, "trailing"@), fields.len()) {
                Some((i, k)) => Err(DeriveError { kind: k, site: ErrorSite::Field(i as usize) }),
                None => Ok((sa, fa)),
            },
        },
    }
}

/// The plan of every field.
pub open spec fn planned_fields(fields: Seq<FieldModel>, fattrs: Seq<FieldAttrs>, nolist: bool) -> Seq<FieldPlan> {
    Seq::new(
        fields.len(),
        |i: int| field_plan_of(i as usize, fields[i], fattrs[i], is_optional_type(fields[i].ty), nolist),
    )
}

/// The error for a derive applied to something that is not a struct.
pub open spec fn not_a_struct(e: DeriveError, derive_attr: Seq<char>) -> bool {
    e.kind matches ErrorKind::NotAStruct(d) && d@ == derive_attr && e.site is Input
}

// ---------------------------------------------------------------------------
// Copies with the same value.

fn copy_string_opt(s: &Option<String>) -> (r: Option<String>)
    ensures
        r == *s,
{
    match s {
        Some(x) => Some(x.clone()),
        None => None,
    }
}

fn copy_param(p: &GenericParamModel) -> (r: GenericParamModel)
    ensures
        r == *p,
{
    match p {
        GenericParamModel::Type(n) => GenericParamModel::Type(n.clone()),
        GenericParamModel::Lifetime(n) => GenericParamModel::Lifetime(n.clone()),
        GenericParamModel::Const(n) => GenericParamModel::Const(n.clone()),
    }
}

fn copy_predicate(p: &WherePredicateModel) -> (r: WherePredicateModel)
    ensures
        r == *p,
{
    match p {
        WherePredicateModel::Written(t) => WherePredicateModel::Written(t.clone()),
        WherePredicateModel::Bound { subject, bound } => WherePredicateModel::Bound {
            subject: subject.clone(),
            bound: bound.clone(),
        },
    }
}

// ---------------------------------------------------------------------------
// The steps of the derive.

/// The fields of the struct the derive named `derive_attr` is applied to, or
/// the error that it is defined for structs only.
pub fn parse_struct<'a>(ast: &'a DeriveInputModel, derive_attr: &str) -> (r: Result<&'a Vec<FieldModel>, DeriveError>)
    ensures
        match ast.data {
            DataModel::Struct(fields) => r == Ok::<&Vec<FieldModel>, DeriveError>(&fields),
            _ => r matches Err(e) && not_a_struct(e, derive_attr@),
        },
{
    match &ast.data {
        DataModel::Struct(fields) => Ok(fields),
        _ => Err(
            DeriveError {
                kind: ErrorKind::NotAStruct(String::from_str(derive_attr)),
                site: ErrorSite::Input,
            },
        ),
    }
}

/// Whether the field's type is `Option<...>`, written as a bare path.
pub fn is_optional(field: &FieldModel) -> (b: bool)
    ensures
        b == is_optional_type(field.ty),
{
    match &field.ty {
        TypeModel::Path { qself, leading_colon, segments } => {
            !*qself && !*leading_colon && segments.len() == 1 && segments[0] == String::from_str(
                "Option",
            )
        },
        TypeModel::Other => false,
    }
}

/// How the field at position `index` is named in a struct expression.
pub fn field_ident(index: usize, field: &FieldModel) -> (m: Member)
    ensures
        m == member_of(index, field.ident),
{
    match &field.ident {
        Some(name) => Member::Named(name.clone()),
        None => Member::Unnamed(index),
    }
}

/// The generics of the impl: those of the struct, with `T: trait_name` added
/// to the `where` clause for each type parameter `T`.
pub fn make_generics(generics: &GenericsModel, trait_name: &str) -> (g: GenericsModel)
    ensures
        bounds_added(*generics, g, trait_name@),
{
    let mut params: Vec<GenericParamModel> = Vec::new();
    let mut i: usize = 0;
    while i < generics.params.len()
        invariant
            i <= generics.params.len(),
            params@ == generics.params@.take(i as int),
        decreases generics.params.len() - i,
    {
        params.push(copy_param(&generics.params[i]));
        proof {
            assert(generics.params@.take(i + 1) =~= generics.params@.take(i as int).push(
                generics.params@[i as int],
            ));
        }
        i += 1;
    }
    proof {
        assert(generics.params@.take(i as int) =~= generics.params@);
    }
    let ghost before = where_predicates(*generics);
    let mut preds: Vec<WherePredicateModel> = Vec::new();
    match &generics.where_clause {
        Some(w) => {
            let mut j: usize = 0;
            while j < w.len()
                invariant
                    j <= w.len(),
                    before == w@,
                    preds@ == w@.take(j as int),
                decreases w.len() - j,
            {
                preds.push(copy_predicate(&w[j]));
                proof {
                    assert(w@.take(j + 1) =~= w@.take(j as int).push(w@[j as int]));
                }
                j += 1;
            }
            proof {
                assert(w@.take(j as int) =~= w@);
            }
        },
        None => {},
    }
    assert(preds@ == before);
    let mut k: usize = 0;
    while k < generics.params.len()
        invariant
            k <= generics.params.len(),
            preds@.len() == before.len() + type_param_names(generics.params@.take(k as int)).len(),
            preds@.take(before.len() as int) == before,
            forall|m: int|
                0 <= m < type_param_names(generics.params@.take(k as int)).len()
                    ==> (#[trigger] preds@[before.len() + m] matches WherePredicateModel::Bound { subject, bound: b }
                    && subject == type_param_names(generics.params@.take(k as int))[m] && b@
                    == trait_name@),
        decreases generics.params.len() - k,
    {
        let ghost names_k = type_param_names(generics.params@.take(k as int));
        proof {
            assert(generics.params@.take(k + 1).drop_last() =~= generics.params@.take(k as int));
        }
        if let GenericParamModel::Type(name) = &generics.params[k] {
            let ghost old_preds = preds@;
            preds.push(
                WherePredicateModel::Bound {
                    subject: name.clone(),
                    bound: String::from_str(trait_name),
                },
            );
            proof {
                let names_k1 = type_param_names(generics.params@.take(k + 1));
                assert(names_k1 == names_k.push(*name));
                assert(preds@.take(before.len() as int) =~= old_preds.take(before.len() as int));
                assert forall|m: int| 0 <= m < names_k1.len() implies (#[trigger] preds@[before.len()
                    + m] matches WherePredicateModel::Bound { subject, bound: b } && subject
                    == names_k1[m] && b@ == trait_name@) by {
                    if m < names_k.len() {
                        assert(preds@[before.len() + m] == old_preds[before.len() + m]);
                    }
                }
            }
        }
        k += 1;
    }
    proof {
        assert(generics.params@.take(k as int) =~= generics.params@);
    }
    GenericsModel { params, where_clause: Some(preds) }
}

/// The decoding step of the field at position `index`, given its
/// attributes, whether it is optional, and whether the struct is read
/// without a list header. A field with both `default` and `skip` is not
/// read; `default` alone makes a value that fails to decode fall back to
/// its default.
pub fn decodable_field(index: usize, field: &FieldModel, attrs: &FieldAttrs, is_opt: bool, nolist: bool) -> (p: FieldPlan)
    ensures
        p == field_plan_of(index, *field, *attrs, is_opt, nolist),
{
    let member = field_ident(index, field);
    let decoder = match &attrs.with {
        Some(w) => Decoder::With(w.clone()),
        None => Decoder::Trait,
    };
    if attrs.default && attrs.skip {
        FieldPlan { member, step: FieldStep::Default }
    } else if is_opt {
        FieldPlan { member, step: FieldStep::Optional { decoder, nolist, or_default: attrs.default } }
    } else {
        FieldPlan { member, step: FieldStep::Required { decoder, or_default: attrs.default } }
    }
}

/// The plan built for a struct that passed the checks.
pub open spec fn decodable_plan_is(p: DecodablePlan, ast: DeriveInputModel, sa: StructAttrs, fields: Seq<FieldModel>, fa: Seq<FieldAttrs>) -> bool {
    &&& p.name == ast.ident
    &&& bounds_added(ast.generics, p.generics, decodable_bound())
    &&& p.pre_decode == sa.pre_decode_with
    &&& p.post_decode == sa.post_decode_with
    &&& p.nolist == sa.nolist
    &&& p.fields@ == planned_fields(fields, fa, sa.nolist)
}

proof fn lemma_all_field_attrs_stop(fields: Seq<FieldModel>, j: int)
    requires
        0 <= j <= fields.len(),
        all_field_attrs(fields.take(j)) is Err,
    ensures
        all_field_attrs(fields) == all_field_attrs(fields.take(j)),
    decreases fields.len(),
{
    if fields.len() == j {
        assert(fields.take(j) =~= fields);
    } else {
        assert(fields.drop_last().take(j) =~= fields.take(j));
        lemma_all_field_attrs_stop(fields.drop_last(), j);
    }
}

proof fn lemma_all_field_attrs_len(fields: Seq<FieldModel>)
    ensures
        all_field_attrs(fields) matches Ok(s) ==> s.len() == fields.len(),
    decreases fields.len(),
{
    if fields.len() > 0 {
        lemma_all_field_attrs_len(fields.drop_last());
    }
}

proof fn lemma_first_violation_stays(fields: Seq<FieldModel>, fa: Seq<FieldAttrs>, trailing: bool, j: nat, n: nat)
    requires
        j <= n,
        first_violation(fields, fa, trailing, j) is Some,
    ensures
        first_violation(fields, fa, trailing, n) == first_violation(fields, fa, trailing, j),
    decreases n,
{
    if n > j {
        lemma_first_violation_stays(fields, fa, trailing, j, (n - 1) as nat);
    }
}

/// Checks a struct for the decodable derive and plans its decoder: the
/// struct's attributes, then each field's attributes, then the rule on
/// optional fields (they need `#[rlp(trailing)]`, and after the first one
/// every field is optional or default), each error at the first place it
/// occurs.
pub fn impl_decodable(ast: &DeriveInputModel) -> (r: Result<DecodablePlan, DeriveError>)
    ensures
        match ast.data {
            DataModel::Struct(fields) => match decodable_check(ast.attrs@, fields@) {
                Err(e) => r == Err::<DecodablePlan, DeriveError>(e),
                Ok((sa, fa)) => r matches Ok(p) && decodable_plan_is(p, *ast, sa, fields@, fa),
            },
            _ => r matches Err(e) && not_a_struct(e, "RlpDecodable"@),
        },
{
    let fields = match parse_struct(ast, "RlpDecodable") {
        Ok(f) => f,
        Err(e) => return Err(e),
    };
    let struct_attrs = match parse_struct_attrs(ast) {
        Ok(a) => a,
        Err(e) => {
            return Err(
                DeriveError {
                    kind: e.kind,
                    site: ErrorSite::StructAttr { attr: e.attr, item: e.item },
                },
            );
        },
    };
    let mut fattrs: Vec<FieldAttrs> = Vec::new();
    let mut i: usize = 0;
    while i < fields.len()
        invariant
            i <= fields.len(),
            ast.data == DataModel::Struct(*fields),
            struct_attrs_of(ast.attrs@) == Ok::<StructAttrs, crate::error::AttrError>(struct_attrs),
            all_field_attrs(fields@.take(i as int)) == Ok::<Seq<FieldAttrs>, DeriveError>(fattrs@),
        decreases fields.len() - i,
    {
        proof {
            assert(fields@.take(i + 1).drop_last() =~= fields@.take(i as int));
        }
        match parse_field_attrs(&fields[i]) {
            Ok(a) => {
                fattrs.push(a);
            },
            Err(e) => {
                let err = DeriveError {
                    kind: e.kind,
                    site: ErrorSite::FieldAttr { field: i, attr: e.attr, item: e.item },
                };
                proof {
                    assert(all_field_attrs(fields@.take(i + 1)) == Err::<Seq<FieldAttrs>, DeriveError>(
                        err,
                    ));
                    lemma_all_field_attrs_stop(fields@, i + 1);
                }
                return Err(err);
            },
        }
        i += 1;
    }
    proof {
        assert(fields@.take(i as int) =~= fields@);
        lemma_all_field_attrs_len(fields@);
    }
    let ghost fa = fattrs@;
    let supports_trailing_opt = attributes_include(&ast.attrs, "trailing");
    let mut encountered_opt_item = false;
    let mut decode_stmts: Vec<FieldPlan> = Vec::new();
    let mut j: usize = 0;
    while j < fields.len()
        invariant
            j <= fields.len(),
            ast.data == DataModel::Struct(*fields),
            struct_attrs_of(ast.attrs@) == Ok::<StructAttrs, crate::error::AttrError>(struct_attrs),
            all_field_attrs(fields@) == Ok::<Seq<FieldAttrs>, DeriveError>(fa),
            fa == fattrs@,
            fa.len() == fields@.len(),
            supports_trailing_opt == attrs_name(ast.attrs@, "trailing"@),
            encountered_opt_item == optional_before(fields@, j as int),
            first_violation(fields@, fa, supports_trailing_opt, j as nat) is None,
            decode_stmts@ == planned_fields(fields@, fa, struct_attrs.nolist).take(j as int),
        decreases fields.len() - j,
    {
        let is_opt = is_optional(&fields[j]);
        if is_opt {
            if !supports_trailing_opt {
                proof {
                    assert(first_violation(fields@, fa, supports_trailing_opt, (j + 1) as nat) == Some(
                        (j as nat, ErrorKind::OptionalDisabled),
                    ));
                    lemma_first_violation_stays(
                        fields@,
                        fa,
                        supports_trailing_opt,
                        (j + 1) as nat,
                        fields@.len(),
                    );
                }
                return Err(DeriveError { kind: ErrorKind::OptionalDisabled, site: ErrorSite::Field(j) });
            }
            encountered_opt_item = true;
        } else if encountered_opt_item && !fattrs[j].default {
            proof {
                assert(first_violation(fields@, fa, supports_trailing_opt, (j + 1) as nat) == Some(
                    (j as nat, ErrorKind::RequiredAfterOptional),
                ));
                lemma_first_violation_stays(
                    fields@,
                    fa,
                    supports_trailing_opt,
                    (j + 1) as nat,
                    fields@.len(),
                );
            }
            return Err(DeriveError { kind: ErrorKind::RequiredAfterOptional, site: ErrorSite::Field(j) });
        }
        proof {
            assert(field_violation(fields@, fa, supports_trailing_opt, j as int) is None);
            if is_opt {
                assert(is_optional_type(fields@[j as int].ty));
            }
            assert(encountered_opt_item == optional_before(fields@, j + 1));
        }
        decode_stmts.push(decodable_field(j, &fields[j], &fattrs[j], is_opt, struct_attrs.nolist));
        proof {
            assert(decode_stmts@ =~= planned_fields(fields@, fa, struct_attrs.nolist).take(j + 1));
        }
        j += 1;
    }
    proof {
        assert(decode_stmts@ =~= planned_fields(fields@, fa, struct_attrs.nolist));
    }
    let generics = make_generics(&ast.generics, "alloy_rlp::Decodable");
    Ok(
        DecodablePlan {
            name: ast.ident.clone(),
            generics,
            pre_decode: struct_attrs.pre_decode_with,
            post_decode: struct_attrs.post_decode_with,
            nolist: struct_attrs.nolist,
            fields: decode_stmts,
        },
    )
}

/// Checks a struct for the wrapper derive, which needs exactly one field,
/// and plans its decoder.
pub fn impl_decodable_wrapper(ast: &DeriveInputModel) -> (r: Result<WrapperPlan, DeriveError>)
    ensures
        match ast.data {
            DataModel::Struct(fields) => if fields@.len() != 1 {
                r == Err::<WrapperPlan, DeriveError>(
                    DeriveError { kind: ErrorKind::WrapperFieldCount, site: ErrorSite::Ident },
                )
            } else {
                r matches Ok(p) && p.name == ast.ident && bounds_added(
                    ast.generics,
                    p.generics,
                    decodable_bound(),
                )
            },
            _ => r matches Err(e) && not_a_struct(e, "RlpEncodableWrapper"@),
        },
{
    let body = match parse_struct(ast, "RlpEncodableWrapper") {
        Ok(f) => f,
        Err(e) => return Err(e),
    };
    if body.len() != 1 {
        return Err(DeriveError { kind: ErrorKind::WrapperFieldCount, site: ErrorSite::Ident });
    }
    let generics = make_generics(&ast.generics, "alloy_rlp::Decodable");
    Ok(WrapperPlan { name: ast.ident.clone(), generics })
}

// ---------------------------------------------------------------------------
// Laws.

/// The rule on optional fields holds at every field.
pub open spec fn optional_rule_holds(fields: Seq<FieldModel>, fattrs: Seq<FieldAttrs>, trailing: bool) -> bool {
    forall|i: int|
        0 <= i < fields.len() ==> {
            &&& is_optional_type(#[trigger] fields[i].ty) ==> trailing
            &&& !is_optional_type(fields[i].ty) && optional_before(fields, i) ==> fattrs[i].default
        }
}

proof fn lemma_first_violation_none(fields: Seq<FieldModel>, fa: Seq<FieldAttrs>, trailing: bool, n: nat)
    ensures
        first_violation(fields, fa, trailing, n) is None <==> forall|i: int|
            0 <= i < n ==> (#[trigger] field_violation(fields, fa, trailing, i)) is None,
    decreases n,
{
    if n > 0 {
        lemma_first_violation_none(fields, fa, trailing, (n - 1) as nat);
    }
}

/// The decodable derive accepts a struct exactly when the struct's
/// attributes and every field's attributes read without error, every
/// optional field comes with `#[rlp(trailing)]` on the struct, and every
/// field after an optional one is optional or default.
pub proof fn law_decodable_accepts(attrs: Seq<crate::model::AttrModel>, fields: Seq<FieldModel>)
    ensures
        decodable_check(attrs, fields) is Ok <==> {
            &&& struct_attrs_of(attrs) is Ok
            &&& all_field_attrs(fields) is Ok
            &&& optional_rule_holds(
                fields,
                all_field_attrs(fields).unwrap(),
                attrs_name(attrs, "trailing"@),
            )
        },
{
    let trailing = attrs_name(attrs, "trailing"@);
    lemma_all_field_attrs_len(fields);
    if let Ok(fa) = all_field_attrs(fields) {
        lemma_first_violation_none(fields, fa, trailing, fields.len());
        if optional_rule_holds(fields, fa, trailing) {
            assert forall|i: int| 0 <= i < fields.len() implies (#[trigger] field_violation(
                fields,
                fa,
                trailing,
                i,
            )) is None by {
                assert(is_optional_type(fields[i].ty) ==> trailing);
            }
        } else {
            let i = choose|i: int|
                0 <= i < fields.len() && !({
                    &&& is_optional_type(#[trigger] fields[i].ty) ==> trailing
                    &&& !is_optional_type(fields[i].ty) && optional_before(fields, i)
                        ==> fa[i].default
                });
            assert(field_violation(fields, fa, trailing, i) is Some);
        }
    }
}

/// In an accepted struct's plan, every field after an optional one is read
/// as optional or falls back to its default.
pub proof fn law_plan_optional_tail(attrs: Seq<crate::model::AttrModel>, fields: Seq<FieldModel>, i: int, j: int)
    requires
        decodable_check(attrs, fields) is Ok,
        0 <= j < i < fields.len(),
        ({
            let (sa, fa) = decodable_check(attrs, fields).unwrap();
            planned_fields(fields, fa, sa.nolist)[j].step is Optional
        }),
    ensures
        ({
            let (sa, fa) = decodable_check(attrs, fields).unwrap();
            let step = planned_fields(fields, fa, sa.nolist)[i].step;
            step is Optional || step is Default || step matches FieldStep::Required { or_default: true, .. }
        }),
{
    law_decodable_accepts(attrs, fields);
    let (sa, fa) = decodable_check(attrs, fields).unwrap();
    lemma_all_field_attrs_len(fields);
    assert(is_optional_type(fields[j].ty));
    assert(optional_before(fields, i));
    assert(!is_optional_type(fields[i].ty) ==> fa[i].default);
}

/// The plan of a field follows its attributes: it is not read exactly when
/// it is both `default` and `skip`; otherwise it is read as optional exactly
/// when its type is `Option`, its decoder is the `with` module when it has
/// one and the `Decodable` impl otherwise (for optional and required fields
/// alike), it falls back to its default exactly when it is `default`, and an
/// optional field keeps the struct's `nolist`. It is named by its identifier,
/// or by its position in a tuple struct.
pub proof fn law_field_plan_follows_attrs(index: usize, field: FieldModel, attrs: FieldAttrs, is_opt: bool, nolist: bool)
    ensures
        ({
            let p = field_plan_of(index, field, attrs, is_opt, nolist);
            &&& field.ident matches Some(n) ==> p.member == Member::Named(n)
            &&& field.ident is None ==> p.member == Member::Unnamed(index)
            &&& p.step is Default <==> attrs.default && attrs.skip
            &&& p.step matches FieldStep::Optional { decoder, nolist: nl, or_default } ==> is_opt
                && nl == nolist && or_default == attrs.default && (attrs.with matches Some(w)
                ==> decoder == Decoder::With(w)) && (attrs.with is None ==> decoder is Trait)
            &&& p.step matches FieldStep::Required { decoder, or_default } ==> !is_opt
                && or_default == attrs.default && (attrs.with matches Some(w) ==> decoder
                == Decoder::With(w)) && (attrs.with is None ==> decoder is Trait)
            &&& !(attrs.default && attrs.skip) ==> (is_opt <==> p.step is Optional)
        }),
{
}

proof fn lemma_all_field_attrs_each(fields: Seq<FieldModel>, i: int)
    requires
        all_field_attrs(fields) is Ok,
        0 <= i < fields.len(),
    ensures
        field_attrs_of(fields[i].attrs@) == Ok::<FieldAttrs, crate::error::AttrError>(
            all_field_attrs(fields).unwrap()[i],
        ),
    decreases fields.len(),
{
    lemma_all_field_attrs_len(fields.drop_last());
    if i < fields.len() - 1 {
        assert(fields.drop_last()[i] == fields[i]);
        lemma_all_field_attrs_each(fields.drop_last(), i);
    }
}

/// In an accepted struct's plan, field `i` is planned from that field's own
/// attributes and type: the plan of each field follows
/// [`law_field_plan_follows_attrs`] with the attributes read from its own
/// `#[rlp(...)]` entries and whether its type is `Option`.
pub proof fn law_plan_from_each_field(attrs: Seq<crate::model::AttrModel>, fields: Seq<FieldModel>, i: int)
    requires
        decodable_check(attrs, fields) is Ok,
        0 <= i < fields.len(),
        fields.len() <= usize::MAX,
    ensures
        ({
            let (sa, fa) = decodable_check(attrs, fields).unwrap();
            &&& field_attrs_of(fields[i].attrs@) == Ok::<FieldAttrs, crate::error::AttrError>(fa[i])
            &&& planned_fields(fields, fa, sa.nolist).len() == fields.len()
            &&& planned_fields(fields, fa, sa.nolist)[i] == field_plan_of(
                i as usize,
                fields[i],
                fa[i],
                is_optional_type(fields[i].ty),
                sa.nolist,
            )
        }),
{
    lemma_all_field_attrs_each(fields, i);
    law_field_plan_follows_attrs(i as usize, fields[i], all_field_attrs(fields).unwrap()[i], is_optional_type(fields[i].ty), false);
}

} // verus!
