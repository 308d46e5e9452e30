//! Reading the `#[rlp(...)]` attributes of a struct and of its fields.
//!
//! Each `#[rlp(...)]` list is read entry by entry, left to right. A key that
//! takes no value must stand alone (`key` then `,` or the end); a key that
//! takes a path must be written `key = path`. The first malformed entry stops
//! the reading with an error.

use vstd::prelude::*;
use crate::error::{arg_name_text, ArgName, AttrError, ErrorKind, SyntaxIssue};
use crate::model::{
    is_ident, path_is_ident, AssignValue, AttrMeta, AttrModel, DeriveInputModel, FieldModel, ItemArg,
    MetaPath, NestedItem,
};

verus! {

/// What the attributes of a field ask for.
#[derive(Debug)]
pub struct FieldAttrs {
    /// `#[rlp(default)]`: the field is not read, it takes its default value.
    pub default: bool,
    /// `#[rlp(skip)]`: the field is left out when encoding.
    pub skip: bool,
    /// `#[rlp(with = path)]`: the module whose functions encode and decode it.
    pub with: Option<String>,
}

/// What the attributes of a struct ask for.
#[derive(Debug)]
pub struct StructAttrs {
    pub pre_encode_with: Option<String>,
    pub post_encode_with: Option<String>,
    pub pre_decode_with: Option<String>,
    pub post_decode_with: Option<String>,
    /// The fields are read one after the other from the buffer, without an
    /// enclosing list header. No attribute sets it.
    pub nolist: bool,
}

pub open spec fn no_field_attrs() -> FieldAttrs {
    FieldAttrs { default: false, skip: false, with: None }
}

pub open spec fn no_struct_attrs() -> StructAttrs {
    StructAttrs {
        pre_encode_with: None,
        post_encode_with: None,
        pre_decode_with: None,
        post_decode_with: None,
        nolist: false,
    }
}

/// Whether an attribute is `#[rlp(...)]`, and its entries if so.
pub open spec fn rlp_list(a: AttrModel) -> Option<Seq<NestedItem>> {
    if is_ident(a.path, "rlp"@) {
        match a.meta {
            AttrMeta::List(items) => Some(items@),
            _ => None,
        }
    } else {
        None
    }
}

/// An entry whose key was read and whose value is not consumed: nothing may
/// follow the key.
pub open spec fn bare_key<T>(arg: ItemArg, out: T) -> Result<T, ErrorKind> {
    match arg {
        ItemArg::Empty => Ok(out),
        _ => Err(ErrorKind::Syntax(SyntaxIssue::ExpectedComma)),
    }
}

/// An entry `key = path` filling the slot `slot`, which may be filled once.
pub open spec fn fill_slot(slot: Option<String>, arg: ItemArg, name: ArgName) -> Result<String, ErrorKind> {
    match arg {
        ItemArg::Assign(AssignValue::Path(p)) => if slot is Some {
            Err(ErrorKind::Duplicate(name))
        } else {
            Ok(p)
        },
        ItemArg::Assign(AssignValue::PathThen(_)) => if slot is Some {
            Err(ErrorKind::Duplicate(name))
        } else {
            Err(ErrorKind::Syntax(SyntaxIssue::ExpectedComma))
        },
        ItemArg::Assign(AssignValue::NotPath(m)) => Err(ErrorKind::Syntax(SyntaxIssue::Unreadable(m))),
        _ => Err(ErrorKind::Syntax(SyntaxIssue::ExpectedEq)),
    }
}

/// One entry of a field's `#[rlp(...)]`.
pub open spec fn field_entry(acc: FieldAttrs, item: NestedItem) -> Result<FieldAttrs, ErrorKind> {
    if let MetaPath::Missing(m) = item.path {
        Err(ErrorKind::Syntax(SyntaxIssue::Unreadable(m)))
    } else if is_ident(item.path, "default"@) {
        bare_key(item.arg, FieldAttrs { default: true, ..acc })
    } else if is_ident(item.path, "skip"@) {
        bare_key(item.arg, FieldAttrs { skip: true, ..acc })
    } else if is_ident(item.path, "with"@) {
        match fill_slot(acc.with, item.arg, ArgName::With) {
            Ok(p) => Ok(FieldAttrs { with: Some(p), ..acc }),
            Err(k) => Err(k),
        }
    } else {
        bare_key(item.arg, acc)
    }
}

/// The entries of one field attribute list, number `attr`, read from `acc`.
pub open spec fn field_entries(acc: FieldAttrs, items: Seq<NestedItem>, attr: usize) -> Result<FieldAttrs, AttrError>
    decreases items.len(),
{
    if items.len() == 0 {
        Ok(acc)
    } else {
        match field_entries(acc, items.drop_last(), attr) {
            Ok(a) => match field_entry(a, items.last()) {
                Ok(b) => Ok(b),
                Err(kind) => Err(AttrError { attr, item: (items.len() - 1) as usize, kind }),
            },
            Err(e) => Err(e),
        }
    }
}

/// One attribute of a field, number `attr`, read from `acc`.
pub open spec fn field_attr(acc: FieldAttrs, a: AttrModel, attr: usize) -> Result<FieldAttrs, AttrError> {
    match rlp_list(a) {
        Some(items) => field_entries(acc, items, attr),
        None => Ok(acc),
    }
}

/// All the attributes of a field, read in order.
pub open spec fn field_attrs_of(attrs: Seq<AttrModel>) -> Result<FieldAttrs, AttrError>
    decreases attrs.len(),
{
    if attrs.len() == 0 {
        Ok(no_field_attrs())
    } else {
        match field_attrs_of(attrs.drop_last()) {
            Ok(a) => field_attr(a, attrs.last(), (attrs.len() - 1) as usize),
            Err(e) => Err(e),
        }
    }
}

/// One entry of a struct's `#[rlp(...)]`.
pub open spec fn struct_entry(acc: StructAttrs, item: NestedItem) -> Result<StructAttrs, ErrorKind> {
    if let MetaPath::Missing(m) = item.path {
        Err(ErrorKind::Syntax(SyntaxIssue::Unreadable(m)))
    } else if is_ident(item.path, "pre_encode_with"@) {
        match fill_slot(acc.pre_encode_with, item.arg, ArgName::PreEncodeWith) {
            Ok(p) => Ok(StructAttrs { pre_encode_with: Some(p), ..acc }),
            Err(k) => Err(k),
        }
    } else if is_ident(item.path, "post_encode_with"@) {
        match fill_slot(acc.post_encode_with, item.arg, ArgName::PostEncodeWith) {
            Ok(p) => Ok(StructAttrs { post_encode_with: Some(p), ..acc }),
            Err(k) => Err(k),
        }
    } else if is_ident(item.path, "pre_decode_with"@) {
        match fill_slot(acc.pre_decode_with, item.arg, ArgName::PreDecodeWith) {
            Ok(p) => Ok(StructAttrs { pre_decode_with: Some(p), ..acc }),
            Err(k) => Err(k),
        }
    } else if is_ident(item.path, "post_decode_with"@) {
        match fill_slot(acc.post_decode_with, item.arg, ArgName::PostDecodeWith) {
            Ok(p) => Ok(StructAttrs { post_decode_with: Some(p), ..acc }),
            Err(k) => Err(k),
        }
    } else {
        bare_key(item.arg, acc)
    }
}

pub open spec fn struct_entries(acc: StructAttrs, items: Seq<NestedItem>, attr: usize) -> Result<StructAttrs, AttrError>
    decreases items.len(),
{
    if items.len() == 0 {
        Ok(acc)
    } else {
        match struct_entries(acc, items.drop_last(), attr) {
            Ok(a) => match struct_entry(a, items.last()) {
                Ok(b) => Ok(b),
                Err(kind) => Err(AttrError { attr, item: (items.len() - 1) as usize, kind }),
            },
            Err(e) => Err(e),
        }
    }
}

pub open spec fn struct_attr(acc: StructAttrs, a: AttrModel, attr: usize) -> Result<StructAttrs, AttrError> {
    match rlp_list(a) {
        Some(items) => struct_entries(acc, items, attr),
        None => Ok(acc),
    }
}

/// All the attributes of a struct, read in order.
pub open spec fn struct_attrs_of(attrs: Seq<AttrModel>) -> Result<StructAttrs, AttrError>
    decreases attrs.len(),
{
    if attrs.len() == 0 {
        Ok(no_struct_attrs())
    } else {
        match struct_attrs_of(attrs.drop_last()) {
            Ok(a) => struct_attr(a, attrs.last(), (attrs.len() - 1) as usize),
            Err(e) => Err(e),
        }
    }
}

/// A list has an entry with the key `name`, wherever it stands among the
/// others.
pub open spec fn list_names(items: Seq<NestedItem>, name: Seq<char>) -> bool {
    exists|i: int| 0 <= i < items.len() && is_ident(#[trigger] items[i].path, name)
}

/// Some `#[rlp(...)]` attribute names `name`.
pub open spec fn attrs_name(attrs: Seq<AttrModel>, name: Seq<char>) -> bool {
    exists|k: int|
        0 <= k < attrs.len() && (#[trigger] rlp_list(attrs[k])) is Some && list_names(
            rlp_list(attrs[k]).unwrap(),
            name,
        )
}

// ---------------------------------------------------------------------------
// A malformed entry ends the reading: its error is the result of the whole.

proof fn lemma_field_entries_stop(acc: FieldAttrs, items: Seq<NestedItem>, attr: usize, j: int)
    requires
        0 <= j <= items.len(),
        field_entries(acc, items.take(j), attr) is Err,
    ensures
        field_entries(acc, items, attr) == field_entries(acc, items.take(j), attr),
    decreases items.len(),
{
    if items.len() == j {
        assert(items.take(j) =~= items);
    } else {
        assert(items.drop_last().take(j) =~= items.take(j));
        lemma_field_entries_stop(acc, items.drop_last(), attr, j);
    }
}

proof fn lemma_struct_entries_stop(acc: StructAttrs, items: Seq<NestedItem>, attr: usize, j: int)
    requires
        0 <= j <= items.len(),
        struct_entries(acc, items.take(j), attr) is Err,
    ensures
        struct_entries(acc, items, attr) == struct_entries(acc, items.take(j), attr),
    decreases items.len(),
{
    if items.len() == j {
        assert(items.take(j) =~= items);
    } else {
        assert(items.drop_last().take(j) =~= items.take(j));
        lemma_struct_entries_stop(acc, items.drop_last(), attr, j);
    }
}

proof fn lemma_field_attrs_stop(attrs: Seq<AttrModel>, j: int)
    requires
        0 <= j <= attrs.len(),
        field_attrs_of(attrs.take(j)) is Err,
    ensures
        field_attrs_of(attrs) == field_attrs_of(attrs.take(j)),
    decreases attrs.len(),
{
    if attrs.len() == j {
        assert(attrs.take(j) =~= attrs);
    } else {
        assert(attrs.drop_last().take(j) =~= attrs.take(j));
        lemma_field_attrs_stop(attrs.drop_last(), j);
    }
}

proof fn lemma_struct_attrs_stop(attrs: Seq<AttrModel>, j: int)
    requires
        0 <= j <= attrs.len(),
        struct_attrs_of(attrs.take(j)) is Err,
    ensures
        struct_attrs_of(attrs) == struct_attrs_of(attrs.take(j)),
    decreases attrs.len(),
{
    if attrs.len() == j {
        assert(attrs.take(j) =~= attrs);
    } else {
        assert(attrs.drop_last().take(j) =~= attrs.take(j));
        lemma_struct_attrs_stop(attrs.drop_last(), j);
    }
}

// ---------------------------------------------------------------------------
// Executable readers.

fn bare_key_exec<T>(arg: &ItemArg, out: T) -> (r: Result<T, ErrorKind>)
    ensures
        r == bare_key(*arg, out),
{
    match arg {
        ItemArg::Empty => Ok(out),
        _ => Err(ErrorKind::Syntax(SyntaxIssue::ExpectedComma)),
    }
}

fn fill_slot_exec(slot: &Option<String>, arg: &ItemArg, name: ArgName) -> (r: Result<String, ErrorKind>)
    ensures
        r == fill_slot(*slot, *arg, name),
{
    match arg {
        ItemArg::Assign(AssignValue::Path(p)) => {
            if slot.is_some() {
                Err(ErrorKind::Duplicate(name))
            } else {
                Ok(p.clone())
            }
        },
        ItemArg::Assign(AssignValue::PathThen(_)) => {
            if slot.is_some() {
                Err(ErrorKind::Duplicate(name))
            } else {
                Err(ErrorKind::Syntax(SyntaxIssue::ExpectedComma))
            }
        },
        ItemArg::Assign(AssignValue::NotPath(m)) => Err(ErrorKind::Syntax(SyntaxIssue::Unreadable(m.clone()))),
        _ => Err(ErrorKind::Syntax(SyntaxIssue::ExpectedEq)),
    }
}

fn field_entry_exec(acc: FieldAttrs, item: &NestedItem) -> (r: Result<FieldAttrs, ErrorKind>)
    ensures
        r == field_entry(acc, *item),
{
    if let MetaPath::Missing(m) = &item.path {
        return Err(ErrorKind::Syntax(SyntaxIssue::Unreadable(m.clone())));
    }
    if path_is_ident(&item.path, "default") {
        bare_key_exec(&item.arg, FieldAttrs { default: true, skip: acc.skip, with: acc.with })
    } else if path_is_ident(&item.path, "skip") {
        bare_key_exec(&item.arg, FieldAttrs { default: acc.default, skip: true, with: acc.with })
    } else if path_is_ident(&item.path, "with") {
        match fill_slot_exec(&acc.with, &item.arg, ArgName::With) {
            Ok(p) => Ok(FieldAttrs { default: acc.default, skip: acc.skip, with: Some(p) }),
            Err(k) => Err(k),
        }
    } else {
        bare_key_exec(&item.arg, acc)
    }
}

fn field_entries_exec(acc: FieldAttrs, items: &Vec<NestedItem>, attr: usize) -> (r: Result<FieldAttrs, AttrError>)
    ensures
        r == field_entries(acc, items@, attr),
{
    let ghost acc0 = acc;
    let mut a = acc;
    let mut i: usize = 0;
    while i < items.len()
        invariant
            i <= items.len(),
            acc0 == acc,
            field_entries(acc0, items@.take(i as int), attr) == Ok::<FieldAttrs, AttrError>(a),
        decreases items.len() - i,
    {
        proof {
            assert(items@.take(i + 1).drop_last() =~= items@.take(i as int));
        }
        match field_entry_exec(a, &items[i]) {
            Ok(b) => {
                a = b;
            },
            Err(kind) => {
                proof {
                    assert(items@.take(i + 1).last() == items@[i as int]);
                    assert(field_entries(acc0, items@.take(i + 1), attr) == Err::<FieldAttrs, AttrError>(
                        AttrError { attr, item: i, kind },
                    ));
                    lemma_field_entries_stop(acc0, items@, attr, i + 1);
                }
                return Err(AttrError { attr, item: i, kind });
            },
        }
        i += 1;
    }
    proof {
        assert(items@.take(i as int) =~= items@);
    }
    Ok(a)
}

fn field_attr_exec(acc: FieldAttrs, a: &AttrModel, attr: usize) -> (r: Result<FieldAttrs, AttrError>)
    ensures
        r == field_attr(acc, *a, attr),
{
    if !path_is_ident(&a.path, "rlp") {
        return Ok(acc);
    }
    match &a.meta {
        AttrMeta::List(items) => field_entries_exec(acc, items, attr),
        _ => Ok(acc),
    }
}

/// Reads the `#[rlp(...)]` attributes of a field: `default`, `skip` and
/// `with = path`; other keys are accepted and ignored.
pub fn parse_field_attrs(field: &FieldModel) -> (r: Result<FieldAttrs, AttrError>)
    ensures
        r == field_attrs_of(field.attrs@),
{
    let mut acc = FieldAttrs { default: false, skip: false, with: None };
    let mut k: usize = 0;
    while k < field.attrs.len()
        invariant
            k <= field.attrs.len(),
            field_attrs_of(field.attrs@.take(k as int)) == Ok::<FieldAttrs, AttrError>(acc),
        decreases field.attrs.len() - k,
    {
        proof {
            assert(field.attrs@.take(k + 1).drop_last() =~= field.attrs@.take(k as int));
        }
        match field_attr_exec(acc, &field.attrs[k], k) {
            Ok(b) => {
                acc = b;
            },
            Err(e) => {
                proof {
                    lemma_field_attrs_stop(field.attrs@, k + 1);
                }
                return Err(e);
            },
        }
        k += 1;
    }
    proof {
        assert(field.attrs@.take(k as int) =~= field.attrs@);
    }
    Ok(acc)
}

fn struct_entry_exec(acc: StructAttrs, item: &NestedItem) -> (r: Result<StructAttrs, ErrorKind>)
    ensures
        r == struct_entry(acc, *item),
{
    if let MetaPath::Missing(m) = &item.path {
        return Err(ErrorKind::Syntax(SyntaxIssue::Unreadable(m.clone())));
    }
    if path_is_ident(&item.path, "pre_encode_with") {
        match fill_slot_exec(&acc.pre_encode_with, &item.arg, ArgName::PreEncodeWith) {
            Ok(p) => Ok(StructAttrs { pre_encode_with: Some(p), ..acc }),
            Err(k) => Err(k),
        }
    } else if path_is_ident(&item.path, "post_encode_with") {
        match fill_slot_exec(&acc.post_encode_with, &item.arg, ArgName::PostEncodeWith) {
            Ok(p) => Ok(StructAttrs { post_encode_with: Some(p), ..acc }),
            Err(k) => Err(k),
        }
    } else if path_is_ident(&item.path, "pre_decode_with") {
        match fill_slot_exec(&acc.pre_decode_with, &item.arg, ArgName::PreDecodeWith) {
            Ok(p) => Ok(StructAttrs { pre_decode_with: Some(p), ..acc }),
            Err(k) => Err(k),
        }
    } else if path_is_ident(&item.path, "post_decode_with") {
        match fill_slot_exec(&acc.post_decode_with, &item.arg, ArgName::PostDecodeWith) {
            Ok(p) => Ok(StructAttrs { post_decode_with: Some(p), ..acc }),
            Err(k) => Err(k),
        }
    } else {
        bare_key_exec(&item.arg, acc)
    }
}

fn struct_entries_exec(acc: StructAttrs, items: &Vec<NestedItem>, attr: usize) -> (r: Result<StructAttrs, AttrError>)
    ensures
        r == struct_entries(acc, items@, attr),
{
    let ghost acc0 = acc;
    let mut a = acc;
    let mut i: usize = 0;
    while i < items.len()
        invariant
            i <= items.len(),
            acc0 == acc,
            struct_entries(acc0, items@.take(i as int), attr) == Ok::<StructAttrs, AttrError>(a),
        decreases items.len() - i,
    {
        proof {
            assert(items@.take(i + 1).drop_last() =~= items@.take(i as int));
        }
        match struct_entry_exec(a, &items[i]) {
            Ok(b) => {
                a = b;
            },
            Err(kind) => {
                proof {
                    assert(items@.take(i + 1).last() == items@[i as int]);
                    assert(struct_entries(acc0, items@.take(i + 1), attr) == Err::<StructAttrs, AttrError>(
                        AttrError { attr, item: i, kind },
                    ));
                    lemma_struct_entries_stop(acc0, items@, attr, i + 1);
                }
                return Err(AttrError { attr, item: i, kind });
            },
        }
        i += 1;
    }
    proof {
        assert(items@.take(i as int) =~= items@);
    }
    Ok(a)
}

fn struct_attr_exec(acc: StructAttrs, a: &AttrModel, attr: usize) -> (r: Result<StructAttrs, AttrError>)
    ensures
        r == struct_attr(acc, *a, attr),
{
    if !path_is_ident(&a.path, "rlp") {
        return Ok(acc);
    }
    match &a.meta {
        AttrMeta::List(items) => struct_entries_exec(acc, items, attr),
        _ => Ok(acc),
    }
}

/// Reads the `#[rlp(...)]` attributes of a struct: the four hook keys
/// `pre_encode_with`, `post_encode_with`, `pre_decode_with` and
/// `post_decode_with`, each `= path` and each at most once; other keys
/// (such as `trailing`) are accepted and ignored here.
pub fn parse_struct_attrs(ast: &DeriveInputModel) -> (r: Result<StructAttrs, AttrError>)
    ensures
        r == struct_attrs_of(ast.attrs@),
{
    let attrs = &ast.attrs;
    let mut acc = StructAttrs {
        pre_encode_with: None,
        post_encode_with: None,
        pre_decode_with: None,
        post_decode_with: None,
        nolist: false,
    };
    let mut k: usize = 0;
    while k < attrs.len()
        invariant
            k <= attrs.len(),
            attrs@ == ast.attrs@,
            struct_attrs_of(attrs@.take(k as int)) == Ok::<StructAttrs, AttrError>(acc),
        decreases attrs.len() - k,
    {
        proof {
            assert(attrs@.take(k + 1).drop_last() =~= attrs@.take(k as int));
        }
        match struct_attr_exec(acc, &attrs[k], k) {
            Ok(b) => {
                acc = b;
            },
            Err(e) => {
                proof {
                    lemma_struct_attrs_stop(attrs@, k + 1);
                }
                return Err(e);
            },
        }
        k += 1;
    }
    proof {
        assert(attrs@.take(k as int) =~= attrs@);
    }
    Ok(acc)
}

fn list_names_exec(items: &Vec<NestedItem>, name: &str) -> (b: bool)
    ensures
        b == list_names(items@, name@),
{
    let mut i: usize = 0;
    while i < items.len()
        invariant
            i <= items.len(),
            forall|j: int| 0 <= j < i ==> !is_ident(#[trigger] items@[j].path, name@),
        decreases items.len() - i,
    {
        if path_is_ident(&items[i].path, name) {
            return true;
        }
        i += 1;
    }
    false
}

/// Whether some `#[rlp(...)]` attribute holds the key `attr_name`, in any
/// place among its entries.
pub fn attributes_include(attrs: &Vec<AttrModel>, attr_name: &str) -> (b: bool)
    ensures
        b == attrs_name(attrs@, attr_name@),
{
    let mut k: usize = 0;
    while k < attrs.len()
        invariant
            k <= attrs.len(),
            forall|m: int|
                0 <= m < k ==> !((#[trigger] rlp_list(attrs@[m])) is Some && list_names(
                    rlp_list(attrs@[m]).unwrap(),
                    attr_name@,
                )),
        decreases attrs.len() - k,
    {
        let a = &attrs[k];
        if path_is_ident(&a.path, "rlp") {
            if let AttrMeta::List(items) = &a.meta {
                if list_names_exec(items, attr_name) {
                    assert(rlp_list(attrs@[k as int]) == Some(items@));
                    return true;
                }
            }
        }
        k += 1;
    }
    false
}

// ---------------------------------------------------------------------------
// Laws.

/// An entry that is a bare key other than `with`: `default`, `skip` or a key
/// that fields ignore.
pub open spec fn flag_entry(item: NestedItem) -> bool {
    &&& item.arg is Empty
    &&& item.path matches MetaPath::Ident(s)
    &&& s@ != "with"@
}

/// `items` with the entries at `i` and `i + 1` exchanged.
pub open spec fn swap_adjacent<T>(items: Seq<T>, i: int) -> Seq<T> {
    items.update(i, items[i + 1]).update(i + 1, items[i])
}

proof fn lemma_field_keys_distinct()
    ensures
        "default"@ != "skip"@,
        "default"@ != "with"@,
        "skip"@ != "with"@,
{
    reveal_strlit("default");
    reveal_strlit("skip");
    reveal_strlit("with");
    assert("default"@.len() == 7);
    assert("skip"@.len() == 4);
    assert("with"@.len() == 4);
    assert("skip"@[0] != "with"@[0]);
}

proof fn lemma_flag_entry_ok(acc: FieldAttrs, item: NestedItem)
    requires
        flag_entry(item),
    ensures
        field_entry(acc, item) == Ok::<FieldAttrs, ErrorKind>(
            FieldAttrs {
                default: acc.default || is_ident(item.path, "default"@),
                skip: acc.skip || is_ident(item.path, "skip"@),
                with: acc.with,
            },
        ),
{
    lemma_field_keys_distinct();
}

/// The order of bare keys in a field's `#[rlp(...)]` does not matter:
/// exchanging two neighbouring bare keys other than `with` (such as
/// `default, skip` and `skip, default`) reads to the same result.
pub proof fn law_flag_order_irrelevant(acc: FieldAttrs, items: Seq<NestedItem>, i: int, attr: usize)
    requires
        0 <= i,
        i + 1 < items.len(),
        flag_entry(items[i]),
        flag_entry(items[i + 1]),
    ensures
        field_entries(acc, swap_adjacent(items, i), attr) == field_entries(acc, items, attr),
    decreases items.len(),
{
    let sw = swap_adjacent(items, i);
    if items.len() - 1 > i + 1 {
        assert(sw.drop_last() =~= swap_adjacent(items.drop_last(), i));
        law_flag_order_irrelevant(acc, items.drop_last(), i, attr);
        assert(sw.last() == items.last());
    } else {
        let pre = items.drop_last().drop_last();
        assert(sw.drop_last().drop_last() =~= pre);
        assert(sw.drop_last().last() == items[i + 1]);
        assert(sw.last() == items[i]);
        assert(items.drop_last().last() == items[i]);
        match field_entries(acc, pre, attr) {
            Ok(a) => {
                lemma_flag_entry_ok(a, items[i]);
                lemma_flag_entry_ok(a, items[i + 1]);
                let b1 = field_entry(a, items[i]).unwrap();
                let b2 = field_entry(a, items[i + 1]).unwrap();
                lemma_flag_entry_ok(b1, items[i + 1]);
                lemma_flag_entry_ok(b2, items[i]);
                assert(field_entries(acc, items.drop_last(), attr) == Ok::<FieldAttrs, AttrError>(b1));
                assert(field_entries(acc, sw.drop_last(), attr) == Ok::<FieldAttrs, AttrError>(b2));
                assert(field_entry(b1, items[i + 1]) == field_entry(b2, items[i]));
            },
            Err(e) => {
                assert(field_entries(acc, items.drop_last(), attr) == Err::<FieldAttrs, AttrError>(e));
                assert(field_entries(acc, sw.drop_last(), attr) == Err::<FieldAttrs, AttrError>(e));
            },
        }
    }
}

/// An entry `with = path`.
pub open spec fn with_entry(item: NestedItem) -> bool {
    &&& is_ident(item.path, "with"@)
    &&& item.arg matches ItemArg::Assign(AssignValue::Path(_))
}

proof fn lemma_with_kept(acc: FieldAttrs, items: Seq<NestedItem>, attr: usize, i: int)
    requires
        0 <= i < items.len(),
        with_entry(items[i]),
        field_entries(acc, items, attr) is Ok,
    ensures
        field_entries(acc, items, attr).unwrap().with is Some,
    decreases items.len(),
{
    if i < items.len() - 1 {
        assert(items.drop_last()[i] == items[i]);
        lemma_with_kept(acc, items.drop_last(), attr, i);
    }
}

/// A field may be given `with = path` once: a second such entry is refused
/// as a duplicate, at that entry, when the entries before it read without
/// error.
pub proof fn law_with_only_once(acc: FieldAttrs, items: Seq<NestedItem>, attr: usize, i: int, j: int)
    requires
        0 <= i < j < items.len(),
        items.len() <= usize::MAX,
        with_entry(items[i]),
        with_entry(items[j]),
        field_entries(acc, items.take(j), attr) is Ok,
    ensures
        field_entries(acc, items, attr) == Err::<FieldAttrs, AttrError>(
            AttrError { attr, item: j as usize, kind: ErrorKind::Duplicate(ArgName::With) },
        ),
{
    assert(items.take(j)[i] == items[i]);
    lemma_with_kept(acc, items.take(j), attr, i);
    assert(items.take(j + 1).drop_last() =~= items.take(j));
    assert(items.take(j + 1).last() == items[j]);
    lemma_field_keys_distinct();
    let a = field_entries(acc, items.take(j), attr).unwrap();
    assert(field_entry(a, items[j]) == Err::<FieldAttrs, ErrorKind>(ErrorKind::Duplicate(ArgName::With)));
    lemma_field_entries_stop(acc, items, attr, j + 1);
}

/// The hook of a struct that the key `n` fills.
pub open spec fn hook_slot(a: StructAttrs, n: ArgName) -> Option<String> {
    match n {
        ArgName::PreEncodeWith => a.pre_encode_with,
        ArgName::PostEncodeWith => a.post_encode_with,
        ArgName::PreDecodeWith => a.pre_decode_with,
        ArgName::PostDecodeWith => a.post_decode_with,
        ArgName::With => None,
    }
}

/// An entry `n = path` for a hook key `n`.
pub open spec fn hook_entry(item: NestedItem, n: ArgName) -> bool {
    &&& n !is With
    &&& is_ident(item.path, arg_name_text(n))
    &&& item.arg matches ItemArg::Assign(AssignValue::Path(_))
}

proof fn lemma_hook_keys_distinct()
    ensures
        "pre_encode_with"@ != "post_encode_with"@,
        "pre_encode_with"@ != "pre_decode_with"@,
        "pre_encode_with"@ != "post_decode_with"@,
        "post_encode_with"@ != "pre_decode_with"@,
        "post_encode_with"@ != "post_decode_with"@,
        "pre_decode_with"@ != "post_decode_with"@,
{
    reveal_strlit("pre_encode_with");
    reveal_strlit("post_encode_with");
    reveal_strlit("pre_decode_with");
    reveal_strlit("post_decode_with");
    assert("pre_encode_with"@.len() == 15);
    assert("post_encode_with"@.len() == 16);
    assert("pre_decode_with"@.len() == 15);
    assert("post_decode_with"@.len() == 16);
    assert("pre_encode_with"@[4] != "pre_decode_with"@[4]);
    assert("post_encode_with"@[5] != "post_decode_with"@[5]);
}

proof fn lemma_hook_kept(acc: StructAttrs, items: Seq<NestedItem>, attr: usize, i: int, n: ArgName)
    requires
        0 <= i < items.len(),
        hook_entry(items[i], n),
        struct_entries(acc, items, attr) is Ok,
    ensures
        hook_slot(struct_entries(acc, items, attr).unwrap(), n) is Some,
    decreases items.len(),
{
    lemma_hook_keys_distinct();
    if i < items.len() - 1 {
        assert(items.drop_last()[i] == items[i]);
        lemma_hook_kept(acc, items.drop_last(), attr, i, n);
    }
}

/// Each hook of a struct (`pre_encode_with`, `post_encode_with`,
/// `pre_decode_with`, `post_decode_with`) may be given once: a second entry
/// for it is refused as a duplicate, at that entry, when the entries before
/// it read without error.
pub proof fn law_hook_only_once(acc: StructAttrs, items: Seq<NestedItem>, attr: usize, i: int, j: int, n: ArgName)
    requires
        0 <= i < j < items.len(),
        items.len() <= usize::MAX,
        hook_entry(items[i], n),
        hook_entry(items[j], n),
        struct_entries(acc, items.take(j), attr) is Ok,
    ensures
        struct_entries(acc, items, attr) == Err::<StructAttrs, AttrError>(
            AttrError { attr, item: j as usize, kind: ErrorKind::Duplicate(n) },
        ),
{
    assert(items.take(j)[i] == items[i]);
    lemma_hook_kept(acc, items.take(j), attr, i, n);
    assert(items.take(j + 1).drop_last() =~= items.take(j));
    assert(items.take(j + 1).last() == items[j]);
    lemma_hook_keys_distinct();
    let a = struct_entries(acc, items.take(j), attr).unwrap();
    assert(struct_entry(a, items[j]) == Err::<StructAttrs, ErrorKind>(ErrorKind::Duplicate(n)));
    lemma_struct_entries_stop(acc, items, attr, j + 1);
}

// ---------------------------------------------------------------------------
// Where each attribute comes from.

/// Some entry of the list has the key `key` and the argument `arg`.
pub open spec fn entry_sets(items: Seq<NestedItem>, key: Seq<char>, arg: ItemArg) -> bool {
    exists|i: int| 0 <= i < items.len() && is_ident(#[trigger] items[i].path, key) && items[i].arg == arg
}

/// Some `#[rlp(...)]` attribute has an entry with the key `key` and the
/// argument `arg`.
pub open spec fn attrs_set(attrs: Seq<AttrModel>, key: Seq<char>, arg: ItemArg) -> bool {
    exists|k: int|
        0 <= k < attrs.len() && (#[trigger] rlp_list(attrs[k])) is Some && entry_sets(
            rlp_list(attrs[k]).unwrap(),
            key,
            arg,
        )
}

/// A field entry changes only what its own key names: `default` and `skip`
/// are set only by the bare keys `default` and `skip`, and `with` only by
/// `with = path`, to that path.
pub proof fn law_field_entry_sets_own_key(acc: FieldAttrs, item: NestedItem)
    requires
        field_entry(acc, item) is Ok,
    ensures
        ({
            let b = field_entry(acc, item).unwrap();
            &&& b.default != acc.default ==> b.default && is_ident(item.path, "default"@)
                && item.arg is Empty
            &&& b.skip != acc.skip ==> b.skip && is_ident(item.path, "skip"@) && item.arg is Empty
            &&& b.with != acc.with ==> is_ident(item.path, "with"@) && (b.with matches Some(p)
                && item.arg == ItemArg::Assign(AssignValue::Path(p)))
        }),
{
    lemma_field_keys_distinct();
}

proof fn lemma_field_entries_origin(acc: FieldAttrs, items: Seq<NestedItem>, attr: usize)
    requires
        field_entries(acc, items, attr) is Ok,
    ensures
        ({
            let b = field_entries(acc, items, attr).unwrap();
            &&& b.default ==> acc.default || entry_sets(items, "default"@, ItemArg::Empty)
            &&& b.skip ==> acc.skip || entry_sets(items, "skip"@, ItemArg::Empty)
            &&& b.with matches Some(p) ==> b.with == acc.with || entry_sets(
                items,
                "with"@,
                ItemArg::Assign(AssignValue::Path(p)),
            )
        }),
    decreases items.len(),
{
    if items.len() > 0 {
        let pre = items.drop_last();
        lemma_field_entries_origin(acc, pre, attr);
        let a = field_entries(acc, pre, attr).unwrap();
        let b = field_entries(acc, items, attr).unwrap();
        law_field_entry_sets_own_key(a, items.last());
        let last = items.len() - 1;
        assert(items[last] == items.last());
        assert forall|i: int| 0 <= i < pre.len() implies #[trigger] pre[i] == items[i] by {}
        if b.default && !acc.default && !entry_sets(items, "default"@, ItemArg::Empty) {
            if a.default {
                let i = choose|i: int| 0 <= i < pre.len() && is_ident(#[trigger] pre[i].path, "default"@) && pre[i].arg == ItemArg::Empty;
                assert(is_ident(items[i].path, "default"@));
            } else {
                assert(is_ident(items[last].path, "default"@));
            }
        }
        if b.skip && !acc.skip && !entry_sets(items, "skip"@, ItemArg::Empty) {
            if a.skip {
                let i = choose|i: int| 0 <= i < pre.len() && is_ident(#[trigger] pre[i].path, "skip"@) && pre[i].arg == ItemArg::Empty;
                assert(is_ident(items[i].path, "skip"@));
            } else {
                assert(is_ident(items[last].path, "skip"@));
            }
        }
        if let Some(p) = b.with {
            if b.with != acc.with && !entry_sets(items, "with"@, ItemArg::Assign(AssignValue::Path(p))) {
                if a.with == b.with {
                    let i = choose|i: int| 0 <= i < pre.len() && is_ident(#[trigger] pre[i].path, "with"@) && pre[i].arg == ItemArg::Assign(AssignValue::Path(p));
                    assert(is_ident(items[i].path, "with"@));
                } else {
                    assert(is_ident(items[last].path, "with"@));
                }
            }
        }
    }
}

/// A field's attributes come from its entries: it is `default` only if some
/// `#[rlp(...)]` has the bare key `default`, `skip` only if some has the bare
/// key `skip`, and has `with = p` only if some has the entry `with = p`.
pub proof fn law_field_attrs_from_entries(attrs: Seq<AttrModel>)
    requires
        field_attrs_of(attrs) is Ok,
    ensures
        ({
            let fa = field_attrs_of(attrs).unwrap();
            &&& fa.default ==> attrs_set(attrs, "default"@, ItemArg::Empty)
            &&& fa.skip ==> attrs_set(attrs, "skip"@, ItemArg::Empty)
            &&& fa.with matches Some(p) ==> attrs_set(
                attrs,
                "with"@,
                ItemArg::Assign(AssignValue::Path(p)),
            )
        }),
    decreases attrs.len(),
{
    if attrs.len() > 0 {
        let pre = attrs.drop_last();
        let last = attrs.len() - 1;
        law_field_attrs_from_entries(pre);
        let a = field_attrs_of(pre).unwrap();
        let fa = field_attrs_of(attrs).unwrap();
        assert(attrs[last] == attrs.last());
        assert forall|k: int| 0 <= k < pre.len() implies #[trigger] pre[k] == attrs[k] by {}
        if let Some(items) = rlp_list(attrs.last()) {
            lemma_field_entries_origin(a, items, last as usize);
        }
        assert(rlp_list(attrs[last]) == rlp_list(attrs.last()));
        if fa.default && !attrs_set(attrs, "default"@, ItemArg::Empty) {
            if a.default {
                let k = choose|k: int| 0 <= k < pre.len() && (#[trigger] rlp_list(pre[k])) is Some && entry_sets(rlp_list(pre[k]).unwrap(), "default"@, ItemArg::Empty);
                assert(rlp_list(attrs[k]) is Some);
            }
        }
        if fa.skip && !attrs_set(attrs, "skip"@, ItemArg::Empty) {
            if a.skip {
                let k = choose|k: int| 0 <= k < pre.len() && (#[trigger] rlp_list(pre[k])) is Some && entry_sets(rlp_list(pre[k]).unwrap(), "skip"@, ItemArg::Empty);
                assert(rlp_list(attrs[k]) is Some);
            }
        }
        if let Some(p) = fa.with {
            if !attrs_set(attrs, "with"@, ItemArg::Assign(AssignValue::Path(p))) {
                if a.with == fa.with {
                    let k = choose|k: int| 0 <= k < pre.len() && (#[trigger] rlp_list(pre[k])) is Some && entry_sets(rlp_list(pre[k]).unwrap(), "with"@, ItemArg::Assign(AssignValue::Path(p)));
                    assert(rlp_list(attrs[k]) is Some);
                }
            }
        }
    }
}

/// A struct entry changes only the hook its own key names, and only to the
/// path it gives; it never sets `nolist`.
pub proof fn law_struct_entry_sets_own_hook(acc: StructAttrs, item: NestedItem, n: ArgName)
    requires
        n !is With,
        struct_entry(acc, item) is Ok,
    ensures
        ({
            let b = struct_entry(acc, item).unwrap();
            &&& b.nolist == acc.nolist
            &&& hook_slot(b, n) != hook_slot(acc, n) ==> is_ident(item.path, arg_name_text(n))
                && (hook_slot(b, n) matches Some(p) && item.arg == ItemArg::Assign(
                AssignValue::Path(p),
            ))
        }),
{
    lemma_hook_keys_distinct();
}

proof fn lemma_struct_entries_origin(acc: StructAttrs, items: Seq<NestedItem>, attr: usize, n: ArgName)
    requires
        n !is With,
        struct_entries(acc, items, attr) is Ok,
    ensures
        ({
            let b = struct_entries(acc, items, attr).unwrap();
            &&& b.nolist == acc.nolist
            &&& hook_slot(b, n) matches Some(p) ==> hook_slot(b, n) == hook_slot(acc, n)
                || entry_sets(items, arg_name_text(n), ItemArg::Assign(AssignValue::Path(p)))
        }),
    decreases items.len(),
{
    if items.len() > 0 {
        let pre = items.drop_last();
        lemma_struct_entries_origin(acc, pre, attr, n);
        let a = struct_entries(acc, pre, attr).unwrap();
        let b = struct_entries(acc, items, attr).unwrap();
        law_struct_entry_sets_own_hook(a, items.last(), n);
        let last = items.len() - 1;
        assert(items[last] == items.last());
        assert forall|i: int| 0 <= i < pre.len() implies #[trigger] pre[i] == items[i] by {}
        if let Some(p) = hook_slot(b, n) {
            if hook_slot(b, n) != hook_slot(acc, n) && !entry_sets(items, arg_name_text(n), ItemArg::Assign(AssignValue::Path(p))) {
                if hook_slot(a, n) == hook_slot(b, n) {
                    let i = choose|i: int| 0 <= i < pre.len() && is_ident(#[trigger] pre[i].path, arg_name_text(n)) && pre[i].arg == ItemArg::Assign(AssignValue::Path(p));
                    assert(is_ident(items[i].path, arg_name_text(n)));
                } else {
                    assert(is_ident(items[last].path, arg_name_text(n)));
                }
            }
        }
    }
}

/// A struct's hooks come from its entries: a hook is set to `p` only if some
/// `#[rlp(...)]` has the entry `key = p` with that hook's own key (so
/// `post_decode_with` never sets `pre_decode_with`); `nolist` is never set.
pub proof fn law_hooks_from_entries(attrs: Seq<AttrModel>, n: ArgName)
    requires
        n !is With,
        struct_attrs_of(attrs) is Ok,
    ensures
        ({
            let sa = struct_attrs_of(attrs).unwrap();
            &&& !sa.nolist
            &&& hook_slot(sa, n) matches Some(p) ==> attrs_set(
                attrs,
                arg_name_text(n),
                ItemArg::Assign(AssignValue::Path(p)),
            )
        }),
    decreases attrs.len(),
{
    if attrs.len() > 0 {
        let pre = attrs.drop_last();
        let last = attrs.len() - 1;
        law_hooks_from_entries(pre, n);
        let a = struct_attrs_of(pre).unwrap();
        let sa = struct_attrs_of(attrs).unwrap();
        assert(attrs[last] == attrs.last());
        assert forall|k: int| 0 <= k < pre.len() implies #[trigger] pre[k] == attrs[k] by {}
        if let Some(items) = rlp_list(attrs.last()) {
            lemma_struct_entries_origin(a, items, last as usize, n);
        }
        assert(rlp_list(attrs[last]) == rlp_list(attrs.last()));
        if let Some(p) = hook_slot(sa, n) {
            if !attrs_set(attrs, arg_name_text(n), ItemArg::Assign(AssignValue::Path(p))) {
                if hook_slot(a, n) == hook_slot(sa, n) {
                    let k = choose|k: int| 0 <= k < pre.len() && (#[trigger] rlp_list(pre[k])) is Some && entry_sets(rlp_list(pre[k]).unwrap(), arg_name_text(n), ItemArg::Assign(AssignValue::Path(p)));
                    assert(rlp_list(attrs[k]) is Some);
                }
            }
        }
    }
}

} // verus!
