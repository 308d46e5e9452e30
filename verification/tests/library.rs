//! Reading attributes, the checks of the derives and their errors, and
//! decoding by a plan, on concrete inputs.

use alloy_rlp::{Encodable, Header};
use rlp_derive::attrs::{attributes_include, parse_field_attrs, parse_struct_attrs};
use rlp_derive::decode::{decode_body, decode_struct, decode_wrapper_body, FieldValue, Value, ValueKind};
use rlp_derive::error::{ArgName, ErrorKind, ErrorSite, SyntaxIssue};
use rlp_derive::model::{
    AssignValue, AttrMeta, AttrModel, DataModel, DeriveInputModel, FieldModel, GenericParamModel,
    GenericsModel, ItemArg, MetaPath, NestedItem, TypeModel, WherePredicateModel,
};
use rlp_derive::plan::{
    decodable_field, field_ident, impl_decodable, impl_decodable_wrapper, is_optional,
    make_generics, parse_struct, DecodablePlan, Decoder, FieldPlan, FieldStep, Member,
};
use rlp_derive::rlp::RlpError;

fn ident(s: &str) -> MetaPath {
    MetaPath::Ident(s.to_string())
}

fn key(s: &str) -> NestedItem {
    NestedItem { path: ident(s), arg: ItemArg::Empty }
}

fn key_arg(k: &str, arg: ItemArg) -> NestedItem {
    NestedItem { path: ident(k), arg }
}

fn key_path(k: &str, v: &str) -> NestedItem {
    key_arg(k, ItemArg::Assign(AssignValue::Path(v.to_string())))
}

fn rlp(items: Vec<NestedItem>) -> AttrModel {
    AttrModel { path: ident("rlp"), meta: AttrMeta::List(items) }
}

fn path_ty(seg: &str) -> TypeModel {
    TypeModel::Path { qself: false, leading_colon: false, segments: vec![seg.to_string()] }
}

fn field(name: Option<&str>, ty: TypeModel, attrs: Vec<AttrModel>) -> FieldModel {
    FieldModel { ident: name.map(|s| s.to_string()), ty, attrs }
}

fn strukt(attrs: Vec<AttrModel>, fields: Vec<FieldModel>) -> DeriveInputModel {
    DeriveInputModel {
        attrs,
        ident: "S".to_string(),
        generics: GenericsModel { params: vec![], where_clause: None },
        data: DataModel::Struct(fields),
    }
}

fn list(items: &[&dyn Encodable]) -> Vec<u8> {
    let mut payload = Vec::new();
    for item in items {
        item.encode(&mut payload);
    }
    let mut out = Vec::new();
    Header { list: true, payload_length: payload.len() }.encode(&mut out);
    out.extend_from_slice(&payload);
    out
}

fn plan(ast: &DeriveInputModel) -> DecodablePlan {
    impl_decodable(ast).unwrap()
}

// ---------------------------------------------------------------------------
// Field and struct attributes.

#[test]
fn field_attrs_flags_and_with() {
    let f = field(None, TypeModel::Other, vec![rlp(vec![key("skip")]), rlp(vec![key_path("with", "m")])]);
    let a = parse_field_attrs(&f).unwrap();
    assert!(!a.default && a.skip);
    assert_eq!(a.with.as_deref(), Some("m"));
}

#[test]
fn field_attrs_flag_order_irrelevant() {
    let a = parse_field_attrs(&field(None, TypeModel::Other, vec![rlp(vec![key("default"), key("skip")])])).unwrap();
    let b = parse_field_attrs(&field(None, TypeModel::Other, vec![rlp(vec![key("skip"), key("default")])])).unwrap();
    assert_eq!((a.default, a.skip, a.with.is_none()), (true, true, true));
    assert_eq!((b.default, b.skip, b.with.is_none()), (true, true, true));
}

#[test]
fn field_attrs_ignore_other_attributes() {
    let other = AttrModel { path: ident("serde"), meta: AttrMeta::List(vec![key("default")]) };
    let plain = AttrModel { path: ident("rlp"), meta: AttrMeta::Path };
    let a = parse_field_attrs(&field(None, TypeModel::Other, vec![other, plain, rlp(vec![key("unknown")])])).unwrap();
    assert!(!a.default && !a.skip && a.with.is_none());
}

#[test]
fn field_attrs_duplicate_with() {
    let f = field(None, TypeModel::Other, vec![rlp(vec![key_path("with", "a"), key_path("with", "b")])]);
    let e = parse_field_attrs(&f).unwrap_err();
    assert_eq!((e.attr, e.item), (0, 1));
    assert!(matches!(e.kind, ErrorKind::Duplicate(ArgName::With)));
    assert_eq!(e.kind.message(), "duplicate `with` argument");
}

fn missing(msg: &str) -> NestedItem {
    NestedItem { path: MetaPath::Missing(msg.to_string()), arg: ItemArg::Empty }
}

#[test]
fn empty_rlp_list_reads_nothing() {
    let a = parse_field_attrs(&field(None, TypeModel::Other, vec![rlp(vec![])])).unwrap();
    assert!(!a.default && !a.skip && a.with.is_none());
    let s = parse_struct_attrs(&strukt(vec![rlp(vec![])], vec![])).unwrap();
    assert!(s.pre_decode_with.is_none() && s.post_decode_with.is_none());
}

#[test]
fn field_attrs_syntax_errors() {
    let cases = vec![
        (rlp(vec![key("skip"), missing("unexpected literal in nested attribute, expected ident")]), 1, "unexpected literal in nested attribute, expected ident"),
        (rlp(vec![key("with")]), 0, "expected `=`"),
        (rlp(vec![key_arg("with", ItemArg::Assign(AssignValue::NotPath("expected identifier".to_string())))]), 0, "expected identifier"),
        (rlp(vec![key_arg("with", ItemArg::Assign(AssignValue::PathThen("p".to_string())))]), 0, "expected `,`"),
        (rlp(vec![key_arg("default", ItemArg::Other)]), 0, "expected `,`"),
        (rlp(vec![key_arg("unknown", ItemArg::Assign(AssignValue::Path("p".to_string())))]), 0, "expected `,`"),
    ];
    for (attr, item, msg) in cases {
        let e = parse_field_attrs(&field(None, TypeModel::Other, vec![attr])).unwrap_err();
        assert_eq!(e.item, item);
        assert!(matches!(e.kind, ErrorKind::Syntax(_)));
        assert_eq!(e.kind.message(), msg);
    }
}

#[test]
fn struct_attrs_hooks() {
    let ast = strukt(
        vec![rlp(vec![key("trailing"), key_path("pre_decode_with", "f"), key_path("post_encode_with", "g")])],
        vec![],
    );
    let a = parse_struct_attrs(&ast).unwrap();
    assert_eq!(a.pre_decode_with.as_deref(), Some("f"));
    assert_eq!(a.post_encode_with.as_deref(), Some("g"));
    assert!(a.pre_encode_with.is_none() && a.post_decode_with.is_none() && !a.nolist);

    let dup = strukt(vec![rlp(vec![key_path("post_decode_with", "f")]), rlp(vec![key_path("post_decode_with", "g")])], vec![]);
    let e = parse_struct_attrs(&dup).unwrap_err();
    assert_eq!((e.attr, e.item), (1, 0));
    assert!(matches!(e.kind, ErrorKind::Duplicate(ArgName::PostDecodeWith)));
    assert_eq!(e.kind.message(), "duplicate `post_decode_with` argument");
}

#[test]
fn attributes_include_in_any_order() {
    let attrs = vec![rlp(vec![key("trailing"), key_path("pre_decode_with", "f")])];
    assert!(attributes_include(&attrs, "trailing"));
    let attrs = vec![rlp(vec![key_path("pre_decode_with", "f"), key("trailing")])];
    assert!(attributes_include(&attrs, "trailing"));
    assert!(!attributes_include(&attrs, "default"));
    let attrs = vec![AttrModel { path: ident("other"), meta: AttrMeta::List(vec![key("trailing")]) }];
    assert!(!attributes_include(&attrs, "trailing"));
    let attrs = vec![rlp(vec![key("a")]), rlp(vec![key("b"), key("trailing")])];
    assert!(attributes_include(&attrs, "trailing"));
}

// ---------------------------------------------------------------------------
// The steps of the derive.

#[test]
fn parse_struct_refuses_enums() {
    let mut ast = strukt(vec![], vec![]);
    ast.data = DataModel::Enum;
    let e = parse_struct(&ast, "RlpDecodable").unwrap_err();
    assert!(matches!(e.site, ErrorSite::Input));
    assert_eq!(e.kind.message(), "#[derive(RlpDecodable)] is only defined for structs.");
    ast.data = DataModel::Union;
    let e = impl_decodable_wrapper(&ast).unwrap_err();
    assert_eq!(e.kind.message(), "#[derive(RlpEncodableWrapper)] is only defined for structs.");
}

#[test]
fn is_optional_needs_bare_option() {
    assert!(is_optional(&field(None, path_ty("Option"), vec![])));
    assert!(!is_optional(&field(None, path_ty("Vec"), vec![])));
    let qualified = TypeModel::Path {
        qself: false,
        leading_colon: false,
        segments: vec!["std".to_string(), "option".to_string(), "Option".to_string()],
    };
    assert!(!is_optional(&field(None, qualified, vec![])));
    let rooted = TypeModel::Path { qself: false, leading_colon: true, segments: vec!["Option".to_string()] };
    assert!(!is_optional(&field(None, rooted, vec![])));
    assert!(!is_optional(&field(None, TypeModel::Other, vec![])));
}

#[test]
fn field_ident_names_or_numbers() {
    assert!(matches!(field_ident(3, &field(Some("x"), TypeModel::Other, vec![])), Member::Named(n) if n == "x"));
    assert!(matches!(field_ident(3, &field(None, TypeModel::Other, vec![])), Member::Unnamed(3)));
}

#[test]
fn decodable_field_steps() {
    let f = field(Some("x"), path_ty("Option"), vec![]);
    let mut attrs = parse_field_attrs(&f).unwrap();
    let p: FieldPlan = decodable_field(0, &f, &attrs, true, true);
    assert!(matches!(p.step, FieldStep::Optional { decoder: Decoder::Trait, nolist: true, or_default: false }));
    attrs.with = Some("m".to_string());
    let p = decodable_field(0, &f, &attrs, false, false);
    assert!(matches!(&p.step, FieldStep::Required { decoder: Decoder::With(m), or_default: false } if m == "m"));
    attrs.default = true;
    let p = decodable_field(0, &f, &attrs, true, false);
    assert!(matches!(p.step, FieldStep::Optional { or_default: true, .. }));
    let p = decodable_field(0, &f, &attrs, false, false);
    assert!(matches!(p.step, FieldStep::Required { or_default: true, .. }));
    attrs.skip = true;
    let p = decodable_field(0, &f, &attrs, true, false);
    assert!(matches!(p.step, FieldStep::Default));
}

#[test]
fn make_generics_bounds_type_params() {
    let g = GenericsModel {
        params: vec![
            GenericParamModel::Lifetime("'a".to_string()),
            GenericParamModel::Type("A".to_string()),
            GenericParamModel::Const("N".to_string()),
            GenericParamModel::Type("B".to_string()),
        ],
        where_clause: None,
    };
    let out = make_generics(&g, "Tr");
    assert_eq!(out.params.len(), 4);
    let preds = out.where_clause.unwrap();
    assert_eq!(preds.len(), 2);
    assert!(matches!(&preds[0], WherePredicateModel::Bound { subject, bound } if subject == "A" && bound == "Tr"));
    assert!(matches!(&preds[1], WherePredicateModel::Bound { subject, bound } if subject == "B" && bound == "Tr"));
}

#[test]
fn optional_field_needs_trailing() {
    let ast = strukt(vec![], vec![field(Some("a"), path_ty("u64"), vec![]), field(Some("b"), path_ty("Option"), vec![])]);
    let e = impl_decodable(&ast).unwrap_err();
    assert!(matches!(e.kind, ErrorKind::OptionalDisabled));
    assert!(matches!(e.site, ErrorSite::Field(1)));
    assert_eq!(
        e.kind.message(),
        "optional fields are disabled.\nAdd the `#[rlp(trailing)]` attribute to the struct in order to enable optional fields"
    );
}

#[test]
fn required_after_optional_refused() {
    let ast = strukt(
        vec![rlp(vec![key("trailing")])],
        vec![
            field(Some("a"), path_ty("Option"), vec![]),
            field(Some("b"), path_ty("u64"), vec![rlp(vec![key("default")])]),
            field(Some("c"), path_ty("u64"), vec![]),
        ],
    );
    let e = impl_decodable(&ast).unwrap_err();
    assert!(matches!(e.kind, ErrorKind::RequiredAfterOptional));
    assert!(matches!(e.site, ErrorSite::Field(2)));
    assert_eq!(e.kind.message(), "all the fields after the first optional field must be either optional or default");
}

#[test]
fn attribute_errors_come_first() {
    let ast = strukt(
        vec![rlp(vec![key("pre_decode_with")])],
        vec![field(Some("a"), path_ty("Option"), vec![])],
    );
    let e = impl_decodable(&ast).unwrap_err();
    assert!(matches!(e.site, ErrorSite::StructAttr { attr: 0, item: 0 }));
    assert!(matches!(e.kind, ErrorKind::Syntax(SyntaxIssue::ExpectedEq)));
    assert_eq!(e.kind.message(), "expected `=`");

    let ast = strukt(
        vec![],
        vec![
            field(Some("a"), path_ty("Option"), vec![]),
            field(Some("b"), TypeModel::Other, vec![rlp(vec![missing("unexpected token in nested attribute, expected ident")])]),
        ],
    );
    let e = impl_decodable(&ast).unwrap_err();
    assert!(matches!(e.site, ErrorSite::FieldAttr { field: 1, attr: 0, item: 0 }));
    assert_eq!(e.kind.message(), "unexpected token in nested attribute, expected ident");
}

#[test]
fn wrapper_needs_one_field() {
    let ast = strukt(vec![], vec![field(None, TypeModel::Other, vec![]), field(None, TypeModel::Other, vec![])]);
    let e = impl_decodable_wrapper(&ast).unwrap_err();
    assert!(matches!(e.site, ErrorSite::Ident));
    assert_eq!(e.kind.message(), "`RlpEncodableWrapper` is only defined for structs with one field.");
    let ast = strukt(vec![], vec![]);
    assert!(impl_decodable_wrapper(&ast).is_err());
}

// ---------------------------------------------------------------------------
// Decoding by a plan.

fn u64_of(v: &FieldValue) -> Option<u64> {
    match v {
        FieldValue::Decoded(Value::U64(x)) | FieldValue::Present(Value::U64(x)) => Some(*x),
        _ => None,
    }
}

#[test]
fn decode_two_fields_from_offset() {
    let p = plan(&strukt(vec![], vec![field(Some("a"), path_ty("u64"), vec![]), field(Some("b"), path_ty("Bytes"), vec![])]));
    let mut buf = vec![0xff, 0xff];
    buf.extend(list(&[&0x0102u64, &&b"xyz"[..]]));
    buf.push(0x00);
    let (values, end) = decode_body(&p, &vec![ValueKind::U64, ValueKind::Bytes], &buf, 2).unwrap();
    assert_eq!(end, buf.len() - 1);
    assert_eq!(u64_of(&values[0]), Some(0x0102));
    assert!(matches!(&values[1], FieldValue::Decoded(Value::Bytes(b)) if b == b"xyz"));
}

#[test]
fn decode_refuses_a_string() {
    let p = plan(&strukt(vec![], vec![field(Some("a"), path_ty("u64"), vec![])]));
    let r = decode_body(&p, &vec![ValueKind::U64], &[0x81, 0x90], 0);
    assert!(matches!(r, Err(RlpError::UnexpectedString)));
}

#[test]
fn decode_refuses_a_longer_list() {
    let p = plan(&strukt(vec![], vec![field(Some("a"), path_ty("u64"), vec![])]));
    let buf = list(&[&1u64, &2u64]);
    let r = decode_body(&p, &vec![ValueKind::U64], &buf, 0);
    assert!(matches!(r, Err(RlpError::ListLengthMismatch { expected: 2, got: 1 })));
}

#[test]
fn decode_reports_item_errors() {
    let p = plan(&strukt(vec![], vec![field(Some("a"), path_ty("u64"), vec![])]));
    // A u64 with a leading zero byte.
    let r = decode_body(&p, &vec![ValueKind::U64], &[0xc3, 0x82, 0x00, 0x01], 0);
    assert!(matches!(r, Err(RlpError::LeadingZero)));
    let r = decode_body(&p, &vec![ValueKind::U64], &[], 0);
    assert!(matches!(r, Err(RlpError::InputTooShort)));
}

#[test]
fn decode_trailing_optionals() {
    let ast = strukt(
        vec![rlp(vec![key("trailing")])],
        vec![
            field(Some("a"), path_ty("u64"), vec![]),
            field(Some("b"), path_ty("Option"), vec![]),
            field(Some("c"), path_ty("Option"), vec![]),
        ],
    );
    let p = plan(&ast);
    let kinds = vec![ValueKind::U64, ValueKind::U64, ValueKind::U64];

    // Both left out.
    let (v, _) = decode_body(&p, &kinds, &list(&[&5u64]), 0).unwrap();
    assert_eq!(u64_of(&v[0]), Some(5));
    assert!(matches!(v[1], FieldValue::Absent) && matches!(v[2], FieldValue::Absent));

    // The first one given as the empty string, the second present.
    let buf = [0xc3, 0x05, 0x80, 0x07];
    let (v, end) = decode_body(&p, &kinds, &buf, 0).unwrap();
    assert_eq!(end, 4);
    assert!(matches!(v[1], FieldValue::Absent));
    assert!(matches!(v[2], FieldValue::Present(Value::U64(7))));
}

#[test]
fn decode_empty_list_omits_all() {
    let ast = strukt(
        vec![rlp(vec![key("trailing")])],
        vec![field(Some("a"), path_ty("Option"), vec![]), field(Some("b"), path_ty("u64"), vec![rlp(vec![key("default")])])],
    );
    let p = plan(&ast);
    let (v, end) = decode_body(&p, &vec![ValueKind::U64, ValueKind::U64], &[0xc0], 0).unwrap();
    assert_eq!(end, 1);
    assert!(matches!(v[0], FieldValue::Absent) && matches!(v[1], FieldValue::Defaulted));
}

#[test]
fn default_field_decoded_unless_it_fails() {
    let ast = strukt(
        vec![],
        vec![field(Some("a"), path_ty("u64"), vec![]), field(Some("b"), path_ty("u64"), vec![rlp(vec![key("default")])])],
    );
    let p = plan(&ast);
    let kinds = vec![ValueKind::U64, ValueKind::U64];
    let (v, end) = decode_body(&p, &kinds, &list(&[&5u64, &9u64]), 0).unwrap();
    assert_eq!(end, 3);
    assert_eq!(u64_of(&v[1]), Some(9));
    // The second value has a leading zero: it falls back, reading nothing,
    // and the list is then not read to its end.
    let r = decode_body(&p, &kinds, &[0xc3, 0x05, 0x81, 0x00], 0);
    assert!(matches!(r, Err(RlpError::ListLengthMismatch { expected: 3, got: 1 })));
    let (v, _) = decode_body(&p, &kinds, &[0xc1, 0x05], 0).unwrap();
    assert!(matches!(v[1], FieldValue::Defaulted));
}

#[test]
fn wrapper_reads_one_value_without_list() {
    assert!(matches!(decode_wrapper_body(&ValueKind::U64, &[0x07], 0), Ok((Value::U64(7), 1))));
    assert!(matches!(decode_wrapper_body(&ValueKind::U64, &[0xc1, 0x07], 0), Err(RlpError::UnexpectedList)));
    assert!(matches!(decode_wrapper_body(&ValueKind::Bytes, &[0xc0], 0), Err(RlpError::UnexpectedList)));
}

#[test]
fn hooks_run_in_order_and_pass_errors() {
    let ast = strukt(
        vec![rlp(vec![key_path("pre_decode_with", "f"), key_path("post_decode_with", "g")])],
        vec![field(Some("a"), path_ty("u64"), vec![])],
    );
    let p = plan(&ast);
    let kinds = vec![ValueKind::U64];
    let log = std::cell::RefCell::new(Vec::new());
    // The pre hook drops a leading byte; the post hook drops one more.
    let pre = |v: Vec<u8>| -> Result<Vec<u8>, RlpError> {
        log.borrow_mut().push("pre");
        Ok(v[1..].to_vec())
    };
    let post = |v: Vec<u8>| -> Result<Vec<u8>, RlpError> {
        log.borrow_mut().push("post");
        Ok(v[1..].to_vec())
    };
    let (values, rest) = decode_struct(&p, &kinds, vec![0xff, 0xc1, 0x05, 0xaa, 0xbb], &pre, &post).unwrap();
    assert_eq!(u64_of(&values[0]), Some(5));
    assert_eq!(rest, vec![0xbb]);
    assert_eq!(*log.borrow(), vec!["pre", "post"]);

    log.borrow_mut().clear();
    let failing = |_: Vec<u8>| -> Result<Vec<u8>, RlpError> { Err(RlpError::Custom("refused")) };
    let r = decode_struct(&p, &kinds, vec![0xc1, 0x05], failing, &post);
    assert!(matches!(r, Err(RlpError::Custom("refused"))));
    assert!(log.borrow().is_empty());

    // A failing body: the post hook does not run.
    let r = decode_struct(&p, &kinds, vec![0xff, 0x82, 0x05, 0x06], &pre, &post);
    assert!(matches!(r, Err(RlpError::UnexpectedString)));
    assert_eq!(*log.borrow(), vec!["pre"]);
}

#[test]
fn decode_without_list_header() {
    let mut p = plan(&strukt(
        vec![rlp(vec![key("trailing")])],
        vec![field(Some("a"), path_ty("u64"), vec![]), field(Some("b"), path_ty("Option"), vec![])],
    ));
    p.nolist = true;
    p.fields[1].step = FieldStep::Optional { decoder: Decoder::Trait, nolist: true, or_default: false };
    let kinds = vec![ValueKind::U64, ValueKind::U64];
    let (v, end) = decode_body(&p, &kinds, &[0x05, 0x06], 0).unwrap();
    assert_eq!(end, 2);
    assert!(matches!(v[1], FieldValue::Present(Value::U64(6))));
    let (v, end) = decode_body(&p, &kinds, &[0x05], 0).unwrap();
    assert_eq!(end, 1);
    assert!(matches!(v[1], FieldValue::Absent));
}
