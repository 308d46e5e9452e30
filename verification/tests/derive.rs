//! The decodable derive on the struct shapes of the derive's own scenarios:
//! planning from the declaration, then decoding by the plan.

use alloy_rlp::{Encodable, Header};
use rlp_derive::decode::{decode_body, decode_struct, FieldValue, Value, ValueKind};
use rlp_derive::model::{
    AssignValue, AttrMeta, AttrModel, DataModel, DeriveInputModel, FieldModel, GenericParamModel,
    GenericsModel, ItemArg, MetaPath, NestedItem, TypeModel, WherePredicateModel,
};
use rlp_derive::plan::{
    impl_decodable, impl_decodable_wrapper, DecodablePlan, Decoder, FieldStep, Member,
};
use rlp_derive::rlp::RlpError;


fn ident(s: &str) -> MetaPath {
    MetaPath::Ident(s.to_string())
}

fn key(s: &str) -> NestedItem {
    NestedItem { path: ident(s), arg: ItemArg::Empty }
}

fn key_path(k: &str, v: &str) -> NestedItem {
    NestedItem { path: ident(k), arg: ItemArg::Assign(AssignValue::Path(v.to_string())) }
}

fn rlp(items: Vec<NestedItem>) -> AttrModel {
    AttrModel { path: ident("rlp"), meta: AttrMeta::List(items) }
}

fn path_ty(seg: &str) -> TypeModel {
    TypeModel::Path { qself: false, leading_colon: false, segments: vec![seg.to_string()] }
}

fn field(name: Option<&str>, ty: TypeModel, attrs: Vec<AttrModel>) -> FieldModel {
    FieldModel { ident: name.map(|s| s.to_string()), ty, attrs }
}

fn no_generics() -> GenericsModel {
    GenericsModel { params: vec![], where_clause: None }
}

fn strukt(name: &str, attrs: Vec<AttrModel>, fields: Vec<FieldModel>) -> DeriveInputModel {
    DeriveInputModel {
        attrs,
        ident: name.to_string(),
        generics: no_generics(),
        data: DataModel::Struct(fields),
    }
}

/// The RLP list of the given items.
fn list(items: &[&dyn Encodable]) -> Vec<u8> {
    let mut payload = Vec::new();
    for item in items {
        item.encode(&mut payload);
    }
    let mut out = Vec::new();
    Header { list: true, payload_length: payload.len() }.encode(&mut out);
    out.extend_from_slice(&payload);
    out
}

fn plan(ast: &DeriveInputModel) -> DecodablePlan {
    match impl_decodable(ast) {
        Ok(p) => p,
        Err(e) => panic!("derive refused: {:?}", e),
    }
}

fn decoded_u64(v: &FieldValue) -> u64 {
    match v {
        FieldValue::Decoded(Value::U64(x)) => *x,
        other => panic!("not a decoded u64: {:?}", other),
    }
}

#[test]
fn simple_derive() {
    // struct MyThing(#[rlp] [u8; 12]);
    let ast = strukt(
        "MyThing",
        vec![],
        vec![field(None, TypeModel::Other, vec![AttrModel { path: ident("rlp"), meta: AttrMeta::Path }])],
    );
    let p = plan(&ast);
    assert!(matches!(p.fields[0].member, Member::Unnamed(0)));
    let kinds = vec![ValueKind::Bytes];

    // roundtrip fidelity
    let thing: [u8; 12] = [0; 12];
    let buf = list(&[&thing]);
    let (values, end) = decode_body(&p, &kinds, &buf, 0).unwrap();
    assert_eq!(end, buf.len());
    match &values[0] {
        FieldValue::Decoded(Value::Bytes(b)) => assert_eq!(b.as_slice(), &thing[..]),
        other => panic!("unexpected {:?}", other),
    }

    // does not panic on short input
    let short = [0x8c; 11];
    assert!(matches!(decode_body(&p, &kinds, &short, 0), Err(RlpError::InputTooShort)));
}

#[test]
fn wrapper() {
    // struct Wrapper([u8; 8]);
    let w = strukt("Wrapper", vec![], vec![field(None, TypeModel::Other, vec![])]);
    let p = impl_decodable_wrapper(&w).unwrap();
    assert_eq!(p.name, "Wrapper");
    assert!(matches!(&p.generics.where_clause, Some(preds) if preds.is_empty()));

    // struct ConstWrapper<const N: usize>([u8; N]);
    let mut c = strukt("ConstWrapper", vec![], vec![field(None, TypeModel::Other, vec![])]);
    c.generics.params.push(GenericParamModel::Const("N".to_string()));
    let p = impl_decodable_wrapper(&c).unwrap();
    assert_eq!(p.generics.params.len(), 1);
    assert!(matches!(&p.generics.where_clause, Some(preds) if preds.is_empty()));
}

#[test]
fn generics() {
    // struct Generic<T, U: for<'a> LT<'a>, V: Default, const N: usize>(T, usize, U, V, [u8; N])
    // where U: std::fmt::Display;
    let mut g = strukt(
        "Generic",
        vec![],
        vec![
            field(None, path_ty("T"), vec![]),
            field(None, path_ty("usize"), vec![]),
            field(None, path_ty("U"), vec![]),
            field(None, path_ty("V"), vec![]),
            field(None, TypeModel::Other, vec![]),
        ],
    );
    g.generics = GenericsModel {
        params: vec![
            GenericParamModel::Type("T".to_string()),
            GenericParamModel::Type("U".to_string()),
            GenericParamModel::Type("V".to_string()),
            GenericParamModel::Const("N".to_string()),
        ],
        where_clause: Some(vec![WherePredicateModel::Written("U : std :: fmt :: Display".to_string())]),
    };
    let p = plan(&g);
    assert_eq!(p.fields.len(), 5);
    let preds = p.generics.where_clause.as_ref().unwrap();
    assert_eq!(preds.len(), 4);
    assert!(matches!(&preds[0], WherePredicateModel::Written(t) if t == "U : std :: fmt :: Display"));
    for (pred, name) in preds[1..].iter().zip(["T", "U", "V"]) {
        assert!(matches!(pred, WherePredicateModel::Bound { subject, bound }
            if subject == name && bound == "alloy_rlp::Decodable"));
    }

    // struct GenericWrapper<T>(T) where T: Sized;
    let mut gw = strukt("GenericWrapper", vec![], vec![field(None, path_ty("T"), vec![])]);
    gw.generics = GenericsModel {
        params: vec![GenericParamModel::Type("T".to_string())],
        where_clause: Some(vec![WherePredicateModel::Written("T : Sized".to_string())]),
    };
    let p = impl_decodable_wrapper(&gw).unwrap();
    assert_eq!(p.generics.where_clause.as_ref().unwrap().len(), 2);
}

#[test]
fn opt() {
    // #[rlp(trailing)] struct Options<T>(Option<Vec<T>>);
    let o = strukt("Options", vec![rlp(vec![key("trailing")])], vec![field(None, path_ty("Option"), vec![])]);
    let p = plan(&o);
    assert!(matches!(
        p.fields[0].step,
        FieldStep::Optional { decoder: Decoder::Trait, nolist: false, or_default: false }
    ));

    // #[rlp(trailing)] struct Options2<T> { a: Option<T>, #[rlp(default)] b: Option<T> }
    let o2 = strukt(
        "Options2",
        vec![rlp(vec![key("trailing")])],
        vec![
            field(Some("a"), path_ty("Option"), vec![]),
            field(Some("b"), path_ty("Option"), vec![rlp(vec![key("default")])]),
        ],
    );
    let p = plan(&o2);
    assert!(matches!(p.fields[0].step, FieldStep::Optional { or_default: false, .. }));
    assert!(matches!(p.fields[1].step, FieldStep::Optional { or_default: true, .. }));
    assert!(matches!(&p.fields[1].member, Member::Named(n) if n == "b"));
}

#[test]
fn multiple_attrs_combined() {
    let kinds = vec![ValueKind::U64, ValueKind::U64];

    // struct Foo { pub bar: u64, #[rlp(default, skip)] pub cache: Cache }
    let foo = strukt(
        "Foo",
        vec![],
        vec![
            field(Some("bar"), path_ty("u64"), vec![]),
            field(Some("cache"), path_ty("Cache"), vec![rlp(vec![key("default"), key("skip")])]),
        ],
    );
    let p = plan(&foo);
    let buf = list(&[&42u64]);
    let (values, _) = decode_body(&p, &kinds, &buf, 0).unwrap();
    assert_eq!(decoded_u64(&values[0]), 42);
    assert!(matches!(values[1], FieldValue::Defaulted));

    // struct Bar { pub baz: u64, #[rlp(skip, default)] pub cache: Cache }
    let bar = strukt(
        "Bar",
        vec![],
        vec![
            field(Some("baz"), path_ty("u64"), vec![]),
            field(Some("cache"), path_ty("Cache"), vec![rlp(vec![key("skip"), key("default")])]),
        ],
    );
    let p = plan(&bar);
    let buf2 = list(&[&99u64]);
    let (values, _) = decode_body(&p, &kinds, &buf2, 0).unwrap();
    assert_eq!(decoded_u64(&values[0]), 99);
    assert!(matches!(values[1], FieldValue::Defaulted));
}

#[test]
fn skip_field() {
    // The encoding of WithSkip { value: 42, #[rlp(skip)] skipped: NotEncodable(123) }
    // leaves the skipped field out.
    let buf = list(&[&42u64]);
    // struct WithoutSkip { pub value: u64 }
    let without = strukt("WithoutSkip", vec![], vec![field(Some("value"), path_ty("u64"), vec![])]);
    let p = plan(&without);
    let (values, _) = decode_body(&p, &vec![ValueKind::U64], &buf, 0).unwrap();
    assert_eq!(decoded_u64(&values[0]), 42);
}

fn msg_with_compat_type() -> DeriveInputModel {
    // struct Msg { #[rlp(with = compat_type)] remote: compat_type::RemoteType }
    strukt(
        "Msg",
        vec![],
        vec![field(
            Some("remote"),
            TypeModel::Path {
                qself: false,
                leading_colon: false,
                segments: vec!["compat_type".to_string(), "RemoteType".to_string()],
            },
            vec![rlp(vec![key_path("with", "compat_type")])],
        )],
    )
}

#[test]
fn with_attr_roundtrip() {
    let p = plan(&msg_with_compat_type());
    assert!(matches!(&p.fields[0].step, FieldStep::Required { decoder: Decoder::With(path), or_default: false } if path == "compat_type"));
    let buf = list(&[&7u64]);
    let (values, end) = decode_body(&p, &vec![ValueKind::U64], &buf, 0).unwrap();
    assert_eq!(decoded_u64(&values[0]), 7);
    assert_eq!(end, buf.len());
}

#[test]
fn with_attr_decodable_only() {
    let p = plan(&msg_with_compat_type());
    let input = [0xc1, 0x07];
    let (values, _) = decode_body(&p, &vec![ValueKind::U64], &input, 0).unwrap();
    assert_eq!(decoded_u64(&values[0]), 7);
}

/// The hook of `pre_decode_with_hook`: unwraps a list nested in a list.
fn unwrap_outer<'a>(buf: &mut &'a [u8]) -> alloy_rlp::Result<()> {
    let outer_payload = alloy_rlp::Header::decode_bytes(buf, true)?;
    let mut payload_cursor = outer_payload;
    let inner_header = alloy_rlp::Header::decode(&mut payload_cursor)?;
    if !inner_header.list {
        return Err(alloy_rlp::Error::UnexpectedString);
    }
    let inner_len = inner_header.length_with_payload();
    if outer_payload.len() != inner_len {
        return Err(alloy_rlp::Error::Custom("invalid nested envelope"));
    }
    *buf = &outer_payload[..inner_len];
    Ok(())
}

/// A hook over `&mut &[u8]`, run on an owned buffer.
fn owned_hook(
    hook: impl Fn(&mut &[u8]) -> alloy_rlp::Result<()>,
) -> impl Fn(Vec<u8>) -> Result<Vec<u8>, RlpError> {
    move |v: Vec<u8>| {
        let mut b: &[u8] = &v;
        match hook(&mut b) {
            Ok(()) => Ok(b.to_vec()),
            Err(alloy_rlp::Error::Custom(m)) => Err(RlpError::Custom(m)),
            Err(_) => Err(RlpError::Custom("hook error")),
        }
    }
}

fn no_hook(v: Vec<u8>) -> Result<Vec<u8>, RlpError> {
    Ok(v)
}

#[test]
fn pre_decode_with_hook() {
    // #[rlp(pre_decode_with = unwrap_outer)] struct Msg { value: u64 }
    let ast = strukt(
        "Msg",
        vec![rlp(vec![key_path("pre_decode_with", "unwrap_outer")])],
        vec![field(Some("value"), path_ty("u64"), vec![])],
    );
    let p = plan(&ast);
    assert_eq!(p.pre_decode.as_deref(), Some("unwrap_outer"));
    let input = vec![0xc2, 0xc1, 0x07];
    let (values, _) = decode_struct(&p, &vec![ValueKind::U64], input, owned_hook(unwrap_outer), no_hook).unwrap();
    assert_eq!(decoded_u64(&values[0]), 7);
}

#[test]
fn post_decode_with_hook() {
    // #[rlp(post_decode_with = post_check)] struct Msg { value: u64 }
    let ast = strukt(
        "Msg",
        vec![rlp(vec![key_path("post_decode_with", "post_check")])],
        vec![field(Some("value"), path_ty("u64"), vec![])],
    );
    let p = plan(&ast);
    assert_eq!(p.post_decode.as_deref(), Some("post_check"));
    let calls = std::cell::Cell::new(0usize);
    let post_check = |buf: &mut &[u8]| -> alloy_rlp::Result<()> {
        if !buf.is_empty() {
            return Err(alloy_rlp::Error::Custom("post hook expected empty buffer"));
        }
        calls.set(calls.get() + 1);
        Ok(())
    };
    let input = vec![0xc1, 0x07];
    let (values, rest) = decode_struct(&p, &vec![ValueKind::U64], input, no_hook, owned_hook(&post_check)).unwrap();
    assert_eq!(decoded_u64(&values[0]), 7);
    assert!(rest.is_empty());
    assert_eq!(calls.get(), 1);
}
