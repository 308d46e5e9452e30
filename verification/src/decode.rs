//! Running a decoding plan on an RLP buffer, as the decoder generated from
//! the plan does: the list header, then each field in order, then a check
//! that exactly the list's payload was read.

use vstd::prelude::*;
use crate::plan::{DecodablePlan, FieldPlan, FieldStep, EMPTY_STRING_CODE};
use crate::rlp::{decode_header, decode_string, decode_u64, rlp_header, rlp_u64, RlpError};

verus! {

/// The type a field is decoded as.
#[derive(Debug)]
pub enum ValueKind {
    /// `u64`, by its `alloy_rlp::Decodable` impl.
    U64,
    /// A byte string (`Vec<u8>` as `bytes::Bytes` decodes it): the payload of
    /// an RLP string item.
    Bytes,
}

/// A decoded value.
#[derive(Debug)]
pub enum Value {
    U64(u64),
    Bytes(Vec<u8>),
}

/// The value a field takes.
#[derive(Debug)]
pub enum FieldValue {
    /// A required field's decoded value.
    Decoded(Value),
    /// An optional field that is present: `Some(value)`.
    Present(Value),
    /// An optional field that is absent: `None`.
    Absent,
    /// A default field: `Default::default()`.
    Defaulted,
}

/// A decoded value, with its bytes as a sequence.
pub enum SpecValue {
    U64(u64),
    Bytes(Seq<u8>),
}

/// The value a field takes, with its bytes as a sequence.
pub enum SpecFieldValue {
    Decoded(SpecValue),
    Present(SpecValue),
    Absent,
    Defaulted,
}

pub open spec fn value_view(v: Value) -> SpecValue {
    match v {
        Value::U64(x) => SpecValue::U64(x),
        Value::Bytes(b) => SpecValue::Bytes(b@),
    }
}

pub open spec fn field_value_view(v: FieldValue) -> SpecFieldValue {
    match v {
        FieldValue::Decoded(x) => SpecFieldValue::Decoded(value_view(x)),
        FieldValue::Present(x) => SpecFieldValue::Present(value_view(x)),
        FieldValue::Absent => SpecFieldValue::Absent,
        FieldValue::Defaulted => SpecFieldValue::Defaulted,
    }
}

pub open spec fn values_view(vs: Seq<FieldValue>) -> Seq<SpecFieldValue> {
    vs.map_values(|v: FieldValue| field_value_view(v))
}

/// A value of kind `kind` read at position `pos` of `buf`, and the position
/// after it; or the error of `alloy_rlp`.
pub open spec fn value_at(kind: ValueKind, buf: Seq<u8>, pos: nat) -> Result<(SpecValue, nat), RlpError> {
    match kind {
        ValueKind::U64 => match rlp_u64(buf.skip(pos as int)) {
            Ok((v, rest)) => Ok((SpecValue::U64(v), (buf.len() - rest) as nat)),
            Err(e) => Err(e),
        },
        ValueKind::Bytes => match rlp_header(buf.skip(pos as int)) {
            Ok((list, len, rest)) => if list {
                Err(RlpError::UnexpectedList)
            } else {
                let start = (buf.len() - rest) as nat;
                Ok((SpecValue::Bytes(buf.subrange(start as int, (start + len) as int)), start + len))
            },
            Err(e) => Err(e),
        },
    }
}

/// Whether an optional field at position `pos` has input left to read: in
/// the list's payload, which starts at `start` and is `payload` bytes long,
/// or, without a list, in the whole buffer.
pub open spec fn input_left(nolist: bool, buf: Seq<u8>, pos: nat, start: nat, payload: nat) -> bool {
    if nolist {
        pos < buf.len()
    } else {
        pos - start < payload
    }
}

/// A value read at `pos` as a field with a default: the value, or, when it
/// fails to decode, the default with nothing read.
pub open spec fn or_default_at(r: Result<(SpecFieldValue, nat), RlpError>, or_default: bool, pos: nat) -> Result<(SpecFieldValue, nat), RlpError> {
    match r {
        Err(e) => if or_default {
            Ok((SpecFieldValue::Defaulted, pos))
        } else {
            Err(e)
        },
        ok => ok,
    }
}

/// One field read at position `pos`, and the position after it.
pub open spec fn field_at(step: FieldStep, kind: ValueKind, buf: Seq<u8>, pos: nat, start: nat, payload: nat) -> Result<(SpecFieldValue, nat), RlpError> {
    match step {
        FieldStep::Default => Ok((SpecFieldValue::Defaulted, pos)),
        FieldStep::Required { decoder: _, or_default } => or_default_at(
            match value_at(kind, buf, pos) {
                Ok((v, q)) => Ok((SpecFieldValue::Decoded(v), q)),
                Err(e) => Err(e),
            },
            or_default,
            pos,
        ),
        FieldStep::Optional { decoder: _, nolist, or_default } => if !input_left(
            nolist,
            buf,
            pos,
            start,
            payload,
        ) {
            Ok((SpecFieldValue::Absent, pos))
        } else if pos < buf.len() && buf[pos as int] == EMPTY_STRING_CODE {
            Ok((SpecFieldValue::Absent, pos + 1))
        } else {
            or_default_at(
                match value_at(kind, buf, pos) {
                    Ok((v, q)) => Ok((SpecFieldValue::Present(v), q)),
                    Err(e) => Err(e),
                },
                or_default,
                pos,
            )
        },
    }
}

/// The fields read one after the other from position `start`, and the
/// position after the last one.
pub open spec fn fields_at(steps: Seq<FieldPlan>, kinds: Seq<ValueKind>, buf: Seq<u8>, start: nat, payload: nat) -> Result<(Seq<SpecFieldValue>, nat), RlpError>
    decreases steps.len(),
{
    if steps.len() == 0 {
        Ok((Seq::empty(), start))
    } else {
        match fields_at(steps.drop_last(), kinds, buf, start, payload) {
            Ok((vs, p)) => match field_at(
                steps.last().step,
                kinds[steps.len() - 1],
                buf,
                p,
                start,
                payload,
            ) {
                Ok((v, q)) => Ok((vs.push(v), q)),
                Err(f) => Err(f),
            },
            Err(f) => Err(f),
        }
    }
}

/// The decoding of a struct at position `pos` of `buf`: its field values and
/// the position after it. With a list header, the header must be a list's,
/// and the fields must take up exactly its payload.
pub open spec fn body_at(steps: Seq<FieldPlan>, nolist: bool, kinds: Seq<ValueKind>, buf: Seq<u8>, pos: nat) -> Result<(Seq<SpecFieldValue>, nat), RlpError> {
    if nolist {
        fields_at(steps, kinds, buf, pos, 0)
    } else {
        match rlp_header(buf.skip(pos as int)) {
            Err(e) => Err(e),
            Ok((list, len, rest)) => if !list {
                Err(RlpError::UnexpectedString)
            } else if rest < len {
                Err(RlpError::InputTooShort)
            } else {
                let start = (buf.len() - rest) as nat;
                match fields_at(steps, kinds, buf, start, len) {
                    Err(f) => Err(f),
                    Ok((vs, end)) => if end - start != len {
                        Err(
                            RlpError::ListLengthMismatch {
                                expected: len as usize,
                                got: (end - start) as usize,
                            },
                        )
                    } else {
                        Ok((vs, end))
                    },
                }
            },
        }
    }
}

/// The result of an executable decoding is the specified one, the values
/// taken by their view.
pub open spec fn decoded_as(r: Result<(Vec<FieldValue>, usize), RlpError>, spec: Result<(Seq<SpecFieldValue>, nat), RlpError>) -> bool {
    match spec {
        Ok((vs, end)) => r matches Ok((v, e)) && values_view(v@) == vs && e == end,
        Err(err) => r == Err::<(Vec<FieldValue>, usize), RlpError>(err),
    }
}

fn decode_value(kind: &ValueKind, buf: &[u8], pos: usize) -> (r: Result<(Value, usize), RlpError>)
    requires
        pos <= buf.len(),
    ensures
        match value_at(*kind, buf@, pos as nat) {
            Ok((v, q)) => r matches Ok((x, e)) && value_view(x) == v && e == q && pos <= q
                <= buf.len(),
            Err(e) => r == Err::<(Value, usize), RlpError>(e),
        },
{
    match kind {
        ValueKind::U64 => match decode_u64(buf, pos) {
            Ok((v, rest)) => Ok((Value::U64(v), buf.len() - rest)),
            Err(e) => Err(e),
        },
        ValueKind::Bytes => match decode_string(buf, pos) {
            Ok((payload, rest)) => Ok((Value::Bytes(payload), buf.len() - rest)),
            Err(e) => Err(e),
        },
    }
}

fn decode_field(fp: &FieldPlan, kind: &ValueKind, buf: &[u8], pos: usize, start: usize, payload: usize) -> (r: Result<(FieldValue, usize), RlpError>)
    requires
        start <= pos <= buf.len(),
    ensures
        match field_at(fp.step, *kind, buf@, pos as nat, start as nat, payload as nat) {
            Ok((v, q)) => r matches Ok((x, e)) && field_value_view(x) == v && e == q && pos <= q
                <= buf.len(),
            Err(e) => r == Err::<(FieldValue, usize), RlpError>(e),
        },
{
    match &fp.step {
        FieldStep::Default => Ok((FieldValue::Defaulted, pos)),
        FieldStep::Required { decoder: _, or_default } => match decode_value(kind, buf, pos) {
            Ok((v, q)) => Ok((FieldValue::Decoded(v), q)),
            Err(e) => if *or_default {
                Ok((FieldValue::Defaulted, pos))
            } else {
                Err(e)
            },
        },
        FieldStep::Optional { decoder: _, nolist, or_default } => {
            let left = if *nolist {
                pos < buf.len()
            } else {
                pos - start < payload
            };
            if !left {
                Ok((FieldValue::Absent, pos))
            } else if pos < buf.len() && buf[pos] == EMPTY_STRING_CODE {
                Ok((FieldValue::Absent, pos + 1))
            } else {
                match decode_value(kind, buf, pos) {
                    Ok((v, q)) => Ok((FieldValue::Present(v), q)),
                    Err(e) => if *or_default {
                        Ok((FieldValue::Defaulted, pos))
                    } else {
                        Err(e)
                    },
                }
            }
        },
    }
}

proof fn lemma_fields_at_stop(steps: Seq<FieldPlan>, kinds: Seq<ValueKind>, buf: Seq<u8>, start: nat, payload: nat, j: int)
    requires
        0 <= j <= steps.len(),
        fields_at(steps.take(j), kinds, buf, start, payload) is Err,
    ensures
        fields_at(steps, kinds, buf, start, payload) == fields_at(steps.take(j), kinds, buf, start, payload),
    decreases steps.len(),
{
    if steps.len() == j {
        assert(steps.take(j) =~= steps);
    } else {
        assert(steps.drop_last().take(j) =~= steps.take(j));
        lemma_fields_at_stop(steps.drop_last(), kinds, buf, start, payload, j);
    }
}

fn decode_fields(steps: &Vec<FieldPlan>, kinds: &Vec<ValueKind>, buf: &[u8], start: usize, payload: usize) -> (r: Result<(Vec<FieldValue>, usize), RlpError>)
    requires
        start <= buf.len(),
        kinds.len() == steps.len(),
    ensures
        match fields_at(steps@, kinds@, buf@, start as nat, payload as nat) {
            Ok((vs, end)) => r matches Ok((v, e)) && values_view(v@) == vs && e == end && start
                <= end <= buf.len(),
            Err(e) => r == Err::<(Vec<FieldValue>, usize), RlpError>(e),
        },
{
    let mut values: Vec<FieldValue> = Vec::new();
    let mut p: usize = start;
    let mut i: usize = 0;
    proof {
        assert(values_view(values@) =~= Seq::<SpecFieldValue>::empty());
        assert(steps@.take(0) =~= Seq::<FieldPlan>::empty());
    }
    while i < steps.len()
        invariant
            i <= steps.len(),
            kinds.len() == steps.len(),
            start <= p <= buf.len(),
            fields_at(steps@.take(i as int), kinds@, buf@, start as nat, payload as nat) == Ok::<
                (Seq<SpecFieldValue>, nat),
                RlpError,
            >((values_view(values@), p as nat)),
        decreases steps.len() - i,
    {
        proof {
            assert(steps@.take(i + 1).drop_last() =~= steps@.take(i as int));
            assert(steps@.take(i + 1).last() == steps@[i as int]);
        }
        match decode_field(&steps[i], &kinds[i], buf, p, start, payload) {
            Ok((v, q)) => {
                let ghost old_values = values@;
                values.push(v);
                proof {
                    assert(values_view(values@) =~= values_view(old_values).push(field_value_view(v)));
                }
                p = q;
            },
            Err(e) => {
                proof {
                    assert(fields_at(steps@.take(i + 1), kinds@, buf@, start as nat, payload as nat)
                        == Err::<(Seq<SpecFieldValue>, nat), RlpError>(e));
                    lemma_fields_at_stop(steps@, kinds@, buf@, start as nat, payload as nat, i + 1);
                }
                return Err(e);
            },
        }
        i += 1;
    }
    proof {
        assert(steps@.take(i as int) =~= steps@);
    }
    Ok((values, p))
}

/// Decodes a struct by `plan` from `buf`, starting at `pos`: what the
/// decoder generated from the plan does between the pre- and post-decode
/// hooks. Each field is read as `kinds` gives its type (the type read by its
/// `Decodable` impl, or by its `with` module). Returns the field values and
/// the position after the struct.
///
/// With a list header (`!plan.nolist`), the item at `pos` must be a list
/// (else `UnexpectedString`), and the fields must take up exactly its
/// payload (else `ListLengthMismatch`, with the payload's length and the
/// number of bytes the fields took).
pub fn decode_body(plan: &DecodablePlan, kinds: &Vec<ValueKind>, buf: &[u8], pos: usize) -> (r: Result<(Vec<FieldValue>, usize), RlpError>)
    requires
        pos <= buf.len(),
        kinds.len() == plan.fields.len(),
    ensures
        decoded_as(r, body_at(plan.fields@, plan.nolist, kinds@, buf@, pos as nat)),
        r matches Ok((_, e)) ==> pos <= e <= buf.len(),
{
    if plan.nolist {
        return decode_fields(&plan.fields, kinds, buf, pos, 0);
    }
    let (list, payload_length, started_len) = match decode_header(buf, pos) {
        Ok(h) => h,
        Err(e) => return Err(e),
    };
    if !list {
        return Err(RlpError::UnexpectedString);
    }
    if started_len < payload_length {
        return Err(RlpError::InputTooShort);
    }
    let start = buf.len() - started_len;
    let (values, end) = match decode_fields(&plan.fields, kinds, buf, start, payload_length) {
        Ok(x) => x,
        Err(e) => return Err(e),
    };
    let consumed = end - start;
    if consumed != payload_length {
        return Err(RlpError::ListLengthMismatch { expected: payload_length, got: consumed });
    }
    Ok((values, end))
}

/// The decoder generated for a single-field wrapper: the field's value read
/// where the buffer starts, with no list header around it, and the position
/// after it.
pub fn decode_wrapper_body(kind: &ValueKind, buf: &[u8], pos: usize) -> (r: Result<(Value, usize), RlpError>)
    requires
        pos <= buf.len(),
    ensures
        match value_at(*kind, buf@, pos as nat) {
            Ok((v, q)) => r matches Ok((x, e)) && value_view(x) == v && e == q && pos <= q
                <= buf.len(),
            Err(e) => r == Err::<(Value, usize), RlpError>(e),
        },
{
    decode_value(kind, buf, pos)
}

/// The bytes of `buf` from position `end` on.
fn tail_of(buf: &[u8], end: usize) -> (t: Vec<u8>)
    requires
        end <= buf.len(),
    ensures
        t@ == buf@.skip(end as int),
{
    let mut t: Vec<u8> = Vec::new();
    let mut i: usize = end;
    while i < buf.len()
        invariant
            end <= i <= buf.len(),
            t@ == buf@.subrange(end as int, i as int),
        decreases buf.len() - i,
    {
        t.push(buf[i]);
        i += 1;
    }
    t
}

/// What a struct's decoder returns once its fields are decoded with the
/// values `vs`, leaving the bytes `rest`: with a post-decode hook, what the
/// hook returns on `rest` (its error, or the buffer it leaves); without one,
/// the values and `rest`.
pub open spec fn after_fields<Post: Fn(Vec<u8>) -> Result<Vec<u8>, RlpError>>(has_post: bool, post: Post, vs: Seq<SpecFieldValue>, rest: Seq<u8>, r: Result<(Vec<FieldValue>, Vec<u8>), RlpError>) -> bool {
    if !has_post {
        r matches Ok((v, t)) && values_view(v@) == vs && t@ == rest
    } else {
        exists|arg: Vec<u8>, o: Result<Vec<u8>, RlpError>|
            #![trigger call_ensures(post, (arg,), o)]
            arg@ == rest && call_ensures(post, (arg,), o) && match o {
                Ok(t2) => r matches Ok((v, t)) && values_view(v@) == vs && t == t2,
                Err(e) => r == Err::<(Vec<FieldValue>, Vec<u8>), RlpError>(e),
            }
    }
}

/// What a struct's decoder returns from the buffer `b` its pre-decode hook
/// (if any) left: the error of the fields' decoding, or what follows it.
pub open spec fn after_pre_hook<Post: Fn(Vec<u8>) -> Result<Vec<u8>, RlpError>>(plan: DecodablePlan, kinds: Seq<ValueKind>, b: Seq<u8>, post: Post, r: Result<(Vec<FieldValue>, Vec<u8>), RlpError>) -> bool {
    match body_at(plan.fields@, plan.nolist, kinds, b, 0) {
        Err(e) => r == Err::<(Vec<FieldValue>, Vec<u8>), RlpError>(e),
        Ok((vs, end)) => after_fields(plan.post_decode is Some, post, vs, b.skip(end as int), r),
    }
}

/// Decodes a struct by `plan` from `buf` with its hooks, as the generated
/// decoder does: the pre-decode hook first, on the caller's buffer (its
/// error is returned as is, and nothing else runs); then the fields, by
/// [`decode_body`], on the buffer the hook left (their error is returned as
/// is, and the post-decode hook does not run); then the post-decode hook on
/// the bytes that follow the struct (its error is returned as is). Returns
/// the field values and the buffer left after the last step. A hook runs
/// only when the plan names one.
pub fn decode_struct<Pre, Post>(plan: &DecodablePlan, kinds: &Vec<ValueKind>, buf: Vec<u8>, pre: Pre, post: Post) -> (r: Result<(Vec<FieldValue>, Vec<u8>), RlpError>) where
    Pre: Fn(Vec<u8>) -> Result<Vec<u8>, RlpError>,
    Post: Fn(Vec<u8>) -> Result<Vec<u8>, RlpError>,

    requires
        kinds.len() == plan.fields.len(),
        forall|b: Vec<u8>| call_requires(pre, (b,)),
        forall|b: Vec<u8>| call_requires(post, (b,)),
    ensures
        plan.pre_decode is None ==> after_pre_hook(*plan, kinds@, buf@, post, r),
        plan.pre_decode is Some ==> exists|o: Result<Vec<u8>, RlpError>|
            #![trigger call_ensures(pre, (buf,), o)]
            call_ensures(pre, (buf,), o) && match o {
                Err(e) => r == Err::<(Vec<FieldValue>, Vec<u8>), RlpError>(e),
                Ok(b) => after_pre_hook(*plan, kinds@, b@, post, r),
            },
{
    let ghost buf0 = buf;
    let b = if plan.pre_decode.is_some() {
        let o = pre(buf);
        match o {
            Ok(b) => b,
            Err(e) => {
                assert(call_ensures(pre, (buf0,), o));
                return Err(e);
            },
        }
    } else {
        buf
    };
    let ghost pre_out = b;
    let (values, end) = match decode_body(plan, kinds, b.as_slice(), 0) {
        Ok(x) => x,
        Err(e) => return Err(e),
    };
    let rest = tail_of(b.as_slice(), end);
    if plan.post_decode.is_some() {
        let ghost rest0 = rest;
        let o = post(rest);
        proof {
            assert(call_ensures(post, (rest0,), o));
        }
        match o {
            Ok(t) => Ok((values, t)),
            Err(e) => Err(e),
        }
    } else {
        Ok((values, rest))
    }
}

// ---------------------------------------------------------------------------
// Laws.

/// A field value has the form its step gives: a default field is defaulted,
/// a required field decoded, an optional field present or absent.
pub open spec fn value_fits(step: FieldStep, v: SpecFieldValue) -> bool {
    match step {
        FieldStep::Default => v is Defaulted,
        FieldStep::Required { decoder: _, or_default } => v is Decoded || (or_default && v is Defaulted),
        FieldStep::Optional { decoder: _, nolist: _, or_default } => v is Present || v is Absent || (
        or_default && v is Defaulted),
    }
}

proof fn lemma_fields_at_fit(steps: Seq<FieldPlan>, kinds: Seq<ValueKind>, buf: Seq<u8>, start: nat, payload: nat)
    ensures
        fields_at(steps, kinds, buf, start, payload) matches Ok((vs, _)) ==> vs.len() == steps.len()
            && forall|i: int| 0 <= i < steps.len() ==> value_fits(steps[i].step, #[trigger] vs[i]),
    decreases steps.len(),
{
    if steps.len() > 0 {
        lemma_fields_at_fit(steps.drop_last(), kinds, buf, start, payload);
        if let Ok((vs, _)) = fields_at(steps, kinds, buf, start, payload) {
            let (ws, _) = fields_at(steps.drop_last(), kinds, buf, start, payload).unwrap();
            assert forall|i: int| 0 <= i < steps.len() implies value_fits(steps[i].step, #[trigger] vs[i]) by {
                if i < steps.len() - 1 {
                    assert(vs[i] == ws[i]);
                    assert(steps.drop_last()[i] == steps[i]);
                }
            }
        }
    }
}

/// Decoding gives one value per field, of the form the field's step gives.
pub proof fn law_one_value_per_field(steps: Seq<FieldPlan>, nolist: bool, kinds: Seq<ValueKind>, buf: Seq<u8>, pos: nat)
    ensures
        body_at(steps, nolist, kinds, buf, pos) matches Ok((vs, _)) ==> vs.len() == steps.len()
            && forall|i: int| 0 <= i < steps.len() ==> value_fits(steps[i].step, #[trigger] vs[i]),
{
    if nolist {
        lemma_fields_at_fit(steps, kinds, buf, pos, 0);
    } else if let Ok((_, len, rest)) = rlp_header(buf.skip(pos as int)) {
        lemma_fields_at_fit(steps, kinds, buf, (buf.len() - rest) as nat, len);
    }
}

/// With a list header, a successful decoding reads the header of a list and
/// exactly its payload: it ends where the payload ends.
pub proof fn law_list_read_exactly(steps: Seq<FieldPlan>, kinds: Seq<ValueKind>, buf: Seq<u8>, pos: nat)
    ensures
        body_at(steps, false, kinds, buf, pos) matches Ok((_, end)) ==> (rlp_header(
            buf.skip(pos as int),
        ) matches Ok((list, len, rest)) && list && end == (buf.len() - rest) as nat + len),
{
}

/// Every field is optional (with a list header) or default.
pub open spec fn only_omissible(steps: Seq<FieldPlan>) -> bool {
    forall|i: int|
        0 <= i < steps.len() ==> (#[trigger] steps[i]).step is Default || steps[i].step matches FieldStep::Optional { nolist: false, .. }
}

/// The values read from an empty payload: each optional field absent,
/// each default field defaulted.
pub open spec fn omitted_values(steps: Seq<FieldPlan>) -> Seq<SpecFieldValue> {
    Seq::new(
        steps.len(),
        |i: int|
            if steps[i].step is Default {
                SpecFieldValue::Defaulted
            } else {
                SpecFieldValue::Absent
            },
    )
}

proof fn lemma_fields_from_empty_payload(steps: Seq<FieldPlan>, kinds: Seq<ValueKind>, buf: Seq<u8>, start: nat)
    requires
        only_omissible(steps),
    ensures
        fields_at(steps, kinds, buf, start, 0) == Ok::<(Seq<SpecFieldValue>, nat), RlpError>(
            (omitted_values(steps), start),
        ),
    decreases steps.len(),
{
    if steps.len() > 0 {
        assert(only_omissible(steps.drop_last())) by {
            assert forall|i: int| 0 <= i < steps.drop_last().len() implies (#[trigger] steps.drop_last()[i]).step is Default
                || steps.drop_last()[i].step matches FieldStep::Optional { nolist: false, .. } by {
                assert(steps.drop_last()[i] == steps[i]);
            }
        }
        lemma_fields_from_empty_payload(steps.drop_last(), kinds, buf, start);
        assert(only_omissible(steps) ==> (steps[steps.len() - 1].step is Default
            || steps[steps.len() - 1].step matches FieldStep::Optional { nolist: false, .. }));
        assert(omitted_values(steps) =~= omitted_values(steps.drop_last()).push(
            omitted_values(steps)[steps.len() - 1],
        ));
    } else {
        assert(omitted_values(steps) =~= Seq::<SpecFieldValue>::empty());
    }
}

/// Trailing optional fields may be left out: a struct whose fields are all
/// optional or default decodes from an empty list, every optional field
/// absent and every default field defaulted, ending after the list.
pub proof fn law_empty_list_omits_all(steps: Seq<FieldPlan>, kinds: Seq<ValueKind>, buf: Seq<u8>, pos: nat)
    requires
        only_omissible(steps),
        rlp_header(buf.skip(pos as int)) matches Ok((list, len, _)) && list && len == 0,
    ensures
        body_at(steps, false, kinds, buf, pos) == Ok::<(Seq<SpecFieldValue>, nat), RlpError>(
            (omitted_values(steps), (buf.len() - rlp_header(buf.skip(pos as int)).unwrap().2) as nat),
        ),
{
    let (_, _, rest) = rlp_header(buf.skip(pos as int)).unwrap();
    lemma_fields_from_empty_payload(steps, kinds, buf, (buf.len() - rest) as nat);
}

/// A field with `#[rlp(default)]` (and no `skip`) is decoded: it takes the
/// decoded value when decoding succeeds, and falls back to its default,
/// reading nothing, only when decoding fails.
pub proof fn law_default_only_on_failure(decoder: crate::plan::Decoder, kind: ValueKind, buf: Seq<u8>, pos: nat, start: nat, payload: nat)
    ensures
        field_at(FieldStep::Required { decoder, or_default: true }, kind, buf, pos, start, payload)
            == match value_at(kind, buf, pos) {
            Ok((v, q)) => Ok::<(SpecFieldValue, nat), RlpError>((SpecFieldValue::Decoded(v), q)),
            Err(_) => Ok((SpecFieldValue::Defaulted, pos)),
        },
{
}

/// An optional field reads `None` from the empty-string byte 0x80, which it
/// consumes, whenever input is left, whatever the type it is read as; with
/// no input left it reads `None` and consumes nothing.
pub proof fn law_optional_none(decoder: crate::plan::Decoder, nolist: bool, or_default: bool, kind: ValueKind, buf: Seq<u8>, pos: nat, start: nat, payload: nat)
    ensures
        (if nolist { pos < buf.len() } else { pos - start < payload }) && pos < buf.len() && buf[pos as int] == 0x80u8
            ==> field_at(FieldStep::Optional { decoder, nolist, or_default }, kind, buf, pos, start, payload)
            == Ok::<(SpecFieldValue, nat), RlpError>((SpecFieldValue::Absent, pos + 1)),
        !(if nolist { pos < buf.len() } else { pos - start < payload })
            ==> field_at(FieldStep::Optional { decoder, nolist, or_default }, kind, buf, pos, start, payload)
            == Ok::<(SpecFieldValue, nat), RlpError>((SpecFieldValue::Absent, pos)),
{
}

/// The post-decode hook decides: a struct decoded with a post-decode hook
/// succeeds only with a buffer that the hook returned from the bytes after
/// the struct, and fails only with an error the hook returned on them. So
/// when every outcome of the hook on those bytes is an error, decoding
/// fails with one of them.
pub proof fn law_post_hook_decides<Post: Fn(Vec<u8>) -> Result<Vec<u8>, RlpError>>(post: Post, vs: Seq<SpecFieldValue>, rest: Seq<u8>, r: Result<(Vec<FieldValue>, Vec<u8>), RlpError>)
    requires
        after_fields(true, post, vs, rest, r),
    ensures
        r matches Ok((_, t)) ==> exists|arg: Vec<u8>|
            arg@ == rest && #[trigger] call_ensures(post, (arg,), Ok::<Vec<u8>, RlpError>(t)),
        r matches Err(e) ==> exists|arg: Vec<u8>|
            arg@ == rest && #[trigger] call_ensures(post, (arg,), Err::<Vec<u8>, RlpError>(e)),
        (forall|arg: Vec<u8>, o: Result<Vec<u8>, RlpError>|
            arg@ == rest && #[trigger] call_ensures(post, (arg,), o) ==> o is Err) ==> r is Err,
{
    let (arg, o) = choose|arg: Vec<u8>, o: Result<Vec<u8>, RlpError>|
        #![trigger call_ensures(post, (arg,), o)]
        arg@ == rest && call_ensures(post, (arg,), o) && match o {
            Ok(t2) => r matches Ok((v, t)) && values_view(v@) == vs && t == t2,
            Err(e) => r == Err::<(Vec<FieldValue>, Vec<u8>), RlpError>(e),
        };
    assert(call_ensures(post, (arg,), o));
}

/// What a value reads: a `u64` is what `alloy_rlp` decodes, ending where it
/// stops; bytes are the payload of a string item, ending with it, a list
/// item being refused with `UnexpectedList`; an error of the header or of
/// the integer is returned as is.
pub proof fn law_value_reads_one_item(kind: ValueKind, buf: Seq<u8>, pos: nat)
    ensures
        kind is U64 ==> match rlp_u64(buf.skip(pos as int)) {
            Ok((v, rest)) => value_at(kind, buf, pos) == Ok::<(SpecValue, nat), RlpError>(
                (SpecValue::U64(v), (buf.len() - rest) as nat),
            ),
            Err(e) => value_at(kind, buf, pos) == Err::<(SpecValue, nat), RlpError>(e),
        },
        kind is Bytes ==> match rlp_header(buf.skip(pos as int)) {
            Err(e) => value_at(kind, buf, pos) == Err::<(SpecValue, nat), RlpError>(e),
            Ok((list, len, rest)) => if list {
                value_at(kind, buf, pos) == Err::<(SpecValue, nat), RlpError>(RlpError::UnexpectedList)
            } else {
                value_at(kind, buf, pos) matches Ok((SpecValue::Bytes(p), q)) && q == (buf.len()
                    - rest) as nat + len && (len <= rest <= buf.len() ==> p.len() == len
                    && forall|j: int| 0 <= j < len ==> #[trigger] p[j] == buf[(buf.len() - rest) + j])
            },
        },
{
}

/// With a list header, the header decides first: its error is returned as
/// is, and a string item is refused with `UnexpectedString`, before any
/// field is read.
pub proof fn law_list_header_first(steps: Seq<FieldPlan>, kinds: Seq<ValueKind>, buf: Seq<u8>, pos: nat)
    ensures
        rlp_header(buf.skip(pos as int)) matches Err(e) ==> body_at(steps, false, kinds, buf, pos)
            == Err::<(Seq<SpecFieldValue>, nat), RlpError>(e),
        rlp_header(buf.skip(pos as int)) matches Ok((list, _, _)) && !list ==> body_at(
            steps,
            false,
            kinds,
            buf,
            pos,
        ) == Err::<(Seq<SpecFieldValue>, nat), RlpError>(RlpError::UnexpectedString),
{
}

/// After the pre-decode hook, the fields' error is returned as is (and the
/// post-decode hook does not decide anything); without a post-decode hook
/// the result is the values and the bytes after the struct; with one, a
/// success carries a buffer the hook returned on those bytes.
pub proof fn law_after_pre_hook<Post: Fn(Vec<u8>) -> Result<Vec<u8>, RlpError>>(plan: DecodablePlan, kinds: Seq<ValueKind>, b: Seq<u8>, post: Post, r: Result<(Vec<FieldValue>, Vec<u8>), RlpError>)
    requires
        after_pre_hook(plan, kinds, b, post, r),
    ensures
        match body_at(plan.fields@, plan.nolist, kinds, b, 0) {
            Err(e) => r == Err::<(Vec<FieldValue>, Vec<u8>), RlpError>(e),
            Ok((vs, end)) => if plan.post_decode is None {
                r matches Ok((v, t)) && values_view(v@) == vs && t@ == b.skip(end as int)
            } else {
                match r {
                    Ok((v, t)) => values_view(v@) == vs && exists|arg: Vec<u8>|
                        arg@ == b.skip(end as int) && #[trigger] call_ensures(
                            post,
                            (arg,),
                            Ok::<Vec<u8>, RlpError>(t),
                        ),
                    Err(_) => true,
                }
            },
        },
{
    if let Ok((vs, end)) = body_at(plan.fields@, plan.nolist, kinds, b, 0) {
        if plan.post_decode is Some {
            law_post_hook_decides(post, vs, b.skip(end as int), r);
            if let Ok((v, t)) = r {
                let (arg, o) = choose|arg: Vec<u8>, o: Result<Vec<u8>, RlpError>|
                    #![trigger call_ensures(post, (arg,), o)]
                    arg@ == b.skip(end as int) && call_ensures(post, (arg,), o) && match o {
                        Ok(t2) => r matches Ok((v, t)) && values_view(v@) == vs && t == t2,
                        Err(e) => r == Err::<(Vec<FieldValue>, Vec<u8>), RlpError>(e),
                    };
                assert(call_ensures(post, (arg,), o));
            }
        }
    }
}

} // verus!
