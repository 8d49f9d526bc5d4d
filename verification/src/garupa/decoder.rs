//! Small lenient protobuf wire decoder used for the profile response subset.
//!
//! Raw fields are read until the first malformed one; the schema then picks
//! the fields it names. A repeated field collects every item that decodes;
//! a singular field takes the last item that decodes. Items of a wire type
//! that does not fit the declared type are skipped.

use vstd::prelude::*;
use vstd::slice::*;
use vstd::utf8::*;
use vstd::string::*;
use crate::json::{
    JsonValue, Json, json_view, json_list_view, json_entries_view, entry_insert, object_insert,
    lemma_json_list_view_push,
};
use super::schema::{ProtoType, Field, Schema};

verus! {

/// The wire type of a raw field.
pub enum WireType {
    Varint,
    Fixed32,
    Fixed64,
    LengthDelimited,
}

/// The payload of a raw field.
pub enum RawData {
    Varint(u64),
    Bytes(Vec<u8>),
}

/// A field as it stands on the wire.
pub struct RawField {
    pub field: u32,
    pub wire_type: WireType,
    pub data: RawData,
}

/// The model of a raw field's payload.
pub enum RawPayload {
    Varint(u64),
    Bytes(Seq<u8>),
}

/// The model of a raw field.
pub struct RawItem {
    pub field: u32,
    pub wire_type: WireType,
    pub data: RawPayload,
}

impl View for RawField {
    type V = RawItem;

    open spec fn view(&self) -> RawItem {
        RawItem {
            field: self.field,
            wire_type: self.wire_type,
            data: match self.data {
                RawData::Varint(v) => RawPayload::Varint(v),
                RawData::Bytes(b) => RawPayload::Bytes(b@),
            },
        }
    }
}

/// The models of a list of raw fields.
pub open spec fn raw_items(s: Seq<RawField>) -> Seq<RawItem> {
    s.map_values(|f: RawField| f@)
}

/// The error type of `decode`.
#[derive(Debug)]
pub struct ProtoError(pub String);

// ---------------------------------------------------------------------------
// Varints
// ---------------------------------------------------------------------------

/// 128 to the power `k`.
pub open spec fn pow128(k: nat) -> nat
    decreases k,
{
    if k == 0 {
        1
    } else {
        128 * pow128((k - 1) as nat)
    }
}

/// The varint that starts at `pos`, its `k`-th byte being the one at `pos`:
/// its value and the position after it. The low seven bits of each byte
/// carry the value, least significant group first; a byte below 128 ends
/// the varint. A varint ends by its ninth byte, else it is malformed, as is
/// one that the buffer cuts off.
pub open spec fn varint_at(buf: Seq<u8>, pos: int, k: nat) -> Option<(int, int)>
    decreases buf.len() - pos,
{
    if pos < 0 || pos >= buf.len() {
        None
    } else {
        let b = buf[pos];
        if b < 128 {
            Some((b as int, pos + 1))
        } else if k >= 8 {
            None
        } else {
            match varint_at(buf, pos + 1, k + 1) {
                Some((v, e)) => Some(((b - 128) + 128 * v, e)),
                None => None,
            }
        }
    }
}

/// The varint at `offset`, with the position after it.
pub open spec fn read_varint_spec(buf: Seq<u8>, offset: int) -> Option<(int, int)> {
    varint_at(buf, offset, 0)
}

proof fn lemma_pow128_bound(k: nat)
    requires
        k <= 9,
    ensures
        1 <= pow128(k) <= pow128(9),
        pow128(8) == 0x100_0000_0000_0000,
        pow128(9) == 0x8000_0000_0000_0000,
    decreases 9 - k,
{
    reveal_with_fuel(pow128, 10);
    if k < 9 {
        lemma_pow128_bound(k + 1);
    }
}

/// A varint read from `pos` lies within the buffer and its value fits the
/// bytes that remain of the nine.
pub proof fn lemma_varint_at(buf: Seq<u8>, pos: int, k: nat)
    requires
        k <= 8,
    ensures
        varint_at(buf, pos, k) matches Some((v, e)) ==> 0 <= v < pow128((9 - k) as nat) && pos
            < e <= buf.len(),
    decreases buf.len() - pos,
{
    if 0 <= pos < buf.len() && buf[pos] >= 128 && k < 8 {
        lemma_varint_at(buf, pos + 1, k + 1);
        match varint_at(buf, pos + 1, k + 1) {
            Some((v, e)) => {
                let b = buf[pos];
                assert(pow128((9 - k) as nat) == 128 * pow128((9 - (k + 1)) as nat));
                assert((b - 128) + 128 * v < 128 * pow128((9 - (k + 1)) as nat)) by (nonlinear_arith)
                    requires
                        0 <= b - 128 < 128,
                        0 <= v < pow128((9 - (k + 1)) as nat),
                ;
            },
            None => {},
        }
    } else if 0 <= pos < buf.len() && buf[pos] < 128 {
        lemma_pow128_bound((9 - k) as nat);
        assert(pow128((9 - k) as nat) >= 128) by {
            assert(pow128((9 - k) as nat) == 128 * pow128((9 - k - 1) as nat));
            lemma_pow128_bound((9 - k - 1) as nat);
        }
    }
}

/// The result of a varint read when the digits before the current position
/// already make up `value`, the current digit weighing `mult`.
pub open spec fn shifted(r: Option<(int, int)>, value: int, mult: int) -> Option<(int, int)> {
    match r {
        Some((v, e)) => Some((value + mult * v, e)),
        None => None,
    }
}

/// Reads the varint at `offset`: its value and the position after it.
pub fn read_varint(buf: &[u8], offset: usize) -> (r: Option<(u64, usize)>)
    ensures
        match r {
            Some((v, c)) => read_varint_spec(buf@, offset as int) == Some((v as int, c as int)),
            None => read_varint_spec(buf@, offset as int) is None,
        },
{
    let mut value: u64 = 0;
    let mut mult: u64 = 1;
    let mut cursor: usize = offset;
    let mut k: usize = 0;
    proof {
        lemma_pow128_bound(0);
        assert(shifted(varint_at(buf@, offset as int, 0), 0, 1) == varint_at(
            buf@,
            offset as int,
            0,
        ));
    }
    while cursor < buf.len()
        invariant
            k <= 8,
            cursor == offset + k,
            mult == pow128(k as nat),
            value < mult,
            read_varint_spec(buf@, offset as int) == shifted(
                varint_at(buf@, cursor as int, k as nat),
                value as int,
                mult as int,
            ),
        decreases buf.len() - cursor,
    {
        let byte = buf[cursor];
        proof {
            lemma_pow128_bound(k as nat);
            lemma_pow128_bound((k + 1) as nat);
        }
        let low = (byte % 128) as u64;
        assert(value + low * mult < 128 * mult) by (nonlinear_arith)
            requires
                value < mult,
                low < 128,
        ;
        assert(128 * mult <= 0x8000_0000_0000_0000) by {
            assert(pow128((k + 1) as nat) == 128 * pow128(k as nat));
        }
        let ghost old_value = value;
        let ghost old_mult = mult;
        let ghost old_cursor = cursor;
        value = value + low * mult;
        cursor = cursor + 1;
        if byte < 128 {
            proof {
                assert(varint_at(buf@, old_cursor as int, k as nat) == Some((byte as int, cursor as int)));
                assert(old_mult * low == low * old_mult) by (nonlinear_arith);
            }
            return Some((value, cursor));
        }
        if k == 8 {
            return None;
        }
        k = k + 1;
        mult = mult * 128;
        proof {
            assert(pow128(k as nat) == 128 * pow128((k - 1) as nat));
            match varint_at(buf@, cursor as int, k as nat) {
                Some((v, e)) => {
                    assert(old_value + old_mult * ((byte - 128) + 128 * v) == value + mult * v)
                        by (nonlinear_arith)
                        requires
                            value == old_value + low * old_mult,
                            low == byte - 128,
                            mult == old_mult * 128,
                    ;
                },
                None => {},
            }
        }
    }
    None
}

// ---------------------------------------------------------------------------
// Raw fields
// ---------------------------------------------------------------------------

/// The raw fields from `offset` on, up to the first malformed one: a
/// malformed key, field number 0, an unknown wire type, or a payload that
/// the buffer cuts off ends the list. Field numbers keep the low 32 bits of
/// `key >> 3`.
pub open spec fn raw_fields_from(buf: Seq<u8>, offset: int) -> Seq<RawItem>
    decreases buf.len() - offset,
{
    if offset < 0 || offset >= buf.len() {
        Seq::empty()
    } else {
        match read_varint_spec(buf, offset) {
            None => Seq::empty(),
            Some((key, next)) => {
                proof {
                    lemma_varint_at(buf, offset, 0);
                }
                let field = ((key / 8) % 0x1_0000_0000) as u32;
                let wire = key % 8;
                if field == 0 {
                    Seq::empty()
                } else if wire == 0 {
                    match read_varint_spec(buf, next) {
                        None => Seq::empty(),
                        Some((v, n2)) => {
                            proof {
                                lemma_varint_at(buf, next, 0);
                            }
                            seq![
                                RawItem {
                                    field,
                                    wire_type: WireType::Varint,
                                    data: RawPayload::Varint(v as u64),
                                },
                            ] + raw_fields_from(buf, n2)
                        },
                    }
                } else if wire == 1 {
                    if next + 8 > buf.len() {
                        Seq::empty()
                    } else {
                        seq![
                            RawItem {
                                field,
                                wire_type: WireType::Fixed64,
                                data: RawPayload::Bytes(buf.subrange(next, next + 8)),
                            },
                        ] + raw_fields_from(buf, next + 8)
                    }
                } else if wire == 2 {
                    match read_varint_spec(buf, next) {
                        None => Seq::empty(),
                        Some((len, n2)) => {
                            proof {
                                lemma_varint_at(buf, next, 0);
                            }
                            if n2 + len > buf.len() {
                                Seq::empty()
                            } else {
                                seq![
                                    RawItem {
                                        field,
                                        wire_type: WireType::LengthDelimited,
                                        data: RawPayload::Bytes(buf.subrange(n2, n2 + len)),
                                    },
                                ] + raw_fields_from(buf, n2 + len)
                            }
                        },
                    }
                } else if wire == 5 {
                    if next + 4 > buf.len() {
                        Seq::empty()
                    } else {
                        seq![
                            RawItem {
                                field,
                                wire_type: WireType::Fixed32,
                                data: RawPayload::Bytes(buf.subrange(next, next + 4)),
                            },
                        ] + raw_fields_from(buf, next + 4)
                    }
                } else {
                    Seq::empty()
                }
            },
        }
    }
}

proof fn lemma_raw_items_push(s: Seq<RawField>, f: RawField)
    ensures
        raw_items(s.push(f)) == raw_items(s).push(f@),
{
    assert(raw_items(s.push(f)) =~= raw_items(s).push(f@));
}

/// A copy of `buf[start..end]`.
fn copy_range(buf: &[u8], start: usize, end: usize) -> (r: Vec<u8>)
    requires
        start <= end <= buf@.len(),
    ensures
        r@ == buf@.subrange(start as int, end as int),
{
    slice_to_vec(slice_subrange(buf, start, end))
}

/// Splits a buffer into its raw fields, stopping at the first malformed one.
pub fn parse_raw_fields(buf: &[u8]) -> (r: Vec<RawField>)
    ensures
        raw_items(r@) == raw_fields_from(buf@, 0),
{
    let mut fields: Vec<RawField> = Vec::new();
    let mut offset: usize = 0;
    assert(raw_items(fields@) =~= Seq::<RawItem>::empty());
    while offset < buf.len()
        invariant
            offset <= buf@.len(),
            raw_items(fields@) + raw_fields_from(buf@, offset as int) == raw_fields_from(buf@, 0),
        ensures
            raw_items(fields@) == raw_fields_from(buf@, 0),
        decreases buf.len() - offset,
    {
        let ghost here = offset as int;
        let ghost prefix = raw_items(fields@);
        let (key, next) = match read_varint(buf, offset) {
            Some(v) => v,
            None => {
                assert(prefix + Seq::<RawItem>::empty() =~= prefix);
                break ;
            },
        };
        proof {
            lemma_varint_at(buf@, here, 0);
        }
        let field = (key / 8 % 0x1_0000_0000) as u32;
        let wire = key % 8;
        if field == 0 {
            assert(prefix + Seq::<RawItem>::empty() =~= prefix);
            break ;
        }
        if wire == 0 {
            match read_varint(buf, next) {
                None => {
                    assert(prefix + Seq::<RawItem>::empty() =~= prefix);
                    break ;
                },
                Some((value, n2)) => {
                    proof {
                        lemma_varint_at(buf@, next as int, 0);
                    }
                    let f = RawField {
                        field,
                        wire_type: WireType::Varint,
                        data: RawData::Varint(value),
                    };
                    proof {
                        lemma_raw_items_push(fields@, f);
                        assert(prefix + raw_fields_from(buf@, here) =~= prefix.push(f@)
                            + raw_fields_from(buf@, n2 as int));
                    }
                    fields.push(f);
                    offset = n2;
                },
            }
        } else if wire == 1 {
            if next > buf.len() || buf.len() - next < 8 {
                assert(prefix + Seq::<RawItem>::empty() =~= prefix);
                break ;
            }
            let f = RawField {
                field,
                wire_type: WireType::Fixed64,
                data: RawData::Bytes(copy_range(buf, next, next + 8)),
            };
            proof {
                lemma_raw_items_push(fields@, f);
                assert(prefix + raw_fields_from(buf@, here) =~= prefix.push(f@) + raw_fields_from(
                    buf@,
                    next + 8,
                ));
            }
            fields.push(f);
            offset = next + 8;
        } else if wire == 2 {
            match read_varint(buf, next) {
                None => {
                    assert(prefix + Seq::<RawItem>::empty() =~= prefix);
                    break ;
                },
                Some((length, n2)) => {
                    proof {
                        lemma_varint_at(buf@, next as int, 0);
                    }
                    if length > (buf.len() - n2) as u64 {
                        assert(prefix + Seq::<RawItem>::empty() =~= prefix);
                        break ;
                    }
                    let end = n2 + length as usize;
                    let f = RawField {
                        field,
                        wire_type: WireType::LengthDelimited,
                        data: RawData::Bytes(copy_range(buf, n2, end)),
                    };
                    proof {
                        lemma_raw_items_push(fields@, f);
                        assert(prefix + raw_fields_from(buf@, here) =~= prefix.push(f@)
                            + raw_fields_from(buf@, end as int));
                    }
                    fields.push(f);
                    offset = end;
                },
            }
        } else if wire == 5 {
            if next > buf.len() || buf.len() - next < 4 {
                assert(prefix + Seq::<RawItem>::empty() =~= prefix);
                break ;
            }
            let f = RawField {
                field,
                wire_type: WireType::Fixed32,
                data: RawData::Bytes(copy_range(buf, next, next + 4)),
            };
            proof {
                lemma_raw_items_push(fields@, f);
                assert(prefix + raw_fields_from(buf@, here) =~= prefix.push(f@) + raw_fields_from(
                    buf@,
                    next + 4,
                ));
            }
            fields.push(f);
            offset = next + 4;
        } else {
            assert(prefix + Seq::<RawItem>::empty() =~= prefix);
            break ;
        }
    }
    fields
}

// ---------------------------------------------------------------------------
// Schema-driven decoding
// ---------------------------------------------------------------------------

/// The raw items with field number `tag`, in their order.
pub open spec fn items_with_tag(raw: Seq<RawItem>, tag: u32) -> Seq<RawItem>
    decreases raw.len(),
{
    if raw.len() == 0 {
        Seq::empty()
    } else {
        let rest = items_with_tag(raw.subrange(0, raw.len() - 1), tag);
        if raw.last().field == tag {
            rest.push(raw.last())
        } else {
            rest
        }
    }
}

/// What `String::from_utf8_lossy` makes of `bytes`.
pub uninterp spec fn utf8_lossy(bytes: Seq<u8>) -> Seq<char>;

/// `String::from_utf8_lossy`: the text of `bytes`, each invalid sequence
/// replaced by U+FFFD. The contract names the result; it states only that
/// valid UTF-8 is decoded unchanged, as the documentation says, and leaves
/// the replacement of invalid sequences unsaid.
#[verifier::external_body]
fn utf8_lossy_string(bytes: &[u8]) -> (r: String)
    ensures
        r@ == utf8_lossy(bytes@),
        valid_utf8(bytes@) ==> r@ == decode_utf8(bytes@),
{
    String::from_utf8_lossy(bytes).into_owned()
}

/// The text of a string field: its characters when the bytes are valid
/// UTF-8, else what lossy decoding makes of them.
pub open spec fn text_of(bytes: Seq<u8>) -> Seq<char> {
    if valid_utf8(bytes) {
        decode_utf8(bytes)
    } else {
        utf8_lossy(bytes)
    }
}

/// The value of one raw item under the declared type: varints for `Int`
/// and `Long` (as `i64`), length-delimited text for `String`, and
/// length-delimited nested messages for `Message`. Other pairings give none.
pub open spec fn item_value(item: RawItem, ty: ProtoType) -> Option<Json>
    decreases ty, 0nat,
{
    match item.data {
        RawPayload::Varint(v) => if item.wire_type is Varint && (ty is Int || ty is Long) {
            Some(Json::Int((v as i64) as int))
        } else {
            None
        },
        RawPayload::Bytes(b) => if item.wire_type is LengthDelimited {
            match ty {
                ProtoType::String => Some(Json::Str(text_of(b))),
                ProtoType::Message(sub) => Some(decode_spec(b, *sub)),
                _ => None,
            }
        } else {
            None
        },
    }
}

/// The values of the items that decode, in order.
pub open spec fn item_values(items: Seq<RawItem>, ty: ProtoType) -> Seq<Json>
    decreases ty, items.len(),
{
    if items.len() == 0 {
        Seq::empty()
    } else {
        let rest = item_values(items.subrange(0, items.len() - 1), ty);
        match item_value(items.last(), ty) {
            Some(v) => rest.push(v),
            None => rest,
        }
    }
}

/// The value of the last item that decodes.
pub open spec fn last_value(items: Seq<RawItem>, ty: ProtoType) -> Option<Json>
    decreases ty, items.len(),
{
    if items.len() == 0 {
        None
    } else {
        match item_value(items.last(), ty) {
            Some(v) => Some(v),
            None => last_value(items.subrange(0, items.len() - 1), ty),
        }
    }
}

/// The object entries that the schema fields `fields` give for `raw`,
/// each field inserted in order under its name.
pub open spec fn decode_fields(raw: Seq<RawItem>, fields: Seq<(u32, Field)>) -> Seq<
    (Seq<char>, Json),
>
    decreases fields, 0nat,
{
    if fields.len() == 0 {
        Seq::empty()
    } else {
        let prev = decode_fields(raw, fields.subrange(0, fields.len() - 1));
        let tag = fields[fields.len() - 1].0;
        let definition = fields[fields.len() - 1].1;
        let items = items_with_tag(raw, tag);
        if items.len() == 0 {
            prev
        } else if definition.repeated {
            entry_insert(prev, definition.name@, Json::Array(item_values(items, definition.ty)))
        } else {
            match last_value(items, definition.ty) {
                Some(v) => entry_insert(prev, definition.name@, v),
                None => prev,
            }
        }
    }
}

/// The object that `buf` decodes to under `schema`.
pub open spec fn decode_spec(buf: Seq<u8>, schema: Schema) -> Json
    decreases schema, 0nat,
{
    Json::Object(decode_fields(raw_fields_from(buf, 0), schema.fields@))
}

/// The positions in `raw` of the fields numbered `tag`.
fn tag_positions(raw: &Vec<RawField>, tag: u32) -> (r: Vec<usize>)
    ensures
        r@.len() == items_with_tag(raw_items(raw@), tag).len(),
        forall|k: int|
            #![trigger r@[k]]
            0 <= k < r@.len() ==> r@[k] < raw@.len() && raw@[r@[k] as int]@ == items_with_tag(
                raw_items(raw@),
                tag,
            )[k],
{
    let ghost all = raw_items(raw@);
    let mut out: Vec<usize> = Vec::new();
    let mut i: usize = 0;
    while i < raw.len()
        invariant
            0 <= i <= raw@.len(),
            all == raw_items(raw@),
            out@.len() == items_with_tag(all.subrange(0, i as int), tag).len(),
            forall|k: int|
                #![trigger out@[k]]
                0 <= k < out@.len() ==> out@[k] < raw@.len() && raw@[out@[k] as int]@
                    == items_with_tag(all.subrange(0, i as int), tag)[k],
        decreases raw.len() - i,
    {
        let ghost sub = all.subrange(0, i + 1);
        assert(sub.subrange(0, sub.len() - 1) =~= all.subrange(0, i as int));
        assert(sub.last() == all[i as int]);
        assert(all[i as int] == raw@[i as int]@);
        if raw[i].field == tag {
            out.push(i);
        }
        i = i + 1;
    }
    assert(all.subrange(0, raw@.len() as int) =~= all);
    out
}

/// The value of one raw field under the declared type.
fn decode_item(item: &RawField, ty: &ProtoType) -> (r: Option<JsonValue>)
    ensures
        match r {
            Some(v) => item_value(item@, *ty) == Some(v@),
            None => item_value(item@, *ty) is None,
        },
    decreases ty,
{
    match &item.data {
        RawData::Varint(v) => match item.wire_type {
            WireType::Varint => match ty {
                ProtoType::Int => Some(JsonValue::Int(*v as i64)),
                ProtoType::Long => Some(JsonValue::Int(*v as i64)),
                _ => None,
            },
            _ => None,
        },
        RawData::Bytes(b) => match item.wire_type {
            WireType::LengthDelimited => match ty {
                ProtoType::String => Some(JsonValue::Str(utf8_lossy_string(b.as_slice()))),
                ProtoType::Message(sub) => {
                    assert(decreases_to!(*ty => **sub));
                    match decode(b.as_slice(), sub) {
                        Ok(v) => Some(v),
                        Err(_) => None,
                    }
                },
                _ => None,
            },
            _ => None,
        },
    }
}

/// Decodes `buf` under `schema` into an object keyed by field names.
/// Decoding is lenient: it never fails.
pub fn decode(buf: &[u8], schema: &Schema) -> (r: Result<JsonValue, ProtoError>)
    ensures
        r matches Ok(v) && v@ == decode_spec(buf@, *schema),
    decreases schema,
{
    let raw = parse_raw_fields(buf);
    let ghost all = raw_items(raw@);
    let ghost fields = schema.fields@;
    let mut entries: Vec<(String, JsonValue)> = Vec::new();
    let mut i: usize = 0;
    assert(json_entries_view(entries@) =~= Seq::<(Seq<char>, Json)>::empty());
    #[verifier::loop_isolation(false)]
    while i < schema.fields.len()
        invariant
            0 <= i <= fields.len(),
            fields == schema.fields@,
            all == raw_items(raw@),
            all == raw_fields_from(buf@, 0),
            json_entries_view(entries@) == decode_fields(all, fields.subrange(0, i as int)),
        decreases schema.fields.len() - i,
    {
        let tag = schema.fields[i].0;
        let definition = &schema.fields[i].1;
        let ghost prev = decode_fields(all, fields.subrange(0, i as int));
        assert(fields.subrange(0, i + 1).subrange(0, i as int) =~= fields.subrange(0, i as int));
        assert(fields.subrange(0, i + 1)[i as int] == fields[i as int]);
        assert(decreases_to!(*schema => definition.ty));
        let positions = tag_positions(&raw, tag);
        let ghost items = items_with_tag(all, tag);
        if positions.len() == 0 {
        } else if definition.repeated {
            let mut values: Vec<JsonValue> = Vec::new();
            let mut k: usize = 0;
            assert(json_list_view(values@) =~= Seq::<Json>::empty());
            #[verifier::loop_isolation(false)]
            while k < positions.len()
                invariant
                    0 <= k <= positions@.len(),
                    json_list_view(values@) == item_values(
                        items.subrange(0, k as int),
                        definition.ty,
                    ),
                decreases positions.len() - k,
            {
                assert(items.subrange(0, k + 1).subrange(0, k as int) =~= items.subrange(
                    0,
                    k as int,
                ));
                let item = &raw[positions[k]];
                assert(item@ == items[k as int]);
                match decode_item(item, &definition.ty) {
                    Some(v) => {
                        proof {
                            lemma_json_list_view_push(values@, v);
                        }
                        values.push(v);
                    },
                    None => {},
                }
                k = k + 1;
            }
            assert(items.subrange(0, positions@.len() as int) =~= items);
            object_insert(&mut entries, definition.name.clone(), JsonValue::Array(values));
        } else {
            let mut j: usize = positions.len();
            let mut found: Option<JsonValue> = None;
            assert(items.subrange(0, items.len() as int) =~= items);
            #[verifier::loop_isolation(false)]
            while j > 0 && found.is_none()
                invariant
                    0 <= j <= positions@.len(),
                    found is None ==> last_value(items, definition.ty) == last_value(
                        items.subrange(0, j as int),
                        definition.ty,
                    ),
                    found matches Some(v) ==> last_value(items, definition.ty) == Some(v@),
                decreases j,
            {
                assert(items.subrange(0, j as int).subrange(0, j - 1) =~= items.subrange(
                    0,
                    j - 1,
                ));
                let item = &raw[positions[j - 1]];
                assert(item@ == items[j - 1]);
                found = decode_item(item, &definition.ty);
                j = j - 1;
            }
            match found {
                Some(v) => {
                    object_insert(&mut entries, definition.name.clone(), v);
                },
                None => {},
            }
        }
        i = i + 1;
    }
    assert(fields.subrange(0, fields.len() as int) =~= fields);
    Ok(JsonValue::Object(entries))
}

// ---------------------------------------------------------------------------
// Laws
// ---------------------------------------------------------------------------

/// The canonical varint encoding of `v`: seven bits per byte, least
/// significant group first, the high bit set on every byte but the last.
pub open spec fn encode_varint(v: nat) -> Seq<u8>
    decreases v,
{
    if v < 128 {
        seq![v as u8]
    } else {
        seq![((v % 128) + 128) as u8] + encode_varint(v / 128)
    }
}

proof fn lemma_varint_decodes(buf: Seq<u8>, pos: int, k: nat, v: nat)
    requires
        k <= 8,
        v < pow128((9 - k) as nat),
        0 <= pos,
        pos + encode_varint(v).len() <= buf.len(),
        buf.subrange(pos, pos + encode_varint(v).len()) == encode_varint(v),
    ensures
        varint_at(buf, pos, k) == Some((v as int, pos + encode_varint(v).len())),
    decreases v,
{
    let e = encode_varint(v);
    assert(buf[pos] == e[0]) by {
        assert(buf.subrange(pos, pos + e.len())[0] == buf[pos]);
    }
    if v >= 128 {
        let w = v / 128;
        let t = encode_varint(w);
        assert(e == seq![((v % 128) + 128) as u8] + t);
        assert(k < 8) by {
            if k == 8 {
                reveal_with_fuel(pow128, 2);
            }
        }
        assert(pow128((9 - k) as nat) == 128 * pow128((9 - (k + 1)) as nat));
        assert(w < pow128((9 - (k + 1)) as nat)) by (nonlinear_arith)
            requires
                v < 128 * pow128((9 - (k + 1)) as nat),
                w == v / 128,
        ;
        assert(buf.subrange(pos + 1, pos + 1 + t.len()) =~= t) by {
            assert forall|j: int| 0 <= j < t.len() implies buf.subrange(pos + 1, pos + 1 + t.len())[j]
                == t[j] by {
                assert(buf.subrange(pos, pos + e.len())[j + 1] == e[j + 1]);
            }
        }
        lemma_varint_decodes(buf, pos + 1, k + 1, w);
        assert((v % 128) + 128 * w == v) by (nonlinear_arith)
            requires
                w == v / 128,
        ;
    }
}

/// Reading the canonical encoding of a value below 2^63 gives the value
/// back, with the position just after the encoding, whatever follows it.
pub proof fn law_varint_roundtrip(v: u64, rest: Seq<u8>)
    requires
        v < 0x8000_0000_0000_0000,
    ensures
        read_varint_spec(encode_varint(v as nat) + rest, 0) == Some(
            (v as int, encode_varint(v as nat).len() as int),
        ),
{
    let e = encode_varint(v as nat);
    let buf = e + rest;
    lemma_pow128_bound(9);
    assert(buf.subrange(0, e.len() as int) =~= e);
    lemma_varint_decodes(buf, 0, 0, v as nat);
}

/// Reading a varint does not depend on the bytes before it.
proof fn lemma_varint_shift(p: Seq<u8>, q: Seq<u8>, pos: int, k: nat)
    requires
        0 <= pos,
    ensures
        varint_at(p + q, p.len() + pos, k) == match varint_at(q, pos, k) {
            Some((v, e)) => Some((v, e + p.len())),
            None => None,
        },
    decreases q.len() - pos,
{
    if pos < q.len() {
        assert((p + q)[p.len() + pos] == q[pos]);
        lemma_varint_shift(p, q, pos + 1, k + 1);
        assert(p.len() + pos + 1 == p.len() + (pos + 1));
    }
}

/// Parsing raw fields does not depend on the bytes before the offset.
proof fn lemma_raw_fields_shift(p: Seq<u8>, q: Seq<u8>, off: int)
    requires
        0 <= off,
    ensures
        raw_fields_from(p + q, p.len() + off) == raw_fields_from(q, off),
    decreases q.len() - off,
{
    let buf = p + q;
    let base = p.len() as int;
    if off < q.len() {
        lemma_varint_shift(p, q, off, 0);
        match read_varint_spec(q, off) {
            None => {},
            Some((key, next)) => {
                lemma_varint_at(q, off, 0);
                lemma_varint_shift(p, q, next, 0);
                let wire = key % 8;
                match read_varint_spec(q, next) {
                    Some((v, n2)) => {
                        lemma_varint_at(q, next, 0);
                        if wire == 0 || wire == 2 {
                            if wire == 0 {
                                lemma_raw_fields_shift(p, q, n2);
                                assert(base + n2 == n2 + base);
                            } else if n2 + v <= q.len() {
                                lemma_raw_fields_shift(p, q, n2 + v);
                                assert(buf.subrange(base + n2, base + n2 + v) =~= q.subrange(n2, n2 + v));
                            }
                        }
                    },
                    None => {},
                }
                if wire == 1 && next + 8 <= q.len() {
                    lemma_raw_fields_shift(p, q, next + 8);
                    assert(buf.subrange(base + next, base + next + 8) =~= q.subrange(next, next + 8));
                }
                if wire == 5 && next + 4 <= q.len() {
                    lemma_raw_fields_shift(p, q, next + 4);
                    assert(buf.subrange(base + next, base + next + 4) =~= q.subrange(next, next + 4));
                }
            },
        }
    }
}

/// The number that a key gives a wire type.
pub open spec fn wire_code(w: WireType) -> nat {
    match w {
        WireType::Varint => 0,
        WireType::Fixed64 => 1,
        WireType::LengthDelimited => 2,
        WireType::Fixed32 => 5,
    }
}

/// A raw field that an encoder can write: a field number below 2^29, and a
/// payload that fits its wire type (a varint below 2^63, eight or four
/// bytes, or a length-delimited run shorter than 2^63).
pub open spec fn encodable(item: RawItem) -> bool {
    &&& 1 <= item.field < 0x2000_0000
    &&& match (item.wire_type, item.data) {
        (WireType::Varint, RawPayload::Varint(v)) => v < 0x8000_0000_0000_0000,
        (WireType::Fixed64, RawPayload::Bytes(b)) => b.len() == 8,
        (WireType::Fixed32, RawPayload::Bytes(b)) => b.len() == 4,
        (WireType::LengthDelimited, RawPayload::Bytes(b)) => b.len() < 0x8000_0000_0000_0000,
        _ => false,
    }
}

/// The payload bytes of a raw field as an encoder writes them.
pub open spec fn encode_payload(item: RawItem) -> Seq<u8> {
    match item.data {
        RawPayload::Varint(v) => encode_varint(v as nat),
        RawPayload::Bytes(b) => if item.wire_type is LengthDelimited {
            encode_varint(b.len()) + b
        } else {
            b
        },
    }
}

/// A raw field as an encoder writes it: the key `field << 3 | wire type`,
/// then the payload.
pub open spec fn encode_item(item: RawItem) -> Seq<u8> {
    encode_varint((item.field * 8 + wire_code(item.wire_type)) as nat) + encode_payload(item)
}

/// A list of raw fields as an encoder writes it.
pub open spec fn encode_items(items: Seq<RawItem>) -> Seq<u8>
    decreases items.len(),
{
    if items.len() == 0 {
        Seq::empty()
    } else {
        encode_item(items[0]) + encode_items(items.drop_first())
    }
}

/// The first field of `encode_item(f) + rest` parses back to `f`, and
/// parsing goes on where `rest` starts.
proof fn lemma_item_roundtrip(f: RawItem, rest: Seq<u8>)
    requires
        encodable(f),
    ensures
        raw_fields_from(encode_item(f) + rest, 0) == seq![f] + raw_fields_from(rest, 0),
{
    let c = wire_code(f.wire_type);
    let key: nat = (f.field * 8 + c) as nat;
    let ek = encode_varint(key);
    let pl = encode_payload(f);
    let e = encode_item(f);
    let buf = e + rest;
    assert(key < 0x1_0000_0000);
    assert(buf =~= ek + (pl + rest));
    law_varint_roundtrip(key as u64, pl + rest);
    let kl = ek.len() as int;
    assert(read_varint_spec(buf, 0) == Some((key as int, kl)));
    assert(key as int / 8 == f.field && key as int % 8 == c) by (nonlinear_arith)
        requires
            key == f.field * 8 + c,
            0 <= c < 8,
    ;
    assert(((key as int / 8) % 0x1_0000_0000) as u32 == f.field);
    lemma_pow128_bound(9);
    lemma_raw_fields_shift(e, rest, 0);
    assert(raw_fields_from(buf, e.len() as int) == raw_fields_from(rest, 0));
    match f.data {
        RawPayload::Varint(v) => {
            assert(buf.subrange(kl, kl + pl.len()) =~= pl);
            lemma_varint_decodes(buf, kl, 0, v as nat);
        },
        RawPayload::Bytes(b) => {
            if f.wire_type is LengthDelimited {
                let el = encode_varint(b.len());
                assert(pl == el + b);
                assert(buf.subrange(kl, kl + el.len()) =~= el);
                lemma_varint_decodes(buf, kl, 0, b.len());
                assert(buf.subrange(kl + el.len(), kl + el.len() + b.len()) =~= b);
            } else {
                assert(buf.subrange(kl, kl + b.len()) =~= b);
            }
        },
    }
}

/// Encoded raw fields parse back to themselves, whatever follows them:
/// parsing `encode_items(items) + rest` gives `items`, then what `rest`
/// gives.
pub proof fn law_raw_fields_roundtrip(items: Seq<RawItem>, rest: Seq<u8>)
    requires
        forall|i: int| 0 <= i < items.len() ==> encodable(#[trigger] items[i]),
    ensures
        raw_fields_from(encode_items(items) + rest, 0) == items + raw_fields_from(rest, 0),
    decreases items.len(),
{
    if items.len() == 0 {
        assert(encode_items(items) + rest =~= rest);
        assert(items + raw_fields_from(rest, 0) =~= raw_fields_from(rest, 0));
    } else {
        let tail = items.drop_first();
        assert forall|i: int| 0 <= i < tail.len() implies encodable(#[trigger] tail[i]) by {
            assert(tail[i] == items[i + 1]);
        }
        law_raw_fields_roundtrip(tail, rest);
        let r = encode_items(tail) + rest;
        assert(encode_items(items) + rest =~= encode_item(items[0]) + r);
        assert(encodable(items[0]));
        lemma_item_roundtrip(items[0], r);
        assert(seq![items[0]] + (tail + raw_fields_from(rest, 0)) =~= items + raw_fields_from(rest, 0));
    }
}

/// Zero bytes parse to no field: a zero key names field 0.
proof fn lemma_zeros_parse_empty(k: nat)
    ensures
        raw_fields_from(Seq::new(k, |i: int| 0u8), 0) == Seq::<RawItem>::empty(),
{
    let z = Seq::new(k, |i: int| 0u8);
    if k > 0 {
        assert(read_varint_spec(z, 0) == Some((0int, 1int)));
    }
}

/// Parsing from `offset` reads whole records up to the end of `buf`, with
/// no malformed or cut-off record on the way.
pub open spec fn parses_to_end(buf: Seq<u8>, offset: int) -> bool
    decreases buf.len() - offset,
{
    if offset < 0 || offset > buf.len() {
        false
    } else if offset == buf.len() {
        true
    } else {
        match read_varint_spec(buf, offset) {
            None => false,
            Some((key, next)) => {
                proof {
                    lemma_varint_at(buf, offset, 0);
                }
                let field = ((key / 8) % 0x1_0000_0000) as u32;
                let wire = key % 8;
                if field == 0 {
                    false
                } else if wire == 0 {
                    match read_varint_spec(buf, next) {
                        None => false,
                        Some((v, n2)) => {
                            proof {
                                lemma_varint_at(buf, next, 0);
                            }
                            parses_to_end(buf, n2)
                        },
                    }
                } else if wire == 1 {
                    next + 8 <= buf.len() && parses_to_end(buf, next + 8)
                } else if wire == 2 {
                    match read_varint_spec(buf, next) {
                        None => false,
                        Some((len, n2)) => {
                            proof {
                                lemma_varint_at(buf, next, 0);
                            }
                            n2 + len <= buf.len() && parses_to_end(buf, n2 + len)
                        },
                    }
                } else if wire == 5 {
                    next + 4 <= buf.len() && parses_to_end(buf, next + 4)
                } else {
                    false
                }
            },
        }
    }
}

/// A varint that lies within `buf` reads the same with bytes appended.
proof fn lemma_varint_extend(buf: Seq<u8>, z: Seq<u8>, pos: int, k: nat)
    requires
        varint_at(buf, pos, k) is Some,
    ensures
        varint_at(buf + z, pos, k) == varint_at(buf, pos, k),
    decreases buf.len() - pos,
{
    assert((buf + z)[pos] == buf[pos]);
    if buf[pos] >= 128 && k < 8 {
        lemma_varint_extend(buf, z, pos + 1, k + 1);
    }
}

/// Records read to the end of `buf` read the same with bytes appended,
/// and parsing then goes on into the appended bytes.
proof fn lemma_fields_extend(buf: Seq<u8>, z: Seq<u8>, offset: int)
    requires
        parses_to_end(buf, offset),
    ensures
        raw_fields_from(buf + z, offset) == raw_fields_from(buf, offset) + raw_fields_from(z, 0),
    decreases buf.len() - offset,
{
    let all = buf + z;
    if offset == buf.len() {
        lemma_raw_fields_shift(buf, z, 0);
        assert(raw_fields_from(buf, offset) =~= Seq::<RawItem>::empty());
        assert(raw_fields_from(buf, offset) + raw_fields_from(z, 0) =~= raw_fields_from(z, 0));
    } else {
        lemma_varint_at(buf, offset, 0);
        lemma_varint_extend(buf, z, offset, 0);
        let (key, next) = read_varint_spec(buf, offset).unwrap();
        let wire = key % 8;
        let tail = raw_fields_from(z, 0);
        if wire == 0 || wire == 2 {
            lemma_varint_at(buf, next, 0);
            lemma_varint_extend(buf, z, next, 0);
            let (v, n2) = read_varint_spec(buf, next).unwrap();
            if wire == 0 {
                lemma_fields_extend(buf, z, n2);
                let head = raw_fields_from(buf, offset);
                assert(head == seq![head[0]] + raw_fields_from(buf, n2));
                assert(raw_fields_from(all, offset) =~= seq![head[0]] + raw_fields_from(all, n2));
                assert(seq![head[0]] + (raw_fields_from(buf, n2) + tail) =~= head + tail);
            } else {
                lemma_fields_extend(buf, z, n2 + v);
                assert(all.subrange(n2, n2 + v) =~= buf.subrange(n2, n2 + v));
                let head = raw_fields_from(buf, offset);
                assert(head == seq![head[0]] + raw_fields_from(buf, n2 + v));
                assert(raw_fields_from(all, offset) =~= seq![head[0]] + raw_fields_from(all, n2 + v));
                assert(seq![head[0]] + (raw_fields_from(buf, n2 + v) + tail) =~= head + tail);
            }
        } else if wire == 1 {
            lemma_fields_extend(buf, z, next + 8);
            assert(all.subrange(next, next + 8) =~= buf.subrange(next, next + 8));
            let head = raw_fields_from(buf, offset);
            assert(head == seq![head[0]] + raw_fields_from(buf, next + 8));
            assert(raw_fields_from(all, offset) =~= seq![head[0]] + raw_fields_from(all, next + 8));
            assert(seq![head[0]] + (raw_fields_from(buf, next + 8) + tail) =~= head + tail);
        } else {
            lemma_fields_extend(buf, z, next + 4);
            assert(all.subrange(next, next + 4) =~= buf.subrange(next, next + 4));
            let head = raw_fields_from(buf, offset);
            assert(head == seq![head[0]] + raw_fields_from(buf, next + 4));
            assert(raw_fields_from(all, offset) =~= seq![head[0]] + raw_fields_from(all, next + 4));
            assert(seq![head[0]] + (raw_fields_from(buf, next + 4) + tail) =~= head + tail);
        }
    }
}

/// Bytes appended to a buffer that parses to its end add their own fields
/// after those of the buffer.
pub proof fn law_raw_fields_append(buf: Seq<u8>, rest: Seq<u8>)
    requires
        parses_to_end(buf, 0),
    ensures
        raw_fields_from(buf + rest, 0) == raw_fields_from(buf, 0) + raw_fields_from(rest, 0),
{
    lemma_fields_extend(buf, rest, 0);
}

/// Zero bytes after a buffer that parses to its end, such as the padding up
/// to the cipher's block size, do not change what it decodes to.
pub proof fn law_zero_padding_decodes_alike(buf: Seq<u8>, k: nat, schema: Schema)
    requires
        parses_to_end(buf, 0),
    ensures
        decode_spec(buf + Seq::new(k, |i: int| 0u8), schema) == decode_spec(buf, schema),
{
    lemma_fields_extend(buf, Seq::new(k, |i: int| 0u8), 0);
    lemma_zeros_parse_empty(k);
    assert(raw_fields_from(buf, 0) + Seq::<RawItem>::empty() =~= raw_fields_from(buf, 0));
}

} // verus!
