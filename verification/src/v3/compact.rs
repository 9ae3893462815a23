//! The compact form of the header: the mask byte, then the value of each
//! present parameter in canonical order, each at its fixed width and least
//! significant byte first. An absent parameter takes no byte, and no field
//! carries a tag: the mask says what follows.

use vstd::prelude::*;
use crate::v3::field::{DecodeError, Field};
use crate::v3::flags::{
    has_bits, reserved_bits, ComputeBudgetFlags, COMPUTE_UNIT_LIMIT, COMPUTE_UNIT_PRICE,
    LOADED_ACCOUNTS_DATA_LIMIT, REQUESTED_HEAP_BYTES_LIMIT,
};
use crate::v3::header::{lemma_header_determined, ComputeBudgetHeader};
use crate::v3::le::{
    get_u32, get_u64, le_bytes, le_value, lemma_le_bytes_len, lemma_le_bytes_of_value,
    lemma_le_value_bound, lemma_le_value_of_bytes, lemma_radix_values, put_u32, put_u64,
};
use crate::v3::params::{lemma_presence_agrees, lemma_presence_unique, BudgetParameters};

verus! {

/// The bytes of an optional 32-bit value: four where it is present, none
/// where it is not.
pub open spec fn optional_u32_bytes(value: Option<u32>) -> Seq<u8> {
    match value {
        Some(v) => le_bytes(v as nat, 4),
        None => Seq::empty(),
    }
}

/// The bytes of an optional 64-bit value: eight where it is present, none
/// where it is not.
pub open spec fn optional_u64_bytes(value: Option<u64>) -> Seq<u8> {
    match value {
        Some(v) => le_bytes(v as nat, 8),
        None => Seq::empty(),
    }
}

/// The compact form of the parameters.
pub open spec fn compact_bytes(p: BudgetParameters) -> Seq<u8> {
    seq![p.presence()] + optional_u32_bytes(p.compute_unit_limit) + optional_u64_bytes(
        p.compute_unit_price,
    ) + optional_u32_bytes(p.loaded_accounts_data_limit) + optional_u32_bytes(
        p.requested_heap_bytes_limit,
    )
}

/// The bytes that `field` takes under the mask `bits`: its width where it is
/// present, none where it is not. The mask itself is always present.
pub open spec fn taken(bits: u8, field: Field) -> nat {
    if field is Flags || has_bits(bits, field.spec_mask()) {
        field.spec_width()
    } else {
        0
    }
}

/// The offset at which `field` starts under the mask `bits`: the bytes taken
/// by the fields before it.
pub open spec fn field_start(bits: u8, field: Field) -> nat {
    match field {
        Field::Flags => 0,
        Field::ComputeUnitLimit => taken(bits, Field::Flags),
        Field::ComputeUnitPrice => taken(bits, Field::Flags) + taken(bits, Field::ComputeUnitLimit),
        Field::LoadedAccountsDataLimit => taken(bits, Field::Flags) + taken(
            bits,
            Field::ComputeUnitLimit,
        ) + taken(bits, Field::ComputeUnitPrice),
        Field::RequestedHeapBytesLimit => taken(bits, Field::Flags) + taken(
            bits,
            Field::ComputeUnitLimit,
        ) + taken(bits, Field::ComputeUnitPrice) + taken(bits, Field::LoadedAccountsDataLimit),
    }
}

/// The offset just behind `field` under the mask `bits`.
pub open spec fn field_end(bits: u8, field: Field) -> nat {
    field_start(bits, field) + taken(bits, field)
}

/// The length of the compact form under the mask `bits`.
pub open spec fn compact_len(bits: u8) -> nat {
    field_end(bits, Field::RequestedHeapBytesLimit)
}

/// `field` where the mask `bits` says that it is present, else nothing.
pub open spec fn field_if_present(bits: u8, field: Field) -> Seq<Field> {
    if has_bits(bits, field.spec_mask()) {
        seq![field]
    } else {
        Seq::empty()
    }
}

/// The fields that follow the mask `bits`, in the order in which they
/// follow it.
pub open spec fn fields_behind(bits: u8) -> Seq<Field> {
    field_if_present(bits, Field::ComputeUnitLimit) + field_if_present(
        bits,
        Field::ComputeUnitPrice,
    ) + field_if_present(bits, Field::LoadedAccountsDataLimit) + field_if_present(
        bits,
        Field::RequestedHeapBytesLimit,
    )
}

/// The 32-bit value of `field` in `s`, where the mask `s[0]` says that it is
/// present.
pub open spec fn read_u32(s: Seq<u8>, field: Field) -> Option<u32> {
    if has_bits(s[0], field.spec_mask()) {
        Some(
            le_value(
                s.subrange(field_start(s[0], field) as int, field_end(s[0], field) as int),
            ) as u32,
        )
    } else {
        None
    }
}

/// The 64-bit value of `field` in `s`, where the mask `s[0]` says that it is
/// present.
pub open spec fn read_u64(s: Seq<u8>, field: Field) -> Option<u64> {
    if has_bits(s[0], field.spec_mask()) {
        Some(
            le_value(
                s.subrange(field_start(s[0], field) as int, field_end(s[0], field) as int),
            ) as u64,
        )
    } else {
        None
    }
}

/// What decoding the compact form at the start of `s` gives: the parameters
/// and the number of bytes that held them, or the first thing that is wrong.
///
/// The mask is judged before anything behind it is looked at. Then the
/// fields are taken in canonical order, and the input may end in none of
/// them. What follows the last field is not part of the header.
pub open spec fn compact_decode(s: Seq<u8>) -> Result<(BudgetParameters, nat), DecodeError> {
    if s.len() == 0 {
        Err(DecodeError::UnexpectedEnd(Field::Flags))
    } else if reserved_bits(s[0]) != 0 {
        Err(DecodeError::InvalidFlags(reserved_bits(s[0])))
    } else if s.len() < field_end(s[0], Field::ComputeUnitLimit) {
        Err(DecodeError::UnexpectedEnd(Field::ComputeUnitLimit))
    } else if s.len() < field_end(s[0], Field::ComputeUnitPrice) {
        Err(DecodeError::UnexpectedEnd(Field::ComputeUnitPrice))
    } else if s.len() < field_end(s[0], Field::LoadedAccountsDataLimit) {
        Err(DecodeError::UnexpectedEnd(Field::LoadedAccountsDataLimit))
    } else if s.len() < field_end(s[0], Field::RequestedHeapBytesLimit) {
        Err(DecodeError::UnexpectedEnd(Field::RequestedHeapBytesLimit))
    } else {
        Ok(
            (
                BudgetParameters {
                    compute_unit_limit: read_u32(s, Field::ComputeUnitLimit),
                    compute_unit_price: read_u64(s, Field::ComputeUnitPrice),
                    loaded_accounts_data_limit: read_u32(s, Field::LoadedAccountsDataLimit),
                    requested_heap_bytes_limit: read_u32(s, Field::RequestedHeapBytesLimit),
                },
                compact_len(s[0]),
            ),
        )
    }
}

/// The compact form is as long as its mask says: one byte for the mask, and
/// for each present parameter its width.
pub proof fn lemma_compact_len(p: BudgetParameters)
    ensures
        compact_bytes(p).len() == compact_len(p.presence()),
        compact_bytes(p).len() == 1 + (if p.compute_unit_limit is Some { 4nat } else { 0 }) + (
        if p.compute_unit_price is Some { 8nat } else { 0 }) + (
        if p.loaded_accounts_data_limit is Some { 4nat } else { 0 }) + (
        if p.requested_heap_bytes_limit is Some { 4nat } else { 0 }),
        compact_bytes(p)[0] == p.presence(),
{
    lemma_presence_agrees(p);
    if let Some(v) = p.compute_unit_limit {
        lemma_le_bytes_len(v as nat, 4);
    }
    if let Some(v) = p.compute_unit_price {
        lemma_le_bytes_len(v as nat, 8);
    }
    if let Some(v) = p.loaded_accounts_data_limit {
        lemma_le_bytes_len(v as nat, 4);
    }
    if let Some(v) = p.requested_heap_bytes_limit {
        lemma_le_bytes_len(v as nat, 4);
    }
}

/// The compact form takes between 1 and 21 bytes. It takes 1 byte exactly
/// where no parameter is present, and is then the single byte zero. It takes
/// 21 bytes exactly where all four are present, and then starts with the
/// byte `0b0000_1111`.
pub proof fn lemma_compact_size_bounds(p: BudgetParameters)
    ensures
        1 <= compact_bytes(p).len() <= 21,
        compact_bytes(p).len() == 1 <==> (p.compute_unit_limit is None && p.compute_unit_price
            is None && p.loaded_accounts_data_limit is None && p.requested_heap_bytes_limit
            is None),
        compact_bytes(p).len() == 1 ==> compact_bytes(p) == seq![0u8],
        compact_bytes(p).len() == 21 <==> (p.compute_unit_limit is Some && p.compute_unit_price
            is Some && p.loaded_accounts_data_limit is Some && p.requested_heap_bytes_limit
            is Some),
        compact_bytes(p).len() == 21 ==> compact_bytes(p)[0] == 0b0000_1111u8,
{
    lemma_compact_len(p);
    assert(0u8 | 0u8 | 0u8 | 0u8 == 0u8) by (bit_vector);
    assert(1u8 | 2u8 | 4u8 | 8u8 == 15u8) by (bit_vector);
    if compact_bytes(p).len() == 1 {
        assert(compact_bytes(p) =~= seq![0u8]);
    }
}

/// Decoding undoes encoding: whatever follows the compact form of `p`,
/// decoding gives `p` back and says that the form took exactly its own
/// length.
pub proof fn lemma_compact_roundtrip(p: BudgetParameters, tail: Seq<u8>)
    ensures
        compact_decode(compact_bytes(p) + tail) == Ok::<_, DecodeError>(
            (p, compact_bytes(p).len()),
        ),
{
    let bits = p.presence();
    let limit = optional_u32_bytes(p.compute_unit_limit);
    let price = optional_u64_bytes(p.compute_unit_price);
    let loaded = optional_u32_bytes(p.loaded_accounts_data_limit);
    let heap = optional_u32_bytes(p.requested_heap_bytes_limit);
    let s = compact_bytes(p) + tail;
    lemma_compact_len(p);
    lemma_presence_agrees(p);
    lemma_radix_values();
    assert(s[0] == bits);
    let a = field_start(bits, Field::ComputeUnitLimit) as int;
    let b = field_start(bits, Field::ComputeUnitPrice) as int;
    let c = field_start(bits, Field::LoadedAccountsDataLimit) as int;
    let d = field_start(bits, Field::RequestedHeapBytesLimit) as int;
    let e = compact_len(bits) as int;
    if let Some(v) = p.compute_unit_limit {
        lemma_le_bytes_len(v as nat, 4);
        lemma_le_value_of_bytes(v as nat, 4);
    }
    if let Some(v) = p.compute_unit_price {
        lemma_le_bytes_len(v as nat, 8);
        lemma_le_value_of_bytes(v as nat, 8);
    }
    if let Some(v) = p.loaded_accounts_data_limit {
        lemma_le_bytes_len(v as nat, 4);
        lemma_le_value_of_bytes(v as nat, 4);
    }
    if let Some(v) = p.requested_heap_bytes_limit {
        lemma_le_bytes_len(v as nat, 4);
        lemma_le_value_of_bytes(v as nat, 4);
    }
    assert(s.subrange(a, b) =~= limit);
    assert(s.subrange(b, c) =~= price);
    assert(s.subrange(c, d) =~= loaded);
    assert(s.subrange(d, e) =~= heap);
    let decoded = compact_decode(s)->Ok_0.0;
    assert(decoded.compute_unit_limit == p.compute_unit_limit);
    assert(decoded.compute_unit_price == p.compute_unit_price);
    assert(decoded.loaded_accounts_data_limit == p.loaded_accounts_data_limit);
    assert(decoded.requested_heap_bytes_limit == p.requested_heap_bytes_limit);
}

/// The round trip of a header: a header that decoding gives for the compact
/// form of `header`, whatever follows the form, is `header` itself, mask and
/// values.
pub proof fn lemma_compact_roundtrip_header(
    header: ComputeBudgetHeader,
    tail: Seq<u8>,
    back: ComputeBudgetHeader,
)
    requires
        header.wf(),
        back.wf(),
        compact_decode(compact_bytes(header@) + tail) is Ok,
        compact_decode(compact_bytes(header@) + tail)->Ok_0.0 == back@,
    ensures
        back == header,
{
    lemma_compact_roundtrip(header@, tail);
    lemma_header_determined(header, back);
}

/// The compact form is canonical: where decoding `s` succeeds, the bytes
/// that it took are the compact form of what it gave, and the mask read is
/// the presence mask of the values. No other bytes decode to the same
/// parameters.
pub proof fn lemma_compact_canonical(s: Seq<u8>)
    requires
        compact_decode(s) is Ok,
    ensures
        ({
            let (p, used) = compact_decode(s)->Ok_0;
            &&& used <= s.len()
            &&& s.subrange(0, used as int) == compact_bytes(p)
            &&& p.presence() == s[0]
            &&& p.agrees_with(s[0])
        }),
{
    let (p, used) = compact_decode(s)->Ok_0;
    let bits = s[0];
    lemma_presence_unique(p, bits);
    let a = field_start(bits, Field::ComputeUnitLimit) as int;
    let b = field_start(bits, Field::ComputeUnitPrice) as int;
    let c = field_start(bits, Field::LoadedAccountsDataLimit) as int;
    let d = field_start(bits, Field::RequestedHeapBytesLimit) as int;
    let e = compact_len(bits) as int;
    lemma_radix_values();
    lemma_le_value_bound(s.subrange(a, b));
    lemma_le_value_bound(s.subrange(b, c));
    lemma_le_value_bound(s.subrange(c, d));
    lemma_le_value_bound(s.subrange(d, e));
    lemma_le_bytes_of_value(s.subrange(a, b));
    lemma_le_bytes_of_value(s.subrange(b, c));
    lemma_le_bytes_of_value(s.subrange(c, d));
    lemma_le_bytes_of_value(s.subrange(d, e));
    assert(optional_u32_bytes(p.compute_unit_limit) =~= s.subrange(a, b));
    assert(optional_u64_bytes(p.compute_unit_price) =~= s.subrange(b, c));
    assert(optional_u32_bytes(p.loaded_accounts_data_limit) =~= s.subrange(c, d));
    assert(optional_u32_bytes(p.requested_heap_bytes_limit) =~= s.subrange(d, e));
    assert(s.subrange(0, used as int) =~= seq![bits] + s.subrange(a, b) + s.subrange(b, c)
        + s.subrange(c, d) + s.subrange(d, e));
}

/// A mask with a reserved bit is refused whatever follows it, and the error
/// holds the reserved bits that were set.
pub proof fn lemma_reserved_bits_rejected(s: Seq<u8>)
    requires
        s.len() > 0,
        reserved_bits(s[0]) != 0,
    ensures
        compact_decode(s) == Err::<(BudgetParameters, nat), _>(
            DecodeError::InvalidFlags(reserved_bits(s[0])),
        ),
{
}

/// The compact form of `value`, in a buffer of its own.
pub fn serialize(value: &ComputeBudgetHeader) -> (out: Vec<u8>)
    ensures
        out@ == compact_bytes(value@),
{
    let mut out: Vec<u8> = Vec::new();
    out.push(value.flags().bits());
    assert(out@ =~= seq![value@.presence()]);
    if let Some(limit) = value.compute_unit_limit() {
        put_u32(&mut out, limit);
    }
    assert(out@ =~= seq![value@.presence()] + optional_u32_bytes(value@.compute_unit_limit));
    let ghost first = out@;
    if let Some(price) = value.compute_unit_price() {
        put_u64(&mut out, price);
    }
    assert(out@ =~= first + optional_u64_bytes(value@.compute_unit_price));
    let ghost second = out@;
    if let Some(loaded) = value.loaded_accounts_data_limit() {
        put_u32(&mut out, loaded);
    }
    assert(out@ =~= second + optional_u32_bytes(value@.loaded_accounts_data_limit));
    let ghost third = out@;
    if let Some(heap) = value.requested_heap_bytes_limit() {
        put_u32(&mut out, heap);
    }
    assert(out@ =~= third + optional_u32_bytes(value@.requested_heap_bytes_limit));
    out
}

/// The fields that a reader has to take behind the mask `bits`, in order;
/// none where the mask has a reserved bit, which is then reported. This is
/// for a reader that gets the values from elsewhere one by one.
pub fn fields_behind_mask(bits: u8) -> (r: Result<Vec<Field>, DecodeError>)
    ensures
        match r {
            Ok(fields) => reserved_bits(bits) == 0 && fields@ == fields_behind(bits),
            Err(e) => reserved_bits(bits) != 0 && e == DecodeError::InvalidFlags(
                reserved_bits(bits),
            ),
        },
{
    let flags = ComputeBudgetFlags::from_bits_retain(bits);
    let reserved = flags.reserved();
    if reserved != 0 {
        return Err(DecodeError::InvalidFlags(reserved));
    }
    let mut fields: Vec<Field> = Vec::new();
    if flags.contains(COMPUTE_UNIT_LIMIT) {
        fields.push(Field::ComputeUnitLimit);
    }
    if flags.contains(COMPUTE_UNIT_PRICE) {
        fields.push(Field::ComputeUnitPrice);
    }
    if flags.contains(LOADED_ACCOUNTS_DATA_LIMIT) {
        fields.push(Field::LoadedAccountsDataLimit);
    }
    if flags.contains(REQUESTED_HEAP_BYTES_LIMIT) {
        fields.push(Field::RequestedHeapBytesLimit);
    }
    assert(fields@ =~= fields_behind(bits));
    Ok(fields)
}

/// The number of bytes that the compact form of `value` takes.
pub fn serialized_size(value: &ComputeBudgetHeader) -> (size: usize)
    ensures
        size == compact_bytes(value@).len(),
        1 <= size <= 21,
{
    proof {
        lemma_compact_len(value@);
    }
    let mut size: usize = 1;
    if value.compute_unit_limit().is_some() {
        size = size + 4;
    }
    if value.compute_unit_price().is_some() {
        size = size + 8;
    }
    if value.loaded_accounts_data_limit().is_some() {
        size = size + 4;
    }
    if value.requested_heap_bytes_limit().is_some() {
        size = size + 4;
    }
    size
}

/// Takes a 32-bit value from `bytes` at `at` where `present` holds, and says
/// where the next field starts.
fn take_u32(bytes: &[u8], present: bool, at: usize, field: Field) -> (r: Result<
    (Option<u32>, usize),
    DecodeError,
>)
    requires
        at <= bytes@.len(),
    ensures
        match r {
            Ok((value, next)) => if present {
                &&& at + 4 <= bytes@.len()
                &&& next == at + 4
                &&& value == Some(le_value(bytes@.subrange(at as int, at + 4)) as u32)
            } else {
                next == at && value is None
            },
            Err(e) => present && at + 4 > bytes@.len() && e == DecodeError::UnexpectedEnd(field),
        },
{
    if !present {
        return Ok((None, at));
    }
    if bytes.len() - at < 4 {
        return Err(DecodeError::UnexpectedEnd(field));
    }
    Ok((Some(get_u32(bytes, at)), at + 4))
}

/// Takes a 64-bit value from `bytes` at `at` where `present` holds, and says
/// where the next field starts.
fn take_u64(bytes: &[u8], present: bool, at: usize, field: Field) -> (r: Result<
    (Option<u64>, usize),
    DecodeError,
>)
    requires
        at <= bytes@.len(),
    ensures
        match r {
            Ok((value, next)) => if present {
                &&& at + 8 <= bytes@.len()
                &&& next == at + 8
                &&& value == Some(le_value(bytes@.subrange(at as int, at + 8)) as u64)
            } else {
                next == at && value is None
            },
            Err(e) => present && at + 8 > bytes@.len() && e == DecodeError::UnexpectedEnd(field),
        },
{
    if !present {
        return Ok((None, at));
    }
    if bytes.len() - at < 8 {
        return Err(DecodeError::UnexpectedEnd(field));
    }
    Ok((Some(get_u64(bytes, at)), at + 8))
}

/// Decodes the header that stands at the start of `bytes`, and says how many
/// bytes held it. Bytes behind the header are left alone: in an envelope the
/// header is followed by the other fields.
///
/// A header that comes back has the mask that was read, and that mask is the
/// presence mask of its values.
pub fn deserialize(bytes: &[u8]) -> (r: Result<(ComputeBudgetHeader, usize), DecodeError>)
    ensures
        match r {
            Ok((header, used)) => {
                &&& compact_decode(bytes@) == Ok::<_, DecodeError>((header@, used as nat))
                &&& header.wf()
                &&& header.spec_flags()@ == bytes@[0]
                &&& header@.agrees_with(bytes@[0])
            },
            Err(e) => compact_decode(bytes@) == Err::<(BudgetParameters, nat), _>(e),
        },
{
    if bytes.len() == 0 {
        return Err(DecodeError::UnexpectedEnd(Field::Flags));
    }
    let flags = ComputeBudgetFlags::from_bits_retain(bytes[0]);
    let reserved = flags.reserved();
    if reserved != 0 {
        return Err(DecodeError::InvalidFlags(reserved));
    }
    let (compute_unit_limit, at) = match take_u32(
        bytes,
        flags.contains(COMPUTE_UNIT_LIMIT),
        1,
        Field::ComputeUnitLimit,
    ) {
        Ok(taken) => taken,
        Err(e) => {
            return Err(e);
        },
    };
    let (compute_unit_price, at) = match take_u64(
        bytes,
        flags.contains(COMPUTE_UNIT_PRICE),
        at,
        Field::ComputeUnitPrice,
    ) {
        Ok(taken) => taken,
        Err(e) => {
            return Err(e);
        },
    };
    let (loaded_accounts_data_limit, at) = match take_u32(
        bytes,
        flags.contains(LOADED_ACCOUNTS_DATA_LIMIT),
        at,
        Field::LoadedAccountsDataLimit,
    ) {
        Ok(taken) => taken,
        Err(e) => {
            return Err(e);
        },
    };
    let (requested_heap_bytes_limit, at) = match take_u32(
        bytes,
        flags.contains(REQUESTED_HEAP_BYTES_LIMIT),
        at,
        Field::RequestedHeapBytesLimit,
    ) {
        Ok(taken) => taken,
        Err(e) => {
            return Err(e);
        },
    };
    let parameters = BudgetParameters {
        compute_unit_limit,
        compute_unit_price,
        loaded_accounts_data_limit,
        requested_heap_bytes_limit,
    };
    // The mask is derived anew from the values and held against the byte
    // that was read. They always agree, as the contract says: each value was
    // taken exactly where its bit is set.
    proof {
        lemma_presence_unique(parameters, flags@);
    }
    match ComputeBudgetHeader::with_mask(flags.bits(), parameters) {
        Some(header) => Ok((header, at)),
        None => Err(DecodeError::CorruptEncoding),
    }
}

} // verus!
