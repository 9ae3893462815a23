//! The keyed form of the header: a record of named fields. The mask is
//! always in it, under the name `flags`; a parameter is in it exactly where
//! it is present. A writer puts the fields in canonical order; a reader takes
//! them in any order, and takes no name twice.

use vstd::prelude::*;
use crate::v3::field::{DecodeError, Field};
use crate::v3::flags::{count_set, reserved_bits, ComputeBudgetFlags};
use crate::v3::header::{lemma_header_determined, ComputeBudgetHeader};
use crate::v3::keyed_proofs::{
    all_got_so_far, lemma_all_got, lemma_entry_taken, lemma_first_repeat_is, lemma_got_iff_named,
    lemma_least_repeat, lemma_push_keeps, lemma_push_no_repeat, lemma_record_entries,
    lemma_repeat_in_prefix, lemma_same_value,
};
use crate::v3::params::{lemma_presence_agrees, BudgetParameters};

verus! {

/// One named field of the record, with its value.
#[derive(Debug, Clone, Copy, PartialEq, Eq)]
pub enum KeyedField {
    /// `flags`: the presence mask.
    Flags(u8),
    /// `compute_unit_limit`.
    ComputeUnitLimit(u32),
    /// `compute_unit_price`.
    ComputeUnitPrice(u64),
    /// `loaded_accounts_data_limit`.
    LoadedAccountsDataLimit(u32),
    /// `requested_heap_bytes_limit`.
    RequestedHeapBytesLimit(u32),
}

impl KeyedField {
    /// The field that the entry names.
    pub open spec fn spec_field(self) -> Field {
        match self {
            KeyedField::Flags(_) => Field::Flags,
            KeyedField::ComputeUnitLimit(_) => Field::ComputeUnitLimit,
            KeyedField::ComputeUnitPrice(_) => Field::ComputeUnitPrice,
            KeyedField::LoadedAccountsDataLimit(_) => Field::LoadedAccountsDataLimit,
            KeyedField::RequestedHeapBytesLimit(_) => Field::RequestedHeapBytesLimit,
        }
    }

    /// The field that the entry names.
    pub fn field(&self) -> (field: Field)
        ensures
            field == self.spec_field(),
    {
        match self {
            KeyedField::Flags(_) => Field::Flags,
            KeyedField::ComputeUnitLimit(_) => Field::ComputeUnitLimit,
            KeyedField::ComputeUnitPrice(_) => Field::ComputeUnitPrice,
            KeyedField::LoadedAccountsDataLimit(_) => Field::LoadedAccountsDataLimit,
            KeyedField::RequestedHeapBytesLimit(_) => Field::RequestedHeapBytesLimit,
        }
    }
}

/// Makes the entry of the mask.
pub open spec fn flags_entry() -> spec_fn(u8) -> KeyedField {
    |v: u8| KeyedField::Flags(v)
}

/// Makes the entry of the compute-unit limit.
pub open spec fn limit_entry() -> spec_fn(u32) -> KeyedField {
    |v: u32| KeyedField::ComputeUnitLimit(v)
}

/// Makes the entry of the compute-unit price.
pub open spec fn price_entry() -> spec_fn(u64) -> KeyedField {
    |v: u64| KeyedField::ComputeUnitPrice(v)
}

/// Makes the entry of the limit on loaded account data.
pub open spec fn loaded_entry() -> spec_fn(u32) -> KeyedField {
    |v: u32| KeyedField::LoadedAccountsDataLimit(v)
}

/// Makes the entry of the requested heap size.
pub open spec fn heap_entry() -> spec_fn(u32) -> KeyedField {
    |v: u32| KeyedField::RequestedHeapBytesLimit(v)
}

/// The entry of an optional parameter: one where it is present, none where
/// it is not.
pub open spec fn optional_entry<T>(value: Option<T>, entry: spec_fn(T) -> KeyedField) -> Seq<
    KeyedField,
> {
    match value {
        Some(v) => seq![entry(v)],
        None => Seq::empty(),
    }
}

/// The keyed form of the parameters: the mask, then the present parameters in
/// canonical order.
pub open spec fn keyed_record(p: BudgetParameters) -> Seq<KeyedField> {
    seq![KeyedField::Flags(p.presence())] + optional_entry(p.compute_unit_limit, limit_entry())
        + optional_entry(p.compute_unit_price, price_entry()) + optional_entry(
        p.loaded_accounts_data_limit,
        loaded_entry(),
    ) + optional_entry(p.requested_heap_bytes_limit, heap_entry())
}

/// Whether `s` names `field`.
pub open spec fn names(s: Seq<KeyedField>, field: Field) -> bool {
    exists|i: int| 0 <= i < s.len() && (#[trigger] s[i]).spec_field() == field
}

/// Whether the entry at `j` names a field that an entry before it names.
pub open spec fn repeats_at(s: Seq<KeyedField>, j: int) -> bool {
    0 <= j < s.len() && exists|i: int|
        0 <= i < j && (#[trigger] s[i]).spec_field() == s[j].spec_field()
}

/// Whether some field is named twice.
pub open spec fn has_repeat(s: Seq<KeyedField>) -> bool {
    exists|j: int| repeats_at(s, j)
}

/// Whether `j` is the first entry that names a field named before it.
pub open spec fn is_first_repeat(s: Seq<KeyedField>, j: int) -> bool {
    repeats_at(s, j) && forall|k: int| 0 <= k < j ==> !repeats_at(s, k)
}

/// The first entry that names a field named before it, where there is one.
pub open spec fn first_repeat(s: Seq<KeyedField>) -> int {
    choose|j: int| is_first_repeat(s, j)
}

/// The value that `s` gives the field whose entries `entry` makes, where it
/// names that field.
pub open spec fn value_of<T>(s: Seq<KeyedField>, entry: spec_fn(T) -> KeyedField) -> Option<T> {
    if exists|v: T| s.contains(#[trigger] entry(v)) {
        Some(choose|v: T| s.contains(#[trigger] entry(v)))
    } else {
        None
    }
}

/// The mask that the record gives, where it gives one.
pub open spec fn keyed_flags(s: Seq<KeyedField>) -> Option<u8> {
    value_of(s, flags_entry())
}

/// The parameters that the record gives: each is present exactly where the
/// record names it, whatever the order of the entries.
pub open spec fn keyed_parameters(s: Seq<KeyedField>) -> BudgetParameters {
    BudgetParameters {
        compute_unit_limit: value_of(s, limit_entry()),
        compute_unit_price: value_of(s, price_entry()),
        loaded_accounts_data_limit: value_of(s, loaded_entry()),
        requested_heap_bytes_limit: value_of(s, heap_entry()),
    }
}

/// What decoding the record gives: its parameters, or the first thing that is
/// wrong.
///
/// A field named twice is reported first, at the first entry that repeats a
/// name. Then the mask must be there, must hold no reserved bit, and must be
/// the presence mask of the parameters that the record names: a parameter
/// beside a clear bit is refused, and so is a set bit without its parameter.
pub open spec fn keyed_decode(s: Seq<KeyedField>) -> Result<BudgetParameters, DecodeError> {
    if has_repeat(s) {
        Err(DecodeError::DuplicateField(s[first_repeat(s)].spec_field()))
    } else {
        match keyed_flags(s) {
            None => Err(DecodeError::MissingField),
            Some(bits) => if reserved_bits(bits) != 0 {
                Err(DecodeError::InvalidFlags(reserved_bits(bits)))
            } else if bits != keyed_parameters(s).presence() {
                Err(DecodeError::InconsistentFlags)
            } else {
                Ok(keyed_parameters(s))
            },
        }
    }
}

/// The keyed form of `value`: the mask and the present parameters, in
/// canonical order.
pub fn serialize(value: &ComputeBudgetHeader) -> (out: Vec<KeyedField>)
    ensures
        out@ == keyed_record(value@),
        out@.len() == 1 + count_set(value@.presence()),
{
    let mut out: Vec<KeyedField> = Vec::new();
    out.push(KeyedField::Flags(value.flags().bits()));
    if let Some(limit) = value.compute_unit_limit() {
        out.push(KeyedField::ComputeUnitLimit(limit));
    }
    if let Some(price) = value.compute_unit_price() {
        out.push(KeyedField::ComputeUnitPrice(price));
    }
    if let Some(loaded) = value.loaded_accounts_data_limit() {
        out.push(KeyedField::LoadedAccountsDataLimit(loaded));
    }
    if let Some(heap) = value.requested_heap_bytes_limit() {
        out.push(KeyedField::RequestedHeapBytesLimit(heap));
    }
    proof {
        lemma_presence_agrees(value@);
        assert(out@ =~= keyed_record(value@));
    }
    out
}

/// Decoding undoes encoding: the keyed form of `p` decodes to `p`.
pub proof fn lemma_keyed_roundtrip(p: BudgetParameters)
    ensures
        keyed_decode(keyed_record(p)) == Ok::<_, DecodeError>(p),
{
    lemma_record_entries(p);
    lemma_all_got(keyed_record(p), Some(p.presence()), p);
    lemma_presence_agrees(p);
}

/// The round trip of a header: a header that decoding gives for the keyed
/// form of `header` is `header` itself, mask and values.
pub proof fn lemma_keyed_roundtrip_header(header: ComputeBudgetHeader, back: ComputeBudgetHeader)
    requires
        header.wf(),
        back.wf(),
        keyed_decode(keyed_record(header@)) is Ok,
        keyed_decode(keyed_record(header@))->Ok_0 == back@,
    ensures
        back == header,
{
    lemma_keyed_roundtrip(header@);
    lemma_header_determined(header, back);
}

/// A record that names a field twice is refused for that, whatever else it
/// holds: the error names the field of the first entry that repeats a name.
pub proof fn lemma_repeat_rejected(s: Seq<KeyedField>, i: int, j: int)
    requires
        0 <= i < j < s.len(),
        s[i].spec_field() == s[j].spec_field(),
    ensures
        is_first_repeat(s, first_repeat(s)),
        first_repeat(s) <= j,
        keyed_decode(s) == Err::<BudgetParameters, _>(
            DecodeError::DuplicateField(s[first_repeat(s)].spec_field()),
        ),
{
    assert(repeats_at(s, j));
    lemma_least_repeat(s, j);
    if j < first_repeat(s) {
        assert(!repeats_at(s, j));
    }
}

/// A record with two masks is refused as holding a field twice.
pub proof fn lemma_two_masks_rejected(s: Seq<KeyedField>, i: int, j: int)
    requires
        0 <= i < j < s.len(),
        s[i] is Flags,
        s[j] is Flags,
    ensures
        keyed_decode(s) is Err,
        keyed_decode(s)->Err_0 is DuplicateField,
{
    lemma_repeat_rejected(s, i, j);
}

/// A record without a mask, in which no field is named twice, is refused as
/// missing a field.
pub proof fn lemma_no_mask_rejected(s: Seq<KeyedField>)
    requires
        !has_repeat(s),
        forall|k: int| 0 <= k < s.len() ==> !(#[trigger] s[k] is Flags),
    ensures
        keyed_decode(s) == Err::<BudgetParameters, _>(DecodeError::MissingField),
{
    if exists|v: u8| s.contains(#[trigger] flags_entry()(v)) {
        let v = choose|v: u8| s.contains(#[trigger] flags_entry()(v));
        let k = choose|k: int| 0 <= k < s.len() && s[k] == flags_entry()(v);
        assert(s[k] is Flags);
    }
}

/// A record whose mask does not agree with what it names is refused as
/// inconsistent: so it is where a parameter stands beside a clear bit, and
/// where a bit is set and its parameter is not there.
pub proof fn lemma_disagreement_rejected(s: Seq<KeyedField>)
    requires
        !has_repeat(s),
        keyed_flags(s) is Some,
        reserved_bits(keyed_flags(s)->Some_0) == 0,
        !keyed_parameters(s).agrees_with(keyed_flags(s)->Some_0),
    ensures
        keyed_decode(s) == Err::<BudgetParameters, _>(DecodeError::InconsistentFlags),
{
    lemma_presence_agrees(keyed_parameters(s));
}

/// The order of the entries does not matter: two records that name no field
/// twice and hold the same entries decode alike.
pub proof fn lemma_keyed_order_free(s: Seq<KeyedField>, t: Seq<KeyedField>)
    requires
        !has_repeat(s),
        !has_repeat(t),
        forall|e: KeyedField| s.contains(e) <==> t.contains(e),
    ensures
        keyed_decode(s) == keyed_decode(t),
{
    lemma_same_value(s, t, flags_entry());
    lemma_same_value(s, t, limit_entry());
    lemma_same_value(s, t, price_entry());
    lemma_same_value(s, t, loaded_entry());
    lemma_same_value(s, t, heap_entry());
}

/// A reader of the keyed form that takes one entry at a time, for a caller
/// that gets the entries from elsewhere one by one. It refuses a name as soon
/// as it comes the second time, and judges the mask when the record has
/// ended.
pub struct RecordReader {
    flags: Option<u8>,
    parameters: BudgetParameters,
    taken: Ghost<Seq<KeyedField>>,
}

impl View for RecordReader {
    type V = Seq<KeyedField>;

    /// The entries taken so far, in the order in which they came.
    closed spec fn view(&self) -> Seq<KeyedField> {
        self.taken@
    }
}

impl RecordReader {
    #[verifier::type_invariant]
    closed spec fn holds_what_was_taken(&self) -> bool {
        &&& !has_repeat(self.taken@)
        &&& all_got_so_far(self.taken@, self.taken@.len() as int, self.flags, self.parameters)
    }

    /// A reader that has taken no entry.
    pub fn new() -> (reader: RecordReader)
        ensures
            reader@ == Seq::<KeyedField>::empty(),
    {
        let reader = RecordReader {
            flags: None,
            parameters: BudgetParameters {
                compute_unit_limit: None,
                compute_unit_price: None,
                loaded_accounts_data_limit: None,
                requested_heap_bytes_limit: None,
            },
            taken: Ghost(Seq::empty()),
        };
        reader
    }

    /// Whether an entry that was taken names `field`. No name was taken
    /// twice.
    pub fn holds(&self, field: Field) -> (held: bool)
        ensures
            held == names(self@, field),
            !has_repeat(self@),
    {
        proof {
            use_type_invariant(self);
            lemma_got_iff_named(self.taken@, self.flags, self.parameters, field);
        }
        match field {
            Field::Flags => self.flags.is_some(),
            Field::ComputeUnitLimit => self.parameters.compute_unit_limit.is_some(),
            Field::ComputeUnitPrice => self.parameters.compute_unit_price.is_some(),
            Field::LoadedAccountsDataLimit => self.parameters.loaded_accounts_data_limit.is_some(),
            Field::RequestedHeapBytesLimit => self.parameters.requested_heap_bytes_limit.is_some(),
        }
    }

    /// Takes `entry`, unless an entry of its name was taken before: then the
    /// reader stays as it was and says which field came twice.
    pub fn take(&mut self, entry: KeyedField) -> (r: Result<(), DecodeError>)
        ensures
            !has_repeat(old(self)@),
            !has_repeat(final(self)@),
            match r {
                Ok(()) => {
                    &&& !names(old(self)@, entry.spec_field())
                    &&& final(self)@ == old(self)@.push(entry)
                },
                Err(e) => {
                    &&& names(old(self)@, entry.spec_field())
                    &&& e == DecodeError::DuplicateField(entry.spec_field())
                    &&& final(self)@ == old(self)@
                },
            },
    {
        if self.holds(entry.field()) {
            return Err(DecodeError::DuplicateField(entry.field()));
        }
        let ghost before = self.taken@;
        let mut flags = self.flags;
        let mut parameters = self.parameters;
        match entry {
            KeyedField::Flags(v) => {
                flags = Some(v);
            },
            KeyedField::ComputeUnitLimit(v) => {
                parameters.compute_unit_limit = Some(v);
            },
            KeyedField::ComputeUnitPrice(v) => {
                parameters.compute_unit_price = Some(v);
            },
            KeyedField::LoadedAccountsDataLimit(v) => {
                parameters.loaded_accounts_data_limit = Some(v);
            },
            KeyedField::RequestedHeapBytesLimit(v) => {
                parameters.requested_heap_bytes_limit = Some(v);
            },
        }
        proof {
            use_type_invariant(&*self);
            lemma_got_iff_named(before, self.flags, self.parameters, entry.spec_field());
            lemma_push_keeps(before, entry, self.flags, self.parameters);
            lemma_push_no_repeat(before, entry);
            lemma_entry_taken(
                before.push(entry),
                before.len() as int,
                self.flags,
                self.parameters,
                flags,
                parameters,
            );
        }
        *self = RecordReader { flags, parameters, taken: Ghost(before.push(entry)) };
        Ok(())
    }

    /// Judges the record that was taken: the mask must be there, must hold
    /// no reserved bit, and must be the presence mask of the parameters that
    /// were taken.
    ///
    /// A header that comes back has the mask that the record gave, and that
    /// mask is the presence mask of its values.
    pub fn finish(&self) -> (r: Result<ComputeBudgetHeader, DecodeError>)
        ensures
            !has_repeat(self@),
            match r {
                Ok(header) => {
                    &&& keyed_decode(self@) == Ok::<_, DecodeError>(header@)
                    &&& header.wf()
                    &&& keyed_flags(self@) == Some(header.spec_flags()@)
                    &&& header@.agrees_with(header.spec_flags()@)
                },
                Err(e) => keyed_decode(self@) == Err::<BudgetParameters, _>(e),
            },
    {
        proof {
            use_type_invariant(self);
            lemma_all_got(self.taken@, self.flags, self.parameters);
        }
        let bits = match self.flags {
            Some(bits) => bits,
            None => {
                return Err(DecodeError::MissingField);
            },
        };
        let reserved = ComputeBudgetFlags::from_bits_retain(bits).reserved();
        if reserved != 0 {
            return Err(DecodeError::InvalidFlags(reserved));
        }
        match ComputeBudgetHeader::with_mask(bits, self.parameters) {
            Some(header) => {
                proof {
                    lemma_presence_agrees(self.parameters);
                }
                Ok(header)
            },
            None => Err(DecodeError::InconsistentFlags),
        }
    }
}

/// Decodes a record. The entries may come in any order.
///
/// A header that comes back has the mask that the record gave, and that mask
/// is the presence mask of its values.
pub fn deserialize(entries: &[KeyedField]) -> (r: Result<ComputeBudgetHeader, DecodeError>)
    ensures
        match r {
            Ok(header) => {
                &&& keyed_decode(entries@) == Ok::<_, DecodeError>(header@)
                &&& header.wf()
                &&& keyed_flags(entries@) == Some(header.spec_flags()@)
                &&& header@.agrees_with(header.spec_flags()@)
            },
            Err(e) => keyed_decode(entries@) == Err::<BudgetParameters, _>(e),
        },
{
    let mut reader = RecordReader::new();
    let mut i: usize = 0;
    assert(entries@.take(0) =~= reader@);
    while i < entries.len()
        invariant
            i <= entries@.len(),
            reader@ == entries@.take(i as int),
        decreases entries@.len() - i,
    {
        let ghost before = reader@;
        match reader.take(entries[i]) {
            Ok(()) => {},
            Err(e) => {
                proof {
                    lemma_repeat_in_prefix(entries@, i as int);
                    lemma_first_repeat_is(entries@, i as int);
                }
                return Err(e);
            },
        }
        assert(entries@.take(i + 1) =~= before.push(entries@[i as int]));
        i = i + 1;
    }
    assert(entries@.take(i as int) =~= entries@);
    reader.finish()
}

} // verus!
