//! The named fields of the header record, and what a decoder reports.

use vstd::prelude::*;
use crate::v3::flags::{
    COMPUTE_UNIT_LIMIT, COMPUTE_UNIT_PRICE, LOADED_ACCOUNTS_DATA_LIMIT,
    REQUESTED_HEAP_BYTES_LIMIT,
};

verus! {

/// A field of the header record, in canonical order.
#[derive(Debug, Clone, Copy, PartialEq, Eq, Hash)]
pub enum Field {
    /// The presence mask; every record has it.
    Flags,
    /// The compute-unit limit.
    ComputeUnitLimit,
    /// The compute-unit price.
    ComputeUnitPrice,
    /// The limit on loaded account data.
    LoadedAccountsDataLimit,
    /// The requested heap size.
    RequestedHeapBytesLimit,
}

impl Field {
    /// The place of the field in the canonical order, from zero.
    pub open spec fn spec_index(self) -> nat {
        match self {
            Field::Flags => 0,
            Field::ComputeUnitLimit => 1,
            Field::ComputeUnitPrice => 2,
            Field::LoadedAccountsDataLimit => 3,
            Field::RequestedHeapBytesLimit => 4,
        }
    }

    /// The bytes that the field's value takes in the compact form.
    pub open spec fn spec_width(self) -> nat {
        match self {
            Field::Flags => 1,
            Field::ComputeUnitLimit => 4,
            Field::ComputeUnitPrice => 8,
            Field::LoadedAccountsDataLimit => 4,
            Field::RequestedHeapBytesLimit => 4,
        }
    }

    /// The bit that says whether the field is present; none for the mask
    /// itself, which always is.
    pub open spec fn spec_mask(self) -> u8 {
        match self {
            Field::Flags => 0,
            Field::ComputeUnitLimit => COMPUTE_UNIT_LIMIT,
            Field::ComputeUnitPrice => COMPUTE_UNIT_PRICE,
            Field::LoadedAccountsDataLimit => LOADED_ACCOUNTS_DATA_LIMIT,
            Field::RequestedHeapBytesLimit => REQUESTED_HEAP_BYTES_LIMIT,
        }
    }

    /// The name of the field in the keyed form.
    pub open spec fn spec_name(self) -> Seq<char> {
        match self {
            Field::Flags => "flags"@,
            Field::ComputeUnitLimit => "compute_unit_limit"@,
            Field::ComputeUnitPrice => "compute_unit_price"@,
            Field::LoadedAccountsDataLimit => "loaded_accounts_data_limit"@,
            Field::RequestedHeapBytesLimit => "requested_heap_bytes_limit"@,
        }
    }

    /// The place of the field in the canonical order, from zero.
    pub fn index(&self) -> (index: usize)
        ensures
            index == self.spec_index(),
    {
        match self {
            Field::Flags => 0,
            Field::ComputeUnitLimit => 1,
            Field::ComputeUnitPrice => 2,
            Field::LoadedAccountsDataLimit => 3,
            Field::RequestedHeapBytesLimit => 4,
        }
    }

    /// The bytes that the field's value takes in the compact form.
    pub fn width(&self) -> (width: usize)
        ensures
            width == self.spec_width(),
    {
        match self {
            Field::Flags => 1,
            Field::ComputeUnitLimit => 4,
            Field::ComputeUnitPrice => 8,
            Field::LoadedAccountsDataLimit => 4,
            Field::RequestedHeapBytesLimit => 4,
        }
    }

    /// The bit that says whether the field is present; none for the mask
    /// itself, which always is.
    pub fn mask(&self) -> (mask: u8)
        ensures
            mask == self.spec_mask(),
    {
        match self {
            Field::Flags => 0,
            Field::ComputeUnitLimit => COMPUTE_UNIT_LIMIT,
            Field::ComputeUnitPrice => COMPUTE_UNIT_PRICE,
            Field::LoadedAccountsDataLimit => LOADED_ACCOUNTS_DATA_LIMIT,
            Field::RequestedHeapBytesLimit => REQUESTED_HEAP_BYTES_LIMIT,
        }
    }

    /// The name of the field in the keyed form.
    pub fn name(&self) -> (name: &'static str)
        ensures
            name@ == self.spec_name(),
    {
        match self {
            Field::Flags => "flags",
            Field::ComputeUnitLimit => "compute_unit_limit",
            Field::ComputeUnitPrice => "compute_unit_price",
            Field::LoadedAccountsDataLimit => "loaded_accounts_data_limit",
            Field::RequestedHeapBytesLimit => "requested_heap_bytes_limit",
        }
    }
}

impl Field {
    /// The field that goes by `name` in the keyed form, where there is one.
    pub fn from_name(name: &str) -> (field: Option<Field>)
        ensures
            field matches Some(f) ==> name@ == f.spec_name(),
            field is None ==> forall|f: Field| name@ != f.spec_name(),
    {
        let name = name.to_owned();
        if name == Field::Flags.name().to_owned() {
            Some(Field::Flags)
        } else if name == Field::ComputeUnitLimit.name().to_owned() {
            Some(Field::ComputeUnitLimit)
        } else if name == Field::ComputeUnitPrice.name().to_owned() {
            Some(Field::ComputeUnitPrice)
        } else if name == Field::LoadedAccountsDataLimit.name().to_owned() {
            Some(Field::LoadedAccountsDataLimit)
        } else if name == Field::RequestedHeapBytesLimit.name().to_owned() {
            Some(Field::RequestedHeapBytesLimit)
        } else {
            assert forall|f: Field| name@ != f.spec_name() by {
                match f {
                    Field::Flags => {},
                    Field::ComputeUnitLimit => {},
                    Field::ComputeUnitPrice => {},
                    Field::LoadedAccountsDataLimit => {},
                    Field::RequestedHeapBytesLimit => {},
                }
            }
            None
        }
    }
}

/// No two fields go by one name, so that a name stands for one field at
/// most.
pub proof fn lemma_names_differ(a: Field, b: Field)
    requires
        a.spec_name() == b.spec_name(),
    ensures
        a == b,
{
    reveal_strlit("flags");
    reveal_strlit("compute_unit_limit");
    reveal_strlit("compute_unit_price");
    reveal_strlit("loaded_accounts_data_limit");
    reveal_strlit("requested_heap_bytes_limit");
    if a != b {
        assert("flags"@.len() == 5);
        assert("compute_unit_limit"@.len() == 18);
        assert("compute_unit_price"@.len() == 18);
        assert("loaded_accounts_data_limit"@.len() == 26);
        assert("requested_heap_bytes_limit"@.len() == 26);
        assert("compute_unit_limit"@[13] != "compute_unit_price"@[13]);
        assert("loaded_accounts_data_limit"@[0] != "requested_heap_bytes_limit"@[0]);
    }
}

/// Why a header could not be decoded.
#[derive(Debug, Clone, Copy, PartialEq, Eq)]
pub enum DecodeError {
    /// The mask has reserved bits set; they are held here.
    InvalidFlags(u8),
    /// The compact form gave values whose presence mask is not the mask that
    /// was read. The decoder of this crate takes a value exactly where its
    /// bit is set, and is proved never to report this.
    CorruptEncoding,
    /// The keyed form holds no mask.
    MissingField,
    /// The keyed form holds this field twice.
    DuplicateField(Field),
    /// The keyed form holds a mask that is not the presence mask of the
    /// values beside it.
    InconsistentFlags,
    /// The input ended inside this field, or before it where the mask says
    /// that it is present.
    UnexpectedEnd(Field),
}

} // verus!
