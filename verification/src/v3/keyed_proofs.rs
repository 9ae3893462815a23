//! Why the reader of the keyed form gives what the record says: what it has
//! got after some entries is what those entries name, and it names no field
//! twice.

use vstd::prelude::*;
use crate::v3::field::Field;
use crate::v3::keyed::{
    flags_entry, has_repeat, heap_entry, is_first_repeat, first_repeat, keyed_flags,
    keyed_parameters, keyed_record, limit_entry, loaded_entry, names, optional_entry,
    price_entry, repeats_at, value_of, KeyedField,
};
use crate::v3::params::BudgetParameters;

verus! {

/// Whether `entry` stands among the first `n` entries of `s`.
pub(crate) open spec fn within(s: Seq<KeyedField>, n: int, entry: KeyedField) -> bool {
    exists|k: int| 0 <= k < n && k < s.len() && #[trigger] s[k] == entry
}

/// What the first `n` entries give the field whose entries `entry` makes is
/// `got`.
pub(crate) open spec fn got_so_far<T>(
    s: Seq<KeyedField>,
    n: int,
    entry: spec_fn(T) -> KeyedField,
    got: Option<T>,
) -> bool {
    forall|v: T| got == Some(v) <==> within(s, n, #[trigger] entry(v))
}

/// One more entry adds itself to what stands among the first entries, and
/// nothing else.
pub(crate) proof fn lemma_within_step(s: Seq<KeyedField>, n: int, entry: KeyedField)
    requires
        0 <= n < s.len(),
    ensures
        within(s, n + 1, entry) <==> within(s, n, entry) || s[n] == entry,
{
    if within(s, n + 1, entry) {
        let k = choose|k: int| 0 <= k < n + 1 && k < s.len() && #[trigger] s[k] == entry;
        if k < n {
            assert(within(s, n, entry));
        }
    }
    if within(s, n, entry) {
        let k = choose|k: int| 0 <= k < n && k < s.len() && #[trigger] s[k] == entry;
        assert(0 <= k < n + 1 && s[k] == entry);
    }
    if s[n] == entry {
        assert(0 <= n < n + 1 && s[n] == entry);
    }
}

/// What was got from all of the entries is what the record gives.
pub(crate) proof fn lemma_got_all<T>(
    s: Seq<KeyedField>,
    entry: spec_fn(T) -> KeyedField,
    got: Option<T>,
)
    requires
        got_so_far(s, s.len() as int, entry, got),
    ensures
        value_of(s, entry) == got,
{
    assert forall|v: T| s.contains(#[trigger] entry(v)) <==> within(
        s,
        s.len() as int,
        entry(v),
    ) by {
        if s.contains(entry(v)) {
            let k = choose|k: int| 0 <= k < s.len() && s[k] == entry(v);
            assert(0 <= k < s.len() && s[k] == entry(v));
        }
        if within(s, s.len() as int, entry(v)) {
            let k = choose|k: int| 0 <= k < s.len() && k < s.len() && #[trigger] s[k] == entry(v);
            assert(s[k] == entry(v));
        }
    }
    match got {
        Some(v) => {
            assert(s.contains(entry(v)));
        },
        None => {},
    }
}

/// An entry of another field leaves what was got of this one as it was.
pub(crate) proof fn lemma_got_keeps<T>(
    s: Seq<KeyedField>,
    n: int,
    entry: spec_fn(T) -> KeyedField,
    got: Option<T>,
)
    requires
        0 <= n < s.len(),
        got_so_far(s, n, entry, got),
        forall|v: T| s[n] != #[trigger] entry(v),
    ensures
        got_so_far(s, n + 1, entry, got),
{
    assert forall|v: T| got == Some(v) <==> within(s, n + 1, #[trigger] entry(v)) by {
        lemma_within_step(s, n, entry(v));
    }
}

/// The first entry of a field gives the field its value.
pub(crate) proof fn lemma_got_takes<T>(
    s: Seq<KeyedField>,
    n: int,
    entry: spec_fn(T) -> KeyedField,
    value: T,
)
    requires
        0 <= n < s.len(),
        got_so_far(s, n, entry, None::<T>),
        s[n] == entry(value),
        forall|v: T| #[trigger] entry(v) == entry(value) ==> v == value,
    ensures
        got_so_far(s, n + 1, entry, Some(value)),
{
    assert forall|v: T| Some(value) == Some(v) <==> within(s, n + 1, #[trigger] entry(v)) by {
        lemma_within_step(s, n, entry(v));
    }
}

/// Where the entry at `j` repeats a name and none before it does, it is the
/// first repeat.
pub(crate) proof fn lemma_first_repeat_is(s: Seq<KeyedField>, j: int)
    requires
        is_first_repeat(s, j),
    ensures
        has_repeat(s),
        first_repeat(s) == j,
{
    let c = first_repeat(s);
    assert(is_first_repeat(s, c));
    if c < j {
        assert(!repeats_at(s, c));
    }
    if j < c {
        assert(!repeats_at(s, j));
    }
}

/// What the first `n` entries give each of the five fields.
pub(crate) open spec fn all_got_so_far(
    s: Seq<KeyedField>,
    n: int,
    flags: Option<u8>,
    p: BudgetParameters,
) -> bool {
    &&& got_so_far(s, n, flags_entry(), flags)
    &&& got_so_far(s, n, limit_entry(), p.compute_unit_limit)
    &&& got_so_far(s, n, price_entry(), p.compute_unit_price)
    &&& got_so_far(s, n, loaded_entry(), p.loaded_accounts_data_limit)
    &&& got_so_far(s, n, heap_entry(), p.requested_heap_bytes_limit)
}

/// Whether the first entries gave `field` a value.
pub(crate) open spec fn got_field(flags: Option<u8>, p: BudgetParameters, field: Field) -> bool {
    match field {
        Field::Flags => flags is Some,
        Field::ComputeUnitLimit => p.compute_unit_limit is Some,
        Field::ComputeUnitPrice => p.compute_unit_price is Some,
        Field::LoadedAccountsDataLimit => p.loaded_accounts_data_limit is Some,
        Field::RequestedHeapBytesLimit => p.requested_heap_bytes_limit is Some,
    }
}

/// The entry at `n` names a field that had no value: it gives the field its
/// value and leaves the other fields as they were.
pub(crate) proof fn lemma_entry_taken(
    s: Seq<KeyedField>,
    n: int,
    flags: Option<u8>,
    p: BudgetParameters,
    flags_after: Option<u8>,
    p_after: BudgetParameters,
)
    requires
        0 <= n < s.len(),
        all_got_so_far(s, n, flags, p),
        !got_field(flags, p, s[n].spec_field()),
        match s[n] {
            KeyedField::Flags(v) => flags_after == Some(v) && p_after == p,
            KeyedField::ComputeUnitLimit(v) => flags_after == flags && p_after == (
            BudgetParameters { compute_unit_limit: Some(v), ..p }),
            KeyedField::ComputeUnitPrice(v) => flags_after == flags && p_after == (
            BudgetParameters { compute_unit_price: Some(v), ..p }),
            KeyedField::LoadedAccountsDataLimit(v) => flags_after == flags && p_after == (
            BudgetParameters { loaded_accounts_data_limit: Some(v), ..p }),
            KeyedField::RequestedHeapBytesLimit(v) => flags_after == flags && p_after == (
            BudgetParameters { requested_heap_bytes_limit: Some(v), ..p }),
        },
    ensures
        all_got_so_far(s, n + 1, flags_after, p_after),
{
    match s[n] {
        KeyedField::Flags(v) => {
            lemma_got_takes(s, n, flags_entry(), v);
            lemma_got_keeps(s, n, limit_entry(), p.compute_unit_limit);
            lemma_got_keeps(s, n, price_entry(), p.compute_unit_price);
            lemma_got_keeps(s, n, loaded_entry(), p.loaded_accounts_data_limit);
            lemma_got_keeps(s, n, heap_entry(), p.requested_heap_bytes_limit);
        },
        KeyedField::ComputeUnitLimit(v) => {
            lemma_got_keeps(s, n, flags_entry(), flags);
            lemma_got_takes(s, n, limit_entry(), v);
            lemma_got_keeps(s, n, price_entry(), p.compute_unit_price);
            lemma_got_keeps(s, n, loaded_entry(), p.loaded_accounts_data_limit);
            lemma_got_keeps(s, n, heap_entry(), p.requested_heap_bytes_limit);
        },
        KeyedField::ComputeUnitPrice(v) => {
            lemma_got_keeps(s, n, flags_entry(), flags);
            lemma_got_keeps(s, n, limit_entry(), p.compute_unit_limit);
            lemma_got_takes(s, n, price_entry(), v);
            lemma_got_keeps(s, n, loaded_entry(), p.loaded_accounts_data_limit);
            lemma_got_keeps(s, n, heap_entry(), p.requested_heap_bytes_limit);
        },
        KeyedField::LoadedAccountsDataLimit(v) => {
            lemma_got_keeps(s, n, flags_entry(), flags);
            lemma_got_keeps(s, n, limit_entry(), p.compute_unit_limit);
            lemma_got_keeps(s, n, price_entry(), p.compute_unit_price);
            lemma_got_takes(s, n, loaded_entry(), v);
            lemma_got_keeps(s, n, heap_entry(), p.requested_heap_bytes_limit);
        },
        KeyedField::RequestedHeapBytesLimit(v) => {
            lemma_got_keeps(s, n, flags_entry(), flags);
            lemma_got_keeps(s, n, limit_entry(), p.compute_unit_limit);
            lemma_got_keeps(s, n, price_entry(), p.compute_unit_price);
            lemma_got_keeps(s, n, loaded_entry(), p.loaded_accounts_data_limit);
            lemma_got_takes(s, n, heap_entry(), v);
        },
    }
}

/// What was got from all of the entries of a record that repeats no name is
/// what the record gives.
pub(crate) proof fn lemma_all_got(s: Seq<KeyedField>, flags: Option<u8>, p: BudgetParameters)
    requires
        all_got_so_far(s, s.len() as int, flags, p),
    ensures
        keyed_flags(s) == flags,
        keyed_parameters(s) == p,
{
    lemma_got_all(s, flags_entry(), flags);
    lemma_got_all(s, limit_entry(), p.compute_unit_limit);
    lemma_got_all(s, price_entry(), p.compute_unit_price);
    lemma_got_all(s, loaded_entry(), p.loaded_accounts_data_limit);
    lemma_got_all(s, heap_entry(), p.requested_heap_bytes_limit);
}

/// The keyed form names the mask and each present parameter once, in
/// canonical order.
pub(crate) proof fn lemma_record_entries(p: BudgetParameters)
    ensures
        !has_repeat(keyed_record(p)),
        all_got_so_far(keyed_record(p), keyed_record(p).len() as int, Some(p.presence()), p),
{
    let s = keyed_record(p);
    let a = optional_entry(p.compute_unit_limit, limit_entry());
    let b = optional_entry(p.compute_unit_price, price_entry());
    let c = optional_entry(p.loaded_accounts_data_limit, loaded_entry());
    let d = optional_entry(p.requested_heap_bytes_limit, heap_entry());
    let n = s.len() as int;
    let ia = 1int;
    let ib = ia + a.len();
    let ic = ib + b.len();
    let id = ic + c.len();
    assert(n == id + d.len());
    assert(s[0] == KeyedField::Flags(p.presence()));
    assert forall|k: int| 0 <= k < n implies {
        ||| (k == 0 && s[k] == KeyedField::Flags(p.presence()))
        ||| (k == ia && p.compute_unit_limit is Some && s[k] == KeyedField::ComputeUnitLimit(
            p.compute_unit_limit->Some_0,
        ))
        ||| (k == ib && p.compute_unit_price is Some && s[k] == KeyedField::ComputeUnitPrice(
            p.compute_unit_price->Some_0,
        ))
        ||| (k == ic && p.loaded_accounts_data_limit is Some && s[k]
            == KeyedField::LoadedAccountsDataLimit(p.loaded_accounts_data_limit->Some_0))
        ||| (k == id && p.requested_heap_bytes_limit is Some && s[k]
            == KeyedField::RequestedHeapBytesLimit(p.requested_heap_bytes_limit->Some_0))
    } by {
        if k == 0 {
        } else if k < ib {
            assert(s[k] == a[k - ia]);
        } else if k < ic {
            assert(s[k] == b[k - ib]);
        } else if k < id {
            assert(s[k] == c[k - ic]);
        } else {
            assert(s[k] == d[k - id]);
        }
    }
    assert(within(s, n, flags_entry()(p.presence())));
    if p.compute_unit_limit is Some {
        assert(s[ia] == a[0]);
        assert(within(s, n, limit_entry()(p.compute_unit_limit->Some_0)));
    }
    if p.compute_unit_price is Some {
        assert(s[ib] == b[0]);
        assert(within(s, n, price_entry()(p.compute_unit_price->Some_0)));
    }
    if p.loaded_accounts_data_limit is Some {
        assert(s[ic] == c[0]);
        assert(within(s, n, loaded_entry()(p.loaded_accounts_data_limit->Some_0)));
    }
    if p.requested_heap_bytes_limit is Some {
        assert(s[id] == d[0]);
        assert(within(s, n, heap_entry()(p.requested_heap_bytes_limit->Some_0)));
    }
    assert(!has_repeat(s)) by {
        if has_repeat(s) {
            let j = choose|j: int| repeats_at(s, j);
            let i = choose|i: int| 0 <= i < j
                && (#[trigger] s[i]).spec_field() == s[j].spec_field();
            assert(false);
        }
    }
}

/// Where an entry repeats a name, some entry is the first to do so.
pub(crate) proof fn lemma_least_repeat(s: Seq<KeyedField>, j: int)
    requires
        repeats_at(s, j),
    ensures
        is_first_repeat(s, first_repeat(s)),
    decreases j,
{
    if exists|k: int| 0 <= k < j && repeats_at(s, k) {
        let k = choose|k: int| 0 <= k < j && repeats_at(s, k);
        lemma_least_repeat(s, k);
    } else {
        assert(is_first_repeat(s, j));
    }
}

/// In a record that names no field twice, a field has one value at most.
pub(crate) proof fn lemma_one_value<T>(
    s: Seq<KeyedField>,
    entry: spec_fn(T) -> KeyedField,
    a: T,
    b: T,
)
    requires
        !has_repeat(s),
        s.contains(entry(a)),
        s.contains(entry(b)),
        entry(a).spec_field() == entry(b).spec_field(),
        entry(a) == entry(b) ==> a == b,
    ensures
        a == b,
{
    let i = choose|i: int| 0 <= i < s.len() && s[i] == entry(a);
    let j = choose|j: int| 0 <= j < s.len() && s[j] == entry(b);
    if i < j {
        assert(repeats_at(s, j));
    }
    if j < i {
        assert(repeats_at(s, i));
    }
}

/// Two records that name no field twice and hold the same entries give the
/// field of `entry` the same value.
pub(crate) proof fn lemma_same_value<T>(
    s: Seq<KeyedField>,
    t: Seq<KeyedField>,
    entry: spec_fn(T) -> KeyedField,
)
    requires
        !has_repeat(s),
        !has_repeat(t),
        forall|e: KeyedField| s.contains(e) <==> t.contains(e),
        forall|a: T, b: T| (#[trigger] entry(a)).spec_field() == (#[trigger] entry(b)).spec_field(),
        forall|a: T, b: T| #[trigger] entry(a) == #[trigger] entry(b) ==> a == b,
    ensures
        value_of(s, entry) == value_of(t, entry),
{
    if exists|v: T| s.contains(#[trigger] entry(v)) {
        let a = choose|v: T| s.contains(#[trigger] entry(v));
        assert(t.contains(entry(a)));
        let b = choose|v: T| t.contains(#[trigger] entry(v));
        assert(s.contains(entry(b)));
        lemma_one_value(s, entry, a, b);
    } else if exists|v: T| t.contains(#[trigger] entry(v)) {
        let b = choose|v: T| t.contains(#[trigger] entry(v));
        assert(s.contains(entry(b)));
    }
}

/// Where the first `n` entries repeat no name and name the field of the
/// entry at `n`, that entry is the first repeat.
pub(crate) proof fn lemma_repeat_in_prefix(s: Seq<KeyedField>, n: int)
    requires
        0 <= n < s.len(),
        !has_repeat(s.take(n)),
        names(s.take(n), s[n].spec_field()),
    ensures
        is_first_repeat(s, n),
{
    let t = s.take(n);
    let i = choose|i: int| 0 <= i < t.len() && (#[trigger] t[i]).spec_field() == s[n].spec_field();
    assert(s[i] == t[i]);
    assert(repeats_at(s, n));
    assert forall|k: int| 0 <= k < n implies !repeats_at(s, k) by {
        if repeats_at(s, k) {
            let i = choose|i: int| 0 <= i < k
                && (#[trigger] s[i]).spec_field() == s[k].spec_field();
            assert(t[i] == s[i]);
            assert(t[k] == s[k]);
            assert(repeats_at(t, k));
        }
    }
}

/// What was got holds a value for a field exactly where an entry names it.
pub(crate) proof fn lemma_got_iff_named(
    s: Seq<KeyedField>,
    flags: Option<u8>,
    p: BudgetParameters,
    field: Field,
)
    requires
        all_got_so_far(s, s.len() as int, flags, p),
    ensures
        got_field(flags, p, field) <==> names(s, field),
{
    let n = s.len() as int;
    if names(s, field) {
        let i = choose|i: int| 0 <= i < s.len() && (#[trigger] s[i]).spec_field() == field;
        match s[i] {
            KeyedField::Flags(v) => {
                assert(within(s, n, flags_entry()(v)));
            },
            KeyedField::ComputeUnitLimit(v) => {
                assert(within(s, n, limit_entry()(v)));
            },
            KeyedField::ComputeUnitPrice(v) => {
                assert(within(s, n, price_entry()(v)));
            },
            KeyedField::LoadedAccountsDataLimit(v) => {
                assert(within(s, n, loaded_entry()(v)));
            },
            KeyedField::RequestedHeapBytesLimit(v) => {
                assert(within(s, n, heap_entry()(v)));
            },
        }
    }
    if got_field(flags, p, field) {
        let earlier = match field {
            Field::Flags => flags_entry()(flags->Some_0),
            Field::ComputeUnitLimit => limit_entry()(p.compute_unit_limit->Some_0),
            Field::ComputeUnitPrice => price_entry()(p.compute_unit_price->Some_0),
            Field::LoadedAccountsDataLimit => loaded_entry()(
                p.loaded_accounts_data_limit->Some_0,
            ),
            Field::RequestedHeapBytesLimit => heap_entry()(p.requested_heap_bytes_limit->Some_0),
        };
        assert(within(s, n, earlier));
        let k = choose|k: int| 0 <= k < n && k < s.len() && #[trigger] s[k] == earlier;
        assert(s[k].spec_field() == field);
    }
}

/// One more entry behind a record leaves what stood among its entries.
pub(crate) proof fn lemma_push_keeps(
    s: Seq<KeyedField>,
    entry: KeyedField,
    flags: Option<u8>,
    p: BudgetParameters,
)
    requires
        all_got_so_far(s, s.len() as int, flags, p),
    ensures
        all_got_so_far(s.push(entry), s.len() as int, flags, p),
{
    let t = s.push(entry);
    let n = s.len() as int;
    assert forall|e: KeyedField| within(t, n, e) <==> within(s, n, e) by {
        if within(t, n, e) {
            let k = choose|k: int| 0 <= k < n && k < t.len() && #[trigger] t[k] == e;
            assert(s[k] == e);
        }
        if within(s, n, e) {
            let k = choose|k: int| 0 <= k < n && k < s.len() && #[trigger] s[k] == e;
            assert(t[k] == e);
        }
    }
}

/// An entry of a new name behind a record without a repeat makes no repeat.
pub(crate) proof fn lemma_push_no_repeat(s: Seq<KeyedField>, entry: KeyedField)
    requires
        !has_repeat(s),
        !names(s, entry.spec_field()),
    ensures
        !has_repeat(s.push(entry)),
{
    let t = s.push(entry);
    if has_repeat(t) {
        let j = choose|j: int| repeats_at(t, j);
        let i = choose|i: int| 0 <= i < j && (#[trigger] t[i]).spec_field() == t[j].spec_field();
        assert(s[i] == t[i]);
        if j < s.len() {
            assert(s[j] == t[j]);
            assert(repeats_at(s, j));
        }
    }
}

} // verus!
