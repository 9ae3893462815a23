use serde::de::{Deserialize, Deserializer, Error, MapAccess, SeqAccess, Visitor};
use serde::ser::{Serialize, SerializeStruct, Serializer};
use std::fmt;
use v1tx::v3::compact;
use v1tx::v3::compact::fields_behind_mask;
use v1tx::v3::keyed;
use v1tx::v3::keyed::{KeyedField, RecordReader};
use v1tx::v3::{ComputeBudgetHeader, DecodeError, Field};

const FIELDS: &[&str] = &[
    "flags",
    "compute_unit_limit",
    "compute_unit_price",
    "loaded_accounts_data_limit",
    "requested_heap_bytes_limit",
];

/// A header as serde sees it: every decision is the library's.
#[derive(Debug, PartialEq, Eq)]
struct Wire(ComputeBudgetHeader);

impl Serialize for Wire {
    fn serialize<S: Serializer>(&self, serializer: S) -> Result<S::Ok, S::Error> {
        let record = keyed::serialize(&self.0);
        let mut state = serializer.serialize_struct("ComputeBudgetHeader", record.len())?;
        for entry in &record {
            let name = entry.field().name();
            match entry {
                KeyedField::Flags(bits) => state.serialize_field(name, bits)?,
                KeyedField::ComputeUnitLimit(value) => state.serialize_field(name, value)?,
                KeyedField::ComputeUnitPrice(value) => state.serialize_field(name, value)?,
                KeyedField::LoadedAccountsDataLimit(value) => state.serialize_field(name, value)?,
                KeyedField::RequestedHeapBytesLimit(value) => state.serialize_field(name, value)?,
            }
        }
        state.end()
    }
}

fn refused<E: Error>(error: DecodeError) -> E {
    E::custom(format!("{:?}", error))
}

struct Key(Field);

struct KeyVisitor;

impl<'de> Visitor<'de> for KeyVisitor {
    type Value = Key;

    fn expecting(&self, formatter: &mut fmt::Formatter) -> fmt::Result {
        formatter.write_str("a field of ComputeBudgetHeader")
    }

    fn visit_str<E: Error>(self, name: &str) -> Result<Key, E> {
        match Field::from_name(name) {
            Some(field) => Ok(Key(field)),
            None => Err(E::unknown_field(name, FIELDS)),
        }
    }
}

impl<'de> Deserialize<'de> for Key {
    fn deserialize<D: Deserializer<'de>>(deserializer: D) -> Result<Key, D::Error> {
        deserializer.deserialize_identifier(KeyVisitor)
    }
}

struct WireVisitor;

impl<'de> Visitor<'de> for WireVisitor {
    type Value = Wire;

    fn expecting(&self, formatter: &mut fmt::Formatter) -> fmt::Result {
        formatter.write_str("struct ComputeBudgetHeader")
    }

    fn visit_map<V: MapAccess<'de>>(self, mut map: V) -> Result<Wire, V::Error> {
        let mut reader = RecordReader::new();
        while let Some(Key(field)) = map.next_key()? {
            if reader.holds(field) {
                return Err(refused(DecodeError::DuplicateField(field)));
            }
            let entry = match field {
                Field::Flags => KeyedField::Flags(map.next_value()?),
                Field::ComputeUnitLimit => KeyedField::ComputeUnitLimit(map.next_value()?),
                Field::ComputeUnitPrice => KeyedField::ComputeUnitPrice(map.next_value()?),
                Field::LoadedAccountsDataLimit => {
                    KeyedField::LoadedAccountsDataLimit(map.next_value()?)
                }
                Field::RequestedHeapBytesLimit => {
                    KeyedField::RequestedHeapBytesLimit(map.next_value()?)
                }
            };
            reader.take(entry).map_err(refused)?;
        }
        reader.finish().map(Wire).map_err(refused)
    }

    fn visit_seq<A: SeqAccess<'de>>(self, mut seq: A) -> Result<Wire, A::Error> {
        let ended = |field: Field| refused::<A::Error>(DecodeError::UnexpectedEnd(field));
        let bits: u8 = seq.next_element()?.ok_or_else(|| ended(Field::Flags))?;
        let fields = fields_behind_mask(bits).map_err(refused)?;
        let mut reader = RecordReader::new();
        reader.take(KeyedField::Flags(bits)).map_err(refused)?;
        for field in fields {
            let entry = match field {
                Field::Flags => KeyedField::Flags(bits),
                Field::ComputeUnitLimit => KeyedField::ComputeUnitLimit(
                    seq.next_element()?.ok_or_else(|| ended(field))?,
                ),
                Field::ComputeUnitPrice => KeyedField::ComputeUnitPrice(
                    seq.next_element()?.ok_or_else(|| ended(field))?,
                ),
                Field::LoadedAccountsDataLimit => KeyedField::LoadedAccountsDataLimit(
                    seq.next_element()?.ok_or_else(|| ended(field))?,
                ),
                Field::RequestedHeapBytesLimit => KeyedField::RequestedHeapBytesLimit(
                    seq.next_element()?.ok_or_else(|| ended(field))?,
                ),
            };
            reader.take(entry).map_err(refused)?;
        }
        reader.finish().map(Wire).map_err(refused)
    }
}

impl<'de> Deserialize<'de> for Wire {
    fn deserialize<D: Deserializer<'de>>(deserializer: D) -> Result<Wire, D::Error> {
        deserializer.deserialize_struct("ComputeBudgetHeader", FIELDS, WireVisitor)
    }
}

fn all_headers() -> Vec<ComputeBudgetHeader> {
    let mut headers = Vec::new();
    for cu_price in [Some(12), None] {
        for cu_limit in [Some(34), None] {
            for loaded_data_limit in [Some(56), None] {
                for heap_limit in [Some(78), None] {
                    headers.push(ComputeBudgetHeader::new(
                        cu_limit,
                        cu_price,
                        loaded_data_limit,
                        heap_limit,
                    ));
                }
            }
        }
    }
    headers
}

#[test]
fn bincode_writes_the_compact_form() {
    for header in all_headers() {
        let written = bincode::serialize(&Wire(header)).unwrap();
        assert_eq!(written, compact::serialize(&header));
        assert_eq!(
            bincode::serialized_size(&Wire(header)).unwrap(),
            compact::serialized_size(&header) as u64
        );
    }
}

#[test]
fn bincode_reads_the_compact_form() {
    for header in all_headers() {
        let bytes = compact::serialize(&header);
        let read: Wire = bincode::deserialize(&bytes).unwrap();
        assert_eq!(read, Wire(header));
        let (own, _) = compact::deserialize(&bytes).unwrap();
        assert_eq!(read.0, own);
    }
}

#[test]
fn bincode_and_the_compact_decoder_refuse_the_same_inputs() {
    for first in 0u8..=255 {
        for len in 1usize..23 {
            let mut bytes = vec![first];
            bytes.extend((1..len).map(|i| (i * 7) as u8));
            let through_serde: Result<Wire, _> = bincode::deserialize(&bytes);
            let own = compact::deserialize(&bytes);
            match (through_serde, own) {
                (Ok(read), Ok((header, _))) => assert_eq!(read.0, header),
                (Err(_), Err(_)) => {}
                (a, b) => panic!("{:?} through serde, {:?} from the bytes", a.is_ok(), b),
            }
        }
    }
}

#[test]
fn bincode_reports_reserved_bits() {
    let read: Result<Wire, _> = bincode::deserialize(&[0b0001_0001, 1, 0, 0, 0]);
    let message = read.unwrap_err().to_string();
    assert!(message.contains("InvalidFlags(16)"), "{}", message);
}
