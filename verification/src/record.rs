//! The record decoder: the serial-type tag vocabulary, the typed value
//! model with the format's loose equality, and the single entry point that
//! turns one record's bytes into a name-keyed row.
use vstd::prelude::*;
use vstd::utf8::decode_utf8;
use vstd::utf8::valid_utf8;

use crate::error::DecodeError;
use crate::text::str_eq;
use crate::text::utf8_to_string;
use crate::varint::varint_at;
use crate::varint::varint_at_spec;

verus! {

/// The closed vocabulary of serial-type tags: each names one column's
/// on-disk layout.
#[derive(Clone, Copy, Debug, PartialEq, Eq, Structural)]
pub enum ColumnType {
    Null,
    I8,
    I16,
    I24,
    I32,
    I48,
    I64,
    F64,
    Zero,
    One,
    Blob(usize),
    Text(usize),
}

/// The serial-type tag an integer code resolves to: `None` exactly for the
/// two reserved codes.  Codes of twelve and above carry a byte length in
/// exact integer arithmetic: even codes are blobs of `(code - 12) / 2`
/// bytes, odd ones text of `(code - 13) / 2` bytes.
pub open spec fn column_type_of(code: u64) -> Option<ColumnType> {
    if code == 0 {
        Some(ColumnType::Null)
    } else if code == 1 {
        Some(ColumnType::I8)
    } else if code == 2 {
        Some(ColumnType::I16)
    } else if code == 3 {
        Some(ColumnType::I24)
    } else if code == 4 {
        Some(ColumnType::I32)
    } else if code == 5 {
        Some(ColumnType::I48)
    } else if code == 6 {
        Some(ColumnType::I64)
    } else if code == 7 {
        Some(ColumnType::F64)
    } else if code == 8 {
        Some(ColumnType::Zero)
    } else if code == 9 {
        Some(ColumnType::One)
    } else if code == 10 || code == 11 {
        None
    } else if code % 2 == 0 {
        Some(ColumnType::Blob(((code - 12) / 2) as usize))
    } else {
        Some(ColumnType::Text(((code - 13) / 2) as usize))
    }
}

/// The number of payload bytes a tag consumes.
pub open spec fn column_type_size(t: ColumnType) -> nat {
    match t {
        ColumnType::Null => 0,
        ColumnType::I8 => 1,
        ColumnType::I16 => 2,
        ColumnType::I24 => 3,
        ColumnType::I32 => 4,
        ColumnType::I48 => 6,
        ColumnType::I64 => 8,
        ColumnType::F64 => 8,
        ColumnType::Zero => 0,
        ColumnType::One => 0,
        ColumnType::Blob(size) => size as nat,
        ColumnType::Text(size) => size as nat,
    }
}

impl ColumnType {
    /// The number of payload bytes this tag consumes.
    pub fn size(&self) -> (n: usize)
        ensures
            n as nat == column_type_size(*self),
    {
        match self {
            ColumnType::Null => 0,
            ColumnType::I8 => 1,
            ColumnType::I16 => 2,
            ColumnType::I24 => 3,
            ColumnType::I32 => 4,
            ColumnType::I48 => 6,
            ColumnType::I64 => 8,
            ColumnType::F64 => 8,
            ColumnType::Zero => 0,
            ColumnType::One => 0,
            ColumnType::Blob(size) => *size,
            ColumnType::Text(size) => *size,
        }
    }

    /// Resolves a decoded tag integer.  Resolution is total over the
    /// unsigned 64-bit codes except the two reserved values, on which it
    /// fails with the invalid-encoding error.
    pub fn from_code(code: u64) -> (r: Result<ColumnType, DecodeError>)
        ensures
            match column_type_of(code) {
                Some(t) => r == Ok::<ColumnType, DecodeError>(t),
                None => r == Err::<ColumnType, DecodeError>(DecodeError::InvalidColumnType),
            },
            r is Ok <==> code != 10 && code != 11,
    {
        if code == 0 {
            Ok(ColumnType::Null)
        } else if code == 1 {
            Ok(ColumnType::I8)
        } else if code == 2 {
            Ok(ColumnType::I16)
        } else if code == 3 {
            Ok(ColumnType::I24)
        } else if code == 4 {
            Ok(ColumnType::I32)
        } else if code == 5 {
            Ok(ColumnType::I48)
        } else if code == 6 {
            Ok(ColumnType::I64)
        } else if code == 7 {
            Ok(ColumnType::F64)
        } else if code == 8 {
            Ok(ColumnType::Zero)
        } else if code == 9 {
            Ok(ColumnType::One)
        } else if code == 10 || code == 11 {
            Err(DecodeError::InvalidColumnType)
        } else if code % 2 == 0 {
            Ok(ColumnType::Blob(#[verifier::truncate] (((code - 12) / 2) as usize)))
        } else {
            Ok(ColumnType::Text(#[verifier::truncate] (((code - 13) / 2) as usize)))
        }
    }

    /// Resolves a signed tag integer, as the header decoder hands one on.
    /// A negative code never names a layout and fails like the reserved
    /// codes do.
    pub fn try_from(value: i64) -> (r: Result<ColumnType, DecodeError>)
        ensures
            value >= 0 ==> r == (match column_type_of(value as u64) {
                Some(t) => Ok::<ColumnType, DecodeError>(t),
                None => Err::<ColumnType, DecodeError>(DecodeError::InvalidColumnType),
            }),
            r is Ok <==> value >= 0 && value != 10 && value != 11,
    {
        if value < 0 {
            Err(DecodeError::InvalidColumnType)
        } else {
            Self::from_code(value as u64)
        }
    }
}

/// The decoded, typed result for one column.  `Real` carries the IEEE-754
/// bit pattern of an 8-byte float; this decoder never produces one (that
/// width is unsupported), so no floating-point arithmetic happens here.
#[derive(Clone, Debug)]
pub enum Value {
    Null,
    Integer(i64),
    Real(u64),
    Text(String),
    Blob(String),
}

/// The mathematical shape of a [`Value`]: strings as character sequences.
pub enum SpecValue {
    Null,
    Integer(i64),
    Real(u64),
    Text(Seq<char>),
    Blob(Seq<char>),
}

impl View for Value {
    type V = SpecValue;

    open spec fn view(&self) -> SpecValue {
        match self {
            Value::Null => SpecValue::Null,
            Value::Integer(n) => SpecValue::Integer(*n),
            Value::Real(bits) => SpecValue::Real(*bits),
            Value::Text(s) => SpecValue::Text(s@),
            Value::Blob(s) => SpecValue::Blob(s@),
        }
    }
}

/// The format's loose value equality.  `Null` equals nothing, not even
/// another `Null`; `Text` and `Blob` form one group compared by content;
/// `Integer` and `Real` each equal only their own variant with the same
/// payload.
pub open spec fn value_eq(a: SpecValue, b: SpecValue) -> bool {
    match a {
        SpecValue::Null => false,
        SpecValue::Integer(x) => match b {
            SpecValue::Integer(y) => x == y,
            _ => false,
        },
        SpecValue::Real(x) => match b {
            SpecValue::Real(y) => x == y,
            _ => false,
        },
        SpecValue::Text(x) => match b {
            SpecValue::Text(y) => x == y,
            SpecValue::Blob(y) => x == y,
            _ => false,
        },
        SpecValue::Blob(x) => match b {
            SpecValue::Text(y) => x == y,
            SpecValue::Blob(y) => x == y,
            _ => false,
        },
    }
}

impl PartialEq for Value {
    fn eq(&self, other: &Self) -> (r: bool) {
        match self {
            Value::Null => false,
            Value::Integer(n1) => match other {
                Value::Integer(n2) => *n1 == *n2,
                _ => false,
            },
            Value::Real(f1) => match other {
                Value::Real(f2) => *f1 == *f2,
                _ => false,
            },
            Value::Text(s1) => match other {
                Value::Text(s2) => *s1 == *s2,
                Value::Blob(s2) => *s1 == *s2,
                _ => false,
            },
            Value::Blob(s1) => match other {
                Value::Text(s2) => *s1 == *s2,
                Value::Blob(s2) => *s1 == *s2,
                _ => false,
            },
        }
    }
}

impl vstd::std_specs::cmp::PartialEqSpecImpl for Value {
    open spec fn obeys_eq_spec() -> bool {
        true
    }

    open spec fn eq_spec(&self, other: &Value) -> bool {
        value_eq(self@, other@)
    }
}

/// `Null` equals nothing, on either side — not even another `Null`.
pub proof fn lemma_null_equals_nothing(v: SpecValue)
    ensures
        !value_eq(SpecValue::Null, v),
        !value_eq(v, SpecValue::Null),
{
}

/// `Text` and `Blob` form one group: across the two variants, equality
/// holds exactly when the character content is equal.
pub proof fn lemma_text_blob_cross_equality(x: Seq<char>, y: Seq<char>)
    ensures
        value_eq(SpecValue::Text(x), SpecValue::Blob(y)) <==> x == y,
        value_eq(SpecValue::Blob(x), SpecValue::Text(y)) <==> x == y,
        value_eq(SpecValue::Text(x), SpecValue::Text(y)) <==> x == y,
        value_eq(SpecValue::Blob(x), SpecValue::Blob(y)) <==> x == y,
{
}

impl Value {
    /// The integer payload, when this is an `Integer`.
    pub fn as_integer(&self) -> (r: Option<i64>)
        ensures
            r == (match self@ {
                SpecValue::Integer(n) => Some(n),
                _ => None::<i64>,
            }),
    {
        match self {
            Value::Integer(n) => Some(*n),
            _ => None,
        }
    }

    /// The IEEE-754 bit pattern, when this is a `Real`.
    pub fn as_real(&self) -> (r: Option<u64>)
        ensures
            r == (match self@ {
                SpecValue::Real(bits) => Some(bits),
                _ => None::<u64>,
            }),
    {
        match self {
            Value::Real(bits) => Some(*bits),
            _ => None,
        }
    }

    /// The character content, when this is a `Text`.
    pub fn as_text(&self) -> (r: Option<&str>)
        ensures
            match r {
                Some(s) => self@ matches SpecValue::Text(t) && s@ == t,
                None => !(self@ is Text),
            },
    {
        match self {
            Value::Text(s) => Some(s.as_str()),
            _ => None,
        }
    }

    /// The character content, when this is a `Blob`.
    pub fn as_blob(&self) -> (r: Option<&str>)
        ensures
            match r {
                Some(s) => self@ matches SpecValue::Blob(t) && s@ == t,
                None => !(self@ is Blob),
            },
    {
        match self {
            Value::Blob(s) => Some(s.as_str()),
            _ => None,
        }
    }
}

/// Whether a record carries a leading row identifier: table records do,
/// index records do not.
#[derive(Clone, Copy, Debug, PartialEq, Eq, Structural)]
pub enum RecordType {
    Table,
    Index,
}

/// A one-byte value read as a two's-complement signed integer.
pub open spec fn spec_i8(b: u8) -> i64 {
    if b < 0x80 {
        b as i64
    } else {
        (b - 0x100) as i64
    }
}

/// Two big-endian bytes read as a two's-complement signed integer.
pub open spec fn spec_i16(b0: u8, b1: u8) -> i64 {
    let raw = b0 * 0x100 + b1;
    if raw < 0x8000 {
        raw as i64
    } else {
        (raw - 0x1_0000) as i64
    }
}

/// Three big-endian bytes read through a four-byte integer whose high byte
/// is zero: the result is never negative, so negative 24-bit values are
/// not sign-extended.  This mirrors the format's established behaviour.
pub open spec fn spec_i24(b0: u8, b1: u8, b2: u8) -> i64 {
    (b0 * 0x1_0000 + b1 * 0x100 + b2) as i64
}

/// Four big-endian bytes read as a two's-complement signed integer.
pub open spec fn spec_i32(b0: u8, b1: u8, b2: u8, b3: u8) -> i64 {
    let raw = b0 * 0x100_0000 + b1 * 0x1_0000 + b2 * 0x100 + b3;
    if raw < 0x8000_0000 {
        raw as i64
    } else {
        (raw - 0x1_0000_0000) as i64
    }
}

/// The value one column yields and the position after its payload.  A
/// null-tagged column of a table record whose name is exactly `id` aliases
/// the record's row identifier instead of yielding `Null`.
pub open spec fn spec_column_value(
    s: Seq<u8>,
    pos: nat,
    t: ColumnType,
    name: Seq<char>,
    table: bool,
    row_id: u64,
) -> Result<(SpecValue, nat), DecodeError> {
    match t {
        ColumnType::Null => Ok(
            (
                if table && name == "id"@ {
                    SpecValue::Integer(row_id as i64)
                } else {
                    SpecValue::Null
                },
                pos,
            ),
        ),
        ColumnType::I8 => if pos + 1 <= s.len() {
            Ok((SpecValue::Integer(spec_i8(s[pos as int])), (pos + 1) as nat))
        } else {
            Err(DecodeError::Truncated)
        },
        ColumnType::I16 => if pos + 2 <= s.len() {
            Ok((SpecValue::Integer(spec_i16(s[pos as int], s[pos as int + 1])), (pos + 2) as nat))
        } else {
            Err(DecodeError::Truncated)
        },
        ColumnType::I24 => if pos + 3 <= s.len() {
            Ok(
                (
                    SpecValue::Integer(spec_i24(s[pos as int], s[pos as int + 1], s[pos as int + 2])),
                    (pos + 3) as nat,
                ),
            )
        } else {
            Err(DecodeError::Truncated)
        },
        ColumnType::I32 => if pos + 4 <= s.len() {
            Ok(
                (
                    SpecValue::Integer(spec_i32(s[pos as int], s[pos as int + 1], s[pos as int + 2], s[pos as int + 3])),
                    (pos + 4) as nat,
                ),
            )
        } else {
            Err(DecodeError::Truncated)
        },
        ColumnType::I48 => Err(DecodeError::UnsupportedWidth),
        ColumnType::I64 => Err(DecodeError::UnsupportedWidth),
        ColumnType::F64 => Err(DecodeError::UnsupportedWidth),
        ColumnType::Zero => Ok((SpecValue::Integer(0), pos)),
        ColumnType::One => Ok((SpecValue::Integer(0), pos)),
        ColumnType::Blob(size) => if pos + size <= s.len() {
            let bytes = s.subrange(pos as int, pos as int + size);
            if valid_utf8(bytes) {
                Ok((SpecValue::Blob(decode_utf8(bytes)), (pos + size) as nat))
            } else {
                Err(DecodeError::InvalidText)
            }
        } else {
            Err(DecodeError::Truncated)
        },
        ColumnType::Text(size) => if pos + size <= s.len() {
            let bytes = s.subrange(pos as int, pos as int + size);
            if valid_utf8(bytes) {
                Ok((SpecValue::Text(decode_utf8(bytes)), (pos + size) as nat))
            } else {
                Err(DecodeError::InvalidText)
            }
        } else {
            Err(DecodeError::Truncated)
        },
    }
}

/// The `count` serial-type tags decoded from position `pos` on, and the
/// position after them.
pub open spec fn spec_tags(s: Seq<u8>, pos: nat, count: nat) -> Result<
    (Seq<ColumnType>, nat),
    DecodeError,
>
    decreases count,
{
    if count == 0 {
        Ok((Seq::empty(), pos))
    } else {
        match varint_at_spec(s, pos) {
            None => Err(DecodeError::Truncated),
            Some(vn) => match column_type_of(vn.0 as u64) {
                None => Err(DecodeError::InvalidColumnType),
                Some(t) => match spec_tags(s, vn.1, (count - 1) as nat) {
                    Ok(rest) => Ok((seq![t] + rest.0, rest.1)),
                    Err(e) => Err(e),
                },
            },
        }
    }
}

/// The payload section: one `(name, value)` pair per column, in column
/// order, and the position after the last payload byte.
pub open spec fn spec_columns(
    s: Seq<u8>,
    pos: nat,
    names: Seq<Seq<char>>,
    tags: Seq<ColumnType>,
    table: bool,
    row_id: u64,
) -> Result<(Seq<(Seq<char>, SpecValue)>, nat), DecodeError>
    recommends
        names.len() == tags.len(),
    decreases names.len(),
{
    if names.len() == 0 {
        Ok((Seq::empty(), pos))
    } else {
        match spec_column_value(s, pos, tags[0], names[0], table, row_id) {
            Err(e) => Err(e),
            Ok(vp) => match spec_columns(s, vp.1, names.skip(1), tags.skip(1), table, row_id) {
                Ok(rest) => Ok((seq![(names[0], vp.0)] + rest.0, rest.1)),
                Err(e) => Err(e),
            },
        }
    }
}

/// The header and payload stages from position `hpos` on: the declared
/// header size, one tag per column checked against that size, then the
/// payloads.
pub open spec fn spec_parse_from(
    s: Seq<u8>,
    hpos: nat,
    names: Seq<Seq<char>>,
    table: bool,
    row_id: u64,
) -> Result<(Seq<(Seq<char>, SpecValue)>, nat), DecodeError> {
    match varint_at_spec(s, hpos) {
        None => Err(DecodeError::Truncated),
        Some(hn) => match spec_tags(s, hn.1, names.len()) {
            Err(e) => Err(e),
            Ok(te) => if te.1 - hpos != hn.0 {
                Err(DecodeError::SizeMismatch)
            } else {
                spec_columns(s, te.1, names, te.0, table, row_id)
            },
        },
    }
}

/// The whole record: the decoded `(name, value)` pairs in column order and
/// the number of bytes consumed, or the error of the first failing stage.
pub open spec fn spec_parse(s: Seq<u8>, names: Seq<Seq<char>>, kind: RecordType) -> Result<
    (Seq<(Seq<char>, SpecValue)>, nat),
    DecodeError,
> {
    match kind {
        RecordType::Table => match varint_at_spec(s, 0) {
            None => Err(DecodeError::Truncated),
            Some(rn) => spec_parse_from(s, rn.1, names, true, rn.0 as u64),
        },
        RecordType::Index => spec_parse_from(s, 0, names, false, 0),
    }
}

/// Where the row-identifier stage ends: position zero for index records,
/// and the end of the leading variable-length integer for table records,
/// `None` when that integer is truncated.
pub open spec fn rowid_stage_end(s: Seq<u8>, kind: RecordType) -> Option<nat> {
    match kind {
        RecordType::Table => match varint_at_spec(s, 0) {
            None => None,
            Some(rn) => Some(rn.1),
        },
        RecordType::Index => Some(0),
    }
}

/// Whether the header starting at `hpos` decodes fully while its declared
/// size disagrees with the bytes consumed: the size field's own byte
/// length plus the byte lengths of the `n` tag encodings.
pub open spec fn header_size_disagrees(s: Seq<u8>, hpos: nat, n: nat) -> bool {
    match varint_at_spec(s, hpos) {
        None => false,
        Some(hn) => match spec_tags(s, hn.1, n) {
            Err(_) => false,
            Ok(te) => te.1 - hpos != hn.0,
        },
    }
}

proof fn lemma_spec_tags_no_size_mismatch(s: Seq<u8>, pos: nat, count: nat)
    ensures
        spec_tags(s, pos, count) != Err::<(Seq<ColumnType>, nat), DecodeError>(
            DecodeError::SizeMismatch,
        ),
    decreases count,
{
    if count > 0 {
        match varint_at_spec(s, pos) {
            None => {},
            Some(vn) => {
                if column_type_of(vn.0 as u64) is Some {
                    lemma_spec_tags_no_size_mismatch(s, vn.1, (count - 1) as nat);
                }
            },
        }
    }
}

proof fn lemma_spec_columns_no_size_mismatch(
    s: Seq<u8>,
    pos: nat,
    names: Seq<Seq<char>>,
    tags: Seq<ColumnType>,
    table: bool,
    row_id: u64,
)
    ensures
        spec_columns(s, pos, names, tags, table, row_id) != Err::<
            (Seq<(Seq<char>, SpecValue)>, nat),
            DecodeError,
        >(DecodeError::SizeMismatch),
    decreases names.len(),
{
    if names.len() > 0 {
        match spec_column_value(s, pos, tags[0], names[0], table, row_id) {
            Err(_) => {},
            Ok(vp) => {
                lemma_spec_columns_no_size_mismatch(
                    s,
                    vp.1,
                    names.skip(1),
                    tags.skip(1),
                    table,
                    row_id,
                );
            },
        }
    }
}

/// A record whose header declares tags for the supplied columns fails with
/// the size-mismatch error exactly when the row-identifier stage and the
/// whole header decode, and the bytes the header consumed — the size
/// field's own byte length plus the byte lengths of all tag encodings —
/// differ from the declared header size.  No other stage reports that
/// error.
pub proof fn lemma_size_mismatch_iff(s: Seq<u8>, names: Seq<Seq<char>>, kind: RecordType)
    ensures
        (spec_parse(s, names, kind) == Err::<(Seq<(Seq<char>, SpecValue)>, nat), DecodeError>(
            DecodeError::SizeMismatch,
        )) <==> (rowid_stage_end(s, kind) matches Some(hpos) && header_size_disagrees(
            s,
            hpos,
            names.len(),
        )),
{
    match rowid_stage_end(s, kind) {
        None => {},
        Some(hpos) => {
            let table = kind is Table;
            let row_id: u64 = if kind is Table {
                (varint_at_spec(s, 0)->Some_0.0) as u64
            } else {
                0
            };
            match varint_at_spec(s, hpos) {
                None => {},
                Some(hn) => {
                    lemma_spec_tags_no_size_mismatch(s, hn.1, names.len());
                    match spec_tags(s, hn.1, names.len()) {
                        Err(_) => {},
                        Ok(te) => {
                            lemma_spec_columns_no_size_mismatch(
                                s,
                                te.1,
                                names,
                                te.0,
                                table,
                                row_id,
                            );
                        },
                    }
                },
            }
        },
    }
}

/// The view of a name/value pair list: names as character sequences.
pub open spec fn pairs_view(v: Seq<(String, Value)>) -> Seq<(Seq<char>, SpecValue)> {
    Seq::new(v.len(), |i: int| (v[i].0@, v[i].1@))
}

/// A decoded record: one `(column name, value)` pair per supplied column
/// name, in column-declaration order.
#[derive(Debug)]
pub struct Record {
    pub values: Vec<(String, Value)>,
}

impl View for Record {
    type V = Seq<(Seq<char>, SpecValue)>;

    open spec fn view(&self) -> Seq<(Seq<char>, SpecValue)> {
        pairs_view(self.values@)
    }
}

impl Record {
    /// A value stored under `name`, if any.
    pub fn get(&self, name: &str) -> (r: Option<&Value>)
        ensures
            match r {
                Some(v) => exists|i: int|
                    0 <= i < self@.len() && self@[i].0 == name@ && self@[i].1 == v@,
                None => forall|i: int| 0 <= i < self@.len() ==> self@[i].0 != name@,
            },
    {
        let n = self.values.len();
        let mut i: usize = 0;
        while i < n
            invariant
                n == self.values@.len(),
                i <= n,
                forall|k: int| 0 <= k < i ==> self@[k].0 != name@,
            decreases n - i,
        {
            let pair = &self.values[i];
            if str_eq(pair.0.as_str(), name) {
                proof {
                    assert(self@[i as int].0 == name@ && self@[i as int].1 == pair.1@);
                }
                return Some(&pair.1);
            }
            i += 1;
        }
        None
    }

    /// Decodes one record from the front of `input`, given the owning
    /// table's or index's column names in on-disk order.
    ///
    /// The stages run in order, left to right over the input: the row
    /// identifier (table records only), the declared header size, one
    /// serial-type tag per column (the bytes consumed, counting the size
    /// field itself, must equal the declared size exactly), then every
    /// column's payload.  A null-tagged column named exactly `id` in a
    /// table record aliases the row identifier; a schema-type-based rule
    /// would be more faithful to the format, but the name-based one is the
    /// established behaviour and is kept.
    ///
    /// Returns the decoded pairs together with the unconsumed remainder of
    /// the slice, or the error of the first stage that fails.
    #[verifier::loop_isolation(false)]
    #[verifier::rlimit(100)]
    pub fn parse<'a>(
        input: &'a [u8],
        column_names: &[String],
        record_type: RecordType,
    ) -> (r: Result<(&'a [u8], Record), DecodeError>)
        ensures
            match r {
                Ok(p) => spec_parse(input@, column_names.deep_view(), record_type) matches Ok(v)
                    && p.1@ == v.0 && v.1 <= input@.len() && p.0@ == input@.subrange(
                    v.1 as int,
                    input@.len() as int,
                ),
                Err(e) => spec_parse(input@, column_names.deep_view(), record_type)
                    == Err::<(Seq<(Seq<char>, SpecValue)>, nat), DecodeError>(e),
            },
    {
        let ghost s = input@;
        let ghost names = column_names.deep_view();
        let table = match record_type {
            RecordType::Table => true,
            RecordType::Index => false,
        };

        // Row-identifier stage.
        let mut row_id: u64 = 0;
        let mut pos: usize = 0;
        if table {
            match varint_at(input, 0) {
                Ok(vp) => {
                    row_id = vp.0;
                    pos = vp.1;
                },
                Err(e) => {
                    return Err(e);
                },
            }
        }

        // Header stage: the declared size, then one tag per column.
        let header_start = pos;
        let hv = match varint_at(input, pos) {
            Ok(vp) => vp,
            Err(e) => {
                return Err(e);
            },
        };
        let header_size = hv.0;
        pos = hv.1;

        let n = column_names.len();
        let ghost tag_start = pos as nat;
        let mut tags: Vec<ColumnType> = Vec::new();
        let mut j: usize = 0;
        while j < n
            invariant
                j <= n,
                header_start < pos <= input@.len(),
                tags@.len() == j,
                spec_tags(s, tag_start, n as nat) == (match spec_tags(
                    s,
                    pos as nat,
                    (n - j) as nat,
                ) {
                    Ok(re) => Ok::<(Seq<ColumnType>, nat), DecodeError>((tags@ + re.0, re.1)),
                    Err(e) => Err::<(Seq<ColumnType>, nat), DecodeError>(e),
                }),
            decreases n - j,
        {
            let tv = match varint_at(input, pos) {
                Ok(vp) => vp,
                Err(e) => {
                    return Err(e);
                },
            };
            let tag = match ColumnType::from_code(tv.0) {
                Ok(t) => t,
                Err(e) => {
                    return Err(e);
                },
            };
            let ghost tags_old = tags@;
            tags.push(tag);
            proof {
                if let Ok(re) = spec_tags(s, tv.1 as nat, (n - j - 1) as nat) {
                    assert(tags_old + (seq![tag] + re.0) =~= tags@ + re.0);
                }
            }
            pos = tv.1;
            j += 1;
        }
        proof {
            assert(tags@ + Seq::<ColumnType>::empty() =~= tags@);
        }

        // The core consistency check: header bytes consumed, counting the
        // size field itself, must equal the declared header size.
        if (pos - header_start) as u64 != header_size {
            return Err(DecodeError::SizeMismatch);
        }

        // Payload stage.
        let ghost payload_start = pos as nat;
        let ghost tags_seq = tags@;
        proof {
            assert(spec_parse(s, names, record_type) == spec_columns(
                s,
                payload_start,
                names,
                tags_seq,
                table,
                row_id,
            ));
        }
        let mut values: Vec<(String, Value)> = Vec::new();
        proof {
            assert(names.skip(0) =~= names);
            assert(tags_seq.skip(0) =~= tags_seq);
            assert(pairs_view(values@) =~= Seq::<(Seq<char>, SpecValue)>::empty());
            if let Ok(re) = spec_columns(s, payload_start, names, tags_seq, table, row_id) {
                assert(pairs_view(values@) + re.0 =~= re.0);
            }
        }
        let mut k: usize = 0;
        while k < n
            invariant
                k <= n,
                pos <= input@.len(),
                values@.len() == k,
                spec_columns(s, payload_start, names, tags_seq, table, row_id) == (match
                    spec_columns(
                    s,
                    pos as nat,
                    names.skip(k as int),
                    tags_seq.skip(k as int),
                    table,
                    row_id,
                ) {
                    Ok(re) => Ok::<(Seq<(Seq<char>, SpecValue)>, nat), DecodeError>(
                        (pairs_view(values@) + re.0, re.1),
                    ),
                    Err(e) => Err::<(Seq<(Seq<char>, SpecValue)>, nat), DecodeError>(e),
                }),
            decreases n - k,
        {
            proof {
                assert(names.skip(k as int)[0] == names[k as int]);
                assert(tags_seq.skip(k as int)[0] == tags_seq[k as int]);
            }
            let ct = tags[k];
            let name_ref = &column_names[k];
            let ghost values_old = values@;
            let ghost pos_old = pos as nat;
            match ct {
                ColumnType::Null => {
                    let v = if table && str_eq(name_ref.as_str(), "id") {
                        Value::Integer(#[verifier::truncate] (row_id as i64))
                    } else {
                        Value::Null
                    };
                    values.push((name_ref.clone(), v));
                },
                ColumnType::I8 => {
                    if input.len() - pos < 1 {
                        return Err(DecodeError::Truncated);
                    }
                    let b = input[pos];
                    let v: i64 = if b < 0x80 {
                        b as i64
                    } else {
                        (b as i64) - 0x100
                    };
                    values.push((name_ref.clone(), Value::Integer(v)));
                    pos = pos + 1;
                },
                ColumnType::I16 => {
                    if input.len() - pos < 2 {
                        return Err(DecodeError::Truncated);
                    }
                    let raw: u32 = (input[pos] as u32) * 0x100 + (input[pos + 1] as u32);
                    let v: i64 = if raw < 0x8000 {
                        raw as i64
                    } else {
                        (raw as i64) - 0x1_0000
                    };
                    values.push((name_ref.clone(), Value::Integer(v)));
                    pos = pos + 2;
                },
                ColumnType::I24 => {
                    if input.len() - pos < 3 {
                        return Err(DecodeError::Truncated);
                    }
                    let raw: u32 = (input[pos] as u32) * 0x1_0000 + (input[pos + 1] as u32) * 0x100
                        + (input[pos + 2] as u32);
                    values.push((name_ref.clone(), Value::Integer(raw as i64)));
                    pos = pos + 3;
                },
                ColumnType::I32 => {
                    if input.len() - pos < 4 {
                        return Err(DecodeError::Truncated);
                    }
                    let raw: u32 = (input[pos] as u32) * 0x100_0000 + (input[pos + 1] as u32)
                        * 0x1_0000 + (input[pos + 2] as u32) * 0x100 + (input[pos + 3] as u32);
                    let v: i64 = if raw < 0x8000_0000 {
                        raw as i64
                    } else {
                        (raw as i64) - 0x1_0000_0000
                    };
                    values.push((name_ref.clone(), Value::Integer(v)));
                    pos = pos + 4;
                },
                ColumnType::I48 => {
                    return Err(DecodeError::UnsupportedWidth);
                },
                ColumnType::I64 => {
                    return Err(DecodeError::UnsupportedWidth);
                },
                ColumnType::F64 => {
                    return Err(DecodeError::UnsupportedWidth);
                },
                ColumnType::Zero => {
                    values.push((name_ref.clone(), Value::Integer(0)));
                },
                ColumnType::One => {
                    // The established decoding of the one-constant tag: it
                    // yields integer zero, like the zero-constant tag.
                    values.push((name_ref.clone(), Value::Integer(0)));
                },
                ColumnType::Blob(size) => {
                    if input.len() - pos < size {
                        return Err(DecodeError::Truncated);
                    }
                    let bytes = vstd::slice::slice_subrange(input, pos, pos + size);
                    match utf8_to_string(bytes) {
                        Some(st) => {
                            values.push((name_ref.clone(), Value::Blob(st)));
                            pos = pos + size;
                        },
                        None => {
                            return Err(DecodeError::InvalidText);
                        },
                    }
                },
                ColumnType::Text(size) => {
                    if input.len() - pos < size {
                        return Err(DecodeError::Truncated);
                    }
                    let bytes = vstd::slice::slice_subrange(input, pos, pos + size);
                    match utf8_to_string(bytes) {
                        Some(st) => {
                            values.push((name_ref.clone(), Value::Text(st)));
                            pos = pos + size;
                        },
                        None => {
                            return Err(DecodeError::InvalidText);
                        },
                    }
                },
            }
            proof {
                let stepped = spec_column_value(
                    s,
                    pos_old,
                    tags_seq[k as int],
                    names[k as int],
                    table,
                    row_id,
                );
                assert(stepped matches Ok(vp) && vp.0 == values@[k as int].1@ && vp.1 == pos as nat);
                assert(names.skip(k as int).skip(1) =~= names.skip(k as int + 1));
                assert(tags_seq.skip(k as int).skip(1) =~= tags_seq.skip(k as int + 1));
                assert(pairs_view(values@) =~= pairs_view(values_old) + seq![
                    (names[k as int], values@[k as int].1@),
                ]);
                if let Ok(re) = spec_columns(
                    s,
                    pos as nat,
                    names.skip(k as int + 1),
                    tags_seq.skip(k as int + 1),
                    table,
                    row_id,
                ) {
                    assert(pairs_view(values_old) + (seq![(names[k as int], values@[k as int].1@)]
                        + re.0) =~= pairs_view(values@) + re.0);
                }
            }
            k += 1;
        }
        proof {
            assert(names.skip(n as int) =~= Seq::<Seq<char>>::empty());
            assert(tags_seq.skip(n as int) =~= Seq::<ColumnType>::empty());
            assert(pairs_view(values@) + Seq::<(Seq<char>, SpecValue)>::empty() =~= pairs_view(
                values@,
            ));
        }
        let rest = vstd::slice::slice_subrange(input, pos, input.len());
        Ok((rest, Record { values }))
    }
}

} // verus!
