//! The record model and its wire grammar.
//!
//! A packed record is a five-byte header (one version byte and the body
//! length as a little-endian `u32`) followed by a body made of tagged,
//! self-delimiting tokens. Three kinds of token exist: one opens a dataset,
//! one declares a field of the open dataset, one carries a value for the
//! next pending field. The meaning of a body is what replaying its tokens,
//! in order, through `step` yields.
use vstd::prelude::*;
use vstd::bytes::*;

verus! {

/// Tag byte of a token that opens a dataset.
pub const TAG_DATASET: u8 = 78;

/// Tag byte of a token that declares a field.
pub const TAG_FIELD: u8 = 70;

/// Tag byte of a token that sets the return code of the open dataset.
pub const TAG_RETURN_CODE: u8 = 69;

/// Tag byte (and type character) of a 32-bit integer.
pub const TYPE_INT: u8 = 73;

/// Tag byte (and type character) of a double, carried as its 64 bits.
pub const TYPE_DOUBLE: u8 = 68;

/// Tag byte (and type character) of a single character.
pub const TYPE_CHAR: u8 = 67;

/// Tag byte (and type character) of a string.
pub const TYPE_STR: u8 = 83;

/// Tag byte (and type character) of raw binary data.
pub const TYPE_RAW: u8 = 82;

/// Number of bytes in front of the body: version byte and body length.
pub const HEADER_LEN: usize = 5;

/// Largest total length a packed record may reach.
pub const MAX_PACK_LEN: usize = 0x7fff_ffff;

/// Largest number of datasets in a record, and of fields and of rows in a
/// dataset.
pub const MAX_COUNT: usize = 0x7fff_ffff;

/// Integer that reads back as null.
pub const NULL_INT: i32 = -2147483648;

/// Character that reads back as null.
pub const NULL_CHAR: u8 = 0;

/// Bit pattern of the double that reads back as null.
pub const NULL_DOUBLE_BITS: u64 = 0x7ff8_0000_0000_0000;

/// Type tag of a field.
#[derive(Clone, Copy, Debug, PartialEq, Eq, Structural)]
pub enum FieldType {
    Integer32,
    Double,
    Char,
    Str,
    Raw,
}

/// Why a codec operation was refused.
#[derive(Clone, Copy, Debug, PartialEq, Eq, Structural)]
pub enum CodecError {
    /// The buffer ends before the data it announces.
    Truncated,
    /// The buffer holds bytes that no token starts with, or trailing bytes.
    Malformed,
    /// The version byte names no known layout.
    BadVersion,
    /// A field declares a type character outside `I D C S R`.
    UnknownFieldType,
    /// A field declares a negative width or scale.
    InvalidField,
    /// A field after a value, a value without a field, a dataset in the
    /// middle of a row, or any insertion after the pack was ended.
    OrderViolation,
    /// A value whose type is not that of the field it is meant for.
    TypeMismatch,
    /// A string or raw value longer than the declared width of its field.
    ValueTooWide,
    /// The legacy layout holds one anonymous dataset only.
    Unsupported,
    /// The packed record would be longer than `MAX_PACK_LEN`, or would hold
    /// more than `MAX_COUNT` datasets, fields or rows.
    TooLong,
    /// No dataset of that name or index.
    DatasetNotFound,
    /// No column of that name or index.
    ColumnNotFound,
    /// The cursor stands past the last row.
    EndOfData,
    /// A text that the encoding asked for cannot express.
    InvalidText,
}

/// A field descriptor, as a mathematical value.
pub struct FieldSpec {
    pub name: Seq<u8>,
    pub kind: FieldType,
    pub width: i32,
    pub scale: i32,
}

/// A typed value, as a mathematical value.
pub enum ValueSpec {
    Int(i32),
    Double(u64),
    Char(u8),
    Str(Seq<u8>),
    Raw(Seq<u8>),
}

/// A dataset, as a mathematical value: complete rows and the row being filled.
pub struct DatasetSpec {
    pub name: Seq<u8>,
    pub return_code: i32,
    pub fields: Seq<FieldSpec>,
    pub rows: Seq<Seq<ValueSpec>>,
    pub pending: Seq<ValueSpec>,
}

/// One token of a record body.
pub enum Token {
    Dataset { name: Seq<u8>, return_code: i32 },
    Field(FieldSpec),
    Value(ValueSpec),
    ReturnCode(i32),
}

/// What stands at the front of a byte sequence.
pub enum Scan {
    /// A whole token, and the number of bytes it takes.
    Tok(Token, int),
    /// No token, and why.
    Fail(CodecError),
}

pub open spec fn value_kind(v: ValueSpec) -> FieldType {
    match v {
        ValueSpec::Int(_) => FieldType::Integer32,
        ValueSpec::Double(_) => FieldType::Double,
        ValueSpec::Char(_) => FieldType::Char,
        ValueSpec::Str(_) => FieldType::Str,
        ValueSpec::Raw(_) => FieldType::Raw,
    }
}

/// Length in bytes of a string or raw value; zero for the fixed-width types.
pub open spec fn value_len(v: ValueSpec) -> int {
    match v {
        ValueSpec::Str(b) => b.len() as int,
        ValueSpec::Raw(b) => b.len() as int,
        _ => 0,
    }
}

/// A value may stand in a column: same type, and no longer than the width.
pub open spec fn value_fits(f: FieldSpec, v: ValueSpec) -> bool {
    value_kind(v) == f.kind && value_len(v) <= f.width
}

pub open spec fn field_valid(f: FieldSpec) -> bool {
    f.width >= 0 && f.scale >= 0
}

pub open spec fn type_char(k: FieldType) -> u8 {
    match k {
        FieldType::Integer32 => TYPE_INT,
        FieldType::Double => TYPE_DOUBLE,
        FieldType::Char => TYPE_CHAR,
        FieldType::Str => TYPE_STR,
        FieldType::Raw => TYPE_RAW,
    }
}

pub open spec fn type_of_char(c: u8) -> Option<FieldType> {
    if c == TYPE_INT {
        Some(FieldType::Integer32)
    } else if c == TYPE_DOUBLE {
        Some(FieldType::Double)
    } else if c == TYPE_CHAR {
        Some(FieldType::Char)
    } else if c == TYPE_STR {
        Some(FieldType::Str)
    } else if c == TYPE_RAW {
        Some(FieldType::Raw)
    } else {
        None
    }
}

pub open spec fn empty_dataset(name: Seq<u8>, return_code: i32) -> DatasetSpec {
    DatasetSpec {
        name,
        return_code,
        fields: Seq::empty(),
        rows: Seq::empty(),
        pending: Seq::empty(),
    }
}

/// The dataset after one more field was declared.
pub open spec fn with_field(d: DatasetSpec, f: FieldSpec) -> DatasetSpec {
    DatasetSpec { fields: d.fields.push(f), ..d }
}

/// The dataset after one more value arrived: it joins the pending row, and a
/// pending row that became as long as the field list is a complete row.
pub open spec fn with_value(d: DatasetSpec, v: ValueSpec) -> DatasetSpec {
    let p = d.pending.push(v);
    if p.len() == d.fields.len() {
        DatasetSpec { rows: d.rows.push(p), pending: Seq::empty(), ..d }
    } else {
        DatasetSpec { pending: p, ..d }
    }
}

/// The effect of one token on a list of datasets. `legacy` selects the
/// single-section layout, in which no dataset can be opened by name.
pub open spec fn step(st: Seq<DatasetSpec>, t: Token, legacy: bool) -> Result<
    Seq<DatasetSpec>,
    CodecError,
> {
    match t {
        Token::Dataset { name, return_code } => {
            if legacy {
                Err(CodecError::Unsupported)
            } else if st.len() > 0 && st.last().pending.len() > 0 {
                Err(CodecError::OrderViolation)
            } else if st.len() >= MAX_COUNT {
                Err(CodecError::TooLong)
            } else {
                Ok(st.push(empty_dataset(name, return_code)))
            }
        },
        Token::Field(f) => {
            if !field_valid(f) {
                Err(CodecError::InvalidField)
            } else if st.len() == 0 {
                Ok(seq![with_field(empty_dataset(Seq::empty(), 0), f)])
            } else if st.last().rows.len() > 0 || st.last().pending.len() > 0 {
                Err(CodecError::OrderViolation)
            } else if st.last().fields.len() >= MAX_COUNT {
                Err(CodecError::TooLong)
            } else {
                Ok(st.drop_last().push(with_field(st.last(), f)))
            }
        },
        Token::Value(v) => {
            if st.len() == 0 || st.last().fields.len() <= st.last().pending.len() {
                Err(CodecError::OrderViolation)
            } else {
                let f = st.last().fields[st.last().pending.len() as int];
                if value_kind(v) != f.kind {
                    Err(CodecError::TypeMismatch)
                } else if value_len(v) > f.width {
                    Err(CodecError::ValueTooWide)
                } else if st.last().rows.len() >= MAX_COUNT {
                    Err(CodecError::TooLong)
                } else {
                    Ok(st.drop_last().push(with_value(st.last(), v)))
                }
            }
        },
        Token::ReturnCode(rc) => {
            if st.len() == 0 {
                Ok(seq![empty_dataset(Seq::empty(), rc)])
            } else {
                Ok(st.drop_last().push(DatasetSpec { return_code: rc, ..st.last() }))
            }
        },
    }
}

/// Every row of the dataset is complete and typed as its fields declare, and
/// the pending row is a proper prefix of a row.
pub open spec fn dataset_wf(d: DatasetSpec) -> bool {
    &&& d.fields.len() <= MAX_COUNT
    &&& d.rows.len() <= MAX_COUNT
    &&& forall|c: int| 0 <= c < d.fields.len() ==> field_valid(#[trigger] d.fields[c])
    &&& forall|r: int|
        0 <= r < d.rows.len() ==> (#[trigger] d.rows[r]).len() == d.fields.len()
    &&& forall|r: int, c: int|
        0 <= r < d.rows.len() && 0 <= c < d.fields.len() ==> value_fits(
            d.fields[c],
            #[trigger] d.rows[r][c],
        )
    &&& d.pending.len() == 0 || d.pending.len() < d.fields.len()
    &&& forall|c: int|
        0 <= c < d.pending.len() ==> value_fits(d.fields[c], #[trigger] d.pending[c])
}

/// Every dataset is well formed, and only the last can have a pending row.
pub open spec fn record_wf(st: Seq<DatasetSpec>) -> bool {
    &&& st.len() <= MAX_COUNT
    &&& forall|i: int| 0 <= i < st.len() ==> dataset_wf(#[trigger] st[i])
    &&& forall|i: int| 0 <= i < st.len() - 1 ==> (#[trigger] st[i]).pending.len() == 0
}

/// A token whose lengths fit the 32-bit length prefixes of the grammar.
pub open spec fn token_encodable(t: Token) -> bool {
    match t {
        Token::Dataset { name, return_code } => name.len() <= u32::MAX,
        Token::Field(f) => f.name.len() <= u32::MAX,
        Token::Value(v) => value_len(v) <= u32::MAX,
        Token::ReturnCode(_) => true,
    }
}

/// Number of bytes that a token takes.
pub open spec fn token_len(t: Token) -> int {
    match t {
        Token::Dataset { name, return_code } => 9 + name.len() as int,
        Token::Field(f) => 14 + f.name.len() as int,
        Token::Value(ValueSpec::Int(_)) => 5,
        Token::Value(ValueSpec::Double(_)) => 9,
        Token::Value(ValueSpec::Char(_)) => 2,
        Token::Value(ValueSpec::Str(b)) => 5 + b.len() as int,
        Token::Value(ValueSpec::Raw(b)) => 5 + b.len() as int,
        Token::ReturnCode(_) => 5,
    }
}

/// The field that the next value is meant for, if one is pending.
pub open spec fn pending_field(st: Seq<DatasetSpec>) -> Option<FieldSpec> {
    if st.len() > 0 && st.last().pending.len() < st.last().fields.len() {
        Some(st.last().fields[st.last().pending.len() as int])
    } else {
        None
    }
}

/// A string or raw value as it is stored: cut to the declared width of the
/// pending field where that field has the value's type and the value is
/// longer; as it is otherwise.
pub open spec fn clip(st: Seq<DatasetSpec>, kind: FieldType, bytes: Seq<u8>) -> Seq<u8> {
    match pending_field(st) {
        Some(f) => if f.kind == kind && 0 <= f.width < bytes.len() {
            bytes.take(f.width as int)
        } else {
            bytes
        },
        None => bytes,
    }
}

/// The negative status that stands for a refusal.
pub open spec fn error_code(e: CodecError) -> i32 {
    match e {
        CodecError::Truncated => -1i32,
        CodecError::Malformed => -2i32,
        CodecError::BadVersion => -3i32,
        CodecError::UnknownFieldType => -4i32,
        CodecError::InvalidField => -5i32,
        CodecError::OrderViolation => -6i32,
        CodecError::TypeMismatch => -7i32,
        CodecError::ValueTooWide => -8i32,
        CodecError::Unsupported => -9i32,
        CodecError::TooLong => -10i32,
        CodecError::DatasetNotFound => -11i32,
        CodecError::ColumnNotFound => -12i32,
        CodecError::EndOfData => -13i32,
        CodecError::InvalidText => -14i32,
    }
}

impl CodecError {
    /// The negative status that stands for this refusal.
    pub fn code(self) -> (c: i32)
        ensures
            c == error_code(self),
            c < 0,
    {
        match self {
            CodecError::Truncated => -1,
            CodecError::Malformed => -2,
            CodecError::BadVersion => -3,
            CodecError::UnknownFieldType => -4,
            CodecError::InvalidField => -5,
            CodecError::OrderViolation => -6,
            CodecError::TypeMismatch => -7,
            CodecError::ValueTooWide => -8,
            CodecError::Unsupported => -9,
            CodecError::TooLong => -10,
            CodecError::DatasetNotFound => -11,
            CodecError::ColumnNotFound => -12,
            CodecError::EndOfData => -13,
            CodecError::InvalidText => -14,
        }
    }

    /// The refusal that a negative status stands for, if any.
    pub fn from_code(c: i32) -> (r: Option<CodecError>)
        ensures
            match r {
                Some(e) => error_code(e) == c,
                None => forall|e: CodecError| error_code(e) != c,
            },
    {
        if c == -1 {
            Some(CodecError::Truncated)
        } else if c == -2 {
            Some(CodecError::Malformed)
        } else if c == -3 {
            Some(CodecError::BadVersion)
        } else if c == -4 {
            Some(CodecError::UnknownFieldType)
        } else if c == -5 {
            Some(CodecError::InvalidField)
        } else if c == -6 {
            Some(CodecError::OrderViolation)
        } else if c == -7 {
            Some(CodecError::TypeMismatch)
        } else if c == -8 {
            Some(CodecError::ValueTooWide)
        } else if c == -9 {
            Some(CodecError::Unsupported)
        } else if c == -10 {
            Some(CodecError::TooLong)
        } else if c == -11 {
            Some(CodecError::DatasetNotFound)
        } else if c == -12 {
            Some(CodecError::ColumnNotFound)
        } else if c == -13 {
            Some(CodecError::EndOfData)
        } else if c == -14 {
            Some(CodecError::InvalidText)
        } else {
            None
        }
    }
}

pub open spec fn encode_i32(x: i32) -> Seq<u8> {
    spec_u32_to_le_bytes(x as u32)
}

pub open spec fn decode_i32(b: Seq<u8>) -> i32 {
    spec_u32_from_le_bytes(b) as i32
}

/// A byte string behind its length, a little-endian `u32`.
pub open spec fn encode_bytes(b: Seq<u8>) -> Seq<u8> {
    spec_u32_to_le_bytes(b.len() as u32) + b
}

/// The bytes of one token.
pub open spec fn encode_token(t: Token) -> Seq<u8> {
    match t {
        Token::Dataset { name, return_code } => seq![TAG_DATASET] + encode_bytes(name)
            + encode_i32(return_code),
        Token::Field(f) => seq![TAG_FIELD] + encode_bytes(f.name) + seq![type_char(f.kind)]
            + encode_i32(f.width) + encode_i32(f.scale),
        Token::Value(ValueSpec::Int(x)) => seq![TYPE_INT] + encode_i32(x),
        Token::Value(ValueSpec::Double(x)) => seq![TYPE_DOUBLE] + spec_u64_to_le_bytes(x),
        Token::Value(ValueSpec::Char(c)) => seq![TYPE_CHAR, c],
        Token::Value(ValueSpec::Str(b)) => seq![TYPE_STR] + encode_bytes(b),
        Token::Value(ValueSpec::Raw(b)) => seq![TYPE_RAW] + encode_bytes(b),
        Token::ReturnCode(rc) => seq![TAG_RETURN_CODE] + encode_i32(rc),
    }
}

/// Length prefix found at offset 1 of a token.
pub open spec fn prefix_len(s: Seq<u8>) -> int {
    spec_u32_from_le_bytes(s.subrange(1, 5)) as int
}

/// Reads the token at the front of `s`, which is not empty.
pub open spec fn scan(s: Seq<u8>) -> Scan {
    let tag = s[0];
    if tag == TAG_DATASET {
        if s.len() < 5 || s.len() < 9 + prefix_len(s) {
            Scan::Fail(CodecError::Truncated)
        } else {
            let n = prefix_len(s);
            Scan::Tok(
                Token::Dataset {
                    name: s.subrange(5, 5 + n),
                    return_code: decode_i32(s.subrange(5 + n, 9 + n)),
                },
                9 + n,
            )
        }
    } else if tag == TAG_FIELD {
        if s.len() < 5 || s.len() < 14 + prefix_len(s) {
            Scan::Fail(CodecError::Truncated)
        } else {
            let n = prefix_len(s);
            match type_of_char(s[5 + n]) {
                None => Scan::Fail(CodecError::UnknownFieldType),
                Some(kind) => Scan::Tok(
                    Token::Field(
                        FieldSpec {
                            name: s.subrange(5, 5 + n),
                            kind,
                            width: decode_i32(s.subrange(6 + n, 10 + n)),
                            scale: decode_i32(s.subrange(10 + n, 14 + n)),
                        },
                    ),
                    14 + n,
                ),
            }
        }
    } else if tag == TYPE_INT {
        if s.len() < 5 {
            Scan::Fail(CodecError::Truncated)
        } else {
            Scan::Tok(Token::Value(ValueSpec::Int(decode_i32(s.subrange(1, 5)))), 5)
        }
    } else if tag == TYPE_DOUBLE {
        if s.len() < 9 {
            Scan::Fail(CodecError::Truncated)
        } else {
            Scan::Tok(
                Token::Value(ValueSpec::Double(spec_u64_from_le_bytes(s.subrange(1, 9)))),
                9,
            )
        }
    } else if tag == TYPE_CHAR {
        if s.len() < 2 {
            Scan::Fail(CodecError::Truncated)
        } else {
            Scan::Tok(Token::Value(ValueSpec::Char(s[1])), 2)
        }
    } else if tag == TYPE_STR {
        if s.len() < 5 || s.len() < 5 + prefix_len(s) {
            Scan::Fail(CodecError::Truncated)
        } else {
            Scan::Tok(Token::Value(ValueSpec::Str(s.subrange(5, 5 + prefix_len(s)))), 5 + prefix_len(s))
        }
    } else if tag == TYPE_RAW {
        if s.len() < 5 || s.len() < 5 + prefix_len(s) {
            Scan::Fail(CodecError::Truncated)
        } else {
            Scan::Tok(Token::Value(ValueSpec::Raw(s.subrange(5, 5 + prefix_len(s)))), 5 + prefix_len(s))
        }
    } else if tag == TAG_RETURN_CODE {
        if s.len() < 5 {
            Scan::Fail(CodecError::Truncated)
        } else {
            Scan::Tok(Token::ReturnCode(decode_i32(s.subrange(1, 5))), 5)
        }
    } else {
        Scan::Fail(CodecError::Malformed)
    }
}

/// The datasets that a body stands for: its tokens replayed in order from
/// the state `st`, or the first refusal met on the way.
pub open spec fn replay(s: Seq<u8>, st: Seq<DatasetSpec>, legacy: bool) -> Result<
    Seq<DatasetSpec>,
    CodecError,
>
    decreases s.len(),
{
    if s.len() == 0 {
        Ok(st)
    } else {
        match scan(s) {
            Scan::Fail(e) => Err(e),
            Scan::Tok(t, n) => match step(st, t, legacy) {
                Err(e) => Err(e),
                Ok(next) => if 0 < n <= s.len() {
                    replay(s.skip(n), next, legacy)
                } else {
                    Err(CodecError::Malformed)
                },
            },
        }
    }
}

pub open spec fn version_known(v: u8) -> bool {
    v == 1 || v == 0x20
}

/// The version and the datasets that a packed record stands for.
pub open spec fn decode(buf: Seq<u8>) -> Result<(u8, Seq<DatasetSpec>), CodecError> {
    if buf.len() > MAX_PACK_LEN {
        Err(CodecError::TooLong)
    } else if buf.len() < 5 {
        Err(CodecError::Truncated)
    } else if !version_known(buf[0]) {
        Err(CodecError::BadVersion)
    } else if buf.len() < 5 + prefix_len(buf) {
        Err(CodecError::Truncated)
    } else if buf.len() > 5 + prefix_len(buf) {
        Err(CodecError::Malformed)
    } else {
        match replay(buf.skip(5), Seq::empty(), buf[0] == 1) {
            Err(e) => Err(e),
            Ok(st) => Ok((buf[0], st)),
        }
    }
}

/// The header that announces a body of the given length.
pub open spec fn header(version: u8, body_len: int) -> Seq<u8> {
    seq![version] + spec_u32_to_le_bytes(body_len as u32)
}

} // verus!
