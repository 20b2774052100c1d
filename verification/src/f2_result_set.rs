//! The record model in executable form: fields, values and datasets, the
//! effect of one token on a list of datasets, and the reading and writing of
//! single tokens.
use vstd::prelude::*;
use vstd::bytes::{u32_from_le_bytes, u32_to_le_bytes, u64_from_le_bytes, u64_to_le_bytes};
use vstd::bytes::{spec_u32_from_le_bytes, spec_u32_to_le_bytes};
use vstd::slice::{slice_subrange, slice_to_vec};
use crate::f2_record::{
    decode, decode_i32, encode_bytes, encode_i32, encode_token, record_wf, replay, scan, step,
    token_encodable, token_len, type_char, type_of_char, value_kind, value_len, CodecError,
    DatasetSpec, FieldSpec, FieldType, Scan, Token, ValueSpec, MAX_COUNT, MAX_PACK_LEN,
    TAG_DATASET, TAG_FIELD, TAG_RETURN_CODE, TYPE_CHAR, TYPE_DOUBLE, TYPE_INT, TYPE_RAW,
    TYPE_STR,
};
use crate::f2_laws::lemma_step_wf;

verus! {

/// A column descriptor.
#[derive(Debug)]
pub struct Field {
    pub name: Vec<u8>,
    pub kind: FieldType,
    pub width: i32,
    pub scale: i32,
}

/// A typed value. A double is held as its 64 bits.
#[derive(Debug)]
pub enum Value {
    Int(i32),
    Double(u64),
    Char(u8),
    Str(Vec<u8>),
    Raw(Vec<u8>),
}

/// A named table: its fields, its complete rows and the row being filled.
#[derive(Debug)]
pub struct Dataset {
    pub name: Vec<u8>,
    pub return_code: i32,
    pub fields: Vec<Field>,
    pub rows: Vec<Vec<Value>>,
    pub pending: Vec<Value>,
}

/// One token of a record body, in executable form.
#[derive(Debug)]
pub enum Item {
    Dataset { name: Vec<u8>, return_code: i32 },
    Field(Field),
    Value(Value),
    ReturnCode(i32),
}

impl View for Field {
    type V = FieldSpec;

    open spec fn view(&self) -> FieldSpec {
        FieldSpec { name: self.name@, kind: self.kind, width: self.width, scale: self.scale }
    }
}

impl View for Value {
    type V = ValueSpec;

    open spec fn view(&self) -> ValueSpec {
        match *self {
            Value::Int(x) => ValueSpec::Int(x),
            Value::Double(x) => ValueSpec::Double(x),
            Value::Char(c) => ValueSpec::Char(c),
            Value::Str(b) => ValueSpec::Str(b@),
            Value::Raw(b) => ValueSpec::Raw(b@),
        }
    }
}

pub open spec fn fields_view(v: Seq<Field>) -> Seq<FieldSpec> {
    Seq::new(v.len(), |i: int| v[i]@)
}

pub open spec fn values_view(v: Seq<Value>) -> Seq<ValueSpec> {
    Seq::new(v.len(), |i: int| v[i]@)
}

pub open spec fn rows_view(v: Seq<Vec<Value>>) -> Seq<Seq<ValueSpec>> {
    Seq::new(v.len(), |i: int| values_view(v[i]@))
}

impl View for Dataset {
    type V = DatasetSpec;

    open spec fn view(&self) -> DatasetSpec {
        DatasetSpec {
            name: self.name@,
            return_code: self.return_code,
            fields: fields_view(self.fields@),
            rows: rows_view(self.rows@),
            pending: values_view(self.pending@),
        }
    }
}

pub open spec fn datasets_view(v: Seq<Dataset>) -> Seq<DatasetSpec> {
    Seq::new(v.len(), |i: int| v[i]@)
}

impl View for Item {
    type V = Token;

    open spec fn view(&self) -> Token {
        match *self {
            Item::Dataset { name, return_code } => Token::Dataset { name: name@, return_code },
            Item::Field(f) => Token::Field(f@),
            Item::Value(v) => Token::Value(v@),
            Item::ReturnCode(rc) => Token::ReturnCode(rc),
        }
    }
}

impl FieldType {
    /// The type character of the tag: one of `I D C S R`.
    pub fn to_char(self) -> (c: u8)
        ensures
            c == type_char(self),
    {
        match self {
            FieldType::Integer32 => TYPE_INT,
            FieldType::Double => TYPE_DOUBLE,
            FieldType::Char => TYPE_CHAR,
            FieldType::Str => TYPE_STR,
            FieldType::Raw => TYPE_RAW,
        }
    }

    /// The tag that a type character names, if any.
    pub fn from_char(c: u8) -> (r: Option<FieldType>)
        ensures
            r == type_of_char(c),
    {
        if c == TYPE_INT {
            Some(FieldType::Integer32)
        } else if c == TYPE_DOUBLE {
            Some(FieldType::Double)
        } else if c == TYPE_CHAR {
            Some(FieldType::Char)
        } else if c == TYPE_STR {
            Some(FieldType::Str)
        } else if c == TYPE_RAW {
            Some(FieldType::Raw)
        } else {
            None
        }
    }
}

impl Value {
    /// The type tag of the value.
    pub fn kind(&self) -> (k: FieldType)
        ensures
            k == value_kind(self@),
    {
        match self {
            Value::Int(_) => FieldType::Integer32,
            Value::Double(_) => FieldType::Double,
            Value::Char(_) => FieldType::Char,
            Value::Str(_) => FieldType::Str,
            Value::Raw(_) => FieldType::Raw,
        }
    }

    /// Length in bytes of a string or raw value; zero for the other types.
    pub fn byte_len(&self) -> (n: usize)
        ensures
            n == value_len(self@),
    {
        match self {
            Value::Str(b) => b.len(),
            Value::Raw(b) => b.len(),
            _ => 0,
        }
    }
}

/// Applies one token to a list of datasets, as `step` prescribes. A refused
/// token leaves the list as it was.
pub fn apply(sets: &mut Vec<Dataset>, item: Item, legacy: bool) -> (r: Result<(), CodecError>)
    requires
        record_wf(datasets_view(old(sets)@)),
    ensures
        match step(datasets_view(old(sets)@), item@, legacy) {
            Ok(next) => r is Ok && datasets_view(final(sets)@) == next,
            Err(e) => r == Err::<(), CodecError>(e) && *final(sets) == *old(sets),
        },
        record_wf(datasets_view(final(sets)@)),
{
    let ghost before = datasets_view(sets@);
    let ghost token = item@;
    proof {
        if step(before, token, legacy) is Ok {
            lemma_step_wf(before, token, legacy);
        }
    }
    let n: usize = sets.len();
    match item {
        Item::Dataset { name, return_code } => {
            if legacy {
                return Err(CodecError::Unsupported);
            }
            if n > 0 && sets[n - 1].pending.len() > 0 {
                return Err(CodecError::OrderViolation);
            }
            if n >= MAX_COUNT {
                return Err(CodecError::TooLong);
            }
            let d = Dataset {
                name,
                return_code,
                fields: Vec::new(),
                rows: Vec::new(),
                pending: Vec::new(),
            };
            sets.push(d);
            assert(datasets_view(sets@) =~= step(before, token, legacy)->Ok_0) by {
                assert(d@.fields =~= Seq::empty());
                assert(d@.rows =~= Seq::empty());
                assert(d@.pending =~= Seq::empty());
            }
            Ok(())
        },
        Item::Field(f) => {
            if f.width < 0 || f.scale < 0 {
                return Err(CodecError::InvalidField);
            }
            if n == 0 {
                let mut fields: Vec<Field> = Vec::new();
                fields.push(f);
                let d = Dataset {
                    name: Vec::new(),
                    return_code: 0,
                    fields,
                    rows: Vec::new(),
                    pending: Vec::new(),
                };
                sets.push(d);
                assert(datasets_view(sets@) =~= step(before, token, legacy)->Ok_0) by {
                    assert(d@.fields =~= Seq::<FieldSpec>::empty().push(f@));
                    assert(d@.rows =~= Seq::empty());
                    assert(d@.pending =~= Seq::empty());
                    assert(d@.name =~= Seq::empty());
                }
                return Ok(());
            }
            if sets[n - 1].rows.len() > 0 || sets[n - 1].pending.len() > 0 {
                return Err(CodecError::OrderViolation);
            }
            if sets[n - 1].fields.len() >= MAX_COUNT {
                return Err(CodecError::TooLong);
            }
            let last = sets.pop().unwrap();
            let Dataset { name, return_code, mut fields, rows, pending } = last;
            fields.push(f);
            let d = Dataset { name, return_code, fields, rows, pending };
            sets.push(d);
            assert(datasets_view(sets@) =~= step(before, token, legacy)->Ok_0) by {
                assert(d@.fields =~= last@.fields.push(f@));
                assert(last@ == before.last());
            }
            Ok(())
        },
        Item::Value(v) => {
            if n == 0 || sets[n - 1].fields.len() <= sets[n - 1].pending.len() {
                return Err(CodecError::OrderViolation);
            }
            let at: usize = sets[n - 1].pending.len();
            assert(before.last() == sets@[n - 1]@);
            assert(before.last().fields[at as int] == sets@[n - 1].fields@[at as int]@);
            if v.kind() != sets[n - 1].fields[at].kind {
                return Err(CodecError::TypeMismatch);
            }
            let width: i32 = sets[n - 1].fields[at].width;
            if width < 0 || v.byte_len() > width as usize {
                return Err(CodecError::ValueTooWide);
            }
            if sets[n - 1].rows.len() >= MAX_COUNT {
                return Err(CodecError::TooLong);
            }
            let last = sets.pop().unwrap();
            let Dataset { name, return_code, fields, mut rows, mut pending } = last;
            pending.push(v);
            let ghost row = values_view(pending@);
            assert(row =~= last@.pending.push(v@));
            if pending.len() == fields.len() {
                rows.push(pending);
                let d = Dataset { name, return_code, fields, rows, pending: Vec::new() };
                sets.push(d);
                assert(datasets_view(sets@) =~= step(before, token, legacy)->Ok_0) by {
                    assert(d@.rows =~= last@.rows.push(row));
                    assert(d@.pending =~= Seq::empty());
                }
            } else {
                let d = Dataset { name, return_code, fields, rows, pending };
                sets.push(d);
                assert(datasets_view(sets@) =~= step(before, token, legacy)->Ok_0);
            }
            Ok(())
        },
        Item::ReturnCode(rc) => {
            if n == 0 {
                let d = Dataset {
                    name: Vec::new(),
                    return_code: rc,
                    fields: Vec::new(),
                    rows: Vec::new(),
                    pending: Vec::new(),
                };
                sets.push(d);
                assert(datasets_view(sets@) =~= step(before, token, legacy)->Ok_0) by {
                    assert(d@.fields =~= Seq::empty());
                    assert(d@.rows =~= Seq::empty());
                    assert(d@.pending =~= Seq::empty());
                    assert(d@.name =~= Seq::empty());
                }
                return Ok(());
            }
            let last = sets.pop().unwrap();
            let Dataset { name, return_code: _, fields, rows, pending } = last;
            let d = Dataset { name, return_code: rc, fields, rows, pending };
            sets.push(d);
            assert(datasets_view(sets@) =~= step(before, token, legacy)->Ok_0) by {
                assert(last@ == before.last());
            }
            Ok(())
        },
    }
}

/// Appends a copy of `b` to `out`.
pub fn put_bytes(out: &mut Vec<u8>, b: &[u8])
    ensures
        final(out)@ == old(out)@ + b@,
{
    let mut copy = slice_to_vec(b);
    out.append(&mut copy);
}

/// Appends the four bytes of `x`, least significant first.
pub fn put_u32(out: &mut Vec<u8>, x: u32)
    ensures
        final(out)@ == old(out)@ + spec_u32_to_le_bytes(x),
{
    let mut b = u32_to_le_bytes(x);
    out.append(&mut b);
}

/// Appends the four bytes of the 32-bit pattern of `x`.
pub fn put_i32(out: &mut Vec<u8>, x: i32)
    ensures
        final(out)@ == old(out)@ + encode_i32(x),
{
    put_u32(out, #[verifier::truncate] (x as u32));
}

/// Appends a byte string behind its length.
pub fn put_prefixed(out: &mut Vec<u8>, b: &[u8])
    requires
        b@.len() <= u32::MAX,
    ensures
        final(out)@ == old(out)@ + encode_bytes(b@),
{
    put_u32(out, b.len() as u32);
    put_bytes(out, b);
    assert(out@ =~= old(out)@ + encode_bytes(b@));
}

/// Appends the bytes of one token.
pub fn encode_item(item: &Item, out: &mut Vec<u8>)
    requires
        token_encodable(item@),
    ensures
        final(out)@ == old(out)@ + encode_token(item@),
{
    match item {
        Item::Dataset { name, return_code } => {
            out.push(TAG_DATASET);
            put_prefixed(out, name.as_slice());
            put_i32(out, *return_code);
        },
        Item::Field(f) => {
            out.push(TAG_FIELD);
            put_prefixed(out, f.name.as_slice());
            out.push(f.kind.to_char());
            put_i32(out, f.width);
            put_i32(out, f.scale);
        },
        Item::Value(Value::Int(x)) => {
            out.push(TYPE_INT);
            put_i32(out, *x);
        },
        Item::Value(Value::Double(x)) => {
            out.push(TYPE_DOUBLE);
            let mut b = u64_to_le_bytes(*x);
            out.append(&mut b);
        },
        Item::Value(Value::Char(c)) => {
            out.push(TYPE_CHAR);
            out.push(*c);
        },
        Item::Value(Value::Str(b)) => {
            out.push(TYPE_STR);
            put_prefixed(out, b.as_slice());
        },
        Item::Value(Value::Raw(b)) => {
            out.push(TYPE_RAW);
            put_prefixed(out, b.as_slice());
        },
        Item::ReturnCode(rc) => {
            out.push(TAG_RETURN_CODE);
            put_i32(out, *rc);
        },
    }
    assert(out@ =~= old(out)@ + encode_token(item@));
}

/// Reads the four bytes at `at` as a `u32`, least significant first.
pub fn read_u32(s: &[u8], at: usize) -> (x: u32)
    requires
        at + 4 <= s@.len(),
    ensures
        x == spec_u32_from_le_bytes(s@.subrange(at as int, at + 4)),
{
    let len: usize = s.len();
    assert(at + 4 <= len);
    u32_from_le_bytes(slice_subrange(s, at, at + 4))
}

/// Reads the four bytes at `at` as the 32-bit pattern of an `i32`.
pub fn read_i32(s: &[u8], at: usize) -> (x: i32)
    requires
        at + 4 <= s@.len(),
    ensures
        x == decode_i32(s@.subrange(at as int, at + 4)),
{
    #[verifier::truncate]
    (read_u32(s, at) as i32)
}

/// Reads the token that starts at `pos`, and says where the next one starts.
pub fn scan_item(s: &[u8], pos: usize) -> (r: Result<(Item, usize), CodecError>)
    requires
        pos < s@.len(),
    ensures
        match scan(s@.skip(pos as int)) {
            Scan::Tok(t, n) => r is Ok && r->Ok_0.0@ == t && r->Ok_0.1 == pos + n && 0 < n
                && pos + n <= s@.len(),
            Scan::Fail(e) => r == Err::<(Item, usize), CodecError>(e),
        },
{
    let ghost rest = s@.skip(pos as int);
    let rem: usize = s.len() - pos;
    let tag: u8 = s[pos];
    assert(rest[0] == tag);
    assert(rest.len() == rem);
    if rem >= 5 {
        assert(rest.subrange(1, 5) =~= s@.subrange(pos + 1, pos + 5));
    }
    if tag == TAG_DATASET {
        if rem < 9 {
            return Err(CodecError::Truncated);
        }
        let n: usize = read_u32(s, pos + 1) as usize;
        if rem - 9 < n {
            return Err(CodecError::Truncated);
        }
        let name = slice_to_vec(slice_subrange(s, pos + 5, pos + 5 + n));
        let return_code: i32 = read_i32(s, pos + 5 + n);
        assert(rest.subrange(5, 5 + n) =~= s@.subrange(pos + 5, pos + 5 + n));
        assert(rest.subrange(5 + n, 9 + n) =~= s@.subrange(pos + 5 + n, pos + 9 + n));
        Ok((Item::Dataset { name, return_code }, pos + 9 + n))
    } else if tag == TAG_FIELD {
        if rem < 14 {
            return Err(CodecError::Truncated);
        }
        let n: usize = read_u32(s, pos + 1) as usize;
        if rem - 14 < n {
            return Err(CodecError::Truncated);
        }
        assert(rest[5 + n] == s@[pos + 5 + n]);
        let kind = match FieldType::from_char(s[pos + 5 + n]) {
            None => {
                return Err(CodecError::UnknownFieldType);
            },
            Some(k) => k,
        };
        let name = slice_to_vec(slice_subrange(s, pos + 5, pos + 5 + n));
        let width: i32 = read_i32(s, pos + 6 + n);
        let scale: i32 = read_i32(s, pos + 10 + n);
        assert(rest.subrange(5, 5 + n) =~= s@.subrange(pos + 5, pos + 5 + n));
        assert(rest.subrange(6 + n, 10 + n) =~= s@.subrange(pos + 6 + n, pos + 10 + n));
        assert(rest.subrange(10 + n, 14 + n) =~= s@.subrange(pos + 10 + n, pos + 14 + n));
        Ok((Item::Field(Field { name, kind, width, scale }), pos + 14 + n))
    } else if tag == TYPE_INT {
        if rem < 5 {
            return Err(CodecError::Truncated);
        }
        let x: i32 = read_i32(s, pos + 1);
        Ok((Item::Value(Value::Int(x)), pos + 5))
    } else if tag == TYPE_DOUBLE {
        if rem < 9 {
            return Err(CodecError::Truncated);
        }
        let x: u64 = u64_from_le_bytes(slice_subrange(s, pos + 1, pos + 9));
        assert(rest.subrange(1, 9) =~= s@.subrange(pos + 1, pos + 9));
        Ok((Item::Value(Value::Double(x)), pos + 9))
    } else if tag == TYPE_CHAR {
        if rem < 2 {
            return Err(CodecError::Truncated);
        }
        assert(rest[1] == s@[pos + 1]);
        Ok((Item::Value(Value::Char(s[pos + 1])), pos + 2))
    } else if tag == TYPE_STR || tag == TYPE_RAW {
        if rem < 5 {
            return Err(CodecError::Truncated);
        }
        let n: usize = read_u32(s, pos + 1) as usize;
        if rem - 5 < n {
            return Err(CodecError::Truncated);
        }
        let b = slice_to_vec(slice_subrange(s, pos + 5, pos + 5 + n));
        assert(rest.subrange(5, 5 + n) =~= s@.subrange(pos + 5, pos + 5 + n));
        if tag == TYPE_STR {
            Ok((Item::Value(Value::Str(b)), pos + 5 + n))
        } else {
            Ok((Item::Value(Value::Raw(b)), pos + 5 + n))
        }
    } else if tag == TAG_RETURN_CODE {
        if rem < 5 {
            return Err(CodecError::Truncated);
        }
        let rc: i32 = read_i32(s, pos + 1);
        Ok((Item::ReturnCode(rc), pos + 5))
    } else {
        Err(CodecError::Malformed)
    }
}

/// Whether two byte strings are equal.
pub fn bytes_eq(a: &[u8], b: &[u8]) -> (r: bool)
    ensures
        r == (a@ == b@),
{
    if a.len() != b.len() {
        return false;
    }
    let mut i: usize = 0;
    while i < a.len()
        invariant
            i <= a@.len(),
            a@.len() == b@.len(),
            forall|j: int| 0 <= j < i ==> a@[j] == b@[j],
        decreases a@.len() - i,
    {
        if a[i] != b[i] {
            return false;
        }
        i = i + 1;
    }
    assert(a@ =~= b@);
    true
}

/// Number of bytes that the token takes, or `None` where that is more than
/// a packed record can hold.
pub fn item_size(item: &Item) -> (r: Option<usize>)
    ensures
        match r {
            Some(n) => n == token_len(item@) && n <= MAX_PACK_LEN && token_encodable(item@),
            None => token_len(item@) > MAX_PACK_LEN,
        },
{
    let (fixed, payload): (usize, usize) = match item {
        Item::Dataset { name, return_code } => (9, name.len()),
        Item::Field(f) => (14, f.name.len()),
        Item::Value(Value::Int(_)) => (5, 0),
        Item::Value(Value::Double(_)) => (9, 0),
        Item::Value(Value::Char(_)) => (2, 0),
        Item::Value(Value::Str(b)) => (5, b.len()),
        Item::Value(Value::Raw(b)) => (5, b.len()),
        Item::ReturnCode(_) => (5, 0),
    };
    if payload > MAX_PACK_LEN - fixed {
        None
    } else {
        Some(fixed + payload)
    }
}

/// Rebuilds the datasets that a record body stands for.
pub fn parse_body(s: &[u8], legacy: bool) -> (r: Result<Vec<Dataset>, CodecError>)
    ensures
        match replay(s@, Seq::empty(), legacy) {
            Ok(st) => r is Ok && datasets_view(r->Ok_0@) == st && record_wf(st),
            Err(e) => r is Err && r->Err_0 == e,
        },
{
    let mut sets: Vec<Dataset> = Vec::new();
    let mut pos: usize = 0;
    assert(s@.skip(0) =~= s@);
    assert(datasets_view(sets@) =~= Seq::empty());
    while pos < s.len()
        invariant
            pos <= s@.len(),
            record_wf(datasets_view(sets@)),
            replay(s@, Seq::empty(), legacy) == replay(
                s@.skip(pos as int),
                datasets_view(sets@),
                legacy,
            ),
        decreases s@.len() - pos,
    {
        match scan_item(s, pos) {
            Err(e) => {
                return Err(e);
            },
            Ok((item, next)) => {
                match apply(&mut sets, item, legacy) {
                    Err(e) => {
                        return Err(e);
                    },
                    Ok(()) => {
                        assert(s@.skip(pos as int).skip(next - pos) =~= s@.skip(next as int));
                        pos = next;
                    },
                }
            },
        }
    }
    Ok(sets)
}

/// Reads a packed record: its version and the datasets it stands for.
pub fn parse_record(buf: &[u8]) -> (r: Result<(u8, Vec<Dataset>), CodecError>)
    ensures
        match decode(buf@) {
            Ok((version, st)) => r is Ok && r->Ok_0.0 == version && datasets_view(r->Ok_0.1@)
                == st && record_wf(st),
            Err(e) => r is Err && r->Err_0 == e,
        },
{
    let len: usize = buf.len();
    if len > MAX_PACK_LEN {
        return Err(CodecError::TooLong);
    }
    if len < 5 {
        return Err(CodecError::Truncated);
    }
    let version: u8 = buf[0];
    if version != 1 && version != 0x20 {
        return Err(CodecError::BadVersion);
    }
    let n: usize = read_u32(buf, 1) as usize;
    if len - 5 < n {
        return Err(CodecError::Truncated);
    }
    if len - 5 > n {
        return Err(CodecError::Malformed);
    }
    let body = slice_subrange(buf, 5, len);
    assert(body@ =~= buf@.skip(5));
    match parse_body(body, version == 1) {
        Err(e) => Err(e),
        Ok(sets) => Ok((version, sets)),
    }
}

} // verus!
