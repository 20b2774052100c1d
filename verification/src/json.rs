//! Packing a JSON body: the value model that callers hand in, what each
//! entry of an object declares and adds, and the layout of a whole body in
//! datasets.
use vstd::prelude::*;
use vstd::string::*;
use vstd::utf8::encode_utf8;
use crate::text::{gbk_bytes, gbk_encode};
use crate::f2_packer::{accepts, after, refusal, Packer, PackerView};
use crate::f2_record::{
    clip, error_code, CodecError, DatasetSpec, FieldSpec, FieldType, Token, ValueSpec, TYPE_DOUBLE,
    TYPE_INT, TYPE_RAW, TYPE_STR,
};

verus! {

/// A JSON value. A number keeps the form it was written in: an integer
/// that fits `i64`, a larger one that fits `u64`, or a double, held as its
/// 64 bits.
#[derive(Debug)]
pub enum JsonValue {
    Null,
    Bool(bool),
    Int(i64),
    UInt(u64),
    Float(u64),
    Str(String),
    Array(Vec<JsonValue>),
    Object(Vec<(String, JsonValue)>),
}

/// One thing that packing asks of the packer.
pub enum PackOp {
    /// Declare a field.
    Field(FieldSpec),
    /// Add an integer.
    Int(i32),
    /// Add a double, given as its bits.
    Double(u64),
    /// Add a string, cut to the pending field's width.
    Str(Seq<u8>),
    /// Add raw bytes, cut to the pending field's width.
    Raw(Seq<u8>),
    /// Open a dataset.
    Dataset(Seq<u8>),
}

pub open spec fn is_number(v: JsonValue) -> bool {
    v is Int || v is UInt || v is Float
}

pub open spec fn all_numbers(a: Seq<JsonValue>) -> bool {
    forall|i: int| 0 <= i < a.len() ==> is_number(#[trigger] a[i])
}

/// The bytes that an array of numbers stands for: the low byte of each
/// element that is a non-negative integer; other elements are passed over.
pub open spec fn low_bytes(a: Seq<JsonValue>) -> Seq<u8>
    decreases a.len(),
{
    if a.len() == 0 {
        Seq::empty()
    } else {
        let rest = low_bytes(a.drop_last());
        match a.last() {
            JsonValue::Int(x) => if x >= 0 {
                rest.push(x as u8)
            } else {
                rest
            },
            JsonValue::UInt(x) => rest.push(x as u8),
            _ => rest,
        }
    }
}

/// A field of the given name and type, or a refusal where the width does
/// not fit 31 bits.
pub open spec fn field_or_refuse(name: Seq<u8>, kind: FieldType, width: int) -> Result<
    PackOp,
    CodecError,
> {
    if width > i32::MAX {
        Err(CodecError::TooLong)
    } else {
        Ok(PackOp::Field(FieldSpec { name, kind, width: width as i32, scale: 4 }))
    }
}

/// The field that an entry declares, if it declares one. With encoding 0
/// a string is carried as raw GBK bytes; otherwise as a string of its
/// UTF-8 bytes. Each is as wide as its bytes. A number is an integer or a
/// double field of width 4; an array of numbers a raw field as wide as the
/// array is long. Other entries declare nothing.
pub open spec fn field_op(key: Seq<char>, value: JsonValue, encoding: i8) -> Option<
    Result<PackOp, CodecError>,
> {
    let name = encode_utf8(key);
    match value {
        JsonValue::Str(s) => if encoding == 0 {
            match gbk_bytes(s@) {
                Some(b) => Some(field_or_refuse(name, FieldType::Raw, b.len() as int)),
                None => Some(Err(CodecError::InvalidText)),
            }
        } else {
            Some(field_or_refuse(name, FieldType::Str, encode_utf8(s@).len() as int))
        },
        JsonValue::Int(_) => Some(field_or_refuse(name, FieldType::Integer32, 4)),
        JsonValue::UInt(_) => Some(field_or_refuse(name, FieldType::Integer32, 4)),
        JsonValue::Float(_) => Some(field_or_refuse(name, FieldType::Double, 4)),
        JsonValue::Array(a) => if all_numbers(a@) {
            Some(field_or_refuse(name, FieldType::Raw, a@.len() as int))
        } else {
            None
        },
        _ => None,
    }
}

/// The value that an entry adds, if it adds one: what its field was
/// declared for. An integer is cut to its low 32 bits.
pub open spec fn value_op(value: JsonValue, encoding: i8) -> Option<Result<PackOp, CodecError>> {
    match value {
        JsonValue::Str(s) => if encoding == 0 {
            match gbk_bytes(s@) {
                Some(b) => Some(Ok(PackOp::Raw(b))),
                None => Some(Err(CodecError::InvalidText)),
            }
        } else {
            Some(Ok(PackOp::Str(encode_utf8(s@))))
        },
        JsonValue::Int(x) => Some(Ok(PackOp::Int(x as i32))),
        JsonValue::UInt(x) => Some(Ok(PackOp::Int(x as i32))),
        JsonValue::Float(b) => Some(Ok(PackOp::Double(b))),
        JsonValue::Array(a) => if all_numbers(a@) {
            Some(Ok(PackOp::Raw(low_bytes(a@))))
        } else {
            None
        },
        _ => None,
    }
}

/// The token that an operation writes, given the datasets so far.
pub open spec fn op_token(st: Seq<DatasetSpec>, op: PackOp) -> Token {
    match op {
        PackOp::Field(f) => Token::Field(f),
        PackOp::Int(x) => Token::Value(ValueSpec::Int(x)),
        PackOp::Double(b) => Token::Value(ValueSpec::Double(b)),
        PackOp::Str(b) => Token::Value(ValueSpec::Str(clip(st, FieldType::Str, b))),
        PackOp::Raw(b) => Token::Value(ValueSpec::Raw(clip(st, FieldType::Raw, b))),
        PackOp::Dataset(name) => Token::Dataset { name, return_code: 0 },
    }
}

/// The packer after an operation, and the refusal if there was one. A
/// refused operation leaves the packer as it was.
pub open spec fn run_op(v: PackerView, op: Option<Result<PackOp, CodecError>>) -> (
    PackerView,
    Option<CodecError>,
) {
    match op {
        None => (v, None),
        Some(Err(e)) => (v, Some(e)),
        Some(Ok(op)) => {
            let t = op_token(v.datasets, op);
            if accepts(v, t) {
                (after(v, t), None)
            } else {
                (v, Some(refusal(v, t)))
            }
        },
    }
}

/// The packer after the fields of the entries were declared in order, up
/// to the first refusal.
pub open spec fn run_fields(v: PackerView, obj: Seq<(String, JsonValue)>, encoding: i8) -> (
    PackerView,
    Option<CodecError>,
)
    decreases obj.len(),
{
    if obj.len() == 0 {
        (v, None)
    } else {
        let (next, e) = run_op(v, field_op(obj[0].0@, obj[0].1, encoding));
        if e is Some {
            (next, e)
        } else {
            run_fields(next, obj.skip(1), encoding)
        }
    }
}

/// The packer after the values of the entries were added in order, up to
/// the first refusal.
pub open spec fn run_values(v: PackerView, obj: Seq<(String, JsonValue)>, encoding: i8) -> (
    PackerView,
    Option<CodecError>,
)
    decreases obj.len(),
{
    if obj.len() == 0 {
        (v, None)
    } else {
        let (next, e) = run_op(v, value_op(obj[0].1, encoding));
        if e is Some {
            (next, e)
        } else {
            run_values(next, obj.skip(1), encoding)
        }
    }
}

/// The packer after an object was packed as one row: first every field,
/// then every value, up to the first refusal.
pub open spec fn run_object(v: PackerView, obj: Seq<(String, JsonValue)>, encoding: i8) -> (
    PackerView,
    Option<CodecError>,
) {
    let (next, e) = run_fields(v, obj, encoding);
    if e is Some {
        (next, e)
    } else {
        run_values(next, obj, encoding)
    }
}

/// An object is simple where none of its values is an object.
pub open spec fn is_simple(obj: Seq<(String, JsonValue)>) -> bool {
    forall|i: int| 0 <= i < obj.len() ==> !((#[trigger] obj[i]).1 is Object)
}

/// The packer after each entry that is an object was packed as a dataset
/// under the entry's key; other entries are passed over.
pub open spec fn run_sections(v: PackerView, obj: Seq<(String, JsonValue)>) -> (
    PackerView,
    Option<CodecError>,
)
    decreases obj.len(),
{
    if obj.len() == 0 {
        (v, None)
    } else {
        match obj[0].1 {
            JsonValue::Object(nested) => {
                let (opened, e) = run_op(v, Some(Ok(PackOp::Dataset(encode_utf8(obj[0].0@)))));
                if e is Some {
                    (opened, e)
                } else {
                    let (packed, e) = run_object(opened, nested@, 0);
                    if e is Some {
                        (packed, e)
                    } else {
                        run_sections(packed, obj.skip(1))
                    }
                }
            },
            _ => run_sections(v, obj.skip(1)),
        }
    }
}

/// The packer after each element that is an object was packed as an
/// anonymous dataset; other elements are passed over.
pub open spec fn run_list(v: PackerView, arr: Seq<JsonValue>) -> (PackerView, Option<CodecError>)
    decreases arr.len(),
{
    if arr.len() == 0 {
        (v, None)
    } else {
        match arr[0] {
            JsonValue::Object(obj) => {
                let (opened, e) = run_op(
                    v,
                    Some(Ok(PackOp::Dataset(encode_utf8(Seq::empty())))),
                );
                if e is Some {
                    (opened, e)
                } else {
                    let (packed, e) = run_object(opened, obj@, 0);
                    if e is Some {
                        (packed, e)
                    } else {
                        run_list(packed, arr.skip(1))
                    }
                }
            },
            _ => run_list(v, arr.skip(1)),
        }
    }
}

/// Whether a body can be packed at all: it is an object or an array.
pub open spec fn is_body(body: JsonValue) -> bool {
    body is Object || body is Array
}

/// The packer after a whole body was packed. A simple object is one row
/// of one anonymous dataset; an object with objects in it is one dataset
/// for each of those; an array is one anonymous dataset for each object
/// in it.
pub open spec fn run_body(v: PackerView, body: JsonValue) -> (PackerView, Option<CodecError>) {
    match body {
        JsonValue::Object(obj) => if is_simple(obj@) {
            run_object(v, obj@, 0)
        } else {
            run_sections(v, obj@)
        },
        JsonValue::Array(arr) => run_list(v, arr@),
        _ => (v, None),
    }
}

/// Turns the status of an insertion into a result.
fn status(r: i32) -> (e: Option<CodecError>)
    ensures
        r >= 0 ==> e is None,
        forall|x: CodecError| r == error_code(x) ==> e == Some(x),
{
    if r >= 0 {
        None
    } else {
        match CodecError::from_code(r) {
            Some(x) => Some(x),
            None => Some(CodecError::Malformed),
        }
    }
}

/// Whether every element of the array is a number.
pub fn array_of_numbers(a: &Vec<JsonValue>) -> (r: bool)
    ensures
        r == all_numbers(a@),
{
    let mut i: usize = 0;
    while i < a.len()
        invariant
            i <= a@.len(),
            forall|j: int| 0 <= j < i ==> is_number(#[trigger] a@[j]),
        decreases a@.len() - i,
    {
        match &a[i] {
            JsonValue::Int(_) => {},
            JsonValue::UInt(_) => {},
            JsonValue::Float(_) => {},
            _ => {
                return false;
            },
        }
        i = i + 1;
    }
    true
}

/// The bytes that an array of numbers stands for.
pub fn array_bytes(a: &Vec<JsonValue>) -> (r: Vec<u8>)
    ensures
        r@ == low_bytes(a@),
{
    let mut out: Vec<u8> = Vec::new();
    let mut i: usize = 0;
    assert(a@.take(0) =~= Seq::empty());
    while i < a.len()
        invariant
            i <= a@.len(),
            out@ == low_bytes(a@.take(i as int)),
        decreases a@.len() - i,
    {
        assert(a@.take(i + 1).drop_last() =~= a@.take(i as int));
        assert(a@.take(i + 1).last() == a@[i as int]);
        match &a[i] {
            JsonValue::Int(x) => {
                if *x >= 0 {
                    out.push(#[verifier::truncate] (*x as u8));
                }
            },
            JsonValue::UInt(x) => {
                out.push(#[verifier::truncate] (*x as u8));
            },
            _ => {},
        }
        i = i + 1;
    }
    assert(a@.take(a@.len() as int) =~= a@);
    out
}

/// Declares the field of one entry, if it declares one.
fn declare(key: &String, value: &JsonValue, packer: &mut Packer, encoding: i8) -> (e: Option<
    CodecError,
>)
    requires
        old(packer).wf(),
    ensures
        final(packer).wf(),
        (final(packer)@, e) == run_op(old(packer)@, field_op(key@, *value, encoding)),
{
    let (type_char, width): (u8, usize) = match value {
        JsonValue::Str(s) => {
            if encoding == 0 {
                match gbk_encode(s.as_str()) {
                    Some(b) => (TYPE_RAW, b.len()),
                    None => {
                        return Some(CodecError::InvalidText);
                    },
                }
            } else {
                (TYPE_STR, s.as_str().as_bytes().len())
            }
        },
        JsonValue::Int(_) => (TYPE_INT, 4),
        JsonValue::UInt(_) => (TYPE_INT, 4),
        JsonValue::Float(_) => (TYPE_DOUBLE, 4),
        JsonValue::Array(a) => {
            if array_of_numbers(a) {
                (TYPE_RAW, a.len())
            } else {
                return None;
            }
        },
        _ => {
            return None;
        },
    };
    if width > 0x7fff_ffff {
        return Some(CodecError::TooLong);
    }
    let r: i32 = packer.add_field(key.as_str(), type_char, width as i32, 4);
    status(r)
}

/// Adds the value of one entry, if it adds one.
fn fill(value: &JsonValue, packer: &mut Packer, encoding: i8) -> (e: Option<CodecError>)
    requires
        old(packer).wf(),
    ensures
        final(packer).wf(),
        (final(packer)@, e) == run_op(old(packer)@, value_op(*value, encoding)),
{
    let r: i32 = match value {
        JsonValue::Str(s) => {
            if encoding == 0 {
                match gbk_encode(s.as_str()) {
                    Some(b) => packer.add_raw(b.as_slice()),
                    None => {
                        return Some(CodecError::InvalidText);
                    },
                }
            } else {
                packer.add_str(s.as_str())
            }
        },
        JsonValue::Int(x) => packer.add_int(#[verifier::truncate] (*x as i32)),
        JsonValue::UInt(x) => packer.add_int(#[verifier::truncate] (*x as i32)),
        JsonValue::Float(b) => packer.add_double(*b),
        JsonValue::Array(a) => {
            if array_of_numbers(a) {
                let bytes = array_bytes(a);
                packer.add_raw(bytes.as_slice())
            } else {
                return None;
            }
        },
        _ => {
            return None;
        },
    };
    status(r)
}

/// Packs an object as one row: declares a field for each entry that has
/// one, then adds the value of each such entry. Stops at the first
/// refusal and returns it.
pub fn pack_object(obj: &Vec<(String, JsonValue)>, packer: &mut Packer, encoding: i8) -> (r:
    Result<(), CodecError>)
    requires
        old(packer).wf(),
    ensures
        final(packer).wf(),
        final(packer)@ == run_object(old(packer)@, obj@, encoding).0,
        match run_object(old(packer)@, obj@, encoding).1 {
            None => r is Ok,
            Some(e) => r == Err::<(), CodecError>(e),
        },
{
    let mut i: usize = 0;
    assert(obj@.skip(0) =~= obj@);
    while i < obj.len()
        invariant
            i <= obj@.len(),
            packer.wf(),
            run_fields(old(packer)@, obj@, encoding) == run_fields(
                packer@,
                obj@.skip(i as int),
                encoding,
            ),
        decreases obj@.len() - i,
    {
        assert(obj@.skip(i as int).skip(1) =~= obj@.skip(i + 1));
        assert(obj@.skip(i as int)[0] == obj@[i as int]);
        match declare(&obj[i].0, &obj[i].1, packer, encoding) {
            Some(e) => {
                return Err(e);
            },
            None => {},
        }
        i = i + 1;
    }
    let ghost declared = packer@;
    i = 0;
    while i < obj.len()
        invariant
            i <= obj@.len(),
            packer.wf(),
            run_fields(old(packer)@, obj@, encoding) == (declared, None::<CodecError>),
            run_values(declared, obj@, encoding) == run_values(
                packer@,
                obj@.skip(i as int),
                encoding,
            ),
        decreases obj@.len() - i,
    {
        assert(obj@.skip(i as int).skip(1) =~= obj@.skip(i + 1));
        assert(obj@.skip(i as int)[0] == obj@[i as int]);
        match fill(&obj[i].1, packer, encoding) {
            Some(e) => {
                return Err(e);
            },
            None => {},
        }
        i = i + 1;
    }
    Ok(())
}

/// Whether none of the object's values is an object.
pub fn object_is_simple(obj: &Vec<(String, JsonValue)>) -> (r: bool)
    ensures
        r == is_simple(obj@),
{
    let mut i: usize = 0;
    while i < obj.len()
        invariant
            i <= obj@.len(),
            forall|j: int| 0 <= j < i ==> !((#[trigger] obj@[j]).1 is Object),
        decreases obj@.len() - i,
    {
        match &obj[i].1 {
            JsonValue::Object(_) => {
                return false;
            },
            _ => {},
        }
        i = i + 1;
    }
    true
}

/// Opens a dataset under `name` with return code 0.
fn open_section(name: &str, packer: &mut Packer) -> (e: Option<CodecError>)
    requires
        old(packer).wf(),
    ensures
        final(packer).wf(),
        (final(packer)@, e) == run_op(old(packer)@, Some(Ok(PackOp::Dataset(encode_utf8(name@))))),
{
    let r: i32 = packer.new_dataset(name, 0);
    status(r)
}

/// Packs each entry that is an object as a dataset under the entry's key.
pub fn pack_sections(obj: &Vec<(String, JsonValue)>, packer: &mut Packer) -> (r: Result<
    (),
    CodecError,
>)
    requires
        old(packer).wf(),
    ensures
        final(packer).wf(),
        final(packer)@ == run_sections(old(packer)@, obj@).0,
        match run_sections(old(packer)@, obj@).1 {
            None => r is Ok,
            Some(e) => r == Err::<(), CodecError>(e),
        },
{
    let mut i: usize = 0;
    assert(obj@.skip(0) =~= obj@);
    while i < obj.len()
        invariant
            i <= obj@.len(),
            packer.wf(),
            run_sections(old(packer)@, obj@) == run_sections(packer@, obj@.skip(i as int)),
        decreases obj@.len() - i,
    {
        assert(obj@.skip(i as int).skip(1) =~= obj@.skip(i + 1));
        assert(obj@.skip(i as int)[0] == obj@[i as int]);
        match &obj[i].1 {
            JsonValue::Object(nested) => {
                match open_section(obj[i].0.as_str(), packer) {
                    Some(e) => {
                        return Err(e);
                    },
                    None => {},
                }
                match pack_object(nested, packer, 0) {
                    Err(e) => {
                        return Err(e);
                    },
                    Ok(()) => {},
                }
            },
            _ => {},
        }
        i = i + 1;
    }
    Ok(())
}

/// Packs each element that is an object as an anonymous dataset.
pub fn pack_list(arr: &Vec<JsonValue>, packer: &mut Packer) -> (r: Result<(), CodecError>)
    requires
        old(packer).wf(),
    ensures
        final(packer).wf(),
        final(packer)@ == run_list(old(packer)@, arr@).0,
        match run_list(old(packer)@, arr@).1 {
            None => r is Ok,
            Some(e) => r == Err::<(), CodecError>(e),
        },
{
    let mut i: usize = 0;
    assert(arr@.skip(0) =~= arr@);
    while i < arr.len()
        invariant
            i <= arr@.len(),
            packer.wf(),
            run_list(old(packer)@, arr@) == run_list(packer@, arr@.skip(i as int)),
        decreases arr@.len() - i,
    {
        assert(arr@.skip(i as int).skip(1) =~= arr@.skip(i + 1));
        assert(arr@.skip(i as int)[0] == arr@[i as int]);
        match &arr[i] {
            JsonValue::Object(obj) => {
                let anonymous = String::new();
                match open_section(anonymous.as_str(), packer) {
                    Some(e) => {
                        return Err(e);
                    },
                    None => {},
                }
                match pack_object(obj, packer, 0) {
                    Err(e) => {
                        return Err(e);
                    },
                    Ok(()) => {},
                }
            },
            _ => {},
        }
        i = i + 1;
    }
    Ok(())
}

/// Packs a whole body, which is an object or an array; of another value
/// nothing is packed.
pub fn pack_body(body: &JsonValue, packer: &mut Packer) -> (r: Result<(), CodecError>)
    requires
        old(packer).wf(),
    ensures
        final(packer).wf(),
        final(packer)@ == run_body(old(packer)@, *body).0,
        match run_body(old(packer)@, *body).1 {
            None => r is Ok,
            Some(e) => r == Err::<(), CodecError>(e),
        },
{
    match body {
        JsonValue::Object(obj) => {
            if object_is_simple(obj) {
                pack_object(obj, packer, 0)
            } else {
                pack_sections(obj, packer)
            }
        },
        JsonValue::Array(arr) => pack_list(arr, packer),
        _ => Ok(()),
    }
}

/// Declaring fields leaves the layout of the packer as it was.
pub proof fn lemma_fields_keep_version(
    v: PackerView,
    obj: Seq<(String, JsonValue)>,
    encoding: i8,
)
    ensures
        run_fields(v, obj, encoding).0.version == v.version,
    decreases obj.len(),
{
    if obj.len() > 0 {
        let (next, e) = run_op(v, field_op(obj[0].0@, obj[0].1, encoding));
        if e is None {
            lemma_fields_keep_version(next, obj.skip(1), encoding);
        }
    }
}

/// Adding values leaves the layout of the packer as it was.
pub proof fn lemma_values_keep_version(
    v: PackerView,
    obj: Seq<(String, JsonValue)>,
    encoding: i8,
)
    ensures
        run_values(v, obj, encoding).0.version == v.version,
    decreases obj.len(),
{
    if obj.len() > 0 {
        let (next, e) = run_op(v, value_op(obj[0].1, encoding));
        if e is None {
            lemma_values_keep_version(next, obj.skip(1), encoding);
        }
    }
}

/// Packing an object leaves the layout of the packer as it was.
pub proof fn lemma_object_keeps_version(
    v: PackerView,
    obj: Seq<(String, JsonValue)>,
    encoding: i8,
)
    ensures
        run_object(v, obj, encoding).0.version == v.version,
{
    lemma_fields_keep_version(v, obj, encoding);
    lemma_values_keep_version(run_fields(v, obj, encoding).0, obj, encoding);
}

/// Packing datasets by key leaves the layout of the packer as it was.
pub proof fn lemma_sections_keep_version(v: PackerView, obj: Seq<(String, JsonValue)>)
    ensures
        run_sections(v, obj).0.version == v.version,
    decreases obj.len(),
{
    if obj.len() > 0 {
        match obj[0].1 {
            JsonValue::Object(nested) => {
                let (opened, e) = run_op(v, Some(Ok(PackOp::Dataset(encode_utf8(obj[0].0@)))));
                if e is None {
                    lemma_object_keeps_version(opened, nested@, 0);
                    let (packed, e) = run_object(opened, nested@, 0);
                    if e is None {
                        lemma_sections_keep_version(packed, obj.skip(1));
                    }
                }
            },
            _ => {
                lemma_sections_keep_version(v, obj.skip(1));
            },
        }
    }
}

/// Packing anonymous datasets leaves the layout of the packer as it was.
pub proof fn lemma_list_keeps_version(v: PackerView, arr: Seq<JsonValue>)
    ensures
        run_list(v, arr).0.version == v.version,
    decreases arr.len(),
{
    if arr.len() > 0 {
        match arr[0] {
            JsonValue::Object(obj) => {
                let (opened, e) = run_op(v, Some(Ok(PackOp::Dataset(encode_utf8(Seq::empty())))));
                if e is None {
                    lemma_object_keeps_version(opened, obj@, 0);
                    let (packed, e) = run_object(opened, obj@, 0);
                    if e is None {
                        lemma_list_keeps_version(packed, arr.skip(1));
                    }
                }
            },
            _ => {
                lemma_list_keeps_version(v, arr.skip(1));
            },
        }
    }
}

/// Packing a body leaves the layout of the packer as it was.
pub proof fn lemma_body_keeps_version(v: PackerView, body: JsonValue)
    ensures
        run_body(v, body).0.version == v.version,
{
    match body {
        JsonValue::Object(obj) => {
            lemma_object_keeps_version(v, obj@, 0);
            lemma_sections_keep_version(v, obj@);
        },
        JsonValue::Array(arr) => {
            lemma_list_keeps_version(v, arr@);
        },
        _ => {},
    }
}

} // verus!
