//! The packer: builds a record token by token and keeps, at every moment,
//! a body that reads back as exactly the datasets it holds.
use vstd::prelude::*;
use vstd::string::*;
use vstd::slice::{slice_subrange, slice_to_vec};
use crate::f2_record::{
    clip, decode, empty_dataset, error_code, header, record_wf, replay, step, token_len,
    type_of_char, CodecError, DatasetSpec, FieldSpec, FieldType, Token, ValueSpec,
    MAX_PACK_LEN,
};
use crate::f2_laws::{
    lemma_header_decodes, lemma_legacy_single, lemma_replay_append, lemma_replay_grows,
    lemma_token_len,
};
use crate::f2_result_set::{
    apply, datasets_view, encode_item, item_size, parse_record, put_bytes, put_u32, Dataset,
    Field, Item, Value,
};
use crate::f2_unpacker::UnPacker;

verus! {

/// A packer, as a mathematical value.
pub struct PackerView {
    /// 1 for the legacy layout, 0x20 for the extended one.
    pub version: i32,
    /// The tokens written so far.
    pub body: Seq<u8>,
    /// The datasets that the body stands for.
    pub datasets: Seq<DatasetSpec>,
    /// Whether the pack was ended and is frozen.
    pub ended: bool,
    /// Size of the caller's buffer, as last announced.
    pub announced: int,
    /// Offset in the body at which the open dataset starts.
    pub section: int,
}

/// Builds a packed record.
pub struct Packer {
    version: i32,
    body: Vec<u8>,
    sets: Vec<Dataset>,
    ended: bool,
    section_start: usize,
    announced: usize,
}

/// The packer accepts the token: it is not frozen, the token follows the
/// rules of `step`, and the record stays within `MAX_PACK_LEN`.
pub open spec fn accepts(v: PackerView, t: Token) -> bool {
    &&& !v.ended
    &&& v.body.len() + token_len(t) + 5 <= MAX_PACK_LEN
    &&& step(v.datasets, t, v.version == 1) is Ok
}

/// Why the packer refuses a token that it does not accept.
pub open spec fn refusal(v: PackerView, t: Token) -> CodecError {
    if v.ended {
        CodecError::OrderViolation
    } else if v.body.len() + token_len(t) + 5 > MAX_PACK_LEN {
        CodecError::TooLong
    } else {
        step(v.datasets, t, v.version == 1)->Err_0
    }
}

/// The packer after a token that it accepts.
pub open spec fn after(v: PackerView, t: Token) -> PackerView {
    PackerView {
        body: v.body + crate::f2_record::encode_token(t),
        datasets: step(v.datasets, t, v.version == 1)->Ok_0,
        section: if step(v.datasets, t, v.version == 1)->Ok_0.len() == v.datasets.len() {
            v.section
        } else {
            v.body.len() as int
        },
        ..v
    }
}

/// A packer with nothing packed.
pub open spec fn blank(version: i32, announced: int) -> PackerView {
    PackerView {
        version,
        body: Seq::empty(),
        datasets: Seq::empty(),
        ended: false,
        announced,
        section: 0,
    }
}

/// What an insertion owes its caller: the new length and the new state
/// where the token is accepted, the status and the old state where not.
pub open spec fn inserted(before: PackerView, t: Token, now: PackerView, r: i32) -> bool {
    if accepts(before, t) {
        now == after(before, t) && r == now.body.len()
    } else {
        now == before && r == error_code(refusal(before, t))
    }
}

/// The packed record that a packer stands for: header, then body.
pub open spec fn packed(v: PackerView) -> Seq<u8> {
    header(v.version as u8, v.body.len() as int) + v.body
}

impl View for Packer {
    type V = PackerView;

    closed spec fn view(&self) -> PackerView {
        PackerView {
            version: self.version,
            body: self.body@,
            datasets: datasets_view(self.sets@),
            ended: self.ended,
            announced: self.announced as int,
            section: self.section_start as int,
        }
    }
}

impl Packer {
    /// The invariant but for the start of the open dataset: the body
    /// replays to the datasets, which are well formed.
    spec fn ready(&self) -> bool {
        &&& (self.version == 1 || self.version == 0x20)
        &&& record_wf(datasets_view(self.sets@))
        &&& replay(self.body@, Seq::empty(), self.version == 1) == Ok::<
            Seq<DatasetSpec>,
            CodecError,
        >(datasets_view(self.sets@))
        &&& self.body@.len() + 5 <= MAX_PACK_LEN
        &&& self.announced <= MAX_PACK_LEN
    }

    /// The packer's invariant: it is `ready`, the bytes in front of the
    /// open dataset replay to the datasets before it, and the token that
    /// opened it, where one did, lies within the body.
    pub closed spec fn wf(&self) -> bool {
        &&& self.ready()
        &&& self.section_start <= self.body@.len()
        &&& self.sets@.len() > 0 ==> {
            &&& replay(
                self.body@.take(self.section_start as int),
                Seq::empty(),
                self.version == 1,
            ) == Ok::<Seq<DatasetSpec>, CodecError>(datasets_view(self.sets@).drop_last())
            &&& self.version != 1 ==> {
                ||| self.section_start + 9 + self.sets@.last().name@.len() <= self.body@.len()
                ||| self.section_start == 0 && self.sets@.last().name@.len() == 0
            }
        }
    }

    /// What every packer satisfies, in terms of its view.
    pub proof fn lemma_wf(&self)
        requires
            self.wf(),
        ensures
            self@.version == 1 || self@.version == 0x20,
            record_wf(self@.datasets),
            replay(self@.body, Seq::empty(), self@.version == 1) == Ok::<
                Seq<DatasetSpec>,
                CodecError,
            >(self@.datasets),
            decode(packed(self@)) == Ok::<(u8, Seq<DatasetSpec>), CodecError>(
                (self@.version as u8, self@.datasets),
            ),
            self@.body.len() + 5 <= MAX_PACK_LEN,
            0 <= self@.announced <= MAX_PACK_LEN,
    {
        lemma_header_decodes(self@.version as u8, self@.body);
    }

    /// A packer for the given layout: 1 (legacy) or 0x20 (extended).
    pub fn new(version: i32) -> (r: Result<Packer, CodecError>)
        ensures
            version == 1 || version == 0x20 ==> r is Ok && r->Ok_0.wf() && r->Ok_0@ == blank(
                version,
                0,
            ),
            !(version == 1 || version == 0x20) ==> r is Err && r->Err_0 == CodecError::BadVersion,
    {
        if version != 1 && version != 0x20 {
            return Err(CodecError::BadVersion);
        }
        let p = Packer {
            version,
            body: Vec::new(),
            sets: Vec::new(),
            ended: false,
            section_start: 0,
            announced: 0,
        };
        assert(datasets_view(p.sets@) =~= Seq::empty());
        assert(p.body@ =~= Seq::empty());
        Ok(p)
    }

    fn reset(&mut self, announced: usize)
        requires
            old(self).version == 1 || old(self).version == 0x20,
            announced <= MAX_PACK_LEN,
        ensures
            final(self).wf(),
            final(self)@ == blank(old(self).version, announced as int),
    {
        self.body = Vec::new();
        self.sets = Vec::new();
        self.ended = false;
        self.section_start = 0;
        self.announced = announced;
        assert(datasets_view(self.sets@) =~= Seq::empty());
        assert(self.body@ =~= Seq::empty());
    }

    /// Starts another pack: nothing is packed, and the packer is not frozen.
    pub fn begin_pack(&mut self)
        requires
            old(self).wf(),
        ensures
            final(self).wf(),
            final(self)@ == blank(old(self)@.version, old(self)@.announced),
    {
        let announced: usize = self.announced;
        self.reset(announced);
    }

    /// Starts another pack and, in the extended layout, opens its first
    /// dataset under `name` with return code 0.
    pub fn begin_pack_ex(&mut self, name: &str) -> (r: i32)
        requires
            old(self).wf(),
        ensures
            final(self).wf(),
            inserted(
                blank(old(self)@.version, old(self)@.announced),
                Token::Dataset { name: name.spec_bytes(), return_code: 0 },
                final(self)@,
                r,
            ),
    {
        self.begin_pack();
        self.new_dataset(name, 0)
    }

    /// Announces the caller's buffer. Without a data length, or with one
    /// that is not positive, nothing is packed afterwards. With a positive
    /// one, a legacy packer goes on from the packed record that the first
    /// `data_len` bytes of `buf` hold.
    pub fn set_buffer(&mut self, buf: &[u8], data_len: Option<i32>) -> (r: i32)
        requires
            old(self).wf(),
        ensures
            final(self).wf(),
            set_buffer_spec(old(self)@, buf@, data_len, final(self)@, r),
    {
        if buf.len() > MAX_PACK_LEN {
            return CodecError::TooLong.code();
        }
        let n: i32 = match data_len {
            Some(n) => n,
            None => 0,
        };
        if n <= 0 {
            self.reset(buf.len());
            return 0;
        }
        if self.version != 1 {
            return CodecError::Unsupported.code();
        }
        if n as usize > buf.len() {
            return CodecError::Truncated.code();
        }
        let data = slice_subrange(buf, 0, n as usize);
        match parse_record(data) {
            Err(e) => e.code(),
            Ok((version, sets)) => {
                if version != 1 {
                    return CodecError::BadVersion.code();
                }
                let body = slice_to_vec(slice_subrange(data, 5, n as usize));
                proof {
                    assert(body@ =~= data@.skip(5));
                    lemma_legacy_single(body@, Seq::empty());
                    assert(body@.take(0) =~= Seq::<u8>::empty());
                    if sets@.len() > 0 {
                        assert(datasets_view(sets@).drop_last() =~= Seq::empty());
                    }
                    assert(data@ =~= buf@.take(n as int));
                    assert(body@ =~= buf@.subrange(5, n as int));
                }
                self.body = body;
                self.sets = sets;
                self.ended = false;
                self.section_start = 0;
                self.announced = buf.len();
                n - 5
            },
        }
    }

    /// Writes one token, or refuses it and changes nothing. The start of
    /// the open dataset is left for the caller to set.
    fn push_raw(&mut self, item: Item) -> (r: i32)
        requires
            old(self).ready(),
        ensures
            final(self).ready(),
            final(self).section_start == old(self).section_start,
            accepts(old(self)@, item@) ==> final(self).body@ == old(self).body@
                + crate::f2_record::encode_token(item@) && datasets_view(final(self).sets@)
                == step(old(self)@.datasets, item@, old(self).version == 1)->Ok_0 && r
                == final(self).body@.len() && final(self).version == old(self).version
                && final(self).ended == old(self).ended && final(self).announced == old(self).announced,
            !accepts(old(self)@, item@) ==> *final(self) == *old(self) && r == error_code(
                refusal(old(self)@, item@),
            ),
    {
        let ghost token = item@;
        let ghost before = self@;
        if self.ended {
            return CodecError::OrderViolation.code();
        }
        let size: usize = match item_size(&item) {
            None => {
                return CodecError::TooLong.code();
            },
            Some(n) => n,
        };
        if size > MAX_PACK_LEN - 5 - self.body.len() {
            return CodecError::TooLong.code();
        }
        let mut bytes: Vec<u8> = Vec::new();
        encode_item(&item, &mut bytes);
        match apply(&mut self.sets, item, self.version == 1) {
            Err(e) => e.code(),
            Ok(()) => {
                proof {
                    lemma_token_len(token);
                    lemma_replay_append(before.body, Seq::empty(), self.version == 1, token);
                    assert(bytes@ =~= crate::f2_record::encode_token(token));
                }
                self.body.append(&mut bytes);
                self.body.len() as i32
            },
        }
    }

    /// Writes one token, or refuses it and changes nothing.
    fn push_item(&mut self, item: Item) -> (r: i32)
        requires
            old(self).wf(),
        ensures
            final(self).wf(),
            inserted(old(self)@, item@, final(self)@, r),
    {
        let ghost token = item@;
        let ghost before = self@;
        let count: usize = self.sets.len();
        let old_len: usize = self.body.len();
        let r: i32 = self.push_raw(item);
        if r >= 0 {
            proof {
                lemma_token_len(token);
                let now = datasets_view(self.sets@);
                assert(now.last() == self.sets@.last()@);
                if self.sets@.len() == count {
                    assert(self.body@.take(self.section_start as int) =~= before.body.take(
                        self.section_start as int,
                    ));
                    assert(now.drop_last() =~= before.datasets.drop_last());
                    assert(before.datasets.last() == old(self).sets@.last()@);
                    assert(now.last().name == before.datasets.last().name);
                } else {
                    assert(self.body@.take(old_len as int) =~= before.body);
                    assert(now.drop_last() =~= before.datasets);
                    lemma_replay_grows(before.body, Seq::empty(), self.version == 1);
                }
            }
            if self.sets.len() != count {
                self.section_start = old_len;
            }
        }
        r
    }

    /// Opens a dataset under `name`. The legacy layout has none to open.
    pub fn new_dataset(&mut self, name: &str, return_code: i32) -> (r: i32)
        requires
            old(self).wf(),
        ensures
            final(self).wf(),
            inserted(
                old(self)@,
                Token::Dataset { name: name.spec_bytes(), return_code },
                final(self)@,
                r,
            ),
    {
        let item = Item::Dataset { name: slice_to_vec(name.as_bytes()), return_code };
        self.push_item(item)
    }

    /// Declares the next field of the open dataset; with no dataset open,
    /// an anonymous one is opened first. `type_char` is one of `I D C S R`.
    pub fn add_field(&mut self, name: &str, type_char: u8, width: i32, scale: i32) -> (r: i32)
        requires
            old(self).wf(),
        ensures
            final(self).wf(),
            match type_of_char(type_char) {
                None => final(self)@ == old(self)@ && r == error_code(
                    CodecError::UnknownFieldType,
                ),
                Some(kind) => inserted(
                    old(self)@,
                    Token::Field(FieldSpec { name: name.spec_bytes(), kind, width, scale }),
                    final(self)@,
                    r,
                ),
            },
    {
        match FieldType::from_char(type_char) {
            None => CodecError::UnknownFieldType.code(),
            Some(kind) => {
                let f = Field { name: slice_to_vec(name.as_bytes()), kind, width, scale };
                self.push_item(Item::Field(f))
            },
        }
    }

    /// The bytes of a string or raw value as they will be stored.
    fn clipped(&self, kind: FieldType, bytes: &[u8]) -> (r: Vec<u8>)
        requires
            self.wf(),
        ensures
            r@ == clip(self@.datasets, kind, bytes@),
    {
        let n: usize = self.sets.len();
        if n > 0 && self.sets[n - 1].pending.len() < self.sets[n - 1].fields.len() {
            let at: usize = self.sets[n - 1].pending.len();
            assert(self@.datasets.last() == self.sets@[n - 1]@);
            assert(self@.datasets.last().fields[at as int] == self.sets@[n - 1].fields@[at as int]@);
            let f = &self.sets[n - 1].fields[at];
            if f.kind == kind && f.width >= 0 && (f.width as usize) < bytes.len() {
                assert(bytes@.subrange(0, f.width as int) =~= bytes@.take(f.width as int));
                return slice_to_vec(slice_subrange(bytes, 0, f.width as usize));
            }
        }
        slice_to_vec(bytes)
    }

    /// Adds a string for the next pending field, cut to the field's width.
    pub fn add_str(&mut self, value: &str) -> (r: i32)
        requires
            old(self).wf(),
        ensures
            final(self).wf(),
            inserted(
                old(self)@,
                Token::Value(
                    ValueSpec::Str(clip(old(self)@.datasets, FieldType::Str, value.spec_bytes())),
                ),
                final(self)@,
                r,
            ),
    {
        let bytes = self.clipped(FieldType::Str, value.as_bytes());
        self.push_item(Item::Value(Value::Str(bytes)))
    }

    /// Adds an integer for the next pending field.
    pub fn add_int(&mut self, value: i32) -> (r: i32)
        requires
            old(self).wf(),
        ensures
            final(self).wf(),
            inserted(old(self)@, Token::Value(ValueSpec::Int(value)), final(self)@, r),
    {
        self.push_item(Item::Value(Value::Int(value)))
    }

    /// Adds a double, given as its 64 bits, for the next pending field.
    pub fn add_double(&mut self, bits: u64) -> (r: i32)
        requires
            old(self).wf(),
        ensures
            final(self).wf(),
            inserted(old(self)@, Token::Value(ValueSpec::Double(bits)), final(self)@, r),
    {
        self.push_item(Item::Value(Value::Double(bits)))
    }

    /// Adds a character for the next pending field.
    pub fn add_char(&mut self, value: u8) -> (r: i32)
        requires
            old(self).wf(),
        ensures
            final(self).wf(),
            inserted(old(self)@, Token::Value(ValueSpec::Char(value)), final(self)@, r),
    {
        self.push_item(Item::Value(Value::Char(value)))
    }

    /// Adds raw bytes for the next pending field, cut to the field's width.
    pub fn add_raw(&mut self, value: &[u8]) -> (r: i32)
        requires
            old(self).wf(),
        ensures
            final(self).wf(),
            inserted(
                old(self)@,
                Token::Value(ValueSpec::Raw(clip(old(self)@.datasets, FieldType::Raw, value@))),
                final(self)@,
                r,
            ),
    {
        let bytes = self.clipped(FieldType::Raw, value);
        self.push_item(Item::Value(Value::Raw(bytes)))
    }

    /// Sets the return code of the open dataset; with no dataset open, an
    /// anonymous one is opened with it.
    pub fn set_return_code(&mut self, return_code: i32) -> (r: i32)
        requires
            old(self).wf(),
        ensures
            final(self).wf(),
            inserted(old(self)@, Token::ReturnCode(return_code), final(self)@, r),
    {
        self.push_item(Item::ReturnCode(return_code))
    }

    /// Ends the pack: the length now counts the header, and every further
    /// insertion is refused until another pack is begun.
    pub fn end_pack(&mut self)
        requires
            old(self).wf(),
        ensures
            final(self).wf(),
            final(self)@ == (PackerView { ended: true, ..old(self)@ }),
    {
        self.ended = true;
    }

    /// What was packed: the body so far while packing, the whole record,
    /// header first, once the pack was ended.
    pub fn get_pack_buf(&self) -> (r: Vec<u8>)
        requires
            self.wf(),
        ensures
            r@ == (if self@.ended {
                packed(self@)
            } else {
                self@.body
            }),
            self@.ended ==> decode(r@) == Ok::<(u8, Seq<DatasetSpec>), CodecError>(
                (self@.version as u8, self@.datasets),
            ),
    {
        let mut out: Vec<u8> = Vec::new();
        if self.ended {
            out.push(self.version as u8);
            put_u32(&mut out, self.body.len() as u32);
        }
        put_bytes(&mut out, self.body.as_slice());
        proof {
            self.lemma_wf();
            if self.ended {
                assert(out@ =~= packed(self@));
            } else {
                assert(out@ =~= self@.body);
            }
        }
        out
    }

    /// Length of what `get_pack_buf` returns.
    pub fn get_pack_len(&self) -> (r: i32)
        requires
            self.wf(),
        ensures
            r == (if self@.ended {
                self@.body.len() as int + 5
            } else {
                self@.body.len() as int
            }),
    {
        if self.ended {
            (self.body.len() + 5) as i32
        } else {
            self.body.len() as i32
        }
    }

    /// Size of the buffer in use: the announced size, or the length of the
    /// whole record where that is more.
    pub fn get_pack_buf_size(&self) -> (r: i32)
        requires
            self.wf(),
        ensures
            r == (if self@.announced >= self@.body.len() + 5 {
                self@.announced
            } else {
                self@.body.len() as int + 5
            }),
    {
        if self.announced >= self.body.len() + 5 {
            self.announced as i32
        } else {
            (self.body.len() + 5) as i32
        }
    }

    /// The layout: 1 (legacy) or 0x20 (extended).
    pub fn get_version(&self) -> (r: i32)
        requires
            self.wf(),
        ensures
            r == self@.version,
            r == 1 || r == 0x20,
    {
        self.version
    }

    /// A reader over the packed record. Only an ended pack can be read.
    pub fn unpack(&self) -> (r: Result<UnPacker, CodecError>)
        requires
            self.wf(),
        ensures
            self@.ended ==> r is Ok && r->Ok_0.wf() && r->Ok_0@ == crate::f2_unpacker::opened(
                self@.version,
                packed(self@),
                self@.datasets,
            ),
            !self@.ended ==> r is Err && r->Err_0 == CodecError::OrderViolation,
    {
        if !self.ended {
            return Err(CodecError::OrderViolation);
        }
        let buf = self.get_pack_buf();
        UnPacker::new(buf.as_slice(), self.version)
    }

    /// Gives the buffer up: nothing is packed and no size is announced.
    pub fn free_mem(&mut self)
        requires
            old(self).wf(),
        ensures
            final(self).wf(),
            final(self)@ == blank(old(self)@.version, 0),
    {
        self.reset(0);
    }

    /// Empties every dataset: nothing is packed afterwards. A frozen packer
    /// refuses.
    pub fn clear_value(&mut self) -> (r: i32)
        requires
            old(self).wf(),
        ensures
            final(self).wf(),
            old(self)@.ended ==> final(self)@ == old(self)@ && r == error_code(
                CodecError::OrderViolation,
            ),
            !old(self)@.ended ==> final(self)@ == blank(old(self)@.version, old(self)@.announced)
                && r == 0,
    {
        if self.ended {
            return CodecError::OrderViolation.code();
        }
        let announced: usize = self.announced;
        self.reset(announced);
        0
    }

    /// Empties the open dataset and leaves the others as they are. In the
    /// extended layout the dataset stays open under its name and return
    /// code, without fields or rows; in the legacy layout, whose one dataset
    /// is implicit, nothing is left. A frozen packer refuses.
    pub fn clear_data_set(&mut self) -> (r: i32)
        requires
            old(self).wf(),
        ensures
            final(self).wf(),
            clear_data_set_spec(old(self)@, final(self)@, r),
    {
        if self.ended {
            return CodecError::OrderViolation.code();
        }
        if self.sets.len() == 0 {
            return self.body.len() as i32;
        }
        let ghost before = self@;
        let start: usize = self.section_start;
        let last = self.sets.pop().unwrap();
        self.body.truncate(start);
        let Dataset { name, return_code, fields: _, rows: _, pending: _ } = last;
        proof {
            assert(last@ == before.datasets.last());
            assert(self.body@ =~= before.body.take(start as int));
            assert(datasets_view(self.sets@) =~= before.datasets.drop_last());
            assert forall|i: int| 0 <= i < before.datasets.drop_last().len() implies (
            #[trigger] before.datasets.drop_last()[i]) == before.datasets[i] by {}
            assert(record_wf(before.datasets.drop_last()));
        }
        self.section_start = 0;
        if self.version == 1 {
            proof {
                lemma_legacy_single(before.body, Seq::empty());
                assert(self.body@.take(0) =~= Seq::<u8>::empty());
            }
            return self.body.len() as i32;
        }
        let ghost token = Token::Dataset { name: name@, return_code };
        proof {
            lemma_token_len(token);
            if self.sets@.len() > 0 {
                assert(before.datasets[self.sets@.len() - 1].pending.len() == 0);
                assert(before.datasets.drop_last().last() == before.datasets[self.sets@.len() - 1]);
            }
            assert(accepts(self@, token));
        }
        let r: i32 = self.push_raw(Item::Dataset { name, return_code });
        self.section_start = start;
        proof {
            let now = datasets_view(self.sets@);
            assert(self.body@.take(start as int) =~= before.body.take(start as int));
            assert(now.drop_last() =~= before.datasets.drop_last());
            assert(now.last() == self.sets@.last()@);
        }
        r
    }
}

/// What `set_buffer` owes its caller.
pub open spec fn set_buffer_spec(
    before: PackerView,
    buf: Seq<u8>,
    data_len: Option<i32>,
    now: PackerView,
    r: i32,
) -> bool {
    let n = match data_len {
        Some(n) => n,
        None => 0i32,
    };
    if buf.len() > MAX_PACK_LEN {
        now == before && r == error_code(CodecError::TooLong)
    } else if n <= 0 {
        now == blank(before.version, buf.len() as int) && r == 0
    } else if before.version != 1 {
        now == before && r == error_code(CodecError::Unsupported)
    } else if n > buf.len() {
        now == before && r == error_code(CodecError::Truncated)
    } else {
        match decode(buf.take(n as int)) {
            Err(e) => now == before && r == error_code(e),
            Ok((version, st)) => if version != 1 {
                now == before && r == error_code(CodecError::BadVersion)
            } else {
                now == (PackerView {
                    version: 1,
                    body: buf.subrange(5, n as int),
                    datasets: st,
                    ended: false,
                    announced: buf.len() as int,
                    section: 0,
                }) && r == n - 5
            },
        }
    }
}

/// What `clear_data_set` owes its caller.
pub open spec fn clear_data_set_spec(before: PackerView, now: PackerView, r: i32) -> bool {
    if before.ended {
        now == before && r == error_code(CodecError::OrderViolation)
    } else if before.datasets.len() == 0 {
        now == before && r == before.body.len()
    } else {
        let cut = PackerView {
            body: before.body.take(before.section),
            datasets: before.datasets.drop_last(),
            section: 0,
            ..before
        };
        let again = Token::Dataset {
            name: before.datasets.last().name,
            return_code: before.datasets.last().return_code,
        };
        &&& r == now.body.len()
        &&& now == (if before.version == 1 {
            cut
        } else {
            after(cut, again)
        })
        &&& before.version != 1 ==> now.datasets == before.datasets.drop_last().push(
            empty_dataset(before.datasets.last().name, before.datasets.last().return_code),
        )
    }
}

} // verus!
