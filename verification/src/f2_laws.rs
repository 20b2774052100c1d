//! What holds of the wire grammar: a token reads back as itself, reading is
//! indifferent to what follows a token, and appending a token to a body has
//! the effect of one `step` on what the body stands for.
use vstd::prelude::*;
use vstd::bytes::*;
use crate::f2_record::{
    clip, decode, header, pending_field, FieldType, MAX_PACK_LEN, decode_i32, encode_bytes, encode_i32, encode_token, dataset_wf, prefix_len, record_wf, replay,
    scan, step, token_encodable, token_len, type_char, type_of_char, value_fits, with_value, CodecError,
    DatasetSpec, Scan, Token, ValueSpec, TAG_DATASET, TAG_FIELD, TAG_RETURN_CODE, TYPE_CHAR, TYPE_DOUBLE,
    TYPE_INT, TYPE_RAW, TYPE_STR,
};

verus! {

/// An `i32` survives the trip through its 32-bit pattern.
pub proof fn lemma_i32_pattern(x: i32)
    ensures
        decode_i32(encode_i32(x)) == x,
        encode_i32(x).len() == 4,
{
    lemma_auto_spec_u32_to_from_le_bytes();
    assert((x as u32) as i32 == x) by (bit_vector);
}

/// The parts of a length-prefixed byte string, found again at offset `at`
/// of a sequence that holds its encoding there.
proof fn lemma_bytes_at(s: Seq<u8>, at: int, b: Seq<u8>)
    requires
        0 <= at,
        b.len() <= u32::MAX,
        at + 4 + b.len() <= s.len(),
        s.subrange(at, at + 4 + b.len()) == encode_bytes(b),
    ensures
        spec_u32_from_le_bytes(s.subrange(at, at + 4)) as int == b.len(),
        s.subrange(at + 4, at + 4 + b.len()) == b,
{
    lemma_auto_spec_u32_to_from_le_bytes();
    let e = encode_bytes(b);
    let l = spec_u32_to_le_bytes(b.len() as u32);
    assert(e.subrange(0, 4) =~= l);
    assert(e.subrange(4, 4 + b.len() as int) =~= b);
    assert(s.subrange(at, at + 4) =~= e.subrange(0, 4));
    assert(s.subrange(at + 4, at + 4 + b.len()) =~= e.subrange(4, 4 + b.len() as int));
}

/// The bytes of a token are as many as `token_len` says.
pub proof fn lemma_token_len(t: Token)
    ensures
        encode_token(t).len() == token_len(t),
{
    lemma_auto_spec_u32_to_from_le_bytes();
    lemma_auto_spec_u64_to_from_le_bytes();
}

/// A token at the front of a sequence reads back as itself, whatever follows.
pub proof fn lemma_scan_encoded(t: Token, rest: Seq<u8>)
    requires
        token_encodable(t),
    ensures
        scan(encode_token(t) + rest) == Scan::Tok(t, encode_token(t).len() as int),
        encode_token(t).len() > 0,
{
    lemma_auto_spec_u32_to_from_le_bytes();
    lemma_auto_spec_u64_to_from_le_bytes();
    let e = encode_token(t);
    let s = e + rest;
    match t {
        Token::Dataset { name, return_code } => {
            let n = name.len() as int;
            lemma_i32_pattern(return_code);
            assert(e.len() == 9 + n);
            assert(s.subrange(1, 5 + n) =~= encode_bytes(name));
            lemma_bytes_at(s, 1, name);
            assert(s.subrange(5 + n, 9 + n) =~= encode_i32(return_code));
            assert(s[0] == TAG_DATASET);
        },
        Token::Field(f) => {
            let n = f.name.len() as int;
            lemma_i32_pattern(f.width);
            lemma_i32_pattern(f.scale);
            assert(e.len() == 14 + n);
            assert(s.subrange(1, 5 + n) =~= encode_bytes(f.name));
            lemma_bytes_at(s, 1, f.name);
            assert(s[5 + n] == type_char(f.kind));
            assert(type_of_char(type_char(f.kind)) == Some(f.kind));
            assert(s.subrange(6 + n, 10 + n) =~= encode_i32(f.width));
            assert(s.subrange(10 + n, 14 + n) =~= encode_i32(f.scale));
            assert(s[0] == TAG_FIELD);
        },
        Token::Value(ValueSpec::Int(x)) => {
            lemma_i32_pattern(x);
            assert(s.subrange(1, 5) =~= encode_i32(x));
            assert(s[0] == TYPE_INT);
        },
        Token::Value(ValueSpec::Double(x)) => {
            assert(s.subrange(1, 9) =~= spec_u64_to_le_bytes(x));
            assert(s[0] == TYPE_DOUBLE);
        },
        Token::Value(ValueSpec::Char(c)) => {
            assert(s[0] == TYPE_CHAR);
            assert(s[1] == c);
        },
        Token::Value(ValueSpec::Str(b)) => {
            let n = b.len() as int;
            assert(e.len() == 5 + n);
            assert(s.subrange(1, 5 + n) =~= encode_bytes(b));
            lemma_bytes_at(s, 1, b);
            assert(s[0] == TYPE_STR);
        },
        Token::Value(ValueSpec::Raw(b)) => {
            let n = b.len() as int;
            assert(e.len() == 5 + n);
            assert(s.subrange(1, 5 + n) =~= encode_bytes(b));
            lemma_bytes_at(s, 1, b);
            assert(s[0] == TYPE_RAW);
        },
        Token::ReturnCode(rc) => {
            lemma_i32_pattern(rc);
            assert(s.subrange(1, 5) =~= encode_i32(rc));
            assert(s[0] == TAG_RETURN_CODE);
        },
    }
}

/// A token that lies wholly inside `s` is read the same when more bytes follow.
pub proof fn lemma_scan_extended(s: Seq<u8>, more: Seq<u8>)
    requires
        s.len() > 0,
        scan(s) is Tok,
    ensures
        scan(s + more) == scan(s),
        0 < scan(s)->Tok_1 <= s.len(),
{
    let l = s + more;
    assert(l[0] == s[0]);
    if s.len() >= 2 {
        assert(l[1] == s[1]);
    }
    if s.len() >= 5 {
        assert(l.subrange(1, 5) =~= s.subrange(1, 5));
        let n = prefix_len(s);
        if s.len() >= 5 + n {
            assert(l.subrange(5, 5 + n) =~= s.subrange(5, 5 + n));
        }
        if s.len() >= 9 + n {
            assert(l.subrange(5 + n, 9 + n) =~= s.subrange(5 + n, 9 + n));
        }
        if s.len() >= 14 + n {
            assert(l[5 + n] == s[5 + n]);
            assert(l.subrange(6 + n, 10 + n) =~= s.subrange(6 + n, 10 + n));
            assert(l.subrange(10 + n, 14 + n) =~= s.subrange(10 + n, 14 + n));
        }
    }
    if s.len() >= 9 {
        assert(l.subrange(1, 9) =~= s.subrange(1, 9));
    }
}

/// One `step` keeps a record well formed.
pub proof fn lemma_step_wf(st: Seq<DatasetSpec>, t: Token, legacy: bool)
    requires
        record_wf(st),
        step(st, t, legacy) is Ok,
    ensures
        record_wf(step(st, t, legacy)->Ok_0),
{
    let next = step(st, t, legacy)->Ok_0;
    match t {
        Token::Dataset { name, return_code } => {
            assert forall|i: int| 0 <= i < next.len() implies dataset_wf(#[trigger] next[i]) by {
                if i < st.len() {
                    assert(next[i] == st[i]);
                }
            }
        },
        Token::Field(f) => {
            assert forall|i: int| 0 <= i < next.len() implies dataset_wf(#[trigger] next[i]) by {
                if i < next.len() - 1 {
                    assert(next[i] == st[i]);
                }
            }
        },
        Token::Value(v) => {
            let d = st.last();
            let p = d.pending.push(v);
            assert(dataset_wf(d));
            assert forall|c: int| 0 <= c < p.len() implies value_fits(
                d.fields[c],
                #[trigger] p[c],
            ) by {
                if c < d.pending.len() {
                    assert(p[c] == d.pending[c]);
                }
            }
            let d2 = with_value(d, v);
            assert(dataset_wf(d2)) by {
                if p.len() == d.fields.len() {
                    assert forall|r: int| 0 <= r < d2.rows.len() implies (
                    #[trigger] d2.rows[r]).len() == d2.fields.len() by {
                        if r < d.rows.len() {
                            assert(d2.rows[r] == d.rows[r]);
                        }
                    }
                    assert forall|r: int, c: int|
                        0 <= r < d2.rows.len() && 0 <= c < d2.fields.len() implies value_fits(
                        d2.fields[c],
                        #[trigger] d2.rows[r][c],
                    ) by {
                        if r < d.rows.len() {
                            assert(d2.rows[r] == d.rows[r]);
                        } else {
                            assert(d2.rows[r] == p);
                        }
                    }
                }
            }
            assert forall|i: int| 0 <= i < next.len() implies dataset_wf(#[trigger] next[i]) by {
                if i < next.len() - 1 {
                    assert(next[i] == st[i]);
                }
            }
        },
        Token::ReturnCode(rc) => {
            assert forall|i: int| 0 <= i < next.len() implies dataset_wf(#[trigger] next[i]) by {
                if i < next.len() - 1 {
                    assert(next[i] == st[i]);
                } else if st.len() > 0 {
                    assert(dataset_wf(st.last()));
                }
            }
        },
    }
    assert forall|i: int| 0 <= i < next.len() - 1 implies (#[trigger] next[i]).pending.len()
        == 0 by {
        if i < st.len() - 1 {
            assert(next[i] == st[i]);
        } else {
            assert(next[i] == st[i]);
        }
    }
}

/// Replaying a body that replays to `Ok`, and then more bytes, is replaying
/// the rest from the state that the body stands for.
pub proof fn lemma_replay_concat(a: Seq<u8>, b: Seq<u8>, st: Seq<DatasetSpec>, legacy: bool)
    requires
        replay(a, st, legacy) is Ok,
    ensures
        replay(a + b, st, legacy) == replay(b, replay(a, st, legacy)->Ok_0, legacy),
    decreases a.len(),
{
    if a.len() == 0 {
        assert(a + b =~= b);
    } else {
        lemma_scan_extended(a, b);
        let n = scan(a)->Tok_1;
        let next = step(st, scan(a)->Tok_0, legacy)->Ok_0;
        assert((a + b).skip(n) =~= a.skip(n) + b);
        lemma_replay_concat(a.skip(n), b, next, legacy);
    }
}

/// The bytes of one token replay as one `step`.
pub proof fn lemma_replay_token(t: Token, st: Seq<DatasetSpec>, legacy: bool)
    requires
        token_encodable(t),
    ensures
        replay(encode_token(t), st, legacy) == step(st, t, legacy),
{
    let e = encode_token(t);
    assert(e =~= e + Seq::<u8>::empty());
    lemma_scan_encoded(t, Seq::empty());
    assert(e.skip(e.len() as int) =~= Seq::<u8>::empty());
    if step(st, t, legacy) is Ok {
        assert(replay(Seq::<u8>::empty(), step(st, t, legacy)->Ok_0, legacy) == step(
            st,
            t,
            legacy,
        ));
    }
}

/// Appending a token to a body that replays to `Ok` has the effect of one
/// `step` on the result: what a packer has written always reads back as the
/// datasets it holds.
pub proof fn lemma_replay_append(s: Seq<u8>, st: Seq<DatasetSpec>, legacy: bool, t: Token)
    requires
        replay(s, st, legacy) is Ok,
        token_encodable(t),
    ensures
        replay(s + encode_token(t), st, legacy) == step(replay(s, st, legacy)->Ok_0, t, legacy),
{
    lemma_replay_concat(s, encode_token(t), st, legacy);
    lemma_replay_token(t, replay(s, st, legacy)->Ok_0, legacy);
}

/// The legacy layout never holds more than one dataset.
pub proof fn lemma_legacy_single(s: Seq<u8>, st: Seq<DatasetSpec>)
    requires
        st.len() <= 1,
        replay(s, st, true) is Ok,
    ensures
        replay(s, st, true)->Ok_0.len() <= 1,
    decreases s.len(),
{
    if s.len() > 0 {
        let n = scan(s)->Tok_1;
        let next = step(st, scan(s)->Tok_0, true)->Ok_0;
        lemma_legacy_single(s.skip(n), next);
    }
}

/// Replaying keeps a record well formed.
pub proof fn lemma_replay_wf(s: Seq<u8>, st: Seq<DatasetSpec>, legacy: bool)
    requires
        record_wf(st),
        replay(s, st, legacy) is Ok,
    ensures
        record_wf(replay(s, st, legacy)->Ok_0),
    decreases s.len(),
{
    if s.len() > 0 {
        let n = scan(s)->Tok_1;
        lemma_step_wf(st, scan(s)->Tok_0, legacy);
        lemma_replay_wf(s.skip(n), step(st, scan(s)->Tok_0, legacy)->Ok_0, legacy);
    }
}

/// A body behind the header that announces it decodes to what the body
/// replays to.
pub proof fn lemma_header_decodes(version: u8, body: Seq<u8>)
    requires
        version == 1 || version == 0x20,
        body.len() + 5 <= MAX_PACK_LEN,
    ensures
        decode(header(version, body.len() as int) + body) == (match replay(
            body,
            Seq::empty(),
            version == 1,
        ) {
            Ok(st) => Ok::<(u8, Seq<DatasetSpec>), CodecError>((version, st)),
            Err(e) => Err(e),
        }),
{
    lemma_auto_spec_u32_to_from_le_bytes();
    let h = header(version, body.len() as int);
    let buf = h + body;
    assert(h.len() == 5);
    assert(buf[0] == version);
    assert(buf.subrange(1, 5) =~= spec_u32_to_le_bytes(body.len() as u32));
    assert(buf.skip(5) =~= body);
}

/// Replaying never loses a dataset, and a body that is not empty leaves at
/// least one.
pub proof fn lemma_replay_grows(s: Seq<u8>, st: Seq<DatasetSpec>, legacy: bool)
    requires
        replay(s, st, legacy) is Ok,
    ensures
        replay(s, st, legacy)->Ok_0.len() >= st.len(),
        s.len() > 0 ==> replay(s, st, legacy)->Ok_0.len() >= 1,
    decreases s.len(),
{
    if s.len() > 0 {
        let n = scan(s)->Tok_1;
        let next = step(st, scan(s)->Tok_0, legacy)->Ok_0;
        lemma_replay_grows(s.skip(n), next, legacy);
    }
}

/// A value that `step` accepts is stored as it is, at the column it was
/// meant for: in the row that it completes, or in the pending row. The
/// rows before stay as they were.
pub proof fn lemma_value_is_stored(st: Seq<DatasetSpec>, v: ValueSpec, legacy: bool)
    requires
        step(st, Token::Value(v), legacy) is Ok,
    ensures
        ({
            let d = st.last();
            let n = step(st, Token::Value(v), legacy)->Ok_0.last();
            let col = d.pending.len() as int;
            &&& n.fields == d.fields
            &&& n.rows.take(d.rows.len() as int) == d.rows
            &&& if col + 1 == d.fields.len() {
                &&& n.rows.len() == d.rows.len() + 1
                &&& n.rows.last() == d.pending.push(v)
                &&& n.rows.last()[col] == v
                &&& n.pending.len() == 0
            } else {
                &&& n.rows == d.rows
                &&& n.pending == d.pending.push(v)
                &&& n.pending[col] == v
            }
        }),
{
    let d = st.last();
    let n = step(st, Token::Value(v), legacy)->Ok_0.last();
    assert(n == with_value(d, v));
    assert(n.rows.take(d.rows.len() as int) =~= d.rows);
}

/// What is stored of a string or raw value: the value itself where it is
/// no longer than the width of its field, and its first `width` bytes
/// where it is longer. Either way it fits the field.
pub proof fn lemma_clip_at_width(st: Seq<DatasetSpec>, kind: FieldType, bytes: Seq<u8>)
    requires
        pending_field(st) is Some,
        pending_field(st)->Some_0.kind == kind,
        pending_field(st)->Some_0.width >= 0,
    ensures
        bytes.len() <= pending_field(st)->Some_0.width ==> clip(st, kind, bytes) == bytes,
        bytes.len() > pending_field(st)->Some_0.width ==> clip(st, kind, bytes) == bytes.take(
            pending_field(st)->Some_0.width as int,
        ),
        clip(st, kind, bytes).len() <= pending_field(st)->Some_0.width,
{
}

/// Round trip. The bytes of any tokens that a record accepts one after
/// the other, behind their header, decode to the record that the tokens
/// built: each token appended to a body that decodes to `st` gives a body
/// that decodes to `step(st, token)`.
pub proof fn lemma_round_trip(
    version: u8,
    body: Seq<u8>,
    st: Seq<DatasetSpec>,
    t: Token,
)
    requires
        version == 1 || version == 0x20,
        decode(header(version, body.len() as int) + body) == Ok::<
            (u8, Seq<DatasetSpec>),
            CodecError,
        >((version, st)),
        token_encodable(t),
        body.len() + token_len(t) + 5 <= MAX_PACK_LEN,
        step(st, t, version == 1) is Ok,
    ensures
        decode(
            header(version, body.len() + token_len(t)) + (body + encode_token(t)),
        ) == Ok::<(u8, Seq<DatasetSpec>), CodecError>(
            (version, step(st, t, version == 1)->Ok_0),
        ),
{
    lemma_token_len(t);
    lemma_header_decodes(version, body);
    lemma_replay_append(body, Seq::empty(), version == 1, t);
    lemma_header_decodes(version, body + encode_token(t));
}

} // verus!
