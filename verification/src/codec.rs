//! Snapshot codec: a compact binary form for document values, with a proved
//! round trip from encoding back through decoding.
//!
//! Layout: one tag byte, then a fixed- or length-prefixed payload. Numbers
//! are the 8 little-endian bytes of their bit pattern; strings are a u64
//! character count followed by each character as a little-endian u32 scalar
//! value; arrays and mappings are a u64 element count followed by their
//! encoded elements in order.

use vstd::prelude::*;
use vstd::bytes::spec_u32_from_le_bytes;
use vstd::bytes::spec_u32_to_le_bytes;
use vstd::bytes::spec_u64_from_le_bytes;
use vstd::bytes::spec_u64_to_le_bytes;
use vstd::bytes::lemma_auto_spec_u32_to_from_le_bytes;
use vstd::bytes::lemma_auto_spec_u64_to_from_le_bytes;
use vstd::utf8::is_scalar;
use crate::value::Val;
use crate::value::Value;
use crate::value::v_model;

verus! {

broadcast use
    vstd::std_specs::vec::group_vec_axioms,
    vstd::seq::group_seq_axioms,
    vstd::utf8::char_is_scalar,
    vstd::utf8::char_u32_cast;

/// Each character encoded as the four little-endian bytes of its scalar
/// value, in order.
pub open spec fn encode_chars(s: Seq<char>, i: int) -> Seq<u8>
    decreases s.len() - i,
{
    if i < 0 || i >= s.len() {
        Seq::empty()
    } else {
        spec_u32_to_le_bytes(s[i] as u32) + encode_chars(s, i + 1)
    }
}

/// The encoded bytes of a value.
pub open spec fn spec_encode(v: Val) -> Seq<u8>
    decreases v, 0int,
    via spec_encode_decreases
{
    match v {
        Val::Null => seq![0u8],
        Val::Bool(b) => if b {
            seq![2u8]
        } else {
            seq![1u8]
        },
        Val::Num(n) => seq![3u8] + spec_u64_to_le_bytes(n),
        Val::Str(s) => seq![4u8] + spec_u64_to_le_bytes(s.len() as u64) + encode_chars(s, 0),
        Val::Arr(es) => seq![5u8] + spec_u64_to_le_bytes(es.len() as u64) + encode_list(es, 0),
        Val::Obj(fs) => seq![6u8] + spec_u64_to_le_bytes(fs.len() as u64) + encode_fields(fs, 0),
    }
}

/// The encoded bytes of the array elements from index `i` on.
pub open spec fn encode_list(es: Seq<Val>, i: int) -> Seq<u8>
    decreases es, es.len() - i,
    via encode_list_decreases
{
    if i < 0 || i >= es.len() {
        Seq::empty()
    } else {
        spec_encode(es[i]) + encode_list(es, i + 1)
    }
}

/// The encoded bytes of the mapping fields from index `i` on: for each
/// field, a u64 key length, the key's characters, then the value.
pub open spec fn encode_fields(fs: Seq<(Seq<char>, Val)>, i: int) -> Seq<u8>
    decreases fs, fs.len() - i,
    via encode_fields_decreases
{
    if i < 0 || i >= fs.len() {
        Seq::empty()
    } else {
        spec_u64_to_le_bytes(fs[i].0.len() as u64) + encode_chars(fs[i].0, 0) + spec_encode(
            fs[i].1,
        ) + encode_fields(fs, i + 1)
    }
}

#[via_fn]
proof fn spec_encode_decreases(v: Val) {
    match v {
        Val::Arr(es) => {
            assert(decreases_to!(v => es));
        }
        Val::Obj(fs) => {
            assert(decreases_to!(v => fs));
        }
        _ => {}
    }
}

#[via_fn]
proof fn encode_list_decreases(es: Seq<Val>, i: int) {
    if 0 <= i < es.len() {
        assert(decreases_to!(es => es[i]));
    }
}

#[via_fn]
proof fn encode_fields_decreases(fs: Seq<(Seq<char>, Val)>, i: int) {
    if 0 <= i < fs.len() {
        assert(decreases_to!(fs => fs[i]));
        assert(decreases_to!(fs[i] => fs[i].1));
    }
}

/// The characters read from `n` consecutive little-endian u32 scalar values
/// at `pos`, or `None` when a value is no Unicode scalar.
pub open spec fn decode_chars(b: Seq<u8>, pos: int, n: int) -> Option<Seq<char>>
    decreases n,
{
    if n <= 0 {
        Some(Seq::empty())
    } else if pos < 0 || pos + 4 > b.len() {
        None
    } else {
        let x = spec_u32_from_le_bytes(b.subrange(pos, pos + 4));
        if is_scalar(x) {
            match decode_chars(b, pos + 4, n - 1) {
                Some(rest) => Some(seq![x as char] + rest),
                None => None,
            }
        } else {
            None
        }
    }
}

/// The value decoded at `pos` and the number of bytes it occupies, or
/// `None` when the bytes are no valid encoding.
pub open spec fn spec_decode(b: Seq<u8>, pos: int) -> Option<(Val, nat)>
    decreases b.len() - pos, 0int,
{
    if pos < 0 || pos >= b.len() {
        None
    } else {
        let tag = b[pos];
        if tag == 0u8 {
            Some((Val::Null, 1))
        } else if tag == 1u8 {
            Some((Val::Bool(false), 1))
        } else if tag == 2u8 {
            Some((Val::Bool(true), 1))
        } else if tag == 3u8 {
            if pos + 9 <= b.len() {
                Some((Val::Num(spec_u64_from_le_bytes(b.subrange(pos + 1, pos + 9))), 9))
            } else {
                None
            }
        } else if tag == 4u8 {
            if pos + 9 <= b.len() {
                let n = spec_u64_from_le_bytes(b.subrange(pos + 1, pos + 9)) as int;
                if pos + 9 + 4 * n <= b.len() {
                    match decode_chars(b, pos + 9, n) {
                        Some(cs) => Some((Val::Str(cs), (9 + 4 * n) as nat)),
                        None => None,
                    }
                } else {
                    None
                }
            } else {
                None
            }
        } else if tag == 5u8 {
            if pos + 9 <= b.len() {
                let n = spec_u64_from_le_bytes(b.subrange(pos + 1, pos + 9)) as int;
                match decode_list(b, pos + 9, n) {
                    Some((vs, c)) => Some((Val::Arr(vs), (9 + c) as nat)),
                    None => None,
                }
            } else {
                None
            }
        } else if tag == 6u8 {
            if pos + 9 <= b.len() {
                let n = spec_u64_from_le_bytes(b.subrange(pos + 1, pos + 9)) as int;
                match decode_fields(b, pos + 9, n) {
                    Some((fs, c)) => Some((Val::Obj(fs), (9 + c) as nat)),
                    None => None,
                }
            } else {
                None
            }
        } else {
            None
        }
    }
}

/// `n` consecutive values decoded from `pos`, with the bytes they occupy.
pub open spec fn decode_list(b: Seq<u8>, pos: int, n: int) -> Option<(Seq<Val>, nat)>
    decreases b.len() - pos, n,
{
    if n <= 0 {
        Some((Seq::empty(), 0))
    } else if pos < 0 || pos >= b.len() {
        None
    } else {
        match spec_decode(b, pos) {
            Some((v, c)) => {
                if pos + c <= b.len() {
                    match decode_list(b, pos + c, n - 1) {
                        Some((vs, c2)) => Some((seq![v] + vs, (c + c2) as nat)),
                        None => None,
                    }
                } else {
                    None
                }
            },
            None => None,
        }
    }
}

/// `n` consecutive fields decoded from `pos`, with the bytes they occupy.
pub open spec fn decode_fields(b: Seq<u8>, pos: int, n: int) -> Option<
    (Seq<(Seq<char>, Val)>, nat),
>
    decreases b.len() - pos, n,
{
    if n <= 0 {
        Some((Seq::empty(), 0))
    } else if pos < 0 || pos + 8 > b.len() {
        None
    } else {
        let k = spec_u64_from_le_bytes(b.subrange(pos, pos + 8)) as int;
        if pos + 8 + 4 * k <= b.len() {
            match decode_chars(b, pos + 8, k) {
                Some(key) => {
                    let p2 = pos + 8 + 4 * k;
                    if p2 < b.len() {
                        match spec_decode(b, p2) {
                            Some((v, c)) => {
                                if p2 + c <= b.len() {
                                    match decode_fields(b, p2 + c, n - 1) {
                                        Some((fs, c2)) => Some(
                                            (seq![(key, v)] + fs, (8 + 4 * k + c + c2) as nat),
                                        ),
                                        None => None,
                                    }
                                } else {
                                    None
                                }
                            },
                            None => None,
                        }
                    } else {
                        None
                    }
                },
                None => None,
            }
        } else {
            None
        }
    }
}

/// Lengths that fit the u64 headers of the encoding. Every value built from
/// executable vectors and strings is bounded.
pub open spec fn val_bounded(v: Val) -> bool
    decreases v,
    via val_bounded_decreases
{
    match v {
        Val::Null => true,
        Val::Bool(_) => true,
        Val::Num(_) => true,
        Val::Str(s) => s.len() <= u64::MAX,
        Val::Arr(es) => es.len() <= u64::MAX && (forall|i: int|
            0 <= i < es.len() ==> val_bounded(#[trigger] es[i])),
        Val::Obj(fs) => fs.len() <= u64::MAX && (forall|i: int|
            0 <= i < fs.len() ==> (#[trigger] fs[i]).0.len() <= u64::MAX && val_bounded(fs[i].1)),
    }
}

#[via_fn]
proof fn val_bounded_decreases(v: Val) {
    match v {
        Val::Arr(es) => {
            assert forall|i: int| 0 <= i < es.len() implies decreases_to!(v => es[i]) by {
                assert(decreases_to!(v => es));
                assert(decreases_to!(es => es[i]));
            }
        }
        Val::Obj(fs) => {
            assert forall|i: int| 0 <= i < fs.len() implies decreases_to!(v => fs[i].1) by {
                assert(decreases_to!(v => fs));
                assert(decreases_to!(fs => fs[i]));
                assert(decreases_to!(fs[i] => fs[i].1));
            }
        }
        _ => {}
    }
}

pub proof fn lemma_encode_chars_len(s: Seq<char>, i: int)
    requires
        0 <= i <= s.len(),
    ensures
        encode_chars(s, i).len() == 4 * (s.len() - i),
    decreases s.len() - i,
{
    if i < s.len() {
        lemma_encode_chars_len(s, i + 1);
        assert(spec_u32_to_le_bytes(s[i] as u32).len() == 4) by {
            lemma_auto_spec_u32_to_from_le_bytes();
        }
    }
}

/// Every encoding starts with its tag byte, so it is never empty.
pub proof fn lemma_encode_min_len(v: Val)
    ensures
        spec_encode(v).len() >= 1,
{
}

/// Characters encoded at `pos` decode back to themselves.
proof fn lemma_decode_chars_encode(s: Seq<char>, j: int, b: Seq<u8>, pos: int)
    requires
        0 <= j <= s.len(),
        0 <= pos,
        pos + 4 * (s.len() - j) <= b.len(),
        b.subrange(pos, pos + 4 * (s.len() - j)) == encode_chars(s, j),
    ensures
        decode_chars(b, pos, s.len() - j) == Some(s.subrange(j, s.len() as int)),
    decreases s.len() - j,
{
    lemma_encode_chars_len(s, j);
    if j == s.len() {
        assert(s.subrange(j, s.len() as int) =~= Seq::<char>::empty());
    } else {
        lemma_encode_chars_len(s, j + 1);
        lemma_auto_spec_u32_to_from_le_bytes();
        let e = encode_chars(s, j);
        assert(e == spec_u32_to_le_bytes(s[j] as u32) + encode_chars(s, j + 1));
        assert(b.subrange(pos, pos + 4) =~= spec_u32_to_le_bytes(s[j] as u32)) by {
            assert forall|k: int| 0 <= k < 4 implies #[trigger] b.subrange(pos, pos + 4)[k]
                == spec_u32_to_le_bytes(s[j] as u32)[k] by {
                assert(b.subrange(pos, pos + 4)[k] == b[pos + k]);
                assert(b[pos + k] == b.subrange(pos, pos + 4 * (s.len() - j))[k]);
            }
        }
        let x = spec_u32_from_le_bytes(b.subrange(pos, pos + 4));
        assert(x == s[j] as u32);
        vstd::utf8::char_is_scalar(s[j]);
        vstd::utf8::char_u32_cast(s[j], x);
        assert(is_scalar(x));
        assert((x as char) == s[j]);
        assert(b.subrange(pos + 4, pos + 4 + 4 * (s.len() - (j + 1))) =~= encode_chars(
            s,
            j + 1,
        )) by {
            assert forall|k: int| 0 <= k < 4 * (s.len() - (j + 1)) implies #[trigger] b.subrange(
                pos + 4,
                pos + 4 + 4 * (s.len() - (j + 1)),
            )[k] == encode_chars(s, j + 1)[k] by {
                assert(b.subrange(pos + 4, pos + 4 + 4 * (s.len() - (j + 1)))[k] == b[pos + 4 + k]);
                assert(b[pos + 4 + k] == b.subrange(pos, pos + 4 * (s.len() - j))[4 + k]);
                assert(e[4 + k] == encode_chars(s, j + 1)[k]);
            }
        }
        lemma_decode_chars_encode(s, j + 1, b, pos + 4);
        assert(seq![s[j]] + s.subrange(j + 1, s.len() as int) =~= s.subrange(j, s.len() as int));
    }
}

/// A value encoded at `pos` decodes back to itself, consuming exactly its
/// encoding.
pub proof fn lemma_decode_encode(v: Val, b: Seq<u8>, pos: int)
    requires
        val_bounded(v),
        0 <= pos,
        pos + spec_encode(v).len() <= b.len(),
        b.subrange(pos, pos + spec_encode(v).len() as int) == spec_encode(v),
    ensures
        spec_decode(b, pos) == Some((v, spec_encode(v).len() as nat)),
    decreases v, 0int,
{
    let e = spec_encode(v);
    lemma_auto_spec_u64_to_from_le_bytes();
    assert(b[pos] == e[0]);
    match v {
        Val::Null => {},
        Val::Bool(_) => {},
        Val::Num(n) => {
            assert(b.subrange(pos + 1, pos + 9) =~= spec_u64_to_le_bytes(n)) by {
                assert forall|k: int| 0 <= k < 8 implies #[trigger] b.subrange(pos + 1, pos + 9)[k]
                    == spec_u64_to_le_bytes(n)[k] by {
                    assert(b[pos + 1 + k] == e[1 + k]);
                }
            }
        },
        Val::Str(s) => {
            lemma_encode_chars_len(s, 0);
            assert(b.subrange(pos + 1, pos + 9) =~= spec_u64_to_le_bytes(s.len() as u64)) by {
                assert forall|k: int| 0 <= k < 8 implies #[trigger] b.subrange(pos + 1, pos + 9)[k]
                    == spec_u64_to_le_bytes(s.len() as u64)[k] by {
                    assert(b[pos + 1 + k] == e[1 + k]);
                }
            }
            let n = spec_u64_from_le_bytes(b.subrange(pos + 1, pos + 9)) as int;
            assert(n == s.len());
            assert(b.subrange(pos + 9, pos + 9 + 4 * n) =~= encode_chars(s, 0)) by {
                assert forall|k: int| 0 <= k < 4 * n implies #[trigger] b.subrange(
                    pos + 9,
                    pos + 9 + 4 * n,
                )[k] == encode_chars(s, 0)[k] by {
                    assert(b[pos + 9 + k] == e[9 + k]);
                }
            }
            lemma_decode_chars_encode(s, 0, b, pos + 9);
            assert(s.subrange(0, s.len() as int) =~= s);
        },
        Val::Arr(es) => {
            assert(b.subrange(pos + 1, pos + 9) =~= spec_u64_to_le_bytes(es.len() as u64)) by {
                assert forall|k: int| 0 <= k < 8 implies #[trigger] b.subrange(pos + 1, pos + 9)[k]
                    == spec_u64_to_le_bytes(es.len() as u64)[k] by {
                    assert(b[pos + 1 + k] == e[1 + k]);
                }
            }
            let n = spec_u64_from_le_bytes(b.subrange(pos + 1, pos + 9)) as int;
            assert(n == es.len());
            assert(b.subrange(pos + 9, pos + 9 + encode_list(es, 0).len()) =~= encode_list(
                es,
                0,
            )) by {
                assert forall|k: int| 0 <= k < encode_list(es, 0).len() implies #[trigger] b.subrange(
                    pos + 9,
                    pos + 9 + encode_list(es, 0).len(),
                )[k] == encode_list(es, 0)[k] by {
                    assert(b[pos + 9 + k] == e[9 + k]);
                }
            }
            lemma_decode_list_encode(es, 0, b, pos + 9);
            assert(es.subrange(0, es.len() as int) =~= es);
        },
        Val::Obj(fs) => {
            assert(b.subrange(pos + 1, pos + 9) =~= spec_u64_to_le_bytes(fs.len() as u64)) by {
                assert forall|k: int| 0 <= k < 8 implies #[trigger] b.subrange(pos + 1, pos + 9)[k]
                    == spec_u64_to_le_bytes(fs.len() as u64)[k] by {
                    assert(b[pos + 1 + k] == e[1 + k]);
                }
            }
            let n = spec_u64_from_le_bytes(b.subrange(pos + 1, pos + 9)) as int;
            assert(n == fs.len());
            assert(b.subrange(pos + 9, pos + 9 + encode_fields(fs, 0).len()) =~= encode_fields(
                fs,
                0,
            )) by {
                assert forall|k: int| 0 <= k < encode_fields(fs, 0).len() implies #[trigger] b.subrange(
                    pos + 9,
                    pos + 9 + encode_fields(fs, 0).len(),
                )[k] == encode_fields(fs, 0)[k] by {
                    assert(b[pos + 9 + k] == e[9 + k]);
                }
            }
            lemma_decode_fields_encode(fs, 0, b, pos + 9);
            assert(fs.subrange(0, fs.len() as int) =~= fs);
        },
    }
}

/// Array elements encoded at `pos` decode back to themselves.
proof fn lemma_decode_list_encode(es: Seq<Val>, j: int, b: Seq<u8>, pos: int)
    requires
        forall|i: int| j <= i < es.len() ==> val_bounded(#[trigger] es[i]),
        0 <= j <= es.len(),
        0 <= pos,
        pos + encode_list(es, j).len() <= b.len(),
        b.subrange(pos, pos + encode_list(es, j).len()) == encode_list(es, j),
    ensures
        decode_list(b, pos, es.len() - j) == Some(
            (es.subrange(j, es.len() as int), encode_list(es, j).len() as nat),
        ),
    decreases es, es.len() - j,
{
    if j == es.len() {
        assert(es.subrange(j, es.len() as int) =~= Seq::<Val>::empty());
    } else {
        let e0 = spec_encode(es[j]);
        let rest = encode_list(es, j + 1);
        assert(encode_list(es, j) == e0 + rest);
        lemma_encode_min_len(es[j]);
        assert(b.subrange(pos, pos + e0.len()) =~= e0) by {
            assert forall|k: int| 0 <= k < e0.len() implies #[trigger] b.subrange(pos, pos + e0.len())[k]
                == e0[k] by {
                assert(b[pos + k] == b.subrange(pos, pos + encode_list(es, j).len())[k]);
            }
        }
        lemma_decode_encode(es[j], b, pos);
        assert(b.subrange(pos + e0.len(), pos + e0.len() + rest.len()) =~= rest) by {
            assert forall|k: int| 0 <= k < rest.len() implies #[trigger] b.subrange(
                pos + e0.len(),
                pos + e0.len() + rest.len(),
            )[k] == rest[k] by {
                assert(b[pos + e0.len() + k] == b.subrange(
                    pos,
                    pos + encode_list(es, j).len(),
                )[e0.len() + k]);
            }
        }
        lemma_decode_list_encode(es, j + 1, b, pos + e0.len());
        assert(seq![es[j]] + es.subrange(j + 1, es.len() as int) =~= es.subrange(
            j,
            es.len() as int,
        ));
    }
}

/// Mapping fields encoded at `pos` decode back to themselves.
proof fn lemma_decode_fields_encode(fs: Seq<(Seq<char>, Val)>, j: int, b: Seq<u8>, pos: int)
    requires
        forall|i: int|
            j <= i < fs.len() ==> (#[trigger] fs[i]).0.len() <= u64::MAX && val_bounded(fs[i].1),
        0 <= j <= fs.len(),
        0 <= pos,
        pos + encode_fields(fs, j).len() <= b.len(),
        b.subrange(pos, pos + encode_fields(fs, j).len()) == encode_fields(fs, j),
    ensures
        decode_fields(b, pos, fs.len() - j) == Some(
            (fs.subrange(j, fs.len() as int), encode_fields(fs, j).len() as nat),
        ),
    decreases fs, fs.len() - j,
{
    lemma_auto_spec_u64_to_from_le_bytes();
    if j == fs.len() {
        assert(fs.subrange(j, fs.len() as int) =~= Seq::<(Seq<char>, Val)>::empty());
    } else {
        let key = fs[j].0;
        let ev = spec_encode(fs[j].1);
        let rest = encode_fields(fs, j + 1);
        let e = encode_fields(fs, j);
        lemma_encode_chars_len(key, 0);
        lemma_encode_min_len(fs[j].1);
        assert(e == spec_u64_to_le_bytes(key.len() as u64) + encode_chars(key, 0) + ev + rest);
        assert(b.subrange(pos, pos + 8) =~= spec_u64_to_le_bytes(key.len() as u64)) by {
            assert forall|k: int| 0 <= k < 8 implies #[trigger] b.subrange(pos, pos + 8)[k]
                == spec_u64_to_le_bytes(key.len() as u64)[k] by {
                assert(b[pos + k] == b.subrange(pos, pos + e.len())[k]);
            }
        }
        let kn = spec_u64_from_le_bytes(b.subrange(pos, pos + 8)) as int;
        assert(kn == key.len());
        assert(b.subrange(pos + 8, pos + 8 + 4 * kn) =~= encode_chars(key, 0)) by {
            assert forall|k: int| 0 <= k < 4 * kn implies #[trigger] b.subrange(pos + 8, pos + 8 + 4 * kn)[k]
                == encode_chars(key, 0)[k] by {
                assert(b[pos + 8 + k] == b.subrange(pos, pos + e.len())[8 + k]);
            }
        }
        lemma_decode_chars_encode(key, 0, b, pos + 8);
        assert(key.subrange(0, key.len() as int) =~= key);
        let p2 = pos + 8 + 4 * kn;
        assert(b.subrange(p2, p2 + ev.len()) =~= ev) by {
            assert forall|k: int| 0 <= k < ev.len() implies #[trigger] b.subrange(p2, p2 + ev.len())[k]
                == ev[k] by {
                assert(b[p2 + k] == b.subrange(pos, pos + e.len())[8 + 4 * kn + k]);
            }
        }
        lemma_decode_encode(fs[j].1, b, p2);
        let p3 = p2 + ev.len();
        assert(b.subrange(p3, p3 + rest.len()) =~= rest) by {
            assert forall|k: int| 0 <= k < rest.len() implies #[trigger] b.subrange(p3, p3 + rest.len())[k]
                == rest[k] by {
                assert(b[p3 + k] == b.subrange(pos, pos + e.len())[8 + 4 * kn + ev.len() + k]);
            }
        }
        lemma_decode_fields_encode(fs, j + 1, b, p3);
        assert(seq![(key, fs[j].1)] + fs.subrange(j + 1, fs.len() as int) =~= fs.subrange(
            j,
            fs.len() as int,
        ));
    }
}

/// The round trip: decoding an encoding yields the encoded value and
/// consumes the whole buffer.
pub proof fn lemma_round_trip(v: Val)
    requires
        val_bounded(v),
    ensures
        spec_decode(spec_encode(v), 0) == Some((v, spec_encode(v).len() as nat)),
{
    let e = spec_encode(v);
    assert(e.subrange(0, e.len() as int) =~= e);
    lemma_decode_encode(v, e, 0);
}

/// Relies on std's `char::from_u32`: it returns `Some` exactly for valid
/// Unicode scalar values, giving the character with that code.
#[verifier::external_body]
fn char_from_u32(x: u32) -> (r: Option<char>)
    ensures
        match r {
            Some(c) => c as u32 == x,
            None => !is_scalar(x),
        },
{
    char::from_u32(x)
}

/// Relies on std's `FromIterator<char> for String`: the resulting string
/// holds exactly the given characters in order.
#[verifier::external_body]
fn string_from_chars(cs: &Vec<char>) -> (r: String)
    ensures
        r@ == cs@,
{
    cs.iter().collect()
}

/// Append the characters of `s` as little-endian u32 scalar values.
fn encode_str_chars(s: &str, out: &mut Vec<u8>)
    ensures
        final(out)@ == old(out)@ + encode_chars(s@, 0),
{
    let n = s.unicode_len();
    let mut i: usize = 0;
    while i < n
        invariant
            i <= n,
            n == s@.len(),
            old(out)@ + encode_chars(s@, 0) == out@ + encode_chars(s@, i as int),
        decreases n - i,
    {
        let c = s.get_char(i);
        let mut cb = vstd::bytes::u32_to_le_bytes(c as u32);
        let ghost prev = out@;
        out.append(&mut cb);
        proof {
            assert(prev + (spec_u32_to_le_bytes(c as u32) + encode_chars(s@, i + 1)) =~= (prev
                + spec_u32_to_le_bytes(c as u32)) + encode_chars(s@, i + 1));
        }
        i += 1;
    }
    proof {
        assert(out@ + encode_chars(s@, n as int) =~= out@);
    }
}

/// Append the encoding of `v` to `out`. As a byproduct the traversal shows
/// that every length in `v` fits the encoding's u64 headers.
#[verifier::loop_isolation(false)]
pub fn encode_value(v: &Value, out: &mut Vec<u8>)
    ensures
        final(out)@ == old(out)@ + spec_encode(v@),
        val_bounded(v@),
    decreases v,
{
    let ghost base = out@;
    match v {
        Value::Null => {
            out.push(0u8);
            proof {
                assert(out@ =~= base + spec_encode(v@));
            }
        },
        Value::Bool(b) => {
            if *b {
                out.push(2u8);
            } else {
                out.push(1u8);
            }
            proof {
                assert(out@ =~= base + spec_encode(v@));
            }
        },
        Value::Num(n) => {
            out.push(3u8);
            let mut nb = vstd::bytes::u64_to_le_bytes(*n);
            out.append(&mut nb);
            proof {
                assert(out@ =~= base + spec_encode(v@));
            }
        },
        Value::Str(s) => {
            out.push(4u8);
            let n = s.as_str().unicode_len();
            let mut nb = vstd::bytes::u64_to_le_bytes(n as u64);
            out.append(&mut nb);
            let ghost mid = out@;
            encode_str_chars(s.as_str(), out);
            proof {
                assert(n as u64 == s@.len() as u64);
                assert(out@ =~= base + spec_encode(v@));
            }
        },
        Value::Arr(a) => {
            out.push(5u8);
            let mut nb = vstd::bytes::u64_to_le_bytes(a.len() as u64);
            out.append(&mut nb);
            let ghost mid = out@;
            let ghost es = crate::value::arr_model(a@);
            let mut i: usize = 0;
            while i < a.len()
                invariant
                    i <= a@.len(),
                    es == crate::value::arr_model(a@),
                    es.len() == a@.len(),
                    mid + encode_list(es, 0) == out@ + encode_list(es, i as int),
                    forall|j: int| 0 <= j < i ==> val_bounded(#[trigger] es[j]),
                decreases a@.len() - i,
            {
                proof {
                    assert(decreases_to!(*v => v->Arr_0));
                    assert(*a == v->Arr_0);
                    assert(decreases_to!(*a => a@));
                    assert(decreases_to!(a@ => a@[i as int]));
                }
                let ghost prev = out@;
                encode_value(&a[i], out);
                proof {
                    assert(es[i as int] == v_model(a@[i as int]));
                    assert(prev + (spec_encode(es[i as int]) + encode_list(es, i + 1)) =~= (prev
                        + spec_encode(es[i as int])) + encode_list(es, i + 1));
                }
                i += 1;
            }
            proof {
                assert(out@ + encode_list(es, a@.len() as int) =~= out@);
                assert(a@.len() == vstd::std_specs::vec::spec_vec_len(a));
                assert(out@ =~= base + spec_encode(v@));
            }
        },
        Value::Obj(fs) => {
            out.push(6u8);
            let mut nb = vstd::bytes::u64_to_le_bytes(fs.len() as u64);
            out.append(&mut nb);
            let ghost mid = out@;
            let ghost fm = crate::value::fields_model(fs@);
            let mut i: usize = 0;
            while i < fs.len()
                invariant
                    i <= fs@.len(),
                    fm == crate::value::fields_model(fs@),
                    fm.len() == fs@.len(),
                    mid + encode_fields(fm, 0) == out@ + encode_fields(fm, i as int),
                    forall|j: int|
                        0 <= j < i ==> (#[trigger] fm[j]).0.len() <= u64::MAX && val_bounded(
                            fm[j].1,
                        ),
                decreases fs@.len() - i,
            {
                proof {
                    assert(decreases_to!(*v => v->Obj_0));
                    assert(*fs == v->Obj_0);
                    assert(decreases_to!(*fs => fs@));
                    assert(decreases_to!(fs@ => fs@[i as int]));
                    assert(decreases_to!(fs@[i as int] => fs@[i as int].value));
                }
                let key = &fs[i].key;
                let kn = key.as_str().unicode_len();
                let mut kb = vstd::bytes::u64_to_le_bytes(kn as u64);
                out.append(&mut kb);
                encode_str_chars(key.as_str(), out);
                let ghost prev = out@;
                encode_value(&fs[i].value, out);
                proof {
                    assert(fm[i as int] == (fs@[i as int].key@, v_model(fs@[i as int].value)));
                    assert(kn as u64 == fm[i as int].0.len() as u64);
                    let head = spec_u64_to_le_bytes(fm[i as int].0.len() as u64) + encode_chars(
                        fm[i as int].0,
                        0,
                    ) + spec_encode(fm[i as int].1);
                    assert(out@ =~= prev + spec_encode(fm[i as int].1));
                    assert(out@ + encode_fields(fm, i + 1) =~= mid + encode_fields(fm, 0));
                }
                i += 1;
            }
            proof {
                assert(out@ + encode_fields(fm, fs@.len() as int) =~= out@);
                assert(fs@.len() == vstd::std_specs::vec::spec_vec_len(fs));
                assert(out@ =~= base + spec_encode(v@));
            }
        },
    }
}

/// Read `n` characters stored as little-endian u32 scalar values at `pos`.
fn decode_chars_exec(b: &Vec<u8>, pos: usize, n: usize) -> (r: Option<Vec<char>>)
    requires
        pos + 4 * n <= b@.len(),
    ensures
        match r {
            Some(cs) => decode_chars(b@, pos as int, n as int) == Some(cs@),
            None => decode_chars(b@, pos as int, n as int) is None,
        },
{
    let blen = b.len();
    let mut cs: Vec<char> = Vec::new();
    let mut j: usize = 0;
    while j < n
        invariant
            j <= n,
            blen == b@.len(),
            pos + 4 * n <= b@.len(),
            decode_chars(b@, pos as int, n as int) == (match decode_chars(
                b@,
                pos + 4 * j,
                n - j,
            ) {
                Some(rest) => Some(cs@ + rest),
                None => None,
            }),
        decreases n - j,
    {
        let p: usize = pos + 4 * j;
        let s = vstd::slice::slice_subrange(b.as_slice(), p, p + 4);
        let x = vstd::bytes::u32_from_le_bytes(s);
        proof {
            assert(x == spec_u32_from_le_bytes(b@.subrange(p as int, p + 4)));
        }
        match char_from_u32(x) {
            Some(c) => {
                proof {
                    vstd::utf8::char_is_scalar(c);
                    vstd::utf8::char_u32_cast(c, x);
                    assert((x as char) == c);
                }
                let ghost prev = cs@;
                cs.push(c);
                proof {
                    let rest2 = match decode_chars(b@, pos + 4 * (j + 1), n - (j + 1)) {
                        Some(t) => t,
                        None => Seq::empty(),
                    };
                    if decode_chars(b@, pos + 4 * (j + 1), n - (j + 1)) is Some {
                        assert(prev + (seq![c] + rest2) =~= cs@ + rest2);
                    }
                }
                j += 1;
            },
            None => {
                return None;
            },
        }
    }
    proof {
        assert(cs@ + Seq::<char>::empty() =~= cs@);
    }
    Some(cs)
}

/// Decode the value at `pos`, returning it and the bytes it occupies.
#[verifier::loop_isolation(false)]
pub fn decode_value(b: &Vec<u8>, pos: usize) -> (r: Option<(Value, usize)>)
    ensures
        match r {
            Some(p) => pos + p.1 <= b@.len() && spec_decode(b@, pos as int) == Some(
                (p.0@, p.1 as nat),
            ),
            None => spec_decode(b@, pos as int) is None,
        },
    decreases b@.len() - pos,
{
    if pos >= b.len() {
        return None;
    }
    let tag = b[pos];
    let rem: usize = b.len() - pos;
    if tag == 0u8 {
        Some((Value::Null, 1))
    } else if tag == 1u8 {
        Some((Value::Bool(false), 1))
    } else if tag == 2u8 {
        Some((Value::Bool(true), 1))
    } else if tag == 3u8 {
        if rem < 9 {
            return None;
        }
        let s = vstd::slice::slice_subrange(b.as_slice(), pos + 1, pos + 9);
        let n = vstd::bytes::u64_from_le_bytes(s);
        Some((Value::Num(n), 9))
    } else if tag == 4u8 {
        if rem < 9 {
            return None;
        }
        let s = vstd::slice::slice_subrange(b.as_slice(), pos + 1, pos + 9);
        let n64 = vstd::bytes::u64_from_le_bytes(s);
        let rem2: usize = rem - 9;
        if n64 > (rem2 as u64) / 4 {
            return None;
        }
        let n: usize = n64 as usize;
        match decode_chars_exec(b, pos + 9, n) {
            Some(cs) => {
                let st = string_from_chars(&cs);
                Some((Value::Str(st), 9 + 4 * n))
            },
            None => None,
        }
    } else if tag == 5u8 {
        if rem < 9 {
            return None;
        }
        let s = vstd::slice::slice_subrange(b.as_slice(), pos + 1, pos + 9);
        let n64 = vstd::bytes::u64_from_le_bytes(s);
        let mut elems: Vec<Value> = Vec::new();
        let mut p: usize = pos + 9;
        let mut j: u64 = 0;
        while j < n64
            invariant
                j <= n64,
                pos + 9 <= p <= b@.len(),
                decode_list(b@, pos + 9, n64 as int) == (match decode_list(
                    b@,
                    p as int,
                    (n64 - j) as int,
                ) {
                    Some((vs, c)) => Some(
                        (crate::value::arr_model(elems@) + vs, ((p - (pos + 9)) + c) as nat),
                    ),
                    None => None,
                }),
            decreases n64 - j,
        {
            match decode_value(b, p) {
                Some(pair) => {
                    let (v, c) = pair;
                    let ghost prevm = crate::value::arr_model(elems@);
                    elems.push(v);
                    proof {
                        assert(crate::value::arr_model(elems@) =~= prevm.push(v@));
                        let tail = decode_list(b@, p + c, (n64 - j - 1) as int);
                        if tail is Some {
                            let (vs2, c2) = tail.unwrap();
                            assert(prevm + (seq![v@] + vs2) =~= crate::value::arr_model(elems@)
                                + vs2);
                        }
                    }
                    p = p + c;
                    j = j + 1;
                },
                None => {
                    return None;
                },
            }
        }
        proof {
            assert(crate::value::arr_model(elems@) + Seq::<Val>::empty() =~= crate::value::arr_model(
                elems@,
            ));
        }
        let c_total: usize = p - (pos + 9);
        Some((Value::Arr(elems), 9 + c_total))
    } else if tag == 6u8 {
        if rem < 9 {
            return None;
        }
        let s = vstd::slice::slice_subrange(b.as_slice(), pos + 1, pos + 9);
        let n64 = vstd::bytes::u64_from_le_bytes(s);
        let mut fields: Vec<crate::value::Field> = Vec::new();
        let mut p: usize = pos + 9;
        let mut j: u64 = 0;
        while j < n64
            invariant
                j <= n64,
                pos + 9 <= p <= b@.len(),
                decode_fields(b@, pos + 9, n64 as int) == (match decode_fields(
                    b@,
                    p as int,
                    (n64 - j) as int,
                ) {
                    Some((fs, c)) => Some(
                        (crate::value::fields_model(fields@) + fs, ((p - (pos + 9)) + c) as nat),
                    ),
                    None => None,
                }),
            decreases n64 - j,
        {
            if b.len() - p < 8 {
                return None;
            }
            let ks = vstd::slice::slice_subrange(b.as_slice(), p, p + 8);
            let k64 = vstd::bytes::u64_from_le_bytes(ks);
            let krem: usize = b.len() - p - 8;
            if k64 > (krem as u64) / 4 {
                return None;
            }
            let kn: usize = k64 as usize;
            match decode_chars_exec(b, p + 8, kn) {
                Some(kcs) => {
                    let key = string_from_chars(&kcs);
                    let p2: usize = p + 8 + 4 * kn;
                    if p2 >= b.len() {
                        return None;
                    }
                    match decode_value(b, p2) {
                        Some(pair) => {
                            let (v, c) = pair;
                            let ghost prevm = crate::value::fields_model(fields@);
                            fields.push(crate::value::Field { key, value: v });
                            proof {
                                assert(crate::value::fields_model(fields@) =~= prevm.push(
                                    (kcs@, v@),
                                ));
                                let tail = decode_fields(b@, p2 + c, (n64 - j - 1) as int);
                                if tail is Some {
                                    let (fs2, c2) = tail.unwrap();
                                    assert(prevm + (seq![(kcs@, v@)] + fs2)
                                        =~= crate::value::fields_model(fields@) + fs2);
                                }
                            }
                            p = p2 + c;
                            j = j + 1;
                        },
                        None => {
                            return None;
                        },
                    }
                },
                None => {
                    return None;
                },
            }
        }
        proof {
            assert(crate::value::fields_model(fields@) + Seq::<(Seq<char>, Val)>::empty()
                =~= crate::value::fields_model(fields@));
        }
        let c_total: usize = p - (pos + 9);
        Some((Value::Obj(fields), 9 + c_total))
    } else {
        None
    }
}

/// Encode a value into a fresh buffer.
pub fn encode_val(v: &Value) -> (r: Vec<u8>)
    ensures
        r@ == spec_encode(v@),
        val_bounded(v@),
{
    let mut out: Vec<u8> = Vec::new();
    encode_value(v, &mut out);
    proof {
        assert(Seq::<u8>::empty() + spec_encode(v@) =~= spec_encode(v@));
    }
    out
}

/// Decode a buffer that holds exactly one encoded value.
pub fn decode_val(b: &Vec<u8>) -> (r: Option<Value>)
    ensures
        ({
            let d = spec_decode(b@, 0);
            match r {
                Some(v) => d == Some((v@, b@.len() as nat)),
                None => d is None || d.unwrap().1 != b@.len(),
            }
        }),
{
    match decode_value(b, 0) {
        Some(pair) => {
            let (v, c) = pair;
            if c == b.len() {
                Some(v)
            } else {
                None
            }
        },
        None => None,
    }
}

} // verus!
