//! The laws of the codec, proved about the wire model: a well-formed tree
//! always encodes, decoding an encoding yields the original tree and name
//! under either byte order, a heterogeneous list is rejected with the first
//! offending index and both kinds, and an out-of-range list count is
//! rejected outright.

use vstd::prelude::*;
use vstd::utf8::{decode_utf8, encode_utf8, encode_utf8_decode_utf8, encode_utf8_valid_utf8};

use crate::codec::Endian;
use crate::error::NBTErrorKind;
use crate::model::{
    check_homog, dec_elems, dec_entries, dec_named, dec_string, dec_value, enc_elems,
    enc_entries, enc_i32s, enc_i64s, enc_named, enc_string, enc_value, first_mismatch,
    lemma_check_homog,
};
use crate::tag::{lemma_tag_bijection, tag_from_id, tag_id, Tag};
use crate::value::{
    index_of_key, insert_entry, kind_of, lemma_index_of_key, string_fits, unique_keys,
    wf_value, ValueModel,
};
use crate::wire::{
    dec_u16, dec_u32, dec_u64, enc_u16, enc_u32, enc_u64, lemma_reinterpret_roundtrip,
    lemma_scalar_roundtrip, u32_of_i32, u8_of_i8,
};

verus! {

broadcast use vstd::seq::axiom_seq_subrange_index;

/// Splits knowledge of a two-part subrange into its parts.
proof fn lemma_split2(b: Seq<u8>, pos: int, x: Seq<u8>, y: Seq<u8>)
    requires
        0 <= pos,
        pos + x.len() + y.len() <= b.len(),
        b.subrange(pos, pos + x.len() + y.len()) == x + y,
    ensures
        b.subrange(pos, pos + x.len()) == x,
        b.subrange(pos + x.len(), pos + x.len() + y.len()) == y,
{
    assert(b.subrange(pos, pos + x.len()) =~= x) by {
        assert forall|i: int| 0 <= i < x.len() implies b.subrange(pos, pos + x.len())[i]
            == x[i] by {
            assert((x + y)[i] == b.subrange(pos, pos + x.len() + y.len())[i]);
        }
    }
    assert(b.subrange(pos + x.len(), pos + x.len() + y.len()) =~= y) by {
        assert forall|i: int|
            0 <= i < y.len() implies b.subrange(pos + x.len(), pos + x.len() + y.len())[i]
            == y[i] by {
            assert(b.subrange(pos, pos + x.len() + y.len())[x.len() + i] == (x + y)[x.len()
                + i]);
            assert((x + y)[x.len() + i] == y[i]);
            assert(b.subrange(pos, pos + x.len() + y.len())[x.len() + i] == b[pos + x.len()
                + i]);
            assert(b.subrange(pos + x.len(), pos + x.len() + y.len())[i] == b[pos + x.len()
                + i]);
        }
    }
}

/// A string's wire bytes decode back to the same text.
proof fn lemma_enc_dec_string(e: Endian, sv: Seq<char>, b: Seq<u8>, pos: int, s: Seq<u8>)
    requires
        enc_string(e, sv) == Ok::<Seq<u8>, NBTErrorKind>(s),
        0 <= pos,
        pos + s.len() <= b.len(),
        b.subrange(pos, pos + s.len()) == s,
    ensures
        dec_string(e, b, pos) == Ok::<(Seq<char>, int), NBTErrorKind>((sv, pos + s.len())),
{
    lemma_scalar_roundtrip(e);
    let ub = encode_utf8(sv);
    let prefix = enc_u16(e, ub.len() as u16);
    assert(s == prefix + ub);
    lemma_split2(b, pos, prefix, ub);
    assert(dec_u16(e, b.subrange(pos, pos + 2)) == ub.len() as u16);
    encode_utf8_valid_utf8(sv);
    encode_utf8_decode_utf8(sv);
    assert(b.subrange(pos + 2, pos + 2 + ub.len()) == ub);
    assert(decode_utf8(b.subrange(pos + 2, pos + 2 + ub.len())) == sv);
}

/// The element bytes of an int array: their total width and each element's
/// 4-byte window.
proof fn lemma_enc_i32s_parts(e: Endian, a: Seq<i32>)
    ensures
        enc_i32s(e, a).len() == 4 * a.len(),
        forall|j: int|
            0 <= j < a.len() ==> enc_i32s(e, a).subrange(4 * j, 4 * j + 4) == enc_u32(
                e,
                u32_of_i32(a[j]),
            ),
    decreases a.len(),
{
    lemma_scalar_roundtrip(e);
    if a.len() > 0 {
        lemma_enc_i32s_parts(e, a.skip(1));
        let head = enc_u32(e, u32_of_i32(a[0]));
        let tail = enc_i32s(e, a.skip(1));
        assert(enc_i32s(e, a) == head + tail);
        assert forall|j: int|
            0 <= j < a.len() implies enc_i32s(e, a).subrange(4 * j, 4 * j + 4) == enc_u32(
            e,
            u32_of_i32(a[j]),
        ) by {
            if j == 0 {
                assert(enc_i32s(e, a).subrange(0, 4) =~= head);
            } else {
                assert(a.skip(1)[j - 1] == a[j]);
                assert(tail.subrange(4 * (j - 1), 4 * (j - 1) + 4) == enc_u32(
                    e,
                    u32_of_i32(a[j]),
                ));
                assert(enc_i32s(e, a).subrange(4 * j, 4 * j + 4) =~= tail.subrange(
                    4 * (j - 1),
                    4 * (j - 1) + 4,
                ));
            }
        }
    }
}

/// The element bytes of a long array: their total width and each element's
/// 8-byte window.
proof fn lemma_enc_i64s_parts(e: Endian, a: Seq<i64>)
    ensures
        enc_i64s(e, a).len() == 8 * a.len(),
        forall|j: int|
            0 <= j < a.len() ==> enc_i64s(e, a).subrange(8 * j, 8 * j + 8) == enc_u64(
                e,
                crate::wire::u64_of_i64(a[j]),
            ),
    decreases a.len(),
{
    lemma_scalar_roundtrip(e);
    if a.len() > 0 {
        lemma_enc_i64s_parts(e, a.skip(1));
        let head = enc_u64(e, crate::wire::u64_of_i64(a[0]));
        let tail = enc_i64s(e, a.skip(1));
        assert(enc_i64s(e, a) == head + tail);
        assert forall|j: int|
            0 <= j < a.len() implies enc_i64s(e, a).subrange(8 * j, 8 * j + 8) == enc_u64(
            e,
            crate::wire::u64_of_i64(a[j]),
        ) by {
            if j == 0 {
                assert(enc_i64s(e, a).subrange(0, 8) =~= head);
            } else {
                assert(a.skip(1)[j - 1] == a[j]);
                assert(tail.subrange(8 * (j - 1), 8 * (j - 1) + 8) == enc_u64(
                    e,
                    crate::wire::u64_of_i64(a[j]),
                ));
                assert(enc_i64s(e, a).subrange(8 * j, 8 * j + 8) =~= tail.subrange(
                    8 * (j - 1),
                    8 * (j - 1) + 8,
                ));
            }
        }
    }
}

/// A well-formed tree always encodes.
pub proof fn lemma_wf_enc_value(e: Endian, v: ValueModel)
    requires
        wf_value(v),
    ensures
        enc_value(e, v) is Ok,
    decreases v, 0int, 0int,
{
    match v {
        ValueModel::List(elems) => {
            if elems.len() > 0 {
                let t = kind_of(elems[0]);
                lemma_check_homog(elems, t, 0);
                let f = first_mismatch(elems, t, 0);
                if f >= 0 {
                    assert(kind_of(elems[f]) == t);
                }
                lemma_wf_enc_elems(e, elems, 0);
            }
        },
        ValueModel::Compound(es) => {
            lemma_wf_enc_entries(e, es, 0);
        },
        _ => {},
    }
}

/// Every element of a well-formed run encodes.
proof fn lemma_wf_enc_elems(e: Endian, elems: Seq<ValueModel>, i: int)
    requires
        0 <= i <= elems.len(),
        forall|j: int| 0 <= j < elems.len() ==> wf_value(#[trigger] elems[j]),
    ensures
        enc_elems(e, elems, i) is Ok,
    decreases elems, elems.len() - i, 1int,
{
    if i < elems.len() {
        lemma_wf_enc_value(e, elems[i]);
        lemma_wf_enc_elems(e, elems, i + 1);
    }
}

/// Every entry of a well-formed compound encodes.
proof fn lemma_wf_enc_entries(e: Endian, es: Seq<(Seq<char>, ValueModel)>, i: int)
    requires
        0 <= i <= es.len(),
        forall|j: int| 0 <= j < es.len() ==> string_fits((#[trigger] es[j]).0),
        forall|j: int| 0 <= j < es.len() ==> wf_value((#[trigger] es[j]).1),
    ensures
        enc_entries(e, es, i) is Ok,
    decreases es, es.len() - i, 1int,
{
    if i < es.len() {
        lemma_wf_enc_value(e, es[i].1);
        lemma_wf_enc_entries(e, es, i + 1);
    }
}

/// Decoding the encoding of a well-formed tree at any position in any
/// buffer yields the tree back, consuming exactly its bytes.
#[verifier::rlimit(100)]
pub proof fn lemma_enc_dec_value(e: Endian, v: ValueModel, b: Seq<u8>, pos: int, s: Seq<u8>)
    requires
        wf_value(v),
        enc_value(e, v) == Ok::<Seq<u8>, NBTErrorKind>(s),
        0 <= pos,
        pos + s.len() <= b.len(),
        b.subrange(pos, pos + s.len()) == s,
    ensures
        dec_value(e, kind_of(v), b, pos) == Ok::<(ValueModel, int), NBTErrorKind>(
            (v, pos + s.len()),
        ),
    decreases v, 0int, 0int,
{
    lemma_scalar_roundtrip(e);
    lemma_reinterpret_roundtrip();
    lemma_tag_bijection();
    match v {
        ValueModel::End => {},
        ValueModel::Byte(x) => {
            assert(b.subrange(pos, pos + 1)[0] == b[pos]);
            assert(b[pos] == u8_of_i8(x));
        },
        ValueModel::Short(_) => {},
        ValueModel::Int(_) => {},
        ValueModel::Long(_) => {},
        ValueModel::Float(_) => {},
        ValueModel::Double(_) => {},
        ValueModel::ByteArray(a) => {
            let prefix = enc_u32(e, a.len() as u32);
            let body = crate::model::bytes_of_i8s(a);
            assert(s == prefix + body);
            lemma_split2(b, pos, prefix, body);
            assert(dec_u32(e, b.subrange(pos, pos + 4)) == a.len() as u32);
            assert(b.subrange(pos + 4, pos + 4 + a.len()).map(|i: int, x: u8|
                crate::wire::i8_of_u8(x)) =~= a);
        },
        ValueModel::String(sv) => {
            lemma_enc_dec_string(e, sv, b, pos, s);
        },
        ValueModel::List(elems) => {
            if elems.len() == 0 {
                let prefix = seq![tag_id(Tag::End)];
                let cnt = enc_u32(e, 0);
                assert(s == prefix + cnt);
                lemma_split2(b, pos, prefix, cnt);
                assert(b.subrange(pos, pos + 1)[0] == b[pos]);
                assert(b[pos] == 0);
                assert(dec_u32(e, b.subrange(pos + 1, pos + 5)) == 0);
                assert(elems =~= Seq::<ValueModel>::empty());
            } else {
                let t = kind_of(elems[0]);
                let payload = match enc_elems(e, elems, 0) {
                    Ok(p) => p,
                    Err(_) => Seq::empty(),
                };
                let prefix = seq![tag_id(t)];
                let cnt = enc_u32(e, elems.len() as u32);
                assert(s == prefix + cnt + payload);
                assert(s =~= prefix + (cnt + payload));
                lemma_split2(b, pos, prefix, cnt + payload);
                lemma_split2(b, pos + 1, cnt, payload);
                assert(b.subrange(pos, pos + 1)[0] == b[pos]);
                assert(b[pos] == tag_id(t));
                assert(tag_from_id(b[pos]) == Some(t));
                let raw = dec_u32(e, b.subrange(pos + 1, pos + 5));
                assert(b.subrange(pos + 1, pos + 5) =~= b.subrange(
                    pos + 1,
                    pos + 1 + 4,
                ));
                assert(raw == elems.len() as u32);
                assert(crate::wire::i32_of_u32(raw) == elems.len());
                lemma_enc_dec_elems(e, t, elems, 0, b, pos + 5, payload);
                assert(elems.skip(0) =~= elems);
            }
        },
        ValueModel::Compound(es) => {
            let body = match enc_entries(e, es, 0) {
                Ok(p) => p,
                Err(_) => Seq::empty(),
            };
            assert(s == body + seq![tag_id(Tag::End)]);
            assert(b[pos + body.len()] == s[body.len() as int]);
            assert(s[body.len() as int] == 0);
            assert(b.subrange(pos, pos + body.len()) =~= body) by {
                assert forall|i: int|
                    0 <= i < body.len() implies b.subrange(pos, pos + body.len())[i]
                    == body[i] by {
                    assert(s[i] == b.subrange(pos, pos + s.len())[i]);
                }
            }
            lemma_enc_dec_entries(e, es, 0, b, pos, body);
            assert(es.take(0) =~= Seq::<(Seq<char>, ValueModel)>::empty());
        },
        ValueModel::IntArray(a) => {
            let prefix = enc_u32(e, a.len() as u32);
            let body = enc_i32s(e, a);
            lemma_enc_i32s_parts(e, a);
            assert(s == prefix + body);
            lemma_split2(b, pos, prefix, body);
            assert(dec_u32(e, b.subrange(pos, pos + 4)) == a.len() as u32);
            assert(crate::model::dec_i32s(e, b, pos + 4, a.len() as int) =~= a) by {
                assert forall|j: int|
                    0 <= j < a.len() implies crate::model::dec_i32s(
                    e,
                    b,
                    pos + 4,
                    a.len() as int,
                )[j] == a[j] by {
                    assert(b.subrange(pos + 4 + 4 * j, pos + 4 + 4 * j + 4) =~= body.subrange(
                        4 * j,
                        4 * j + 4,
                    ));
                    assert(body.subrange(4 * j, 4 * j + 4) == enc_u32(e, u32_of_i32(a[j])));
                }
            }
        },
        ValueModel::LongArray(a) => {
            let prefix = enc_u32(e, a.len() as u32);
            let body = enc_i64s(e, a);
            lemma_enc_i64s_parts(e, a);
            assert(s == prefix + body);
            lemma_split2(b, pos, prefix, body);
            assert(dec_u32(e, b.subrange(pos, pos + 4)) == a.len() as u32);
            assert(crate::model::dec_i64s(e, b, pos + 4, a.len() as int) =~= a) by {
                assert forall|j: int|
                    0 <= j < a.len() implies crate::model::dec_i64s(
                    e,
                    b,
                    pos + 4,
                    a.len() as int,
                )[j] == a[j] by {
                    assert(b.subrange(pos + 4 + 8 * j, pos + 4 + 8 * j + 8) =~= body.subrange(
                        8 * j,
                        8 * j + 8,
                    ));
                    assert(body.subrange(8 * j, 8 * j + 8) == enc_u64(
                        e,
                        crate::wire::u64_of_i64(a[j]),
                    ));
                }
            }
        },
    }
}

/// Decoding the encoding of a run of well-formed same-kind elements yields
/// the elements back.
proof fn lemma_enc_dec_elems(
    e: Endian,
    t: Tag,
    elems: Seq<ValueModel>,
    i: int,
    b: Seq<u8>,
    pos: int,
    s: Seq<u8>,
)
    requires
        0 <= i <= elems.len(),
        forall|j: int| 0 <= j < elems.len() ==> wf_value(#[trigger] elems[j]),
        forall|j: int| 0 <= j < elems.len() ==> kind_of(#[trigger] elems[j]) == t,
        enc_elems(e, elems, i) == Ok::<Seq<u8>, NBTErrorKind>(s),
        0 <= pos,
        pos + s.len() <= b.len(),
        b.subrange(pos, pos + s.len()) == s,
    ensures
        dec_elems(e, t, b, pos, elems.len() - i) == Ok::<(Seq<ValueModel>, int), NBTErrorKind>(
            (elems.skip(i), pos + s.len()),
        ),
    decreases elems, elems.len() - i, 1int,
{
    if i >= elems.len() {
        assert(s =~= Seq::<u8>::empty());
        assert(elems.skip(i) =~= Seq::<ValueModel>::empty());
    } else {
        let eb = match enc_value(e, elems[i]) {
            Ok(x) => x,
            Err(_) => Seq::empty(),
        };
        let rest = match enc_elems(e, elems, i + 1) {
            Ok(x) => x,
            Err(_) => Seq::empty(),
        };
        assert(s == eb + rest);
        lemma_split2(b, pos, eb, rest);
        lemma_enc_dec_value(e, elems[i], b, pos, eb);
        lemma_enc_dec_elems(e, t, elems, i + 1, b, pos + eb.len(), rest);
        assert(elems.skip(i) =~= seq![elems[i]] + elems.skip(i + 1));
    }
}

/// Decoding the encoding of well-formed unique-key entries, followed by an
/// End byte, yields all the entries in order.
#[verifier::rlimit(100)]
proof fn lemma_enc_dec_entries(
    e: Endian,
    es: Seq<(Seq<char>, ValueModel)>,
    i: int,
    b: Seq<u8>,
    pos: int,
    s: Seq<u8>,
)
    requires
        0 <= i <= es.len(),
        unique_keys(es),
        forall|j: int| 0 <= j < es.len() ==> string_fits((#[trigger] es[j]).0),
        forall|j: int| 0 <= j < es.len() ==> kind_of((#[trigger] es[j]).1) != Tag::End,
        forall|j: int| 0 <= j < es.len() ==> wf_value((#[trigger] es[j]).1),
        enc_entries(e, es, i) == Ok::<Seq<u8>, NBTErrorKind>(s),
        0 <= pos,
        pos + s.len() + 1 <= b.len(),
        b.subrange(pos, pos + s.len()) == s,
        b[pos + s.len()] == 0,
    ensures
        dec_entries(e, b, pos, es.take(i)) == Ok::<
            (Seq<(Seq<char>, ValueModel)>, int),
            NBTErrorKind,
        >((es, pos + s.len() + 1)),
    decreases es, es.len() - i, 1int,
{
    lemma_tag_bijection();
    if i >= es.len() {
        assert(s =~= Seq::<u8>::empty());
        assert(b[pos] == 0);
        assert(tag_from_id(0) == Some(Tag::End));
        assert(es.take(i) =~= es);
    } else {
        let k = kind_of(es[i].1);
        let tid = seq![tag_id(k)];
        let nb = match enc_string(e, es[i].0) {
            Ok(x) => x,
            Err(_) => Seq::empty(),
        };
        let vb = match enc_value(e, es[i].1) {
            Ok(x) => x,
            Err(_) => Seq::empty(),
        };
        let rest = match enc_entries(e, es, i + 1) {
            Ok(x) => x,
            Err(_) => Seq::empty(),
        };
        assert(s == tid + nb + vb + rest);
        assert(s =~= tid + (nb + (vb + rest)));
        lemma_split2(b, pos, tid, nb + (vb + rest));
        lemma_split2(b, pos + 1, nb, vb + rest);
        lemma_split2(b, pos + 1 + nb.len(), vb, rest);
        assert(b.subrange(pos, pos + 1)[0] == b[pos]);
        assert(b[pos] == tag_id(k));
        assert(tag_from_id(b[pos]) == Some(k));
        assert(k != Tag::End);
        lemma_enc_dec_string(e, es[i].0, b, pos + 1, nb);
        let p1 = pos + 1 + nb.len();
        lemma_enc_dec_value(e, es[i].1, b, p1, vb);
        let p2 = p1 + vb.len();
        lemma_index_of_key(es.take(i), es[i].0);
        let f = index_of_key(es.take(i), es[i].0);
        if f >= 0 {
            assert(es.take(i)[f] == es[f]);
            assert(es[f].0 == es[i].0);
            assert(es[f].0 != es[i].0);
        }
        assert(insert_entry(es.take(i), es[i].0, es[i].1) =~= es.take(i + 1)) by {
            assert(es.take(i).push((es[i].0, es[i].1)) =~= es.take(i + 1));
        }
        lemma_enc_dec_entries(e, es, i + 1, b, p2, rest);
    }
}

/// Round-trip: encoding a well-formed tree under an optional name that fits
/// its length prefix, then decoding the result, yields the same name and
/// tree in either byte order, consuming the whole encoding.  An empty name
/// reads back as no name.
#[verifier::rlimit(100)]
pub proof fn lemma_round_trip(e: Endian, name: Seq<char>, v: ValueModel)
    requires
        wf_value(v),
        string_fits(name),
    ensures
        enc_named(e, name, v) matches Ok(s) && dec_named(e, s, 0) == Ok::<
            ((Option<Seq<char>>, ValueModel), int),
            NBTErrorKind,
        >(
            ((if name.len() == 0 {
                Option::<Seq<char>>::None
            } else {
                Some(name)
            }, v), s.len() as int),
        ),
{
    lemma_wf_enc_value(e, v);
    lemma_tag_bijection();
    let nb = match enc_string(e, name) {
        Ok(x) => x,
        Err(_) => Seq::empty(),
    };
    let vb = match enc_value(e, v) {
        Ok(x) => x,
        Err(_) => Seq::empty(),
    };
    let s = seq![tag_id(kind_of(v))] + nb + vb;
    assert(enc_named(e, name, v) == Ok::<Seq<u8>, NBTErrorKind>(s));
    assert(s =~= seq![tag_id(kind_of(v))] + (nb + vb));
    assert(s.subrange(0, s.len() as int) =~= s);
    lemma_split2(s, 0, seq![tag_id(kind_of(v))], nb + vb);
    lemma_split2(s, 1, nb, vb);
    assert(s.subrange(0, 1)[0] == s[0]);
    assert(s[0] == tag_id(kind_of(v)));
    assert(tag_from_id(s[0]) == Some(kind_of(v)));
    lemma_enc_dec_string(e, name, s, 1, nb);
    lemma_enc_dec_value(e, v, s, 1 + nb.len() as int, vb);
}

/// Heterogeneous list rejection: encoding a list holding an element whose
/// kind differs from the first element's fails, and the failure names the
/// first mismatching index, the expected kind, and the actual kind.
pub proof fn lemma_heterogeneous_list_rejected(e: Endian, elems: Seq<ValueModel>)
    requires
        0 < elems.len() <= 32767,
        exists|i: int|
            0 <= i < elems.len() && kind_of(#[trigger] elems[i]) != kind_of(elems[0]),
    ensures
        enc_value(e, ValueModel::List(elems)) matches Err(k) && k matches
            NBTErrorKind::ListTypeMismatch(idx, exp, act) && {
            &&& exp == kind_of(elems[0])
            &&& 0 <= idx < elems.len()
            &&& kind_of(elems[idx as int]) == act
            &&& act != exp
            &&& forall|j: int| 0 <= j < idx ==> kind_of(#[trigger] elems[j]) == exp
        },
{
    let t = kind_of(elems[0]);
    lemma_check_homog(elems, t, 0);
    let f = first_mismatch(elems, t, 0);
    if f == -1 {
        let w = choose|i: int| 0 <= i < elems.len() && kind_of(#[trigger] elems[i]) != t;
        assert(kind_of(elems[w]) == t);
    }
}

/// List count bounds: a list header whose count decodes negative or above
/// 32767 is rejected outright, before any element byte is read.
pub proof fn lemma_list_count_rejected(e: Endian, b: Seq<u8>, pos: int)
    requires
        0 <= pos,
        pos + 5 <= b.len(),
        tag_from_id(b[pos]) is Some,
        ({
            let c = crate::wire::i32_of_u32(dec_u32(e, b.subrange(pos + 1, pos + 5)));
            c < 0 || c > 32767
        }),
    ensures
        dec_value(e, Tag::List, b, pos) == Err::<(ValueModel, int), NBTErrorKind>(
            NBTErrorKind::InvalidStringLength(
                dec_u32(e, b.subrange(pos + 1, pos + 5)) as usize,
            ),
        ),
{
}

} // verus!
