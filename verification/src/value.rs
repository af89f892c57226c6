//! The in-memory document tree: a tagged union mirroring the wire tag set,
//! owning its payloads.  `ValueModel` is the mathematical shadow of `Value`
//! used by every contract: sequences in place of vectors, character
//! sequences in place of strings.  Float and Double payloads are carried as
//! their IEEE-754 bit patterns, which is exactly what the wire holds; callers
//! that want arithmetic on them convert at the boundary.

use vstd::prelude::*;
use vstd::utf8::encode_utf8;

use crate::error::{NBTError, NBTErrorKind};
use crate::tag::Tag;

verus! {

/// A document tree node.  Compound entries keep insertion order, and a key
/// occurs at most once in a well-formed compound.
#[derive(Debug, PartialEq)]
pub enum Value {
    End,
    Byte(i8),
    Short(i16),
    Int(i32),
    Long(i64),
    /// IEEE-754 single-precision bit pattern.
    Float(u32),
    /// IEEE-754 double-precision bit pattern.
    Double(u64),
    ByteArray(Vec<i8>),
    String(String),
    List(Vec<Value>),
    Compound(Vec<(String, Value)>),
    IntArray(Vec<i32>),
    LongArray(Vec<i64>),
}

/// The mathematical shadow of a `Value` tree.
pub enum ValueModel {
    End,
    Byte(i8),
    Short(i16),
    Int(i32),
    Long(i64),
    Float(u32),
    Double(u64),
    ByteArray(Seq<i8>),
    String(Seq<char>),
    List(Seq<ValueModel>),
    Compound(Seq<(Seq<char>, ValueModel)>),
    IntArray(Seq<i32>),
    LongArray(Seq<i64>),
}

/// The shadows of a vector of list elements, in order.
pub open spec fn view_values(vs: Seq<Value>) -> Seq<ValueModel>
    decreases vs,
{
    if vs.len() == 0 {
        Seq::empty()
    } else {
        view_values(vs.drop_last()).push(vs.last()@)
    }
}

/// The shadows of a vector of compound entries, in order.
pub open spec fn view_entries(es: Seq<(String, Value)>) -> Seq<(Seq<char>, ValueModel)>
    decreases es,
{
    if es.len() == 0 {
        Seq::empty()
    } else {
        view_entries(es.drop_last()).push((es.last().0@, es.last().1@))
    }
}

impl View for Value {
    type V = ValueModel;

    open spec fn view(&self) -> ValueModel
        decreases self,
    {
        match self {
            Value::End => ValueModel::End,
            Value::Byte(x) => ValueModel::Byte(*x),
            Value::Short(x) => ValueModel::Short(*x),
            Value::Int(x) => ValueModel::Int(*x),
            Value::Long(x) => ValueModel::Long(*x),
            Value::Float(x) => ValueModel::Float(*x),
            Value::Double(x) => ValueModel::Double(*x),
            Value::ByteArray(a) => ValueModel::ByteArray(a@),
            Value::String(s) => ValueModel::String(s@),
            Value::List(vs) => ValueModel::List(view_values(vs@)),
            Value::Compound(es) => ValueModel::Compound(view_entries(es@)),
            Value::IntArray(a) => ValueModel::IntArray(a@),
            Value::LongArray(a) => ValueModel::LongArray(a@),
        }
    }
}

/// Element shadows are the elementwise shadows.
pub broadcast proof fn lemma_view_values(vs: Seq<Value>)
    ensures
        (#[trigger] view_values(vs)).len() == vs.len(),
        forall|i: int| 0 <= i < vs.len() ==> view_values(vs)[i] == vs[i]@,
    decreases vs,
{
    if vs.len() > 0 {
        lemma_view_values(vs.drop_last());
        assert(view_values(vs) == view_values(vs.drop_last()).push(vs.last()@));
        assert forall|i: int| 0 <= i < vs.len() implies view_values(vs)[i] == vs[i]@ by {
            if i < vs.len() - 1 {
                assert(vs.drop_last()[i] == vs[i]);
                assert(view_values(vs)[i] == view_values(vs.drop_last())[i]);
            } else {
                assert(vs[i] == vs.last());
            }
        }
    }
}

/// Entry shadows are the entrywise shadows.
pub broadcast proof fn lemma_view_entries(es: Seq<(String, Value)>)
    ensures
        (#[trigger] view_entries(es)).len() == es.len(),
        forall|i: int|
            0 <= i < es.len() ==> view_entries(es)[i] == (es[i].0@, es[i].1@),
    decreases es,
{
    if es.len() > 0 {
        lemma_view_entries(es.drop_last());
        assert(view_entries(es) == view_entries(es.drop_last()).push((es.last().0@, es.last().1@)));
        assert forall|i: int|
            0 <= i < es.len() implies view_entries(es)[i] == (es[i].0@, es[i].1@) by {
            if i < es.len() - 1 {
                assert(es.drop_last()[i] == es[i]);
                assert(view_entries(es)[i] == view_entries(es.drop_last())[i]);
            } else {
                assert(es[i] == es.last());
            }
        }
    }
}

pub broadcast group group_value_views {
    lemma_view_values,
    lemma_view_entries,
}

/// The tag kind of a tree node: an O(1) reflection used to drive writers and
/// validate expectations.
pub open spec fn kind_of(v: ValueModel) -> Tag {
    match v {
        ValueModel::End => Tag::End,
        ValueModel::Byte(_) => Tag::Byte,
        ValueModel::Short(_) => Tag::Short,
        ValueModel::Int(_) => Tag::Int,
        ValueModel::Long(_) => Tag::Long,
        ValueModel::Float(_) => Tag::Float,
        ValueModel::Double(_) => Tag::Double,
        ValueModel::ByteArray(_) => Tag::ByteArray,
        ValueModel::String(_) => Tag::String,
        ValueModel::List(_) => Tag::List,
        ValueModel::Compound(_) => Tag::Compound,
        ValueModel::IntArray(_) => Tag::IntArray,
        ValueModel::LongArray(_) => Tag::LongArray,
    }
}

/// The text fits behind a 2-byte length prefix: its UTF-8 encoding is at
/// most 65535 bytes.
pub open spec fn string_fits(s: Seq<char>) -> bool {
    encode_utf8(s).len() <= 65535
}

/// No key occurs twice.
pub open spec fn unique_keys(es: Seq<(Seq<char>, ValueModel)>) -> bool {
    forall|i: int, j: int|
        0 <= i < j < es.len() ==> (#[trigger] es[i]).0 != (#[trigger] es[j]).0
}

/// A tree the codec round-trips: every list is homogeneous with at most
/// 32767 elements, every string and key fits its 2-byte length prefix, every
/// array fits its 4-byte length prefix, compound keys are unique, and no
/// compound entry is an End value (the wire reserves the End tag for the
/// compound terminator).
pub open spec fn wf_value(v: ValueModel) -> bool
    decreases v,
{
    match v {
        ValueModel::End => true,
        ValueModel::Byte(_) => true,
        ValueModel::Short(_) => true,
        ValueModel::Int(_) => true,
        ValueModel::Long(_) => true,
        ValueModel::Float(_) => true,
        ValueModel::Double(_) => true,
        ValueModel::ByteArray(a) => a.len() <= u32::MAX,
        ValueModel::String(s) => string_fits(s),
        ValueModel::List(elems) => {
            &&& elems.len() <= 32767
            &&& forall|i: int|
                0 <= i < elems.len() ==> kind_of(#[trigger] elems[i]) == kind_of(elems[0])
            &&& forall|i: int| 0 <= i < elems.len() ==> wf_value(#[trigger] elems[i])
        },
        ValueModel::Compound(es) => {
            &&& unique_keys(es)
            &&& forall|i: int| 0 <= i < es.len() ==> string_fits((#[trigger] es[i]).0)
            &&& forall|i: int|
                0 <= i < es.len() ==> kind_of((#[trigger] es[i]).1) != Tag::End
            &&& forall|i: int| 0 <= i < es.len() ==> wf_value((#[trigger] es[i]).1)
        },
        ValueModel::IntArray(a) => a.len() <= u32::MAX,
        ValueModel::LongArray(a) => a.len() <= u32::MAX,
    }
}

/// The first index whose entry has key `k`, or -1 if no entry does.
pub open spec fn index_of_key(es: Seq<(Seq<char>, ValueModel)>, k: Seq<char>) -> int
    decreases es.len(),
{
    if es.len() == 0 {
        -1
    } else if es[0].0 == k {
        0
    } else {
        let rest = index_of_key(es.skip(1), k);
        if rest < 0 {
            -1
        } else {
            rest + 1
        }
    }
}

/// What `index_of_key` finds: an in-range first occurrence, or nothing.
pub broadcast proof fn lemma_index_of_key(es: Seq<(Seq<char>, ValueModel)>, k: Seq<char>)
    ensures
        -1 <= #[trigger] index_of_key(es, k) < es.len(),
        index_of_key(es, k) >= 0 ==> es[index_of_key(es, k)].0 == k,
        forall|j: int|
            0 <= j < es.len() && j < index_of_key(es, k) ==> (#[trigger] es[j]).0 != k,
        index_of_key(es, k) == -1 ==> forall|j: int|
            0 <= j < es.len() ==> (#[trigger] es[j]).0 != k,
    decreases es.len(),
{
    if es.len() > 0 && !(es[0].0 == k) {
        lemma_index_of_key(es.skip(1), k);
        let f = index_of_key(es, k);
        assert forall|j: int| 0 <= j < es.len() && j < f implies (#[trigger] es[j]).0 != k by {
            if j > 0 {
                assert(es.skip(1)[j - 1] == es[j]);
            }
        }
        if f == -1 {
            assert forall|j: int| 0 <= j < es.len() implies (#[trigger] es[j]).0 != k by {
                if j > 0 {
                    assert(es.skip(1)[j - 1] == es[j]);
                }
            }
        }
    }
}

/// Mapping insertion: replaces the value at an existing key in place, else
/// appends a fresh entry.
pub open spec fn insert_entry(
    es: Seq<(Seq<char>, ValueModel)>,
    k: Seq<char>,
    v: ValueModel,
) -> Seq<(Seq<char>, ValueModel)> {
    let i = index_of_key(es, k);
    if i >= 0 {
        es.update(i, (k, v))
    } else {
        es.push((k, v))
    }
}

/// Maps `k` to `value` in an entry vector: replaces the value at the first
/// entry holding `k`, or appends a fresh entry when no entry does.
pub fn insert_pair(entries: &mut Vec<(String, Value)>, k: String, value: Value)
    ensures
        view_entries(final(entries)@) == insert_entry(
            view_entries(old(entries)@),
            k@,
            value@,
        ),
{
    broadcast use group_value_views;

    let ghost es0: Seq<(String, Value)> = entries@;
    let n = entries.len();
    let mut i: usize = 0;
    let mut at: Option<usize> = None;
    while i < n && at.is_none()
        invariant
            n == entries@.len(),
            entries@ == es0,
            i <= n,
            match at {
                Some(idx) => {
                    &&& idx < n
                    &&& es0[idx as int].0@ == k@
                    &&& forall|j: int| 0 <= j < idx ==> es0[j].0@ != k@
                },
                None => forall|j: int| 0 <= j < i ==> es0[j].0@ != k@,
            },
        decreases n - i + (if at is None { 1int } else { 0int }),
    {
        if entries[i].0 == k {
            at = Some(i);
        } else {
            i = i + 1;
        }
    }
    proof {
        lemma_index_of_key(view_entries(es0), k@);
        lemma_index_of_first_occurrence(view_entries(es0), k@);
    }
    match at {
        Some(idx) => {
            proof {
                assert(index_of_key(view_entries(es0), k@) == idx) by {
                    assert(view_entries(es0)[idx as int].0 == k@);
                    assert(forall|j: int|
                        0 <= j < idx ==> (#[trigger] view_entries(es0)[j]).0 != k@);
                };
            }
            entries.remove(idx);
            entries.insert(idx, (k, value));
            proof {
                assert(entries@ =~= es0.update(idx as int, (k, value)));
                assert(view_entries(entries@) =~= insert_entry(
                    view_entries(es0),
                    k@,
                    value@,
                ));
            }
        },
        None => {
            proof {
                assert(index_of_key(view_entries(es0), k@) == -1) by {
                    assert(forall|j: int|
                        0 <= j < es0.len() ==> (#[trigger] view_entries(es0)[j]).0 != k@);
                };
            }
            entries.push((k, value));
            proof {
                assert(entries@ =~= es0.push((k, value)));
                assert(view_entries(entries@) =~= insert_entry(
                    view_entries(es0),
                    k@,
                    value@,
                ));
            }
        },
    }
}

impl Value {
    /// The tag kind of this node.
    pub fn tag(&self) -> (r: Tag)
        ensures
            r == kind_of(self@),
    {
        match self {
            Value::End => Tag::End,
            Value::Byte(_) => Tag::Byte,
            Value::Short(_) => Tag::Short,
            Value::Int(_) => Tag::Int,
            Value::Long(_) => Tag::Long,
            Value::Float(_) => Tag::Float,
            Value::Double(_) => Tag::Double,
            Value::ByteArray(_) => Tag::ByteArray,
            Value::String(_) => Tag::String,
            Value::List(_) => Tag::List,
            Value::Compound(_) => Tag::Compound,
            Value::IntArray(_) => Tag::IntArray,
            Value::LongArray(_) => Tag::LongArray,
        }
    }

    /// An empty compound.
    pub fn compound() -> (r: Value)
        ensures
            r@ == ValueModel::Compound(Seq::<(Seq<char>, ValueModel)>::empty()),
    {
        let r = Value::Compound(Vec::new());
        proof {
            assert(view_entries(Seq::<(String, Value)>::empty())
                =~= Seq::<(Seq<char>, ValueModel)>::empty());
        }
        r
    }

    /// An empty list, with room for `capacity` elements.
    pub fn list(capacity: usize) -> (r: Value)
        ensures
            r@ == ValueModel::List(Seq::<ValueModel>::empty()),
    {
        let r = Value::List(Vec::with_capacity(capacity));
        proof {
            assert(view_values(Seq::<Value>::empty()) =~= Seq::<ValueModel>::empty());
        }
        r
    }

    /// A list holding the given elements, in order.
    pub fn list_from_iter(values: Vec<Value>) -> (r: Value)
        ensures
            r@ == ValueModel::List(view_values(values@)),
    {
        Value::List(values)
    }

    /// On a compound, maps `key` to `value`, replacing any entry that key
    /// already has; on anything else, fails and leaves the tree unchanged.
    pub fn insert(&mut self, key: &str, value: Value) -> (r: Result<(), NBTError>)
        ensures
            match old(self)@ {
                ValueModel::Compound(es) => r is Ok && final(self)@ == ValueModel::Compound(
                    insert_entry(es, key@, value@),
                ),
                _ => {
                    &&& r matches Err(e) && e.kind matches NBTErrorKind::Custom(m) && m@
                        == "Not a compound"@
                    &&& final(self)@ == old(self)@
                },
            },
    {
        match self {
            Value::Compound(entries) => {
                let k: String = key.to_owned();
                insert_pair(entries, k, value);
                Ok(())
            },
            _ => Err(NBTError::custom_msg("Not a compound")),
        }
    }

    /// On a list, appends `value`; on anything else, fails and leaves the
    /// tree unchanged.
    pub fn push(&mut self, value: Value) -> (r: Result<(), NBTError>)
        ensures
            match old(self)@ {
                ValueModel::List(elems) => r is Ok && final(self)@ == ValueModel::List(
                    elems.push(value@),
                ),
                _ => {
                    &&& r matches Err(e) && e.kind matches NBTErrorKind::Custom(m) && m@
                        == "Not a list"@
                    &&& final(self)@ == old(self)@
                },
            },
    {
        match self {
            Value::List(vec) => {
                let ghost vs0: Seq<Value> = vec@;
                vec.push(value);
                proof {
                    assert(vec@.drop_last() =~= vs0);
                    assert(view_values(vec@) =~= view_values(vs0).push(value@));
                }
                Ok(())
            },
            _ => Err(NBTError::custom_msg("Not a list")),
        }
    }

    /// On a list, appends every given element in order; on anything else,
    /// fails and leaves the tree unchanged.
    pub fn extend(&mut self, values: Vec<Value>) -> (r: Result<(), NBTError>)
        ensures
            match old(self)@ {
                ValueModel::List(elems) => r is Ok && final(self)@ == ValueModel::List(
                    elems + view_values(values@),
                ),
                _ => {
                    &&& r matches Err(e) && e.kind matches NBTErrorKind::Custom(m) && m@
                        == "Not a list"@
                    &&& final(self)@ == old(self)@
                },
            },
    {
        broadcast use group_value_views;

        match self {
            Value::List(vec) => {
                let ghost vs0: Seq<Value> = vec@;
                let ghost ws: Seq<Value> = values@;
                let mut rest = values;
                while rest.len() > 0
                    invariant
                        view_values(vec@) == view_values(vs0) + view_values(ws).take(
                            ws.len() - rest.len(),
                        ),
                        rest@ =~= ws.skip(ws.len() - rest.len()),
                        rest.len() <= ws.len(),
                    decreases rest.len(),
                {
                    let ghost done: int = ws.len() - rest.len();
                    let ghost rest0: Seq<Value> = rest@;
                    let x = rest.remove(0);
                    let ghost vsa: Seq<Value> = vec@;
                    vec.push(x);
                    proof {
                        lemma_view_values(ws);
                        assert(x == rest0[0]);
                        assert(rest0[0] == ws.skip(done)[0]);
                        assert(ws.skip(done)[0] == ws[done]);
                        assert(vec@.drop_last() =~= vsa);
                        assert(view_values(vec@) == view_values(vec@.drop_last()).push(
                            vec@.last()@,
                        ));
                        assert(view_values(vec@) == view_values(vsa).push(ws[done]@));
                        assert(ws[done]@ == view_values(ws)[done]);
                        assert(view_values(ws).take(done + 1) =~= view_values(ws).take(
                            done,
                        ).push(view_values(ws)[done]));
                        assert((view_values(vs0) + view_values(ws).take(done)).push(
                            view_values(ws)[done],
                        ) =~= view_values(vs0) + view_values(ws).take(done + 1));
                        assert(rest@ =~= ws.skip(ws.len() - rest@.len()));
                    }
                }
                proof {
                    assert(view_values(ws).take(ws.len() as int) =~= view_values(ws));
                }
                Ok(())
            },
            _ => Err(NBTError::custom_msg("Not a list")),
        }
    }

    /// The element kind of a non-empty list; nothing for an empty list or a
    /// non-list.
    pub fn list_tag(&self) -> (r: Option<Tag>)
        ensures
            match self@ {
                ValueModel::List(elems) => if elems.len() > 0 {
                    r == Some(kind_of(elems[0]))
                } else {
                    r is None
                },
                _ => r is None,
            },
    {
        broadcast use group_value_views;

        match self {
            Value::List(vec) => {
                proof {
                    lemma_view_values(vec@);
                }
                if vec.len() > 0 {
                    let first = &vec[0];
                    Some(first.tag())
                } else {
                    None
                }
            },
            _ => None,
        }
    }

    /// The elements of a list; nothing for a non-list.
    pub fn as_list(&self) -> (r: Option<&Vec<Value>>)
        ensures
            match r {
                Some(v) => self@ == ValueModel::List(view_values(v@)),
                None => !(self@ matches ValueModel::List(_)),
            },
    {
        match self {
            Value::List(vec) => Some(vec),
            _ => None,
        }
    }

    /// The elements of a list, open for mutation; nothing for a non-list.
    pub fn as_list_mut(&mut self) -> (r: Option<&mut Vec<Value>>)
        ensures
            match r {
                Some(v) => {
                    &&& old(self)@ == ValueModel::List(view_values(v@))
                    &&& final(self)@ == ValueModel::List(view_values(final(v)@))
                },
                None => {
                    &&& !(old(self)@ matches ValueModel::List(_))
                    &&& final(self)@ == old(self)@
                },
            },
    {
        match self {
            Value::List(vec) => Some(vec),
            _ => None,
        }
    }
}

impl vstd::std_specs::convert::FromSpecImpl<bool> for Value {
    open spec fn obeys_from_spec() -> bool {
        true
    }

    open spec fn from_spec(value: bool) -> Value {
        Value::Byte(
            if value {
                1i8
            } else {
                0i8
            },
        )
    }
}

impl vstd::std_specs::convert::FromSpecImpl<i16> for Value {
    open spec fn obeys_from_spec() -> bool {
        true
    }

    open spec fn from_spec(value: i16) -> Value {
        Value::Short(value)
    }
}

impl vstd::std_specs::convert::FromSpecImpl<i32> for Value {
    open spec fn obeys_from_spec() -> bool {
        true
    }

    open spec fn from_spec(value: i32) -> Value {
        Value::Int(value)
    }
}

impl vstd::std_specs::convert::FromSpecImpl<i64> for Value {
    open spec fn obeys_from_spec() -> bool {
        true
    }

    open spec fn from_spec(value: i64) -> Value {
        Value::Long(value)
    }
}

impl vstd::std_specs::convert::FromSpecImpl<String> for Value {
    open spec fn obeys_from_spec() -> bool {
        true
    }

    open spec fn from_spec(value: String) -> Value {
        Value::String(value)
    }
}

impl From<bool> for Value {
    /// A flag as a byte: `true` is 1, `false` is 0.
    fn from(value: bool) -> (r: Value)
        ensures
            r@ == ValueModel::Byte(if value { 1i8 } else { 0i8 }),
    {
        Value::Byte(if value { 1 } else { 0 })
    }
}

impl From<i16> for Value {
    fn from(value: i16) -> (r: Value)
        ensures
            r@ == ValueModel::Short(value),
    {
        Value::Short(value)
    }
}

impl From<i32> for Value {
    fn from(value: i32) -> (r: Value)
        ensures
            r@ == ValueModel::Int(value),
    {
        Value::Int(value)
    }
}

impl From<i64> for Value {
    fn from(value: i64) -> (r: Value)
        ensures
            r@ == ValueModel::Long(value),
    {
        Value::Long(value)
    }
}

impl From<String> for Value {
    fn from(value: String) -> (r: Value)
        ensures
            r@ == ValueModel::String(value@),
    {
        Value::String(value)
    }
}

/// Inserting twice under one key keeps exactly one entry for that key, and it
/// holds the most recently inserted value.
pub proof fn lemma_insert_last_wins(
    es: Seq<(Seq<char>, ValueModel)>,
    k: Seq<char>,
    v1: ValueModel,
    v2: ValueModel,
)
    requires
        unique_keys(es),
    ensures
        unique_keys(insert_entry(insert_entry(es, k, v1), k, v2)),
        exists|i: int|
            {
                &&& 0 <= i < insert_entry(insert_entry(es, k, v1), k, v2).len()
                &&& #[trigger] insert_entry(insert_entry(es, k, v1), k, v2)[i] == (k, v2)
            },
        forall|i: int|
            0 <= i < insert_entry(insert_entry(es, k, v1), k, v2).len() && (
            #[trigger] insert_entry(insert_entry(es, k, v1), k, v2)[i]).0 == k
                ==> insert_entry(insert_entry(es, k, v1), k, v2)[i] == (k, v2),
{
    lemma_index_of_key(es, k);
    let i0 = index_of_key(es, k);
    let es1 = insert_entry(es, k, v1);
    lemma_index_of_key(es1, k);
    let i1 = index_of_key(es1, k);
    lemma_index_of_first_occurrence(es, k);
    lemma_index_of_first_occurrence(es1, k);
    let es2 = insert_entry(es1, k, v2);
    if i0 >= 0 {
        assert(es1 =~= es.update(i0, (k, v1)));
        assert(es1[i0].0 == k);
        assert(i1 == i0) by {
            assert(forall|j: int| 0 <= j < i0 ==> (#[trigger] es1[j]).0 != k);
        };
        assert(es2 =~= es.update(i0, (k, v2)));
        assert(es2[i0] == (k, v2));
        assert forall|i: int| 0 <= i < es2.len() && (#[trigger] es2[i]).0 == k implies es2[i]
            == (k, v2) by {
            if i != i0 {
                assert(es[i].0 == k);
                assert(es[i0].0 == k);
                assert(false);
            }
        }
        assert forall|i: int, j: int| 0 <= i < j < es2.len() implies (#[trigger] es2[i]).0 != (
        #[trigger] es2[j]).0 by {
            assert(es2[i].0 == es[i].0);
            assert(es2[j].0 == es[j].0);
        }
    } else {
        assert(es1 =~= es.push((k, v1)));
        assert(i1 == es.len()) by {
            assert(es1[es.len() as int].0 == k);
            assert(forall|j: int| 0 <= j < es.len() ==> (#[trigger] es1[j]).0 != k);
        };
        assert(es2 =~= es.push((k, v2)));
        assert(es2[es.len() as int] == (k, v2));
        assert forall|i: int| 0 <= i < es2.len() && (#[trigger] es2[i]).0 == k implies es2[i]
            == (k, v2) by {
            if i < es.len() {
                assert(es[i].0 != k);
            }
        }
        assert forall|i: int, j: int| 0 <= i < j < es2.len() implies (#[trigger] es2[i]).0 != (
        #[trigger] es2[j]).0 by {
            if j < es.len() {
                assert(es2[i].0 == es[i].0 && es2[j].0 == es[j].0);
            } else {
                assert(es2[j].0 == k);
                assert(es[i].0 != k);
            }
        }
    }
}

/// A first occurrence pins `index_of_key` down: if `es[i]` has key `k` and no
/// earlier entry does, the found index is `i`.
pub proof fn lemma_index_of_first_occurrence(es: Seq<(Seq<char>, ValueModel)>, k: Seq<char>)
    ensures
        forall|i: int|
            {
                &&& 0 <= i < es.len()
                &&& (#[trigger] es[i]).0 == k
                &&& forall|j: int| 0 <= j < i ==> (#[trigger] es[j]).0 != k
            } ==> index_of_key(es, k) == i,
    decreases es.len(),
{
    lemma_index_of_key(es, k);
    assert forall|i: int|
        {
            &&& 0 <= i < es.len()
            &&& (#[trigger] es[i]).0 == k
            &&& forall|j: int| 0 <= j < i ==> (#[trigger] es[j]).0 != k
        } implies index_of_key(es, k) == i by {
        let f = index_of_key(es, k);
        if f < i {
            assert(es[f].0 != k);
        }
        if f > i || f == -1 {
            assert(es[i].0 != k);
        }
    }
}

} // verus!

