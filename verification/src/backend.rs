//! The store: the string table, the hash table and the set table.

use vstd::prelude::*;
use vstd::slice::slice_to_vec;
use crate::assoc::{has_key, lemma_lower_bound, lemma_put_sorted, lookup, put, slot, sorted};
use crate::frame::{
    clone_frame, frames_view, text_bytes, BulkString, FrameView, RespArray, RespFrame, RespMap,
    RespNull,
};

verus! {

/// What the store holds: three tables, each in ascending order of its keys.
/// The value of a key of `hashes` is a map frame with the fields of that
/// key; the value of a key of `sets` is a map frame with one entry for each
/// member.
pub struct Tables {
    pub strings: Seq<(Seq<u8>, FrameView)>,
    pub hashes: Seq<(Seq<u8>, FrameView)>,
    pub sets: Seq<(Seq<u8>, FrameView)>,
}

/// The entries of a table's value; none where the key has no value.
pub open spec fn inner(v: Option<FrameView>) -> Seq<(Seq<u8>, FrameView)> {
    match v {
        Some(FrameView::MapOf(es)) => es,
        _ => Seq::empty(),
    }
}

/// Every value of `es` is a map frame with its entries in ascending order.
pub open spec fn holds_maps(es: Seq<(Seq<u8>, FrameView)>) -> bool {
    forall|i: int|
        0 <= i < es.len() ==> (#[trigger] es[i]).1 is MapOf && sorted(inner(Some(es[i].1)))
}

impl Tables {
    /// The fields of the hash `key`, in ascending order.
    pub open spec fn fields_of(self, key: Seq<u8>) -> Seq<(Seq<u8>, FrameView)> {
        inner(lookup(self.hashes, key))
    }

    /// The members of the set `key`, each with a null value, in ascending order.
    pub open spec fn members_of(self, key: Seq<u8>) -> Seq<(Seq<u8>, FrameView)> {
        inner(lookup(self.sets, key))
    }

    /// The store after `key` was set to `value` in the string table.
    pub open spec fn with_string(self, key: Seq<u8>, value: FrameView) -> Tables {
        Tables { strings: put(self.strings, key, value), ..self }
    }

    /// The store after `field` of the hash `key` was set to `value`.
    pub open spec fn with_field(self, key: Seq<u8>, field: Seq<u8>, value: FrameView) -> Tables {
        Tables {
            hashes: put(self.hashes, key, FrameView::MapOf(put(self.fields_of(key), field, value))),
            ..self
        }
    }

    /// The store after `member` was added to the set `key`.
    pub open spec fn with_member(self, key: Seq<u8>, member: Seq<u8>) -> Tables {
        Tables {
            sets: put(
                self.sets,
                key,
                FrameView::MapOf(put(self.members_of(key), member, FrameView::Null)),
            ),
            ..self
        }
    }

    /// The tables are in order, and so are the fields of every hash and the
    /// members of every set.
    pub open spec fn wf(self) -> bool {
        &&& sorted(self.strings)
        &&& sorted(self.hashes)
        &&& sorted(self.sets)
        &&& holds_maps(self.hashes)
        &&& holds_maps(self.sets)
    }
}

/// The fields of a hash as a reply: each field's name as a bulk string,
/// followed by its value.
pub open spec fn flattened(es: Seq<(Seq<u8>, FrameView)>) -> Seq<FrameView> {
    Seq::new(
        2 * es.len(),
        |i: int|
            if i % 2 == 0 {
                FrameView::BulkString(es[i / 2].0)
            } else {
                es[i / 2].1
            },
    )
}

/// The values of the fields `names` of a hash, in order; null for a field
/// that the hash does not have.
pub open spec fn picked(es: Seq<(Seq<u8>, FrameView)>, names: Seq<Seq<u8>>) -> Seq<FrameView> {
    Seq::new(
        names.len(),
        |i: int|
            match lookup(es, names[i]) {
                Some(v) => v,
                None => FrameView::Null,
            },
    )
}

/// The bytes of the texts of `names`, in order.
pub open spec fn names_view(names: Seq<String>) -> Seq<Seq<u8>> {
    Seq::new(names.len(), |i: int| text_bytes(names[i]@))
}

/// The store. A value of a table is found by its key; setting it again
/// replaces it. A store is made by `new` and changed by its methods only,
/// and each of them keeps it well-formed (`Tables::wf`).
pub struct Backend {
    map: RespMap,
    hmap: RespMap,
    set: RespMap,
}

impl View for Backend {
    type V = Tables;

    closed spec fn view(&self) -> Tables {
        Tables { strings: self.map@, hashes: self.hmap@, sets: self.set@ }
    }
}

/// Setting a map frame with sorted entries keeps a table of map frames one.
pub proof fn lemma_put_holds_maps(
    es: Seq<(Seq<u8>, FrameView)>,
    k: Seq<u8>,
    inner_entries: Seq<(Seq<u8>, FrameView)>,
)
    requires
        holds_maps(es),
        sorted(inner_entries),
    ensures
        holds_maps(put(es, k, FrameView::MapOf(inner_entries))),
{
    lemma_lower_bound(es, k, 0);
    let p = slot(es, k);
    let r = put(es, k, FrameView::MapOf(inner_entries));
    assert forall|i: int| 0 <= i < r.len() implies (#[trigger] r[i]).1 is MapOf && sorted(
        inner(Some(r[i].1)),
    ) by {
        if i == p {
        } else if has_key(es, k) {
            assert(r[i] == es[i]);
        } else if i < p {
            assert(r[i] == es[i]);
        } else {
            assert(r[i] == es[i - 1]);
        }
    }
}

/// The fields of every hash and the members of every set are in order.
pub proof fn lemma_inner_sorted(es: Seq<(Seq<u8>, FrameView)>, k: Seq<u8>)
    requires
        holds_maps(es),
    ensures
        sorted(inner(lookup(es, k))),
{
    lemma_lower_bound(es, k, 0);
    if has_key(es, k) {
        assert(es[slot(es, k)].1 is MapOf);
    }
}

/// Setting a field keeps the store well-formed.
pub proof fn lemma_with_field_wf(store: Tables, key: Seq<u8>, field: Seq<u8>, value: FrameView)
    requires
        store.wf(),
    ensures
        store.with_field(key, field, value).wf(),
{
    let fields = put(store.fields_of(key), field, value);
    lemma_inner_sorted(store.hashes, key);
    lemma_put_sorted(store.fields_of(key), field, value);
    lemma_put_sorted(store.hashes, key, FrameView::MapOf(fields));
    lemma_put_holds_maps(store.hashes, key, fields);
}

/// Adding a member keeps the store well-formed.
pub proof fn lemma_with_member_wf(store: Tables, key: Seq<u8>, member: Seq<u8>)
    requires
        store.wf(),
    ensures
        store.with_member(key, member).wf(),
{
    let members = put(store.members_of(key), member, FrameView::Null);
    lemma_inner_sorted(store.sets, key);
    lemma_put_sorted(store.members_of(key), member, FrameView::Null);
    lemma_put_sorted(store.sets, key, FrameView::MapOf(members));
    lemma_put_holds_maps(store.sets, key, members);
}

impl Backend {
    /// A store with empty tables.
    pub fn new() -> (r: Self)
        ensures
            r@.strings.len() == 0,
            r@.hashes.len() == 0,
            r@.sets.len() == 0,
            r@.wf(),
    {
        Backend { map: RespMap::new(), hmap: RespMap::new(), set: RespMap::new() }
    }

    /// The value of `key` in the string table.
    pub fn get(&self, key: &str) -> (r: Option<RespFrame>)
        ensures
            match r {
                Some(f) => lookup(self@.strings, text_bytes(key@)) == Some(f@),
                None => lookup(self@.strings, text_bytes(key@)) is None,
            },
    {
        match self.map.get(key) {
            Some(f) => Some(clone_frame(f)),
            None => None,
        }
    }

    /// Sets the value of `key` in the string table.
    pub fn set(&mut self, key: String, value: RespFrame)
        ensures
            final(self)@ == old(self)@.with_string(text_bytes(key@), value@),
            old(self)@.wf() ==> final(self)@.wf(),
    {
        self.map.insert(key, value);
    }

    /// The value of `field` in the hash `key`.
    pub fn hget(&self, key: &str, field: &str) -> (r: Option<RespFrame>)
        ensures
            match r {
                Some(f) => lookup(self@.fields_of(text_bytes(key@)), text_bytes(field@)) == Some(
                    f@,
                ),
                None => lookup(self@.fields_of(text_bytes(key@)), text_bytes(field@)) is None,
            },
    {
        match self.hmap.get(key) {
            Some(RespFrame::MapOf(fields)) => match fields.get(field) {
                Some(f) => Some(clone_frame(f)),
                None => None,
            },
            _ => None,
        }
    }

    /// Sets the value of `field` in the hash `key`.
    pub fn hset(&mut self, key: String, field: String, value: RespFrame)
        ensures
            final(self)@ == old(self)@.with_field(text_bytes(key@), text_bytes(field@), value@),
            old(self)@.wf() ==> final(self)@.wf(),
    {
        proof {
            if self@.wf() {
                lemma_with_field_wf(self@, text_bytes(key@), text_bytes(field@), value@);
            }
        }
        self.hmap.insert_into(key, field, value);
    }

    /// The values of the fields `fields` of the hash `key`, as an array in
    /// the order of `fields`; null for a field that the hash does not have.
    pub fn hmget(&self, key: &str, fields: Vec<String>) -> (r: RespFrame)
        ensures
            r@ == FrameView::Array(
                picked(self@.fields_of(text_bytes(key@)), names_view(fields@)),
            ),
    {
        let ghost es = self@.fields_of(text_bytes(key@));
        let ghost want = picked(es, names_view(fields@));
        let found: Option<&RespFrame> = self.hmap.get(key);
        let mut out: Vec<RespFrame> = Vec::new();
        let mut i: usize = 0;
        while i < fields.len()
            invariant
                i <= fields.len(),
                out.len() == i,
                es == self@.fields_of(text_bytes(key@)),
                want == picked(es, names_view(fields@)),
                match found {
                    Some(f) => lookup(self@.hashes, text_bytes(key@)) == Some(f@),
                    None => lookup(self@.hashes, text_bytes(key@)) is None,
                },
                forall|j: int| 0 <= j < i ==> out[j].view() == want[j],
            decreases fields.len() - i,
        {
            let value: RespFrame = match found {
                Some(RespFrame::MapOf(m)) => match m.get(fields[i].as_str()) {
                    Some(f) => clone_frame(f),
                    None => RespFrame::Null(RespNull),
                },
                _ => RespFrame::Null(RespNull),
            };
            out.push(value);
            i = i + 1;
        }
        assert(frames_view(out) =~= want);
        RespFrame::Array(RespArray(out))
    }

    /// The fields of the hash `key` with their values, one after the other,
    /// in ascending order of the fields; empty where the hash has no field.
    pub fn hgetall(&self, key: &str) -> (r: RespArray)
        ensures
            r@ == flattened(self@.fields_of(text_bytes(key@))),
    {
        let ghost es = self@.fields_of(text_bytes(key@));
        let mut out: Vec<RespFrame> = Vec::new();
        match self.hmap.get(key) {
            Some(RespFrame::MapOf(m)) => {
                let mut i: usize = 0;
                while i < m.entries.len()
                    invariant
                        i <= m.entries.len(),
                        out.len() == 2 * i,
                        es == m@,
                        forall|j: int| 0 <= j < 2 * i ==> out[j].view() == flattened(es)[j],
                    decreases m.entries.len() - i,
                {
                    let name: Vec<u8> = slice_to_vec(m.entries[i].0.as_str().as_bytes());
                    out.push(RespFrame::BulkString(BulkString(name)));
                    out.push(clone_frame(&m.entries[i].1));
                    i = i + 1;
                }
            },
            _ => {},
        }
        assert(frames_view(out) =~= flattened(es));
        RespArray(out)
    }

    /// Adds `member` to the set `key`.
    pub fn add_member(&mut self, key: String, member: String)
        ensures
            final(self)@ == old(self)@.with_member(text_bytes(key@), text_bytes(member@)),
            old(self)@.wf() ==> final(self)@.wf(),
    {
        proof {
            if self@.wf() {
                lemma_with_member_wf(self@, text_bytes(key@), text_bytes(member@));
            }
        }
        self.set.insert_into(key, member, RespFrame::Null(RespNull));
    }

    /// Tells whether `member` is in the set `key`: the integer 1 where it
    /// is, the integer 0 where it is not.
    pub fn sis_member(&self, key: &str, member: &str) -> (r: RespFrame)
        ensures
            r@ == FrameView::Integer(
                if has_key(self@.members_of(text_bytes(key@)), text_bytes(member@)) {
                    1i64
                } else {
                    0i64
                },
            ),
    {
        let present: bool = match self.set.get(key) {
            Some(RespFrame::MapOf(members)) => members.contains_key(member),
            _ => false,
        };
        if present {
            RespFrame::Integer(1)
        } else {
            proof {
                lemma_lower_bound(Seq::<(Seq<u8>, FrameView)>::empty(), text_bytes(member@), 0);
            }
            RespFrame::Integer(0)
        }
    }
}

} // verus!
