//! The map frame: text keys in ascending order of their bytes.

use vstd::prelude::*;
use crate::assoc::{has_key, lemma_put_sorted, lookup, lower_bound, put, slot, sorted};
use crate::frame::{entries_view, text_bytes, FrameView, RespFrame, RespMap};
use crate::order::{bytes_equal, bytes_less};

verus! {

/// The first position of `entries` whose key does not come before `key`.
fn find_slot(entries: &Vec<(String, RespFrame)>, key: &str) -> (i: usize)
    ensures
        i == slot(entries_view(*entries), text_bytes(key@)),
        i <= entries.len(),
{
    let ghost es = entries_view(*entries);
    let ghost k = text_bytes(key@);
    let mut i: usize = 0;
    while i < entries.len() && bytes_less(entries[i].0.as_str().as_bytes(), key.as_bytes())
        invariant
            i <= entries.len(),
            es == entries_view(*entries),
            k == text_bytes(key@),
            lower_bound(es, k, 0) == lower_bound(es, k, i as int),
        decreases entries.len() - i,
    {
        i = i + 1;
    }
    i
}

impl RespMap {
    /// The entries stand in ascending order of their keys, so no key occurs twice.
    pub open spec fn wf(&self) -> bool {
        sorted(self@)
    }

    /// A map without entries.
    pub fn new() -> (r: Self)
        ensures
            r@ == Seq::<(Seq<u8>, FrameView)>::empty(),
            r.wf(),
    {
        let r = RespMap { entries: Vec::new() };
        assert(r@ =~= Seq::<(Seq<u8>, FrameView)>::empty());
        r
    }

    /// The number of entries.
    pub fn len(&self) -> (n: usize)
        ensures
            n == self@.len(),
    {
        self.entries.len()
    }

    /// Whether the map has no entry.
    pub fn is_empty(&self) -> (r: bool)
        ensures
            r == (self@.len() == 0),
    {
        self.entries.len() == 0
    }

    /// Sets the value of `key`: a key that the map holds gets the new value,
    /// a new key takes its place in the order.
    pub fn insert(&mut self, key: String, value: RespFrame)
        ensures
            final(self)@ == put(old(self)@, text_bytes(key@), value@),
            old(self).wf() ==> final(self).wf(),
    {
        let ghost es = self@;
        let ghost k = text_bytes(key@);
        let ghost v = value@;
        proof {
            if sorted(es) {
                lemma_put_sorted(es, k, v);
            }
        }
        let i: usize = find_slot(&self.entries, key.as_str());
        if i < self.entries.len() && bytes_equal(
            self.entries[i].0.as_str().as_bytes(),
            key.as_str().as_bytes(),
        ) {
            self.entries[i] = (key, value);
            assert(self@ =~= es.update(i as int, (k, v)));
        } else {
            self.entries.insert(i, (key, value));
            assert(self@ =~= es.insert(i as int, (k, v)));
        }
    }

    /// Takes the entry of `key` out of the map and returns its value.
    pub fn remove(&mut self, key: &str) -> (r: Option<RespFrame>)
        ensures
            final(self)@ == crate::assoc::remove(old(self)@, text_bytes(key@)),
            match r {
                Some(f) => lookup(old(self)@, text_bytes(key@)) == Some(f@),
                None => lookup(old(self)@, text_bytes(key@)) is None,
            },
            old(self).wf() ==> final(self).wf(),
    {
        let ghost es = self@;
        proof {
            if sorted(es) {
                crate::assoc::lemma_remove_sorted(es, text_bytes(key@));
            }
        }
        let i: usize = find_slot(&self.entries, key);
        if i < self.entries.len() && bytes_equal(
            self.entries[i].0.as_str().as_bytes(),
            key.as_bytes(),
        ) {
            let entry = self.entries.remove(i);
            assert(self@ =~= es.remove(i as int));
            Some(entry.1)
        } else {
            None
        }
    }

    /// Sets the value of `field` in the map frame that is the value of `key`;
    /// a key without a map frame gets one that holds `field` alone.
    pub(crate) fn insert_into(&mut self, key: String, field: String, value: RespFrame)
        ensures
            final(self)@ == put(
                old(self)@,
                text_bytes(key@),
                FrameView::MapOf(
                    put(
                        match lookup(old(self)@, text_bytes(key@)) {
                            Some(FrameView::MapOf(es)) => es,
                            _ => Seq::empty(),
                        },
                        text_bytes(field@),
                        value@,
                    ),
                ),
            ),
    {
        let ghost es = self@;
        let i: usize = find_slot(&self.entries, key.as_str());
        if i < self.entries.len() && bytes_equal(
            self.entries[i].0.as_str().as_bytes(),
            key.as_str().as_bytes(),
        ) {
            match &mut self.entries[i].1 {
                RespFrame::MapOf(inner) => {
                    inner.insert(field, value);
                },
                other => {
                    let mut fresh = RespMap::new();
                    fresh.insert(field, value);
                    *other = RespFrame::MapOf(fresh);
                },
            }
            assert(self@ =~= put(
                es,
                text_bytes(key@),
                FrameView::MapOf(
                    put(
                        match lookup(es, text_bytes(key@)) {
                            Some(FrameView::MapOf(es)) => es,
                            _ => Seq::empty(),
                        },
                        text_bytes(field@),
                        value@,
                    ),
                ),
            ));
        } else {
            let mut fresh = RespMap::new();
            fresh.insert(field, value);
            self.entries.insert(i, (key, RespFrame::MapOf(fresh)));
            assert(self@ =~= es.insert(i as int, (text_bytes(key@), RespFrame::MapOf(fresh)@)));
        }
    }

    /// The value of `key`, if the map holds one.
    pub fn get(&self, key: &str) -> (r: Option<&RespFrame>)
        ensures
            match r {
                Some(f) => lookup(self@, text_bytes(key@)) == Some(f@),
                None => lookup(self@, text_bytes(key@)) is None,
            },
    {
        let i: usize = find_slot(&self.entries, key);
        if i < self.entries.len() && bytes_equal(
            self.entries[i].0.as_str().as_bytes(),
            key.as_bytes(),
        ) {
            Some(&self.entries[i].1)
        } else {
            None
        }
    }

    /// Whether the map holds a value for `key`.
    pub fn contains_key(&self, key: &str) -> (r: bool)
        ensures
            r == has_key(self@, text_bytes(key@)),
    {
        let i: usize = find_slot(&self.entries, key);
        i < self.entries.len() && bytes_equal(self.entries[i].0.as_str().as_bytes(), key.as_bytes())
    }
}

} // verus!
