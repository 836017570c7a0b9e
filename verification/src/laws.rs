//! What holds of the store and of the commands, whatever the store holds.

use vstd::prelude::*;
use crate::assoc::{
    lemma_lookup_put, lemma_put_commutes, lemma_put_sorted, lemma_sorted_unique, lookup, put,
    same_lookups,
};
use crate::backend::{
    flattened, lemma_inner_sorted, lemma_with_field_wf, lemma_with_member_wf, Tables,
};
use crate::cmd::{effect_of, key_of, reply_of, CommandView};
use crate::frame::FrameView;
use crate::order::bytes_lt;

verus! {

/// The fields of a hash after one of them was set.
pub proof fn lemma_fields_after_hset(
    store: Tables,
    key: Seq<u8>,
    field: Seq<u8>,
    value: FrameView,
    other: Seq<u8>,
)
    requires
        store.wf(),
    ensures
        store.with_field(key, field, value).fields_of(other) == (if other == key {
            put(store.fields_of(key), field, value)
        } else {
            store.fields_of(other)
        }),
{
    lemma_lookup_put(
        store.hashes,
        key,
        FrameView::MapOf(put(store.fields_of(key), field, value)),
        other,
    );
}

/// HGETALL is in ascending order of the fields: in the reply, the name of
/// each field comes before the name of every later one.
pub proof fn lemma_hgetall_ascending(store: Tables, key: Seq<u8>, sort: bool, i: int, j: int)
    requires
        store.wf(),
        0 <= i < j < store.fields_of(key).len(),
    ensures
        reply_of(CommandView::HGetAll { key, sort }, store) == FrameView::Array(
            flattened(store.fields_of(key)),
        ),
        flattened(store.fields_of(key))[2 * i] == FrameView::BulkString(store.fields_of(key)[i].0),
        flattened(store.fields_of(key))[2 * j] == FrameView::BulkString(store.fields_of(key)[j].0),
        bytes_lt(store.fields_of(key)[i].0, store.fields_of(key)[j].0),
{
    lemma_inner_sorted(store.hashes, key);
}

/// HGETALL does not show the order in which the fields were set: two fields
/// set in either order give the same reply.
pub proof fn lemma_hgetall_order_free(
    store: Tables,
    key: Seq<u8>,
    sort: bool,
    f1: Seq<u8>,
    v1: FrameView,
    f2: Seq<u8>,
    v2: FrameView,
)
    requires
        store.wf(),
        f1 != f2,
    ensures
        reply_of(
            CommandView::HGetAll { key, sort },
            store.with_field(key, f1, v1).with_field(key, f2, v2),
        ) == reply_of(
            CommandView::HGetAll { key, sort },
            store.with_field(key, f2, v2).with_field(key, f1, v1),
        ),
{
    let fields = store.fields_of(key);
    lemma_inner_sorted(store.hashes, key);
    lemma_with_field_wf(store, key, f1, v1);
    lemma_with_field_wf(store, key, f2, v2);
    lemma_fields_after_hset(store, key, f1, v1, key);
    lemma_fields_after_hset(store, key, f2, v2, key);
    lemma_fields_after_hset(store.with_field(key, f1, v1), key, f2, v2, key);
    lemma_fields_after_hset(store.with_field(key, f2, v2), key, f1, v1, key);
    lemma_put_commutes(fields, f1, v1, f2, v2);
}

/// The last write wins: after SET, GET of the same key gives the value that
/// was set, and GET of every other key gives what it gave before.
pub proof fn lemma_get_after_set(store: Tables, key: Seq<u8>, value: FrameView, other: Seq<u8>)
    requires
        store.wf(),
    ensures
        reply_of(
            CommandView::Get { key: other },
            effect_of(CommandView::SetValue { key, value }, store),
        ) == (if other == key {
            value
        } else {
            reply_of(CommandView::Get { key: other }, store)
        }),
{
    lemma_lookup_put(store.strings, key, value, other);
}

/// The last write wins: after HSET, HGET of the same field gives the value
/// that was set, and HGET of every other field or key gives what it gave
/// before.
pub proof fn lemma_hget_after_hset(
    store: Tables,
    key: Seq<u8>,
    field: Seq<u8>,
    value: FrameView,
    other_key: Seq<u8>,
    other_field: Seq<u8>,
)
    requires
        store.wf(),
    ensures
        reply_of(
            CommandView::HGet { key: other_key, field: other_field },
            effect_of(CommandView::HSet { key, field, value }, store),
        ) == (if other_key == key && other_field == field {
            value
        } else {
            reply_of(CommandView::HGet { key: other_key, field: other_field }, store)
        }),
{
    lemma_fields_after_hset(store, key, field, value, other_key);
    lemma_inner_sorted(store.hashes, key);
    lemma_lookup_put(store.fields_of(key), field, value, other_field);
}

/// A member that was added is a member, and the others are what they were.
pub proof fn lemma_sismember_after_addmember(
    store: Tables,
    key: Seq<u8>,
    member: Seq<u8>,
    other_key: Seq<u8>,
    other_member: Seq<u8>,
)
    requires
        store.wf(),
    ensures
        reply_of(
            CommandView::SisMember { key: other_key, member: other_member },
            effect_of(CommandView::AddMember { key, member }, store),
        ) == (if other_key == key && other_member == member {
            FrameView::Integer(1)
        } else {
            reply_of(CommandView::SisMember { key: other_key, member: other_member }, store)
        }),
{
    let members = put(store.members_of(key), member, FrameView::Null);
    lemma_lookup_put(store.sets, key, FrameView::MapOf(members), other_key);
    lemma_inner_sorted(store.sets, key);
    lemma_lookup_put(store.members_of(key), member, FrameView::Null, other_member);
}

/// The three tables do not touch each other: a command changes at most the
/// table that it names.
pub proof fn lemma_tables_apart(c: CommandView, store: Tables)
    ensures
        !(c is SetValue) ==> effect_of(c, store).strings == store.strings,
        !(c is HSet) ==> effect_of(c, store).hashes == store.hashes,
        !(c is AddMember) ==> effect_of(c, store).sets == store.sets,
{
}

/// What the store holds for `key`, in each of its tables.
pub open spec fn held(store: Tables, key: Seq<u8>) -> (
    Option<FrameView>,
    Option<FrameView>,
    Option<FrameView>,
) {
    (lookup(store.strings, key), lookup(store.hashes, key), lookup(store.sets, key))
}

/// A command changes the values of its key only: every other key holds
/// after the command what it held before.
pub proof fn lemma_effect_at_key(c: CommandView, store: Tables, other: Seq<u8>)
    requires
        store.wf(),
        key_of(c) != Some(other),
    ensures
        held(effect_of(c, store), other) == held(store, other),
{
    match c {
        CommandView::SetValue { key, value } => {
            lemma_lookup_put(store.strings, key, value, other);
        },
        CommandView::HSet { key, field, value } => {
            lemma_lookup_put(
                store.hashes,
                key,
                FrameView::MapOf(put(store.fields_of(key), field, value)),
                other,
            );
        },
        CommandView::AddMember { key, member } => {
            lemma_lookup_put(
                store.sets,
                key,
                FrameView::MapOf(put(store.members_of(key), member, FrameView::Null)),
                other,
            );
        },
        _ => {},
    }
}

/// A command reads the values of its key only: two stores that hold the
/// same for that key give the same reply.
pub proof fn lemma_reply_at_key(c: CommandView, a: Tables, b: Tables)
    requires
        key_of(c) matches Some(key) ==> held(a, key) == held(b, key),
    ensures
        reply_of(c, a) == reply_of(c, b),
{
}

/// Commands on different keys do not see each other: the reply of the
/// second is what it is without the first.
pub proof fn lemma_keys_apart(first: CommandView, second: CommandView, store: Tables)
    requires
        store.wf(),
        key_of(first) != key_of(second),
    ensures
        reply_of(second, effect_of(first, store)) == reply_of(second, store),
{
    if let Some(key) = key_of(second) {
        lemma_effect_at_key(first, store, key);
    }
    lemma_reply_at_key(second, effect_of(first, store), store);
}

/// A command keeps the store well-formed.
pub proof fn lemma_effect_wf(c: CommandView, store: Tables)
    requires
        store.wf(),
    ensures
        effect_of(c, store).wf(),
{
    match c {
        CommandView::SetValue { key, value } => {
            lemma_put_sorted(store.strings, key, value);
        },
        CommandView::HSet { key, field, value } => {
            lemma_with_field_wf(store, key, field, value);
        },
        CommandView::AddMember { key, member } => {
            lemma_with_member_wf(store, key, member);
        },
        _ => {},
    }
}

/// Commands on different keys can run in either order: the store is the
/// same after both.
pub proof fn lemma_keys_commute(first: CommandView, second: CommandView, store: Tables)
    requires
        store.wf(),
        key_of(first) != key_of(second),
    ensures
        effect_of(second, effect_of(first, store)) == effect_of(first, effect_of(second, store)),
{
    let a = effect_of(second, effect_of(first, store));
    let b = effect_of(first, effect_of(second, store));
    lemma_effect_wf(first, store);
    lemma_effect_wf(second, store);
    lemma_effect_wf(second, effect_of(first, store));
    lemma_effect_wf(first, effect_of(second, store));
    assert forall|k: Seq<u8>| held(a, k) == held(b, k) by {
        lemma_held_after(first, second, store, k);
        lemma_held_after(second, first, store, k);
    }
    assert(same_lookups(a.strings, b.strings)) by {
        assert forall|k: Seq<u8>| lookup(a.strings, k) == lookup(b.strings, k) by {
            assert(held(a, k) == held(b, k));
        }
    }
    assert(same_lookups(a.hashes, b.hashes)) by {
        assert forall|k: Seq<u8>| lookup(a.hashes, k) == lookup(b.hashes, k) by {
            assert(held(a, k) == held(b, k));
        }
    }
    assert(same_lookups(a.sets, b.sets)) by {
        assert forall|k: Seq<u8>| lookup(a.sets, k) == lookup(b.sets, k) by {
            assert(held(a, k) == held(b, k));
        }
    }
    lemma_sorted_unique(a.strings, b.strings);
    lemma_sorted_unique(a.hashes, b.hashes);
    lemma_sorted_unique(a.sets, b.sets);
}

/// What a key holds after a command: what the command alone leaves it,
/// where the key is the command's; what it held before, where it is not.
pub open spec fn held_after(c: CommandView, store: Tables, k: Seq<u8>) -> (
    Option<FrameView>,
    Option<FrameView>,
    Option<FrameView>,
) {
    if key_of(c) == Some(k) {
        held(effect_of(c, store), k)
    } else {
        held(store, k)
    }
}

/// After two commands on different keys, every key holds what its own
/// command alone leaves it.
pub proof fn lemma_held_after(first: CommandView, second: CommandView, store: Tables, k: Seq<u8>)
    requires
        store.wf(),
        key_of(first) != key_of(second),
    ensures
        held(effect_of(second, effect_of(first, store)), k) == (if key_of(second) == Some(k) {
            held(effect_of(second, store), k)
        } else {
            held_after(first, store, k)
        }),
        held(effect_of(first, effect_of(second, store)), k) == (if key_of(second) == Some(k) {
            held(effect_of(second, store), k)
        } else {
            held_after(first, store, k)
        }),
{
    let after_first = effect_of(first, store);
    let after_second = effect_of(second, store);
    lemma_effect_wf(first, store);
    lemma_effect_wf(second, store);
    if key_of(second) == Some(k) {
        // the first command leaves the key of the second as it was
        lemma_effect_at_key(first, store, k);
        lemma_effect_at_key(first, after_second, k);
        lemma_own_key(second, store, after_first, k);
    } else {
        lemma_effect_at_key(second, after_first, k);
        if key_of(first) == Some(k) {
            lemma_effect_at_key(second, store, k);
            lemma_own_key(first, store, after_second, k);
        } else {
            lemma_effect_at_key(first, store, k);
            lemma_effect_at_key(second, store, k);
            lemma_effect_at_key(first, after_second, k);
        }
    }
}

/// What a command leaves at its key depends on what the key held alone.
pub proof fn lemma_own_key(c: CommandView, a: Tables, b: Tables, k: Seq<u8>)
    requires
        a.wf(),
        b.wf(),
        key_of(c) == Some(k),
        held(a, k) == held(b, k),
    ensures
        held(effect_of(c, a), k) == held(effect_of(c, b), k),
{
    match c {
        CommandView::SetValue { key, value } => {
            lemma_lookup_put(a.strings, key, value, k);
            lemma_lookup_put(b.strings, key, value, k);
        },
        CommandView::HSet { key, field, value } => {
            lemma_lookup_put(
                a.hashes,
                key,
                FrameView::MapOf(put(a.fields_of(key), field, value)),
                k,
            );
            lemma_lookup_put(
                b.hashes,
                key,
                FrameView::MapOf(put(b.fields_of(key), field, value)),
                k,
            );
        },
        CommandView::AddMember { key, member } => {
            lemma_lookup_put(
                a.sets,
                key,
                FrameView::MapOf(put(a.members_of(key), member, FrameView::Null)),
                k,
            );
            lemma_lookup_put(
                b.sets,
                key,
                FrameView::MapOf(put(b.members_of(key), member, FrameView::Null)),
                k,
            );
        },
        _ => {},
    }
}

} // verus!
