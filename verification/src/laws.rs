//! What holds of the adapter on the reference keyspace.
//!
//! Each law takes an arbitrary table and speaks of what the adapter reads from
//! any reply that answers its request there. Times are seconds since the
//! epoch.

use crate::adapter::{
    count_reading, delete_all_plan, delete_one_by_id_plan, done_reading, exists_plan,
    exists_reading, expiry_word, get_ids_plan, get_ids_reading, load_plan, load_reading,
    count_plan, store_plan,
};
use crate::command::CommandView;
use crate::error::SessionError;
use crate::keyspace::{
    after, after_all, after_request, listed, lists_keys, live, names, names_one_of,
    reported_size, request_answers, Record, Table,
};
use crate::reply::Reply;
use vstd::prelude::*;

verus! {

/// Whether the record under `key` is the same in both tables: absent in both,
/// or there with the same value and deadline.
pub open spec fn same_under(left: Table, right: Table, key: Seq<char>) -> bool {
    left.contains_key(key) == right.contains_key(key) && (left.contains_key(key) ==> left[key]
        == right[key])
}

/// A store is its two commands, one after the other.
proof fn lemma_store_in_steps(
    table: Table,
    id: Seq<char>,
    payload: Seq<char>,
    expires: i64,
    now: nat,
)
    ensures
        after_request(table, store_plan(id, payload, expires), now) == after(
            after(table, CommandView::SetValue { key: id, value: payload }, now),
            CommandView::ExpireAt { key: id, at: expiry_word(expires) as nat },
            now,
        ),
{
    let set_value = CommandView::SetValue { key: id, value: payload };
    let expire_at = CommandView::ExpireAt { key: id, at: expiry_word(expires) as nat };
    let commands = seq![set_value, expire_at];
    assert(commands.drop_last() =~= seq![set_value]);
    assert(seq![set_value].drop_last() =~= Seq::<CommandView>::empty());
    assert(commands.last() == expire_at);
    assert(seq![set_value].last() == set_value);
    reveal_with_fuel(after_all, 3);
    assert(after_all(table, seq![set_value], now) == after(table, set_value, now));
}

/// Value and expiry go together: a store whose expiry lies ahead leaves the id
/// with the payload and with the expiry as its deadline, and every other id as
/// it was.
pub proof fn law_store_effect(
    table: Table,
    id: Seq<char>,
    payload: Seq<char>,
    expires: i64,
    now: nat,
)
    requires
        now < expires,
    ensures
        after_request(table, store_plan(id, payload, expires), now) == live(table, now).insert(
            id,
            Record { value: payload, deadline: Some(expires as nat) },
        ),
{
    lemma_store_in_steps(table, id, payload, expires, now);
}

/// A store whose expiry has come already, be it before the epoch, leaves
/// nothing under the id: no record stays behind, with a deadline or without.
pub proof fn law_store_already_expired(
    table: Table,
    id: Seq<char>,
    payload: Seq<char>,
    expires: i64,
    now: nat,
)
    requires
        expires <= now,
    ensures
        after_request(table, store_plan(id, payload, expires), now) == live(table, now).remove(id),
{
    lemma_store_in_steps(table, id, payload, expires, now);
}

/// Round trip: a payload stored under an id is loaded back unchanged at any
/// time from the store on and before the expiry.
pub proof fn law_store_then_load(
    table: Table,
    id: Seq<char>,
    payload: Seq<char>,
    expires: i64,
    stored_at: nat,
    loaded_at: nat,
    reply: Reply,
)
    requires
        stored_at <= loaded_at < expires,
        request_answers(
            after_request(table, store_plan(id, payload, expires), stored_at),
            load_plan(id),
            loaded_at,
            reply,
        ),
    ensures
        load_reading(Ok(reply)) == Ok::<Option<Seq<char>>, SessionError>(Some(payload)),
{
    broadcast use vstd::utf8::encode_utf8_valid_utf8, vstd::utf8::encode_utf8_decode_utf8;

    law_store_effect(table, id, payload, expires, stored_at);
}

/// After a store the id exists, at any time from the store on and before the
/// expiry.
pub proof fn law_store_then_exists(
    table: Table,
    id: Seq<char>,
    payload: Seq<char>,
    expires: i64,
    stored_at: nat,
    asked_at: nat,
    reply: Reply,
)
    requires
        stored_at <= asked_at < expires,
        request_answers(
            after_request(table, store_plan(id, payload, expires), stored_at),
            exists_plan(id),
            asked_at,
            reply,
        ),
    ensures
        exists_reading(Ok(reply)) == Ok::<bool, SessionError>(true),
{
    law_store_effect(table, id, payload, expires, stored_at);
}

/// After its expiry a stored payload is gone: the id is not found and does not
/// exist. Nothing has to sweep it.
pub proof fn law_expired_is_gone(
    table: Table,
    id: Seq<char>,
    payload: Seq<char>,
    expires: i64,
    stored_at: nat,
    asked_at: nat,
    loaded: Reply,
    asked: Reply,
)
    requires
        stored_at < expires <= asked_at,
        request_answers(
            after_request(table, store_plan(id, payload, expires), stored_at),
            load_plan(id),
            asked_at,
            loaded,
        ),
        request_answers(
            after_request(table, store_plan(id, payload, expires), stored_at),
            exists_plan(id),
            asked_at,
            asked,
        ),
    ensures
        load_reading(Ok(loaded)) == Ok::<Option<Seq<char>>, SessionError>(None),
        exists_reading(Ok(asked)) == Ok::<bool, SessionError>(false),
{
    law_store_effect(table, id, payload, expires, stored_at);
}

/// A failed exchange is reported as it is by every operation: none reads a
/// result out of a failure.
pub proof fn law_failure_is_reported(error: SessionError)
    ensures
        done_reading(Err(error)) == Err::<(), SessionError>(error),
        count_reading(Err(error)) == Err::<i64, SessionError>(error),
        load_reading(Err(error)) == Err::<Option<Seq<char>>, SessionError>(error),
        exists_reading(Err(error)) == Err::<bool, SessionError>(error),
        get_ids_reading(Err(error)) == Err::<Seq<Seq<char>>, SessionError>(error),
{
}

/// A payload that is there is found, be it empty: what `load` reads from the
/// byte string that holds a payload is that payload, never "not found".
pub proof fn law_found_is_not_absent(reply: Reply, payload: Seq<char>)
    requires
        names(reply, payload),
    ensures
        load_reading(Ok(reply)) == Ok::<Option<Seq<char>>, SessionError>(Some(payload)),
{
    lemma_named_text(reply, payload);
}

/// An id that the keyspace does not hold is not found, and does not exist.
pub proof fn law_absent_id(table: Table, id: Seq<char>, now: nat, loaded: Reply, asked: Reply)
    requires
        !live(table, now).contains_key(id),
        request_answers(table, load_plan(id), now, loaded),
        request_answers(table, exists_plan(id), now, asked),
    ensures
        load_reading(Ok(loaded)) == Ok::<Option<Seq<char>>, SessionError>(None),
        exists_reading(Ok(asked)) == Ok::<bool, SessionError>(false),
{
}

/// To delete an id that is not there is no error, and changes nothing.
pub proof fn law_delete_absent(table: Table, id: Seq<char>, now: nat, reply: Reply)
    requires
        !live(table, now).contains_key(id),
        request_answers(table, delete_one_by_id_plan(id), now, reply),
    ensures
        done_reading(Ok(reply)) == Ok::<(), SessionError>(()),
        after_request(table, delete_one_by_id_plan(id), now) == live(table, now),
{
}

/// To delete an id twice is to delete it once.
pub proof fn law_delete_twice(table: Table, id: Seq<char>, now: nat)
    ensures
        after_request(
            after_request(table, delete_one_by_id_plan(id), now),
            delete_one_by_id_plan(id),
            now,
        ) == after_request(table, delete_one_by_id_plan(id), now),
{
}

/// After a delete the id is not found and does not exist, whatever was there.
pub proof fn law_delete_then_gone(
    table: Table,
    id: Seq<char>,
    deleted_at: nat,
    asked_at: nat,
    loaded: Reply,
    asked: Reply,
)
    requires
        request_answers(
            after_request(table, delete_one_by_id_plan(id), deleted_at),
            load_plan(id),
            asked_at,
            loaded,
        ),
        request_answers(
            after_request(table, delete_one_by_id_plan(id), deleted_at),
            exists_plan(id),
            asked_at,
            asked,
        ),
    ensures
        load_reading(Ok(loaded)) == Ok::<Option<Seq<char>>, SessionError>(None),
        exists_reading(Ok(asked)) == Ok::<bool, SessionError>(false),
{
}

/// The count is the number of keys that the database holds at that time,
/// whoever wrote them, as far as the reply can hold it.
pub proof fn law_count_is_every_key(table: Table, now: nat, reply: Reply)
    requires
        request_answers(table, count_plan(), now, reply),
    ensures
        count_reading(Ok(reply)) == Ok::<i64, SessionError>(
            reported_size(live(table, now).dom().len()),
        ),
{
}

/// The byte string that holds a key reads as that key.
proof fn lemma_named_text(reply: Reply, key: Seq<char>)
    requires
        names(reply, key),
    ensures
        reply.text() == Some(key),
{
    vstd::utf8::encode_utf8_valid_utf8(key);
    vstd::utf8::encode_utf8_decode_utf8(key);
}

/// Whether one of `members` reads as the text `key`.
#[verifier::opaque]
pub open spec fn read_among(members: Seq<Reply>, key: Seq<char>) -> bool {
    exists|i: int| 0 <= i < members.len() && (#[trigger] members[i]).text() == Some(key)
}

/// Every member of a listing of keys reads as one of the keys.
proof fn lemma_member_read(members: Seq<Reply>, keys: Set<Seq<char>>, i: int)
    requires
        0 <= i < members.len(),
        names_one_of(members[i], keys),
    ensures
        members[i].text() is Some,
        keys.contains(members[i].text()->0),
{
    reveal(names_one_of);
    let key = choose|key: Seq<char>| keys.contains(key) && #[trigger] names(members[i], key);
    lemma_named_text(members[i], key);
}

/// Every key of a listing of keys is read from some member.
proof fn lemma_key_read(members: Seq<Reply>, key: Seq<char>)
    requires
        listed(members, key),
    ensures
        read_among(members, key),
{
    reveal(listed);
    reveal(read_among);
    let at = choose|i: int| 0 <= i < members.len() && names(#[trigger] members[i], key);
    lemma_named_text(members[at], key);
}

/// A listing of keys reads as those keys: every member reads as one of the
/// keys, and every key is read from some member.
proof fn lemma_listing_read(members: Seq<Reply>, keys: Set<Seq<char>>)
    requires
        lists_keys(members, keys),
    ensures
        forall|i: int|
            0 <= i < members.len() ==> (#[trigger] members[i]).text() is Some && keys.contains(
                members[i].text()->0,
            ),
        forall|key: Seq<char>| #[trigger] keys.contains(key) ==> read_among(members, key),
{
    assert forall|i: int| 0 <= i < members.len() implies (#[trigger] members[i]).text() is Some
        && keys.contains(members[i].text()->0) by {
        lemma_member_read(members, keys, i);
    }
    assert forall|key: Seq<char>| #[trigger] keys.contains(key) implies read_among(
        members,
        key,
    ) by {
        lemma_key_read(members, key);
    }
}

/// The listed ids are the keys that the database holds at that time, whoever
/// wrote them: each key once and nothing else.
pub proof fn law_get_ids_is_every_key(table: Table, now: nat, reply: Reply)
    requires
        request_answers(table, get_ids_plan(), now, reply),
    ensures
        get_ids_reading(Ok(reply)) matches Ok(ids) && ids.len() == live(table, now).dom().len()
            && ids.to_set() == live(table, now).dom(),
{
    let keys = live(table, now).dom();
    let members = reply->Bulk_0@;
    lemma_listing_read(members, keys);
    let ids = Seq::new(members.len(), |i: int| members[i].text()->0);
    assert(reply.texts() == Some(ids));
    assert forall|key: Seq<char>| keys.contains(key) implies ids.contains(key) by {
        reveal(read_among);
        assert(read_among(members, key));
        let at = choose|i: int| 0 <= i < members.len() && (#[trigger] members[i]).text() == Some(
            key,
        );
        assert(ids[at] == key);
    }
    assert forall|key: Seq<char>| ids.contains(key) implies keys.contains(key) by {
        let at = choose|i: int| 0 <= i < ids.len() && ids[i] == key;
        assert(members[at].text()->0 == key);
    }
    assert(ids.to_set() =~= keys);
}

/// After `delete_all` the count is zero and no id is listed.
pub proof fn law_delete_all_then_empty(
    table: Table,
    deleted_at: nat,
    asked_at: nat,
    counted: Reply,
    listed: Reply,
)
    requires
        request_answers(
            after_request(table, delete_all_plan(), deleted_at),
            count_plan(),
            asked_at,
            counted,
        ),
        request_answers(
            after_request(table, delete_all_plan(), deleted_at),
            get_ids_plan(),
            asked_at,
            listed,
        ),
    ensures
        count_reading(Ok(counted)) == Ok::<i64, SessionError>(0),
        get_ids_reading(Ok(listed)) == Ok::<Seq<Seq<char>>, SessionError>(Seq::empty()),
{
    let emptied = live(after_request(table, delete_all_plan(), deleted_at), asked_at);
    assert(emptied.dom() =~= Set::<Seq<char>>::empty());
    assert(listed.texts()->0 =~= Seq::<Seq<char>>::empty());
}

/// No cross-talk: a store under one id leaves the record under every other id
/// as it was.
pub proof fn law_store_leaves_others(
    table: Table,
    id: Seq<char>,
    payload: Seq<char>,
    expires: i64,
    now: nat,
    other: Seq<char>,
)
    requires
        other != id,
    ensures
        same_under(
            after_request(table, store_plan(id, payload, expires), now),
            live(table, now),
            other,
        ),
{
    lemma_store_in_steps(table, id, payload, expires, now);
}

/// After a store the count is at least one, at any time from the store on and
/// before the expiry.
pub proof fn law_store_then_count(
    table: Table,
    id: Seq<char>,
    payload: Seq<char>,
    expires: i64,
    stored_at: nat,
    asked_at: nat,
    reply: Reply,
)
    requires
        stored_at <= asked_at < expires,
        request_answers(
            after_request(table, store_plan(id, payload, expires), stored_at),
            count_plan(),
            asked_at,
            reply,
        ),
    ensures
        count_reading(Ok(reply)) matches Ok(number) && number >= 1,
{
    law_store_effect(table, id, payload, expires, stored_at);
    let kept = live(after_request(table, store_plan(id, payload, expires), stored_at), asked_at);
    assert(kept.dom().contains(id));
    if kept.dom().len() == 0 {
        kept.dom().lemma_len0_is_empty();
    }
}

/// After a store the id is among the listed ids, at any time from the store on
/// and before the expiry.
pub proof fn law_store_then_listed(
    table: Table,
    id: Seq<char>,
    payload: Seq<char>,
    expires: i64,
    stored_at: nat,
    asked_at: nat,
    reply: Reply,
)
    requires
        stored_at <= asked_at < expires,
        request_answers(
            after_request(table, store_plan(id, payload, expires), stored_at),
            get_ids_plan(),
            asked_at,
            reply,
        ),
    ensures
        get_ids_reading(Ok(reply)) matches Ok(ids) && ids.contains(id),
{
    let stored = after_request(table, store_plan(id, payload, expires), stored_at);
    law_store_effect(table, id, payload, expires, stored_at);
    law_get_ids_is_every_key(stored, asked_at, reply);
    assert(live(stored, asked_at).dom().contains(id));
}

/// Whether the command can change what is held under `key`.
pub open spec fn touches(command: CommandView, key: Seq<char>) -> bool {
    match command {
        CommandView::SetValue { key: written, .. } => written == key,
        CommandView::ExpireAt { key: written, .. } => written == key,
        CommandView::Del { key: written } => written == key,
        CommandView::FlushDb => true,
        _ => false,
    }
}

/// No cross-talk: a command that does not touch a key leaves the record under
/// it as it was.
pub proof fn law_untouched_key(table: Table, command: CommandView, now: nat, key: Seq<char>)
    requires
        !touches(command, key),
    ensures
        same_under(after(table, command, now), live(table, now), key),
{
}

proof fn lemma_written_then_untouched(
    table: Table,
    commands: Seq<CommandView>,
    now: nat,
    id: Seq<char>,
    payload: Seq<char>,
    written_at: int,
)
    requires
        0 <= written_at < commands.len(),
        commands[written_at] == (CommandView::SetValue { key: id, value: payload }),
        forall|i: int| written_at < i < commands.len() ==> !touches(#[trigger] commands[i], id),
    ensures
        after_all(table, commands, now).contains_key(id),
        after_all(table, commands, now)[id] == (Record { value: payload, deadline: None }),
    decreases commands.len(),
{
    let front = commands.drop_last();
    if written_at < commands.len() - 1 {
        assert(front[written_at] == commands[written_at]);
        assert forall|i: int| written_at < i < front.len() implies !touches(
            #[trigger] front[i],
            id,
        ) by {
            assert(front[i] == commands[i]);
        }
        lemma_written_then_untouched(table, front, now, id, payload, written_at);
        assert(!touches(commands[commands.len() - 1], id));
        law_untouched_key(after_all(table, front, now), commands.last(), now, id);
    }
}

/// Interleaving: let any commands be carried out in any order at one instant.
/// If a store whose expiry lies ahead has its two commands among them, the
/// value before the expiry, and no other command touches its id, then the id is
/// loaded back with the payload at any time before the expiry. So the
/// pipelines of callers that store under distinct ids may interleave as they
/// will: each caller finds its own payload.
pub proof fn law_interleaved_store(
    table: Table,
    commands: Seq<CommandView>,
    now: nat,
    id: Seq<char>,
    payload: Seq<char>,
    expires: i64,
    written_at: int,
    expired_at: int,
    loaded_at: nat,
    reply: Reply,
)
    requires
        now <= loaded_at < expires,
        0 <= written_at < expired_at < commands.len(),
        commands[written_at] == (CommandView::SetValue { key: id, value: payload }),
        commands[expired_at] == (CommandView::ExpireAt {
            key: id,
            at: expiry_word(expires) as nat,
        }),
        forall|i: int|
            0 <= i < commands.len() && i != written_at && i != expired_at ==> !touches(
                #[trigger] commands[i],
                id,
            ),
        request_answers(after_all(table, commands, now), load_plan(id), loaded_at, reply),
    ensures
        load_reading(Ok(reply)) == Ok::<Option<Seq<char>>, SessionError>(Some(payload)),
{
    broadcast use vstd::utf8::encode_utf8_valid_utf8, vstd::utf8::encode_utf8_decode_utf8;

    lemma_interleaved_store(table, commands, now, id, payload, expires, written_at, expired_at);
}

proof fn lemma_interleaved_store(
    table: Table,
    commands: Seq<CommandView>,
    now: nat,
    id: Seq<char>,
    payload: Seq<char>,
    expires: i64,
    written_at: int,
    expired_at: int,
)
    requires
        now < expires,
        0 <= written_at < expired_at < commands.len(),
        commands[written_at] == (CommandView::SetValue { key: id, value: payload }),
        commands[expired_at] == (CommandView::ExpireAt {
            key: id,
            at: expiry_word(expires) as nat,
        }),
        forall|i: int|
            0 <= i < commands.len() && i != written_at && i != expired_at ==> !touches(
                #[trigger] commands[i],
                id,
            ),
    ensures
        after_all(table, commands, now).contains_key(id),
        after_all(table, commands, now)[id] == (Record {
            value: payload,
            deadline: Some(expires as nat),
        }),
    decreases commands.len(),
{
    let front = commands.drop_last();
    assert(front[written_at] == commands[written_at]);
    if expired_at < commands.len() - 1 {
        assert(front[expired_at] == commands[expired_at]);
        assert forall|i: int|
            0 <= i < front.len() && i != written_at && i != expired_at implies !touches(
            #[trigger] front[i],
            id,
        ) by {
            assert(front[i] == commands[i]);
        }
        lemma_interleaved_store(table, front, now, id, payload, expires, written_at, expired_at);
        assert(!touches(commands[commands.len() - 1], id));
        law_untouched_key(after_all(table, front, now), commands.last(), now, id);
    } else {
        assert forall|i: int| written_at < i < front.len() implies !touches(
            #[trigger] front[i],
            id,
        ) by {
            assert(front[i] == commands[i]);
        }
        lemma_written_then_untouched(table, front, now, id, payload, written_at);
    }
}

/// To carry out a command leaves nothing behind whose deadline has come.
proof fn lemma_after_is_live(table: Table, command: CommandView, now: nat)
    ensures
        live(after(table, command, now), now) == after(table, command, now),
{
    assert(live(after(table, command, now), now) =~= after(table, command, now));
}

/// Commands of which none touches a key leave the record under it as it was.
proof fn lemma_untouched_by_all(
    table: Table,
    commands: Seq<CommandView>,
    now: nat,
    key: Seq<char>,
)
    requires
        commands.len() > 0,
        forall|i: int| 0 <= i < commands.len() ==> !touches(#[trigger] commands[i], key),
    ensures
        same_under(after_all(table, commands, now), live(table, now), key),
    decreases commands.len(),
{
    let front = commands.drop_last();
    reveal_with_fuel(after_all, 2);
    assert(!touches(commands[commands.len() - 1], key));
    if front.len() == 0 {
        law_untouched_key(table, commands.last(), now, key);
    } else {
        assert forall|i: int| 0 <= i < front.len() implies !touches(#[trigger] front[i], key) by {
            assert(front[i] == commands[i]);
        }
        lemma_untouched_by_all(table, front, now, key);
        let before = after_all(table, front, now);
        lemma_after_is_live(after_all(table, front.drop_last(), now), front.last(), now);
        law_untouched_key(before, commands.last(), now, key);
    }
}

/// What one caller stores under its id.
pub struct Stored {
    pub payload: Seq<char>,
    pub expires: i64,
}

/// Where the two commands of one caller's store stand among all commands.
pub struct Place {
    pub written_at: int,
    pub expired_at: int,
}

/// Whether the two commands of the store under `id` stand in `commands` at
/// `place`, the value before the expiry.
pub open spec fn stands_in(
    commands: Seq<CommandView>,
    id: Seq<char>,
    stored: Stored,
    place: Place,
) -> bool {
    &&& 0 <= place.written_at < place.expired_at < commands.len()
    &&& commands[place.written_at] == (CommandView::SetValue { key: id, value: stored.payload })
    &&& commands[place.expired_at] == (CommandView::ExpireAt {
        key: id,
        at: expiry_word(stored.expires) as nat,
    })
}

/// Whether the position `at` is one of some store's two places.
pub open spec fn owned(places: Map<Seq<char>, Place>, at: int) -> bool {
    exists|id: Seq<char>| #[trigger]
        places.contains_key(id) && (places[id].written_at == at || places[id].expired_at == at)
}

/// Whether `commands` is an interleaving of the pipelines of `stores`, one
/// store under each id: the two commands of each store stand at its place, and
/// there is no other command.
pub open spec fn interleaves(
    commands: Seq<CommandView>,
    stores: Map<Seq<char>, Stored>,
    places: Map<Seq<char>, Place>,
) -> bool {
    &&& places.dom() == stores.dom()
    &&& forall|id: Seq<char>| #[trigger]
        stores.contains_key(id) ==> stands_in(commands, id, stores[id], places[id])
    &&& forall|at: int| 0 <= at < commands.len() ==> #[trigger] owned(places, at)
}

/// The table with what the stores leave: under each stored id its payload with
/// its expiry as deadline, under every other key what the table held.
pub open spec fn with_stores(table: Table, stores: Map<Seq<char>, Stored>) -> Table {
    Map::new(
        |key: Seq<char>| table.contains_key(key) || stores.contains_key(key),
        |key: Seq<char>|
            if stores.contains_key(key) {
                Record { value: stores[key].payload, deadline: Some(stores[key].expires as nat) }
            } else {
                table[key]
            },
    )
}

/// Many callers, interleaved: let callers store under pairwise distinct ids,
/// each with an expiry that lies ahead, and let their pipelines interleave in
/// whatever way at one instant. Then the table holds afterwards what it held
/// before and, under each caller's id, that caller's payload with its expiry.
/// The outcome depends on what was stored alone: every interleaving gives the
/// same table, the one that the stores give one after another in any order.
pub proof fn law_interleaved_stores(
    table: Table,
    stores: Map<Seq<char>, Stored>,
    places: Map<Seq<char>, Place>,
    commands: Seq<CommandView>,
    now: nat,
)
    requires
        commands.len() > 0,
        interleaves(commands, stores, places),
        forall|id: Seq<char>| #[trigger] stores.contains_key(id) ==> now < stores[id].expires,
    ensures
        after_all(table, commands, now) == with_stores(live(table, now), stores),
{
    let left = after_all(table, commands, now);
    let right = with_stores(live(table, now), stores);
    assert forall|key: Seq<char>|
        #![trigger left.dom().contains(key)]
        #![trigger right.dom().contains(key)]
        left.dom().contains(key) == right.dom().contains(key) && (left.dom().contains(key)
            ==> left[key] == right[key]) by {
        if stores.contains_key(key) {
            let stored = stores[key];
            let place = places[key];
            assert(stands_in(commands, key, stored, place));
            assert forall|i: int|
                0 <= i < commands.len() && i != place.written_at && i != place.expired_at implies !touches(
                #[trigger] commands[i],
                key,
            ) by {
                lemma_foreign_command(commands, stores, places, i, key);
            }
            lemma_interleaved_store(
                table,
                commands,
                now,
                key,
                stored.payload,
                stored.expires,
                place.written_at,
                place.expired_at,
            );
        } else {
            assert forall|i: int| 0 <= i < commands.len() implies !touches(
                #[trigger] commands[i],
                key,
            ) by {
                lemma_foreign_command(commands, stores, places, i, key);
            }
            lemma_untouched_by_all(table, commands, now, key);
        }
    }
    assert(left =~= right);
}

/// In an interleaving, a command that is none of the two of the store under
/// `key` belongs to a store under another id, and so does not touch the key.
proof fn lemma_foreign_command(
    commands: Seq<CommandView>,
    stores: Map<Seq<char>, Stored>,
    places: Map<Seq<char>, Place>,
    at: int,
    key: Seq<char>,
)
    requires
        interleaves(commands, stores, places),
        0 <= at < commands.len(),
        stores.contains_key(key) ==> at != places[key].written_at && at != places[key].expired_at,
    ensures
        !touches(commands[at], key),
{
    assert(owned(places, at));
    let id = choose|id: Seq<char>| #[trigger]
        places.contains_key(id) && (places[id].written_at == at || places[id].expired_at == at);
    assert(stores.contains_key(id));
    assert(stands_in(commands, id, stores[id], places[id]));
}

/// The table after the stores under `ids` were served one after another in
/// this order, all at `now`.
pub open spec fn after_stores(
    table: Table,
    ids: Seq<Seq<char>>,
    stores: Map<Seq<char>, Stored>,
    now: nat,
) -> Table
    decreases ids.len(),
{
    if ids.len() == 0 {
        table
    } else {
        after_request(
            after_stores(table, ids.drop_last(), stores, now),
            store_plan(ids.last(), stores[ids.last()].payload, stores[ids.last()].expires),
            now,
        )
    }
}

/// The stores under `ids`, served in this order, leave what `with_stores` says
/// of them.
proof fn lemma_stores_in_order(
    table: Table,
    ids: Seq<Seq<char>>,
    stores: Map<Seq<char>, Stored>,
    now: nat,
)
    requires
        ids.len() > 0,
        forall|i: int|
            0 <= i < ids.len() ==> stores.contains_key(#[trigger] ids[i]) && now
                < stores[ids[i]].expires,
    ensures
        after_stores(table, ids, stores, now) == with_stores(
            live(table, now),
            stores.restrict(ids.to_set()),
        ),
    decreases ids.len(),
{
    let front = ids.drop_last();
    let last = ids.last();
    let before = after_stores(table, front, stores, now);
    reveal_with_fuel(after_stores, 2);
    assert(stores.contains_key(ids[ids.len() - 1]));
    assert forall|key: Seq<char>| ids.contains(key) == (front.contains(key) || key == last) by {
        if ids.contains(key) {
            let i = choose|i: int| 0 <= i < ids.len() && ids[i] == key;
            if i < front.len() {
                assert(front[i] == key);
            }
        }
        if front.contains(key) {
            let i = choose|i: int| 0 <= i < front.len() && front[i] == key;
            assert(ids[i] == key);
        }
        if key == last {
            assert(ids[ids.len() - 1] == key);
        }
    }
    law_store_effect(before, last, stores[last].payload, stores[last].expires, now);
    if front.len() == 0 {
        assert(after_stores(table, ids, stores, now) =~= with_stores(
            live(table, now),
            stores.restrict(ids.to_set()),
        ));
    } else {
        assert forall|i: int| 0 <= i < front.len() implies stores.contains_key(
            #[trigger] front[i],
        ) && now < stores[front[i]].expires by {
            assert(front[i] == ids[i]);
        }
        lemma_stores_in_order(table, front, stores, now);
        assert(live(before, now) =~= before);
        assert(after_stores(table, ids, stores, now) =~= with_stores(
            live(table, now),
            stores.restrict(ids.to_set()),
        ));
    }
}

/// Many callers, one after another: let callers store under their ids, each
/// with an expiry that lies ahead, one after another in whatever order. Then
/// the table holds afterwards what it held before and, under each caller's id,
/// that caller's payload with its expiry: the same table in every order, and
/// the same that every interleaving of the pipelines gives.
pub proof fn law_stores_in_any_order(
    table: Table,
    ids: Seq<Seq<char>>,
    stores: Map<Seq<char>, Stored>,
    now: nat,
)
    requires
        ids.len() > 0,
        ids.to_set() == stores.dom(),
        forall|id: Seq<char>| #[trigger] stores.contains_key(id) ==> now < stores[id].expires,
    ensures
        after_stores(table, ids, stores, now) == with_stores(live(table, now), stores),
{
    assert forall|i: int| 0 <= i < ids.len() implies stores.contains_key(#[trigger] ids[i]) && now
        < stores[ids[i]].expires by {
        assert(ids.to_set().contains(ids[i]));
    }
    lemma_stores_in_order(table, ids, stores, now);
    assert(stores.restrict(ids.to_set()) =~= stores);
}

} // verus!
