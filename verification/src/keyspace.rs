//! A reference keyspace: what the commands of the adapter do to a key-value
//! store with per-key expiry, as a mathematical model, and an in-memory store
//! that behaves exactly so.
//!
//! The model serves two ends. The laws of the adapter are stated against it,
//! and the in-memory store lets the adapter be run without a server. A real
//! cluster is not held to it by anything in this crate.

use crate::command::{Command, CommandView, Request, RequestView};
use crate::reply::Reply;
use vstd::prelude::*;
use vstd::string::{StrSliceExecFns, StringSliceAdditionalSpecFns};
use vstd::utf8::encode_utf8;

verus! {

/// What the store holds under one key: the value, and the instant from which
/// on the key is gone, in seconds since the epoch. Without a deadline the key
/// stays until it is removed.
pub struct Record {
    pub value: Seq<char>,
    pub deadline: Option<nat>,
}

impl Record {
    /// Whether the record is still there at `now`.
    pub open spec fn alive(self, now: nat) -> bool {
        match self.deadline {
            Some(deadline) => now < deadline,
            None => true,
        }
    }
}

/// A keyspace: the record under each key.
pub type Table = Map<Seq<char>, Record>;

/// The part of the table that is there at `now`: every key whose deadline has
/// not come.
pub open spec fn live(table: Table, now: nat) -> Table {
    Map::new(
        |key: Seq<char>| table.contains_key(key) && table[key].alive(now),
        |key: Seq<char>| table[key],
    )
}

/// The table after `command` was carried out at `now`.
///
/// `SET` writes the value and clears the deadline. `EXPIREAT` gives a key that
/// is there its deadline, and removes it at once where the deadline has come
/// already. `DEL` removes the key, `FLUSHDB` every key. The other commands
/// change nothing.
pub open spec fn after(table: Table, command: CommandView, now: nat) -> Table {
    let table = live(table, now);
    match command {
        CommandView::SetValue { key, value } => table.insert(
            key,
            Record { value, deadline: None },
        ),
        CommandView::ExpireAt { key, at } => if !table.contains_key(key) {
            table
        } else if at <= now {
            table.remove(key)
        } else {
            table.insert(key, Record { value: table[key].value, deadline: Some(at) })
        },
        CommandView::Del { key } => table.remove(key),
        CommandView::FlushDb => Map::empty(),
        _ => table,
    }
}

/// Whether `reply` is the byte string that holds `key`.
pub open spec fn names(reply: Reply, key: Seq<char>) -> bool {
    reply matches Reply::Data(bytes) && bytes@ == encode_utf8(key)
}

/// Whether `reply` is the byte string that holds one of `keys`.
#[verifier::opaque]
pub open spec fn names_one_of(reply: Reply, keys: Set<Seq<char>>) -> bool {
    exists|key: Seq<char>| keys.contains(key) && #[trigger] names(reply, key)
}

/// Whether one of `members` is the byte string that holds `key`.
#[verifier::opaque]
pub open spec fn listed(members: Seq<Reply>, key: Seq<char>) -> bool {
    exists|i: int| 0 <= i < members.len() && names(#[trigger] members[i], key)
}

/// Whether `members` lists the keys of `keys`: each key once, nothing else, in
/// whatever order.
pub open spec fn lists_keys(members: Seq<Reply>, keys: Set<Seq<char>>) -> bool {
    &&& keys.finite()
    &&& members.len() == keys.len()
    &&& forall|i: int| 0 <= i < members.len() ==> names_one_of(#[trigger] members[i], keys)
    &&& forall|key: Seq<char>| #[trigger] keys.contains(key) ==> listed(members, key)
}

/// The number that `DBSIZE` reports for `size` keys: the size itself, as far
/// as the reply can hold it.
pub open spec fn reported_size(size: nat) -> i64 {
    if size <= i64::MAX {
        size as i64
    } else {
        i64::MAX
    }
}

/// Whether `reply` is an answer to `command`, carried out on `table` at `now`.
/// Every command but `KEYS` has one answer; `KEYS` may list in any order.
pub open spec fn answers(table: Table, command: CommandView, now: nat, reply: Reply) -> bool {
    let table = live(table, now);
    match command {
        CommandView::SetValue { .. } => reply is Okay,
        CommandView::ExpireAt { key, .. } => reply == Reply::Int(
            if table.contains_key(key) {
                1i64
            } else {
                0i64
            },
        ),
        CommandView::Get { key } => if table.contains_key(key) {
            names(reply, table[key].value)
        } else {
            reply is Nil
        },
        CommandView::Del { key } => reply == Reply::Int(
            if table.contains_key(key) {
                1i64
            } else {
                0i64
            },
        ),
        CommandView::Exists { key } => reply == Reply::Int(
            if table.contains_key(key) {
                1i64
            } else {
                0i64
            },
        ),
        CommandView::DbSize => table.dom().finite() && reply == Reply::Int(
            reported_size(table.dom().len()),
        ),
        CommandView::FlushDb => reply is Okay,
        CommandView::Keys => reply matches Reply::Bulk(members) && lists_keys(
            members@,
            table.dom(),
        ),
    }
}

/// The table after `commands` were carried out in order, all at `now`.
pub open spec fn after_all(table: Table, commands: Seq<CommandView>, now: nat) -> Table
    decreases commands.len(),
{
    if commands.len() == 0 {
        table
    } else {
        after(after_all(table, commands.drop_last(), now), commands.last(), now)
    }
}

/// The table after `request` was served at `now`.
pub open spec fn after_request(table: Table, request: RequestView, now: nat) -> Table {
    match request {
        RequestView::One(command) => after(table, command, now),
        RequestView::Batch(commands) => after_all(table, commands, now),
    }
}

/// Whether `reply` is what the caller gets for `request`, served on `table` at
/// `now`: the command's answer, or for a pipeline the empty list, as every
/// reply of it is dropped.
pub open spec fn request_answers(
    table: Table,
    request: RequestView,
    now: nat,
    reply: Reply,
) -> bool {
    match request {
        RequestView::One(command) => answers(table, command, now, reply),
        RequestView::Batch(_) => reply matches Reply::Bulk(members) && members@.len() == 0,
    }
}

/// One key of the in-memory store with what it holds.
struct Entry {
    key: String,
    value: String,
    deadline: Option<u64>,
}

impl Entry {
    /// What the entry holds, as the model sees it.
    spec fn record(self) -> Record {
        Record {
            value: self.value@,
            deadline: match self.deadline {
                Some(deadline) => Some(deadline as nat),
                None => None,
            },
        }
    }
}

/// No key occurs twice.
spec fn distinct(entries: Seq<Entry>) -> bool {
    forall|i: int, j: int|
        0 <= i < j < entries.len() ==> (#[trigger] entries[i]).key@ != (#[trigger] entries[j]).key@
}

/// Some entry has the key.
spec fn holds(entries: Seq<Entry>, key: Seq<char>) -> bool {
    exists|i: int| 0 <= i < entries.len() && (#[trigger] entries[i]).key@ == key
}

/// Where the key's entry stands, if some entry has the key.
spec fn place(entries: Seq<Entry>, key: Seq<char>) -> int {
    choose|i: int| 0 <= i < entries.len() && (#[trigger] entries[i]).key@ == key
}

/// The table that the entries stand for.
spec fn table_of(entries: Seq<Entry>) -> Table {
    Map::new(
        |key: Seq<char>| holds(entries, key),
        |key: Seq<char>| entries[place(entries, key)].record(),
    )
}

/// The table without the key to skip, if there is one.
spec fn without(table: Table, skip: Option<Seq<char>>) -> Table {
    match skip {
        Some(key) => table.remove(key),
        None => table,
    }
}

/// Among distinct entries, the table holds under each entry's key what that
/// entry holds.
proof fn lemma_table_at(entries: Seq<Entry>, i: int)
    requires
        distinct(entries),
        0 <= i < entries.len(),
    ensures
        table_of(entries).contains_key(entries[i].key@),
        table_of(entries)[entries[i].key@] == entries[i].record(),
{
    let key = entries[i].key@;
    assert(holds(entries, key));
    let j = place(entries, key);
    assert(0 <= j < entries.len() && entries[j].key@ == key);
    if j < i {
        assert(entries[j].key@ != entries[i].key@);
    } else if i < j {
        assert(entries[i].key@ != entries[j].key@);
    }
}

/// To append an entry with a new key is to insert it into the table.
proof fn lemma_table_push(entries: Seq<Entry>, entry: Entry)
    requires
        distinct(entries),
        !holds(entries, entry.key@),
    ensures
        distinct(entries.push(entry)),
        table_of(entries.push(entry)) == table_of(entries).insert(entry.key@, entry.record()),
{
    let more = entries.push(entry);
    assert forall|i: int, j: int| 0 <= i < j < more.len() implies (#[trigger] more[i]).key@ != (
    #[trigger] more[j]).key@ by {
        if j < entries.len() {
            assert(entries[i].key@ != entries[j].key@);
        } else {
            assert(more[i] == entries[i]);
            if more[i].key@ == more[j].key@ {
                assert(holds(entries, entry.key@));
            }
        }
    }
    let grown = table_of(entries).insert(entry.key@, entry.record());
    assert forall|key: Seq<char>| table_of(more).contains_key(key) <==> grown.contains_key(
        key,
    ) by {
        if holds(more, key) {
            let i = place(more, key);
            if i < entries.len() {
                assert(entries[i].key@ == key);
            }
        }
        if holds(entries, key) {
            let i = place(entries, key);
            assert(more[i].key@ == key);
        }
        if key == entry.key@ {
            assert(more[entries.len() as int].key@ == key);
        }
    }
    assert forall|key: Seq<char>| table_of(more).contains_key(key) implies table_of(more)[key]
        == grown[key] by {
        let i = place(more, key);
        lemma_table_at(more, i);
        if i < entries.len() {
            assert(entries[i].key@ == key);
            lemma_table_at(entries, i);
        }
    }
    assert(table_of(more) =~= grown);
}

/// Distinct entries stand for a table of as many keys.
proof fn lemma_table_size(entries: Seq<Entry>)
    requires
        distinct(entries),
    ensures
        table_of(entries).dom().finite(),
        table_of(entries).dom().len() == entries.len(),
    decreases entries.len(),
{
    if entries.len() == 0 {
        assert(table_of(entries).dom() =~= Set::<Seq<char>>::empty());
    } else {
        let front = entries.drop_last();
        let last = entries.last();
        assert forall|i: int, j: int| 0 <= i < j < front.len() implies (#[trigger] front[i]).key@
            != (#[trigger] front[j]).key@ by {
            assert(entries[i].key@ != entries[j].key@);
        }
        lemma_table_size(front);
        if holds(front, last.key@) {
            let i = place(front, last.key@);
            assert(entries[i].key@ != entries[entries.len() - 1].key@);
        }
        lemma_table_push(front, last);
        assert(front.push(last) =~= entries);
        assert(table_of(entries).dom() =~= table_of(front).dom().insert(last.key@));
        assert(!table_of(front).dom().contains(last.key@));
    }
}

/// Copies of the entries that are still there at `now`, but for the one under
/// the key to skip.
fn surviving(entries: &Vec<Entry>, now: u64, skip: Option<&String>) -> (kept: Vec<Entry>)
    requires
        distinct(entries@),
    ensures
        distinct(kept@),
        table_of(kept@) == without(
            live(table_of(entries@), now as nat),
            match skip {
                Some(key) => Some(key@),
                None => None,
            },
        ),
{
    let ghost skipped: Option<Seq<char>> = match skip {
        Some(key) => Some(key@),
        None => None,
    };
    let mut kept: Vec<Entry> = Vec::new();
    let mut i: usize = 0;
    assert(table_of(kept@) =~= without(live(table_of(entries@.take(0)), now as nat), skipped));
    while i < entries.len()
        invariant
            i <= entries.len(),
            distinct(entries@),
            distinct(kept@),
            skipped == match skip {
                Some(key) => Some(key@),
                None => None,
            },
            table_of(kept@) == without(
                live(table_of(entries@.take(i as int)), now as nat),
                skipped,
            ),
        decreases entries.len() - i,
    {
        let entry = &entries[i];
        let ghost front = entries@.take(i as int);
        proof {
            assert(front.push(*entry) =~= entries@.take(i + 1));
            assert forall|a: int, b: int| 0 <= a < b < front.len() implies (#[trigger] front[a]).key@
                != (#[trigger] front[b]).key@ by {
                assert(entries@[a].key@ != entries@[b].key@);
            }
            if holds(front, entry.key@) {
                let j = place(front, entry.key@);
                assert(entries@[j].key@ != entries@[i as int].key@);
            }
            lemma_table_push(front, *entry);
        }
        let fresh = match entry.deadline {
            Some(deadline) => now < deadline,
            None => true,
        };
        let wanted = match skip {
            Some(key) => !(entry.key == *key),
            None => true,
        };
        if fresh && wanted {
            let copy = Entry {
                key: entry.key.clone(),
                value: entry.value.clone(),
                deadline: entry.deadline,
            };
            proof {
                assert(copy.record() == entry.record());
                assert(!table_of(kept@).contains_key(copy.key@));
                lemma_table_push(kept@, copy);
            }
            kept.push(copy);
        }
        i = i + 1;
        assert(table_of(kept@) =~= without(
            live(table_of(entries@.take(i as int)), now as nat),
            skipped,
        ));
    }
    assert(entries@.take(i as int) =~= entries@);
    kept
}

/// Where the entry of `key` stands, if the key is there at `now`.
fn lookup(entries: &Vec<Entry>, key: &String, now: u64) -> (found: Option<usize>)
    requires
        distinct(entries@),
    ensures
        match found {
            Some(i) => i < entries.len() && entries@[i as int].key@ == key@
                && live(table_of(entries@), now as nat).contains_key(key@)
                && live(table_of(entries@), now as nat)[key@] == entries@[i as int].record(),
            None => !live(table_of(entries@), now as nat).contains_key(key@),
        },
{
    let mut i: usize = 0;
    while i < entries.len()
        invariant
            i <= entries.len(),
            distinct(entries@),
            forall|j: int| 0 <= j < i ==> (#[trigger] entries@[j]).key@ != key@,
        decreases entries.len() - i,
    {
        let entry = &entries[i];
        if entry.key == *key {
            proof {
                lemma_table_at(entries@, i as int);
            }
            let fresh = match entry.deadline {
                Some(deadline) => now < deadline,
                None => true,
            };
            if fresh {
                return Some(i);
            } else {
                return None;
            }
        }
        i = i + 1;
    }
    proof {
        if holds(entries@, key@) {
            let j = place(entries@, key@);
            assert(entries@[j].key@ != key@);
        }
    }
    None
}

/// The integer reply that says whether a key was found.
fn flag_reply(found: bool) -> (reply: Reply)
    ensures
        reply == Reply::Int(
            if found {
                1i64
            } else {
                0i64
            },
        ),
{
    if found {
        Reply::Int(1)
    } else {
        Reply::Int(0)
    }
}

/// An in-memory keyspace that carries out the adapter's commands as the model
/// says. `now` is the caller's clock: nothing here reads the time.
pub struct Keyspace {
    entries: Vec<Entry>,
}

impl View for Keyspace {
    type V = Table;

    closed spec fn view(&self) -> Table {
        table_of(self.entries@)
    }
}

impl Keyspace {
    /// Whether the keyspace is sound: no key is held twice.
    pub closed spec fn wf(self) -> bool {
        distinct(self.entries@)
    }

    /// The empty keyspace.
    pub fn new() -> (keyspace: Keyspace)
        ensures
            keyspace.wf(),
            keyspace@ == Map::<Seq<char>, Record>::empty(),
    {
        let keyspace = Keyspace { entries: Vec::new() };
        assert(keyspace@ =~= Map::<Seq<char>, Record>::empty());
        keyspace
    }

    /// Carries out one command at `now` and answers it.
    pub fn execute(&mut self, command: &Command, now: u64) -> (reply: Reply)
        requires
            old(self).wf(),
        ensures
            final(self).wf(),
            final(self)@ == after(old(self)@, command@, now as nat),
            answers(old(self)@, command@, now as nat, reply),
    {
        match command {
            Command::SetValue { key, value } => {
                let mut kept = surviving(&self.entries, now, Some(key));
                let entry = Entry { key: key.clone(), value: value.clone(), deadline: None };
                proof {
                    assert(!table_of(kept@).contains_key(entry.key@));
                    lemma_table_push(kept@, entry);
                    assert(table_of(kept@.push(entry)) =~= after(
                        old(self)@,
                        command@,
                        now as nat,
                    ));
                }
                kept.push(entry);
                self.entries = kept;
                Reply::Okay
            },
            Command::ExpireAt { key, at } => {
                let found = lookup(&self.entries, key, now);
                let deadline = *at;
                match found {
                    Some(i) => {
                        let mut kept = surviving(&self.entries, now, Some(key));
                        if now < deadline {
                            let entry = Entry {
                                key: key.clone(),
                                value: self.entries[i].value.clone(),
                                deadline: Some(deadline),
                            };
                            proof {
                                assert(!table_of(kept@).contains_key(entry.key@));
                                lemma_table_push(kept@, entry);
                                assert(table_of(kept@.push(entry)) =~= after(
                                    old(self)@,
                                    command@,
                                    now as nat,
                                ));
                            }
                            kept.push(entry);
                        }
                        self.entries = kept;
                        flag_reply(true)
                    },
                    None => {
                        self.entries = surviving(&self.entries, now, None);
                        flag_reply(false)
                    },
                }
            },
            Command::Get { key } => {
                let reply = match lookup(&self.entries, key, now) {
                    Some(i) => Reply::Data(self.entries[i].value.as_str().as_bytes_vec()),
                    None => Reply::Nil,
                };
                self.entries = surviving(&self.entries, now, None);
                reply
            },
            Command::Del { key } => {
                let found = lookup(&self.entries, key, now);
                self.entries = surviving(&self.entries, now, Some(key));
                flag_reply(found.is_some())
            },
            Command::Exists { key } => {
                let found = lookup(&self.entries, key, now);
                self.entries = surviving(&self.entries, now, None);
                flag_reply(found.is_some())
            },
            Command::DbSize => {
                let kept = surviving(&self.entries, now, None);
                proof {
                    lemma_table_size(kept@);
                }
                let size: u64 = kept.len() as u64;
                self.entries = kept;
                if size <= 0x7fff_ffff_ffff_ffff {
                    Reply::Int(size as i64)
                } else {
                    Reply::Int(0x7fff_ffff_ffff_ffff)
                }
            },
            Command::FlushDb => {
                self.entries = Vec::new();
                assert(self@ =~= Map::<Seq<char>, Record>::empty());
                Reply::Okay
            },
            Command::Keys => {
                let kept = surviving(&self.entries, now, None);
                let mut members: Vec<Reply> = Vec::new();
                let mut i: usize = 0;
                while i < kept.len()
                    invariant
                        i <= kept.len(),
                        members.len() == i,
                        forall|j: int|
                            0 <= j < i ==> names(#[trigger] members@[j], kept@[j].key@),
                    decreases kept.len() - i,
                {
                    members.push(Reply::Data(kept[i].key.as_str().as_bytes_vec()));
                    i = i + 1;
                }
                proof {
                    lemma_table_size(kept@);
                    let keys = table_of(kept@).dom();
                    assert forall|j: int| 0 <= j < members@.len() implies names_one_of(
                        #[trigger] members@[j],
                        keys,
                    ) by {
                        reveal(names_one_of);
                        lemma_table_at(kept@, j);
                        assert(keys.contains(kept@[j].key@) && names(members@[j], kept@[j].key@));
                    }
                    assert forall|key: Seq<char>| #[trigger] keys.contains(key) implies listed(
                        members@,
                        key,
                    ) by {
                        reveal(listed);
                        let j = place(kept@, key);
                        assert(0 <= j < members@.len() && names(members@[j], key));
                    }
                }
                self.entries = kept;
                Reply::Bulk(members)
            },
        }
    }

    /// Serves one request at `now`: a single command is answered, a pipeline is
    /// carried out in order and answered with the empty list.
    pub fn serve(&mut self, request: &Request, now: u64) -> (reply: Reply)
        requires
            old(self).wf(),
        ensures
            final(self).wf(),
            final(self)@ == after_request(old(self)@, request@, now as nat),
            request_answers(old(self)@, request@, now as nat, reply),
    {
        match request {
            Request::One(command) => self.execute(command, now),
            Request::Batch(commands) => {
                let ghost plan = commands@.map_values(|command: Command| command@);
                let mut i: usize = 0;
                while i < commands.len()
                    invariant
                        i <= commands.len(),
                        self.wf(),
                        plan == commands@.map_values(|command: Command| command@),
                        self@ == after_all(old(self)@, plan.take(i as int), now as nat),
                    decreases commands.len() - i,
                {
                    self.execute(&commands[i], now);
                    proof {
                        assert(plan.take(i + 1).drop_last() =~= plan.take(i as int));
                        assert(plan.take(i + 1).last() == commands@[i as int]@);
                    }
                    i = i + 1;
                }
                assert(plan.take(i as int) =~= plan);
                Reply::Bulk(Vec::new())
            },
        }
    }
}

} // verus!
