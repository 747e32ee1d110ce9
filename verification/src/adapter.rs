//! The adapter for a clustered key-value store whose per-key expiry is native.
//!
//! An operation that reaches the store is one round trip. For each, the
//! adapter says what is sent (`*_request`) and what the exchange's result means
//! (`*_outcome`). The caller acquires a connection from the pool, sends the
//! request once and hands back the reply, or the failure if there was one.
//! Preparing a table and sweeping expired records reach nothing: the store has
//! no tables and expires keys by itself. The table name that each operation
//! accepts has no influence on anything.

use crate::command::{Command, CommandView, Request, RequestView};
use crate::error::SessionError;
use crate::reply::Reply;
use vstd::prelude::*;

verus! {

/// The session backend on a cluster pool. `P` is the handle of the pool. The
/// handle is all that the adapter holds: a clone holds a clone of the handle,
/// and no operation changes the adapter.
#[derive(Clone)]
pub struct SessionRedisClusterPool<P> {
    pool: P,
}

impl<P> From<P> for SessionRedisClusterPool<P> {
    fn from(pool: P) -> (adapter: Self)
        ensures
            adapter.handle() == pool,
    {
        SessionRedisClusterPool { pool }
    }
}

impl<P> vstd::std_specs::convert::FromSpecImpl<P> for SessionRedisClusterPool<P> {
    open spec fn obeys_from_spec() -> bool {
        true
    }

    closed spec fn from_spec(pool: P) -> Self {
        SessionRedisClusterPool { pool }
    }
}

/// How one exchange ended: with the reply, or with the failure to acquire a
/// connection or to carry out the command.
pub type Exchanged = Result<Reply, SessionError>;

/// The expiry as the `EXPIREAT` command carries it: the timestamp itself, and
/// zero for a timestamp before the epoch. Such a time has passed whatever the
/// clock says, so the record is gone as soon as it is written.
pub open spec fn expiry_word(expires: i64) -> u64 {
    if expires < 0 {
        0
    } else {
        expires as u64
    }
}

/// What `count` sends: the size query of the whole database.
pub open spec fn count_plan() -> RequestView {
    RequestView::One(CommandView::DbSize)
}

/// What `store` sends: one pipeline that sets the value and then the expiry of
/// the same key.
pub open spec fn store_plan(id: Seq<char>, session: Seq<char>, expires: i64) -> RequestView {
    RequestView::Batch(
        seq![
            CommandView::SetValue { key: id, value: session },
            CommandView::ExpireAt { key: id, at: expiry_word(expires) as nat },
        ],
    )
}

/// What `load` sends: one fetch by key.
pub open spec fn load_plan(id: Seq<char>) -> RequestView {
    RequestView::One(CommandView::Get { key: id })
}

/// What `delete_one_by_id` sends: one removal by key.
pub open spec fn delete_one_by_id_plan(id: Seq<char>) -> RequestView {
    RequestView::One(CommandView::Del { key: id })
}

/// What `exists` sends: one existence check by key.
pub open spec fn exists_plan(id: Seq<char>) -> RequestView {
    RequestView::One(CommandView::Exists { key: id })
}

/// What `delete_all` sends: the flush of the whole database.
pub open spec fn delete_all_plan() -> RequestView {
    RequestView::One(CommandView::FlushDb)
}

/// What `get_ids` sends: the listing of every key of the database.
pub open spec fn get_ids_plan() -> RequestView {
    RequestView::One(CommandView::Keys)
}

/// The result of an operation that returns nothing: a failed exchange is that
/// failure, and any reply at all is success.
pub open spec fn done_reading(exchanged: Exchanged) -> Result<(), SessionError> {
    match exchanged {
        Ok(_) => Ok(()),
        Err(error) => Err(error),
    }
}

/// The result of `count`: a failed exchange is that failure, a reply that
/// reads as a number is that number, any other reply is a decoding failure.
pub open spec fn count_reading(exchanged: Exchanged) -> Result<i64, SessionError> {
    match exchanged {
        Ok(reply) => match reply.number() {
            Some(number) => Ok(number),
            None => Err(SessionError::Decode),
        },
        Err(error) => Err(error),
    }
}

/// The result of `load`: a failed exchange is that failure, the absent value
/// is "not found", a reply that reads as text is that payload (the empty one
/// too), any other reply is a decoding failure.
pub open spec fn load_reading(exchanged: Exchanged) -> Result<Option<Seq<char>>, SessionError> {
    match exchanged {
        Ok(reply) => if reply is Nil {
            Ok(None)
        } else {
            match reply.text() {
                Some(payload) => Ok(Some(payload)),
                None => Err(SessionError::Decode),
            }
        },
        Err(error) => Err(error),
    }
}

/// The result of `exists`: a failed exchange is that failure, a reply that
/// reads as a flag is that flag, any other reply is a decoding failure.
pub open spec fn exists_reading(exchanged: Exchanged) -> Result<bool, SessionError> {
    match exchanged {
        Ok(reply) => match reply.flag() {
            Some(flag) => Ok(flag),
            None => Err(SessionError::Decode),
        },
        Err(error) => Err(error),
    }
}

/// The result of `get_ids`: a failed exchange is that failure, a reply that
/// reads as a list of texts is that list, any other reply is a decoding
/// failure.
pub open spec fn get_ids_reading(exchanged: Exchanged) -> Result<Seq<Seq<char>>, SessionError> {
    match exchanged {
        Ok(reply) => match reply.texts() {
            Some(ids) => Ok(ids),
            None => Err(SessionError::Decode),
        },
        Err(error) => Err(error),
    }
}

impl<P> SessionRedisClusterPool<P> {
    /// The pool handle that the adapter was made from.
    pub closed spec fn handle(self) -> P {
        self.pool
    }

    /// The pool to acquire connections from.
    pub fn pool(&self) -> (pool: &P)
        ensures
            *pool == self.handle(),
    {
        &self.pool
    }

    /// The name under which the adapter shows in diagnostics. Nothing of the
    /// pool is shown.
    pub fn debug_name(&self) -> (name: String)
        ensures
            name@ == "SessionRedisClusterPool"@,
    {
        "SessionRedisClusterPool".to_owned()
    }

    /// Prepares the table. The store has no tables, so there is nothing to do
    /// and nothing that can fail, whatever the name.
    pub fn initiate(&self, table_name: &str) -> (out: Result<(), SessionError>)
        ensures
            out == Ok::<(), SessionError>(()),
    {
        Ok(())
    }

    /// Sweeps expired records. The store expires keys by itself, so the sweep
    /// does nothing and reports that it removed nothing.
    pub fn delete_by_expiry(&self, table_name: &str) -> (out: Result<Vec<String>, SessionError>)
        ensures
            out matches Ok(ids) && ids@ == Seq::<String>::empty(),
    {
        Ok(Vec::new())
    }

    /// Whether the store removes expired records by itself. It does: no sweep
    /// is ever needed.
    pub fn auto_handles_expiry(&self) -> (flag: bool)
        ensures
            flag,
    {
        true
    }

    /// What `count` sends.
    pub fn count_request(&self, table_name: &str) -> (request: Request)
        ensures
            request@ == count_plan(),
    {
        Request::One(Command::DbSize)
    }

    /// The number of keys that the exchange of `count` reports. It counts every
    /// key of the database, whoever wrote it.
    pub fn count_outcome(&self, exchanged: Exchanged) -> (out: Result<i64, SessionError>)
        ensures
            out == count_reading(exchanged),
    {
        match exchanged {
            Ok(reply) => match reply.read_number() {
                Some(number) => Ok(number),
                None => Err(SessionError::Decode),
            },
            Err(error) => Err(error),
        }
    }

    /// What `store` sends: the value and its expiry in one pipeline, so that no
    /// round trip lies between the two. An expiry before the epoch is sent as
    /// the epoch itself.
    pub fn store_request(
        &self,
        id: &str,
        session: &str,
        expires: i64,
        table_name: &str,
    ) -> (request: Request)
        ensures
            request@ == store_plan(id@, session@, expires),
    {
        let mut commands: Vec<Command> = Vec::new();
        commands.push(Command::SetValue { key: id.to_owned(), value: session.to_owned() });
        let at: u64 = if expires < 0 {
            0
        } else {
            expires as u64
        };
        commands.push(Command::ExpireAt { key: id.to_owned(), at });
        let request = Request::Batch(commands);
        assert(request@->Batch_0 =~= store_plan(id@, session@, expires)->Batch_0);
        request
    }

    /// Whether the exchange of `store` succeeded.
    pub fn store_outcome(&self, exchanged: Exchanged) -> (out: Result<(), SessionError>)
        ensures
            out == done_reading(exchanged),
    {
        match exchanged {
            Ok(_) => Ok(()),
            Err(error) => Err(error),
        }
    }

    /// What `load` sends.
    pub fn load_request(&self, id: &str, table_name: &str) -> (request: Request)
        ensures
            request@ == load_plan(id@),
    {
        Request::One(Command::Get { key: id.to_owned() })
    }

    /// The payload that the exchange of `load` found: `None` where the key is
    /// absent, the payload where it is there, be it empty.
    pub fn load_outcome(&self, exchanged: Exchanged) -> (out: Result<Option<String>, SessionError>)
        ensures
            match (out, load_reading(exchanged)) {
                (Ok(Some(payload)), Ok(Some(expected))) => payload@ == expected,
                (Ok(None), Ok(None)) => true,
                (Err(error), Err(expected)) => error == expected,
                _ => false,
            },
    {
        match exchanged {
            Ok(reply) => match reply {
                Reply::Nil => Ok(None),
                _ => match reply.read_text() {
                    Some(payload) => Ok(Some(payload)),
                    None => Err(SessionError::Decode),
                },
            },
            Err(error) => Err(error),
        }
    }

    /// What `delete_one_by_id` sends.
    pub fn delete_one_by_id_request(&self, id: &str, table_name: &str) -> (request: Request)
        ensures
            request@ == delete_one_by_id_plan(id@),
    {
        Request::One(Command::Del { key: id.to_owned() })
    }

    /// Whether the exchange of `delete_one_by_id` succeeded. How many keys were
    /// removed does not matter: to remove an absent key is no error.
    pub fn delete_one_by_id_outcome(&self, exchanged: Exchanged) -> (out: Result<(), SessionError>)
        ensures
            out == done_reading(exchanged),
    {
        match exchanged {
            Ok(_) => Ok(()),
            Err(error) => Err(error),
        }
    }

    /// What `exists` sends.
    pub fn exists_request(&self, id: &str, table_name: &str) -> (request: Request)
        ensures
            request@ == exists_plan(id@),
    {
        Request::One(Command::Exists { key: id.to_owned() })
    }

    /// Whether the exchange of `exists` found the key.
    pub fn exists_outcome(&self, exchanged: Exchanged) -> (out: Result<bool, SessionError>)
        ensures
            out == exists_reading(exchanged),
    {
        match exchanged {
            Ok(reply) => match reply.read_flag() {
                Some(flag) => Ok(flag),
                None => Err(SessionError::Decode),
            },
            Err(error) => Err(error),
        }
    }

    /// What `delete_all` sends. It empties the whole database, not a table.
    pub fn delete_all_request(&self, table_name: &str) -> (request: Request)
        ensures
            request@ == delete_all_plan(),
    {
        Request::One(Command::FlushDb)
    }

    /// Whether the exchange of `delete_all` succeeded.
    pub fn delete_all_outcome(&self, exchanged: Exchanged) -> (out: Result<(), SessionError>)
        ensures
            out == done_reading(exchanged),
    {
        match exchanged {
            Ok(_) => Ok(()),
            Err(error) => Err(error),
        }
    }

    /// What `get_ids` sends. It lists every key of the database, whoever wrote
    /// it.
    pub fn get_ids_request(&self, table_name: &str) -> (request: Request)
        ensures
            request@ == get_ids_plan(),
    {
        Request::One(Command::Keys)
    }

    /// The ids that the exchange of `get_ids` lists.
    pub fn get_ids_outcome(&self, exchanged: Exchanged) -> (out: Result<Vec<String>, SessionError>)
        ensures
            match (out, get_ids_reading(exchanged)) {
                (Ok(ids), Ok(expected)) => ids.deep_view() == expected,
                (Err(error), Err(expected)) => error == expected,
                _ => false,
            },
    {
        match exchanged {
            Ok(reply) => match reply.read_texts() {
                Some(ids) => Ok(ids),
                None => Err(SessionError::Decode),
            },
            Err(error) => Err(error),
        }
    }
}

} // verus!
