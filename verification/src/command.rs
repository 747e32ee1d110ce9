//! The commands that the adapter issues, as plain values, and their form on
//! the wire.

use vstd::prelude::*;
use vstd::utf8::encode_utf8;

verus! {

/// One command of the key-value protocol. These eight are all that the adapter
/// sends.
#[derive(Debug, Clone, PartialEq, Eq)]
pub enum Command {
    /// `SET key value`: store the value under the key, with no expiry.
    SetValue { key: String, value: String },
    /// `EXPIREAT key at`: let the key expire at `at`, in seconds since the epoch.
    ExpireAt { key: String, at: u64 },
    /// `GET key`: fetch the value under the key.
    Get { key: String },
    /// `DEL key`: remove the key.
    Del { key: String },
    /// `EXISTS key`: say whether the key is there.
    Exists { key: String },
    /// `DBSIZE`: count every key of the database.
    DbSize,
    /// `FLUSHDB`: remove every key of the database.
    FlushDb,
    /// `KEYS *`: list every key of the database.
    Keys,
}

/// A command as a mathematical value.
pub enum CommandView {
    SetValue { key: Seq<char>, value: Seq<char> },
    ExpireAt { key: Seq<char>, at: nat },
    Get { key: Seq<char> },
    Del { key: Seq<char> },
    Exists { key: Seq<char> },
    DbSize,
    FlushDb,
    Keys,
}

impl View for Command {
    type V = CommandView;

    open spec fn view(&self) -> CommandView {
        match *self {
            Command::SetValue { key, value } => CommandView::SetValue { key: key@, value: value@ },
            Command::ExpireAt { key, at } => CommandView::ExpireAt { key: key@, at: at as nat },
            Command::Get { key } => CommandView::Get { key: key@ },
            Command::Del { key } => CommandView::Del { key: key@ },
            Command::Exists { key } => CommandView::Exists { key: key@ },
            Command::DbSize => CommandView::DbSize,
            Command::FlushDb => CommandView::FlushDb,
            Command::Keys => CommandView::Keys,
        }
    }
}

/// The decimal digits of `n` in ASCII, without a leading zero.
pub open spec fn decimal(n: nat) -> Seq<u8>
    decreases n,
{
    if n < 10 {
        seq![(48 + n) as u8]
    } else {
        decimal(n / 10).push((48 + n % 10) as u8)
    }
}

impl CommandView {
    /// The words of the command as they go over the wire: the verb first, then
    /// the arguments, text in UTF-8 and numbers in decimal.
    pub open spec fn words(self) -> Seq<Seq<u8>> {
        match self {
            CommandView::SetValue { key, value } => seq![
                encode_utf8("SET"@),
                encode_utf8(key),
                encode_utf8(value),
            ],
            CommandView::ExpireAt { key, at } => seq![
                encode_utf8("EXPIREAT"@),
                encode_utf8(key),
                decimal(at),
            ],
            CommandView::Get { key } => seq![encode_utf8("GET"@), encode_utf8(key)],
            CommandView::Del { key } => seq![encode_utf8("DEL"@), encode_utf8(key)],
            CommandView::Exists { key } => seq![encode_utf8("EXISTS"@), encode_utf8(key)],
            CommandView::DbSize => seq![encode_utf8("DBSIZE"@)],
            CommandView::FlushDb => seq![encode_utf8("FLUSHDB"@)],
            CommandView::Keys => seq![encode_utf8("KEYS"@), encode_utf8("*"@)],
        }
    }
}

/// What one storage operation sends in one round trip.
#[derive(Debug, Clone, PartialEq, Eq)]
pub enum Request {
    /// A single command, whose reply is the answer.
    One(Command),
    /// Several commands pipelined in this order. Their replies are discarded:
    /// only a failure is reported.
    Batch(Vec<Command>),
}

/// A request as a mathematical value.
pub enum RequestView {
    One(CommandView),
    Batch(Seq<CommandView>),
}

impl View for Request {
    type V = RequestView;

    open spec fn view(&self) -> RequestView {
        match *self {
            Request::One(command) => RequestView::One(command@),
            Request::Batch(commands) => RequestView::Batch(
                commands@.map_values(|command: Command| command@),
            ),
        }
    }
}

} // verus!
