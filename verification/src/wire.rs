//! Requests as values of the `redis` client library, ready to be sent.
//!
//! The client's `Cmd` and `Pipeline` are opaque here. What is known of them is
//! what the contracts below state of the client's builder functions; none of
//! that is proved.

use crate::command::{decimal, Command};
use vstd::prelude::*;
use vstd::string::StringSliceAdditionalSpecFns;

verus! {

/// `redis::Cmd`: one command of the client library. Opaque.
#[verifier::external_type_specification]
#[verifier::external_body]
pub struct ExCmd(redis::Cmd);

/// `redis::Pipeline`: several commands of the client library, sent in one go.
/// Opaque.
#[verifier::external_type_specification]
#[verifier::external_body]
pub struct ExPipeline(redis::Pipeline);

/// The words that a client command holds, in order, the verb first.
pub uninterp spec fn cmd_words(command: redis::Cmd) -> Seq<Seq<u8>>;

/// The commands that a client pipeline holds, in order, each as its words.
pub uninterp spec fn pipeline_words(pipeline: redis::Pipeline) -> Seq<Seq<Seq<u8>>>;

/// The positions of the commands of a client pipeline whose replies the client
/// drops from the result.
pub uninterp spec fn pipeline_ignored(pipeline: redis::Pipeline) -> Set<int>;

/// `redis::cmd` starts a command that holds one word, the bytes of `name`.
pub assume_specification[ redis::cmd ](name: &str) -> (command: redis::Cmd)
    ensures
        cmd_words(command) == seq![name.spec_bytes()],
;

/// `redis::pipe` makes a pipeline that holds no command and ignores none.
pub assume_specification[ redis::pipe ]() -> (pipeline: redis::Pipeline)
    ensures
        pipeline_words(pipeline) == Seq::<Seq<Seq<u8>>>::empty(),
        pipeline_ignored(pipeline) == Set::<int>::empty(),
;

/// `Cmd::arg` with a `&str`: appends one word, the bytes of the text.
#[verifier::external_body]
fn arg_text(command: &mut redis::Cmd, text: &str)
    ensures
        cmd_words(*final(command)) == cmd_words(*old(command)).push(text.spec_bytes()),
{
    command.arg(text);
}

/// `Cmd::arg` with a `u64`: appends one word, the number in decimal.
#[verifier::external_body]
fn arg_number(command: &mut redis::Cmd, number: u64)
    ensures
        cmd_words(*final(command)) == cmd_words(*old(command)).push(decimal(number as nat)),
{
    command.arg(number);
}

/// `Pipeline::add_command`: appends the command; what is ignored stays.
#[verifier::external_body]
fn add_command(pipeline: &mut redis::Pipeline, command: redis::Cmd)
    ensures
        pipeline_words(*final(pipeline)) == pipeline_words(*old(pipeline)).push(
            cmd_words(command),
        ),
        pipeline_ignored(*final(pipeline)) == pipeline_ignored(*old(pipeline)),
{
    pipeline.add_command(command);
}

/// `Pipeline::ignore`: marks the last command as ignored, if there is one; the
/// commands stay.
#[verifier::external_body]
fn ignore_last(pipeline: &mut redis::Pipeline)
    ensures
        pipeline_words(*final(pipeline)) == pipeline_words(*old(pipeline)),
        pipeline_ignored(*final(pipeline)) == if pipeline_words(*old(pipeline)).len() == 0 {
            pipeline_ignored(*old(pipeline))
        } else {
            pipeline_ignored(*old(pipeline)).insert(pipeline_words(*old(pipeline)).len() - 1)
        },
{
    pipeline.ignore();
}

/// The client command that carries `command`: it holds exactly the command's
/// words.
pub fn command_for(command: &Command) -> (out: redis::Cmd)
    ensures
        cmd_words(out) == command@.words(),
{
    match command {
        Command::SetValue { key, value } => {
            let mut out = redis::cmd("SET");
            arg_text(&mut out, key.as_str());
            arg_text(&mut out, value.as_str());
            out
        },
        Command::ExpireAt { key, at } => {
            let mut out = redis::cmd("EXPIREAT");
            arg_text(&mut out, key.as_str());
            arg_number(&mut out, *at);
            out
        },
        Command::Get { key } => {
            let mut out = redis::cmd("GET");
            arg_text(&mut out, key.as_str());
            out
        },
        Command::Del { key } => {
            let mut out = redis::cmd("DEL");
            arg_text(&mut out, key.as_str());
            out
        },
        Command::Exists { key } => {
            let mut out = redis::cmd("EXISTS");
            arg_text(&mut out, key.as_str());
            out
        },
        Command::DbSize => redis::cmd("DBSIZE"),
        Command::FlushDb => redis::cmd("FLUSHDB"),
        Command::Keys => {
            let mut out = redis::cmd("KEYS");
            arg_text(&mut out, "*");
            out
        },
    }
}

/// The client pipeline that carries `commands`: it holds their words in the
/// same order, and every reply is ignored.
pub fn pipeline_for(commands: &Vec<Command>) -> (out: redis::Pipeline)
    ensures
        pipeline_words(out) == commands@.map_values(|command: Command| command@.words()),
        pipeline_ignored(out) == Set::new(|i: int| 0 <= i < commands.len()),
{
    let mut out = redis::pipe();
    let mut i: usize = 0;
    while i < commands.len()
        invariant
            i <= commands.len(),
            pipeline_words(out) == commands@.take(i as int).map_values(
                |command: Command| command@.words(),
            ),
            pipeline_ignored(out) == Set::new(|j: int| 0 <= j < i),
        decreases commands.len() - i,
    {
        add_command(&mut out, command_for(&commands[i]));
        ignore_last(&mut out);
        i = i + 1;
    }
    out
}

} // verus!
