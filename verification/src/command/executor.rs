//! The command pipeline: a closed set of typed commands, each with a
//! parser from a decoded frame and an executor against the shared keyspace
//! and configuration; the dispatcher tries each parser in a fixed order.

use vstd::prelude::*;

use crate::command::config_get::ConfigGet;
use crate::command::config_get::config_get_parse_spec;
use crate::command::echo::Echo;
use crate::command::echo::echo_parse_spec;
use crate::command::get::Get;
use crate::command::get::get_parse_spec;
use crate::command::info_replication::InfoReplication;
use crate::command::info_replication::info_body;
use crate::command::info_replication::info_parse_spec;
use crate::command::keys::Keys;
use crate::command::keys::keys_parse_spec;
use crate::command::keys::keys_response;
use crate::command::parser::ParseError;
use crate::command::ping::Ping;
use crate::command::ping::ping_parse_spec;
use crate::command::set::SetCommand;
use crate::command::set::set_entry_model;
use crate::command::set::set_parse_spec;
use crate::config::Config;
use crate::config::config_value;
use crate::repository::InMemoryRepository;
use crate::repository::Repository;
use crate::repository::lookup;
use crate::resp::Value;
use crate::resp::ValueModel;

verus! {

/// A command that can try to recognize itself in a decoded frame.
pub trait Command: Sized {
    fn parse_from(value: &Value) -> Result<Self, ParseError>;
}

/// The closed set of commands the server answers.
pub enum CommandSet {
    Ping(Ping),
    Echo(Echo),
    SetCommand(SetCommand),
    Get(Get),
    Keys(Keys),
    ConfigGet(ConfigGet),
    InfoReplication(InfoReplication),
}

/// The shared services an executor needs: the keyspace and the
/// configuration.
pub struct CommandExecutorContext {
    pub repository: InMemoryRepository,
    pub config: Config,
}

impl CommandExecutorContext {
    /// The structural well-formedness of the keyspace inside.
    pub open spec fn wf(&self) -> bool {
        self.repository.inv()
    }

    pub fn new(repository: InMemoryRepository, config: Config) -> (r: Self)
        ensures
            r.repository == repository,
            r.config == config,
    {
        Self { repository, config }
    }
}

/// A command that can produce its reply against the shared context, at the
/// given wall-clock reading.
pub trait CommandExecutor {
    fn execute(&self, context: &mut CommandExecutorContext, now_ms: u128) -> (v: Value)
        requires
            old(context).wf(),
        ensures
            final(context).wf(),
            final(context).config == old(context).config,
    ;
}

/// The first command whose parser recognizes the frame, in the fixed
/// order: PING, ECHO, SET, GET, KEYS, CONFIG GET, INFO replication.
pub fn parse(value: &Value) -> (r: Result<CommandSet, ParseError>)
    ensures
        (r matches Ok(c) && c is Ping) <==> ping_parse_spec(value@) is Ok,
        (r matches Ok(c) && c is Echo) <==> (!(ping_parse_spec(value@) is Ok) && echo_parse_spec(
            value@,
        ) is Ok),
        r matches Ok(CommandSet::Echo(c)) ==> c.message@ == echo_parse_spec(value@)->Ok_0,
        (r matches Ok(c) && c is SetCommand) <==> (!(ping_parse_spec(value@) is Ok) && !(echo_parse_spec(
            value@,
        ) is Ok) && set_parse_spec(value@) is Ok),
        r matches Ok(CommandSet::SetCommand(c)) ==> (c.key@ == set_parse_spec(value@)->Ok_0.0 && c.value@
            == set_parse_spec(value@)->Ok_0.1 && c.expires_after == set_parse_spec(
            value@,
        )->Ok_0.2),
        (r matches Ok(c) && c is Get) <==> (!(ping_parse_spec(value@) is Ok) && !(echo_parse_spec(
            value@,
        ) is Ok) && !(set_parse_spec(value@) is Ok) && get_parse_spec(value@) is Ok),
        r matches Ok(CommandSet::Get(c)) ==> c.key@ == get_parse_spec(value@)->Ok_0,
        (r matches Ok(c) && c is Keys) <==> (!(ping_parse_spec(value@) is Ok) && !(echo_parse_spec(
            value@,
        ) is Ok) && !(set_parse_spec(value@) is Ok) && !(get_parse_spec(value@) is Ok)
            && keys_parse_spec(value@) is Ok),
        r matches Ok(CommandSet::Keys(c)) ==> c.pattern@ == keys_parse_spec(value@)->Ok_0,
        (r matches Ok(c) && c is ConfigGet) <==> (!(ping_parse_spec(value@) is Ok) && !(
        echo_parse_spec(value@) is Ok) && !(set_parse_spec(value@) is Ok) && !(get_parse_spec(
            value@,
        ) is Ok) && !(keys_parse_spec(value@) is Ok) && config_get_parse_spec(value@) is Ok),
        r matches Ok(CommandSet::ConfigGet(c)) ==> c.key@ == config_get_parse_spec(value@)->Ok_0,
        (r matches Ok(c) && c is InfoReplication) <==> (!(ping_parse_spec(value@) is Ok) && !(
        echo_parse_spec(value@) is Ok) && !(set_parse_spec(value@) is Ok) && !(get_parse_spec(
            value@,
        ) is Ok) && !(keys_parse_spec(value@) is Ok) && !(config_get_parse_spec(value@) is Ok)
            && info_parse_spec(value@) is Ok),
        (r is Err) <==> (!(ping_parse_spec(value@) is Ok) && !(echo_parse_spec(value@) is Ok) && !(
        set_parse_spec(value@) is Ok) && !(get_parse_spec(value@) is Ok) && !(keys_parse_spec(
            value@,
        ) is Ok) && !(config_get_parse_spec(value@) is Ok) && !(info_parse_spec(value@) is Ok)),
        r is Err ==> r == Err::<CommandSet, ParseError>(ParseError::UnsupportedCommand),
{
    if let Ok(command) = Ping::parse_from(value) {
        return Ok(CommandSet::Ping(command));
    }
    if let Ok(command) = Echo::parse_from(value) {
        return Ok(CommandSet::Echo(command));
    }
    if let Ok(command) = SetCommand::parse_from(value) {
        return Ok(CommandSet::SetCommand(command));
    }
    if let Ok(command) = Get::parse_from(value) {
        return Ok(CommandSet::Get(command));
    }
    if let Ok(command) = Keys::parse_from(value) {
        return Ok(CommandSet::Keys(command));
    }
    if let Ok(command) = ConfigGet::parse_from(value) {
        return Ok(CommandSet::ConfigGet(command));
    }
    if let Ok(command) = InfoReplication::parse_from(value) {
        return Ok(CommandSet::InfoReplication(command));
    }
    Err(ParseError::UnsupportedCommand)
}

/// Run the matched command against the context and produce its reply.
pub fn execute(command_set: CommandSet, context: &mut CommandExecutorContext, now_ms: u128) -> (v:
    Value)
    requires
        old(context).wf(),
    ensures
        final(context).wf(),
        final(context).config == old(context).config,
        command_set matches CommandSet::Ping(_) ==> (v@ == ValueModel::SimpleString("PONG"@)
            && *final(context) == *old(context)),
        command_set matches CommandSet::Echo(c) ==> (v@ == ValueModel::BulkString(c.message@)
            && *final(context) == *old(context)),
        command_set matches CommandSet::SetCommand(c) ==> (v@ == ValueModel::SimpleString("OK"@)
            && final(context).repository.store_map()
            == old(context).repository.store_map().insert(
            c.key@,
            set_entry_model(c.key@, c.value@, c.expires_after, now_ms),
        )),
        command_set matches CommandSet::Get(c) ==> (*final(context) == *old(context) && v@
            == match lookup(old(context).repository.store_map(), c.key@, now_ms) {
            Option::Some(val) => ValueModel::BulkString(val),
            Option::None => ValueModel::Null,
        }),
        command_set matches CommandSet::Keys(c) ==> (*final(context) == *old(context) && v@
            == ValueModel::Array(
            keys_response(old(context).repository.entries_seq(), c.pattern@, now_ms),
        )),
        command_set matches CommandSet::ConfigGet(c) ==> (*final(context) == *old(context) && v@
            == match config_value(old(context).config, c.key@) {
            Option::Some(val) => ValueModel::Array(
                seq![ValueModel::BulkString(c.key@), ValueModel::BulkString(val)],
            ),
            Option::None => ValueModel::Null,
        }),
        command_set matches CommandSet::InfoReplication(_) ==> (*final(context) == *old(context)
            && v@ == ValueModel::BulkString(info_body(old(context).config))),
{
    match command_set {
        CommandSet::Ping(command) => command.execute(context, now_ms),
        CommandSet::Echo(command) => command.execute(context, now_ms),
        CommandSet::SetCommand(command) => command.execute(context, now_ms),
        CommandSet::Get(command) => command.execute(context, now_ms),
        CommandSet::Keys(command) => command.execute(context, now_ms),
        CommandSet::ConfigGet(command) => command.execute(context, now_ms),
        CommandSet::InfoReplication(command) => command.execute(context, now_ms),
    }
}


/// Command name parsing is ASCII case-insensitive: two frames that differ
/// only in the ASCII case of the element naming the command parse the
/// same way, for every command.
pub proof fn lemma_parse_case_insensitive(a1: Seq<ValueModel>, a2: Seq<ValueModel>)
    requires
        a1.len() == a2.len(),
        forall|i: int| 1 <= i < a1.len() ==> a1[i] == a2[i],
        a1.len() > 0 ==> (a1[0] is BulkString && a2[0] is BulkString
            && crate::text::upper_chars(a1[0]->BulkString_0) == crate::text::upper_chars(
            a2[0]->BulkString_0,
        )),
    ensures
        ping_parse_spec(ValueModel::Array(a1)) == ping_parse_spec(ValueModel::Array(a2)),
        echo_parse_spec(ValueModel::Array(a1)) == echo_parse_spec(ValueModel::Array(a2)),
        set_parse_spec(ValueModel::Array(a1)) == set_parse_spec(ValueModel::Array(a2)),
        get_parse_spec(ValueModel::Array(a1)) == get_parse_spec(ValueModel::Array(a2)),
        keys_parse_spec(ValueModel::Array(a1)) == keys_parse_spec(ValueModel::Array(a2)),
        config_get_parse_spec(ValueModel::Array(a1)) == config_get_parse_spec(
            ValueModel::Array(a2),
        ),
        info_parse_spec(ValueModel::Array(a1)) == info_parse_spec(ValueModel::Array(a2)),
{
}

/// Subcommand name parsing is ASCII case-insensitive too: two frames that
/// differ only in the ASCII case of the subcommand element parse the same
/// way for CONFIG GET and INFO replication.
pub proof fn lemma_parse_sub_case_insensitive(a1: Seq<ValueModel>, a2: Seq<ValueModel>)
    requires
        a1.len() == a2.len(),
        forall|i: int| (0 <= i < a1.len() && i != 1) ==> a1[i] == a2[i],
        a1.len() > 1 ==> (a1[1] is BulkString && a2[1] is BulkString
            && crate::text::upper_chars(a1[1]->BulkString_0) == crate::text::upper_chars(
            a2[1]->BulkString_0,
        )),
    ensures
        config_get_parse_spec(ValueModel::Array(a1)) == config_get_parse_spec(
            ValueModel::Array(a2),
        ),
        info_parse_spec(ValueModel::Array(a1)) == info_parse_spec(ValueModel::Array(a2)),
{
}

} // verus!
