//! INFO replication: a two-element frame answered with a bulk string
//! describing the replication role.

use vstd::prelude::*;

use crate::command::executor::Command;
use crate::command::executor::CommandExecutor;
use crate::command::executor::CommandExecutorContext;
use crate::command::parser::ParseError;
use crate::command::parser::extract_array;
use crate::command::parser::name_check;
use crate::command::parser::validate_array_length;
use crate::command::parser::validate_main_command;
use crate::command::parser::validate_sub_command;
use crate::config::Config;
use crate::resp::Value;
use crate::resp::ValueModel;
use crate::resp::lemma_seq_models;
use crate::text::dec_chars;
use crate::text::usize_to_string;

verus! {

/// What the INFO replication parser decides on a frame: a two-element
/// array naming the command and the `replication` section, both up to
/// ASCII case.
pub open spec fn info_parse_spec(m: ValueModel) -> Result<(), ParseError> {
    if !(m is Array) {
        Result::Err(ParseError::ExpectedArray)
    } else {
        let a = m->Array_0;
        if a.len() != 2 {
            Result::Err(ParseError::WrongArity)
        } else {
            match name_check(a, 0, "INFO"@, ParseError::WrongCommand) {
                Result::Err(e) => Result::Err(e),
                Result::Ok(_) => name_check(a, 1, "replication"@, ParseError::WrongSubCommand),
            }
        }
    }
}

/// The reply body: for a replica, exactly `role:slave`; for a master, the
/// role, the master identity and the replication offset, separated by
/// CRLF.
pub open spec fn info_body(c: Config) -> Seq<char> {
    if c.replication.slave is Some {
        "role:slave"@
    } else {
        "role:master"@ + "\r\nmaster_replid:"@ + c.replication.master.id@
            + "\r\nmaster_repl_offset:"@ + dec_chars(c.replication.master.offset as nat)
    }
}

#[derive(Debug, Default, PartialEq, Eq, Structural)]
pub struct InfoReplication;

impl Command for InfoReplication {
    fn parse_from(value: &Value) -> (r: Result<Self, ParseError>)
        ensures
            (r is Ok) <==> info_parse_spec(value@) is Ok,
            r matches Err(x) ==> info_parse_spec(value@) == Result::<(), ParseError>::Err(x),
    {
        let array = match extract_array(value) {
            Ok(a) => a,
            Err(e) => {
                return Err(e);
            },
        };
        proof {
            lemma_seq_models(array@);
        }
        match validate_array_length(array, 2) {
            Ok(_) => (),
            Err(e) => {
                return Err(e);
            },
        };
        match validate_main_command(array, "INFO") {
            Ok(_) => (),
            Err(e) => {
                return Err(e);
            },
        };
        match validate_sub_command(array, "replication") {
            Ok(_) => (),
            Err(e) => {
                return Err(e);
            },
        };
        Ok(InfoReplication)
    }
}

impl CommandExecutor for InfoReplication {
    fn execute(&self, context: &mut CommandExecutorContext, now_ms: u128) -> (v: Value)
        ensures
            *final(context) == *old(context),
            v@ == ValueModel::BulkString(info_body(old(context).config)),
    {
        if context.config.replication.is_slave() {
            Value::BulkString(String::from_str("role:slave"))
        } else {
            let mut body = String::from_str("role:master");
            body.append("\r\nmaster_replid:");
            body.append(context.config.replication.master.id.as_str());
            body.append("\r\nmaster_repl_offset:");
            let offset = usize_to_string(context.config.replication.master.offset);
            body.append(offset.as_str());
            Value::BulkString(body)
        }
    }
}

} // verus!
