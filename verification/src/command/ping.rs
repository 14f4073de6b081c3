//! PING: a one-element frame answered with the simple string `PONG`.

use vstd::prelude::*;

use crate::command::executor::Command;
use crate::command::executor::CommandExecutor;
use crate::command::executor::CommandExecutorContext;
use crate::command::parser::ParseError;
use crate::command::parser::extract_array;
use crate::command::parser::name_check;
use crate::command::parser::validate_array_length;
use crate::command::parser::validate_main_command;
use crate::resp::Value;
use crate::resp::ValueModel;
use crate::resp::lemma_seq_models;

verus! {

/// What the PING parser decides on a frame: a one-element array whose
/// only element names the command, up to ASCII case.
pub open spec fn ping_parse_spec(m: ValueModel) -> Result<(), ParseError> {
    if !(m is Array) {
        Result::Err(ParseError::ExpectedArray)
    } else {
        let a = m->Array_0;
        if a.len() != 1 {
            Result::Err(ParseError::WrongArity)
        } else {
            name_check(a, 0, "PING"@, ParseError::WrongCommand)
        }
    }
}

#[derive(Debug, Default, PartialEq, Eq, Structural)]
pub struct Ping;

impl Command for Ping {
    fn parse_from(value: &Value) -> (r: Result<Self, ParseError>)
        ensures
            (r is Ok) <==> ping_parse_spec(value@) is Ok,
            r matches Err(x) ==> ping_parse_spec(value@) == Result::<(), ParseError>::Err(x),
    {
        let array = match extract_array(value) {
            Ok(a) => a,
            Err(e) => {
                return Err(e);
            },
        };
        proof {
            lemma_seq_models(array@);
        }
        match validate_array_length(array, 1) {
            Ok(_) => (),
            Err(e) => {
                return Err(e);
            },
        };
        match validate_main_command(array, "PING") {
            Ok(_) => (),
            Err(e) => {
                return Err(e);
            },
        };
        Ok(Ping)
    }
}

impl CommandExecutor for Ping {
    fn execute(&self, context: &mut CommandExecutorContext, now_ms: u128) -> (v: Value)
        ensures
            v@ == ValueModel::SimpleString("PONG"@),
            *final(context) == *old(context),
    {
        Value::SimpleString(String::from_str("PONG"))
    }
}

} // verus!
