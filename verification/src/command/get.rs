//! GET: a two-element frame answered with the stored value as a bulk
//! string, or null when the key is absent or expired.

use vstd::prelude::*;

use crate::command::executor::Command;
use crate::command::executor::CommandExecutor;
use crate::command::executor::CommandExecutorContext;
use crate::command::parser::ParseError;
use crate::command::parser::extract_array;
use crate::command::parser::extract_bulk_string;
use crate::command::parser::name_check;
use crate::command::parser::validate_array_length;
use crate::command::parser::validate_main_command;
use crate::repository::Repository;
use crate::repository::lookup;
use crate::resp::Value;
use crate::resp::ValueModel;
use crate::resp::lemma_seq_models;

verus! {

/// What the GET parser decides on a frame: a two-element array, the first
/// element naming the command up to ASCII case, the second the key.
pub open spec fn get_parse_spec(m: ValueModel) -> Result<Seq<char>, ParseError> {
    if !(m is Array) {
        Result::Err(ParseError::ExpectedArray)
    } else {
        let a = m->Array_0;
        if a.len() != 2 {
            Result::Err(ParseError::WrongArity)
        } else {
            match name_check(a, 0, "GET"@, ParseError::WrongCommand) {
                Result::Err(e) => Result::Err(e),
                Result::Ok(_) => if !(a[1] is BulkString) {
                    Result::Err(ParseError::ExpectedBulkString)
                } else {
                    Result::Ok(a[1]->BulkString_0)
                },
            }
        }
    }
}

#[derive(Debug, Default, PartialEq)]
pub struct Get {
    pub key: String,
}

impl Command for Get {
    fn parse_from(value: &Value) -> (r: Result<Self, ParseError>)
        ensures
            (r is Ok) <==> get_parse_spec(value@) is Ok,
            r matches Ok(c) ==> c.key@ == get_parse_spec(value@)->Ok_0,
            r matches Err(x) ==> get_parse_spec(value@) == Result::<Seq<char>, ParseError>::Err(x),
    {
        let array = match extract_array(value) {
            Ok(a) => a,
            Err(e) => {
                return Err(e);
            },
        };
        proof {
            lemma_seq_models(array@);
        }
        match validate_array_length(array, 2) {
            Ok(_) => (),
            Err(e) => {
                return Err(e);
            },
        };
        match validate_main_command(array, "GET") {
            Ok(_) => (),
            Err(e) => {
                return Err(e);
            },
        };
        let key = match extract_bulk_string(array, 1) {
            Ok(s) => s,
            Err(e) => {
                return Err(e);
            },
        };
        Ok(Get { key: String::from_str(key) })
    }
}

impl CommandExecutor for Get {
    fn execute(&self, context: &mut CommandExecutorContext, now_ms: u128) -> (v: Value)
        ensures
            *final(context) == *old(context),
            v@ == match lookup(old(context).repository.store_map(), self.key@, now_ms) {
                Option::Some(val) => ValueModel::BulkString(val),
                Option::None => ValueModel::Null,
            },
    {
        match context.repository.get(self.key.as_str(), now_ms) {
            Some(value) => Value::BulkString(value),
            None => Value::Null,
        }
    }
}

} // verus!
