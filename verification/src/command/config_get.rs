//! CONFIG GET: a three-element frame answered with a two-element array of
//! the name and its value, or null for an unrecognized name.

use vstd::prelude::*;

use crate::command::executor::Command;
use crate::command::executor::CommandExecutor;
use crate::command::executor::CommandExecutorContext;
use crate::command::parser::ParseError;
use crate::command::parser::extract_array;
use crate::command::parser::extract_bulk_string;
use crate::command::parser::name_check;
use crate::command::parser::validate_array_length;
use crate::command::parser::validate_main_command;
use crate::command::parser::validate_sub_command;
use crate::config::config_value;
use crate::resp::Value;
use crate::resp::ValueModel;
use crate::resp::lemma_seq_models;
use crate::resp::seq_models;

verus! {

/// What the CONFIG GET parser decides on a frame: a three-element array,
/// the first two elements naming the command and subcommand up to ASCII
/// case, the third the configuration name.
pub open spec fn config_get_parse_spec(m: ValueModel) -> Result<Seq<char>, ParseError> {
    if !(m is Array) {
        Result::Err(ParseError::ExpectedArray)
    } else {
        let a = m->Array_0;
        if a.len() != 3 {
            Result::Err(ParseError::WrongArity)
        } else {
            match name_check(a, 0, "CONFIG"@, ParseError::WrongCommand) {
                Result::Err(e) => Result::Err(e),
                Result::Ok(_) => match name_check(a, 1, "GET"@, ParseError::WrongSubCommand) {
                    Result::Err(e) => Result::Err(e),
                    Result::Ok(_) => if !(a[2] is BulkString) {
                        Result::Err(ParseError::ExpectedBulkString)
                    } else {
                        Result::Ok(a[2]->BulkString_0)
                    },
                },
            }
        }
    }
}

#[derive(Debug, Default, PartialEq)]
pub struct ConfigGet {
    pub key: String,
}

impl Command for ConfigGet {
    fn parse_from(value: &Value) -> (r: Result<Self, ParseError>)
        ensures
            (r is Ok) <==> config_get_parse_spec(value@) is Ok,
            r matches Ok(c) ==> c.key@ == config_get_parse_spec(value@)->Ok_0,
            r matches Err(x) ==> config_get_parse_spec(value@) == Result::<
                Seq<char>,
                ParseError,
            >::Err(x),
    {
        let array = match extract_array(value) {
            Ok(a) => a,
            Err(e) => {
                return Err(e);
            },
        };
        proof {
            lemma_seq_models(array@);
        }
        match validate_array_length(array, 3) {
            Ok(_) => (),
            Err(e) => {
                return Err(e);
            },
        };
        match validate_main_command(array, "CONFIG") {
            Ok(_) => (),
            Err(e) => {
                return Err(e);
            },
        };
        match validate_sub_command(array, "GET") {
            Ok(_) => (),
            Err(e) => {
                return Err(e);
            },
        };
        let key = match extract_bulk_string(array, 2) {
            Ok(s) => s,
            Err(e) => {
                return Err(e);
            },
        };
        Ok(ConfigGet { key: String::from_str(key) })
    }
}

impl CommandExecutor for ConfigGet {
    fn execute(&self, context: &mut CommandExecutorContext, now_ms: u128) -> (v: Value)
        ensures
            *final(context) == *old(context),
            v@ == match config_value(old(context).config, self.key@) {
                Option::Some(val) => ValueModel::Array(
                    seq![ValueModel::BulkString(self.key@), ValueModel::BulkString(val)],
                ),
                Option::None => ValueModel::Null,
            },
    {
        let ghost spec_val = config_value(context.config, self.key@);
        match context.config.get(self.key.as_str()) {
            Some(value) => {
                let item0 = Value::BulkString(self.key.clone());
                let ghost g0 = item0@;
                let item1 = Value::BulkString(value);
                let ghost g1 = item1@;
                let mut elems: Vec<Value> = Vec::new();
                elems.push(item0);
                elems.push(item1);
                proof {
                    assert(g0 == ValueModel::BulkString(self.key@));
                    assert(g1 == ValueModel::BulkString(spec_val->Some_0));
                    assert(elems@.len() == 2 && elems@[0]@ == g0 && elems@[1]@ == g1);
                    lemma_seq_models(elems@);
                    assert(seq_models(elems@) =~= seq![g0, g1]);
                }
                Value::Array(elems)
            },
            None => Value::Null,
        }
    }
}

} // verus!
