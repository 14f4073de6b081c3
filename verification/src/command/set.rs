//! SET: store a value under a key, optionally with a relative expiry in
//! milliseconds, answered with the simple string `OK`.

use vstd::prelude::*;

use crate::command::executor::Command;
use crate::command::executor::CommandExecutor;
use crate::command::executor::CommandExecutorContext;
use crate::command::parser::ParseError;
use crate::command::parser::extract_array;
use crate::command::parser::extract_bulk_string;
use crate::command::parser::name_check;
use crate::command::parser::validate_main_command;
use crate::command::parser::validate_min_array_length;
use crate::repository::Entry;
use crate::repository::EntryModel;
use crate::repository::Expiry;
use crate::repository::Repository;
use crate::repository::TimeUnit;
use crate::repository::expiry_millis;
use crate::repository::lookup;
use crate::resp::Value;
use crate::resp::ValueModel;
use crate::resp::lemma_seq_models;
use crate::text::all_digit_chars;
use crate::text::chars_value;
use crate::text::parse_dec_chars;
use crate::text::upper_chars;

verus! {

/// What the SET parser decides on a frame: at least three elements, the
/// first naming the command up to ASCII case, then a key and a value;
/// with five or more elements whose fourth is `PX` up to ASCII case, the
/// fifth is the relative expiry in decimal milliseconds.
pub open spec fn set_parse_spec(m: ValueModel) -> Result<
    (Seq<char>, Seq<char>, Option<u128>),
    ParseError,
> {
    if !(m is Array) {
        Result::Err(ParseError::ExpectedArray)
    } else {
        let a = m->Array_0;
        if a.len() < 3 {
            Result::Err(ParseError::WrongArity)
        } else {
            match name_check(a, 0, "SET"@, ParseError::WrongCommand) {
                Result::Err(e) => Result::Err(e),
                Result::Ok(_) => if !(a[1] is BulkString) {
                    Result::Err(ParseError::ExpectedBulkString)
                } else if !(a[2] is BulkString) {
                    Result::Err(ParseError::ExpectedBulkString)
                } else {
                    let key = a[1]->BulkString_0;
                    let value = a[2]->BulkString_0;
                    if a.len() >= 5 {
                        if !(a[3] is BulkString) {
                            Result::Err(ParseError::ExpectedBulkString)
                        } else if upper_chars(a[3]->BulkString_0) == upper_chars("PX"@) {
                            if !(a[4] is BulkString) {
                                Result::Err(ParseError::ExpectedBulkString)
                            } else {
                                let digits = a[4]->BulkString_0;
                                if digits.len() > 0 && all_digit_chars(digits) && chars_value(
                                    digits,
                                ) <= u128::MAX {
                                    Result::Ok(
                                        (key, value, Option::Some(chars_value(digits) as u128)),
                                    )
                                } else {
                                    Result::Err(ParseError::BadExpiry)
                                }
                            }
                        } else {
                            Result::Ok((key, value, Option::None))
                        }
                    } else {
                        Result::Ok((key, value, Option::None))
                    }
                },
            }
        }
    }
}

/// The absolute expiry a SET with relative expiry `after` installs at
/// `now_ms`: their sum, saturating at the largest representable instant.
pub open spec fn set_expiry(now_ms: u128, after: Option<u128>) -> Option<Expiry> {
    match after {
        Option::None => Option::None,
        Option::Some(n) => Option::Some(
            Expiry {
                epoch: if now_ms + n <= u128::MAX {
                    (now_ms + n) as u128
                } else {
                    u128::MAX
                },
                unit: TimeUnit::Millisecond,
            },
        ),
    }
}

/// The record a SET stores.
pub open spec fn set_entry_model(
    key: Seq<char>,
    value: Seq<char>,
    after: Option<u128>,
    now_ms: u128,
) -> EntryModel {
    EntryModel { key, value, expiry: set_expiry(now_ms, after) }
}

#[derive(Debug, Default, PartialEq)]
pub struct SetCommand {
    pub key: String,
    pub value: String,
    pub expires_after: Option<u128>,
}

impl Command for SetCommand {
    fn parse_from(value: &Value) -> (r: Result<Self, ParseError>)
        ensures
            (r is Ok) <==> set_parse_spec(value@) is Ok,
            r matches Ok(c) ==> (c.key@ == set_parse_spec(value@)->Ok_0.0 && c.value@
                == set_parse_spec(value@)->Ok_0.1 && c.expires_after == set_parse_spec(
                value@,
            )->Ok_0.2),
            r matches Err(x) ==> set_parse_spec(value@) == Result::<
                (Seq<char>, Seq<char>, Option<u128>),
                ParseError,
            >::Err(x),
    {
        let array = match extract_array(value) {
            Ok(a) => a,
            Err(e) => {
                return Err(e);
            },
        };
        proof {
            lemma_seq_models(array@);
        }
        match validate_min_array_length(array, 3) {
            Ok(_) => (),
            Err(e) => {
                return Err(e);
            },
        };
        match validate_main_command(array, "SET") {
            Ok(_) => (),
            Err(e) => {
                return Err(e);
            },
        };
        let key = match extract_bulk_string(array, 1) {
            Ok(s) => s,
            Err(e) => {
                return Err(e);
            },
        };
        let value_text = match extract_bulk_string(array, 2) {
            Ok(s) => s,
            Err(e) => {
                return Err(e);
            },
        };
        let expires_after: Option<u128> = if array.len() >= 5 {
            let option_key = match extract_bulk_string(array, 3) {
                Ok(s) => s,
                Err(e) => {
                    return Err(e);
                },
            };
            if crate::text::eq_ignore_case(option_key, "PX") {
                let option_value = match extract_bulk_string(array, 4) {
                    Ok(s) => s,
                    Err(e) => {
                        return Err(e);
                    },
                };
                match parse_dec_chars(option_value) {
                    Some(n) => Some(n),
                    None => {
                        return Err(ParseError::BadExpiry);
                    },
                }
            } else {
                None
            }
        } else {
            None
        };
        Ok(SetCommand { key: String::from_str(key), value: String::from_str(value_text), expires_after })
    }
}

impl CommandExecutor for SetCommand {
    fn execute(&self, context: &mut CommandExecutorContext, now_ms: u128) -> (v: Value)
        ensures
            v@ == ValueModel::SimpleString("OK"@),
            final(context).repository.store_map() == old(context).repository.store_map().insert(
                self.key@,
                set_entry_model(self.key@, self.value@, self.expires_after, now_ms),
            ),
    {
        let expiry: Option<Expiry> = match &self.expires_after {
            Some(after) => {
                let epoch: u128 = if *after <= u128::MAX - now_ms {
                    now_ms + *after
                } else {
                    u128::MAX
                };
                Some(Expiry { epoch, unit: TimeUnit::Millisecond })
            },
            None => None,
        };
        let entry = Entry { key: self.key.clone(), value: self.value.clone(), expiry };
        context.repository.set(entry);
        Value::SimpleString(String::from_str("OK"))
    }
}

/// A key written with a relative expiry of `n` milliseconds at `now_ms`
/// reads back its value at every instant up to `now_ms + n`, and reads as
/// absent at every later instant.
pub proof fn lemma_set_px_then_get(
    m: Map<Seq<char>, EntryModel>,
    key: Seq<char>,
    value: Seq<char>,
    now_ms: u128,
    n: u128,
    later_ms: u128,
)
    requires
        now_ms + n <= u128::MAX,
    ensures
        later_ms <= now_ms + n ==> lookup(
            m.insert(key, set_entry_model(key, value, Option::Some(n), now_ms)),
            key,
            later_ms,
        ) == Option::Some(value),
        later_ms > now_ms + n ==> lookup(
            m.insert(key, set_entry_model(key, value, Option::Some(n), now_ms)),
            key,
            later_ms,
        ) is None,
{
    let e = set_entry_model(key, value, Option::Some(n), now_ms);
    assert(expiry_millis(e.expiry->Some_0) == now_ms + n);
}

} // verus!
