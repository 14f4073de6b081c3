//! KEYS: a two-element frame answered with the array of unexpired keys
//! matching a single-wildcard glob pattern; one pair of surrounding double
//! quotes in the pattern is stripped before matching.

use vstd::prelude::*;

use crate::command::executor::Command;
use crate::command::executor::CommandExecutor;
use crate::command::executor::CommandExecutorContext;
use crate::command::parser::ParseError;
use crate::command::parser::extract_array;
use crate::command::parser::extract_bulk_string;
use crate::command::parser::name_check;
use crate::command::parser::validate_array_length;
use crate::command::parser::validate_main_command;
use crate::repository::Entry;
use crate::repository::EntryModel;
use crate::repository::Repository;
use crate::repository::live_at;
use crate::resp::Value;
use crate::resp::ValueModel;
use crate::resp::lemma_seq_models;
use crate::resp::lemma_seq_models_push;
use crate::resp::seq_models;
use crate::text::glob_match;
use crate::text::pattern_matches;
use crate::text::strip_quotes;
use crate::text::strip_surrounding_quotes;

verus! {

/// What the KEYS parser decides on a frame: a two-element array, the
/// first element naming the command up to ASCII case, the second the
/// pattern, with one pair of surrounding double quotes stripped.
pub open spec fn keys_parse_spec(m: ValueModel) -> Result<Seq<char>, ParseError> {
    if !(m is Array) {
        Result::Err(ParseError::ExpectedArray)
    } else {
        let a = m->Array_0;
        if a.len() != 2 {
            Result::Err(ParseError::WrongArity)
        } else {
            match name_check(a, 0, "KEYS"@, ParseError::WrongCommand) {
                Result::Err(e) => Result::Err(e),
                Result::Ok(_) => if !(a[1] is BulkString) {
                    Result::Err(ParseError::ExpectedBulkString)
                } else {
                    Result::Ok(strip_quotes(a[1]->BulkString_0))
                },
            }
        }
    }
}

/// The reply elements: the keys of the stored records, in storage order,
/// keeping exactly those that match the pattern and are not expired.
pub open spec fn keys_response(entries: Seq<EntryModel>, pattern: Seq<char>, now_ms: u128) -> Seq<
    ValueModel,
>
    decreases entries.len(),
{
    if entries.len() == 0 {
        Seq::empty()
    } else {
        let rest = keys_response(entries.drop_first(), pattern, now_ms);
        if pattern_matches(pattern, entries[0].key) && live_at(entries[0], now_ms) {
            seq![ValueModel::BulkString(entries[0].key)] + rest
        } else {
            rest
        }
    }
}

#[derive(Debug, Default, PartialEq)]
pub struct Keys {
    pub pattern: String,
}

impl Command for Keys {
    fn parse_from(value: &Value) -> (r: Result<Self, ParseError>)
        ensures
            (r is Ok) <==> keys_parse_spec(value@) is Ok,
            r matches Ok(c) ==> c.pattern@ == keys_parse_spec(value@)->Ok_0,
            r matches Err(x) ==> keys_parse_spec(value@) == Result::<Seq<char>, ParseError>::Err(
                x,
            ),
    {
        let array = match extract_array(value) {
            Ok(a) => a,
            Err(e) => {
                return Err(e);
            },
        };
        proof {
            lemma_seq_models(array@);
        }
        match validate_array_length(array, 2) {
            Ok(_) => (),
            Err(e) => {
                return Err(e);
            },
        };
        match validate_main_command(array, "KEYS") {
            Ok(_) => (),
            Err(e) => {
                return Err(e);
            },
        };
        let pattern = match extract_bulk_string(array, 1) {
            Ok(s) => s,
            Err(e) => {
                return Err(e);
            },
        };
        Ok(Keys { pattern: strip_surrounding_quotes(pattern) })
    }
}

impl Keys {
    /// Whether the key matches the single-wildcard glob pattern.
    pub fn match_asterisk_pattern(pattern: &str, text: &str) -> (r: bool)
        ensures
            r == pattern_matches(pattern@, text@),
    {
        glob_match(pattern, text)
    }
}

impl CommandExecutor for Keys {
    #[verifier::loop_isolation(false)]
    fn execute(&self, context: &mut CommandExecutorContext, now_ms: u128) -> (v: Value)
        ensures
            *final(context) == *old(context),
            v@ == ValueModel::Array(
                keys_response(old(context).repository.entries_seq(), self.pattern@, now_ms),
            ),
    {
        let entries = context.repository.entries();
        let ghost all = context.repository.entries_seq();
        let n = entries.len();
        let mut matched: Vec<Value> = Vec::new();
        let mut i: usize = 0;
        proof {
            assert(seq_models(matched@) =~= Seq::<ValueModel>::empty());
            assert(all.skip(0) =~= all);
        }
        while i < n
            invariant
                0 <= i <= n,
                n == entries@.len(),
                n == all.len(),
                entries@.map_values(|e: Entry| e@) == all,
                keys_response(all, self.pattern@, now_ms) == seq_models(matched@) + keys_response(
                    all.skip(i as int),
                    self.pattern@,
                    now_ms,
                ),
            decreases n - i,
        {
            let e = &entries[i];
            proof {
                assert(entries@.map_values(|x: Entry| x@)[i as int] == e@);
                assert(all.skip(i as int)[0] == all[i as int]);
                assert(all.skip(i as int).drop_first() =~= all.skip(i + 1));
            }
            let live = match &e.expiry {
                Some(x) => !x.is_expired(now_ms),
                None => true,
            };
            if Keys::match_asterisk_pattern(self.pattern.as_str(), e.key.as_str()) && live {
                let item = Value::BulkString(e.key.clone());
                proof {
                    lemma_seq_models_push(matched@, item);
                    assert(seq_models(matched@) + (seq![ValueModel::BulkString(e.key@)]
                        + keys_response(all.skip(i + 1), self.pattern@, now_ms)) =~= seq_models(
                        matched@.push(item),
                    ) + keys_response(all.skip(i + 1), self.pattern@, now_ms));
                }
                matched.push(item);
            }
            i += 1;
        }
        proof {
            assert(all.skip(n as int) =~= Seq::<EntryModel>::empty());
            assert(keys_response(all, self.pattern@, now_ms) =~= seq_models(matched@));
        }
        Value::Array(matched)
    }
}

} // verus!
