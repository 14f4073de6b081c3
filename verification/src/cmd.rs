//! A flat command type: a frame is turned into one tagged `Cmd` value and
//! executed against any keyspace implementing [`Repository`]. Callers must
//! hand in frames the grammar accepts (`cmd_frame_ok`); the typed command
//! pipeline under `command` is the typed variant of the same logic.

use vstd::prelude::*;
use vstd::pervasive::unreached;

use crate::config::Config;
use crate::config::config_value;
use crate::repository::Entry;
use crate::repository::Repository;
use crate::repository::live_at;
use crate::repository::lookup;
use crate::resp::Value;
use crate::resp::ValueModel;
use crate::resp::lemma_seq_models;
use crate::resp::seq_models;
use crate::text::all_digit_chars;
use crate::text::chars_value;
use crate::text::eq_ignore_case;
use crate::text::glob_match;
use crate::text::parse_dec_chars;
use crate::text::pattern_matches;
use crate::text::strip_quotes;
use crate::text::strip_surrounding_quotes;
use crate::text::upper_chars;
use crate::command::set::set_entry_model;

verus! {

/// One parsed command.
#[derive(Debug, PartialEq)]
pub enum Cmd {
    Ping,
    Echo { message: String },
    SetCommand { key: String, value: String, expires_after: Option<u128> },
    Get { key: String },
    Keys { pattern: String },
    ConfigGet { key: String },
}

/// The frame is an array whose first element is a bulk string: the least
/// a frame must be before its command name can be read.
pub open spec fn cmd_shaped(m: ValueModel) -> bool {
    m is Array && m->Array_0.len() >= 1 && m->Array_0[0] is BulkString
}

/// The command name of a shaped frame, ASCII upper-cased.
pub open spec fn cmd_name(m: ValueModel) -> Seq<char> {
    upper_chars(m->Array_0[0]->BulkString_0)
}

pub open spec fn is_ping_frame(m: ValueModel) -> bool {
    cmd_shaped(m) && cmd_name(m) == upper_chars("PING"@)
}

pub open spec fn is_echo_frame(m: ValueModel) -> bool {
    cmd_shaped(m) && cmd_name(m) == upper_chars("ECHO"@) && m->Array_0.len() >= 2
        && m->Array_0[1] is BulkString
}

pub open spec fn is_get_frame(m: ValueModel) -> bool {
    cmd_shaped(m) && cmd_name(m) == upper_chars("GET"@) && m->Array_0.len() >= 2
        && m->Array_0[1] is BulkString
}

pub open spec fn is_keys_frame(m: ValueModel) -> bool {
    cmd_shaped(m) && cmd_name(m) == upper_chars("KEYS"@) && m->Array_0.len() >= 2
        && m->Array_0[1] is BulkString
}

/// The optional expiry tail of a SET frame: either exactly three elements
/// and no expiry, or a `PX` name and a decimal millisecond count.
pub open spec fn set_expiration_ok(a: Seq<ValueModel>) -> bool {
    if a.len() == 3 {
        true
    } else {
        a.len() >= 5 && a[3] is BulkString && upper_chars(a[3]->BulkString_0) == upper_chars("PX"@)
            && a[4] is BulkString && a[4]->BulkString_0.len() > 0 && all_digit_chars(
            a[4]->BulkString_0,
        ) && chars_value(a[4]->BulkString_0) <= u128::MAX
    }
}

pub open spec fn set_expiration_of(a: Seq<ValueModel>) -> Option<u128> {
    if a.len() == 3 {
        Option::None
    } else {
        Option::Some(chars_value(a[4]->BulkString_0) as u128)
    }
}

pub open spec fn is_set_frame(m: ValueModel) -> bool {
    cmd_shaped(m) && cmd_name(m) == upper_chars("SET"@) && m->Array_0.len() >= 3
        && m->Array_0[1] is BulkString && m->Array_0[2] is BulkString && set_expiration_ok(
        m->Array_0,
    )
}

pub open spec fn is_config_get_frame(m: ValueModel) -> bool {
    cmd_shaped(m) && cmd_name(m) == upper_chars("CONFIG"@) && m->Array_0.len() >= 3
        && m->Array_0[1] is BulkString && upper_chars(m->Array_0[1]->BulkString_0) == upper_chars(
        "GET"@,
    ) && m->Array_0[2] is BulkString
}

/// The frames `Cmd::from` accepts: any other frame is refused by its
/// precondition.
pub open spec fn cmd_frame_ok(m: ValueModel) -> bool {
    ||| is_ping_frame(m)
    ||| is_echo_frame(m)
    ||| is_set_frame(m)
    ||| is_get_frame(m)
    ||| is_keys_frame(m)
    ||| is_config_get_frame(m)
}

impl Cmd {
    /// The command a frame denotes. The command names are matched with
    /// ASCII case folding; the frame must be one the grammar accepts.
    pub fn from(value: Value) -> (r: Cmd)
        requires
            cmd_frame_ok(value@),
        ensures
            is_ping_frame(value@) ==> r == Cmd::Ping,
            is_echo_frame(value@) ==> (r matches Cmd::Echo { message } && message@
                == value@->Array_0[1]->BulkString_0),
            is_set_frame(value@) ==> (r matches Cmd::SetCommand { key, value: v, expires_after } && key@
                == value@->Array_0[1]->BulkString_0 && v@ == value@->Array_0[2]->BulkString_0
                && expires_after == set_expiration_of(value@->Array_0)),
            is_get_frame(value@) ==> (r matches Cmd::Get { key } && key@
                == value@->Array_0[1]->BulkString_0),
            is_keys_frame(value@) ==> (r matches Cmd::Keys { pattern } && pattern@ == strip_quotes(
                value@->Array_0[1]->BulkString_0,
            )),
            is_config_get_frame(value@) ==> (r matches Cmd::ConfigGet { key } && key@
                == value@->Array_0[2]->BulkString_0),
    {
        let arr: &Vec<Value> = match &value {
            Value::Array(arr) => arr,
            _ => {
                return unreached();
            },
        };
        proof {
            lemma_seq_models(arr@);
        }
        let cmd_name = Self::extract_bulk_string(arr.as_slice(), 0);
        if eq_ignore_case(cmd_name, "PING") {
            proof {
                lemma_command_names_distinct();
            }
            Cmd::Ping
        } else if eq_ignore_case(cmd_name, "ECHO") {
            proof {
                lemma_command_names_distinct();
            }
            Self::parse_echo_command(arr.as_slice())
        } else if eq_ignore_case(cmd_name, "SET") {
            proof {
                lemma_command_names_distinct();
            }
            Self::parse_set_command(arr.as_slice())
        } else if eq_ignore_case(cmd_name, "GET") {
            proof {
                lemma_command_names_distinct();
            }
            Self::parse_get_command(arr.as_slice())
        } else if eq_ignore_case(cmd_name, "KEYS") {
            proof {
                lemma_command_names_distinct();
            }
            Self::parse_keys_command(arr.as_slice())
        } else if eq_ignore_case(cmd_name, "CONFIG") {
            proof {
                lemma_command_names_distinct();
            }
            Self::parge_config(arr.as_slice())
        } else {
            proof {
                lemma_command_names_distinct();
            }
            unreached()
        }
    }

    /// The bulk string at `index`, which must be there.
    fn extract_bulk_string(arr: &[Value], index: usize) -> (r: &str)
        requires
            index < arr@.len(),
            seq_models(arr@)[index as int] is BulkString,
        ensures
            r@ == seq_models(arr@)[index as int]->BulkString_0,
    {
        proof {
            lemma_seq_models(arr@);
        }
        match &arr[index] {
            Value::BulkString(s) => s.as_str(),
            _ => unreached(),
        }
    }

    fn parse_echo_command(arr: &[Value]) -> (r: Cmd)
        requires
            is_echo_frame(ValueModel::Array(seq_models(arr@))),
        ensures
            r matches Cmd::Echo { message } && message@ == seq_models(arr@)[1]->BulkString_0,
    {
        proof {
            lemma_seq_models(arr@);
        }
        let message = Self::extract_bulk_string(arr, 1);
        Cmd::Echo { message: String::from_str(message) }
    }

    fn parse_get_command(arr: &[Value]) -> (r: Cmd)
        requires
            is_get_frame(ValueModel::Array(seq_models(arr@))),
        ensures
            r matches Cmd::Get { key } && key@ == seq_models(arr@)[1]->BulkString_0,
    {
        proof {
            lemma_seq_models(arr@);
        }
        let key = Self::extract_bulk_string(arr, 1);
        Cmd::Get { key: String::from_str(key) }
    }

    fn parse_set_command(arr: &[Value]) -> (r: Cmd)
        requires
            is_set_frame(ValueModel::Array(seq_models(arr@))),
        ensures
            r matches Cmd::SetCommand { key, value, expires_after } && key@ == seq_models(
                arr@,
            )[1]->BulkString_0 && value@ == seq_models(arr@)[2]->BulkString_0 && expires_after
                == set_expiration_of(seq_models(arr@)),
    {
        proof {
            lemma_seq_models(arr@);
        }
        let key = Self::extract_bulk_string(arr, 1);
        let value = Self::extract_bulk_string(arr, 2);
        let key = String::from_str(key);
        let value = String::from_str(value);
        let expires_after = Self::parse_set_expiration(arr);
        Cmd::SetCommand { key, value, expires_after }
    }

    fn parse_keys_command(arr: &[Value]) -> (r: Cmd)
        requires
            is_keys_frame(ValueModel::Array(seq_models(arr@))),
        ensures
            r matches Cmd::Keys { pattern } && pattern@ == strip_quotes(
                seq_models(arr@)[1]->BulkString_0,
            ),
    {
        proof {
            lemma_seq_models(arr@);
        }
        let pattern = Self::extract_bulk_string(arr, 1);
        Cmd::Keys { pattern: strip_surrounding_quotes(pattern) }
    }

    /// The expiry tail: nothing for a bare three-element SET, else the
    /// `PX` count in milliseconds.
    fn parse_set_expiration(arr: &[Value]) -> (r: Option<u128>)
        requires
            is_set_frame(ValueModel::Array(seq_models(arr@))),
        ensures
            r == set_expiration_of(seq_models(arr@)),
    {
        proof {
            lemma_seq_models(arr@);
        }
        if arr.len() == 3 {
            return None;
        }
        let sub_cmd_name = Self::extract_bulk_string(arr, 3);
        if !eq_ignore_case(sub_cmd_name, "PX") {
            return unreached();
        }
        let expiration_str = Self::extract_bulk_string(arr, 4);
        match parse_dec_chars(expiration_str) {
            Some(n) => Some(n),
            None => unreached(),
        }
    }

    fn parge_config(arr: &[Value]) -> (r: Cmd)
        requires
            is_config_get_frame(ValueModel::Array(seq_models(arr@))),
        ensures
            r matches Cmd::ConfigGet { key } && key@ == seq_models(arr@)[2]->BulkString_0,
    {
        proof {
            lemma_seq_models(arr@);
        }
        let key = Self::extract_bulk_string(arr, 2);
        Cmd::ConfigGet { key: String::from_str(key) }
    }
}

/// The upper-cased command names are pairwise distinct, so at most one
/// frame predicate can hold of a frame.
proof fn lemma_command_names_distinct()
    ensures
        upper_chars("PING"@) != upper_chars("ECHO"@),
        upper_chars("PING"@) != upper_chars("SET"@),
        upper_chars("PING"@) != upper_chars("GET"@),
        upper_chars("PING"@) != upper_chars("KEYS"@),
        upper_chars("PING"@) != upper_chars("CONFIG"@),
        upper_chars("ECHO"@) != upper_chars("SET"@),
        upper_chars("ECHO"@) != upper_chars("GET"@),
        upper_chars("ECHO"@) != upper_chars("KEYS"@),
        upper_chars("ECHO"@) != upper_chars("CONFIG"@),
        upper_chars("SET"@) != upper_chars("GET"@),
        upper_chars("SET"@) != upper_chars("KEYS"@),
        upper_chars("SET"@) != upper_chars("CONFIG"@),
        upper_chars("GET"@) != upper_chars("KEYS"@),
        upper_chars("GET"@) != upper_chars("CONFIG"@),
        upper_chars("KEYS"@) != upper_chars("CONFIG"@),
{
    reveal_strlit("PING");
    reveal_strlit("ECHO");
    reveal_strlit("SET");
    reveal_strlit("GET");
    reveal_strlit("KEYS");
    reveal_strlit("CONFIG");
    assert(upper_chars("PING"@).len() == 4 && upper_chars("ECHO"@).len() == 4 && upper_chars(
        "SET"@,
    ).len() == 3 && upper_chars("GET"@).len() == 3 && upper_chars("KEYS"@).len() == 4
        && upper_chars("CONFIG"@).len() == 6);
    assert(upper_chars("PING"@)[0] == 'P' && upper_chars("ECHO"@)[0] == 'E' && upper_chars(
        "KEYS"@,
    )[0] == 'K');
    assert(upper_chars("SET"@)[0] == 'S' && upper_chars("GET"@)[0] == 'G');
}

/// Whether the key matches the single-wildcard glob pattern.
pub fn match_asterisk_pattern(pattern: &str, text: &str) -> (r: bool)
    ensures
        r == pattern_matches(pattern@, text@),
{
    glob_match(pattern, text)
}

/// Run one command against a keyspace and configuration at the given
/// wall-clock reading, and produce the reply frame.
#[verifier::loop_isolation(false)]
pub fn execute<R: Repository>(repository: &mut R, cmd: Cmd, config: &Config, now_ms: u128) -> (v:
    Value)
    requires
        old(repository).inv(),
    ensures
        final(repository).inv(),
        cmd == Cmd::Ping ==> (v@ == ValueModel::SimpleString("PONG"@) && final(repository).store_map() == old(repository).store_map()),
        cmd matches Cmd::Echo { message } ==> (v@ == ValueModel::BulkString(message@) && final(repository).store_map() == old(repository).store_map()),
        cmd matches Cmd::SetCommand { key, value, expires_after } ==> (v@ == ValueModel::SimpleString(
            "OK"@,
        ) && final(repository).store_map() == old(repository).store_map().insert(
            key@,
            set_entry_model(key@, value@, expires_after, now_ms),
        )),
        cmd matches Cmd::Get { key } ==> (final(repository).store_map() == old(repository).store_map() && v@ == match lookup(old(repository).store_map(), key@, now_ms) {
            Option::Some(val) => ValueModel::BulkString(val),
            Option::None => ValueModel::Null,
        }),
        cmd matches Cmd::Keys { pattern } ==> (final(repository).store_map() == old(repository).store_map() && (v@ matches ValueModel::Array(elems) && (forall|k: Seq<char>|
            (exists|x: int|
                0 <= x < elems.len() && elems[x] == ValueModel::BulkString(k)) <==> (old(repository).store_map().contains_key(k) && pattern_matches(pattern@, k) && live_at(
                old(repository).store_map()[k],
                now_ms,
            ))) && (forall|x1: int, x2: int|
            0 <= x1 < x2 < elems.len() ==> elems[x1] != elems[x2]))),
        cmd matches Cmd::ConfigGet { key } ==> (final(repository).store_map() == old(repository).store_map() && v@ == match config_value(*config, key@) {
            Option::Some(val) => ValueModel::Array(
                seq![ValueModel::BulkString(key@), ValueModel::BulkString(val)],
            ),
            Option::None => ValueModel::Null,
        }),
{
    match cmd {
        Cmd::Ping => Value::SimpleString(String::from_str("PONG")),
        Cmd::Echo { message } => Value::BulkString(message),
        Cmd::SetCommand { key, value, expires_after } => {
            let expiry = match &expires_after {
                Some(after) => {
                    let epoch: u128 = if *after <= u128::MAX - now_ms {
                        now_ms + *after
                    } else {
                        u128::MAX
                    };
                    Some(
                        crate::repository::Expiry {
                            epoch,
                            unit: crate::repository::TimeUnit::Millisecond,
                        },
                    )
                },
                None => None,
            };
            repository.set(Entry { key, value, expiry });
            Value::SimpleString(String::from_str("OK"))
        },
        Cmd::Get { key } => match repository.get(key.as_str(), now_ms) {
            Some(value) => Value::BulkString(value),
            None => Value::Null,
        },
        Cmd::Keys { pattern } => {
            let entries = repository.entries();
            let ghost m = repository.store_map();
            let n = entries.len();
            let mut matched: Vec<Value> = Vec::new();
            let mut i: usize = 0;
            while i < n
                invariant
                    0 <= i <= n,
                    n == entries@.len(),
                    forall|x: int|
                        0 <= x < matched@.len() ==> exists|j: int|
                            0 <= j < i && (#[trigger] matched@[x]@) == ValueModel::BulkString(
                                entries@[j]@.key,
                            ) && pattern_matches(pattern@, entries@[j]@.key) && live_at(
                                entries@[j]@,
                                now_ms,
                            ),
                    forall|j: int|
                        0 <= j < i && pattern_matches(pattern@, (#[trigger] entries@[j]@).key)
                            && live_at(entries@[j]@, now_ms) ==> exists|x: int|
                            0 <= x < matched@.len() && (#[trigger] matched@[x]@)
                                == ValueModel::BulkString(entries@[j]@.key),
                    forall|x1: int, x2: int|
                        0 <= x1 < x2 < matched@.len() ==> (#[trigger] matched@[x1]@) != (
                        #[trigger] matched@[x2]@),
                decreases n - i,
            {
                let e = &entries[i];
                let ghost before = matched@;
                let live = match &e.expiry {
                    Some(x) => !x.is_expired(now_ms),
                    None => true,
                };
                let hit = match_asterisk_pattern(pattern.as_str(), e.key.as_str()) && live;
                if hit {
                    matched.push(Value::BulkString(e.key.clone()));
                    proof {
                        assert(matched@[matched@.len() - 1]@ == ValueModel::BulkString(
                            entries@[i as int]@.key,
                        ));
                        assert forall|x1: int, x2: int|
                            0 <= x1 < x2 < matched@.len() implies (#[trigger] matched@[x1]@) != (
                        #[trigger] matched@[x2]@) by {
                            if x2 == matched@.len() - 1 {
                                let j = choose|j: int|
                                    0 <= j < i && (#[trigger] before[x1]@)
                                        == ValueModel::BulkString(entries@[j]@.key)
                                        && pattern_matches(pattern@, entries@[j]@.key) && live_at(
                                        entries@[j]@,
                                        now_ms,
                                    );
                                assert(entries@[j]@.key != entries@[i as int]@.key);
                            }
                        }
                    }
                }
                proof {
                    assert(e@ == entries@[i as int]@);
                    assert forall|j: int|
                        0 <= j < i + 1 && pattern_matches(pattern@, (#[trigger] entries@[j]@).key)
                            && live_at(entries@[j]@, now_ms) implies exists|x: int|
                        0 <= x < matched@.len() && (#[trigger] matched@[x]@)
                            == ValueModel::BulkString(entries@[j]@.key) by {
                        if j < i {
                            let x = choose|x: int|
                                0 <= x < before.len() && (#[trigger] before[x]@)
                                    == ValueModel::BulkString(entries@[j]@.key);
                            assert(matched@[x]@ == ValueModel::BulkString(entries@[j]@.key));
                        } else {
                            assert(hit);
                            assert(matched@[matched@.len() - 1]@ == ValueModel::BulkString(
                                entries@[j]@.key,
                            ));
                        }
                    }
                }
                i += 1;
            }
            proof {
                lemma_seq_models(matched@);
                assert forall|k: Seq<char>|
                    (exists|x: int|
                        0 <= x < seq_models(matched@).len() && seq_models(matched@)[x]
                            == ValueModel::BulkString(k)) <==> (m.contains_key(k)
                    && pattern_matches(pattern@, k) && live_at(m[k], now_ms)) by {
                    if exists|x: int|
                        0 <= x < seq_models(matched@).len() && seq_models(matched@)[x]
                            == ValueModel::BulkString(k) {
                        let x = choose|x: int|
                            0 <= x < seq_models(matched@).len() && seq_models(matched@)[x]
                                == ValueModel::BulkString(k);
                        assert(matched@[x]@ == ValueModel::BulkString(k));
                        let j = choose|j: int|
                            0 <= j < n && (#[trigger] matched@[x]@) == ValueModel::BulkString(
                                entries@[j]@.key,
                            ) && pattern_matches(pattern@, entries@[j]@.key) && live_at(
                                entries@[j]@,
                                now_ms,
                            );
                        assert(m.contains_key(entries@[j]@.key) && m[entries@[j]@.key]
                            == entries@[j]@);
                    }
                    if m.contains_key(k) && pattern_matches(pattern@, k) && live_at(m[k], now_ms) {
                        let j = choose|j: int| 0 <= j < entries@.len() && (#[trigger] entries@[j]@).key == k;
                        assert(entries@[j]@ == m[k]);
                        let x = choose|x: int|
                            0 <= x < matched@.len() && (#[trigger] matched@[x]@)
                                == ValueModel::BulkString(entries@[j]@.key);
                        assert(seq_models(matched@)[x] == ValueModel::BulkString(k));
                    }
                }
                assert forall|x1: int, x2: int|
                    0 <= x1 < x2 < seq_models(matched@).len() implies seq_models(matched@)[x1]
                    != seq_models(matched@)[x2] by {
                    assert(matched@[x1]@ != matched@[x2]@);
                }
            }
            Value::Array(matched)
        },
        Cmd::ConfigGet { key } => {
            let ghost spec_val = config_value(*config, key@);
            match config.get(key.as_str()) {
                Some(v) => {
                    let item0 = Value::BulkString(key);
                    let ghost g0 = item0@;
                    let item1 = Value::BulkString(v);
                    let ghost g1 = item1@;
                    let mut elems: Vec<Value> = Vec::new();
                    elems.push(item0);
                    elems.push(item1);
                    proof {
                        assert(elems@.len() == 2 && elems@[0]@ == g0 && elems@[1]@ == g1);
                        lemma_seq_models(elems@);
                        assert(seq_models(elems@) =~= seq![g0, g1]);
                    }
                    Value::Array(elems)
                },
                None => Value::Null,
            }
        },
    }
}


/// The flat parser's command recognition is ASCII case-insensitive too:
/// two frames that differ only in the ASCII case of the element naming
/// the command are accepted the same way and denote the same command.
pub proof fn lemma_cmd_case_insensitive(a1: Seq<ValueModel>, a2: Seq<ValueModel>)
    requires
        a1.len() == a2.len(),
        forall|i: int| 1 <= i < a1.len() ==> a1[i] == a2[i],
        a1.len() > 0 ==> (a1[0] is BulkString && a2[0] is BulkString && upper_chars(
            a1[0]->BulkString_0,
        ) == upper_chars(a2[0]->BulkString_0)),
    ensures
        is_ping_frame(ValueModel::Array(a1)) == is_ping_frame(ValueModel::Array(a2)),
        is_echo_frame(ValueModel::Array(a1)) == is_echo_frame(ValueModel::Array(a2)),
        is_set_frame(ValueModel::Array(a1)) == is_set_frame(ValueModel::Array(a2)),
        is_get_frame(ValueModel::Array(a1)) == is_get_frame(ValueModel::Array(a2)),
        is_keys_frame(ValueModel::Array(a1)) == is_keys_frame(ValueModel::Array(a2)),
        is_config_get_frame(ValueModel::Array(a1)) == is_config_get_frame(ValueModel::Array(a2)),
        cmd_frame_ok(ValueModel::Array(a1)) == cmd_frame_ok(ValueModel::Array(a2)),
{
}

} // verus!
