//! The per-connection compute step: one whole request frame in, one whole
//! reply frame out. The caller owns the socket; it hands in the bytes it
//! read and a wall-clock reading, and writes back the bytes returned. A
//! frame that does not decode, or that no command parser recognizes,
//! closes the connection; the error says which happened.

use vstd::prelude::*;

use crate::command::config_get::config_get_parse_spec;
use crate::command::echo::echo_parse_spec;
use crate::command::executor::CommandExecutorContext;
use crate::command::executor::execute;
use crate::command::executor::parse;
use crate::command::get::get_parse_spec;
use crate::command::info_replication::info_body;
use crate::command::info_replication::info_parse_spec;
use crate::command::keys::keys_parse_spec;
use crate::command::keys::keys_response;
use crate::command::ping::ping_parse_spec;
use crate::command::set::set_entry_model;
use crate::command::set::set_parse_spec;
use crate::config::config_value;
use crate::repository::Repository;
use crate::repository::lookup;
use crate::resp::Value;
use crate::resp::ValueModel;
use crate::resp::decode;
use crate::resp::encoded;

verus! {

/// Why a connection is to be closed.
#[derive(Clone, Copy, Debug, PartialEq, Eq, Structural)]
pub enum HandleError {
    /// The bytes do not decode as one frame.
    MalformedFrame,
    /// The frame decodes, but no command parser recognizes it.
    UnsupportedCommand,
}

/// Decode one request frame, dispatch it to the matching command, run it
/// at the given wall-clock reading, and give back the exact reply bytes.
pub fn handle_frame(context: &mut CommandExecutorContext, buf: &[u8], now_ms: u128) -> (r: Result<
    Vec<u8>,
    HandleError,
>)
    requires
        old(context).wf(),
    ensures
        final(context).wf(),
        final(context).config == old(context).config,
        (decode(buf@) is None) <==> r == Err::<Vec<u8>, HandleError>(HandleError::MalformedFrame),
        decode(buf@) matches Some((m, _)) ==> ((!(ping_parse_spec(m) is Ok) && !(echo_parse_spec(m)
            is Ok) && !(set_parse_spec(m) is Ok) && !(get_parse_spec(m) is Ok) && !(keys_parse_spec(
            m,
        ) is Ok) && !(config_get_parse_spec(m) is Ok) && !(info_parse_spec(m) is Ok)) <==> r
            == Err::<Vec<u8>, HandleError>(HandleError::UnsupportedCommand)),
        r is Err ==> *final(context) == *old(context),
        decode(buf@) matches Some((m, _)) ==> (ping_parse_spec(m) is Ok ==> (*final(context)
            == *old(context) && (r matches Ok(v) && v@ == encoded(
            ValueModel::SimpleString("PONG"@),
        )))),
        decode(buf@) matches Some((m, _)) ==> ((!(ping_parse_spec(m) is Ok) && echo_parse_spec(
            m,
        ) is Ok) ==> (*final(context) == *old(context) && (r matches Ok(v) && v@ == encoded(
            ValueModel::BulkString(echo_parse_spec(m)->Ok_0),
        )))),
        decode(buf@) matches Some((m, _)) ==> ((!(ping_parse_spec(m) is Ok) && !(
        echo_parse_spec(m) is Ok) && set_parse_spec(m) is Ok) ==> (
        final(context).repository.store_map() == old(context).repository.store_map().insert(
            set_parse_spec(m)->Ok_0.0,
            set_entry_model(
                set_parse_spec(m)->Ok_0.0,
                set_parse_spec(m)->Ok_0.1,
                set_parse_spec(m)->Ok_0.2,
                now_ms,
            ),
        ) && (r matches Ok(v) && v@ == encoded(ValueModel::SimpleString("OK"@))))),
        decode(buf@) matches Some((m, _)) ==> ((!(ping_parse_spec(m) is Ok) && !(
        echo_parse_spec(m) is Ok) && !(set_parse_spec(m) is Ok) && get_parse_spec(m) is Ok) ==> (
        *final(context) == *old(context) && (r matches Ok(v) && v@ == encoded(
            match lookup(old(context).repository.store_map(), get_parse_spec(m)->Ok_0, now_ms) {
                Option::Some(val) => ValueModel::BulkString(val),
                Option::None => ValueModel::Null,
            },
        )))),
        decode(buf@) matches Some((m, _)) ==> ((!(ping_parse_spec(m) is Ok) && !(
        echo_parse_spec(m) is Ok) && !(set_parse_spec(m) is Ok) && !(get_parse_spec(m) is Ok)
            && keys_parse_spec(m) is Ok) ==> (*final(context) == *old(context) && (r matches Ok(v)
            && v@ == encoded(
            ValueModel::Array(
                keys_response(
                    old(context).repository.entries_seq(),
                    keys_parse_spec(m)->Ok_0,
                    now_ms,
                ),
            ),
        )))),
        decode(buf@) matches Some((m, _)) ==> ((!(ping_parse_spec(m) is Ok) && !(
        echo_parse_spec(m) is Ok) && !(set_parse_spec(m) is Ok) && !(get_parse_spec(m) is Ok) && !(
        keys_parse_spec(m) is Ok) && config_get_parse_spec(m) is Ok) ==> (*final(context) == *old(
            context,
        ) && (r matches Ok(v) && v@ == encoded(
            match config_value(old(context).config, config_get_parse_spec(m)->Ok_0) {
                Option::Some(val) => ValueModel::Array(
                    seq![
                        ValueModel::BulkString(config_get_parse_spec(m)->Ok_0),
                        ValueModel::BulkString(val),
                    ],
                ),
                Option::None => ValueModel::Null,
            },
        )))),
        decode(buf@) matches Some((m, _)) ==> ((!(ping_parse_spec(m) is Ok) && !(
        echo_parse_spec(m) is Ok) && !(set_parse_spec(m) is Ok) && !(get_parse_spec(m) is Ok) && !(
        keys_parse_spec(m) is Ok) && !(config_get_parse_spec(m) is Ok) && info_parse_spec(m) is Ok)
            ==> (*final(context) == *old(context) && (r matches Ok(v) && v@ == encoded(
            ValueModel::BulkString(info_body(old(context).config)),
        )))),
{
    let value = match Value::deserialize(buf) {
        None => {
            return Err(HandleError::MalformedFrame);
        },
        Some((v, _rest)) => v,
    };
    let command = match parse(&value) {
        Ok(c) => c,
        Err(_) => {
            return Err(HandleError::UnsupportedCommand);
        },
    };
    let reply = execute(command, context, now_ms);
    Ok(reply.serialize())
}

} // verus!
