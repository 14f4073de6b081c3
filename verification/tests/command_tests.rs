use redis_server::command::config_get::ConfigGet;
use redis_server::command::echo::Echo;
use redis_server::command::executor::Command;
use redis_server::command::executor::CommandExecutor;
use redis_server::command::executor::CommandExecutorContext;
use redis_server::command::executor::CommandSet;
use redis_server::command::executor::parse;
use redis_server::command::get::Get;
use redis_server::command::info_replication::InfoReplication;
use redis_server::command::keys::Keys;
use redis_server::command::parser::ParseError;
use redis_server::command::ping::Ping;
use redis_server::command::set::SetCommand;
use redis_server::config::Config;
use redis_server::repository::Entry;
use redis_server::repository::Expiry;
use redis_server::repository::InMemoryRepository;
use redis_server::repository::Repository;
use redis_server::repository::TimeUnit;
use redis_server::resp::Value;

fn bulk(s: &str) -> Value {
    Value::BulkString(s.to_string())
}

fn fresh_context() -> CommandExecutorContext {
    CommandExecutorContext::new(InMemoryRepository::new(), Config::default())
}

#[test]
fn sut_parses_ping_command_with_case_insensitive() {
    for ping in ["PING", "ping", "PiNg"] {
        let value = Value::Array(vec![bulk(ping)]);
        let actual = Ping::parse_from(&value).unwrap();
        assert_eq!(actual, Ping);
    }
}

#[test]
fn echo_sut_parses_echo_command_correctly() {
    // Arrange
    let message = "hello";
    let value = Value::Array(vec![bulk("ECHO"), bulk(message)]);

    // Act
    let actual = Echo::parse_from(&value).unwrap();

    // Assert
    let expected = Echo { message: message.to_string() };
    assert_eq!(actual, expected);
}

#[test]
fn get_sut_parses_get_command_correctly() {
    // Arrange
    let get_key = "foo";
    let value = Value::Array(vec![bulk("GET"), bulk(get_key)]);

    // Act
    let actual = Get::parse_from(&value).unwrap();

    // Assert
    let expected = Get { key: get_key.to_string() };
    assert_eq!(actual, expected);
}

#[test]
fn set_sut_parses_set_command_without_expiration_correctly() {
    // Arrange
    let set_key = "foo";
    let set_value = "bar";
    let value = Value::Array(vec![bulk("SET"), bulk(set_key), bulk(set_value)]);

    // Act
    let actual = SetCommand::parse_from(&value).unwrap();

    // Assert
    let expected = SetCommand {
        key: set_key.to_string(),
        value: set_value.to_string(),
        expires_after: None,
    };
    assert_eq!(actual, expected);
}

#[test]
fn set_sut_parses_set_command_with_expiration_correctly() {
    // Arrange
    let set_key = "foo";
    let set_value = "bar";
    let set_expires_after: u128 = 1234;
    let value = Value::Array(vec![
        bulk("SET"),
        bulk(set_key),
        bulk(set_value),
        bulk("PX"),
        bulk(&set_expires_after.to_string()),
    ]);

    // Act
    let actual = SetCommand::parse_from(&value).unwrap();

    // Assert
    let expected = SetCommand {
        key: set_key.to_string(),
        value: set_value.to_string(),
        expires_after: Some(set_expires_after),
    };
    assert_eq!(actual, expected);
}

#[test]
fn keys_sut_parses_keys_command_correctly() {
    // Arrange
    let pattern = "hello";
    let value = Value::Array(vec![bulk("KEYS"), bulk(pattern)]);

    // Act
    let actual = Keys::parse_from(&value).unwrap();

    // Assert
    let expected = Keys { pattern: pattern.to_string() };
    assert_eq!(actual.pattern, expected.pattern);
}

#[test]
fn keys_sut_parses_keys_command_and_trim_double_quotes_if_exists_in_pattern() {
    // Arrange
    let pattern = "hello";
    let surrounded_pattern = format!("\"{pattern}\"");
    let value = Value::Array(vec![bulk("KEYS"), bulk(&surrounded_pattern)]);

    // Act
    let actual = Keys::parse_from(&value).unwrap();

    // Assert
    let expected = Keys { pattern: pattern.to_string() };
    assert_eq!(actual, expected);
}

#[test]
fn config_get_sut_parses_config_get_command_correctly() {
    // Arrange
    let config_key = "dir";
    let value = Value::Array(vec![bulk("CONFIG"), bulk("GET"), bulk(config_key)]);

    // Act
    let actual = ConfigGet::parse_from(&value).unwrap();

    // Assert
    let expected = ConfigGet { key: config_key.to_string() };
    assert_eq!(actual, expected);
}

#[test]
fn sut_parses_info_replication_command_correctly() {
    // Arrange
    let value = Value::Array(vec![bulk("INFO"), bulk("replication")]);

    // Act
    let actual = InfoReplication::parse_from(&value).unwrap();

    // Assert
    let expected = InfoReplication;
    assert_eq!(actual, expected);
}

#[test]
fn sut_raises_error_if_main_command_is_not_info() {
    // Arrange
    let value = Value::Array(vec![bulk("INFU"), bulk("replication")]);

    // Act
    let actual = InfoReplication::parse_from(&value);

    // Assert
    assert!(actual.is_err());
}

#[test]
fn sut_rejects_frames_that_are_not_arrays() {
    assert_eq!(
        Echo::parse_from(&bulk("ECHO")),
        Err(ParseError::ExpectedArray)
    );
}

#[test]
fn sut_rejects_frames_with_the_wrong_arity() {
    let value = Value::Array(vec![bulk("ECHO")]);
    assert_eq!(Echo::parse_from(&value), Err(ParseError::WrongArity));
}

#[test]
fn sut_rejects_frames_with_the_wrong_command_name() {
    let value = Value::Array(vec![bulk("ECHO"), bulk("x")]);
    assert_eq!(Get::parse_from(&value), Err(ParseError::WrongCommand));
}

#[test]
fn sut_rejects_non_bulk_command_arguments() {
    let value = Value::Array(vec![bulk("GET"), Value::Null]);
    assert_eq!(Get::parse_from(&value), Err(ParseError::ExpectedBulkString));
}

#[test]
fn sut_rejects_config_frames_with_the_wrong_subcommand() {
    let value = Value::Array(vec![bulk("CONFIG"), bulk("SET"), bulk("dir")]);
    assert_eq!(
        ConfigGet::parse_from(&value),
        Err(ParseError::WrongSubCommand)
    );
}

#[test]
fn sut_rejects_set_frames_with_a_bad_expiry() {
    let value = Value::Array(vec![
        bulk("SET"),
        bulk("foo"),
        bulk("bar"),
        bulk("PX"),
        bulk("soon"),
    ]);
    assert_eq!(SetCommand::parse_from(&value), Err(ParseError::BadExpiry));
}

#[test]
fn sut_dispatches_to_the_first_matching_parser() {
    let value = Value::Array(vec![bulk("ping")]);
    assert!(matches!(parse(&value), Ok(CommandSet::Ping(_))));
    let unknown = Value::Array(vec![bulk("FLUSHALL")]);
    assert_eq!(
        parse(&unknown).err(),
        Some(ParseError::UnsupportedCommand)
    );
}

#[test]
fn ping_sut_responds_pong_when_gets_ping_command() {
    // Arrange
    let mut context = fresh_context();
    let command = Ping;

    // Act
    let actual = command.execute(&mut context, 0);

    // Assert
    let expected = Value::SimpleString("PONG".to_string());
    assert_eq!(actual, expected);
}

#[test]
fn echo_sut_responds_echo_when_gets_echo_command() {
    let mut context = fresh_context();
    let message = "hello".to_string();
    let command = Echo { message: message.clone() };

    let actual = command.execute(&mut context, 0);

    let expected = Value::BulkString(message);
    assert_eq!(actual, expected);
}

#[test]
fn get_sut_responds_value_when_gets_get_command() {
    let mut context = fresh_context();
    context.repository.set(Entry {
        key: "foo".to_string(),
        value: "bar".to_string(),
        expiry: None,
    });
    let get_cmd = Get { key: "foo".to_string() };

    let actual = get_cmd.execute(&mut context, 0);

    let expected = Value::BulkString("bar".to_string());
    assert_eq!(actual, expected);
}

#[test]
fn sut_responds_null_when_key_not_found() {
    // Arrange
    let mut context = fresh_context();
    let get_cmd = Get { key: "foo".to_string() };

    // Act
    let actual = get_cmd.execute(&mut context, 0);

    // Assert
    let expected = Value::Null;
    assert_eq!(actual, expected);
}

#[test]
fn set_sut_responds_ok_when_gets_set_command() {
    let mut context = fresh_context();
    let cmd = SetCommand {
        key: "foo".to_string(),
        value: "bar".to_string(),
        expires_after: None,
    };

    let actual = cmd.execute(&mut context, 0);

    let expected = Value::SimpleString("OK".to_string());
    assert_eq!(actual, expected);
}

#[test]
fn set_sut_responds_value_when_gets_get_command() {
    let mut context = fresh_context();
    let set_cmd = SetCommand {
        key: "foo".to_string(),
        value: "bar".to_string(),
        expires_after: None,
    };
    set_cmd.execute(&mut context, 0);

    let actual = context.repository.get("foo", 1);

    assert_eq!(actual, Some("bar".to_string()));
}

#[test]
fn set_sut_responds_null_when_gets_get_command_but_value_is_expired() {
    let mut context = fresh_context();
    let now: u128 = 1_000_000;
    let expires_after: u128 = 50;
    let set_cmd = SetCommand {
        key: "foo".to_string(),
        value: "bar".to_string(),
        expires_after: Some(expires_after),
    };
    set_cmd.execute(&mut context, now);

    // 60 ms later the record has expired
    let actual = context.repository.get("foo", now + 60);

    assert_eq!(actual, None);
}

#[test]
fn keys_sut_responds_all_keys_when_keys_command_pattern_is_asterisk() {
    let mut context = fresh_context();
    for key in ["alpha", "beta", "gamma"] {
        context.repository.set(Entry {
            key: key.to_string(),
            value: "v".to_string(),
            expiry: None,
        });
    }
    let cmd = Keys { pattern: "*".to_string() };

    let actual = cmd.execute(&mut context, 0);

    let expected = Value::Array(vec![bulk("alpha"), bulk("beta"), bulk("gamma")]);
    assert_eq!(actual, expected);
}

#[test]
fn keys_sut_responds_the_given_key_when_keys_command_pattern_is_exactly_the_key() {
    let mut context = fresh_context();
    for key in ["alpha", "beta", "gamma"] {
        context.repository.set(Entry {
            key: key.to_string(),
            value: "v".to_string(),
            expiry: None,
        });
    }
    let cmd = Keys { pattern: "alpha".to_string() };

    let actual = cmd.execute(&mut context, 0);

    let expected = Value::Array(vec![bulk("alpha")]);
    assert_eq!(actual, expected);
}

#[test]
fn keys_sut_responds_the_matched_keys_as_asterisk_to_whatever() {
    let mut context = fresh_context();
    for key in ["healingpaper", "arine"] {
        context.repository.set(Entry {
            key: key.to_string(),
            value: "v".to_string(),
            expiry: None,
        });
    }
    let cmd = Keys { pattern: "h*".to_string() };

    let actual = cmd.execute(&mut context, 0);

    let expected = Value::Array(vec![bulk("healingpaper")]);
    assert_eq!(actual, expected);
}

#[test]
fn sut_responds_with_skipping_expired_keys() {
    let mut context = fresh_context();
    context.repository.set(Entry {
        key: "stale".to_string(),
        value: "v".to_string(),
        expiry: Some(Expiry { epoch: 0, unit: TimeUnit::Millisecond }),
    });
    let cmd = Keys { pattern: "*".to_string() };

    // 10 ms past the expiry instant
    let actual = cmd.execute(&mut context, 10);

    let expected = Value::Array(vec![]);
    assert_eq!(actual, expected);
}

#[test]
fn sut_responds_master_information_of_replication_if_replication_is_not_set() {
    let mut context = fresh_context();
    let command = InfoReplication;

    let actual = command.execute(&mut context, 0);

    let body = match actual {
        Value::BulkString(s) => s,
        other => panic!("expected a bulk string, got {other:?}"),
    };
    assert!(body.contains("role:master"));
    assert!(body.contains("master_replid:8371b4fb1155b71f4a04d3e1bc3e18c4a990aeeb"));
    assert!(body.contains("master_repl_offset:0"));
}

#[test]
fn sut_responds_replication_role_as_slave_if_replication_is_set() {
    let mut config = Config::default();
    config.replication.slave = Some(redis_server::config::ReplicationSlave {
        master_address: "localhost 6380".to_string(),
    });
    let mut context = CommandExecutorContext::new(InMemoryRepository::new(), config);
    let command = InfoReplication;

    let actual = command.execute(&mut context, 0);

    assert_eq!(actual, Value::BulkString("role:slave".to_string()));
}
