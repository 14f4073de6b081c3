use redis_server::cmd::Cmd;
use redis_server::cmd::execute;
use redis_server::cmd::match_asterisk_pattern;
use redis_server::config::Config;
use redis_server::repository::InMemoryRepository;
use redis_server::repository::Repository;
use redis_server::resp::Value;

fn bulk(s: &str) -> Value {
    Value::BulkString(s.to_string())
}

#[test]
fn cmd_sut_parses_ping_command_with_case_insensitive() {
    for ping in ["PING", "ping", "PiNg"] {
        // Arrange
        let value = Value::Array(vec![bulk(ping)]);

        // Act
        let actual = Cmd::from(value);

        // Assert
        let expected = Cmd::Ping;
        assert_eq!(actual, expected);
    }
}

#[test]
fn cmd_sut_parses_echo_command_correctly() {
    // Arrange
    let message = "hello";
    let value = Value::Array(vec![bulk("ECHO"), bulk(message)]);

    // Act
    let actual = Cmd::from(value);

    // Assert
    let expected = Cmd::Echo { message: message.to_string() };
    assert_eq!(actual, expected);
}

#[test]
fn cmd_sut_parses_set_command_without_expiration_correctly() {
    // Arrange
    let set_key = "foo";
    let set_value = "bar";
    let value = Value::Array(vec![bulk("SET"), bulk(set_key), bulk(set_value)]);

    // Act
    let actual = Cmd::from(value);

    // Assert
    let expected = Cmd::SetCommand {
        key: set_key.to_string(),
        value: set_value.to_string(),
        expires_after: None,
    };
    assert_eq!(actual, expected);
}

#[test]
fn cmd_sut_parses_set_command_with_expiration_correctly() {
    // Arrange
    let set_key = "foo";
    let set_value = "bar";
    let set_expires_after: u128 = 1234;
    let value = Value::Array(vec![
        bulk("SET"),
        bulk(set_key),
        bulk(set_value),
        bulk("PX"),
        bulk(&set_expires_after.to_string()),
    ]);

    // Act
    let actual = Cmd::from(value);

    // Assert
    let expected = Cmd::SetCommand {
        key: set_key.to_string(),
        value: set_value.to_string(),
        expires_after: Some(set_expires_after),
    };
    assert_eq!(actual, expected);
}

#[test]
fn cmd_sut_parses_get_command_correctly() {
    // Arrange
    let get_key = "foo";
    let value = Value::Array(vec![bulk("GET"), bulk(get_key)]);

    // Act
    let actual = Cmd::from(value);

    // Assert
    let expected = Cmd::Get { key: get_key.to_string() };
    assert_eq!(actual, expected);
}

#[test]
fn cmd_sut_parses_config_get_command_correctly() {
    // Arrange
    let config_key = "dir";
    let value = Value::Array(vec![bulk("CONFIG"), bulk("GET"), bulk(config_key)]);

    // Act
    let actual = Cmd::from(value);

    // Assert
    let expected = Cmd::ConfigGet { key: config_key.to_string() };
    assert_eq!(actual, expected);
}

#[test]
fn cmd_sut_parses_keys_command_correctly() {
    // Arrange
    let pattern = "hello";
    let value = Value::Array(vec![bulk("KEYS"), bulk(pattern)]);

    // Act
    let actual = Cmd::from(value);

    // Assert
    let expected = Cmd::Keys { pattern: pattern.to_string() };
    assert_eq!(actual, expected);
}

#[test]
fn cmd_sut_parses_keys_command_and_trim_double_quotes_if_exists_in_pattern() {
    // Arrange
    let pattern = "hello";
    let surrounded_pattern = format!("\"{pattern}\"");
    let value = Value::Array(vec![bulk("KEYS"), bulk(&surrounded_pattern)]);

    // Act
    let actual = Cmd::from(value);

    // Assert
    let expected = Cmd::Keys { pattern: pattern.to_string() };
    assert_eq!(actual, expected);
}

#[test]
fn cmd_sut_responds_pong_when_gets_ping_command() {
    // Arrange
    let mut repository = InMemoryRepository::new();
    let config = Config::default();
    let cmd = Cmd::Ping;

    // Act
    let actual = execute(&mut repository, cmd, &config, 0);

    // Assert
    let expected = Value::SimpleString("PONG".to_string());
    assert_eq!(actual, expected);
}

#[test]
fn cmd_sut_responds_echo_when_gets_echo_command() {
    let mut repository = InMemoryRepository::new();
    let config = Config::default();
    let message = "hello".to_string();
    let cmd = Cmd::Echo { message: message.clone() };

    let actual = execute(&mut repository, cmd, &config, 0);

    let expected = Value::BulkString(message);
    assert_eq!(actual, expected);
}

#[test]
fn cmd_sut_responds_ok_when_gets_set_command() {
    let mut repository = InMemoryRepository::new();
    let config = Config::default();
    let cmd = Cmd::SetCommand {
        key: "foo".to_string(),
        value: "bar".to_string(),
        expires_after: None,
    };

    let actual = execute(&mut repository, cmd, &config, 0);

    let expected = Value::SimpleString("OK".to_string());
    assert_eq!(actual, expected);
}

#[test]
fn cmd_sut_responds_value_when_gets_get_command() {
    let mut repository = InMemoryRepository::new();
    let config = Config::default();
    let set_cmd = Cmd::SetCommand {
        key: "foo".to_string(),
        value: "bar".to_string(),
        expires_after: None,
    };
    execute(&mut repository, set_cmd, &config, 0);
    let get_cmd = Cmd::Get { key: "foo".to_string() };

    let actual = execute(&mut repository, get_cmd, &config, 1);

    let expected = Value::BulkString("bar".to_string());
    assert_eq!(actual, expected);
}

#[test]
fn cmd_sut_responds_null_when_gets_get_command_but_value_is_expired() {
    let mut repository = InMemoryRepository::new();
    let config = Config::default();
    let now: u128 = 1_000_000;
    let expires_after: u128 = 50;
    let set_cmd = Cmd::SetCommand {
        key: "foo".to_string(),
        value: "bar".to_string(),
        expires_after: Some(expires_after),
    };
    execute(&mut repository, set_cmd, &config, now);
    let get_cmd = Cmd::Get { key: "foo".to_string() };

    // 60 ms later the record has expired
    let actual = execute(&mut repository, get_cmd, &config, now + 60);

    let expected = Value::Null;
    assert_eq!(actual, expected);
}

#[test]
fn cmd_sut_responds_all_keys_when_keys_command_pattern_is_asterisk() {
    let mut repository = InMemoryRepository::new();
    let config = Config::default();
    for key in ["alpha", "beta", "gamma"] {
        repository.set(redis_server::repository::Entry {
            key: key.to_string(),
            value: "v".to_string(),
            expiry: None,
        });
    }
    let cmd = Cmd::Keys { pattern: "*".to_string() };

    let actual = execute(&mut repository, cmd, &config, 0);

    let expected = Value::Array(vec![bulk("alpha"), bulk("beta"), bulk("gamma")]);
    assert_eq!(actual, expected);
}

#[test]
fn cmd_sut_responds_the_given_key_when_keys_command_pattern_is_exactly_the_key() {
    let mut repository = InMemoryRepository::new();
    let config = Config::default();
    for key in ["alpha", "beta", "gamma"] {
        repository.set(redis_server::repository::Entry {
            key: key.to_string(),
            value: "v".to_string(),
            expiry: None,
        });
    }
    let cmd = Cmd::Keys { pattern: "alpha".to_string() };

    let actual = execute(&mut repository, cmd, &config, 0);

    let expected = Value::Array(vec![bulk("alpha")]);
    assert_eq!(actual, expected);
}

#[test]
fn cmd_sut_responds_the_matched_keys_as_asterisk_to_whatever() {
    let mut repository = InMemoryRepository::new();
    let config = Config::default();
    for key in ["healingpaper", "arine"] {
        repository.set(redis_server::repository::Entry {
            key: key.to_string(),
            value: "v".to_string(),
            expiry: None,
        });
    }
    let cmd = Cmd::Keys { pattern: "h*".to_string() };

    let actual = execute(&mut repository, cmd, &config, 0);

    let expected = Value::Array(vec![bulk("healingpaper")]);
    assert_eq!(actual, expected);
}

#[test]
fn sut_matches_asterisk_pattern_per_the_glob_rules() {
    // `*` alone matches every key
    assert!(match_asterisk_pattern("*", ""));
    assert!(match_asterisk_pattern("*", "anything"));
    // trailing `*` matches by prefix
    assert!(match_asterisk_pattern("h*", "hello"));
    assert!(!match_asterisk_pattern("h*", "ahoy"));
    // leading `*` matches by suffix
    assert!(match_asterisk_pattern("*llo", "hello"));
    assert!(!match_asterisk_pattern("*llo", "help"));
    // one interior `*` matches by prefix and suffix
    assert!(match_asterisk_pattern("h*o", "hello"));
    assert!(match_asterisk_pattern("h*o", "ho"));
    assert!(!match_asterisk_pattern("h*o", "help"));
    // no `*` means exact equality
    assert!(match_asterisk_pattern("hello", "hello"));
    assert!(!match_asterisk_pattern("hello", "hell"));
}
