use redis_server::command::executor::CommandExecutorContext;
use redis_server::config::Config;
use redis_server::config::RdbConfig;
use redis_server::repository::InMemoryRepository;
use redis_server::repository::Repository;
use redis_server::runner::HandleError;
use redis_server::runner::handle_frame;
use redis_server::snapshot::load;
use redis_server::text::parse_dec_chars;
use redis_server::text::str_eq;
use redis_server::text::usize_to_string;

fn fresh_context() -> CommandExecutorContext {
    CommandExecutorContext::new(InMemoryRepository::new(), Config::default())
}

#[test]
fn sut_responds_pong_when_gets_ping() {
    // Arrange
    let mut context = fresh_context();

    // Act
    let actual = handle_frame(&mut context, b"*1\r\n$4\r\nPING\r\n", 0).unwrap();

    // Assert
    assert_eq!(actual, b"+PONG\r\n".to_vec());
}

#[test]
fn sut_responds_pongs_when_client_pings() {
    let mut context = fresh_context();
    for _ in 0..10 {
        let actual = handle_frame(&mut context, b"*1\r\n$4\r\nPING\r\n", 0).unwrap();
        assert_eq!(actual, b"+PONG\r\n".to_vec());
    }
}

#[test]
fn sut_responds_the_same_message_when_client_echos() {
    let mut context = fresh_context();
    let message = "hello";
    let request = format!("*2\r\n$4\r\nECHO\r\n${}\r\n{}\r\n", message.len(), message);

    let actual = handle_frame(&mut context, request.as_bytes(), 0).unwrap();

    let expected = format!("${}\r\n{}\r\n", message.len(), message);
    assert_eq!(actual, expected.as_bytes().to_vec());
}

#[test]
fn sut_responds_ok_when_client_sets() {
    let mut context = fresh_context();

    let actual = handle_frame(
        &mut context,
        b"*3\r\n$3\r\nSET\r\n$3\r\nfoo\r\n$3\r\nbar\r\n",
        0,
    )
    .unwrap();

    assert_eq!(actual, b"+OK\r\n".to_vec());
}

#[test]
fn sut_responds_value_when_client_sets_and_gets() {
    let mut context = fresh_context();
    let ok = handle_frame(
        &mut context,
        b"*3\r\n$3\r\nSET\r\n$3\r\nfoo\r\n$3\r\nbar\r\n",
        0,
    )
    .unwrap();
    assert_eq!(ok, b"+OK\r\n".to_vec());

    let actual = handle_frame(&mut context, b"*2\r\n$3\r\nGET\r\n$3\r\nfoo\r\n", 1).unwrap();

    assert_eq!(actual, b"$3\r\nbar\r\n".to_vec());
}

#[test]
fn sut_responds_value_when_client_sets_and_gets_before_expiration() {
    let mut context = fresh_context();
    let now: u128 = 1_000_000;
    handle_frame(
        &mut context,
        b"*5\r\n$3\r\nSET\r\n$3\r\nfoo\r\n$3\r\nbar\r\n$2\r\nPX\r\n$4\r\n1000\r\n",
        now,
    )
    .unwrap();

    let actual =
        handle_frame(&mut context, b"*2\r\n$3\r\nGET\r\n$3\r\nfoo\r\n", now + 999).unwrap();

    assert_eq!(actual, b"$3\r\nbar\r\n".to_vec());
}

#[test]
fn sut_responds_null_when_client_sets_and_gets_after_expiration() {
    let mut context = fresh_context();
    let now: u128 = 1_000_000;
    let ok = handle_frame(
        &mut context,
        b"*5\r\n$3\r\nSET\r\n$3\r\nfoo\r\n$3\r\nbar\r\n$2\r\nPX\r\n$2\r\n50\r\n",
        now,
    )
    .unwrap();
    assert_eq!(ok, b"+OK\r\n".to_vec());

    // 60 ms later the record has expired
    let actual =
        handle_frame(&mut context, b"*2\r\n$3\r\nGET\r\n$3\r\nfoo\r\n", now + 60).unwrap();

    assert_eq!(actual, b"$-1\r\n".to_vec());
}

#[test]
fn sut_responds_the_matched_keys_as_asterisk_to_whatever_when_client_sends_keys() {
    // Arrange: load keys {hello, hi, hps, arine, redis}, then query `h*`
    let mut context = fresh_context();
    for key in ["hello", "hi", "hps", "arine", "redis"] {
        let request = format!(
            "*3\r\n$3\r\nSET\r\n${}\r\n{}\r\n$1\r\nv\r\n",
            key.len(),
            key
        );
        handle_frame(&mut context, request.as_bytes(), 0).unwrap();
    }

    let actual =
        handle_frame(&mut context, b"*2\r\n$4\r\nKEYS\r\n$2\r\nh*\r\n", 1).unwrap();

    assert_eq!(
        actual,
        b"*3\r\n$5\r\nhello\r\n$2\r\nhi\r\n$3\r\nhps\r\n".to_vec()
    );
}

#[test]
fn sut_responds_dir_in_config_when_clients_sends_config_get_of_dir() {
    // Arrange
    let mut config = Config::default();
    config.rdb = Some(RdbConfig {
        directory: "/tmp".to_string(),
        filename: "dump.rdb".to_string(),
    });
    let mut context = CommandExecutorContext::new(InMemoryRepository::new(), config);

    // Act
    let actual = handle_frame(
        &mut context,
        b"*3\r\n$6\r\nCONFIG\r\n$3\r\nGET\r\n$3\r\ndir\r\n",
        0,
    )
    .unwrap();

    // Assert
    assert_eq!(actual, b"*2\r\n$3\r\ndir\r\n$4\r\n/tmp\r\n".to_vec());
}

#[test]
fn sut_responds_master_related_attributes_if_replication_is_not_set() {
    let mut context = fresh_context();

    let actual = handle_frame(
        &mut context,
        b"*2\r\n$4\r\nINFO\r\n$11\r\nreplication\r\n",
        0,
    )
    .unwrap();

    let text = String::from_utf8(actual).unwrap();
    assert!(text.contains("role:master"));
    assert!(text.contains("master_replid:8371b4fb1155b71f4a04d3e1bc3e18c4a990aeeb"));
    assert!(text.contains("master_repl_offset:0"));
}

#[test]
fn sut_closes_the_connection_on_a_malformed_frame() {
    let mut context = fresh_context();
    let actual = handle_frame(&mut context, b"not a frame", 0);
    assert_eq!(actual, Err(HandleError::MalformedFrame));
}

#[test]
fn sut_closes_the_connection_on_an_unsupported_command() {
    let mut context = fresh_context();
    let actual = handle_frame(&mut context, b"*1\r\n$8\r\nFLUSHALL\r\n", 0);
    assert_eq!(actual, Err(HandleError::UnsupportedCommand));
}

#[test]
fn sut_loads_entries_in_rdb_file_correctly() {
    // Arrange: a snapshot with one live record, one long-expired record,
    // and the terminator
    let mut data = Vec::new();
    data.extend_from_slice(b"REDIS0011");
    // foobar: bazqux, no expiry
    data.extend_from_slice(&[
        0x00, 0x06, 0x66, 0x6f, 0x6f, 0x62, 0x61, 0x72, 0x06, 0x62, 0x61, 0x7a, 0x71, 0x75, 0x78,
    ]);
    // stale: gone, expiry 1 ms after the epoch
    data.extend_from_slice(&[0xfc, 0x01, 0x00, 0x00, 0x00, 0x00, 0x00, 0x00, 0x00, 0x00]);
    data.extend_from_slice(&[0x05, 0x73, 0x74, 0x61, 0x6c, 0x65, 0x04, 0x67, 0x6f, 0x6e, 0x65]);
    data.extend_from_slice(&[0xff, 0, 0, 0, 0, 0, 0, 0, 0]);

    let mut repository = InMemoryRepository::new();
    let now: u128 = 1_000_000;
    load(data, &mut repository, now);
    let mut context = CommandExecutorContext::new(repository, Config::default());

    // Act
    let actual = handle_frame(&mut context, b"*2\r\n$4\r\nKEYS\r\n$1\r\n*\r\n", now).unwrap();

    // Assert
    assert_eq!(actual, b"*1\r\n$6\r\nfoobar\r\n".to_vec());
}

#[test]
fn sut_renders_and_parses_decimal_numbers_exactly() {
    assert!(str_eq(usize_to_string(0).as_str(), "0"));
    assert!(str_eq(usize_to_string(6379).as_str(), "6379"));
    assert!(str_eq(usize_to_string(1234567890).as_str(), "1234567890"));
    assert_eq!(parse_dec_chars("0"), Some(0));
    assert_eq!(parse_dec_chars("1234"), Some(1234));
    assert_eq!(parse_dec_chars(""), None);
    assert_eq!(parse_dec_chars("12a4"), None);
    assert_eq!(
        parse_dec_chars("340282366920938463463374607431768211455"),
        Some(u128::MAX)
    );
    assert_eq!(parse_dec_chars("340282366920938463463374607431768211456"), None);
}

#[test]
fn sut_reports_config_values_by_name() {
    let mut config = Config::default();
    assert_eq!(config.get("port"), Some("6379".to_string()));
    assert_eq!(config.get("dir"), None);
    assert_eq!(config.get("nothing"), None);
    config.rdb = Some(RdbConfig {
        directory: "/data".to_string(),
        filename: "dump.rdb".to_string(),
    });
    assert_eq!(config.get("dir"), Some("/data".to_string()));
    assert_eq!(config.get("dbfilename"), Some("dump.rdb".to_string()));
    assert_eq!(config.rdb.as_ref().unwrap().path(), "/data/dump.rdb".to_string());
}
