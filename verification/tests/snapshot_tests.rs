use redis_server::repository::Entry;
use redis_server::repository::Expiry;
use redis_server::repository::InMemoryRepository;
use redis_server::repository::Repository;
use redis_server::repository::TimeUnit;
use redis_server::snapshot::RdbFileReader;
use redis_server::snapshot::load;

fn sample_rdb() -> Vec<u8> {
    let mut data = Vec::new();
    // header, REDIS0011
    data.extend_from_slice(b"REDIS0011");
    // metadata #1, redis-ver: 7.2.0
    data.extend_from_slice(&[
        0xfa, 0x09, 0x72, 0x65, 0x64, 0x69, 0x73, 0x2d, 0x76, 0x65, 0x72, 0x05, 0x37, 0x2e, 0x32,
        0x2e, 0x30,
    ]);
    // metadata #2, redis-bits: 64 (an integer-encoded string)
    data.extend_from_slice(&[
        0xfa, 0x0a, 0x72, 0x65, 0x64, 0x69, 0x73, 0x2d, 0x62, 0x69, 0x74, 0x73, 0xc0, 0x40,
    ]);
    // database selector, 0
    data.extend_from_slice(&[0xfe, 0x00]);
    // hash table sizes
    data.extend_from_slice(&[0xfb, 0x01, 0x00]);
    // entry #1, foobar: bazqux
    data.extend_from_slice(&[
        0x00, 0x06, 0x66, 0x6f, 0x6f, 0x62, 0x61, 0x72, 0x06, 0x62, 0x61, 0x7a, 0x71, 0x75, 0x78,
    ]);
    // entry #2, foo: bar, with a millisecond expiry
    data.extend_from_slice(&[
        0xfc, 0x15, 0x72, 0xe7, 0x07, 0x8f, 0x01, 0x00, 0x00, 0x00, 0x03, 0x66, 0x6f, 0x6f, 0x03,
        0x62, 0x61, 0x72,
    ]);
    // entry #3, baz: qux, with a seconds expiry
    data.extend_from_slice(&[
        0xfd, 0x52, 0xed, 0x2a, 0x66, 0x00, 0x03, 0x62, 0x61, 0x7a, 0x03, 0x71, 0x75, 0x78,
    ]);
    // footer
    data.extend_from_slice(&[0xff, 0x89, 0x3b, 0xb7, 0x4e, 0xf8, 0x0f, 0x77, 0x19]);
    data
}

#[test]
fn sut_parses_entries_of_rdb_correctly() {
    // Arrange
    let mut sut = RdbFileReader::new(sample_rdb());

    // Act
    let entries = sut.entries();

    // Assert
    let expected = vec![
        Entry {
            key: "foobar".to_string(),
            value: "bazqux".to_string(),
            expiry: None,
        },
        Entry {
            key: "foo".to_string(),
            value: "bar".to_string(),
            expiry: Some(Expiry { epoch: 1_713_824_559_637, unit: TimeUnit::Millisecond }),
        },
        Entry {
            key: "baz".to_string(),
            value: "qux".to_string(),
            expiry: Some(Expiry { epoch: 1_714_089_298_000, unit: TimeUnit::Millisecond }),
        },
    ];
    assert_eq!(entries, expected);
}

#[test]
fn sut_parses_nothing_from_a_file_without_a_header() {
    let mut sut = RdbFileReader::new(vec![0x00, 0x01]);
    assert_eq!(sut.entries(), Vec::<Entry>::new());
}

#[test]
fn sut_truncates_parsing_at_the_first_decode_failure() {
    let mut data = Vec::new();
    data.extend_from_slice(b"REDIS0011");
    // entry without expiry, but the value is cut off
    data.extend_from_slice(&[0x00, 0x03, 0x66, 0x6f, 0x6f, 0x06, 0x62, 0x61]);
    let mut sut = RdbFileReader::new(data);
    assert_eq!(sut.entries(), Vec::<Entry>::new());
}

#[test]
fn sut_stops_cleanly_at_an_unknown_tag() {
    let mut data = Vec::new();
    data.extend_from_slice(b"REDIS0011");
    data.extend_from_slice(&[0x00, 0x01, 0x61, 0x01, 0x62]); // a: b
    data.extend_from_slice(&[0x77]); // unknown tag
    data.extend_from_slice(&[0x00, 0x01, 0x63, 0x01, 0x64]); // c: d, never reached
    let mut sut = RdbFileReader::new(data);
    let entries = sut.entries();
    assert_eq!(entries.len(), 1);
    assert_eq!(entries[0].key, "a");
    assert_eq!(entries[0].value, "b");
}

#[test]
fn sut_loads_unexpired_entries_into_the_keyspace() {
    // Arrange: load well before both expiry instants
    let mut repository = InMemoryRepository::new();
    let now: u128 = 1_000_000;

    // Act
    load(sample_rdb(), &mut repository, now);

    // Assert
    assert_eq!(repository.get("foobar", now), Some("bazqux".to_string()));
    assert_eq!(repository.get("foo", now), Some("bar".to_string()));
    assert_eq!(repository.get("baz", now), Some("qux".to_string()));
}

#[test]
fn sut_skips_entries_whose_expiry_is_at_or_before_load_time() {
    // Arrange: load after the millisecond expiry but before the seconds one
    let mut repository = InMemoryRepository::new();
    let now: u128 = 1_714_000_000_000;

    // Act
    load(sample_rdb(), &mut repository, now);

    // Assert: the expired record was never inserted
    assert_eq!(repository.get("foobar", now), Some("bazqux".to_string()));
    assert_eq!(repository.get("foo", now), None);
    assert_eq!(repository.get("baz", now), Some("qux".to_string()));
    assert_eq!(repository.entries().len(), 2);
}

#[test]
fn sut_skips_an_entry_whose_expiry_equals_load_time() {
    let mut data = Vec::new();
    data.extend_from_slice(b"REDIS0011");
    // entry with millisecond expiry exactly 5000
    data.extend_from_slice(&[0xfc, 0x88, 0x13, 0x00, 0x00, 0x00, 0x00, 0x00, 0x00, 0x00]);
    data.extend_from_slice(&[0x01, 0x6b, 0x01, 0x76]); // k: v
    data.extend_from_slice(&[0xff, 0, 0, 0, 0, 0, 0, 0, 0]);
    let mut repository = InMemoryRepository::new();

    load(data, &mut repository, 5000);

    assert_eq!(repository.entries().len(), 0);
}

#[test]
fn sut_tolerates_a_missing_snapshot_as_an_empty_keyspace() {
    let mut repository = InMemoryRepository::new();
    load(Vec::new(), &mut repository, 0);
    assert_eq!(repository.entries().len(), 0);
}
