use mcscrape::correlate::{CorrelationTable, PendingEntry, Target};
use mcscrape::driver::{PollDriver, ReplyAction, Sample};
use mcscrape::wire::Packet;

fn target(kind: &str, name: &str) -> Target {
    Target { kind: kind.to_string(), name: name.to_string(), target: "host:19132".to_string() }
}

fn entry(send_time: u64, name: &str) -> PendingEntry {
    PendingEntry { send_time, target: target("raknet", name) }
}

fn pong(id: u64, user_data: &str) -> Packet {
    Packet::UnconnectedPong { elapsed_time: id, server_guid: 42, user_data: user_data.to_string() }
}

#[test]
fn three_records_resolve_exactly_once() {
    let mut table = CorrelationTable::new();
    table.record(1, entry(10, "a"));
    table.record(2, entry(20, "b"));
    table.record(3, entry(30, "c"));
    assert_eq!(table.len(), 3);
    assert_eq!(table.resolve(2), Some(entry(20, "b")));
    assert_eq!(table.resolve(1), Some(entry(10, "a")));
    assert_eq!(table.resolve(3), Some(entry(30, "c")));
    assert_eq!(table.len(), 0);
    assert_eq!(table.resolve(2), None);
    assert_eq!(table.resolve(7), None);
}

#[test]
fn record_overwrites_reused_identifier() {
    let mut table = CorrelationTable::new();
    table.record(5, entry(10, "old"));
    table.record(5, entry(90, "new"));
    assert_eq!(table.len(), 1);
    assert_eq!(table.resolve(5), Some(entry(90, "new")));
}

#[test]
fn probe_is_sent_for_matching_kind_and_recorded() {
    let mut driver = PollDriver::new(0x1122334455667788);
    let encoded = driver.prepare_probe(target("raknet", "srv"), 1000).unwrap();
    let expected = Packet::UnconnectedPing { elapsed_time: 0, client_guid: 0x1122334455667788 }
        .encode()
        .unwrap();
    assert_eq!(encoded, expected);
    assert_eq!(driver.next_ping_id, 1);
    assert_eq!(driver.pending.len(), 1);
}

#[test]
fn probe_skips_other_kinds() {
    let mut driver = PollDriver::new(1);
    assert_eq!(driver.prepare_probe(target("http", "srv"), 1000), None);
    assert_eq!(driver.next_ping_id, 0);
    assert_eq!(driver.pending.len(), 0);
}

#[test]
fn identifiers_are_assigned_in_order() {
    let mut driver = PollDriver::new(1);
    for expected_id in 0..4u64 {
        assert_eq!(driver.next_ping_id, expected_id);
        driver.prepare_probe(target("raknet", "srv"), 50).unwrap();
    }
    assert_eq!(driver.pending.len(), 4);
}

#[test]
fn six_fields_yield_a_sample() {
    let mut driver = PollDriver::new(1);
    driver.prepare_probe(target("raknet", "srv"), 1000).unwrap();
    let action = driver.handle_reply(1045, &pong(0, "MCPE;Server;123;1.19;5;20"), 1_700_000_000);
    assert_eq!(
        action,
        ReplyAction::Publish(Sample {
            time_secs: 1_700_000_001,
            kind: "raknet".to_string(),
            name: "srv".to_string(),
            player_count: 5,
            player_limit: 20,
            rtt: 45,
        })
    );
    assert_eq!(driver.pending.len(), 0);
}

#[test]
fn five_fields_yield_no_sample() {
    let mut driver = PollDriver::new(1);
    driver.prepare_probe(target("raknet", "srv"), 1000).unwrap();
    let action = driver.handle_reply(1045, &pong(0, "MCPE;Server;123;1.19;5"), 1_700_000_000);
    assert_eq!(action, ReplyAction::Unusable);
    // The reply was discarded before resolution: the request stays outstanding.
    assert_eq!(driver.pending.len(), 1);
}

#[test]
fn rtt_is_reply_minus_send() {
    let mut driver = PollDriver::new(1);
    driver.prepare_probe(target("raknet", "srv"), 1000).unwrap();
    match driver.handle_reply(1045, &pong(0, "a;b;c;d;5;20"), 0) {
        ReplyAction::Publish(sample) => assert_eq!(sample.rtt, 45),
        other => panic!("expected a sample, got {:?}", other),
    }
}

#[test]
fn unknown_identifier_is_unmatched() {
    let mut driver = PollDriver::new(1);
    driver.prepare_probe(target("raknet", "srv"), 1000).unwrap();
    let action = driver.handle_reply(1045, &pong(99, "a;b;c;d;5;20"), 0);
    assert_eq!(action, ReplyAction::Unmatched);
    assert_eq!(driver.pending.len(), 1);
}

#[test]
fn duplicate_reply_is_unmatched() {
    let mut driver = PollDriver::new(1);
    driver.prepare_probe(target("raknet", "srv"), 1000).unwrap();
    let first = driver.handle_reply(1045, &pong(0, "a;b;c;d;5;20"), 0);
    assert!(matches!(first, ReplyAction::Publish(_)));
    let second = driver.handle_reply(1046, &pong(0, "a;b;c;d;5;20"), 0);
    assert_eq!(second, ReplyAction::Unmatched);
}

#[test]
fn ping_packets_are_ignored() {
    let mut driver = PollDriver::new(1);
    driver.prepare_probe(target("raknet", "srv"), 1000).unwrap();
    let packet = Packet::UnconnectedPing { elapsed_time: 0, client_guid: 9 };
    assert_eq!(driver.handle_reply(1045, &packet, 0), ReplyAction::Ignored);
    assert_eq!(driver.pending.len(), 1);
}

#[test]
fn non_numeric_player_fields_are_malformed() {
    let mut driver = PollDriver::new(1);
    driver.prepare_probe(target("raknet", "srv"), 1000).unwrap();
    let action = driver.handle_reply(1045, &pong(0, "a;b;c;d;five;20"), 0);
    assert_eq!(action, ReplyAction::Malformed);
    // The entry was consumed before the fields were parsed.
    assert_eq!(driver.pending.len(), 0);
}

#[test]
fn overflowing_player_field_is_malformed() {
    let mut driver = PollDriver::new(1);
    driver.prepare_probe(target("raknet", "srv"), 1000).unwrap();
    let action = driver.handle_reply(1045, &pong(0, "a;b;c;d;4294967296;20"), 0);
    assert_eq!(action, ReplyAction::Malformed);
}

#[test]
fn reply_earlier_than_send_is_malformed() {
    let mut driver = PollDriver::new(1);
    driver.prepare_probe(target("raknet", "srv"), 1000).unwrap();
    let action = driver.handle_reply(999, &pong(0, "a;b;c;d;5;20"), 0);
    assert_eq!(action, ReplyAction::Malformed);
}

#[test]
fn plus_signed_player_field_parses() {
    let mut driver = PollDriver::new(1);
    driver.prepare_probe(target("raknet", "srv"), 1000).unwrap();
    match driver.handle_reply(1045, &pong(0, "a;b;c;d;+5;20"), 0) {
        ReplyAction::Publish(sample) => {
            assert_eq!(sample.player_count, 5);
            assert_eq!(sample.player_limit, 20);
        },
        other => panic!("expected a sample, got {:?}", other),
    }
}

#[test]
fn end_to_end_one_target_one_pong() {
    let mut driver = PollDriver::new(0xABCD);
    let start_secs = 1_600_000_000u64;

    // Send phase: one configured target of this protocol's kind.
    let wire_bytes = driver.prepare_probe(target("raknet", "Server"), 1000).unwrap();

    // The probe on the wire is the ping we expect.
    let probe = Packet::decode(&wire_bytes).unwrap();
    assert_eq!(probe, Packet::UnconnectedPing { elapsed_time: 0, client_guid: 0xABCD });

    // The server replies, echoing the identifier; the channel decodes
    // the datagram and timestamps it.
    let reply = Packet::UnconnectedPong {
        elapsed_time: 0,
        server_guid: 77,
        user_data: "MCPE;Server;123;1.19;5;20;more;fields".to_string(),
    };
    let datagram = reply.encode().unwrap();
    let received = Packet::decode(&datagram).unwrap();

    // Drain phase: exactly one sample comes out.
    let action = driver.handle_reply(2000, &received, start_secs);
    match action {
        ReplyAction::Publish(sample) => {
            assert_eq!(sample.player_count, 5);
            assert_eq!(sample.player_limit, 20);
            assert_eq!(sample.kind, "raknet");
            assert_eq!(sample.name, "Server");
            assert_eq!(sample.rtt, 1000);
            assert_eq!(sample.time_secs, start_secs + 2);
        },
        other => panic!("expected a sample, got {:?}", other),
    }
    assert_eq!(driver.pending.len(), 0);
}
