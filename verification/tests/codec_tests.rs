use election_core::codec::{decode, encode};
use election_core::message::Message;

fn roundtrip(m: Message) {
    let line = encode(&m);
    let back = decode(line.as_str());
    assert_eq!(back, Some(m));
}

#[test]
fn roundtrip_heartbeat() {
    roundtrip(Message::Heartbeat {
        leader: "10.0.0.1:4000".to_string(),
        term_end_unix: 1_700_000_123_456,
        term: 7,
    });
}

#[test]
fn roundtrip_getcpu() {
    roundtrip(Message::GetCpu {
        term: 3,
        initiator_addr: "n1:9000".to_string(),
        initiator_cpu: 1050,
    });
}

#[test]
fn roundtrip_cpuresp() {
    roundtrip(Message::CpuResp {
        cpu_percent: 0,
        addr: "n2:9000".to_string(),
        term: 0,
    });
}

#[test]
fn roundtrip_announce() {
    roundtrip(Message::LeaderAnnounce {
        leader: "host:1".to_string(),
        term_end_unix: u64::MAX,
        term: u64::MAX,
    });
}

#[test]
fn roundtrip_ping() {
    roundtrip(Message::Ping);
}

#[test]
fn roundtrip_empty_address() {
    roundtrip(Message::Heartbeat {
        leader: String::new(),
        term_end_unix: 0,
        term: 0,
    });
}

#[test]
fn encode_exact_heartbeat() {
    let m = Message::Heartbeat {
        leader: "n1".to_string(),
        term_end_unix: 5,
        term: 2,
    };
    assert_eq!(
        encode(&m),
        "{\"type\":\"Heartbeat\",\"leader\":\"n1\",\"term_end_unix\":5,\"term\":2}\n"
    );
}

#[test]
fn encode_exact_ping() {
    assert_eq!(encode(&Message::Ping), "{\"type\":\"Ping\"}\n");
}

#[test]
fn encode_exact_getcpu() {
    let m = Message::GetCpu {
        term: 10,
        initiator_addr: "a:1".to_string(),
        initiator_cpu: 250,
    };
    assert_eq!(
        encode(&m),
        "{\"type\":\"GetCpu\",\"term\":10,\"initiator_addr\":\"a:1\",\"initiator_cpu\":250}\n"
    );
}

#[test]
fn decode_rejects_garbage() {
    assert_eq!(decode("hello"), None);
    assert_eq!(decode(""), None);
    assert_eq!(decode("{\"type\":\"Vote\",\"term\":1}\n"), None);
}

#[test]
fn decode_rejects_missing_newline() {
    assert_eq!(decode("{\"type\":\"Ping\"}"), None);
    assert_eq!(
        decode("{\"type\":\"Heartbeat\",\"leader\":\"n1\",\"term_end_unix\":5,\"term\":2}"),
        None
    );
}

#[test]
fn decode_rejects_leading_zero() {
    assert_eq!(
        decode("{\"type\":\"Heartbeat\",\"leader\":\"n1\",\"term_end_unix\":05,\"term\":2}\n"),
        None
    );
}

#[test]
fn decode_rejects_number_overflow() {
    // one past u64::MAX
    assert_eq!(
        decode(
            "{\"type\":\"Heartbeat\",\"leader\":\"n1\",\"term_end_unix\":18446744073709551616,\"term\":2}\n"
        ),
        None
    );
    // a load beyond u32
    assert_eq!(
        decode("{\"type\":\"CpuResp\",\"cpu_percent\":4294967296,\"addr\":\"n1\",\"term\":2}\n"),
        None
    );
}

#[test]
fn decode_rejects_unterminated_address() {
    assert_eq!(decode("{\"type\":\"Heartbeat\",\"leader\":\"n1"), None);
}

#[test]
fn decode_rejects_trailing_text() {
    assert_eq!(decode("{\"type\":\"Ping\"}\nextra"), None);
}

#[test]
fn decode_max_values() {
    let line = format!(
        "{{\"type\":\"CpuResp\",\"cpu_percent\":{},\"addr\":\"x\",\"term\":{}}}\n",
        u32::MAX,
        u64::MAX
    );
    assert_eq!(
        decode(&line),
        Some(Message::CpuResp {
            cpu_percent: u32::MAX,
            addr: "x".to_string(),
            term: u64::MAX,
        })
    );
}
