use ping::checksum::{checksum_valid, compute_checksum};
use ping::packet::{IcmpVariant, ICMP_HEADER_SIZE};
use ping::probe::{
    Probe, ProbeAction, ProbeConfig, ProbeError, ProbePhase, DEFAULT_SEQ_CNT, DEFAULT_TIMEOUT_MS,
    DEFAULT_TTL, ECHO_REQUEST_BUFFER_SIZE, TOKEN_SIZE,
};

/// Lays out an Echo Reply of the given variant, checksum filled for V4.
fn make_reply(variant: IcmpVariant, ident: u16, seq_cnt: u16, payload: &[u8]) -> Vec<u8> {
    let mut buffer = vec![0u8; ICMP_HEADER_SIZE + payload.len()];
    buffer[0] = match variant {
        IcmpVariant::V4 => 0,
        IcmpVariant::V6 => 129,
    };
    buffer[4] = (ident >> 8) as u8;
    buffer[5] = (ident & 0xFF) as u8;
    buffer[6] = (seq_cnt >> 8) as u8;
    buffer[7] = (seq_cnt & 0xFF) as u8;
    buffer[8..].copy_from_slice(payload);
    if variant == IcmpVariant::V4 {
        let ck = compute_checksum(&buffer);
        buffer[2] = (ck >> 8) as u8;
        buffer[3] = (ck & 0xFF) as u8;
    }
    buffer
}

/// Wraps an ICMP message in a minimal 20-byte IPv4 header.
fn wrap_ipv4(message: &[u8]) -> Vec<u8> {
    let mut datagram = vec![0u8; 20];
    datagram[0] = 0x45;
    datagram.extend_from_slice(message);
    datagram
}

fn config_with_ident(ident: u16, timeout_ms: u64) -> ProbeConfig {
    ProbeConfig {
        timeout_ms: Some(timeout_ms),
        ttl: None,
        ident: Some(ident),
        seq_cnt: None,
        payload: Some(vec![b'A'; TOKEN_SIZE]),
    }
}

#[test]
fn resolve_fills_defaults() {
    let resolved = ProbeConfig::new().resolve();
    assert_eq!(resolved.timeout_ms, DEFAULT_TIMEOUT_MS);
    assert_eq!(resolved.timeout_ms, 4000);
    assert_eq!(resolved.ttl, DEFAULT_TTL);
    assert_eq!(resolved.ttl, 64);
    assert_eq!(resolved.seq_cnt, DEFAULT_SEQ_CNT);
    assert_eq!(resolved.seq_cnt, 1);
    // The default payload is a freshly drawn 24-byte token.
    assert_eq!(resolved.payload.len(), TOKEN_SIZE);
}

#[test]
fn resolve_keeps_overrides() {
    let cfg = ProbeConfig {
        timeout_ms: Some(250),
        ttl: Some(5),
        ident: Some(0x1234),
        seq_cnt: Some(3),
        payload: Some(vec![7u8; TOKEN_SIZE]),
    };
    let resolved = cfg.resolve();
    assert_eq!(resolved.timeout_ms, 250);
    assert_eq!(resolved.ttl, 5);
    assert_eq!(resolved.ident, 0x1234);
    assert_eq!(resolved.seq_cnt, 3);
    assert_eq!(resolved.payload, vec![7u8; TOKEN_SIZE]);
}

#[test]
fn start_encodes_the_request() {
    let resolved = config_with_ident(0x1234, 4000).resolve();
    let (probe, buffer) = Probe::start(IcmpVariant::V4, &resolved).unwrap();
    assert_eq!(probe.variant, IcmpVariant::V4);
    assert_eq!(probe.ident, 0x1234);
    assert_eq!(probe.timeout_ms, 4000);
    assert_eq!(probe.phase, ProbePhase::Receiving);
    assert_eq!(buffer.len(), ECHO_REQUEST_BUFFER_SIZE);
    assert_eq!(buffer[0], 8);
    assert_eq!(buffer[4], 0x12);
    assert_eq!(buffer[5], 0x34);
    assert_eq!(&buffer[8..], &[b'A'; TOKEN_SIZE]);
    assert!(checksum_valid(&buffer));
}

#[test]
fn identifier_filtering_v6() {
    // Many replies with foreign identifiers arrive first; the probe keeps
    // receiving, then succeeds on the one carrying its own identifier.
    let resolved = config_with_ident(0x55AA, 4000).resolve();
    let (mut probe, _) = Probe::start(IcmpVariant::V6, &resolved).unwrap();
    let payload = [0u8; 24];
    for (step, foreign) in [1u16, 2, 3, 0x55AB].iter().enumerate() {
        let raw = make_reply(IcmpVariant::V6, *foreign, 1, &payload);
        let elapsed = 10 * (step as u64 + 1);
        let action = probe.on_datagram(&raw, elapsed);
        assert_eq!(
            action,
            ProbeAction::Receive {
                deadline_ms: 4000 - elapsed
            }
        );
        assert_eq!(probe.phase, ProbePhase::Receiving);
    }
    let own = make_reply(IcmpVariant::V6, 0x55AA, 1, &payload);
    let action = probe.on_datagram(&own, 100);
    assert_eq!(action, ProbeAction::Succeed);
    assert_eq!(probe.phase, ProbePhase::Matched);
}

#[test]
fn identifier_filtering_v4_with_outer_header() {
    let resolved = config_with_ident(0x0A0B, 1000).resolve();
    let (mut probe, _) = Probe::start(IcmpVariant::V4, &resolved).unwrap();
    let payload = [0u8; 24];
    let foreign = wrap_ipv4(&make_reply(IcmpVariant::V4, 0x0A0C, 1, &payload));
    assert_eq!(
        probe.on_datagram(&foreign, 10),
        ProbeAction::Receive { deadline_ms: 990 }
    );
    // A datagram that is no Echo Reply at all (an Echo Request, say) is skipped
    // as well.
    let mut not_a_reply = make_reply(IcmpVariant::V4, 0x0A0B, 1, &payload);
    not_a_reply[0] = 8;
    let wrapped = wrap_ipv4(&not_a_reply);
    assert_eq!(
        probe.on_datagram(&wrapped, 20),
        ProbeAction::Receive { deadline_ms: 980 }
    );
    let own = wrap_ipv4(&make_reply(IcmpVariant::V4, 0x0A0B, 1, &payload));
    assert_eq!(probe.on_datagram(&own, 30), ProbeAction::Succeed);
    assert_eq!(probe.phase, ProbePhase::Matched);
}

#[test]
fn corrupt_outer_header_is_fatal() {
    let resolved = config_with_ident(1, 1000).resolve();
    let (mut probe, _) = Probe::start(IcmpVariant::V4, &resolved).unwrap();
    // Declares a 60-byte header in a one-byte datagram.
    let datagram = vec![0x4Fu8];
    let action = probe.on_datagram(&datagram, 10);
    assert_eq!(
        action,
        ProbeAction::Fail {
            error: ProbeError::DecodeV4
        }
    );
    assert_eq!(probe.phase, ProbePhase::Faulted);
}

#[test]
fn deadline_shrinks_and_never_goes_negative() {
    let resolved = config_with_ident(1, 4000).resolve();
    let (probe, _) = Probe::start(IcmpVariant::V6, &resolved).unwrap();
    assert_eq!(probe.deadline(0), 4000);
    assert_eq!(probe.deadline(1500), 2500);
    assert_eq!(probe.deadline(4000), 0);
    assert_eq!(probe.deadline(9999), 0);
}

#[test]
fn timeout_on_spent_budget_and_never_earlier() {
    let payload = [0u8; 24];
    let resolved = config_with_ident(9, 1000).resolve();
    let (mut probe, _) = Probe::start(IcmpVariant::V6, &resolved).unwrap();
    // A foreign reply one millisecond before the deadline: keep receiving.
    let foreign = make_reply(IcmpVariant::V6, 10, 1, &payload);
    assert_eq!(
        probe.on_datagram(&foreign, 999),
        ProbeAction::Receive { deadline_ms: 1 }
    );
    // A foreign reply at the deadline: timed out, not a moment earlier.
    let action = probe.on_datagram(&foreign, 1000);
    assert_eq!(
        action,
        ProbeAction::Fail {
            error: ProbeError::TimedOut
        }
    );
    assert_eq!(probe.phase, ProbePhase::TimedOut);
}

#[test]
fn receive_timeout_falls_through_to_the_clock() {
    // A transport receive timeout before the budget is spent re-enters the
    // loop with the remaining budget; at or past the budget it times out.
    let resolved = config_with_ident(9, 1000).resolve();
    let (mut probe, _) = Probe::start(IcmpVariant::V6, &resolved).unwrap();
    assert_eq!(
        probe.on_recv_timeout(400),
        ProbeAction::Receive { deadline_ms: 600 }
    );
    assert_eq!(probe.phase, ProbePhase::Receiving);
    let action = probe.on_recv_timeout(1000);
    assert_eq!(
        action,
        ProbeAction::Fail {
            error: ProbeError::TimedOut
        }
    );
    assert_eq!(probe.phase, ProbePhase::TimedOut);
}

#[test]
fn transport_fault_is_fatal() {
    let resolved = config_with_ident(9, 1000).resolve();
    let (mut probe, _) = Probe::start(IcmpVariant::V6, &resolved).unwrap();
    let action = probe.on_recv_fault();
    assert_eq!(
        action,
        ProbeAction::Fail {
            error: ProbeError::Transport
        }
    );
    assert_eq!(probe.phase, ProbePhase::Faulted);
}

#[test]
fn end_to_end_probe_matches_its_own_fields() {
    // Encode a request with identifier 0x1234, sequence 1, payload "A" * 24,
    // then feed back a reply carrying the very same fields.
    let cfg = ProbeConfig {
        timeout_ms: None,
        ttl: None,
        ident: Some(0x1234),
        seq_cnt: Some(1),
        payload: Some(vec![b'A'; TOKEN_SIZE]),
    };
    let resolved = cfg.resolve();
    let (mut probe, request_bytes) = Probe::start(IcmpVariant::V4, &resolved).unwrap();
    assert!(checksum_valid(&request_bytes));
    let reply = wrap_ipv4(&make_reply(IcmpVariant::V4, 0x1234, 1, &[b'A'; 24]));
    assert_eq!(probe.on_datagram(&reply, 5), ProbeAction::Succeed);
    assert_eq!(probe.phase, ProbePhase::Matched);
}

#[test]
fn deadline_sum_never_exceeds_timeout() {
    // A target that never replies: every receive blocks for its whole deadline,
    // and the deadlines handed out sum to exactly the configured timeout.
    let resolved = config_with_ident(9, 1000).resolve();
    let (mut probe, _) = Probe::start(IcmpVariant::V6, &resolved).unwrap();
    let mut elapsed = 0u64;
    let mut sum = 0u64;
    loop {
        let deadline = probe.deadline(elapsed);
        sum += deadline;
        elapsed += deadline;
        match probe.on_recv_timeout(elapsed) {
            ProbeAction::Receive { .. } => continue,
            ProbeAction::Fail { error } => {
                assert_eq!(error, ProbeError::TimedOut);
                break;
            }
            ProbeAction::Succeed => panic!("no reply was fed"),
        }
    }
    assert_eq!(sum, 1000);
}
