use engine_bridge::addr::IpAddress;
use engine_bridge::device::ring::TunDevice;
use engine_bridge::device::{
    parse_packet_validated, ParsedPacket, TcpFlags, TcpPacket, UdpPacket, DEFAULT_MTU,
};
use engine_bridge::flow_manager::batch::CallbackBatch;
use engine_bridge::flow_manager::checksum::{ones_complement, tcp_ipv4};
use engine_bridge::flow_manager::maintenance::PruneRule;
use engine_bridge::flow_manager::state::{
    dial_backoff_delay, FlowKind, FlowLimits, SocketBudget, MAX_BUFFERED_PAYLOADS,
    MAX_DIAL_ATTEMPTS,
};
use engine_bridge::flow_manager::{FlowManager, Tick};
use engine_bridge::policy::{PolicyManager, RuleAction, ShapingConfig};
use engine_bridge::telemetry::{
    PacketDirection, Telemetry, TELEMETRY_FLAG_DNS_RESPONSE, TELEMETRY_FLAG_POLICY_BLOCK,
    TELEMETRY_FLAG_POLICY_SHAPE,
};
use smoltcp::iface::{Config, Interface};
use smoltcp::phy::{Device, DeviceCapabilities, Medium, RxToken, TxToken};
use smoltcp::time::Instant;
use smoltcp::wire::{HardwareAddress, IpAddress as StackAddress, IpCidr, Ipv4Address, Ipv6Address};

const DEFAULT_DNS_TTL_SECONDS: u32 = 60;

#[derive(Default)]
struct TestHarness {
    dns: Vec<(String, Vec<String>, u32)>,
    dials: Vec<(FlowKind, String, u16, u64)>,
    closes: Vec<(FlowKind, u64, String)>,
    frames: Vec<Vec<u8>>,
    tcp_sends: Vec<(u64, Vec<u8>)>,
    udp_sends: Vec<(u64, Vec<u8>)>,
}

impl TestHarness {
    fn execute(&mut self, batch: CallbackBatch) {
        self.frames.extend(batch.frames);
        for dial in batch.dials {
            self.dials.push((dial.kind, dial.host, dial.port, dial.handle));
        }
        for send in batch.tcp_sends {
            self.tcp_sends.push((send.handle, send.payload));
        }
        for send in batch.udp_sends {
            self.udp_sends.push((send.handle, send.payload));
        }
        for close in batch.closes {
            self.closes.push((close.kind, close.handle, close.reason));
        }
        for record in batch.dns_records {
            self.dns.push((record.host, record.addresses, record.ttl_seconds));
        }
    }
}

struct Engine {
    manager: FlowManager,
    policy: PolicyManager,
    telemetry: Telemetry,
    harness: TestHarness,
    now: u64,
}

impl Engine {
    fn new() -> Engine {
        Engine::with_budget(SocketBudget::default())
    }

    fn with_budget(budget: SocketBudget) -> Engine {
        assert!(budget.is_valid());
        Engine {
            manager: FlowManager::new(budget, FlowLimits::desktop()),
            policy: PolicyManager::new(),
            telemetry: Telemetry::new(),
            harness: TestHarness::default(),
            now: 1_000,
        }
    }

    fn with_callbacks() -> Engine {
        let mut engine = Engine::new();
        engine.manager.install_callbacks();
        engine
    }

    fn tick(&self) -> Tick {
        Tick { now_ms: self.now, unix_ms: 1_700_000_000_000 + self.now }
    }

    fn settle(&mut self) {
        let batch = self.manager.take_batch();
        self.harness.execute(batch);
    }

    fn process(&mut self, packet: &ParsedPacket<'_>) {
        let tick = self.tick();
        self.manager.process_packet(packet, &mut self.policy, &mut self.telemetry, tick);
        self.settle();
    }

    fn poll(&mut self, frames: Vec<Vec<u8>>) -> bool {
        let tick = self.tick();
        let (did_work, batch) =
            self.manager.poll(false, frames, &mut self.policy, &mut self.telemetry, tick);
        self.harness.execute(batch);
        did_work
    }

    fn dial_result(&mut self, handle: u64, success: bool, reason: Option<&str>) {
        self.manager.on_dial_result(handle, success, reason, self.now);
        self.settle();
    }

    fn tcp_receive(&mut self, handle: u64, payload: &[u8]) -> bool {
        let tick = self.tick();
        let accepted =
            self.manager.on_tcp_receive(handle, payload, &mut self.policy, &mut self.telemetry, tick);
        self.settle();
        accepted
    }

    fn udp_receive(&mut self, handle: u64, payload: &[u8]) -> bool {
        let tick = self.tick();
        let accepted =
            self.manager.on_udp_receive(handle, payload, &mut self.policy, &mut self.telemetry, tick);
        self.settle();
        accepted
    }

    fn first_handle(&self) -> u64 {
        self.manager.flows.first().expect("expected flow handle").handle
    }
}

fn tcp_syn<'a>(src: IpAddress, src_port: u16, dst: IpAddress, dst_port: u16) -> ParsedPacket<'a> {
    ParsedPacket::Tcp(TcpPacket {
        src,
        dst,
        src_port,
        dst_port,
        seq_number: 1,
        ack_number: 0,
        payload: &[],
        flags: TcpFlags::default(),
    })
}

fn build_dns_response(host: &str, addr: [u8; 4], ttl: u32) -> Vec<u8> {
    let mut payload = Vec::new();
    payload.extend_from_slice(&[0x00, 0x01]);
    payload.extend_from_slice(&[0x81, 0x80]);
    payload.extend_from_slice(&[0x00, 0x01]);
    payload.extend_from_slice(&[0x00, 0x01]);
    payload.extend_from_slice(&[0x00, 0x00]);
    payload.extend_from_slice(&[0x00, 0x00]);
    for label in host.split('.') {
        payload.push(label.len() as u8);
        payload.extend_from_slice(label.as_bytes());
    }
    payload.push(0);
    payload.extend_from_slice(&[0x00, 0x01, 0x00, 0x01]);
    payload.extend_from_slice(&[0xC0, 0x0C]);
    payload.extend_from_slice(&[0x00, 0x01, 0x00, 0x01]);
    payload.extend_from_slice(&ttl.to_be_bytes());
    payload.extend_from_slice(&[0x00, 0x04]);
    payload.extend_from_slice(&addr);
    payload
}

fn dns_packets_emit_mappings_body() {
    let mut engine = Engine::with_callbacks();
    let payload = build_dns_response("example.com", [203, 0, 113, 5], 120);
    let udp_packet = UdpPacket {
        src: IpAddress::v4(8, 8, 8, 8),
        dst: IpAddress::v4(10, 0, 0, 2),
        src_port: 53,
        dst_port: 1000,
        payload: payload.as_slice(),
    };
    let packet = ParsedPacket::Udp(udp_packet);
    engine.process(&packet);

    let entries = &engine.harness.dns;
    assert_eq!(entries.len(), 1);
    let (host, addresses, ttl) = &entries[0];
    assert_eq!(host, "example.com");
    assert_eq!(addresses, &["203.0.113.5".to_string()]);
    assert_eq!(*ttl, 120);
}

#[test]
fn tests_dns_packets_emit_mappings() {
    dns_packets_emit_mappings_body();
}

#[test]
fn flow_manager_dns_packets_emit_mappings() {
    dns_packets_emit_mappings_body();
}

fn tcp_dial_retries_eventually_close_flow_body() {
    let mut engine = Engine::with_callbacks();
    engine.process(&tcp_syn(IpAddress::v4(10, 0, 0, 2), 1000, IpAddress::v4(203, 0, 113, 7), 443));
    engine.now += 10;
    engine.poll(Vec::new());

    assert!(!engine.harness.dials.is_empty());
    let recorded_handle = engine.harness.dials[0].3;
    let handle = engine.first_handle();
    assert_eq!(handle, recorded_handle);
    assert_eq!(engine.harness.dials[0].0, FlowKind::Tcp);
    assert_eq!(engine.harness.dials[0].1, "203.0.113.7");
    assert_eq!(engine.harness.dials[0].2, 443);

    for attempt in 0..MAX_DIAL_ATTEMPTS {
        engine.dial_result(handle, false, Some("network_down"));
        if attempt < MAX_DIAL_ATTEMPTS - 1 {
            let expected = (attempt as usize) + 2;
            // No dial goes out before the back-off has passed.
            engine.now += dial_backoff_delay(attempt + 1) - 1;
            engine.poll(Vec::new());
            assert_eq!(engine.harness.dials.len(), expected - 1);
            engine.now += 1;
            engine.poll(Vec::new());
            assert!(engine.harness.dials.len() >= expected);
        }
    }

    engine.poll(Vec::new());
    let closes = &engine.harness.closes;
    assert_eq!(closes.len(), 1);
    assert_eq!(closes[0].0, FlowKind::Tcp);
    assert_eq!(closes[0].1, handle);
    assert_eq!(closes[0].2, "network_down");
    assert_eq!(engine.harness.dials.len(), 3);
    assert!(engine.manager.flows.is_empty());
    assert_eq!(engine.manager.memory.current_usage, 0);
}

#[test]
fn tests_tcp_dial_retries_eventually_close_flow() {
    tcp_dial_retries_eventually_close_flow_body();
}

#[test]
fn flow_manager_tcp_dial_retries_eventually_close_flow() {
    tcp_dial_retries_eventually_close_flow_body();
}

fn remote_payloads_buffer_until_dial_ready_body() {
    let mut engine = Engine::with_callbacks();
    engine.process(&tcp_syn(IpAddress::v4(10, 0, 0, 2), 5000, IpAddress::v4(203, 0, 113, 9), 443));
    let handle = engine.first_handle();

    // Remote payload arrives before dial ready: it is buffered.
    let payload = vec![1u8, 2, 3, 4];
    {
        let entry = engine.manager.flow(handle).expect("flow entry missing");
        assert!(entry.pending_dial);
        assert!(entry.dial_started_at.is_some());
    }
    assert!(engine.tcp_receive(handle, &payload));
    {
        let entry = engine.manager.flow(handle).expect("flow entry missing");
        assert_eq!(entry.buffered.len(), 1);
        assert_eq!(entry.buffered.bytes(), payload.len());
        assert!(!entry.ready);
    }

    // Mark dial ready; this attempts to flush the buffered payloads. The
    // socket is not connected, so the payload stays buffered.
    engine.dial_result(handle, true, None);
    if let Some(entry) = engine.manager.flow(handle) {
        assert!(entry.ready, "entry should be marked ready after successful dial");
        assert!(!entry.pending_dial);
        assert!(entry.dial_started_at.is_none());
        assert_eq!(entry.buffered.len(), 1);
    }
}

#[test]
fn tests_remote_payloads_buffer_until_dial_ready() {
    remote_payloads_buffer_until_dial_ready_body();
}

#[test]
fn flow_manager_remote_payloads_buffer_until_dial_ready() {
    remote_payloads_buffer_until_dial_ready_body();
}

#[test]
fn policy_block_prevents_tcp_flow() {
    let mut engine = Engine::new();
    engine.policy.install_rule("*.blocked.test", RuleAction::Block);
    let target_ip = IpAddress::v4(203, 0, 113, 55);
    engine.policy.observe_dns_mapping("api.blocked.test", &[target_ip], None, engine.now);

    engine.process(&tcp_syn(IpAddress::v4(10, 0, 0, 9), 4000, target_ip, 443));
    assert!(engine.manager.flows.is_empty());
    let (events, _) = engine.telemetry.drain(16);
    assert!(
        events
            .iter()
            .any(|event| event.flags & TELEMETRY_FLAG_POLICY_BLOCK != 0),
        "expected policy block telemetry"
    );
}

#[test]
fn policy_shape_attaches_config_to_flow() {
    let mut engine = Engine::new();
    let shaping = ShapingConfig { latency_ms: 125, jitter_ms: 15 };
    engine.policy.install_rule("video.example.com", RuleAction::Shape(shaping));
    let target_ip = IpAddress::v4(198, 51, 100, 77);
    engine.policy.observe_dns_mapping("video.example.com", &[target_ip], Some(120), engine.now);

    let udp_packet = UdpPacket {
        src: IpAddress::v4(10, 0, 0, 5),
        dst: target_ip,
        src_port: 5353,
        dst_port: 9000,
        payload: &[1, 2, 3, 4],
    };

    engine.process(&ParsedPacket::Udp(udp_packet));
    assert_eq!(engine.manager.flows.len(), 1);
    let entry = engine.manager.flows.first().expect("flow entry missing");
    assert_eq!(entry.shaping.as_ref().map(|s| s.config), Some(shaping));

    let (events, _) = engine.telemetry.drain(16);
    assert!(
        events
            .iter()
            .any(|event| event.flags & TELEMETRY_FLAG_POLICY_SHAPE != 0),
        "expected policy shape telemetry"
    );
}

#[test]
fn shaping_queue_delays_remote_payload_delivery() {
    let mut engine = Engine::with_callbacks();
    let shaping = ShapingConfig { latency_ms: 0, jitter_ms: 0 };
    engine.policy.install_rule("delay.example", RuleAction::Shape(shaping));
    let target_ip = IpAddress::v4(198, 18, 0, 42);
    engine.policy.observe_dns_mapping("delay.example", &[target_ip], None, engine.now);

    let udp_packet = UdpPacket {
        src: IpAddress::v4(10, 0, 0, 8),
        dst: target_ip,
        src_port: 5500,
        dst_port: 8080,
        payload: &[0; 0],
    };
    engine.process(&ParsedPacket::Udp(udp_packet));
    let handle = engine.first_handle();
    engine.dial_result(handle, true, None);
    let payload = vec![9u8, 8, 7];
    let tick = engine.tick();
    assert!(engine.manager.forward_remote_payload(
        handle,
        &payload,
        FlowKind::Udp,
        &mut engine.policy,
        &mut engine.telemetry,
        tick
    ));
    engine.settle();
    {
        let entry = engine.manager.flow(handle).expect("flow missing");
        let shaper = entry.shaping.as_ref().expect("shaper missing");
        assert!(shaper.has_pending());
    }
    assert!(engine.harness.frames.is_empty());
    engine.manager.drain_shaping_queues(&mut engine.policy, &mut engine.telemetry, tick);
    engine.settle();
    {
        let entry = engine.manager.flow(handle).expect("flow missing");
        let shaper = entry.shaping.as_ref().expect("shaper missing");
        assert!(!shaper.has_pending());
    }
    // The datagram for the client was emitted with the flow turned around.
    assert_eq!(engine.harness.frames.len(), 1);
    let frame = &engine.harness.frames[0];
    match parse_packet_validated(frame) {
        Ok(ParsedPacket::Udp(udp)) => {
            assert_eq!(udp.src, target_ip);
            assert_eq!(udp.dst, IpAddress::v4(10, 0, 0, 8));
            assert_eq!(udp.src_port, 8080);
            assert_eq!(udp.dst_port, 5500);
            assert_eq!(udp.payload, &[9, 8, 7]);
        }
        other => panic!("expected udp, got {:?}", other),
    }
    let mut pseudo = vec![198, 18, 0, 42, 10, 0, 0, 8, 0, 17, 0, 11];
    pseudo.extend_from_slice(&frame[20..]);
    assert_eq!(ones_complement(0, &pseudo), 0);
}

#[test]
fn shaped_payloads_wait_for_their_latency() {
    let mut engine = Engine::with_callbacks();
    let shaping = ShapingConfig { latency_ms: 200, jitter_ms: 50 };
    engine.policy.install_rule("198.18.0.43", RuleAction::Shape(shaping));
    let target_ip = IpAddress::v4(198, 18, 0, 43);
    let udp_packet = UdpPacket {
        src: IpAddress::v4(10, 0, 0, 8),
        dst: target_ip,
        src_port: 5500,
        dst_port: 8080,
        payload: &[],
    };
    engine.process(&ParsedPacket::Udp(udp_packet));
    let handle = engine.first_handle();
    engine.dial_result(handle, true, None);
    assert!(engine.udp_receive(handle, &[1, 2, 3]));
    engine.now += 199;
    engine.poll(Vec::new());
    assert!(engine.harness.frames.is_empty());
    engine.now += 51;
    engine.poll(Vec::new());
    assert_eq!(engine.harness.frames.len(), 1);
}

#[test]
fn telemetry_records_network_to_client_payloads() {
    let mut engine = Engine::with_callbacks();
    let udp_packet = UdpPacket {
        src: IpAddress::v4(10, 0, 0, 8),
        dst: IpAddress::v4(203, 0, 113, 12),
        src_port: 1234,
        dst_port: 4321,
        payload: &[1, 2, 3],
    };
    engine.process(&ParsedPacket::Udp(udp_packet));
    let handle = engine.first_handle();
    engine.dial_result(handle, true, None);
    // The payload of the first datagram went to the host with the dial.
    assert_eq!(engine.harness.udp_sends, vec![(handle, vec![1u8, 2, 3])]);
    let payload = vec![9u8, 8, 7, 6];
    assert!(engine.udp_receive(handle, &payload));
    let (events, _) = engine.telemetry.drain(8);
    assert!(events
        .iter()
        .any(|event| event.direction == PacketDirection::NetworkToClient
            && event.payload_len == payload.len() as u32));
}

#[test]
fn dns_response_updates_policy_and_telemetry() {
    let mut engine = Engine::with_callbacks();
    engine.policy.install_rule("*.blocked.test", RuleAction::Block);

    // Take in a DNS flow and mark it ready.
    let dns_query = UdpPacket {
        src: IpAddress::v4(10, 0, 0, 9),
        dst: IpAddress::v4(1, 1, 1, 1),
        src_port: 12345,
        dst_port: 53,
        payload: &[0u8; 0],
    };
    engine.process(&ParsedPacket::Udp(dns_query));
    let handle = engine.first_handle();
    engine.dial_result(handle, true, None);

    // Feed a DNS response from the network side.
    let response =
        build_dns_response("api.blocked.test", [203, 0, 113, 99], DEFAULT_DNS_TTL_SECONDS);
    assert!(engine.udp_receive(handle, &response));

    // Policy should now map the resolved IP to the blocked host.
    let decision = engine
        .policy
        .decision_for_ip(&IpAddress::v4(203, 0, 113, 99), engine.now)
        .expect("expected decision");
    assert_eq!(decision.host, "api.blocked.test");

    // Telemetry should mark the DNS response.
    let (events, _) = engine.telemetry.drain(4);
    assert!(
        events
            .iter()
            .any(|event| event.flags & TELEMETRY_FLAG_DNS_RESPONSE != 0
                && event.dns_qname.as_deref() == Some("api.blocked.test")),
        "expected DNS response telemetry"
    );
    assert_eq!(
        engine.harness.dns,
        vec![("api.blocked.test".to_string(), vec!["203.0.113.99".to_string()], 60)]
    );
}

#[test]
fn blocked_tcp_flow_is_answered_with_a_reset() {
    let mut engine = Engine::with_callbacks();
    engine.policy.install_rule("*.blocked.test", RuleAction::Block);
    let response = build_dns_response("api.blocked.test", [203, 0, 113, 55], 60);
    engine.process(&ParsedPacket::Udp(UdpPacket {
        src: IpAddress::v4(8, 8, 8, 8),
        dst: IpAddress::v4(10, 0, 0, 2),
        src_port: 53,
        dst_port: 3333,
        payload: &response,
    }));
    let flows_before = engine.manager.flows.len();
    let _ = engine.telemetry.drain(100);
    engine.harness.frames.clear();
    let syn = TcpPacket {
        src: IpAddress::v4(10, 0, 0, 2),
        dst: IpAddress::v4(203, 0, 113, 55),
        src_port: 4000,
        dst_port: 443,
        seq_number: 41,
        ack_number: 0,
        payload: &[],
        flags: TcpFlags { syn: true, ack: false, fin: false, rst: false },
    };
    engine.process(&ParsedPacket::Tcp(syn));
    assert_eq!(engine.manager.flows.len(), flows_before);
    assert_eq!(engine.harness.frames.len(), 1);
    match parse_packet_validated(&engine.harness.frames[0]) {
        Ok(ParsedPacket::Tcp(reset)) => {
            assert!(reset.flags.rst && reset.flags.ack);
            assert_eq!(reset.src_port, 443);
            assert_eq!(reset.dst_port, 4000);
            assert_eq!(reset.ack_number, 42);
        }
        other => panic!("expected tcp, got {:?}", other),
    }
    let (events, _) = engine.telemetry.drain(16);
    assert!(events.iter().any(|event| event.flags & TELEMETRY_FLAG_POLICY_BLOCK != 0
        && event.dns_qname.as_deref() == Some("api.blocked.test")));
}

#[test]
fn blocked_udp_flow_is_answered_with_icmp() {
    let mut engine = Engine::with_callbacks();
    engine.policy.install_rule("198.51.100.1", RuleAction::Block);
    engine.process(&ParsedPacket::Udp(UdpPacket {
        src: IpAddress::v4(10, 0, 0, 2),
        dst: IpAddress::v4(198, 51, 100, 1),
        src_port: 4000,
        dst_port: 9999,
        payload: &[1, 2, 3],
    }));
    assert!(engine.manager.flows.is_empty());
    assert_eq!(engine.harness.frames.len(), 1);
    assert_eq!(engine.harness.frames[0][9], 1);
    assert_eq!(engine.harness.frames[0][20], 3);
    assert_eq!(engine.harness.frames[0][21], 13);
}

#[test]
fn buffer_keeps_the_latest_payloads() {
    let mut engine = Engine::with_callbacks();
    engine.process(&tcp_syn(IpAddress::v4(10, 0, 0, 2), 5000, IpAddress::v4(203, 0, 113, 9), 443));
    let handle = engine.first_handle();
    for i in 0..=(MAX_BUFFERED_PAYLOADS as u8) {
        assert!(engine.tcp_receive(handle, &[i, i]));
    }
    let entry = engine.manager.flow(handle).expect("flow");
    assert_eq!(entry.buffered.len(), MAX_BUFFERED_PAYLOADS);
    assert_eq!(entry.buffered.bytes(), 2 * MAX_BUFFERED_PAYLOADS);
    assert_eq!(entry.buffered.peek_front(), Some(vec![1u8, 1]));
    // A payload over the byte limit is refused, an empty one accepted.
    assert!(!engine.tcp_receive(handle, &vec![0u8; 64 * 1024 + 1]));
    assert!(engine.tcp_receive(handle, &[]));
    assert_eq!(engine.manager.flow(handle).expect("flow").buffered.len(), MAX_BUFFERED_PAYLOADS);
    assert!(!engine.tcp_receive(handle + 1, &[1]));
    assert!(!engine.udp_receive(handle, &[1]));
}

#[test]
fn memory_accounting_follows_the_flows() {
    let budget = SocketBudget::from_config(0, 0, 0, 0);
    assert_eq!(budget.tcp_socket_cost(), 16 * 1024 + 32 * 1024);
    assert_eq!(budget.udp_socket_cost(), 2 * 16 * 1024 + 512);
    let mut engine = Engine::with_callbacks();
    engine.process(&tcp_syn(IpAddress::v4(10, 0, 0, 2), 5000, IpAddress::v4(203, 0, 113, 9), 443));
    engine.process(&tcp_syn(IpAddress::v4(10, 0, 0, 2), 5001, IpAddress::v4(203, 0, 113, 9), 443));
    engine.process(&ParsedPacket::Udp(UdpPacket {
        src: IpAddress::v4(10, 0, 0, 2),
        dst: IpAddress::v4(203, 0, 113, 9),
        src_port: 5000,
        dst_port: 443,
        payload: &[1],
    }));
    assert_eq!(engine.manager.flows.len(), 3);
    let handles: Vec<u64> = engine.manager.flows.iter().map(|f| f.handle).collect();
    assert_eq!(handles, vec![1, 2, 3]);
    assert_eq!(engine.manager.memory.tcp_socket_count, 2);
    assert_eq!(engine.manager.memory.udp_socket_count, 1);
    assert_eq!(
        engine.manager.memory.current_usage,
        2 * budget.tcp_socket_cost() + budget.udp_socket_cost()
    );
    // A packet of a known flow opens nothing.
    engine.process(&tcp_syn(IpAddress::v4(10, 0, 0, 2), 5000, IpAddress::v4(203, 0, 113, 9), 443));
    assert_eq!(engine.manager.flows.len(), 3);
    engine.manager.on_tcp_send_failed(2, Some("broken pipe"));
    assert!(engine.manager.flow(2).is_none());
    assert_eq!(
        engine.manager.memory.current_usage,
        budget.tcp_socket_cost() + budget.udp_socket_cost()
    );
    engine.manager.on_udp_close(3);
    engine.manager.on_udp_send_failed(3, None);
    assert_eq!(engine.manager.memory.current_usage, budget.tcp_socket_cost());
    assert_eq!(engine.manager.flows.len(), 1);
    // Handles are not given out again.
    engine.process(&tcp_syn(IpAddress::v4(10, 0, 0, 2), 5002, IpAddress::v4(203, 0, 113, 9), 443));
    assert_eq!(engine.manager.flows.last().map(|f| f.handle), Some(4));
}

#[test]
fn admission_fails_when_the_budget_is_spent() {
    let budget = SocketBudget::from_config(100_000, 0, 0, 0);
    let mut engine = Engine::with_budget(budget);
    engine.manager.install_callbacks();
    for port in 0..3u16 {
        engine.process(&ParsedPacket::Tcp(TcpPacket {
            src: IpAddress::v4(10, 0, 0, 2),
            dst: IpAddress::v4(203, 0, 113, 9),
            src_port: 6000 + port,
            dst_port: 443,
            seq_number: 9,
            ack_number: 0,
            payload: &[],
            flags: TcpFlags { syn: true, ack: false, fin: false, rst: false },
        }));
    }
    assert_eq!(engine.manager.flows.len(), 2);
    assert_eq!(engine.manager.counters().tcp_admission_fail, 1);
    assert_eq!(engine.harness.frames.len(), 1);
    engine.process(&ParsedPacket::Udp(UdpPacket {
        src: IpAddress::v4(10, 0, 0, 2),
        dst: IpAddress::v4(203, 0, 113, 9),
        src_port: 5000,
        dst_port: 443,
        payload: &[1],
    }));
    assert_eq!(engine.manager.counters().udp_admission_fail, 1);
    assert_eq!(engine.harness.frames.len(), 2);
    assert_eq!(engine.manager.memory.current_usage, 2 * (16 * 1024 + 32 * 1024));
}

#[test]
fn flows_are_reaped_when_their_time_is_up() {
    let mut engine = Engine::with_callbacks();
    engine.process(&tcp_syn(IpAddress::v4(10, 0, 0, 2), 5000, IpAddress::v4(203, 0, 113, 9), 443));
    engine.process(&ParsedPacket::Udp(UdpPacket {
        src: IpAddress::v4(10, 0, 0, 2),
        dst: IpAddress::v4(203, 0, 113, 9),
        src_port: 5000,
        dst_port: 53,
        payload: &[],
    }));
    engine.process(&ParsedPacket::Udp(UdpPacket {
        src: IpAddress::v4(10, 0, 0, 2),
        dst: IpAddress::v4(203, 0, 113, 9),
        src_port: 5001,
        dst_port: 53,
        payload: &[],
    }));
    engine.dial_result(2, true, None);
    // Nothing is reaped before its time.
    engine.now += 9_999;
    engine.poll(Vec::new());
    assert!(engine.harness.closes.is_empty());
    engine.now += 1;
    engine.poll(Vec::new());
    assert_eq!(engine.harness.closes, vec![(FlowKind::Udp, 2, "udp_idle_timeout".to_string())]);
    engine.now += 4_999;
    assert!(!engine.manager.prune(PruneRule::StaleTcp, engine.now));
    engine.now += 1;
    engine.poll(Vec::new());
    assert_eq!(engine.harness.closes[1], (FlowKind::Tcp, 1, "connection_timeout".to_string()));
    engine.now += 14_999;
    engine.poll(Vec::new());
    assert_eq!(engine.harness.closes.len(), 2);
    engine.now += 1;
    engine.poll(Vec::new());
    assert_eq!(engine.harness.closes[2], (FlowKind::Udp, 3, "dial_timeout".to_string()));
    assert!(engine.manager.flows.is_empty());
    assert_eq!(engine.manager.memory.current_usage, 0);
}

#[test]
fn nothing_is_collected_without_callbacks() {
    let mut engine = Engine::new();
    engine.process(&tcp_syn(IpAddress::v4(10, 0, 0, 2), 5000, IpAddress::v4(203, 0, 113, 9), 443));
    assert_eq!(engine.manager.flows.len(), 1);
    assert!(!engine.manager.flows[0].pending_dial);
    assert!(!engine.poll(vec![vec![1, 2, 3]]));
    assert!(engine.harness.dials.is_empty());
    engine.manager.install_callbacks();
    assert!(engine.poll(vec![vec![1, 2, 3]]));
    assert_eq!(engine.harness.dials.len(), 1);
    assert_eq!(engine.harness.frames, vec![vec![1u8, 2, 3]]);
    assert_eq!(engine.manager.stats().poll_iterations, 1);
    assert_eq!(engine.manager.stats().frames_emitted, 1);
    assert_eq!(engine.manager.stats().bytes_emitted, 3);
}

#[test]
fn dial_backoff_doubles_up_to_a_cap() {
    assert_eq!(dial_backoff_delay(0), 50);
    assert_eq!(dial_backoff_delay(1), 50);
    assert_eq!(dial_backoff_delay(2), 100);
    assert_eq!(dial_backoff_delay(3), 200);
    assert_eq!(dial_backoff_delay(4), 400);
    assert_eq!(dial_backoff_delay(5), 800);
    assert_eq!(dial_backoff_delay(255), 800);
}

// ---- The embedded stack, driven as the host's poll loop drives it. ----

struct StackDevice {
    ring: TunDevice,
}

struct StackRx(Vec<u8>);

struct StackTx<'a>(&'a mut TunDevice);

impl RxToken for StackRx {
    fn consume<R, F>(mut self, f: F) -> R
    where
        F: FnOnce(&mut [u8]) -> R,
    {
        f(&mut self.0)
    }
}

impl<'a> TxToken for StackTx<'a> {
    fn consume<R, F>(self, len: usize, f: F) -> R
    where
        F: FnOnce(&mut [u8]) -> R,
    {
        let mut frame = vec![0u8; self.0.tx_frame_len(len)];
        let result = f(&mut frame);
        self.0.transmit(frame);
        result
    }
}

impl Device for StackDevice {
    type RxToken<'a> = StackRx where Self: 'a;
    type TxToken<'a> = StackTx<'a> where Self: 'a;

    fn receive(&mut self, _timestamp: Instant) -> Option<(Self::RxToken<'_>, Self::TxToken<'_>)> {
        let frame = self.ring.receive()?.consume();
        Some((StackRx(frame), StackTx(&mut self.ring)))
    }

    fn transmit(&mut self, _timestamp: Instant) -> Option<Self::TxToken<'_>> {
        Some(StackTx(&mut self.ring))
    }

    fn capabilities(&self) -> DeviceCapabilities {
        let mut caps = DeviceCapabilities::default();
        caps.max_transmission_unit = self.ring.mtu();
        caps.medium = Medium::Ip;
        caps
    }
}

fn build_interface(device: &mut StackDevice) -> Interface {
    let ipv4_addr = Ipv4Address::new(10, 0, 0, 1);
    let ipv6_addr = Ipv6Address::new(0xfd00, 0, 0, 0, 0, 0, 0, 1);
    let mut config = Config::new(HardwareAddress::Ip);
    config.random_seed = 0;
    let mut interface = Interface::new(config, device, Instant::from_millis(0));
    interface.set_any_ip(true);
    interface.update_ip_addrs(|ip_addrs| {
        ip_addrs.clear();
        let _ = ip_addrs.push(IpCidr::new(StackAddress::Ipv4(ipv4_addr), 24));
        let _ = ip_addrs.push(IpCidr::new(StackAddress::Ipv6(ipv6_addr), 64));
    });
    {
        let routes = interface.routes_mut();
        routes.add_default_ipv4_route(ipv4_addr).ok();
        routes.add_default_ipv6_route(ipv6_addr).ok();
    }
    interface
}

const CLIENT: [u8; 4] = [10, 0, 0, 2];
const SERVER: [u8; 4] = [203, 0, 113, 9];

fn client_segment(seq: u32, ack: u32, flags: u8, payload: &[u8]) -> Vec<u8> {
    let total_len = 40 + payload.len();
    let mut frame = vec![0u8; total_len];
    frame[0] = 0x45;
    frame[2..4].copy_from_slice(&(total_len as u16).to_be_bytes());
    frame[8] = 64;
    frame[9] = 6;
    frame[12..16].copy_from_slice(&CLIENT);
    frame[16..20].copy_from_slice(&SERVER);
    frame[20..22].copy_from_slice(&5000u16.to_be_bytes());
    frame[22..24].copy_from_slice(&443u16.to_be_bytes());
    frame[24..28].copy_from_slice(&seq.to_be_bytes());
    frame[28..32].copy_from_slice(&ack.to_be_bytes());
    frame[32] = 5 << 4;
    frame[33] = flags;
    frame[34..36].copy_from_slice(&0xFFFFu16.to_be_bytes());
    frame[40..].copy_from_slice(payload);
    let sum = tcp_ipv4(0x0a000002, 0xcb007109, &frame[20..]);
    frame[36..38].copy_from_slice(&sum.to_be_bytes());
    let header_sum = ones_complement(0, &frame[..20]);
    frame[10..12].copy_from_slice(&header_sum.to_be_bytes());
    frame
}

struct Link {
    engine: Engine,
    device: StackDevice,
    interface: Interface,
    /// The next sequence number of the client.
    client_seq: u32,
    /// The next byte that the client expects of the server.
    client_ack: u32,
    /// What the client received of the server, in order.
    received: Vec<u8>,
    saw_fin: bool,
}

impl Link {
    fn new(budget: SocketBudget) -> Link {
        let mut engine = Engine::with_budget(budget);
        engine.manager.install_callbacks();
        let mut device = StackDevice { ring: TunDevice::new(DEFAULT_MTU, 256) };
        let interface = build_interface(&mut device);
        Link { engine, device, interface, client_seq: 7000, client_ack: 0, received: Vec::new(), saw_fin: false }
    }

    /// A frame of the client: the flow engine sees it first, then the stack.
    fn from_client(&mut self, frame: Vec<u8>) {
        let parsed = parse_packet_validated(&frame).expect("client frame");
        self.engine.process(&parsed);
        assert!(self.device.ring.push_inbound(&frame));
    }

    /// One tick: the stack is stepped, and the engine polled with its frames.
    fn tick(&mut self) -> Vec<Vec<u8>> {
        self.engine.now += 10;
        let stamp = Instant::from_millis(self.engine.now as i64);
        let worked =
            self.interface.poll(stamp, &mut self.device, &mut self.engine.manager.sockets);
        let frames = self.device.ring.drain_outbound();
        let seen = self.engine.harness.frames.len();
        let tick = self.engine.tick();
        let (_, batch) = self.engine.manager.poll(
            worked,
            frames,
            &mut self.engine.policy,
            &mut self.engine.telemetry,
            tick,
        );
        self.engine.harness.execute(batch);
        self.engine.harness.frames[seen..].to_vec()
    }

    /// The client takes the frames of the server and acknowledges what is in order.
    fn client_takes(&mut self, frames: &[Vec<u8>]) {
        let mut ack_needed = false;
        for frame in frames {
            if let Ok(ParsedPacket::Tcp(segment)) = parse_packet_validated(frame) {
                assert_eq!(segment.src, IpAddress::v4(203, 0, 113, 9));
                assert_eq!(segment.dst, IpAddress::v4(10, 0, 0, 2));
                assert_eq!(segment.src_port, 443);
                assert_eq!(segment.dst_port, 5000);
                if segment.flags.syn {
                    self.client_ack = segment.seq_number.wrapping_add(1);
                    ack_needed = true;
                    continue;
                }
                if segment.seq_number == self.client_ack {
                    self.received.extend_from_slice(segment.payload);
                    self.client_ack = self.client_ack.wrapping_add(segment.payload.len() as u32);
                    if segment.flags.fin {
                        self.client_ack = self.client_ack.wrapping_add(1);
                        self.saw_fin = true;
                    }
                    if !segment.payload.is_empty() || segment.flags.fin {
                        ack_needed = true;
                    }
                }
            }
        }
        if ack_needed {
            let ack = client_segment(self.client_seq, self.client_ack, 0x10, &[]);
            self.from_client(ack);
        }
    }

    fn handshake(&mut self) -> u64 {
        let syn = client_segment(self.client_seq, 0, 0x02, &[]);
        self.from_client(syn);
        self.client_seq = self.client_seq.wrapping_add(1);
        let handle = self.engine.first_handle();
        for _ in 0..5 {
            let frames = self.tick();
            self.client_takes(&frames);
        }
        assert_ne!(self.client_ack, 0, "the stack did not answer the SYN");
        handle
    }
}

#[test]
fn allowed_tcp_flow_reaches_the_client() {
    let mut link = Link::new(SocketBudget::default());
    let handle = link.handshake();
    assert_eq!(link.engine.harness.dials.len(), 1);
    assert_eq!(link.engine.harness.dials[0].1, "203.0.113.9");
    assert_eq!(link.engine.harness.dials[0].2, 443);
    link.engine.dial_result(handle, true, None);
    let body = b"HTTP/1.1 200 OK\r\n\r\n";
    assert_eq!(body.len(), 19);
    assert!(link.engine.tcp_receive(handle, body));
    let mut data_frames = Vec::new();
    for _ in 0..5 {
        let frames = link.tick();
        for frame in &frames {
            if let Ok(ParsedPacket::Tcp(segment)) = parse_packet_validated(frame) {
                if !segment.payload.is_empty() {
                    data_frames.push(frame.clone());
                }
            }
        }
        link.client_takes(&frames);
    }
    assert_eq!(link.received, body);
    assert!(!data_frames.is_empty());
    match parse_packet_validated(&data_frames[0]) {
        Ok(ParsedPacket::Tcp(segment)) => {
            assert_eq!(segment.src, IpAddress::v4(203, 0, 113, 9));
            assert_eq!(segment.dst, IpAddress::v4(10, 0, 0, 2));
            assert_eq!(segment.src_port, 443);
            assert_eq!(segment.dst_port, 5000);
            assert_eq!(segment.payload, body);
        }
        other => panic!("expected tcp, got {:?}", other),
    }
}

#[test]
fn client_bytes_reach_the_host() {
    let mut link = Link::new(SocketBudget::default());
    let handle = link.handshake();
    link.engine.dial_result(handle, true, None);
    let request = b"GET / HTTP/1.1\r\n\r\n";
    let frame = client_segment(link.client_seq, link.client_ack, 0x18, request);
    link.client_seq = link.client_seq.wrapping_add(request.len() as u32);
    link.from_client(frame);
    for _ in 0..3 {
        let frames = link.tick();
        link.client_takes(&frames);
    }
    let sent: Vec<u8> =
        link.engine.harness.tcp_sends.iter().flat_map(|(_, bytes)| bytes.clone()).collect();
    assert_eq!(sent, request);
    assert!(link.engine.harness.tcp_sends.iter().all(|(h, _)| *h == handle));
    assert!(link.engine.manager.stats().tcp_flush_events >= 1);
}

#[test]
fn no_byte_is_lost_under_backpressure() {
    let budget = SocketBudget::from_config(0, 4096, 1024, 0);
    let mut link = Link::new(budget);
    let handle = link.handshake();
    link.engine.dial_result(handle, true, None);
    let stream: Vec<u8> = (0..6000u32).map(|i| (i % 251) as u8).collect();
    // The host delivers more than the socket holds: the rest waits in the buffer.
    assert!(link.engine.tcp_receive(handle, &stream[..3000]));
    {
        let entry = link.engine.manager.flow(handle).expect("flow");
        assert_eq!(entry.buffered.len(), 1);
        assert_eq!(entry.buffered.bytes(), 3000 - 1024);
        assert!(entry.backpressure_retry_at.is_some());
    }
    assert!(link.engine.manager.counters().tcp_backpressure_drops >= 1);
    // Payloads that arrive meanwhile queue up behind it.
    assert!(link.engine.tcp_receive(handle, &stream[3000..4500]));
    assert!(link.engine.tcp_receive(handle, &stream[4500..]));
    assert_eq!(link.engine.manager.flow(handle).expect("flow").buffered.len(), 3);
    for _ in 0..400 {
        let frames = link.tick();
        link.client_takes(&frames);
        if link.received.len() == stream.len() {
            break;
        }
    }
    assert_eq!(link.received.len(), stream.len());
    assert_eq!(link.received, stream);
    let entry = link.engine.manager.flow(handle).expect("flow");
    assert!(entry.buffered.is_empty());
    assert!(entry.backpressure_retry_at.is_none());
}

#[test]
fn host_close_ends_the_flow() {
    let mut link = Link::new(SocketBudget::default());
    let handle = link.handshake();
    link.engine.dial_result(handle, true, None);
    link.engine.manager.on_tcp_close(handle);
    assert!(link.engine.manager.flow(handle).expect("flow").server_closed);
    let frames = link.tick();
    assert_eq!(
        link.engine.harness.closes,
        vec![(FlowKind::Tcp, handle, "server_closed".to_string())]
    );
    assert!(link.engine.manager.flow(handle).is_none());
    assert_eq!(link.engine.manager.memory.current_usage, 0);
    let _ = frames;
}

#[test]
fn client_fin_ends_the_flow() {
    let mut link = Link::new(SocketBudget::default());
    let handle = link.handshake();
    link.engine.dial_result(handle, true, None);
    let fin = client_segment(link.client_seq, link.client_ack, 0x11, &[]);
    link.from_client(fin);
    assert!(link.engine.manager.flow(handle).expect("flow").client_closed);
    for _ in 0..3 {
        let frames = link.tick();
        link.client_takes(&frames);
    }
    assert_eq!(link.engine.harness.closes, vec![(FlowKind::Tcp, handle, "client_fin".to_string())]);
    assert!(link.engine.manager.flows.is_empty());
}

#[test]
fn buffered_payloads_go_to_the_socket_when_the_dial_succeeds() {
    let mut link = Link::new(SocketBudget::default());
    let handle = link.handshake();
    assert!(link.engine.tcp_receive(handle, b"first "));
    assert!(link.engine.tcp_receive(handle, b"second"));
    assert_eq!(link.engine.manager.flow(handle).expect("flow").buffered.len(), 2);
    link.engine.dial_result(handle, true, None);
    assert!(link.engine.manager.flow(handle).expect("flow").buffered.is_empty());
    for _ in 0..5 {
        let frames = link.tick();
        link.client_takes(&frames);
    }
    assert_eq!(link.received, b"first second");
    assert!(link.engine.harness.tcp_sends.is_empty());
}

#[test]
fn each_rule_reaps_its_own_flows() {
    let mut engine = Engine::with_callbacks();
    engine.process(&tcp_syn(IpAddress::v4(10, 0, 0, 2), 5000, IpAddress::v4(203, 0, 113, 9), 443));
    engine.process(&ParsedPacket::Udp(UdpPacket {
        src: IpAddress::v4(10, 0, 0, 2),
        dst: IpAddress::v4(203, 0, 113, 9),
        src_port: 5000,
        dst_port: 53,
        payload: &[],
    }));
    engine.process(&ParsedPacket::Udp(UdpPacket {
        src: IpAddress::v4(10, 0, 0, 2),
        dst: IpAddress::v4(203, 0, 113, 9),
        src_port: 5001,
        dst_port: 53,
        payload: &[],
    }));
    engine.dial_result(2, true, None);
    let start = engine.now;
    // One millisecond short of each limit nothing is reaped.
    assert!(!engine.manager.prune_idle_udp_flows(start + 9_999));
    assert!(!engine.manager.prune_stale_tcp_flows(start + 14_999));
    assert!(!engine.manager.prune_timed_out_dials(start + 29_999));
    assert_eq!(engine.manager.flows.len(), 3);
    // The idle rule takes the ready UDP flow only.
    assert!(engine.manager.prune_idle_udp_flows(start + 10_000));
    assert_eq!(engine.manager.flows.len(), 2);
    assert!(engine.manager.flows.iter().all(|flow| flow.handle != 2));
    // The rule for stale TCP flows takes the flow whose handshake never ended.
    assert!(engine.manager.prune_stale_tcp_flows(start + 15_000));
    assert_eq!(engine.manager.flows.len(), 1);
    assert_eq!(engine.manager.flows[0].handle, 3);
    // The dial rule takes the flow whose dial is still out.
    assert!(engine.manager.prune_timed_out_dials(start + 30_000));
    assert!(engine.manager.flows.is_empty());
    engine.settle();
    assert_eq!(
        engine.harness.closes,
        vec![
            (FlowKind::Udp, 2, "udp_idle_timeout".to_string()),
            (FlowKind::Tcp, 1, "connection_timeout".to_string()),
            (FlowKind::Udp, 3, "dial_timeout".to_string()),
        ]
    );
    assert_eq!(engine.manager.memory.current_usage, 0);
}

fn client_datagram(payload: &[u8]) -> Vec<u8> {
    let total_len = 28 + payload.len();
    let mut frame = vec![0u8; total_len];
    frame[0] = 0x45;
    frame[2..4].copy_from_slice(&(total_len as u16).to_be_bytes());
    frame[8] = 64;
    frame[9] = 17;
    frame[12..16].copy_from_slice(&CLIENT);
    frame[16..20].copy_from_slice(&SERVER);
    frame[20..22].copy_from_slice(&5500u16.to_be_bytes());
    frame[22..24].copy_from_slice(&9000u16.to_be_bytes());
    frame[24..26].copy_from_slice(&((8 + payload.len()) as u16).to_be_bytes());
    frame[28..].copy_from_slice(payload);
    let header_sum = ones_complement(0, &frame[..20]);
    frame[10..12].copy_from_slice(&header_sum.to_be_bytes());
    frame
}

#[test]
fn client_datagrams_reach_the_host_through_the_stack() {
    let mut link = Link::new(SocketBudget::default());
    link.from_client(client_datagram(&[1]));
    let handle = link.engine.first_handle();
    link.tick();
    link.engine.dial_result(handle, true, None);
    link.tick();
    link.engine.harness.udp_sends.clear();
    // Two datagrams of the ready flow wait in its socket and are collected
    // in the order in which they came.
    link.from_client(client_datagram(&[4, 5, 6]));
    link.from_client(client_datagram(&[7]));
    link.tick();
    assert_eq!(
        link.engine.harness.udp_sends,
        vec![(handle, vec![4u8, 5, 6]), (handle, vec![7u8])]
    );
    let stats = link.engine.manager.stats();
    assert!(stats.udp_flush_events >= 2);
    // With nothing in the socket nothing is collected.
    link.engine.harness.udp_sends.clear();
    link.tick();
    assert!(link.engine.harness.udp_sends.is_empty());
}

#[test]
fn delay_lines_give_their_ready_payloads_in_order_and_keep_the_rest() {
    let mut engine = Engine::with_callbacks();
    let shaping = ShapingConfig { latency_ms: 100, jitter_ms: 0 };
    engine.policy.install_rule("198.18.0.44", RuleAction::Shape(shaping));
    let target_ip = IpAddress::v4(198, 18, 0, 44);
    engine.process(&ParsedPacket::Udp(UdpPacket {
        src: IpAddress::v4(10, 0, 0, 8),
        dst: target_ip,
        src_port: 5500,
        dst_port: 8080,
        payload: &[],
    }));
    let handle = engine.first_handle();
    engine.dial_result(handle, true, None);
    assert!(engine.udp_receive(handle, &[1]));
    engine.now += 10;
    assert!(engine.udp_receive(handle, &[2, 2]));
    engine.now += 80;
    assert!(engine.udp_receive(handle, &[3, 3, 3]));
    // Nothing may leave yet.
    let tick = engine.tick();
    assert!(!engine.manager.drain_shaping_queues(&mut engine.policy, &mut engine.telemetry, tick));
    engine.settle();
    assert!(engine.harness.frames.is_empty());
    // The first two payloads may leave now, the third has to wait.
    engine.now += 20;
    let tick = engine.tick();
    assert!(engine.manager.drain_shaping_queues(&mut engine.policy, &mut engine.telemetry, tick));
    engine.settle();
    assert_eq!(engine.harness.frames.len(), 2);
    let payloads: Vec<Vec<u8>> = engine
        .harness
        .frames
        .iter()
        .map(|frame| match parse_packet_validated(frame) {
            Ok(ParsedPacket::Udp(udp)) => {
                assert_eq!(udp.src, target_ip);
                assert_eq!(udp.dst, IpAddress::v4(10, 0, 0, 8));
                assert_eq!(udp.src_port, 8080);
                assert_eq!(udp.dst_port, 5500);
                udp.payload.to_vec()
            }
            other => panic!("expected udp, got {:?}", other),
        })
        .collect();
    assert_eq!(payloads, vec![vec![1u8], vec![2u8, 2]]);
    {
        let entry = engine.manager.flow(handle).expect("flow missing");
        let shaper = entry.shaping.as_ref().expect("shaper missing");
        assert_eq!(shaper.pending(), 1);
    }
    // Without a payload that may leave nothing is done.
    assert!(!engine.manager.drain_shaping_queues(&mut engine.policy, &mut engine.telemetry, tick));
    engine.now += 80;
    let tick = engine.tick();
    assert!(engine.manager.drain_shaping_queues(&mut engine.policy, &mut engine.telemetry, tick));
    engine.settle();
    assert_eq!(engine.harness.frames.len(), 3);
}

#[test]
fn a_flow_that_leaves_gives_up_its_socket() {
    let mut engine = Engine::with_callbacks();
    engine.process(&tcp_syn(IpAddress::v4(10, 0, 0, 2), 5000, IpAddress::v4(203, 0, 113, 9), 443));
    engine.process(&ParsedPacket::Udp(UdpPacket {
        src: IpAddress::v4(10, 0, 0, 2),
        dst: IpAddress::v4(203, 0, 113, 9),
        src_port: 5000,
        dst_port: 53,
        payload: &[],
    }));
    assert_eq!(engine.manager.sockets.iter().count(), 2);
    assert!(engine.manager.remove_flow(1));
    assert_eq!(engine.manager.sockets.iter().count(), 1);
    assert!(!engine.manager.remove_flow(1));
    assert_eq!(engine.manager.sockets.iter().count(), 1);
    engine.manager.notify_close(2, FlowKind::Udp, "done");
    assert_eq!(engine.manager.sockets.iter().count(), 0);
    assert!(engine.manager.flows.is_empty());
    assert_eq!(engine.manager.memory.current_usage, 0);
}

#[test]
fn a_tick_closes_no_flow_that_stays() {
    let mut engine = Engine::with_callbacks();
    engine.process(&tcp_syn(IpAddress::v4(10, 0, 0, 2), 5000, IpAddress::v4(203, 0, 113, 9), 443));
    engine.process(&ParsedPacket::Udp(UdpPacket {
        src: IpAddress::v4(10, 0, 0, 2),
        dst: IpAddress::v4(203, 0, 113, 9),
        src_port: 5000,
        dst_port: 53,
        payload: &[],
    }));
    engine.dial_result(2, true, None);
    engine.now += 10_000;
    engine.poll(Vec::new());
    assert_eq!(engine.harness.closes.len(), 1);
    for (_, handle, _) in &engine.harness.closes {
        assert!(engine.manager.flows.iter().all(|flow| flow.handle != *handle));
    }
    assert_eq!(engine.manager.flows.len(), 1);
    assert_eq!(engine.manager.flows[0].handle, 1);
}

#[test]
fn a_new_socket_listens_or_is_bound() {
    let mut engine = Engine::with_callbacks();
    engine.process(&tcp_syn(IpAddress::v4(10, 0, 0, 2), 5000, IpAddress::v4(203, 0, 113, 9), 443));
    engine.process(&ParsedPacket::Udp(UdpPacket {
        src: IpAddress::v4(10, 0, 0, 2),
        dst: IpAddress::v4(203, 0, 113, 9),
        src_port: 5000,
        dst_port: 53,
        payload: &[],
    }));
    let tcp = engine.manager.flows[0].socket;
    let udp = engine.manager.flows[1].socket;
    let listener = engine.manager.sockets.get::<smoltcp::socket::tcp::Socket>(tcp);
    assert_eq!(listener.state(), smoltcp::socket::tcp::State::Listen);
    assert_eq!(listener.send_queue(), 0);
    assert!(engine.manager.sockets.get::<smoltcp::socket::udp::Socket>(udp).is_open());
}

#[test]
fn the_close_of_the_host_closes_the_sending_half() {
    let mut link = Link::new(SocketBudget::default());
    let handle = link.handshake();
    link.engine.dial_result(handle, true, None);
    let socket = link.engine.manager.flow(handle).expect("flow").socket;
    assert_eq!(
        link.engine.manager.sockets.get::<smoltcp::socket::tcp::Socket>(socket).state(),
        smoltcp::socket::tcp::State::Established
    );
    link.engine.manager.on_tcp_close(handle);
    assert_eq!(
        link.engine.manager.sockets.get::<smoltcp::socket::tcp::Socket>(socket).state(),
        smoltcp::socket::tcp::State::FinWait1
    );
    // A second close changes nothing more.
    link.engine.manager.on_tcp_close(handle);
    assert_eq!(
        link.engine.manager.sockets.get::<smoltcp::socket::tcp::Socket>(socket).state(),
        smoltcp::socket::tcp::State::FinWait1
    );
}

#[test]
fn what_the_socket_takes_waits_in_its_transmit_buffer() {
    let mut link = Link::new(SocketBudget::default());
    let handle = link.handshake();
    let socket = link.engine.manager.flow(handle).expect("flow").socket;
    // While the dial is out nothing is offered to the socket.
    assert!(link.engine.tcp_receive(handle, &[1, 2, 3]));
    assert_eq!(
        link.engine.manager.sockets.get::<smoltcp::socket::tcp::Socket>(socket).send_queue(),
        0
    );
    link.engine.dial_result(handle, true, None);
    assert_eq!(
        link.engine.manager.sockets.get::<smoltcp::socket::tcp::Socket>(socket).send_queue(),
        3
    );
    assert!(link.engine.tcp_receive(handle, &[4, 5]));
    assert_eq!(
        link.engine.manager.sockets.get::<smoltcp::socket::tcp::Socket>(socket).send_queue(),
        5
    );
    for _ in 0..5 {
        let frames = link.tick();
        link.client_takes(&frames);
    }
    assert_eq!(link.received, vec![1u8, 2, 3, 4, 5]);
}

#[test]
fn a_datagram_of_the_host_leaves_the_socket_alone() {
    let mut link = Link::new(SocketBudget::default());
    link.from_client(client_datagram(&[1]));
    let handle = link.engine.first_handle();
    link.tick();
    link.engine.dial_result(handle, true, None);
    link.tick();
    // A datagram of the client waits in the socket.
    link.from_client(client_datagram(&[4, 5, 6]));
    let stamp = Instant::from_millis(link.engine.now as i64);
    link.interface.poll(stamp, &mut link.device, &mut link.engine.manager.sockets);
    let socket = link.engine.manager.flow(handle).expect("flow").socket;
    assert!(link.engine.manager.sockets.get::<smoltcp::socket::udp::Socket>(socket).can_recv());
    // A datagram of the host goes to the client as a frame of its own.
    assert!(link.engine.udp_receive(handle, &[9, 9]));
    assert_eq!(link.engine.harness.frames.len(), 1);
    assert!(link.engine.manager.sockets.get::<smoltcp::socket::udp::Socket>(socket).can_recv());
    link.engine.harness.udp_sends.clear();
    link.tick();
    assert_eq!(link.engine.harness.udp_sends, vec![(handle, vec![4u8, 5, 6])]);
}
