use engine_bridge::addr::IpAddress;
use engine_bridge::device::{ParseError, ParsedPacket, UdpPacket};
use engine_bridge::engine::{
    conclude_ingress, drain_ingress, handle_packet, ingest_packet, next_poll_delay, normalize_mtu,
    packet_error_category, EngineSettings, IngressOutcome, IngressVerdict,
};
use engine_bridge::ffi::{encode_ip, BridgeConfig, FlowCounters, FlowStats};
use engine_bridge::flow_manager::batch::{
    protocol_number, AddressFamily, CallbackBatch, HostCall,
};
use engine_bridge::flow_manager::queue::BoundedQueue;
use engine_bridge::flow_manager::state::{
    FlowKind, FlowLimits, FlowShaper, MemoryTracker, SocketBudget,
};
use engine_bridge::flow_manager::{FlowManager, Tick};
use engine_bridge::logger::{
    breadcrumb, debug, error, info, label_for, rate_limited_error, set_breadcrumb_mask, warn,
    BreadcrumbFlags, ErrorCategory, LogLevel, LogManager, LogSinkConfig, RateLimitedLogger,
    BREADCRUMB_DEVICE, BREADCRUMB_DNS, BREADCRUMB_FLOW, BREADCRUMB_PACKET, BREADCRUMB_POLL,
};
use engine_bridge::policy::{PolicyManager, RuleAction, ShapingConfig};
use engine_bridge::quic::extract_sni;
use engine_bridge::rules::{parse_rule, parse_rules, parse_u32, split_text, RuleError};
use engine_bridge::telemetry::{PacketDirection, Telemetry, TelemetryEvent, MAX_EVENTS};

fn client_hello(server_name: &[u8]) -> Vec<u8> {
    let mut extension = Vec::new();
    extension.extend_from_slice(&((server_name.len() + 3) as u16).to_be_bytes());
    extension.push(0);
    extension.extend_from_slice(&(server_name.len() as u16).to_be_bytes());
    extension.extend_from_slice(server_name);
    let mut extensions = Vec::new();
    // An extension of another type comes first.
    extensions.extend_from_slice(&[0x00, 0x17, 0x00, 0x00]);
    extensions.extend_from_slice(&[0x00, 0x00]);
    extensions.extend_from_slice(&(extension.len() as u16).to_be_bytes());
    extensions.extend_from_slice(&extension);
    let mut hello = Vec::new();
    hello.extend_from_slice(&[0x03, 0x03]);
    hello.extend_from_slice(&[7u8; 32]);
    hello.push(2);
    hello.extend_from_slice(&[1, 2]);
    hello.extend_from_slice(&[0x00, 0x02, 0x13, 0x01]);
    hello.extend_from_slice(&[0x01, 0x00]);
    hello.extend_from_slice(&(extensions.len() as u16).to_be_bytes());
    hello.extend_from_slice(&extensions);
    let mut record = vec![0x16, 0x03, 0x01];
    record.extend_from_slice(&((hello.len() + 4) as u16).to_be_bytes());
    record.push(0x01);
    record.extend_from_slice(&[0, (hello.len() >> 8) as u8, hello.len() as u8]);
    record.extend_from_slice(&hello);
    record
}

#[test]
fn sni_is_read_from_a_client_hello() {
    let packet = client_hello(b"video.example.com");
    assert_eq!(extract_sni(&packet), Some("video.example.com".to_string()));
    assert_eq!(extract_sni(&client_hello(&[0xff, 0xfe])), None);
    let mut other = packet.clone();
    other[0] = 0x17;
    assert_eq!(extract_sni(&other), None);
    let mut no_hello = packet.clone();
    no_hello[5] = 0x02;
    assert_eq!(extract_sni(&no_hello), None);
    assert_eq!(extract_sni(&[0x16, 3, 1, 0, 0]), None);
    assert_eq!(extract_sni(&[]), None);
    for cut in 0..packet.len() {
        // A record that is cut short gives no name.
        assert_eq!(extract_sni(&packet[..cut]), None);
    }
}

#[test]
fn log_levels_have_names() {
    assert_eq!(LogLevel::from_str("ERROR"), LogLevel::Error);
    assert_eq!(LogLevel::from_str("err"), LogLevel::Error);
    assert_eq!(LogLevel::from_str("Warning"), LogLevel::Warn);
    assert_eq!(LogLevel::from_str("warn"), LogLevel::Warn);
    assert_eq!(LogLevel::from_str("dbg"), LogLevel::Debug);
    assert_eq!(LogLevel::from_str("debug"), LogLevel::Debug);
    assert_eq!(LogLevel::from_str("info"), LogLevel::Info);
    assert_eq!(LogLevel::from_str("verbose"), LogLevel::Info);
    assert_eq!(LogLevel::Error.as_str(), "error");
    assert_eq!(LogLevel::Warn.as_str(), "warn");
    assert_eq!(LogLevel::Info.as_str(), "info");
    assert_eq!(LogLevel::Debug.as_str(), "debug");
    assert_eq!(LogLevel::Debug.severity(), 3);
}

#[test]
fn breadcrumbs_have_labels() {
    assert_eq!(label_for(BreadcrumbFlags { bits: BREADCRUMB_FLOW | BREADCRUMB_DNS }), "FLOW");
    assert_eq!(label_for(BreadcrumbFlags { bits: BREADCRUMB_DNS | BREADCRUMB_DEVICE }), "DNS");
    assert_eq!(label_for(BreadcrumbFlags { bits: BREADCRUMB_DEVICE }), "DEVICE");
    assert_eq!(label_for(BreadcrumbFlags { bits: 8 }), "METRICS");
    assert_eq!(label_for(BreadcrumbFlags { bits: 16 }), "FFI");
    assert_eq!(label_for(BreadcrumbFlags { bits: BREADCRUMB_POLL }), "POLL");
    assert_eq!(label_for(BreadcrumbFlags { bits: BREADCRUMB_PACKET }), "LOG");
    assert_eq!(label_for(BreadcrumbFlags::empty()), "LOG");
    let flags = BreadcrumbFlags::from_bits_truncate(6);
    assert!(flags.contains(BreadcrumbFlags { bits: 2 }));
    assert!(!flags.contains(BreadcrumbFlags { bits: 3 }));
    assert!(flags.intersects(BreadcrumbFlags { bits: 3 }));
    assert!(!flags.intersects(BreadcrumbFlags { bits: 1 }));
    assert_eq!(flags.bits(), 6);
}

#[test]
fn the_sink_decides_what_is_logged() {
    let mut logger = LogManager::new("[rp-p42]".to_string());
    assert!(warn(&logger, "nothing is installed").is_none());
    let missing = LogSinkConfig { has_callback: false, enabled_breadcrumbs: 0 };
    assert_eq!(logger.install_sink(Some(missing), None), Err("log callback missing"));
    let sink = LogSinkConfig { has_callback: true, enabled_breadcrumbs: BREADCRUMB_FLOW };
    assert_eq!(logger.install_sink(Some(sink), None), Ok(()));
    let line = warn(&logger, "careful").expect("line");
    assert_eq!(line.message, "[rp-p42] careful");
    assert_eq!(line.level, LogLevel::Warn);
    assert_eq!(line.breadcrumbs, 0);
    assert_eq!(error(&logger, "bad").map(|l| l.message), Some("[rp-p42] bad".to_string()));
    assert_eq!(info(&logger, "fine").map(|l| l.level), Some(LogLevel::Info));
    assert!(debug(&logger, "too fine").is_none());
    assert!(info(&logger, "").is_none());
    let crumb = breadcrumb(&logger, BreadcrumbFlags { bits: BREADCRUMB_FLOW }, "dial").expect("line");
    assert_eq!(crumb.message, "[rp-p42] [FLOW] dial");
    assert_eq!(crumb.level, LogLevel::Debug);
    assert_eq!(crumb.breadcrumbs, BREADCRUMB_FLOW);
    assert!(breadcrumb(&logger, BreadcrumbFlags { bits: BREADCRUMB_DNS }, "dns").is_none());
    assert!(breadcrumb(&logger, BreadcrumbFlags::empty(), "none").is_none());
    set_breadcrumb_mask(&mut logger, BREADCRUMB_DNS);
    assert!(breadcrumb(&logger, BreadcrumbFlags { bits: BREADCRUMB_DNS }, "dns").is_some());
    assert!(breadcrumb(&logger, BreadcrumbFlags { bits: BREADCRUMB_FLOW }, "dial").is_none());
    assert_eq!(logger.install_sink(Some(sink), Some("DEBUG")), Ok(()));
    assert!(debug(&logger, "now").is_some());
    assert_eq!(logger.install_sink(Some(sink), Some("error")), Ok(()));
    assert!(warn(&logger, "not now").is_none());
    assert_eq!(logger.install_sink(None, None), Ok(()));
    assert!(error(&logger, "gone").is_none());
}

#[test]
fn errors_are_logged_once_a_second_per_category() {
    let mut limiter = RateLimitedLogger::new();
    let mut logger = LogManager::new("[p]".to_string());
    let sink = LogSinkConfig { has_callback: true, enabled_breadcrumbs: 0 };
    logger.install_sink(Some(sink), None).unwrap();
    let (passed, line) =
        rate_limited_error(&mut limiter, &logger, ErrorCategory::PacketInvalidIp, "bad", 5_000);
    assert!(passed);
    assert_eq!(line.map(|l| l.message), Some("[p] [INVALID_IP] bad".to_string()));
    let (passed, line) =
        rate_limited_error(&mut limiter, &logger, ErrorCategory::PacketInvalidIp, "bad", 5_999);
    assert!(!passed);
    assert!(line.is_none());
    assert!(rate_limited_error(&mut limiter, &logger, ErrorCategory::PacketInvalidTcp, "x", 5_999).0);
    assert!(rate_limited_error(&mut limiter, &logger, ErrorCategory::PacketInvalidIp, "bad", 6_000).0);
    assert!(!rate_limited_error(&mut limiter, &logger, ErrorCategory::PacketInvalidIp, "bad", 100).0);
    assert_eq!(limiter.try_log(ErrorCategory::SocketError, "m", 999), None);
    assert_eq!(
        limiter.try_log(ErrorCategory::SocketError, "m", 1_000),
        Some("[SOCKET_ERROR] m".to_string())
    );
    assert_eq!(ErrorCategory::PacketInvalidUdp.index(), 2);
    assert_eq!(ErrorCategory::MemoryExhausted.label(), "MEMORY_EXHAUSTED");
    assert_eq!(ErrorCategory::CallbackError.label(), "CALLBACK_ERROR");
    assert_eq!(ErrorCategory::PacketInvalidUdp.label(), "INVALID_UDP");
    assert_eq!(ErrorCategory::PacketInvalidTcp.label(), "INVALID_TCP");
}

#[test]
fn settings_take_defaults_for_zero_fields() {
    let zero = BridgeConfig {
        mtu: 0,
        packet_pool_bytes: 0,
        per_flow_bytes: 0,
        poll_min_interval_ms: 0,
        poll_max_interval_ms: 0,
        socket_memory_budget: 0,
        tcp_rx_buffer_size: 0,
        tcp_tx_buffer_size: 0,
        udp_buffer_size: 0,
        ring_capacity: 0,
    };
    let settings = EngineSettings::from_config(&zero);
    assert_eq!(settings.mtu, 576);
    assert_eq!(settings.ring_capacity, 256);
    assert_eq!(settings.poll_min_ms, 10);
    assert_eq!(settings.poll_max_ms, 250);
    assert_eq!(settings.socket_budget, SocketBudget::default());
    assert_eq!(settings.socket_budget.memory_budget, 16 * 1024 * 1024);
    let config = BridgeConfig { poll_min_interval_ms: 400, poll_max_interval_ms: 300, ..BridgeConfig::default() };
    let settings = EngineSettings::from_config(&config);
    assert_eq!(settings.mtu, 1280);
    assert_eq!(settings.ring_capacity, 512);
    assert_eq!(settings.poll_min_ms, 400);
    assert_eq!(settings.poll_max_ms, 400);
    assert_eq!(settings.socket_budget.tcp_tx_buffer_size, 16 * 1024);
    assert_eq!(normalize_mtu(575), 576);
    assert_eq!(normalize_mtu(1500), 1500);
    assert_eq!(normalize_mtu(9001), 9000);
    assert_eq!(BridgeConfig::default().socket_memory_budget, 16 * 1_048_576);
    assert_eq!(FlowStats::default().poll_iterations, 0);
    assert_eq!(FlowCounters::default().tcp_admission_fail, 0);
}

#[test]
fn poll_delay_doubles_until_work_is_done() {
    assert_eq!(next_poll_delay(10, false, false, 10, 250), 20);
    assert_eq!(next_poll_delay(80, false, false, 10, 250), 160);
    assert_eq!(next_poll_delay(125, false, false, 10, 250), 250);
    assert_eq!(next_poll_delay(160, false, false, 10, 250), 250);
    assert_eq!(next_poll_delay(250, false, false, 10, 250), 250);
    assert_eq!(next_poll_delay(250, true, false, 10, 250), 10);
    assert_eq!(next_poll_delay(250, false, true, 10, 250), 10);
    assert_eq!(next_poll_delay(u64::MAX, false, false, 10, 250), 250);
}

fn udp_frame(payload: &[u8]) -> Vec<u8> {
    let total_len = 28 + payload.len();
    let mut packet = vec![0u8; total_len];
    packet[0] = 0x45;
    packet[2..4].copy_from_slice(&(total_len as u16).to_be_bytes());
    packet[8] = 64;
    packet[9] = 17;
    packet[12..16].copy_from_slice(&[10, 0, 0, 2]);
    packet[16..20].copy_from_slice(&[198, 51, 100, 7]);
    packet[20..22].copy_from_slice(&4000u16.to_be_bytes());
    packet[22..24].copy_from_slice(&9000u16.to_be_bytes());
    packet[24..26].copy_from_slice(&((8 + payload.len()) as u16).to_be_bytes());
    packet[28..].copy_from_slice(payload);
    packet
}

#[test]
fn ingress_drops_when_the_channel_is_full() {
    let (tx, rx) = crossbeam_channel::bounded::<Vec<u8>>(2);
    let frame = udp_frame(&[1, 2, 3]);
    assert_eq!(handle_packet(&tx, &frame), IngressVerdict { accepted: true, error: None });
    assert_eq!(handle_packet(&tx, &frame), IngressVerdict { accepted: true, error: None });
    assert_eq!(handle_packet(&tx, &frame), IngressVerdict { accepted: false, error: None });
    assert_eq!(
        handle_packet(&tx, &[0x45, 0, 0]),
        IngressVerdict { accepted: false, error: Some(ParseError::MalformedIpv4Header) }
    );
    assert_eq!(rx.len(), 2);
    assert_eq!(rx.try_recv().unwrap(), frame);
    drop(rx);
    assert_eq!(handle_packet(&tx, &frame), IngressVerdict { accepted: false, error: None });
    assert_eq!(conclude_ingress(None, IngressOutcome::Sent).accepted, true);
    assert_eq!(conclude_ingress(None, IngressOutcome::Full).accepted, false);
    assert_eq!(conclude_ingress(None, IngressOutcome::Disconnected).accepted, false);
    assert_eq!(
        conclude_ingress(Some(ParseError::EmptyPacket), IngressOutcome::Sent),
        IngressVerdict { accepted: false, error: Some(ParseError::EmptyPacket) }
    );
    assert_eq!(packet_error_category(ParseError::EmptyPacket), ErrorCategory::PacketInvalidIp);
    assert_eq!(
        packet_error_category(ParseError::UnsupportedIpVersion(3)),
        ErrorCategory::PacketInvalidIp
    );
    assert_eq!(
        packet_error_category(ParseError::MalformedTcpSegment),
        ErrorCategory::PacketInvalidTcp
    );
    assert_eq!(
        packet_error_category(ParseError::MalformedUdpDatagram),
        ErrorCategory::PacketInvalidUdp
    );
}

#[test]
fn ingress_packets_reach_the_flow_engine() {
    let (tx, rx) = crossbeam_channel::bounded::<Vec<u8>>(8);
    let mut flows = FlowManager::new(SocketBudget::default(), FlowLimits::desktop());
    let mut policy = PolicyManager::new();
    let mut telemetry = Telemetry::new();
    let tick = Tick { now_ms: 5, unix_ms: 50 };
    assert!(!drain_ingress(&rx, &mut flows, &mut policy, &mut telemetry, tick));
    assert!(handle_packet(&tx, &udp_frame(&[1, 2, 3])).accepted);
    tx.send(vec![0x45, 0]).unwrap();
    assert!(handle_packet(&tx, &udp_frame(&[4])).accepted);
    assert!(drain_ingress(&rx, &mut flows, &mut policy, &mut telemetry, tick));
    assert!(rx.is_empty());
    assert_eq!(flows.flows.len(), 1);
    assert_eq!(flows.flows[0].kind, FlowKind::Udp);
    assert_eq!(flows.flows[0].buffered.peek_front(), Some(vec![1u8, 2, 3]));
    let (events, dropped) = telemetry.drain(10);
    assert_eq!(events.len(), 2);
    assert_eq!(dropped, 0);
    assert_eq!(events[0].timestamp_ms, 50);
    assert_eq!(events[0].protocol, 17);
    assert_eq!(events[0].payload_len, 3);
    assert_eq!(events[0].direction, PacketDirection::ClientToNetwork);
    assert_eq!(events[0].src, IpAddress::v4(10, 0, 0, 2));
    assert_eq!(events[0].dst, IpAddress::v4(198, 51, 100, 7));
}

#[test]
fn rules_are_read_from_text() {
    let block = parse_rule(" *.Blocked.Test : BLOCK ").unwrap();
    assert_eq!(block.pattern, "*.blocked.test");
    assert_eq!(block.action, RuleAction::Block);
    let shape = parse_rule("delay.example:shape:120:30").unwrap();
    assert_eq!(shape.pattern, "delay.example");
    assert_eq!(shape.action, RuleAction::Shape(ShapingConfig { latency_ms: 120, jitter_ms: 30 }));
    let plain = parse_rule("delay.example : shape : 0").unwrap();
    assert_eq!(plain.action, RuleAction::Shape(ShapingConfig { latency_ms: 0, jitter_ms: 0 }));
    let odd = parse_rule("delay.example:shape:+7:soon").unwrap();
    assert_eq!(odd.action, RuleAction::Shape(ShapingConfig { latency_ms: 7, jitter_ms: 0 }));
    assert_eq!(parse_rule("").unwrap_err(), RuleError::MissingPattern);
    assert_eq!(parse_rule(" :block").unwrap_err(), RuleError::MissingPattern);
    assert_eq!(parse_rule("host").unwrap_err(), RuleError::MissingAction);
    assert_eq!(parse_rule("host:shape").unwrap_err(), RuleError::MissingLatency);
    assert_eq!(parse_rule("host:shape:fast").unwrap_err(), RuleError::InvalidLatency);
    assert_eq!(parse_rule("host:shape:4294967296").unwrap_err(), RuleError::InvalidLatency);
    assert_eq!(parse_rule("host:drop").unwrap_err(), RuleError::UnknownAction);
    assert_eq!(RuleError::MissingLatency.message(), "missing latency");
    assert_eq!(RuleError::InvalidLatency.message(), "invalid latency");
    let rules = parse_rules("a.test:block; ;b.test:shape:1:2;c.test");
    assert_eq!(rules.len(), 3);
    assert!(rules[0].is_ok());
    assert!(rules[1].is_ok());
    assert_eq!(rules[2].as_ref().unwrap_err(), &RuleError::MissingAction);
    assert!(parse_rules("  ").is_empty());
}

#[test]
fn numbers_and_fields_are_read_from_text() {
    assert_eq!(parse_u32("0"), Some(0));
    assert_eq!(parse_u32("007"), Some(7));
    assert_eq!(parse_u32("+15"), Some(15));
    assert_eq!(parse_u32("4294967295"), Some(u32::MAX));
    assert_eq!(parse_u32("4294967296"), None);
    assert_eq!(parse_u32("99999999999999999999999"), None);
    assert_eq!(parse_u32(""), None);
    assert_eq!(parse_u32("+"), None);
    assert_eq!(parse_u32("-1"), None);
    assert_eq!(parse_u32("1 "), None);
    assert_eq!(parse_u32("1a"), None);
    assert_eq!(split_text("a:b::c", ':'), vec!["a", "b", "", "c"]);
    assert_eq!(split_text("", ';'), vec![""]);
    assert_eq!(split_text(";", ';'), vec!["", ""]);
    assert_eq!(split_text("no separator", ';'), vec!["no separator"]);
}

fn event(id: u32) -> TelemetryEvent {
    TelemetryEvent::new(
        6,
        PacketDirection::NetworkToClient,
        id,
        IpAddress::v4(1, 1, 1, 1),
        IpAddress::v4(2, 2, 2, 2),
        9,
    )
}

#[test]
fn telemetry_drops_the_oldest_event_when_full() {
    let mut telemetry = Telemetry::new();
    for id in 0..(MAX_EVENTS as u32 + 3) {
        telemetry.record(event(id));
    }
    let (events, dropped) = telemetry.drain(2);
    assert_eq!(dropped, 3);
    assert_eq!(events.len(), 2);
    assert_eq!(events[0].payload_len, 3);
    assert_eq!(events[1].payload_len, 4);
    assert_eq!(events[0].flags, 0);
    assert!(events[0].dns_qname.is_none());
    let (rest, dropped) = telemetry.drain(usize::MAX);
    assert_eq!(dropped, 0);
    assert_eq!(rest.len(), MAX_EVENTS - 2);
    assert_eq!(rest.last().map(|e| e.payload_len), Some(MAX_EVENTS as u32 + 2));
    let (none, _) = telemetry.drain(5);
    assert!(none.is_empty());
}

#[test]
fn telemetry_addresses_have_a_family() {
    let four = encode_ip(&IpAddress::v4(203, 0, 113, 5));
    assert_eq!(four.family, 4);
    assert_eq!(four.bytes, vec![203, 0, 113, 5, 0, 0, 0, 0, 0, 0, 0, 0, 0, 0, 0, 0]);
    let six = encode_ip(&IpAddress::V6(0x2001_0db8_0000_0000_0000_0000_0000_0001));
    assert_eq!(six.family, 6);
    assert_eq!(six.bytes, vec![0x20, 0x01, 0x0d, 0xb8, 0, 0, 0, 0, 0, 0, 0, 0, 0, 0, 0, 1]);
}

#[test]
fn queues_give_up_their_oldest_payloads() {
    let mut queue = BoundedQueue::new(3, 10);
    assert!(queue.push(&[1, 1, 1, 1], 5));
    assert!(queue.push(&[2, 2, 2, 2], 6));
    assert!(queue.push(&[], 7));
    assert_eq!(queue.len(), 2);
    assert_eq!(queue.bytes(), 8);
    // Two more bytes fit; three do not, and the oldest payload leaves.
    assert!(queue.push(&[3, 3], 8));
    assert_eq!(queue.len(), 3);
    assert!(queue.push(&[4], 9));
    assert_eq!(queue.len(), 3);
    assert_eq!(queue.peek_front(), Some(vec![2u8, 2, 2, 2]));
    assert!(queue.push(&[5; 9], 10));
    assert_eq!(queue.len(), 2);
    assert_eq!(queue.bytes(), 10);
    assert_eq!(queue.peek_front(), Some(vec![4u8]));
    assert!(!queue.push(&[6; 11], 11));
    assert_eq!(queue.len(), 2);
    assert!(queue.push(&[7; 10], 12));
    assert_eq!(queue.len(), 1);
    assert_eq!(queue.front_ready_at(), Some(12));
    let all = queue.take_all();
    assert_eq!(all.len(), 1);
    assert!(queue.is_empty());
    assert_eq!(queue.bytes(), 0);
    assert_eq!(queue.pop_front().map(|p| p.payload), None);
}

#[test]
fn shaper_releases_payloads_in_order() {
    let config = ShapingConfig { latency_ms: 10, jitter_ms: 0 };
    let mut shaper = FlowShaper::new(config, FlowLimits::constrained());
    assert!(!shaper.has_pending());
    assert!(shaper.enqueue(&[1], 100));
    assert!(shaper.enqueue(&[2], 50));
    assert!(shaper.enqueue(&[3], 200));
    assert_eq!(shaper.pending(), 3);
    assert!(shaper.drain_ready(99).is_empty());
    // The second payload waits behind the first, though its time has come.
    let ready = shaper.drain_ready(150);
    assert_eq!(ready.iter().map(|p| p.payload.clone()).collect::<Vec<_>>(), vec![vec![1u8], vec![2u8]]);
    assert!(shaper.has_pending());
    assert_eq!(shaper.peek_ready(199), None);
    assert_eq!(shaper.peek_ready(200), Some(vec![3u8]));
    for i in 0..9u8 {
        assert!(shaper.enqueue(&[i], 300));
    }
    assert_eq!(shaper.pending(), 8);
    assert!(!shaper.enqueue(&vec![0u8; 32 * 1024 + 1], 300));
    assert_eq!(shaper.config(), config);
}

#[test]
fn memory_tracker_counts_sockets() {
    let budget = SocketBudget::from_config(100_000, 1000, 2000, 500);
    assert_eq!(budget.tcp_socket_cost(), 3000);
    assert_eq!(budget.udp_socket_cost(), 1512);
    assert!(budget.is_valid());
    let mut tracker = MemoryTracker::new(budget);
    assert!(tracker.can_allocate_tcp());
    tracker.allocate_tcp();
    tracker.allocate_udp();
    assert_eq!(tracker.current_usage, 4512);
    assert_eq!(tracker.tcp_socket_count, 1);
    assert_eq!(tracker.udp_socket_count, 1);
    tracker.deallocate_tcp();
    assert_eq!(tracker.current_usage, 1512);
    tracker.deallocate_tcp();
    assert_eq!(tracker.current_usage, 1512);
    tracker.deallocate_udp();
    assert_eq!(tracker.current_usage, 0);
    assert_eq!(tracker.udp_socket_count, 0);
    let tight = SocketBudget::from_config(3000, 1000, 2000, 500);
    let mut tracker = MemoryTracker::new(tight);
    assert!(tracker.can_allocate_tcp());
    assert!(tracker.can_allocate_udp());
    tracker.allocate_tcp();
    assert!(!tracker.can_allocate_tcp());
    assert!(!tracker.can_allocate_udp());
    let huge = SocketBudget {
        memory_budget: 1,
        tcp_rx_buffer_size: (1 << 30) + 1,
        tcp_tx_buffer_size: 1,
        udp_buffer_size: 1,
    };
    assert!(!huge.is_valid());
}

#[test]
fn batches_collect_requests_in_order() {
    let mut batch = CallbackBatch::new();
    assert!(!batch.has_work());
    batch.add_frame(vec![0x60, 0]);
    batch.add_frames(vec![vec![0x45], vec![]]);
    batch.add_tcp_send(1, vec![1]);
    batch.add_udp_send(2, vec![2]);
    batch.add_close(3, "done", FlowKind::Udp);
    batch.add_dial(4, IpAddress::v4(192, 0, 2, 1), 443, FlowKind::Tcp);
    batch.add_dns_record("host.test", &[], 5);
    batch.add_dns_record("host.test", &[IpAddress::v4(192, 0, 2, 2), IpAddress::V6(1)], 5);
    assert!(batch.has_work());
    assert_eq!(batch.frames.len(), 3);
    assert_eq!(protocol_number(&batch.frames[0]), AddressFamily::Inet6);
    assert_eq!(protocol_number(&batch.frames[1]), AddressFamily::Inet);
    assert_eq!(protocol_number(&batch.frames[2]), AddressFamily::Inet);
    assert_eq!(batch.tcp_sends[0].kind, FlowKind::Tcp);
    assert_eq!(batch.udp_sends[0].handle, 2);
    assert_eq!(batch.closes[0].reason, "done");
    assert_eq!(batch.dials[0].host, "192.0.2.1");
    assert_eq!(batch.dials[0].port, 443);
    assert_eq!(batch.dns_records.len(), 1);
    assert_eq!(batch.dns_records[0].addresses, vec!["192.0.2.2".to_string(), "::1".to_string()]);
    assert_eq!(batch.dns_records[0].ttl_seconds, 5);
}

#[test]
fn udp_datagrams_of_the_client_reach_the_host() {
    // Without the stack nothing waits in the socket of a ready flow.
    let mut flows = FlowManager::new(SocketBudget::default(), FlowLimits::desktop());
    flows.install_callbacks();
    let mut policy = PolicyManager::new();
    let mut telemetry = Telemetry::new();
    let tick = Tick { now_ms: 5, unix_ms: 50 };
    let packet = ParsedPacket::Udp(UdpPacket {
        src: IpAddress::v4(10, 0, 0, 2),
        dst: IpAddress::v4(198, 51, 100, 7),
        src_port: 4000,
        dst_port: 9000,
        payload: &[5, 6],
    });
    flows.process_packet(&packet, &mut policy, &mut telemetry, tick);
    let handle = flows.flows[0].handle;
    flows.on_dial_result(handle, true, None, 6);
    flows.flush_outbound();
    let batch = flows.take_batch();
    assert_eq!(batch.udp_sends.len(), 1);
    assert_eq!(batch.udp_sends[0].payload, vec![5u8, 6]);
    assert_eq!(batch.dials.len(), 1);
    assert_eq!(batch.dials[0].kind, FlowKind::Udp);
    assert_eq!(batch.dials[0].host, "198.51.100.7");
    assert_eq!(flows.stats().udp_flush_events, 0);
}

#[test]
fn a_batch_is_carried_out_in_a_fixed_order() {
    let mut batch = CallbackBatch::new();
    assert!(batch.execute().is_empty());
    batch.add_dns_record("host.test", &[IpAddress::v4(192, 0, 2, 2)], 5);
    batch.add_close(3, "done", FlowKind::Udp);
    batch.add_udp_send(2, vec![2]);
    batch.add_tcp_send(1, vec![1]);
    batch.add_tcp_send(7, vec![7, 7]);
    batch.add_dial(4, IpAddress::v4(192, 0, 2, 1), 443, FlowKind::Tcp);
    batch.add_frame(vec![0x60, 0]);
    batch.add_frame(vec![0x45]);
    let calls = batch.execute();
    assert_eq!(calls.len(), 7);
    match &calls[0] {
        HostCall::EmitPackets { frames, families } => {
            assert_eq!(**frames, vec![vec![0x60u8, 0], vec![0x45u8]]);
            assert_eq!(*families, vec![AddressFamily::Inet6, AddressFamily::Inet]);
        }
        other => panic!("frames come first, not {:?}", other),
    }
    assert!(matches!(&calls[1], HostCall::RequestDial(dial) if dial.handle == 4 && dial.port == 443));
    assert!(matches!(&calls[2], HostCall::Send(send) if send.handle == 1 && send.kind == FlowKind::Tcp));
    assert!(matches!(&calls[3], HostCall::Send(send) if send.handle == 7 && send.payload == vec![7u8, 7]));
    assert!(matches!(&calls[4], HostCall::Send(send) if send.handle == 2 && send.kind == FlowKind::Udp));
    assert!(matches!(&calls[5], HostCall::Close(close) if close.handle == 3 && close.reason == "done"));
    assert!(matches!(&calls[6], HostCall::RecordDns(record) if record.host == "host.test"));
}

#[test]
fn a_batch_without_frames_makes_no_call_for_them() {
    let mut batch = CallbackBatch::new();
    batch.add_close(9, "gone", FlowKind::Tcp);
    let calls = batch.execute();
    assert_eq!(calls.len(), 1);
    assert!(matches!(&calls[0], HostCall::Close(close) if close.kind == FlowKind::Tcp));
}

#[test]
fn a_packet_from_the_channel_is_taken_in_if_it_parses() {
    let mut flows = FlowManager::new(SocketBudget::default(), FlowLimits::desktop());
    let mut policy = PolicyManager::new();
    let mut telemetry = Telemetry::new();
    let tick = Tick { now_ms: 5, unix_ms: 50 };
    // A frame that does not parse changes nothing.
    assert!(!ingest_packet(&[0x45, 0], &mut flows, &mut policy, &mut telemetry, tick));
    assert!(!ingest_packet(&[], &mut flows, &mut policy, &mut telemetry, tick));
    assert!(flows.flows.is_empty());
    assert_eq!(telemetry.drain(10).0.len(), 0);
    // A datagram opens a flow and is recorded.
    assert!(ingest_packet(&udp_frame(&[7, 8]), &mut flows, &mut policy, &mut telemetry, tick));
    assert_eq!(flows.flows.len(), 1);
    assert_eq!(flows.flows[0].handle, 1);
    assert_eq!(flows.flows[0].buffered.peek_front(), Some(vec![7u8, 8]));
    // A second datagram of the flow is noted, and opens nothing.
    let later = Tick { now_ms: 9, unix_ms: 90 };
    assert!(ingest_packet(&udp_frame(&[9]), &mut flows, &mut policy, &mut telemetry, later));
    assert_eq!(flows.flows.len(), 1);
    assert_eq!(flows.flows[0].last_activity, 9);
    let (events, _) = telemetry.drain(10);
    assert_eq!(events.len(), 2);
    assert_eq!(events[1].timestamp_ms, 90);
}

#[test]
fn what_a_socket_gave_becomes_a_send_request() {
    let mut flows = FlowManager::new(SocketBudget::default(), FlowLimits::desktop());
    // Nothing, and an empty run of bytes, are not handed on.
    assert!(!flows.collect_chunk(3, FlowKind::Tcp, None));
    assert!(!flows.collect_chunk(3, FlowKind::Udp, None));
    assert!(!flows.collect_chunk(3, FlowKind::Tcp, Some(Vec::new())));
    assert!(!flows.take_batch().has_work());
    assert_eq!(flows.stats(), FlowStats::default());
    // A run of bytes and a datagram, even an empty one, are.
    assert!(flows.collect_chunk(3, FlowKind::Tcp, Some(vec![1, 2, 3])));
    assert!(flows.collect_chunk(4, FlowKind::Udp, Some(Vec::new())));
    assert!(flows.collect_chunk(4, FlowKind::Udp, Some(vec![9, 9])));
    let stats = flows.stats();
    assert_eq!(stats.tcp_flush_events, 1);
    assert_eq!(stats.udp_flush_events, 2);
    assert_eq!(stats.bytes_emitted, 5);
    let batch = flows.take_batch();
    assert_eq!(batch.tcp_sends.len(), 1);
    assert_eq!(batch.tcp_sends[0].handle, 3);
    assert_eq!(batch.tcp_sends[0].payload, vec![1u8, 2, 3]);
    assert_eq!(batch.tcp_sends[0].kind, FlowKind::Tcp);
    assert_eq!(batch.udp_sends.len(), 2);
    assert_eq!(batch.udp_sends[0].payload, Vec::<u8>::new());
    assert_eq!(batch.udp_sends[1].payload, vec![9u8, 9]);
    assert_eq!(batch.udp_sends[1].handle, 4);
}
