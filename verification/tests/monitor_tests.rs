use flowmon::flow::{FlowKey, Proto};
use flowmon::monitor::{Event, Monitor, Outcome};
use flowmon::Config;

fn ethernet_frame(ethertype: u16, payload: &[u8]) -> Vec<u8> {
    let mut f = vec![0u8; 12];
    f.push((ethertype >> 8) as u8);
    f.push((ethertype & 0xff) as u8);
    f.extend_from_slice(payload);
    f
}

fn ipv4_packet(
    ihl: u8,
    protocol: u8,
    total_len: u16,
    src: [u8; 4],
    dst: [u8; 4],
    payload: &[u8],
) -> Vec<u8> {
    let header_len = 4 * ihl as usize;
    let mut p = vec![0u8; header_len];
    p[0] = 0x40 | (ihl & 0x0f);
    p[2] = (total_len >> 8) as u8;
    p[3] = (total_len & 0xff) as u8;
    p[8] = 64;
    p[9] = protocol;
    p[12..16].copy_from_slice(&src);
    p[16..20].copy_from_slice(&dst);
    p.extend_from_slice(payload);
    p
}

fn transport_header(src_port: u16, dst_port: u16, len: usize) -> Vec<u8> {
    let mut t = vec![0u8; len];
    t[0] = (src_port >> 8) as u8;
    t[1] = (src_port & 0xff) as u8;
    t[2] = (dst_port >> 8) as u8;
    t[3] = (dst_port & 0xff) as u8;
    t
}

fn tcp_frame(src: [u8; 4], dst: [u8; 4], src_port: u16, dst_port: u16, total_len: u16) -> Vec<u8> {
    let tcp = transport_header(src_port, dst_port, 20);
    let ip = ipv4_packet(5, 6, total_len, src, dst, &tcp);
    ethernet_frame(0x0800, &ip)
}

fn the_flow() -> FlowKey {
    FlowKey::new(Proto::Tcp, 0x0a000001, 0x0a000002, 1234, 80)
}

fn the_flow_frame(total_len: u16) -> Vec<u8> {
    tcp_frame([10, 0, 0, 1], [10, 0, 0, 2], 1234, 80, total_len)
}

#[test]
fn scenario_two_frames_then_empty_interval() {
    // Two TCP frames of one flow, IP total lengths 60 and 40: the flush
    // reads 100 for that flow; the next flush with no traffic is empty.
    let mut m = Monitor::new(1, 0);
    assert_eq!(m.step(Event::Frame(the_flow_frame(60))), Outcome::Continue);
    assert_eq!(m.step(Event::Frame(the_flow_frame(40))), Outcome::Continue);
    assert!(m.should_flush(1));
    let rows = m.flush(1);
    assert_eq!(rows, vec![(the_flow(), 100u64)]);
    assert!(m.should_flush(2));
    let rows = m.flush(2);
    assert!(rows.is_empty());
}

#[test]
fn scenario_flush_window_restarts_count() {
    // Delay of two seconds; frames at t=0 and t=1 are flushed together at
    // t=2, and a frame at t=3 starts a fresh count of its own size.
    let mut m = Monitor::new(2, 0);
    m.step(Event::Frame(the_flow_frame(60)));
    assert!(!m.should_flush(1));
    m.step(Event::Frame(the_flow_frame(40)));
    assert!(m.should_flush(2));
    let rows = m.flush(2);
    assert_eq!(rows, vec![(the_flow(), 100u64)]);
    m.step(Event::Frame(the_flow_frame(70)));
    assert!(!m.should_flush(3));
    assert_eq!(m.count_for(the_flow()), 70);
}

#[test]
fn scenario_malformed_frame_ignored() {
    // A truncated frame is dropped without failing and without touching
    // the accumulator.
    let mut m = Monitor::new(1, 0);
    m.step(Event::Frame(the_flow_frame(60)));
    let mut truncated = the_flow_frame(60);
    truncated.truncate(20);
    assert_eq!(m.step(Event::Frame(truncated)), Outcome::Continue);
    assert_eq!(m.step(Event::Frame(vec![])), Outcome::Continue);
    assert_eq!(m.flow_count(), 1);
    assert_eq!(m.count_for(the_flow()), 60);
}

#[test]
fn timeout_mutates_nothing() {
    let mut m = Monitor::new(5, 0);
    m.step(Event::Frame(the_flow_frame(60)));
    assert!(!m.should_flush(4));
    assert_eq!(m.step(Event::TimedOut), Outcome::Continue);
    assert_eq!(m.flow_count(), 1);
    assert_eq!(m.count_for(the_flow()), 60);
    // The flush timer did not advance: the same deadline still applies.
    assert!(!m.should_flush(4));
    assert!(m.should_flush(5));
}

#[test]
fn read_error_aborts_without_mutation() {
    let mut m = Monitor::new(5, 0);
    m.step(Event::Frame(the_flow_frame(60)));
    assert_eq!(m.step(Event::ReadError), Outcome::Abort);
    assert_eq!(m.count_for(the_flow()), 60);
}

#[test]
fn non_ipv4_frame_never_counted() {
    let mut m = Monitor::new(1, 0);
    let tcp = transport_header(1234, 80, 20);
    let ip = ipv4_packet(5, 6, 60, [10, 0, 0, 1], [10, 0, 0, 2], &tcp);
    let arp = ethernet_frame(0x0806, &ip);
    m.step(Event::Frame(arp));
    assert_eq!(m.flow_count(), 0);
}

#[test]
fn unsupported_protocol_never_counted() {
    let mut m = Monitor::new(1, 0);
    let igmp = ethernet_frame(0x0800, &ipv4_packet(5, 2, 32, [10, 0, 0, 1], [224, 0, 0, 1], &[0u8; 12]));
    m.step(Event::Frame(igmp));
    assert_eq!(m.flow_count(), 0);
}

#[test]
fn zero_interval_flushes_continuously() {
    // The default zero-second delay makes every iteration a flush.
    let mut m = Monitor::new(0, 0);
    assert!(m.should_flush(0));
    let rows = m.flush(0);
    assert!(rows.is_empty());
    assert!(m.should_flush(0));
}

#[test]
fn should_flush_only_at_or_past_deadline() {
    let m = Monitor::new(10, 100);
    assert!(!m.should_flush(0));
    assert!(!m.should_flush(109));
    assert!(m.should_flush(110));
    assert!(m.should_flush(500));
}

#[test]
fn config_delay_defaults_to_zero() {
    let c = Config::new(None, vec![String::from("eth0")]);
    assert_eq!(c.delay_sec, 0);
    assert_eq!(c.devices, vec![String::from("eth0")]);
    let c = Config::new(Some(5), Vec::new());
    assert_eq!(c.delay_sec, 5);
    assert!(c.devices.is_empty());
}
