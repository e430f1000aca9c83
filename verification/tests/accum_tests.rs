use flowmon::accum::Accumulator;
use flowmon::flow::{FlowKey, Proto};

fn key(src_port: u16) -> FlowKey {
    FlowKey::new(Proto::Tcp, 0x0a000001, 0x0a000002, src_port, 80)
}

#[test]
fn new_accumulator_is_empty() {
    let a = Accumulator::new();
    assert_eq!(a.len(), 0);
    assert_eq!(a.get(key(1234)), 0);
}

#[test]
fn add_creates_then_accumulates() {
    let mut a = Accumulator::new();
    a.add(key(1234), 60);
    assert_eq!(a.get(key(1234)), 60);
    a.add(key(1234), 40);
    assert_eq!(a.get(key(1234)), 100);
    assert_eq!(a.len(), 1);
}

#[test]
fn distinct_keys_counted_apart() {
    let mut a = Accumulator::new();
    a.add(key(1234), 60);
    a.add(key(4321), 25);
    let reverse = FlowKey::new(Proto::Tcp, 0x0a000002, 0x0a000001, 80, 1234);
    a.add(reverse, 7);
    let udp = FlowKey::new(Proto::Udp, 0x0a000001, 0x0a000002, 1234, 80);
    a.add(udp, 9);
    assert_eq!(a.len(), 4);
    assert_eq!(a.get(key(1234)), 60);
    assert_eq!(a.get(key(4321)), 25);
    assert_eq!(a.get(reverse), 7);
    assert_eq!(a.get(udp), 9);
}

#[test]
fn totals_independent_of_arrival_order() {
    let packets = vec![(key(1), 10u64), (key(2), 20), (key(1), 30), (key(3), 5), (key(2), 1)];
    let mut forward = Accumulator::new();
    for (k, s) in packets.iter() {
        forward.add(*k, *s);
    }
    let mut backward = Accumulator::new();
    for (k, s) in packets.iter().rev() {
        backward.add(*k, *s);
    }
    for port in 1..4u16 {
        assert_eq!(forward.get(key(port)), backward.get(key(port)));
    }
    assert_eq!(forward.get(key(1)), 40);
    assert_eq!(forward.get(key(2)), 21);
    assert_eq!(forward.get(key(3)), 5);
}

#[test]
fn clear_empties_and_restarts_from_zero() {
    let mut a = Accumulator::new();
    a.add(key(1234), 60);
    a.add(key(9999), 10);
    a.clear();
    assert_eq!(a.len(), 0);
    assert_eq!(a.get(key(1234)), 0);
    a.add(key(1234), 40);
    assert_eq!(a.get(key(1234)), 40);
}

#[test]
fn counts_saturate_at_max() {
    let mut a = Accumulator::new();
    a.add(key(1234), u64::MAX - 3);
    a.add(key(1234), 10);
    assert_eq!(a.get(key(1234)), u64::MAX);
}

#[test]
fn snapshot_lists_every_flow_once() {
    let mut a = Accumulator::new();
    a.add(key(1), 10);
    a.add(key(2), 20);
    a.add(key(1), 5);
    let mut rows = a.snapshot();
    rows.sort_by_key(|r| r.0.src_port);
    assert_eq!(rows, vec![(key(1), 15u64), (key(2), 20u64)]);
}
