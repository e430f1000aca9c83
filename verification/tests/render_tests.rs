use flowmon::flow::{FlowKey, Proto};
use flowmon::render::render_table;

#[test]
fn renders_one_tcp_row() {
    let key = FlowKey::new(Proto::Tcp, 0x0a000001, 0x0a000002, 1234, 80);
    let out = render_table(&vec![(key, 100u64)]);
    assert_eq!(out, b"tcp 10.0.0.1:1234 -> 10.0.0.2:80 100\n".to_vec());
}

#[test]
fn renders_one_udp_row() {
    let key = FlowKey::new(Proto::Udp, 0xc0a80109, 0x08080808, 53124, 53);
    let out = render_table(&vec![(key, 78u64)]);
    assert_eq!(out, b"udp 192.168.1.9:53124 -> 8.8.8.8:53 78\n".to_vec());
}

#[test]
fn renders_rows_in_order() {
    let k1 = FlowKey::new(Proto::Tcp, 0x01020304, 0x05060708, 1, 2);
    let k2 = FlowKey::new(Proto::Udp, 0xffffffff, 0x00000000, 65535, 0);
    let out = render_table(&vec![(k1, 0u64), (k2, u64::MAX)]);
    let expected = b"tcp 1.2.3.4:1 -> 5.6.7.8:2 0\n\
                     udp 255.255.255.255:65535 -> 0.0.0.0:0 18446744073709551615\n"
        .to_vec();
    assert_eq!(out, expected);
}

#[test]
fn renders_empty_snapshot_as_nothing() {
    assert_eq!(render_table(&Vec::new()), Vec::<u8>::new());
}
