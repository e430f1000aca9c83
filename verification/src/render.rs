//! Verified rendering of a flush snapshot: the table body as ASCII bytes,
//! one line per flow — protocol, `source:port -> destination:port`, byte
//! count. The caller only writes the bytes out (and prints any heading or
//! clear-screen sequence around them).
use vstd::prelude::*;

use crate::flow::{FlowKey, Proto};

verus! {

/// The ASCII decimal digits of `n`, most significant first.
pub open spec fn dec_ascii(n: nat) -> Seq<u8>
    decreases n,
{
    if n < 10 {
        seq![(48 + n) as u8]
    } else {
        dec_ascii(n / 10).push((48 + n % 10) as u8)
    }
}

/// The dotted-quad text of a big-endian IPv4 address value.
pub open spec fn addr_ascii(a: u32) -> Seq<u8> {
    dec_ascii((a / 0x1000000) as nat) + seq![46u8] + dec_ascii(((a / 0x10000) % 256) as nat)
        + seq![46u8] + dec_ascii(((a / 256) % 256) as nat) + seq![46u8] + dec_ascii(
        (a % 256) as nat,
    )
}

/// `address:port` text.
pub open spec fn endpoint_ascii(a: u32, port: u16) -> Seq<u8> {
    addr_ascii(a) + seq![58u8] + dec_ascii(port as nat)
}

/// The protocol label of a row.
pub open spec fn proto_ascii(p: Proto) -> Seq<u8> {
    match p {
        Proto::Tcp => seq![116u8, 99u8, 112u8],
        Proto::Udp => seq![117u8, 100u8, 112u8],
    }
}

/// One table line: protocol, source and destination endpoints, byte
/// count, newline.
pub open spec fn row_ascii(row: (FlowKey, u64)) -> Seq<u8> {
    proto_ascii(row.0.proto) + seq![32u8] + endpoint_ascii(row.0.src_addr, row.0.src_port) + seq![
        32u8,
        45u8,
        62u8,
        32u8,
    ] + endpoint_ascii(row.0.dst_addr, row.0.dst_port) + seq![32u8] + dec_ascii(row.1 as nat)
        + seq![10u8]
}

/// The whole table body, one line per row, in the rows' order.
pub open spec fn table_ascii(rows: Seq<(FlowKey, u64)>) -> Seq<u8>
    decreases rows.len(),
{
    if rows.len() == 0 {
        Seq::empty()
    } else {
        table_ascii(rows.drop_last()) + row_ascii(rows.last())
    }
}

fn push_dec(buf: &mut Vec<u8>, n: u64)
    ensures
        final(buf)@ == old(buf)@ + dec_ascii(n as nat),
    decreases n,
{
    if n < 10 {
        buf.push(48 + n as u8);
        proof {
            assert(buf@ =~= old(buf)@ + dec_ascii(n as nat));
        }
    } else {
        push_dec(buf, n / 10);
        buf.push(48 + (n % 10) as u8);
        proof {
            assert(buf@ =~= old(buf)@ + dec_ascii(n as nat));
        }
    }
}

fn push_endpoint(buf: &mut Vec<u8>, a: u32, port: u16)
    ensures
        final(buf)@ == old(buf)@ + endpoint_ascii(a, port),
{
    push_dec(buf, (a / 0x1000000) as u64);
    buf.push(46);
    push_dec(buf, ((a / 0x10000) % 256) as u64);
    buf.push(46);
    push_dec(buf, ((a / 256) % 256) as u64);
    buf.push(46);
    push_dec(buf, (a % 256) as u64);
    buf.push(58);
    push_dec(buf, port as u64);
    proof {
        assert(buf@ =~= old(buf)@ + endpoint_ascii(a, port));
    }
}

fn push_row(buf: &mut Vec<u8>, row: (FlowKey, u64))
    ensures
        final(buf)@ == old(buf)@ + row_ascii(row),
{
    match row.0.proto {
        Proto::Tcp => {
            buf.push(116);
            buf.push(99);
            buf.push(112);
        },
        Proto::Udp => {
            buf.push(117);
            buf.push(100);
            buf.push(112);
        },
    }
    buf.push(32);
    push_endpoint(buf, row.0.src_addr, row.0.src_port);
    buf.push(32);
    buf.push(45);
    buf.push(62);
    buf.push(32);
    push_endpoint(buf, row.0.dst_addr, row.0.dst_port);
    buf.push(32);
    push_dec(buf, row.1);
    buf.push(10);
    proof {
        assert(buf@ =~= old(buf)@ + row_ascii(row));
    }
}

/// Render the snapshot rows as the table body, in the rows' order.
pub fn render_table(rows: &Vec<(FlowKey, u64)>) -> (out: Vec<u8>)
    ensures
        out@ == table_ascii(rows@),
{
    let mut out: Vec<u8> = Vec::new();
    let mut i: usize = 0;
    while i < rows.len()
        invariant
            i <= rows.len(),
            out@ == table_ascii(rows@.subrange(0, i as int)),
        decreases rows.len() - i,
    {
        push_row(&mut out, rows[i]);
        proof {
            assert(rows@.subrange(0, i + 1).drop_last() =~= rows@.subrange(0, i as int));
            assert(rows@.subrange(0, i + 1).last() == rows@[i as int]);
        }
        i += 1;
    }
    proof {
        assert(rows@.subrange(0, rows@.len() as int) =~= rows@);
    }
    out
}

} // verus!
