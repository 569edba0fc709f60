use netsync::network::channel::{overflow_aware_compare, ChannelError, NetChannel};
use std::cmp::Ordering;

#[test]
fn smoke_netchannel() {
    let (mut chan1, mut chan2) = (NetChannel::new(), NetChannel::new());

    let result = chan2.recv_unreliable(chan1.send_unreliable(b"Hello, world!", 0).as_slice(), 0).unwrap();
    assert_eq!(result.as_slice(), b"Hello, world!");
}

#[test]
fn double_ended() {
    let (mut chan1, mut chan2) = (NetChannel::new(), NetChannel::new());

    let pkt = chan1.send_unreliable(b"Hello, chan2!", 0);
    let result = chan2.recv_unreliable(pkt.as_slice(), 0).unwrap();
    assert_eq!(result.as_slice(), b"Hello, chan2!");

    let pkt = chan2.send_unreliable(b"Hello, chan1!", 0);
    let result = chan1.recv_unreliable(pkt.as_slice(), 0).unwrap();
    assert_eq!(result.as_slice(), b"Hello, chan1!");
}

#[test]
fn compare_plain_ordering() {
    assert_eq!(overflow_aware_compare(3, 5), Ordering::Less);
    assert_eq!(overflow_aware_compare(5, 3), Ordering::Greater);
    assert_eq!(overflow_aware_compare(7, 7), Ordering::Equal);
}

#[test]
fn compare_wraparound_ordering() {
    // The second number is a few steps past the wraparound boundary, so it
    // is the greater one.
    assert_eq!(overflow_aware_compare(0xFFFF_FFFE, 2), Ordering::Less);
    assert_eq!(overflow_aware_compare(2, 0xFFFF_FFFE), Ordering::Greater);
}

#[test]
fn header_layout_is_little_endian() {
    let mut chan = NetChannel::new();
    let pkt = chan.send_unreliable(b"ab", 0);
    // seq = 1, ack = 0, payload length = 2, then the payload itself.
    assert_eq!(
        pkt.as_slice(),
        &[1, 0, 0, 0, 0, 0, 0, 0, 2, 0, 0, 0, 0, 0, 0, 0, b'a', b'b'][..]
    );
}

#[test]
fn latency_and_queue_drain_on_ack() {
    let (mut client, mut server) = (NetChannel::new(), NetChannel::new());

    // Two packets sent at t=100 and t=200; both outstanding.
    let p1 = client.send_unreliable(b"one", 100);
    let _p2 = client.send_unreliable(b"two", 200);
    assert_eq!(client.get_outgoing_sequencenr(), 2);
    assert_eq!(client.get_acked_outgoing_sequencenr(), 0);

    // The server sees only the first packet and answers; its answer
    // acknowledges sequence number 1.
    server.recv_unreliable(p1.as_slice(), 150).unwrap();
    let reply = server.send_unreliable(b"reply", 300);

    // On receipt at t=400 the client's latency is measured against the
    // recorded send time of packet 1.
    client.recv_unreliable(reply.as_slice(), 400).unwrap();
    assert_eq!(client.get_acked_outgoing_sequencenr(), 1);
    assert_eq!(client.get_latency(), 400 - 100);

    // After the second packet is acknowledged too, nothing is outstanding.
    server.recv_unreliable(_p2.as_slice(), 500).unwrap();
    let reply2 = server.send_unreliable(b"reply2", 600);
    client.recv_unreliable(reply2.as_slice(), 700).unwrap();
    assert_eq!(client.get_latency(), 700 - 200);
    assert_eq!(
        client.get_acked_outgoing_sequencenr(),
        client.get_outgoing_sequencenr()
    );
}

#[test]
fn truncated_header_is_malformed() {
    let mut chan = NetChannel::new();
    let r = chan.recv_unreliable(&[1, 2, 3], 0);
    assert_eq!(r, Err(ChannelError::MalformedPacket));
}

#[test]
fn overlong_declared_length_is_malformed() {
    let mut chan = NetChannel::new();
    // Header declares 9 payload bytes but only 2 follow.
    let datagram = [
        1, 0, 0, 0, // seq
        0, 0, 0, 0, // ack
        9, 0, 0, 0, 0, 0, 0, 0, // payload length
        b'x', b'y',
    ];
    let r = chan.recv_unreliable(&datagram, 0);
    assert_eq!(r, Err(ChannelError::MalformedPacket));
}

#[test]
fn excess_acks_underflow() {
    let mut chan = NetChannel::new();
    // An acknowledgment for 5 packets when none was ever sent.
    let datagram = [
        1, 0, 0, 0, // seq
        5, 0, 0, 0, // ack
        0, 0, 0, 0, 0, 0, 0, 0, // payload length
    ];
    let r = chan.recv_unreliable(&datagram, 0);
    assert_eq!(r, Err(ChannelError::AckUnderflow));
}

#[test]
fn stale_ack_moves_nothing() {
    let (mut client, mut server) = (NetChannel::new(), NetChannel::new());
    let p1 = client.send_unreliable(b"one", 10);
    let p2 = client.send_unreliable(b"two", 20);
    server.recv_unreliable(p2.as_slice(), 30).unwrap();
    let reply = server.send_unreliable(b"r", 40);
    client.recv_unreliable(reply.as_slice(), 50).unwrap();
    assert_eq!(client.get_acked_outgoing_sequencenr(), 2);
    let latency_before = client.get_latency();

    // A reordered reply that acknowledges only packet 1 arrives afterwards:
    // the payload is accepted, but the acked counter does not move backward.
    let mut late_server = NetChannel::new();
    late_server.recv_unreliable(p1.as_slice(), 15).unwrap();
    let late_reply = late_server.send_unreliable(b"late", 25);
    client.recv_unreliable(late_reply.as_slice(), 60).unwrap();
    assert_eq!(client.get_acked_outgoing_sequencenr(), 2);
    assert_eq!(client.get_latency(), latency_before);
}

#[test]
fn empty_payload_round_trip() {
    let (mut a, mut b) = (NetChannel::new(), NetChannel::new());
    let pkt = a.send_unreliable(b"", 0);
    assert_eq!(pkt.len(), 16);
    let payload = b.recv_unreliable(pkt.as_slice(), 0).unwrap();
    assert!(payload.is_empty());
    assert_eq!(b.get_incoming_sequencenr(), 1);
}
