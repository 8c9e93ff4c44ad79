use netbits::ipv6::Ipv6;
use netbits::packet::{make_eth_packet, HasNetworkLayer, Network, Transport};
use netbits::tcp::Tcp;
use netbits::PacketError;

#[test]
fn test_icmpv6_mldv2_packet() -> () {
    let icmp6_packet = vec!(
        // eth
        0x33, 0x33, 0x00, 0x00, 0x00, 0x16, // mac dest
        0x06, 0xD8, 0xB8, 0xB8, 0x1B, 0x41, // mac src
        0x86, 0xDD, // ipv6

        // ipv6
        0x60, 0x00, 0x00, 0x00,
        0x00, 0x24, 0x00, 0x01,

        0xFE, 0x80, 0x00, 0x00, // dst
        0x00, 0x00, 0x00, 0x00,
        0x04, 0xD8, 0xB8, 0xFF,
        0xFE, 0xB8, 0x1B, 0x41,

        0xFF, 0x02, 0x00, 0x00, // src
        0x00, 0x00, 0x00, 0x00,
        0x00, 0x00, 0x00, 0x00,
        0x00, 0x00, 0x00, 0x16,

        0x3A, 0x00, 0x05, 0x02, // hop-by-hop option
        0x00, 0x00, 0x01, 0x00,

        // icmpv6
        0x8F, 0x00, 0x97, 0x3E, // 0x8F = 143 = Multicast Listener Discovery (MLDv2)
        0x00, 0x00, 0x00, 0x01, //   reports (RFC 3810)
        0x04, 0x00, 0x00, 0x00, 0xFF, 0x02, 0x00, 0x00,
        0x00, 0x00, 0x00, 0x00, 0x00, 0x00, 0x00, 0x00,
        0x00, 0x00, 0x00, 0xFB);

    let icmp6_echo_packet = vec!(

        // eth
        0x33, 0x33, 0xFF, 0x00, 0x00, 0x01,
        0xC6, 0xEE, 0x04, 0xA6, 0x0F, 0x6A,
        0x86, 0xDD,

        // ipv6
        0x60, 0x00, 0x00, 0x00,
        0x00, 0x20, 0x3A, 0xFF,

        0x00, 0x01, 0x00, 0x00,
        0x00, 0x00, 0x00, 0x00,
        0x00, 0x00, 0x00, 0x00,
        0x00, 0x00, 0x00, 0x02,

        0xFF, 0x02, 0x00, 0x00,
        0x00, 0x00, 0x00, 0x00,
        0x00, 0x00, 0x00, 0x01,
        0xFF, 0x00, 0x00, 0x01,

        0x87, 0x00, 0x9E, 0x9A,
        0x00, 0x00, 0x00, 0x00,

        0x00, 0x01, 0x00, 0x00, 0x00, 0x00, 0x00, 0x00,
        0x00, 0x00, 0x00, 0x00, 0x00, 0x00, 0x00, 0x01,
        0x01, 0x01, 0xC6, 0xEE, 0x04, 0xA6, 0x0F, 0x6A);

    // The MLDv2 report sits behind one hop-by-hop header of 8 bytes.
    let len = icmp6_packet.len();
    let packet = make_eth_packet(icmp6_packet, len).unwrap();
    assert_eq!(packet.net, Network::Ipv6Net(Ipv6 { offset: 14 }));
    let ipv6 = Ipv6 { offset: 14 };
    let frame = &packet.data[..packet.len];
    assert_eq!(ipv6.next_header(frame), Ok(0));
    assert_eq!(ipv6.process_ext_headers(frame), Ok((62, 0x3A)));
    assert_eq!(packet.transport(), Err(PacketError::UnsupportedProtocol(0x3A)));

    // The echo request carries ICMPv6 right after the fixed header.
    let len = icmp6_echo_packet.len();
    let packet = make_eth_packet(icmp6_echo_packet, len).unwrap();
    assert_eq!(packet.net, Network::Ipv6Net(Ipv6 { offset: 14 }));
    assert_eq!(ipv6.process_ext_headers(&packet.data[..packet.len]), Ok((54, 0x3A)));
    assert_eq!(packet.transport(), Err(PacketError::UnsupportedProtocol(0x3A)));
}

fn eth_header(ethertype: [u8; 2]) -> Vec<u8> {
    let mut v = vec![0x02, 0x00, 0x00, 0x00, 0x00, 0x01, 0x02, 0x00, 0x00, 0x00, 0x00, 0x02];
    v.push(ethertype[0]);
    v.push(ethertype[1]);
    v
}

fn ipv4_header(protocol: u8) -> Vec<u8> {
    vec![
        0x45, 0x00, 0x00, 0x28, 0x12, 0x34, 0x40, 0x00, 0x40, protocol, 0x00, 0x00, 10, 0, 0, 1,
        10, 0, 0, 2,
    ]
}

fn ipv6_header(next: u8) -> Vec<u8> {
    let mut v = vec![0x60, 0x00, 0x00, 0x00, 0x00, 0x14, next, 0x40];
    for i in 0..16u8 {
        v.push(0x20 + i);
    }
    for i in 0..16u8 {
        v.push(0x80 + i);
    }
    v
}

#[test]
fn ethertype_ipv4_dispatches_to_ipv4() {
    let mut frame = eth_header([0x08, 0x00]);
    frame.extend(ipv4_header(6));
    let len = frame.len();
    let packet = make_eth_packet(frame, len).unwrap();
    match packet.net {
        Network::Ipv4Net(h) => assert_eq!(h.offset, 14),
        other => panic!("unexpected network layer {:?}", other),
    }
}

#[test]
fn ethertype_ipv6_dispatches_to_ipv6() {
    let mut frame = eth_header([0x86, 0xDD]);
    frame.extend(ipv6_header(6));
    let len = frame.len();
    let packet = make_eth_packet(frame, len).unwrap();
    assert_eq!(packet.net, Network::Ipv6Net(Ipv6 { offset: 14 }));
}

#[test]
fn ethertype_arp_is_unsupported() {
    let mut frame = eth_header([0x08, 0x06]);
    frame.extend(vec![0u8; 28]);
    let len = frame.len();
    assert_eq!(make_eth_packet(frame, len).err(), Some(PacketError::UnsupportedEtherType(0x0806)));
}

#[test]
fn frame_shorter_than_ethernet_header_is_too_short() {
    for len in 0..14usize {
        let frame = vec![0x08u8; len];
        assert_eq!(make_eth_packet(frame, len).err(), Some(PacketError::BufferTooShort));
    }
    // Valid length beyond the buffer.
    let frame = eth_header([0x08, 0x00]);
    assert_eq!(make_eth_packet(frame, 15).err(), Some(PacketError::BufferTooShort));
    // A buffer larger than the frame: only the first `len` bytes count.
    let mut frame = eth_header([0x08, 0x00]);
    frame.extend(vec![0u8; 100]);
    assert_eq!(make_eth_packet(frame, 13).err(), Some(PacketError::BufferTooShort));
}

#[test]
fn ipv4_tcp_transport_follows_ihl() {
    let mut frame = eth_header([0x08, 0x00]);
    frame.extend(ipv4_header(6));
    frame.extend(vec![0u8; 20]);
    let len = frame.len();
    let packet = make_eth_packet(frame, len).unwrap();
    assert_eq!(packet.transport(), Ok(Transport::TcpTrans(Tcp { offset: 34 })));
}

#[test]
fn ipv4_options_move_the_transport() {
    let mut frame = eth_header([0x08, 0x00]);
    let mut ip = ipv4_header(6);
    ip[0] = 0x46;
    frame.extend(ip);
    frame.extend(vec![0u8; 24]);
    let len = frame.len();
    let packet = make_eth_packet(frame, len).unwrap();
    assert_eq!(packet.transport(), Ok(Transport::TcpTrans(Tcp { offset: 38 })));
}

#[test]
fn ipv4_udp_is_unsupported() {
    let mut frame = eth_header([0x08, 0x00]);
    frame.extend(ipv4_header(17));
    let len = frame.len();
    let packet = make_eth_packet(frame, len).unwrap();
    assert_eq!(packet.transport(), Err(PacketError::UnsupportedProtocol(17)));
}

#[test]
fn ipv4_truncated_header_is_too_short() {
    let mut frame = eth_header([0x08, 0x00]);
    frame.extend(vec![0x45, 0x00, 0x00, 0x28]);
    let len = frame.len();
    let packet = make_eth_packet(frame, len).unwrap();
    assert_eq!(packet.transport(), Err(PacketError::BufferTooShort));
}

#[test]
fn ipv4_header_length_beyond_frame_is_too_short() {
    let mut frame = eth_header([0x08, 0x00]);
    let mut ip = ipv4_header(6);
    ip[0] = 0x4F;
    frame.extend(ip);
    let len = frame.len();
    let packet = make_eth_packet(frame, len).unwrap();
    assert_eq!(packet.transport(), Err(PacketError::BufferTooShort));
}

#[test]
fn ipv6_without_extensions_puts_tcp_after_fixed_header() {
    let mut frame = eth_header([0x86, 0xDD]);
    frame.extend(ipv6_header(0x06));
    frame.extend(vec![0u8; 20]);
    let len = frame.len();
    let packet = make_eth_packet(frame, len).unwrap();
    assert_eq!(packet.transport(), Ok(Transport::TcpTrans(Tcp { offset: 14 + 40 })));
    let ipv6 = Ipv6 { offset: 14 };
    assert_eq!(ipv6.get_payload_offset(&packet.data[..packet.len]), Ok(54));
}

#[test]
fn ipv6_extension_chain_is_walked() {
    let mut frame = eth_header([0x86, 0xDD]);
    frame.extend(ipv6_header(0)); // hop-by-hop
    // Hop-by-hop, 16 bytes, followed by routing.
    frame.extend(vec![43, 1, 0, 0, 0, 0, 0, 0, 0, 0, 0, 0, 0, 0, 0, 0]);
    // Routing, 8 bytes, followed by destination options.
    frame.extend(vec![60, 0, 0, 0, 0, 0, 0, 0]);
    // Destination options, 8 bytes, followed by TCP.
    frame.extend(vec![6, 0, 0, 0, 0, 0, 0, 0]);
    frame.extend(vec![0u8; 20]);
    let len = frame.len();
    let packet = make_eth_packet(frame, len).unwrap();
    assert_eq!(packet.transport(), Ok(Transport::TcpTrans(Tcp { offset: 54 + 16 + 8 + 8 })));
}

#[test]
fn ipv6_fragment_header_stops_the_walk() {
    let mut frame = eth_header([0x86, 0xDD]);
    frame.extend(ipv6_header(44));
    frame.extend(vec![6, 0, 0, 0, 0, 0, 0, 0]);
    let len = frame.len();
    let packet = make_eth_packet(frame, len).unwrap();
    let ipv6 = Ipv6 { offset: 14 };
    assert_eq!(ipv6.process_ext_headers(&packet.data[..packet.len]), Ok((54, 44)));
    assert_eq!(packet.transport(), Err(PacketError::UnsupportedProtocol(44)));
}

#[test]
fn ipv6_truncated_extension_is_too_short() {
    let mut frame = eth_header([0x86, 0xDD]);
    frame.extend(ipv6_header(0));
    // Claims 16 bytes, only 8 are there.
    frame.extend(vec![6, 1, 0, 0, 0, 0, 0, 0]);
    let len = frame.len();
    let packet = make_eth_packet(frame, len).unwrap();
    assert_eq!(packet.transport(), Err(PacketError::BufferTooShort));

    let mut frame = eth_header([0x86, 0xDD]);
    frame.extend(ipv6_header(60));
    frame.push(6);
    let len = frame.len();
    let packet = make_eth_packet(frame, len).unwrap();
    assert_eq!(packet.transport(), Err(PacketError::BufferTooShort));
}

#[test]
fn ipv6_truncated_fixed_header_is_too_short() {
    let mut frame = eth_header([0x86, 0xDD]);
    frame.extend(vec![0x60, 0, 0, 0, 0, 0, 6]);
    let len = frame.len();
    let packet = make_eth_packet(frame, len).unwrap();
    assert_eq!(packet.transport(), Err(PacketError::BufferTooShort));
}

#[test]
fn swapping_addresses_twice_restores_the_frame() {
    for v6 in [false, true] {
        let mut frame = if v6 { eth_header([0x86, 0xDD]) } else { eth_header([0x08, 0x00]) };
        frame.extend(if v6 { ipv6_header(6) } else { ipv4_header(6) });
        frame.extend(vec![0xAAu8; 20]);
        let original = frame.clone();
        let len = frame.len();
        let mut packet = make_eth_packet(frame, len).unwrap();
        packet.swap_addresses().unwrap();
        if v6 {
            assert_eq!(&packet.data[22..38], &original[38..54]);
            assert_eq!(&packet.data[38..54], &original[22..38]);
        } else {
            assert_eq!(&packet.data[26..30], &[10, 0, 0, 2]);
            assert_eq!(&packet.data[30..34], &[10, 0, 0, 1]);
        }
        assert_eq!(&packet.data[..22], &original[..22]);
        packet.swap_addresses().unwrap();
        assert_eq!(packet.data, original);
    }
}

#[test]
fn swapping_addresses_of_truncated_header_is_too_short() {
    let mut frame = eth_header([0x08, 0x00]);
    frame.extend(ipv4_header(6));
    frame.extend(vec![0u8; 10]);
    let original = frame.clone();
    // The valid length cuts the IPv4 header short.
    let mut packet = make_eth_packet(frame, 30).unwrap();
    assert_eq!(packet.swap_addresses(), Err(PacketError::BufferTooShort));
    assert_eq!(packet.data, original);
}

#[test]
fn ipv4_header_length_below_fixed_header_is_rejected() {
    for first in [0x40u8, 0x41, 0x44] {
        let mut frame = eth_header([0x08, 0x00]);
        let mut ip = ipv4_header(6);
        ip[0] = first;
        frame.extend(ip);
        frame.extend(vec![0u8; 20]);
        let len = frame.len();
        let packet = make_eth_packet(frame, len).unwrap();
        assert_eq!(packet.transport(), Err(PacketError::BufferTooShort));
        let h = netbits::ipv4::Ipv4 { offset: 14 };
        assert_eq!(h.get_payload_offset(&packet.data[..packet.len]), Err(PacketError::BufferTooShort));
    }
}

#[test]
fn ipv4_written_ihl_sets_the_payload_offset() {
    let h = netbits::ipv4::Ipv4 { offset: 2 };
    let mut buf = vec![0u8; 2 + 60];
    for v in 5u32..16 {
        netbits::layout::set_field(&h, &mut buf, netbits::ipv4::IHL, v).unwrap();
        assert_eq!(h.get_payload_offset(&buf), Ok(2 + 4 * v as usize));
    }
    // Options announced past the end of the buffer.
    let mut short = vec![0u8; 2 + 30];
    netbits::layout::set_field(&h, &mut short, netbits::ipv4::IHL, 8).unwrap();
    assert_eq!(h.get_payload_offset(&short), Err(PacketError::BufferTooShort));
}
