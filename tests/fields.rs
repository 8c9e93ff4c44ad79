use netbits::codec::{read_array, read_bits, write_array, write_bits};
use netbits::eth::{self, Eth};
use netbits::ipv4::{self, Ipv4};
use netbits::ipv6::{self, Ipv6};
use netbits::layout::{field_pos, get_bytes, get_field, layout_bytes, set_bytes, set_field, Header};
use netbits::tcp::{self, Tcp};
use netbits::util::to_hex_string;
use netbits::PacketError;

#[test]
fn ipv4_flags_and_fragment_offset_pack_into_bytes_six_and_seven() {
    let mut buf = vec![0u8; 20];
    let h = Ipv4 { offset: 0 };
    set_field(&h, &mut buf, ipv4::FLAG_RES, 0).unwrap();
    set_field(&h, &mut buf, ipv4::FLAG_DF, 1).unwrap();
    set_field(&h, &mut buf, ipv4::FLAG_MF, 0).unwrap();
    set_field(&h, &mut buf, ipv4::FRAG_OFFS, 0x1234 & 0x1FFF).unwrap();
    assert_eq!(&buf[6..8], &[0x52, 0x34]);
    for (i, b) in buf.iter().enumerate() {
        if i != 6 && i != 7 {
            assert_eq!(*b, 0);
        }
    }
    assert_eq!(get_field(&h, &buf, ipv4::FLAG_RES), Ok(0));
    assert_eq!(get_field(&h, &buf, ipv4::FLAG_DF), Ok(1));
    assert_eq!(get_field(&h, &buf, ipv4::FLAG_MF), Ok(0));
    assert_eq!(get_field(&h, &buf, ipv4::FRAG_OFFS), Ok(0x1234));
}

#[test]
fn ipv4_ihl_five_is_twenty_bytes() {
    let mut buf = vec![0u8; 20];
    buf[0] = 0x45;
    let h = Ipv4 { offset: 0 };
    assert_eq!(h.ihl(&buf), Ok(5));
    assert_eq!(h.header_length_bytes(&buf), Ok(20));
    assert_eq!(get_field(&h, &buf, ipv4::VERSION), Ok(4));
}

#[test]
fn ipv4_fields_read_at_an_offset() {
    let mut buf = vec![0xEEu8; 3];
    buf.extend(vec![
        0x45, 0xB8, 0x05, 0xDC, 0xBE, 0xEF, 0x20, 0x07, 0x3F, 0x11, 0xAB, 0xCD, 192, 168, 1, 9,
        8, 8, 4, 4,
    ]);
    let h = Ipv4 { offset: 3 };
    assert_eq!(get_field(&h, &buf, ipv4::TOS), Ok(0xB8));
    assert_eq!(get_field(&h, &buf, ipv4::TOTAL_LEN), Ok(1500));
    assert_eq!(get_field(&h, &buf, ipv4::IDENT), Ok(0xBEEF));
    assert_eq!(get_field(&h, &buf, ipv4::FLAG_MF), Ok(1));
    assert_eq!(get_field(&h, &buf, ipv4::FRAG_OFFS), Ok(7));
    assert_eq!(get_field(&h, &buf, ipv4::TTL), Ok(0x3F));
    assert_eq!(h.protocol(&buf), Ok(17));
    assert_eq!(get_field(&h, &buf, ipv4::HEADER_CHK), Ok(0xABCD));
    assert_eq!(get_bytes(&h, &buf, ipv4::SRC), Ok(&[192u8, 168, 1, 9][..]));
    assert_eq!(get_bytes(&h, &buf, ipv4::DST), Ok(&[8u8, 8, 4, 4][..]));
    // One byte short of the header.
    assert_eq!(get_field(&h, &buf[..22], ipv4::TOS), Err(PacketError::BufferTooShort));
    assert_eq!(get_bytes(&h, &buf[..22], ipv4::SRC), Err(PacketError::BufferTooShort));
}

#[test]
fn ipv6_fields_straddle_bytes() {
    let mut buf = vec![0u8; 40];
    let h = Ipv6 { offset: 0 };
    set_field(&h, &mut buf, ipv6::VERSION, 6).unwrap();
    set_field(&h, &mut buf, ipv6::TRAFFIC_CLASS, 0xAB).unwrap();
    set_field(&h, &mut buf, ipv6::FLOW_LABEL, 0xCDEF1).unwrap();
    assert_eq!(&buf[0..4], &[0x6A, 0xBC, 0xDE, 0xF1]);
    assert_eq!(get_field(&h, &buf, ipv6::VERSION), Ok(6));
    assert_eq!(get_field(&h, &buf, ipv6::TRAFFIC_CLASS), Ok(0xAB));
    assert_eq!(get_field(&h, &buf, ipv6::FLOW_LABEL), Ok(0xCDEF1));
    set_field(&h, &mut buf, ipv6::NEXT_HEADER, 6).unwrap();
    assert_eq!(buf[6], 6);
    assert_eq!(h.next_header(&buf), Ok(6));
}

#[test]
fn every_scalar_field_round_trips_and_keeps_the_others() {
    fn check<H: Header>(h: &H, size: usize) {
        let layout = H::layout();
        for (i, f) in layout.iter().enumerate() {
            if let netbits::layout::FieldKind::Scalar = f.kind {
                let mut buf: Vec<u8> = (0..size as u32 + 4).map(|b| (b * 37 + 11) as u8).collect();
                let before = buf.clone();
                let top: u64 = (1u64 << f.bit_width) - 1;
                for v in [0u64, 1, top, top / 3] {
                    set_field(h, &mut buf, i, v as u32).unwrap();
                    assert_eq!(get_field(h, &buf, i), Ok(v as u32), "field {}", f.name);
                    for (j, g) in layout.iter().enumerate() {
                        if j == i {
                            continue;
                        }
                        match g.kind {
                            netbits::layout::FieldKind::Scalar => {
                                assert_eq!(get_field(h, &buf, j), get_field(h, &before, j))
                            }
                            netbits::layout::FieldKind::Array(_) => {
                                assert_eq!(get_bytes(h, &buf, j), get_bytes(h, &before, j))
                            }
                        }
                    }
                }
            }
        }
    }
    check(&Eth { offset: 2 }, 16);
    check(&Ipv4 { offset: 1 }, 21);
    check(&Ipv6 { offset: 3 }, 43);
    check(&Tcp { offset: 0 }, 20);
}

#[test]
fn address_fields_round_trip() {
    let mut buf = vec![0x11u8; 40];
    let h = Ipv6 { offset: 0 };
    let addr: Vec<u8> = (1..=16).collect();
    set_bytes(&h, &mut buf, ipv6::DST, &addr).unwrap();
    assert_eq!(get_bytes(&h, &buf, ipv6::DST), Ok(&addr[..]));
    assert_eq!(get_bytes(&h, &buf, ipv6::SRC), Ok(&[0x11u8; 16][..]));
    assert_eq!(&buf[24..40], &addr[..]);

    let mut frame = vec![0u8; 14];
    let e = Eth { offset: 0 };
    set_bytes(&e, &mut frame, eth::SRC, &[1, 2, 3, 4, 5, 6]).unwrap();
    set_field(&e, &mut frame, eth::ETHERTYPE, 0x86DD).unwrap();
    assert_eq!(frame, vec![0, 0, 0, 0, 0, 0, 1, 2, 3, 4, 5, 6, 0x86, 0xDD]);
    assert_eq!(e.ethertype(&frame), Ok(0x86DD));
}

#[test]
fn value_wider_than_field_is_a_range_error() {
    let mut buf = vec![0u8; 20];
    let h = Ipv4 { offset: 0 };
    assert_eq!(set_field(&h, &mut buf, ipv4::IHL, 16), Err(PacketError::RangeError));
    assert_eq!(set_field(&h, &mut buf, ipv4::FLAG_DF, 2), Err(PacketError::RangeError));
    assert_eq!(set_field(&h, &mut buf, ipv4::FRAG_OFFS, 0x2000), Err(PacketError::RangeError));
    assert_eq!(buf, vec![0u8; 20]);
    assert_eq!(set_field(&h, &mut buf, ipv4::FRAG_OFFS, 0x1FFF), Ok(()));
    assert_eq!(
        set_bytes(&h, &mut buf, ipv4::SRC, &[1, 2, 3]),
        Err(PacketError::RangeError)
    );
    let t = Tcp { offset: 0 };
    let mut seg = vec![0u8; 20];
    assert_eq!(set_field(&t, &mut seg, tcp::SEQ, u32::MAX), Ok(()));
    assert_eq!(get_field(&t, &seg, tcp::SEQ), Ok(u32::MAX));
    assert_eq!(set_field(&t, &mut seg, tcp::SYN, 1), Ok(()));
    assert_eq!(seg[13], 0x02);
}

#[test]
fn writes_past_the_buffer_are_too_short() {
    let mut buf = vec![0u8; 19];
    let h = Ipv4 { offset: 0 };
    assert_eq!(set_field(&h, &mut buf, ipv4::TTL, 1), Err(PacketError::BufferTooShort));
    assert_eq!(set_bytes(&h, &mut buf, ipv4::DST, &[1, 2, 3, 4]), Err(PacketError::BufferTooShort));
    assert_eq!(buf, vec![0u8; 19]);
    let h = Ipv4 { offset: usize::MAX };
    assert_eq!(get_field(&h, &buf, ipv4::TTL), Err(PacketError::BufferTooShort));
}

#[test]
fn layout_positions_are_cumulative() {
    let l = Ipv4::layout();
    assert_eq!(field_pos(&l, ipv4::FLAG_RES), 48);
    assert_eq!(field_pos(&l, ipv4::FRAG_OFFS), 51);
    assert_eq!(field_pos(&l, ipv4::DST), 128);
    assert_eq!(layout_bytes(&l), 20);
    assert_eq!(layout_bytes(&Eth::layout()), 14);
    assert_eq!(layout_bytes(&Ipv6::layout()), 40);
    assert_eq!(layout_bytes(&Tcp::layout()), 20);
    assert_eq!(l[ipv4::IHL].name, "ihl");
}

#[test]
fn raw_bit_codec_spans_bytes() {
    let buf = [0b1010_1100u8, 0b0101_0011, 0xFF];
    assert_eq!(read_bits(&buf, 0, 0, 4), Ok(0b1010));
    assert_eq!(read_bits(&buf, 0, 4, 8), Ok(0b1100_0101));
    assert_eq!(read_bits(&buf, 1, 3, 5), Ok(0b10011));
    assert_eq!(read_bits(&buf, 0, 0, 24), Ok(0xAC53FF));
    assert_eq!(read_bits(&buf, 0, 0, 0), Ok(0));
    assert_eq!(read_bits(&buf, 2, 1, 8), Err(PacketError::BufferTooShort));
    assert_eq!(read_bits(&buf, 0, 0, 32), Err(PacketError::BufferTooShort));

    let mut out = [0xFFu8; 3];
    write_bits(&mut out, 0, 5, 6, 0).unwrap();
    assert_eq!(out, [0b1111_1000, 0b0001_1111, 0xFF]);
    assert_eq!(write_bits(&mut out, 0, 5, 6, 64), Err(PacketError::RangeError));
    assert_eq!(write_bits(&mut out, 1, 10, 7, 0), Err(PacketError::BufferTooShort));
    let mut word = [0u8; 4];
    write_bits(&mut word, 0, 0, 32, 0xDEADBEEF).unwrap();
    assert_eq!(word, [0xDE, 0xAD, 0xBE, 0xEF]);
}

#[test]
fn raw_array_codec() {
    let mut buf = [0u8; 8];
    assert_eq!(write_array(&mut buf, 2, 8, 8, 3, &[7, 8, 9]), Ok(()));
    assert_eq!(buf, [0, 0, 0, 7, 8, 9, 0, 0]);
    assert_eq!(read_array(&buf, 2, 8, 8, 3), Ok(&[7u8, 8, 9][..]));
    assert_eq!(read_array(&buf, 2, 8, 16, 2), Ok(&[7u8, 8, 9, 0][..]));
    assert_eq!(read_array(&buf, 6, 8, 8, 2), Err(PacketError::BufferTooShort));
    assert_eq!(write_array(&mut buf, 0, 0, 8, 2, &[1]), Err(PacketError::RangeError));
    assert_eq!(write_array(&mut buf, 7, 0, 8, 2, &[1, 2]), Err(PacketError::BufferTooShort));
    assert_eq!(buf, [0, 0, 0, 7, 8, 9, 0, 0]);
}

#[test]
fn hex_string_lists_bytes() {
    assert_eq!(to_hex_string(&[]), "");
    assert_eq!(to_hex_string(&[0x0A]), "0x0A");
    assert_eq!(to_hex_string(&[0x00, 0xFF, 0x3c]), "0x00, 0xFF, 0x3C");
}
