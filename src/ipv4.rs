//! IPv4 header (RFC 791).
use vstd::prelude::*;

use crate::error::PacketError;
use crate::layout::{
    bit_pos, field_bits, get_field, header_bytes, scalar_value, wf_layout, FieldKind, FieldSpec,
    Header,
};
use crate::packet::{HasNetworkLayer, Transport};
use crate::tcp::{Tcp, PROTO_TCP};

verus! {

pub const VERSION: usize = 0;

pub const IHL: usize = 1;

pub const TOS: usize = 2;

pub const TOTAL_LEN: usize = 3;

pub const IDENT: usize = 4;

pub const FLAG_RES: usize = 5;

pub const FLAG_DF: usize = 6;

pub const FLAG_MF: usize = 7;

pub const FRAG_OFFS: usize = 8;

pub const TTL: usize = 9;

pub const PROTOCOL: usize = 10;

pub const HEADER_CHK: usize = 11;

pub const SRC: usize = 12;

pub const DST: usize = 13;

/// Size of the header without options, in bytes.
pub const IPV4_HEADER_LEN: usize = 20;

/// An IPv4 header starting at byte `offset` of a frame.
#[derive(Debug, Clone, Copy, PartialEq, Eq, Structural)]
pub struct Ipv4 {
    pub offset: usize,
}

pub open spec fn ipv4_layout() -> Seq<FieldSpec> {
    seq![
        FieldSpec { name: "version", bit_width: 4, kind: FieldKind::Scalar },
        FieldSpec { name: "ihl", bit_width: 4, kind: FieldKind::Scalar },
        FieldSpec { name: "tos", bit_width: 8, kind: FieldKind::Scalar },
        FieldSpec { name: "len", bit_width: 16, kind: FieldKind::Scalar },
        FieldSpec { name: "ident", bit_width: 16, kind: FieldKind::Scalar },
        FieldSpec { name: "flag_res", bit_width: 1, kind: FieldKind::Scalar },
        FieldSpec { name: "flag_df", bit_width: 1, kind: FieldKind::Scalar },
        FieldSpec { name: "flag_mf", bit_width: 1, kind: FieldKind::Scalar },
        FieldSpec { name: "frag_offs", bit_width: 13, kind: FieldKind::Scalar },
        FieldSpec { name: "ttl", bit_width: 8, kind: FieldKind::Scalar },
        FieldSpec { name: "protocol", bit_width: 8, kind: FieldKind::Scalar },
        FieldSpec { name: "header_chk", bit_width: 16, kind: FieldKind::Scalar },
        FieldSpec { name: "src", bit_width: 8, kind: FieldKind::Array(4) },
        FieldSpec { name: "dst", bit_width: 8, kind: FieldKind::Array(4) },
    ]
}

pub proof fn lemma_ipv4_layout()
    ensures
        wf_layout(ipv4_layout()),
        header_bytes(ipv4_layout()) == IPV4_HEADER_LEN,
        bit_pos(ipv4_layout(), FLAG_RES as int) == 48,
        bit_pos(ipv4_layout(), PROTOCOL as int) == 72,
        bit_pos(ipv4_layout(), SRC as int) == 96,
        bit_pos(ipv4_layout(), DST as int) == 128,
        crate::layout::swappable(ipv4_layout(), SRC as int, DST as int),
{
    let l = ipv4_layout();
    assert(bit_pos(l, 0) == 0);
    assert(bit_pos(l, 1) == 4);
    assert(bit_pos(l, 2) == 8);
    assert(bit_pos(l, 3) == 16);
    assert(bit_pos(l, 4) == 32);
    assert(bit_pos(l, 5) == 48);
    assert(bit_pos(l, 6) == 49);
    assert(bit_pos(l, 7) == 50);
    assert(bit_pos(l, 8) == 51);
    assert(bit_pos(l, 9) == 64);
    assert(bit_pos(l, 10) == 72);
    assert(bit_pos(l, 11) == 80);
    assert(bit_pos(l, 12) == 96);
    assert(l[12].kind == FieldKind::Array(4) && l[12].bit_width == 8);
    assert(l[13].kind == FieldKind::Array(4) && l[13].bit_width == 8);
    assert(field_bits(l[12]) == 32);
    assert(field_bits(l[13]) == 32);
    assert(bit_pos(l, 13) == 128);
    assert(bit_pos(l, 14) == 160);
}

impl Header for Ipv4 {
    open spec fn spec_layout() -> Seq<FieldSpec> {
        ipv4_layout()
    }

    open spec fn spec_offset(&self) -> usize {
        self.offset
    }

    proof fn lemma_layout_wf() {
        lemma_ipv4_layout();
    }

    fn layout() -> (r: Vec<FieldSpec>) {
        proof {
            lemma_ipv4_layout();
        }
        let r = vec![
            FieldSpec { name: "version", bit_width: 4, kind: FieldKind::Scalar },
            FieldSpec { name: "ihl", bit_width: 4, kind: FieldKind::Scalar },
            FieldSpec { name: "tos", bit_width: 8, kind: FieldKind::Scalar },
            FieldSpec { name: "len", bit_width: 16, kind: FieldKind::Scalar },
            FieldSpec { name: "ident", bit_width: 16, kind: FieldKind::Scalar },
            FieldSpec { name: "flag_res", bit_width: 1, kind: FieldKind::Scalar },
            FieldSpec { name: "flag_df", bit_width: 1, kind: FieldKind::Scalar },
            FieldSpec { name: "flag_mf", bit_width: 1, kind: FieldKind::Scalar },
            FieldSpec { name: "frag_offs", bit_width: 13, kind: FieldKind::Scalar },
            FieldSpec { name: "ttl", bit_width: 8, kind: FieldKind::Scalar },
            FieldSpec { name: "protocol", bit_width: 8, kind: FieldKind::Scalar },
            FieldSpec { name: "header_chk", bit_width: 16, kind: FieldKind::Scalar },
            FieldSpec { name: "src", bit_width: 8, kind: FieldKind::Array(4) },
            FieldSpec { name: "dst", bit_width: 8, kind: FieldKind::Array(4) },
        ];
        assert(r@ =~= ipv4_layout());
        r
    }

    fn offset(&self) -> (r: usize) {
        self.offset
    }
}

/// The IHL field (header length in 32-bit words) as read from `s`.
pub open spec fn ihl_of(h: Ipv4, s: Seq<u8>) -> Result<u32, PacketError> {
    scalar_value(s, h.offset, ipv4_layout(), IHL as int)
}

/// The protocol field as read from `s`.
pub open spec fn protocol_of(h: Ipv4, s: Seq<u8>) -> Result<u32, PacketError> {
    scalar_value(s, h.offset, ipv4_layout(), PROTOCOL as int)
}

impl Ipv4 {
    /// Reads the IHL field: the header length counted in 32-bit words.
    pub fn ihl(&self, buf: &[u8]) -> (r: Result<u8, PacketError>)
        ensures
            r is Ok <==> ihl_of(*self, buf@) is Ok,
            r is Ok ==> r->Ok_0 == ihl_of(*self, buf@)->Ok_0 && r->Ok_0 < 16,
            r is Err ==> r == Err::<u8, PacketError>(PacketError::BufferTooShort),
    {
        proof {
            vstd::arithmetic::power2::lemma2_to64();
        }
        match get_field(self, buf, IHL) {
            Ok(v) => Ok(v as u8),
            Err(e) => Err(e),
        }
    }

    /// The header length in bytes: four times the IHL field.
    pub fn header_length_bytes(&self, buf: &[u8]) -> (r: Result<usize, PacketError>)
        ensures
            r is Ok <==> ihl_of(*self, buf@) is Ok,
            r is Ok ==> r->Ok_0 == ihl_of(*self, buf@)->Ok_0 * 4,
            r is Err ==> r == Err::<usize, PacketError>(PacketError::BufferTooShort),
    {
        match self.ihl(buf) {
            Ok(ihl) => Ok(ihl as usize * 4),
            Err(e) => Err(e),
        }
    }

    /// Reads the protocol number of the payload.
    pub fn protocol(&self, buf: &[u8]) -> (r: Result<u8, PacketError>)
        ensures
            r is Ok <==> protocol_of(*self, buf@) is Ok,
            r is Ok ==> r->Ok_0 == protocol_of(*self, buf@)->Ok_0,
            r is Err ==> r == Err::<u8, PacketError>(PacketError::BufferTooShort),
    {
        proof {
            vstd::arithmetic::power2::lemma2_to64();
        }
        match get_field(self, buf, PROTOCOL) {
            Ok(v) => Ok(v as u8),
            Err(e) => Err(e),
        }
    }
}

/// Writing the IHL field and then asking where the payload starts gives the
/// header's offset plus four bytes per word written, whenever that length
/// covers the fixed header and stays within the buffer.
pub proof fn lemma_ihl_payload_offset(before: Seq<u8>, after: Seq<u8>, h: Ipv4, v: u32)
    requires
        crate::layout::header_fits(before, h.offset, ipv4_layout()),
        crate::layout::scalar_written(before, after, h.offset, ipv4_layout(), IHL as int, v),
        5 <= v < 16,
        h.offset + 4 * v <= before.len(),
    ensures
        h.spec_payload_offset(after) == Ok::<usize, PacketError>((h.offset + 4 * v) as usize),
{
    lemma_ipv4_layout();
    crate::layout::lemma_scalar_round_trip(before, after, h.offset, ipv4_layout(), IHL as int, v);
}

impl HasNetworkLayer for Ipv4 {
    open spec fn spec_payload_offset(&self, s: Seq<u8>) -> Result<usize, PacketError> {
        match ihl_of(*self, s) {
            Err(e) => Err(e),
            Ok(ihl) => if ihl * 4 < IPV4_HEADER_LEN {
                Err(PacketError::BufferTooShort)
            } else if self.offset + ihl * 4 > s.len() {
                Err(PacketError::BufferTooShort)
            } else {
                Ok((self.offset + ihl * 4) as usize)
            },
        }
    }

    open spec fn spec_transport(&self, s: Seq<u8>) -> Result<Transport, PacketError> {
        match self.spec_payload_offset(s) {
            Err(e) => Err(e),
            Ok(next) => if protocol_of(*self, s) == Ok::<u32, PacketError>(PROTO_TCP as u32) {
                Ok(Transport::TcpTrans(Tcp { offset: next }))
            } else {
                Err(PacketError::UnsupportedProtocol(protocol_of(*self, s)->Ok_0 as u8))
            },
        }
    }

    fn get_payload_offset(&self, data: &[u8]) -> (r: Result<usize, PacketError>) {
        let len = match self.header_length_bytes(data) {
            Ok(n) => n,
            Err(e) => return Err(e),
        };
        // A header length below the fixed part of the header is malformed.
        if len < IPV4_HEADER_LEN {
            return Err(PacketError::BufferTooShort);
        }
        if self.offset > data.len() || data.len() - self.offset < len {
            return Err(PacketError::BufferTooShort);
        }
        Ok(self.offset + len)
    }

    fn get_transport(&self, data: &[u8]) -> (r: Result<Transport, PacketError>) {
        let next = match self.get_payload_offset(data) {
            Ok(n) => n,
            Err(e) => return Err(e),
        };
        let protocol = match self.protocol(data) {
            Ok(p) => p,
            Err(e) => return Err(e),
        };
        if protocol == PROTO_TCP {
            Ok(Transport::TcpTrans(Tcp { offset: next }))
        } else {
            Err(PacketError::UnsupportedProtocol(protocol))
        }
    }
}

} // verus!
