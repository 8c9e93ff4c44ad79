//! IPv6 header (RFC 2460) and the walk over its extension headers.
use vstd::prelude::*;

use crate::error::PacketError;
use crate::layout::{
    bit_pos, get_field, header_bytes, header_fits, scalar_value, wf_layout, FieldKind, FieldSpec,
    Header,
};
use crate::packet::{HasNetworkLayer, Transport};
use crate::tcp::{Tcp, PROTO_TCP};

verus! {

pub const VERSION: usize = 0;

pub const TRAFFIC_CLASS: usize = 1;

pub const FLOW_LABEL: usize = 2;

pub const PAYLOAD_LEN: usize = 3;

pub const NEXT_HEADER: usize = 4;

pub const HOP_LIMIT: usize = 5;

pub const SRC: usize = 6;

pub const DST: usize = 7;

/// Size of the fixed header in bytes.
pub const IPV6_HEADER_LEN: usize = 40;

/// Next-header value of a Hop-by-Hop Options header.
pub const HOP_BY_HOP: u8 = 0;

/// Next-header value of a Routing header.
pub const ROUTING: u8 = 43;

/// Next-header value of a Destination Options header.
pub const DEST_OPTS: u8 = 60;

/// An IPv6 header starting at byte `offset` of a frame.
#[derive(Debug, Clone, Copy, PartialEq, Eq, Structural)]
pub struct Ipv6 {
    pub offset: usize,
}

pub open spec fn ipv6_layout() -> Seq<FieldSpec> {
    seq![
        FieldSpec { name: "version", bit_width: 4, kind: FieldKind::Scalar },
        FieldSpec { name: "traffic_class", bit_width: 8, kind: FieldKind::Scalar },
        FieldSpec { name: "flow_label", bit_width: 20, kind: FieldKind::Scalar },
        FieldSpec { name: "payload_len", bit_width: 16, kind: FieldKind::Scalar },
        FieldSpec { name: "nxt_header", bit_width: 8, kind: FieldKind::Scalar },
        FieldSpec { name: "hop_limit", bit_width: 8, kind: FieldKind::Scalar },
        FieldSpec { name: "src", bit_width: 8, kind: FieldKind::Array(16) },
        FieldSpec { name: "dst", bit_width: 8, kind: FieldKind::Array(16) },
    ]
}

pub proof fn lemma_ipv6_layout()
    ensures
        wf_layout(ipv6_layout()),
        header_bytes(ipv6_layout()) == IPV6_HEADER_LEN,
        bit_pos(ipv6_layout(), NEXT_HEADER as int) == 48,
        bit_pos(ipv6_layout(), SRC as int) == 64,
        bit_pos(ipv6_layout(), DST as int) == 192,
        crate::layout::swappable(ipv6_layout(), SRC as int, DST as int),
{
    let l = ipv6_layout();
    assert(l[6].kind == FieldKind::Array(16) && l[6].bit_width == 8);
    assert(l[7].kind == FieldKind::Array(16) && l[7].bit_width == 8);
    assert(crate::layout::field_bits(l[6]) == 128);
    assert(crate::layout::field_bits(l[7]) == 128);
    assert(bit_pos(l, 0) == 0);
    assert(bit_pos(l, 1) == 4);
    assert(bit_pos(l, 2) == 12);
    assert(bit_pos(l, 3) == 32);
    assert(bit_pos(l, 4) == 48);
    assert(bit_pos(l, 5) == 56);
    assert(bit_pos(l, 6) == 64);
    assert(bit_pos(l, 7) == 192);
    assert(bit_pos(l, 8) == 320);
}

impl Header for Ipv6 {
    open spec fn spec_layout() -> Seq<FieldSpec> {
        ipv6_layout()
    }

    open spec fn spec_offset(&self) -> usize {
        self.offset
    }

    proof fn lemma_layout_wf() {
        lemma_ipv6_layout();
    }

    fn layout() -> (r: Vec<FieldSpec>) {
        proof {
            lemma_ipv6_layout();
        }
        let r = vec![
            FieldSpec { name: "version", bit_width: 4, kind: FieldKind::Scalar },
            FieldSpec { name: "traffic_class", bit_width: 8, kind: FieldKind::Scalar },
            FieldSpec { name: "flow_label", bit_width: 20, kind: FieldKind::Scalar },
            FieldSpec { name: "payload_len", bit_width: 16, kind: FieldKind::Scalar },
            FieldSpec { name: "nxt_header", bit_width: 8, kind: FieldKind::Scalar },
            FieldSpec { name: "hop_limit", bit_width: 8, kind: FieldKind::Scalar },
            FieldSpec { name: "src", bit_width: 8, kind: FieldKind::Array(16) },
            FieldSpec { name: "dst", bit_width: 8, kind: FieldKind::Array(16) },
        ];
        assert(r@ =~= ipv6_layout());
        r
    }

    fn offset(&self) -> (r: usize) {
        self.offset
    }
}

/// The next-header field as read from `s`.
pub open spec fn next_header_of(h: Ipv6, s: Seq<u8>) -> Result<u32, PacketError> {
    scalar_value(s, h.offset, ipv6_layout(), NEXT_HEADER as int)
}

/// Extension headers that are walked over: each starts with the next
/// header's type and its own length in 8-byte units beyond the first 8.
pub open spec fn is_chained_ext(t: u8) -> bool {
    t == HOP_BY_HOP || t == ROUTING || t == DEST_OPTS
}

/// Size in bytes of an extension header whose length byte is `len`.
pub open spec fn ext_size(len: u8) -> int {
    (len + 1) * 8
}

/// Walks the extension headers from byte `cur`, where a header of type
/// `next` starts, to the first header that is not walked over: its offset
/// and its type.
pub open spec fn ext_walk(s: Seq<u8>, cur: int, next: u8) -> Result<(usize, u8), PacketError>
    decreases s.len() - cur,
{
    if !is_chained_ext(next) {
        Ok((cur as usize, next))
    } else if cur + 2 > s.len() {
        Err(PacketError::BufferTooShort)
    } else if cur + ext_size(s[cur + 1]) > s.len() {
        Err(PacketError::BufferTooShort)
    } else {
        ext_walk(s, cur + ext_size(s[cur + 1]), s[cur])
    }
}

/// The walk only moves forward, and stops within the buffer.
pub proof fn lemma_ext_walk_bounds(s: Seq<u8>, cur: int, next: u8)
    requires
        0 <= cur <= s.len(),
        s.len() <= usize::MAX,
    ensures
        ext_walk(s, cur, next) is Ok ==> cur <= ext_walk(s, cur, next)->Ok_0.0 <= s.len(),
    decreases s.len() - cur,
{
    if is_chained_ext(next) && cur + 2 <= s.len() && cur + ext_size(s[cur + 1]) <= s.len() {
        lemma_ext_walk_bounds(s, cur + ext_size(s[cur + 1]), s[cur]);
    }
}

/// Where the upper-layer header of the datagram at `h` starts, and its type.
pub open spec fn upper_layer_of(h: Ipv6, s: Seq<u8>) -> Result<(usize, u8), PacketError> {
    match next_header_of(h, s) {
        Err(e) => Err(e),
        Ok(t) => ext_walk(s, h.offset + IPV6_HEADER_LEN, t as u8),
    }
}

impl Ipv6 {
    /// Reads the next-header field: the type of what follows the fixed header.
    pub fn next_header(&self, buf: &[u8]) -> (r: Result<u8, PacketError>)
        ensures
            r is Ok <==> next_header_of(*self, buf@) is Ok,
            r is Ok ==> r->Ok_0 == next_header_of(*self, buf@)->Ok_0,
            r is Err ==> r == Err::<u8, PacketError>(PacketError::BufferTooShort),
    {
        proof {
            vstd::arithmetic::power2::lemma2_to64();
        }
        match get_field(self, buf, NEXT_HEADER) {
            Ok(v) => Ok(v as u8),
            Err(e) => Err(e),
        }
    }

    /// Follows the chain of extension headers that starts after the fixed
    /// header, and returns where the upper-layer header starts and its type.
    pub fn process_ext_headers(&self, buf: &[u8]) -> (r: Result<(usize, u8), PacketError>)
        ensures
            r == upper_layer_of(*self, buf@),
    {
        let mut next = match self.next_header(buf) {
            Ok(t) => t,
            Err(e) => return Err(e),
        };
        proof {
            lemma_ipv6_layout();
            assert(header_fits(buf@, self.offset, ipv6_layout()));
            assert(self.offset + IPV6_HEADER_LEN <= buf.len());
        }
        let mut cur: usize = self.offset + IPV6_HEADER_LEN;
        while next == HOP_BY_HOP || next == ROUTING || next == DEST_OPTS
            invariant
                cur <= buf@.len(),
                ext_walk(buf@, cur as int, next) == upper_layer_of(*self, buf@),
            decreases buf@.len() - cur,
        {
            if buf.len() - cur < 2 {
                return Err(PacketError::BufferTooShort);
            }
            let size: usize = (buf[cur + 1] as usize + 1) * 8;
            if buf.len() - cur < size {
                return Err(PacketError::BufferTooShort);
            }
            next = buf[cur];
            cur = cur + size;
        }
        Ok((cur, next))
    }
}

impl HasNetworkLayer for Ipv6 {
    open spec fn spec_payload_offset(&self, s: Seq<u8>) -> Result<usize, PacketError> {
        match upper_layer_of(*self, s) {
            Err(e) => Err(e),
            Ok(found) => Ok(found.0),
        }
    }

    open spec fn spec_transport(&self, s: Seq<u8>) -> Result<Transport, PacketError> {
        match upper_layer_of(*self, s) {
            Err(e) => Err(e),
            Ok(found) => if found.1 == PROTO_TCP {
                Ok(Transport::TcpTrans(Tcp { offset: found.0 }))
            } else {
                Err(PacketError::UnsupportedProtocol(found.1))
            },
        }
    }

    fn get_payload_offset(&self, data: &[u8]) -> (r: Result<usize, PacketError>) {
        match self.process_ext_headers(data) {
            Ok(found) => Ok(found.0),
            Err(e) => Err(e),
        }
    }

    fn get_transport(&self, data: &[u8]) -> (r: Result<Transport, PacketError>) {
        match self.process_ext_headers(data) {
            Ok(found) => if found.1 == PROTO_TCP {
                Ok(Transport::TcpTrans(Tcp { offset: found.0 }))
            } else {
                Err(PacketError::UnsupportedProtocol(found.1))
            },
            Err(e) => Err(e),
        }
    }
}

} // verus!
