//! Ethernet II header (no 802.1Q tag).
use vstd::prelude::*;

use crate::error::PacketError;
use crate::ipv4::Ipv4;
use crate::ipv6::Ipv6;
use crate::layout::{
    bit_pos, field_bits, get_field, header_bytes, header_fits, scalar_value, wf_layout, FieldKind, FieldSpec,
    Header,
};
use crate::packet::{HasLinkLayer, Network};

verus! {

/// Field index of the destination MAC address.
pub const DST: usize = 0;

/// Field index of the source MAC address.
pub const SRC: usize = 1;

/// Field index of the ethertype.
pub const ETHERTYPE: usize = 2;

/// Size of the header in bytes.
pub const ETH_HEADER_LEN: usize = 14;

/// Ethertype of IPv4.
pub const ETHERTYPE_IPV4: u16 = 0x0800;

/// Ethertype of IPv6.
pub const ETHERTYPE_IPV6: u16 = 0x86DD;

/// An Ethernet header starting at byte `offset` of a frame.
#[derive(Debug, Clone, Copy, PartialEq, Eq, Structural)]
pub struct Eth {
    pub offset: usize,
}

pub open spec fn eth_layout() -> Seq<FieldSpec> {
    seq![
        FieldSpec { name: "dst", bit_width: 8, kind: FieldKind::Array(6) },
        FieldSpec { name: "src", bit_width: 8, kind: FieldKind::Array(6) },
        FieldSpec { name: "ethertype", bit_width: 16, kind: FieldKind::Scalar },
    ]
}

pub proof fn lemma_eth_layout()
    ensures
        wf_layout(eth_layout()),
        header_bytes(eth_layout()) == ETH_HEADER_LEN,
        bit_pos(eth_layout(), SRC as int) == 48,
        bit_pos(eth_layout(), ETHERTYPE as int) == 96,
{
    let l = eth_layout();
    assert(l[0].kind == FieldKind::Array(6));
    assert(l[0].bit_width == 8);
    assert(field_bits(l[0]) == 48);
    assert(field_bits(l[1]) == 48);
    assert(bit_pos(l, 0) == 0);
    assert(bit_pos(l, 1) == 48);
    assert(bit_pos(l, 2) == 96);
    assert(bit_pos(l, 3) == 112);
}

impl Header for Eth {
    open spec fn spec_layout() -> Seq<FieldSpec> {
        eth_layout()
    }

    open spec fn spec_offset(&self) -> usize {
        self.offset
    }

    proof fn lemma_layout_wf() {
        lemma_eth_layout();
    }

    fn layout() -> (r: Vec<FieldSpec>) {
        proof {
            lemma_eth_layout();
        }
        let r = vec![
            FieldSpec { name: "dst", bit_width: 8, kind: FieldKind::Array(6) },
            FieldSpec { name: "src", bit_width: 8, kind: FieldKind::Array(6) },
            FieldSpec { name: "ethertype", bit_width: 16, kind: FieldKind::Scalar },
        ];
        assert(r@ =~= eth_layout());
        r
    }

    fn offset(&self) -> (r: usize) {
        self.offset
    }
}

/// The ethertype field as read from `s`.
pub open spec fn ethertype_of(eth: Eth, s: Seq<u8>) -> Result<u32, PacketError> {
    scalar_value(s, eth.offset, eth_layout(), ETHERTYPE as int)
}

impl Eth {
    /// Reads the ethertype.
    pub fn ethertype(&self, buf: &[u8]) -> (r: Result<u16, PacketError>)
        ensures
            r is Ok <==> ethertype_of(*self, buf@) is Ok,
            r is Ok ==> r->Ok_0 == ethertype_of(*self, buf@)->Ok_0,
            r is Err ==> r == Err::<u16, PacketError>(PacketError::BufferTooShort),
    {
        proof {
            vstd::arithmetic::power2::lemma2_to64();
        }
        match get_field(self, buf, ETHERTYPE) {
            Ok(v) => Ok(v as u16),
            Err(e) => Err(e),
        }
    }
}

impl HasLinkLayer for Eth {
    open spec fn spec_payload_offset(&self, s: Seq<u8>) -> Result<usize, PacketError> {
        if !header_fits(s, self.offset, eth_layout()) {
            Err(PacketError::BufferTooShort)
        } else {
            Ok((self.offset + ETH_HEADER_LEN) as usize)
        }
    }

    open spec fn spec_network(&self, s: Seq<u8>) -> Result<Network, PacketError> {
        match ethertype_of(*self, s) {
            Err(e) => Err(e),
            Ok(t) => {
                let next = (self.offset + ETH_HEADER_LEN) as usize;
                if t == ETHERTYPE_IPV4 {
                    Ok(Network::Ipv4Net(Ipv4 { offset: next }))
                } else if t == ETHERTYPE_IPV6 {
                    Ok(Network::Ipv6Net(Ipv6 { offset: next }))
                } else {
                    Err(PacketError::UnsupportedEtherType(t as u16))
                }
            },
        }
    }

    fn get_payload_offset(&self, data: &[u8]) -> (r: Result<usize, PacketError>) {
        proof {
            lemma_eth_layout();
        }
        if self.offset > data.len() || data.len() - self.offset < ETH_HEADER_LEN {
            return Err(PacketError::BufferTooShort);
        }
        Ok(self.offset + ETH_HEADER_LEN)
    }

    fn get_network(&self, data: &[u8]) -> (r: Result<Network, PacketError>) {
        let ethertype = match self.ethertype(data) {
            Ok(t) => t,
            Err(e) => return Err(e),
        };
        let next = match self.get_payload_offset(data) {
            Ok(n) => n,
            Err(e) => return Err(e),
        };
        proof {
            lemma_eth_layout();
        }
        if ethertype == ETHERTYPE_IPV4 {
            Ok(Network::Ipv4Net(Ipv4 { offset: next }))
        } else if ethertype == ETHERTYPE_IPV6 {
            Ok(Network::Ipv6Net(Ipv6 { offset: next }))
        } else {
            Err(PacketError::UnsupportedEtherType(ethertype))
        }
    }
}

} // verus!
