//! Frames decoded layer by layer: link, network, transport.
use vstd::prelude::*;

use crate::error::PacketError;
use crate::eth::{Eth, ETH_HEADER_LEN};
use crate::ipv4::{ipv4_layout, Ipv4, IPV4_HEADER_LEN};
use crate::ipv6::{ipv6_layout, Ipv6, IPV6_HEADER_LEN};
use crate::layout::{fields_swapped, header_fits, swap_fields};
use crate::tcp::Tcp;

verus! {

/// The largest frame read from the interface.
pub const MTU_SIZE: usize = 1500;

/// The link layer of a frame.
#[derive(Debug, Clone, Copy, PartialEq, Eq, Structural)]
pub enum Link {
    EthLink(Eth),
}

/// A link-layer header, which names the network layer it carries.
pub trait HasLinkLayer {
    spec fn spec_network(&self, data: Seq<u8>) -> Result<Network, PacketError>;

    spec fn spec_payload_offset(&self, data: Seq<u8>) -> Result<usize, PacketError>;

    fn get_network(&self, data: &[u8]) -> (r: Result<Network, PacketError>)
        ensures
            r == self.spec_network(data@),
    ;

    fn get_payload_offset(&self, data: &[u8]) -> (r: Result<usize, PacketError>)
        ensures
            r == self.spec_payload_offset(data@),
    ;
}

/// The network layer of a frame.
#[derive(Debug, Clone, Copy, PartialEq, Eq, Structural)]
pub enum Network {
    Ipv4Net(Ipv4),
    Ipv6Net(Ipv6),
}

/// A network-layer header, which names the transport layer it carries.
pub trait HasNetworkLayer {
    spec fn spec_transport(&self, data: Seq<u8>) -> Result<Transport, PacketError>;

    spec fn spec_payload_offset(&self, data: Seq<u8>) -> Result<usize, PacketError>;

    fn get_transport(&self, data: &[u8]) -> (r: Result<Transport, PacketError>)
        ensures
            r == self.spec_transport(data@),
    ;

    fn get_payload_offset(&self, data: &[u8]) -> (r: Result<usize, PacketError>)
        ensures
            r == self.spec_payload_offset(data@),
    ;
}

/// The transport layer of a frame.
#[derive(Debug, Clone, Copy, PartialEq, Eq, Structural)]
pub enum Transport {
    TcpTrans(Tcp),
}

impl Transport {
    pub open spec fn offset(self) -> usize {
        match self {
            Transport::TcpTrans(h) => h.offset,
        }
    }
}

impl Link {
    pub open spec fn offset(self) -> usize {
        match self {
            Link::EthLink(h) => h.offset,
        }
    }
}

impl Network {
    pub open spec fn offset(self) -> usize {
        match self {
            Network::Ipv4Net(h) => h.offset,
            Network::Ipv6Net(h) => h.offset,
        }
    }
}

/// The network header lies within `s`.
pub open spec fn network_header_fits(net: Network, s: Seq<u8>) -> bool {
    match net {
        Network::Ipv4Net(h) => header_fits(s, h.offset, ipv4_layout()),
        Network::Ipv6Net(h) => header_fits(s, h.offset, ipv6_layout()),
    }
}

/// `s` with the source and destination addresses of the network header
/// `net` trading places.
pub open spec fn addresses_swapped(net: Network, s: Seq<u8>) -> Seq<u8> {
    match net {
        Network::Ipv4Net(h) => fields_swapped(
            s,
            h.offset,
            ipv4_layout(),
            crate::ipv4::SRC as int,
            crate::ipv4::DST as int,
        ),
        Network::Ipv6Net(h) => fields_swapped(
            s,
            h.offset,
            ipv6_layout(),
            crate::ipv6::SRC as int,
            crate::ipv6::DST as int,
        ),
    }
}

impl Network {
    /// Writes the source address into the destination field and the
    /// destination address into the source field.
    pub fn swap_addresses(&self, buf: &mut [u8]) -> (r: Result<(), PacketError>)
        ensures
            !network_header_fits(*self, old(buf)@) ==> r == Err::<(), PacketError>(
                PacketError::BufferTooShort,
            ) && final(buf)@ == old(buf)@,
            network_header_fits(*self, old(buf)@) ==> r is Ok && final(buf)@ == addresses_swapped(
                *self,
                old(buf)@,
            ),
    {
        proof {
            crate::ipv4::lemma_ipv4_layout();
            crate::ipv6::lemma_ipv6_layout();
        }
        match self {
            Network::Ipv4Net(h) => swap_fields(h, buf, crate::ipv4::SRC, crate::ipv4::DST),
            Network::Ipv6Net(h) => swap_fields(h, buf, crate::ipv6::SRC, crate::ipv6::DST),
        }
    }

    /// Size in bytes of the fixed part of the network header.
    pub fn header_len(&self) -> (r: usize)
        ensures
            r == match *self {
                Network::Ipv4Net(_) => crate::layout::header_bytes(ipv4_layout()),
                Network::Ipv6Net(_) => crate::layout::header_bytes(ipv6_layout()),
            },
    {
        proof {
            crate::ipv4::lemma_ipv4_layout();
            crate::ipv6::lemma_ipv6_layout();
        }
        match self {
            Network::Ipv4Net(_) => IPV4_HEADER_LEN,
            Network::Ipv6Net(_) => IPV6_HEADER_LEN,
        }
    }

    /// Byte offset of the network header.
    pub fn get_offset(&self) -> (r: usize)
        ensures
            r == self.offset(),
    {
        match self {
            Network::Ipv4Net(h) => h.offset,
            Network::Ipv6Net(h) => h.offset,
        }
    }
}

/// Swapping the addresses of a network header twice gives back the bytes
/// that were there before.
pub proof fn lemma_address_swap_twice(net: Network, s: Seq<u8>)
    requires
        network_header_fits(net, s),
    ensures
        addresses_swapped(net, addresses_swapped(net, s)) == s,
{
    crate::ipv4::lemma_ipv4_layout();
    crate::ipv6::lemma_ipv6_layout();
    match net {
        Network::Ipv4Net(h) => crate::layout::lemma_swap_twice(
            s,
            h.offset,
            ipv4_layout(),
            crate::ipv4::SRC as int,
            crate::ipv4::DST as int,
        ),
        Network::Ipv6Net(h) => crate::layout::lemma_swap_twice(
            s,
            h.offset,
            ipv6_layout(),
            crate::ipv6::SRC as int,
            crate::ipv6::DST as int,
        ),
    }
}

/// The network layer that the link layer `link` names in `s`.
pub open spec fn network_of(link: Link, s: Seq<u8>) -> Result<Network, PacketError> {
    match link {
        Link::EthLink(h) => h.spec_network(s),
    }
}

/// The transport layer that the network layer `net` names in `s`.
pub open spec fn transport_of(net: Network, s: Seq<u8>) -> Result<Transport, PacketError> {
    match net {
        Network::Ipv4Net(h) => h.spec_transport(s),
        Network::Ipv6Net(h) => h.spec_transport(s),
    }
}

/// A received frame: its buffer, the number of valid bytes in it, and its
/// decoded link and network layers.
pub struct Packet {
    pub data: Vec<u8>,
    pub len: usize,
    pub link: Link,
    pub net: Network,
}

impl Packet {
    /// The valid bytes of the frame.
    pub open spec fn frame(&self) -> Seq<u8> {
        self.data@.subrange(0, self.len as int)
    }

    /// The valid length fits the buffer, and the network header starts after
    /// the link header and within the valid bytes.
    pub open spec fn wf(&self) -> bool {
        &&& self.len <= self.data@.len()
        &&& self.link.offset() < self.net.offset() <= self.len
    }

    pub fn new(data: Vec<u8>, len: usize, link: Link, net: Network) -> (r: Packet)
        ensures
            r.data@ == data@,
            r.len == len,
            r.link == link,
            r.net == net,
    {
        Packet { data, len, link, net }
    }

    /// Decodes the transport layer that the network layer names.
    pub fn transport(&self) -> (r: Result<Transport, PacketError>)
        requires
            self.wf(),
        ensures
            r == transport_of(self.net, self.frame()),
            r is Ok ==> self.net.offset() < r->Ok_0.offset() <= self.len,
    {
        proof {
            match self.net {
                Network::Ipv4Net(_) => {},
                Network::Ipv6Net(h) => {
                    crate::ipv6::lemma_ipv6_layout();
                    if crate::ipv6::next_header_of(h, self.frame()) is Ok {
                        crate::ipv6::lemma_ext_walk_bounds(
                            self.frame(),
                            h.offset + IPV6_HEADER_LEN,
                            crate::ipv6::next_header_of(h, self.frame())->Ok_0 as u8,
                        );
                    }
                },
            }
        }
        let frame = vstd::slice::slice_subrange(self.data.as_slice(), 0, self.len);
        get_transport_from_data(frame, &self.net)
    }

    /// Swaps the source and destination addresses of the network header in
    /// place, so that the frame can be sent back where it came from.
    pub fn swap_addresses(&mut self) -> (r: Result<(), PacketError>)
        requires
            old(self).wf(),
        ensures
            final(self).wf(),
            final(self).len == old(self).len,
            final(self).link == old(self).link,
            final(self).net == old(self).net,
            !network_header_fits(old(self).net, old(self).frame()) ==> r == Err::<(), PacketError>(
                PacketError::BufferTooShort,
            ) && final(self).data@ == old(self).data@,
            network_header_fits(old(self).net, old(self).frame()) ==> r is Ok && final(self).data@
                == addresses_swapped(old(self).net, old(self).data@),
    {
        let offset = self.net.get_offset();
        let size = self.net.header_len();
        if size > self.len - offset {
            return Err(PacketError::BufferTooShort);
        }
        self.net.swap_addresses(self.data.as_mut_slice())
    }
}

/// Decodes the network layer that `link` names in `data`.
pub fn get_network_from_data(data: &[u8], link: &Link) -> (r: Result<Network, PacketError>)
    ensures
        r == network_of(*link, data@),
{
    match link {
        Link::EthLink(eth) => eth.get_network(data),
    }
}

/// Decodes the transport layer that `net` names in `data`.
pub fn get_transport_from_data(data: &[u8], net: &Network) -> (r: Result<Transport, PacketError>)
    ensures
        r == transport_of(*net, data@),
{
    match net {
        Network::Ipv4Net(h) => h.get_transport(data),
        Network::Ipv6Net(h) => h.get_transport(data),
    }
}

/// Decodes the first `len` bytes of `data` as a frame whose link layer is
/// `link`.
pub fn make_packet(data: Vec<u8>, link: Link, len: usize) -> (r: Result<Packet, PacketError>)
    ensures
        len > data@.len() ==> r == Err::<Packet, PacketError>(PacketError::BufferTooShort),
        len <= data@.len() ==> match network_of(link, data@.subrange(0, len as int)) {
            Err(e) => r == Err::<Packet, PacketError>(e),
            Ok(net) => r is Ok && r->Ok_0.data@ == data@ && r->Ok_0.len == len && r->Ok_0.link
                == link && r->Ok_0.net == net,
        },
        r is Ok ==> r->Ok_0.wf(),
{
    if len > data.len() {
        return Err(PacketError::BufferTooShort);
    }
    proof {
        crate::eth::lemma_eth_layout();
    }
    let network = {
        let frame = vstd::slice::slice_subrange(data.as_slice(), 0, len);
        get_network_from_data(frame, &link)
    };
    match network {
        Ok(net) => Ok(Packet::new(data, len, link, net)),
        Err(e) => Err(e),
    }
}

/// Decodes the first `len` bytes of `data` as an Ethernet frame.
pub fn make_eth_packet(data: Vec<u8>, len: usize) -> (r: Result<Packet, PacketError>)
    ensures
        len > data@.len() ==> r == Err::<Packet, PacketError>(PacketError::BufferTooShort),
        len < ETH_HEADER_LEN ==> r == Err::<Packet, PacketError>(PacketError::BufferTooShort),
        len <= data@.len() ==> match network_of(
            Link::EthLink(Eth { offset: 0 }),
            data@.subrange(0, len as int),
        ) {
            Err(e) => r == Err::<Packet, PacketError>(e),
            Ok(net) => r is Ok && r->Ok_0.data@ == data@ && r->Ok_0.len == len && r->Ok_0.link
                == Link::EthLink(Eth { offset: 0 }) && r->Ok_0.net == net,
        },
        r is Ok ==> r->Ok_0.wf(),
{
    proof {
        crate::eth::lemma_eth_layout();
    }
    make_packet(data, Link::EthLink(Eth { offset: 0 }), len)
}

} // verus!
