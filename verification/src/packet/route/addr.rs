//! Interface addresses: the `RTM_NEWADDR` messages of an address dump and
//! what they say of one address.
use vstd::prelude::*;
use crate::endian::{ByteOrder, spec_u32, u32_at, read_u32};
use crate::packet::netlink::{
    NetlinkBuf, NetlinkMsgFlags, NetlinkPacket, NetlinkRequestBuilder, NLM_F_DUMP, NLM_F_REQUEST,
    header_bytes, header_flags, header_kind, header_length, payload_bytes, copy_bytes,
};
use crate::packet::route::{find_attr, find_attr_range, ifinfo_body, ifinfo_bytes, IFADDR_LEN};
use crate::endian::{splice, u32_bytes};

verus! {

pub const RTM_NEWADDR: u16 = 20;
pub const RTM_DELADDR: u16 = 21;
pub const RTM_GETADDR: u16 = 22;

/* address flags */
pub const SECONDARY: u8 = 0x01;
pub const TEMPORARY: u8 = 0x01;
pub const NODAD: u8 = 0x02;
pub const OPTIMISTIC: u8 = 0x04;
pub const DADFAILED: u8 = 0x08;
pub const HOMEADDRESS: u8 = 0x10;
pub const DEPRECATED: u8 = 0x20;
pub const TENTATIVE: u8 = 0x40;
pub const PERMANENT: u8 = 0x80;

/* address attributes */
pub const IFA_UNSPEC: u16 = 0;
pub const IFA_ADDRESS: u16 = 1;
pub const IFA_LOCAL: u16 = 2;
pub const IFA_LABEL: u16 = 3;
pub const IFA_BROADCAST: u16 = 4;
pub const IFA_ANYCAST: u16 = 5;
pub const IFA_CACHEINFO: u16 = 6;
pub const IFA_MULTICAST: u16 = 7;

/// Address family of IPv4 (`AF_INET`).
pub const AF_INET: u8 = 2;
/// Address family of IPv6 (`AF_INET6`).
pub const AF_INET6: u8 = 10;

/// An IP address: IPv4 as the 32-bit number whose big-endian bytes are the
/// address, IPv6 as its sixteen bytes.
#[derive(Debug, PartialEq, Eq)]
pub enum IpAddr {
    V4(u32),
    V6([u8; 16]),
}

/// Whether the payload `p` of an address attribute can be read as an
/// address of family `family`: four bytes or more for IPv4, exactly
/// sixteen for IPv6.
pub open spec fn ip_decodable(family: u8, p: Seq<u8>) -> bool {
    (family == AF_INET && p.len() >= 4) || (family == AF_INET6 && p.len() == 16)
}

/// Whether `ip` is the address that the payload `p` holds for `family`.
pub open spec fn ip_is(ip: IpAddr, family: u8, p: Seq<u8>) -> bool {
    if family == AF_INET {
        ip == IpAddr::V4(spec_u32(ByteOrder::Big, p[0], p[1], p[2], p[3]))
    } else {
        ip matches IpAddr::V6(a) && a@ == p
    }
}

/// `byteorder::BigEndian::read_u32`: the integer whose big-endian bytes are
/// the first four of `buf`; the crate panics on fewer than four.
#[verifier::external_body]
fn big_endian_u32(buf: &[u8]) -> (r: u32)
    requires
        buf@.len() >= 4,
    ensures
        r == spec_u32(ByteOrder::Big, buf@[0], buf@[1], buf@[2], buf@[3]),
{
    <byteorder::BigEndian as byteorder::ByteOrder>::read_u32(buf)
}

/// The ifaddr body of a message: its payload.
pub open spec fn ifaddr_of(o: ByteOrder, s: Seq<u8>) -> Seq<u8> {
    payload_bytes(o, s)
}

/// The address attribute of type `t` of a message, if it has one.
pub open spec fn addr_attr(o: ByteOrder, s: Seq<u8>, t: u16) -> Option<Seq<u8>> {
    find_attr(o, ifaddr_of(o, s).skip(8), t)
}

/// One interface address: an `RTM_NEWADDR` message.
#[derive(Clone, Debug)]
pub struct Addr {
    packet: NetlinkBuf,
}

impl Addr {
    /// The bytes of the message.
    pub closed spec fn bytes(&self) -> Seq<u8> {
        self.packet.bytes()
    }

    /// The byte order the message is read in.
    pub closed spec fn order(&self) -> ByteOrder {
        self.packet.order()
    }

    /// Whether the message holds a header and a whole `struct ifaddrmsg`,
    /// which every getter reads.
    pub open spec fn spec_has_ifaddr(&self) -> bool {
        self.bytes().len() >= 16 && ifaddr_of(self.order(), self.bytes()).len() >= 8
    }

    /// The address that a message of an address dump describes, or `None`
    /// when the message is not an `RTM_NEWADDR`, which ends the dump.
    pub fn from_dump_reply(pkt: NetlinkBuf) -> (r: Option<Addr>)
        requires
            pkt.bytes().len() >= 16,
        ensures
            header_kind(pkt.order(), pkt.bytes()) != RTM_NEWADDR ==> r is None,
            header_kind(pkt.order(), pkt.bytes()) == RTM_NEWADDR ==> (r matches Some(a)
                && a.bytes() == pkt.bytes() && a.order() == pkt.order()),
    {
        let kind = pkt.get_packet().get_kind();
        if kind != RTM_NEWADDR {
            return None;
        }
        Some(Addr { packet: pkt })
    }

    /// Whether the message holds a header and a whole `struct ifaddrmsg`.
    pub fn has_ifaddr(&self) -> (r: bool)
        ensures
            r == self.spec_has_ifaddr(),
    {
        if self.packet.len() < 16 {
            return false;
        }
        let pkt = self.with_packet();
        pkt.payload().len() >= IFADDR_LEN
    }

    fn with_packet(&self) -> (r: NetlinkPacket)
        requires
            self.bytes().len() >= 16,
        ensures
            r.bytes() == self.bytes(),
            r.order() == self.order(),
    {
        self.packet.get_packet()
    }

    fn with_ifaddr(&self) -> (r: Vec<u8>)
        requires
            self.spec_has_ifaddr(),
        ensures
            r@ == ifaddr_of(self.order(), self.bytes()),
    {
        let pkt = self.with_packet();
        copy_bytes(pkt.payload())
    }

    fn with_rta(&self, rta_type: u16) -> (r: Option<Vec<u8>>)
        requires
            self.spec_has_ifaddr(),
        ensures
            match addr_attr(self.order(), self.bytes(), rta_type) {
                None => r is None,
                Some(p) => r matches Some(v) && v@ == p,
            },
    {
        let ifa = self.with_ifaddr();
        let s = ifa.as_slice();
        match find_attr_range(self.packet.byte_order(), s, IFADDR_LEN, rta_type) {
            None => None,
            Some((a, b)) => Some(copy_bytes(vstd::slice::slice_subrange(s, a, b))),
        }
    }

    /// The address family (`ifa_family`).
    pub fn get_family(&self) -> (r: u8)
        requires
            self.spec_has_ifaddr(),
        ensures
            r == ifaddr_of(self.order(), self.bytes())[0],
    {
        let ifa = self.with_ifaddr();
        ifa[0]
    }

    /// The address flags (`ifa_flags`).
    pub fn get_flags(&self) -> (r: u8)
        requires
            self.spec_has_ifaddr(),
        ensures
            r == ifaddr_of(self.order(), self.bytes())[2],
    {
        let ifa = self.with_ifaddr();
        ifa[2]
    }

    /// The length of the prefix (`ifa_prefixlen`).
    pub fn get_prefix_len(&self) -> (r: u8)
        requires
            self.spec_has_ifaddr(),
        ensures
            r == ifaddr_of(self.order(), self.bytes())[1],
    {
        let ifa = self.with_ifaddr();
        ifa[1]
    }

    /// Reads the byte of the address flags (`ifa_flags`), not that of the
    /// scope (`ifa_scope`), the fourth byte of the body.
    pub fn get_scope(&self) -> (r: u8)
        requires
            self.spec_has_ifaddr(),
        ensures
            r == ifaddr_of(self.order(), self.bytes())[2],
    {
        let ifa = self.with_ifaddr();
        ifa[2]
    }

    /// The index of the interface (`ifa_index`).
    pub fn get_index(&self) -> (r: u32)
        requires
            self.spec_has_ifaddr(),
        ensures
            r == u32_at(self.order(), ifaddr_of(self.order(), self.bytes()), 4),
    {
        let ifa = self.with_ifaddr();
        read_u32(self.packet.byte_order(), ifa.as_slice(), 4)
    }

    /// The address that the payload `bytes` of an address attribute holds
    /// for `family`: its first four bytes, big-endian, for IPv4, its sixteen
    /// bytes for IPv6.
    pub fn ip_from_family_and_bytes(family: u8, bytes: &[u8]) -> (r: IpAddr)
        requires
            ip_decodable(family, bytes@),
        ensures
            ip_is(r, family, bytes@),
    {
        if family == AF_INET {
            IpAddr::V4(big_endian_u32(bytes))
        } else {
            let mut a = [0u8; 16];
            let mut i: usize = 0;
            while i < 16
                invariant
                    i <= 16,
                    bytes@.len() == 16,
                    forall|j: int| 0 <= j < i ==> a@[j] == bytes@[j],
                decreases 16 - i,
            {
                a[i] = bytes[i];
                i = i + 1;
            }
            assert(a@ =~= bytes@);
            IpAddr::V6(a)
        }
    }

    fn ip_of_attr(&self, rta_type: u16) -> (r: Option<IpAddr>)
        requires
            self.spec_has_ifaddr(),
            addr_attr(self.order(), self.bytes(), rta_type) matches Some(p)
                ==> ip_decodable(ifaddr_of(self.order(), self.bytes())[0], p),
        ensures
            match addr_attr(self.order(), self.bytes(), rta_type) {
                None => r is None,
                Some(p) => r matches Some(ip) && ip_is(ip, ifaddr_of(self.order(), self.bytes())[0], p),
            },
    {
        let family = self.get_family();
        match self.with_rta(rta_type) {
            None => None,
            Some(p) => Some(Self::ip_from_family_and_bytes(family, p.as_slice())),
        }
    }

    /// The address (`IFA_ADDRESS`), if the message carries one.
    pub fn get_ip(&self) -> (r: Option<IpAddr>)
        requires
            self.spec_has_ifaddr(),
            addr_attr(self.order(), self.bytes(), IFA_ADDRESS) matches Some(p)
                ==> ip_decodable(ifaddr_of(self.order(), self.bytes())[0], p),
        ensures
            match addr_attr(self.order(), self.bytes(), IFA_ADDRESS) {
                None => r is None,
                Some(p) => r matches Some(ip) && ip_is(ip, ifaddr_of(self.order(), self.bytes())[0], p),
            },
    {
        self.ip_of_attr(IFA_ADDRESS)
    }

    /// The local address (`IFA_LOCAL`), if the message carries one.
    pub fn get_local_ip(&self) -> (r: Option<IpAddr>)
        requires
            self.spec_has_ifaddr(),
            addr_attr(self.order(), self.bytes(), IFA_LOCAL) matches Some(p)
                ==> ip_decodable(ifaddr_of(self.order(), self.bytes())[0], p),
        ensures
            match addr_attr(self.order(), self.bytes(), IFA_LOCAL) {
                None => r is None,
                Some(p) => r matches Some(ip) && ip_is(ip, ifaddr_of(self.order(), self.bytes())[0], p),
            },
    {
        self.ip_of_attr(IFA_LOCAL)
    }

    /// The broadcast address (`IFA_BROADCAST`), if the message carries one.
    pub fn get_broadcast_ip(&self) -> (r: Option<IpAddr>)
        requires
            self.spec_has_ifaddr(),
            addr_attr(self.order(), self.bytes(), IFA_BROADCAST) matches Some(p)
                ==> ip_decodable(ifaddr_of(self.order(), self.bytes())[0], p),
        ensures
            match addr_attr(self.order(), self.bytes(), IFA_BROADCAST) {
                None => r is None,
                Some(p) => r matches Some(ip) && ip_is(ip, ifaddr_of(self.order(), self.bytes())[0], p),
            },
    {
        self.ip_of_attr(IFA_BROADCAST)
    }

    /// Whether the attribute of type `rta_type` is absent or holds an
    /// address of the message's family, so that reading it succeeds.
    pub fn attr_is_readable(&self, rta_type: u16) -> (r: bool)
        requires
            self.spec_has_ifaddr(),
        ensures
            r == (addr_attr(self.order(), self.bytes(), rta_type) matches Some(p)
                ==> ip_decodable(ifaddr_of(self.order(), self.bytes())[0], p)),
    {
        let family = self.get_family();
        match self.with_rta(rta_type) {
            None => true,
            Some(p) => (family == AF_INET && p.len() >= 4) || (family == AF_INET6 && p.len() == 16),
        }
    }

    /// The request that dumps the addresses of the given family (0 for all
    /// families): `RTM_GETADDR` with `NLM_F_DUMP`, and an interface info body.
    pub fn dump_request(family: u8) -> (r: NetlinkBuf)
        ensures
            r.order() == crate::endian::host_order(),
            r.bytes() == header_bytes(r.order(), 32, RTM_GETADDR, NLM_F_DUMP | NLM_F_REQUEST, 0, 0)
                + ifinfo_bytes(family),
    {
        let b = NetlinkRequestBuilder::new(RTM_GETADDR, NetlinkMsgFlags::new(NLM_F_DUMP));
        let ghost o = b.order();
        let ghost h = b.bytes();
        proof {
            crate::packet::netlink::lemma_header_roundtrip(o, 16, RTM_GETADDR, NLM_F_DUMP | NLM_F_REQUEST, 0, 0);
            assert(NLM_F_DUMP & 0x0f1f == NLM_F_DUMP) by (bit_vector);
        }
        let body = ifinfo_body(family);
        let b = b.append(body.as_slice());
        proof {
            assert(splice(h, 0, u32_bytes(o, 32)) =~= header_bytes(o, 32, RTM_GETADDR, NLM_F_DUMP | NLM_F_REQUEST, 0, 0));
        }
        b.build()
    }
}

/// The request for an address dump is one whole message: its header
/// records its size, `RTM_GETADDR`, and `NLM_F_DUMP` with `NLM_F_REQUEST`,
/// and its payload is the interface info body with the family asked for.
pub proof fn lemma_dump_request(o: ByteOrder, family: u8)
    ensures
        ({
            let b = header_bytes(o, 32, RTM_GETADDR, NLM_F_DUMP | NLM_F_REQUEST, 0, 0) + ifinfo_bytes(family);
            &&& b.len() == 32
            &&& header_length(o, b) == 32
            &&& header_kind(o, b) == RTM_GETADDR
            &&& header_flags(o, b) == NLM_F_DUMP | NLM_F_REQUEST
            &&& payload_bytes(o, b) == ifinfo_bytes(family)
            &&& payload_bytes(o, b)[0] == family
        }),
{
    let h = header_bytes(o, 32, RTM_GETADDR, NLM_F_DUMP | NLM_F_REQUEST, 0, 0);
    crate::packet::netlink::lemma_header_roundtrip(o, 32, RTM_GETADDR, NLM_F_DUMP | NLM_F_REQUEST, 0, 0);
    let b = h + ifinfo_bytes(family);
    assert(header_length(o, b) == header_length(o, h));
    assert(header_kind(o, b) == header_kind(o, h));
    assert(header_flags(o, b) == header_flags(o, h));
    assert(payload_bytes(o, b) =~= ifinfo_bytes(family));
}

} // verus!
