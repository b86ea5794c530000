use netlink::endian::native_order;
use netlink::packet::netlink::{NetlinkBuf, NLM_F_DUMP, NLM_F_REQUEST};
use netlink::packet::route::addr::{
    Addr, IpAddr, IFA_ADDRESS, IFA_BROADCAST, IFA_LABEL, IFA_LOCAL, RTM_GETADDR, RTM_NEWADDR,
};
use netlink::packet::route::attributes;

fn attr(kind: u16, payload: &[u8]) -> Vec<u8> {
    let mut v = Vec::new();
    v.extend_from_slice(&(4 + payload.len() as u16).to_ne_bytes());
    v.extend_from_slice(&kind.to_ne_bytes());
    v.extend_from_slice(payload);
    while v.len() % 4 != 0 {
        v.push(0);
    }
    v
}

fn addr_message(kind: u16, family: u8, index: u32, attrs: &[Vec<u8>]) -> Vec<u8> {
    let mut body = vec![family, 8, 0x80, 254];
    body.extend_from_slice(&index.to_ne_bytes());
    for a in attrs {
        body.extend_from_slice(a);
    }
    let mut v = Vec::new();
    v.extend_from_slice(&(16 + body.len() as u32).to_ne_bytes());
    v.extend_from_slice(&kind.to_ne_bytes());
    v.extend_from_slice(&0u16.to_ne_bytes());
    v.extend_from_slice(&[0u8; 8]);
    v.extend_from_slice(&body);
    v
}

fn lo_addr() -> Addr {
    let msg = addr_message(
        RTM_NEWADDR,
        2,
        1,
        &[attr(IFA_ADDRESS, &[127, 0, 0, 1]), attr(IFA_LOCAL, &[127, 0, 0, 1]), attr(IFA_LABEL, b"lo\0")],
    );
    Addr::from_dump_reply(NetlinkBuf::from(msg)).unwrap()
}

#[test]
fn only_newaddr_messages_are_addresses() {
    let done = addr_message(3, 2, 1, &[]);
    assert!(Addr::from_dump_reply(NetlinkBuf::from(done)).is_none());
    let new = addr_message(RTM_NEWADDR, 2, 1, &[]);
    assert!(Addr::from_dump_reply(NetlinkBuf::from(new)).is_some());
}

#[test]
fn check_lo_addr_fields() {
    let a = lo_addr();
    assert!(a.has_ifaddr());
    assert_eq!(a.get_family(), 2);
    assert_eq!(a.get_prefix_len(), 8);
    assert_eq!(a.get_flags(), 0x80);
    // The scope getter reads the flags byte.
    assert_eq!(a.get_scope(), 0x80);
    assert_eq!(a.get_index(), 1);
}

#[test]
fn check_lo_addr_ips() {
    let a = lo_addr();
    assert_eq!(a.get_ip(), Some(IpAddr::V4(0x7f00_0001)));
    assert_eq!(a.get_local_ip(), Some(IpAddr::V4(0x7f00_0001)));
    assert_eq!(a.get_broadcast_ip(), None);
    assert!(a.attr_is_readable(IFA_ADDRESS));
    assert!(a.attr_is_readable(IFA_BROADCAST));
    assert!(!a.attr_is_readable(IFA_LABEL));
}

#[test]
fn ipv6_address() {
    let ip6: [u8; 16] = [0xfe, 0x80, 0, 0, 0, 0, 0, 0, 0, 0, 0, 0, 0, 0, 0, 1];
    let msg = addr_message(RTM_NEWADDR, 10, 3, &[attr(IFA_ADDRESS, &ip6)]);
    let a = Addr::from_dump_reply(NetlinkBuf::from(msg)).unwrap();
    assert_eq!(a.get_ip(), Some(IpAddr::V6(ip6)));
    assert_eq!(a.get_index(), 3);
    assert!(!a.attr_is_readable(IFA_LOCAL) || a.get_local_ip().is_none());
}

#[test]
fn ip_from_family_and_bytes_reads_big_endian() {
    assert_eq!(Addr::ip_from_family_and_bytes(2, &[192, 168, 1, 2, 99]), IpAddr::V4(0xc0a8_0102));
    let b = [1u8; 16];
    assert_eq!(Addr::ip_from_family_and_bytes(10, &b), IpAddr::V6(b));
}

#[test]
fn short_message_has_no_ifaddr() {
    let mut v = Vec::new();
    v.extend_from_slice(&20u32.to_ne_bytes());
    v.extend_from_slice(&RTM_NEWADDR.to_ne_bytes());
    v.extend_from_slice(&[0u8; 14]);
    let a = Addr::from_dump_reply(NetlinkBuf::from(v)).unwrap();
    assert!(!a.has_ifaddr());
}

#[test]
fn first_attribute_of_a_type_wins() {
    let msg = addr_message(
        RTM_NEWADDR,
        2,
        1,
        &[attr(IFA_LABEL, b"x\0"), attr(IFA_ADDRESS, &[10, 0, 0, 1]), attr(IFA_ADDRESS, &[10, 0, 0, 2])],
    );
    let a = Addr::from_dump_reply(NetlinkBuf::from(msg)).unwrap();
    assert_eq!(a.get_ip(), Some(IpAddr::V4(0x0a00_0001)));
}

#[test]
fn attribute_walk() {
    let mut s = vec![0u8; 8];
    s.extend(attr(IFA_ADDRESS, &[1, 2, 3, 4]));
    s.extend(attr(IFA_LABEL, b"eth0\0"));
    s.extend(vec![3u8, 0]);
    let attrs = attributes(native_order(), &s, 8);
    assert_eq!(attrs.len(), 2);
    assert_eq!(attrs[0].rta_type, IFA_ADDRESS);
    assert_eq!(attrs[0].payload, vec![1, 2, 3, 4]);
    assert_eq!(attrs[1].rta_type, IFA_LABEL);
    assert_eq!(attrs[1].payload, b"eth0\0".to_vec());
}

#[test]
fn dump_request_layout() {
    let req = Addr::dump_request(0);
    assert_eq!(req.len(), 32);
    let p = req.get_packet();
    assert_eq!(p.get_length(), 32);
    assert_eq!(p.get_kind(), RTM_GETADDR);
    assert_eq!(p.get_flags().bits(), NLM_F_DUMP | NLM_F_REQUEST);
    assert_eq!(p.payload(), &[0u8; 16]);
    let req = Addr::dump_request(10);
    assert_eq!(req.get_packet().payload()[0], 10);
}
