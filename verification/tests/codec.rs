use bytes::BytesMut;
use netlink::endian::native_order;
use netlink::packet::netlink::{NetlinkMsgFlags, NetlinkPacket, NLM_F_DUMP, NLM_F_REQUEST};
use netlink::tokio::{DecodeError, NetlinkCodec, NetlinkRequestBuilder};

fn header(len: u32, kind: u16) -> Vec<u8> {
    let mut v = Vec::new();
    v.extend_from_slice(&len.to_ne_bytes());
    v.extend_from_slice(&kind.to_ne_bytes());
    v.extend_from_slice(&[0u8; 10]);
    v
}

#[test]
fn decode_empty_gives_nothing() {
    let c = NetlinkCodec::new();
    let mut buf = BytesMut::new();
    assert!(matches!(c.decode(&mut buf), Ok(None)));
}

#[test]
fn decode_short_is_malformed() {
    let c = NetlinkCodec::new();
    let mut buf = BytesMut::from(&[1u8, 2, 3][..]);
    assert_eq!(c.decode(&mut buf).unwrap_err(), DecodeError::Malformed);
    assert_eq!(buf.len(), 3);
}

#[test]
fn decode_waits_for_whole_aligned_message() {
    let c = NetlinkCodec::new();
    let mut msg = header(21, 16);
    msg.extend_from_slice(&[1, 2, 3, 4, 5]);
    let mut buf = BytesMut::from(&msg[..]);
    assert!(matches!(c.decode(&mut buf), Ok(None)));
    assert_eq!(buf.len(), 21);
    buf.extend_from_slice(&[0, 0, 0, 0xee, 0xff]);
    let p = c.decode(&mut buf).unwrap().unwrap();
    assert_eq!(p.get_kind(), 16);
    assert_eq!(p.packet(), &msg[..]);
    assert_eq!(&buf[..], &[0xee, 0xff]);
}

#[test]
fn decode_skips_message_shorter_than_header() {
    let c = NetlinkCodec::new();
    let mut msg = header(6, 16);
    msg.extend_from_slice(&[9, 9]);
    let mut buf = BytesMut::from(&msg[..]);
    assert!(matches!(c.decode(&mut buf), Ok(None)));
    assert_eq!(&buf[..], &msg[8..]);
}

#[test]
fn encode_appends_message() {
    let c = NetlinkCodec::new();
    let mut buf = BytesMut::from(&[7u8][..]);
    let p = NetlinkPacket::owned(header(16, 3)).unwrap();
    c.encode(p, &mut buf);
    assert_eq!(buf.len(), 17);
    assert_eq!(buf[0], 7);
    assert_eq!(&buf[1..], &header(16, 3)[..]);
}

#[test]
fn encoded_request_decodes_back() {
    let c = NetlinkCodec::new();
    let req = NetlinkRequestBuilder::new(18, NetlinkMsgFlags::new(NLM_F_DUMP)).append(&[0u8; 16]).build();
    let bytes = req.packet().to_vec();
    let mut buf = BytesMut::new();
    c.encode(req, &mut buf);
    buf.extend_from_slice(&[1, 2]);
    let back = c.decode(&mut buf).unwrap().unwrap();
    assert_eq!(back.packet(), &bytes[..]);
    assert_eq!(back.get_length(), 32);
    assert_eq!(back.get_flags().bits(), NLM_F_DUMP | NLM_F_REQUEST);
    assert_eq!(&buf[..], &[1, 2]);
    assert_eq!(back.byte_order(), native_order());
}

#[test]
fn padded_builder_appends_and_pads() {
    let b = NetlinkRequestBuilder::new(18, NetlinkMsgFlags::new(0));
    assert_eq!(b.get_length(), 16);
    let b = b.append(&[1, 2, 3, 4, 5]);
    assert_eq!(b.get_length(), 21);
    let b = b.append(&[6, 7, 8, 9]);
    assert_eq!(b.get_length(), 25);
    let p = b.build();
    assert_eq!(p.packet().len(), 28);
    assert_eq!(&p.packet()[16..], &[1, 2, 3, 4, 5, 0, 0, 0, 6, 7, 8, 9]);
    assert_eq!(p.get_flags().bits(), NLM_F_REQUEST);
    assert_eq!(p.get_kind(), 18);
}

#[test]
fn encode_checked_appends() {
    let c = NetlinkCodec::new();
    let mut buf = BytesMut::new();
    let p = NetlinkPacket::owned(header(16, 3)).unwrap();
    assert!(c.encode_checked(p, &mut buf));
    assert_eq!(&buf[..], &header(16, 3)[..]);
    let back = c.decode(&mut buf).unwrap().unwrap();
    assert_eq!(back.packet(), &header(16, 3)[..]);
    assert!(buf.is_empty());
}

#[test]
fn padded_builder_length_within_bytes() {
    let mut b = NetlinkRequestBuilder::new(18, NetlinkMsgFlags::new(0));
    let mut size = 16;
    for n in [0usize, 1, 2, 3, 4, 7] {
        b = b.append(&vec![1u8; n]);
        size += (n + 3) / 4 * 4;
        assert!(b.get_length() as usize <= size);
    }
    let p = b.build();
    assert_eq!(p.packet().len() % 4, 0);
    assert_eq!(p.get_length() as usize, 16 + 1 + 2 + 3 + 4 + 7);
    assert!(p.get_length() as usize <= p.packet().len());
    assert_eq!(p.packet().len(), 16 + 0 + 4 + 4 + 4 + 4 + 8);
}
