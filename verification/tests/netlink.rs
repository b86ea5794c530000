use netlink::endian::{native_order, ByteOrder};
use netlink::packet::netlink::{
    align, NetlinkBuf, NetlinkIterable, NetlinkMsgFlags, NetlinkPacket, NetlinkReader,
    NetlinkReaderState, NetlinkRequestBuilder, ReaderAction, NLMSG_DONE, NLMSG_ERROR,
    NLMSG_NOOP, NLMSG_OVERRUN, NLM_F_ACK, NLM_F_DUMP, NLM_F_MATCH, NLM_F_REQUEST, NLM_F_ROOT,
};

fn header(len: u32, kind: u16, flags: u16, seq: u32, pid: u32) -> Vec<u8> {
    let mut v = Vec::new();
    v.extend_from_slice(&len.to_ne_bytes());
    v.extend_from_slice(&kind.to_ne_bytes());
    v.extend_from_slice(&flags.to_ne_bytes());
    v.extend_from_slice(&seq.to_ne_bytes());
    v.extend_from_slice(&pid.to_ne_bytes());
    v
}

fn message(kind: u16, payload: &[u8]) -> Vec<u8> {
    let mut v = header(16 + payload.len() as u32, kind, 0, 7, 42);
    v.extend_from_slice(payload);
    while v.len() % 4 != 0 {
        v.push(0);
    }
    v
}

#[test]
fn align_rounds_up_to_four() {
    assert_eq!(align(0), 0);
    assert_eq!(align(1), 4);
    assert_eq!(align(3), 4);
    assert_eq!(align(4), 4);
    assert_eq!(align(5), 8);
    assert_eq!(align(17), 20);
    assert_eq!(align(align(17)), 20);
}

#[test]
fn flags_keep_only_known_bits() {
    assert_eq!(NetlinkMsgFlags::new(0xffff).bits(), 0x0f1f);
    assert_eq!(NetlinkMsgFlags::new(0x0020).bits(), 0);
    assert_eq!(NetlinkMsgFlags::new(NLM_F_DUMP).bits(), NLM_F_ROOT | NLM_F_MATCH);
    let f = NetlinkMsgFlags::new(0xabcd);
    assert_eq!(NetlinkMsgFlags::new(f.bits()), f);
    let u = NetlinkMsgFlags::new(NLM_F_ACK).union(NetlinkMsgFlags::new(NLM_F_REQUEST));
    assert_eq!(u.bits(), 5);
    assert!(u.contains(NetlinkMsgFlags::new(NLM_F_ACK)));
    assert!(!u.contains(NetlinkMsgFlags::new(NLM_F_DUMP)));
}

#[test]
fn packet_needs_a_header() {
    assert!(NetlinkPacket::new(&[0u8; 15]).is_none());
    assert!(NetlinkPacket::new(&[0u8; 16]).is_some());
    assert!(NetlinkPacket::owned(vec![0u8; 3]).is_none());
    assert_eq!(NetlinkPacket::minimum_packet_size(), 16);
}

#[test]
fn packet_fields() {
    let bytes = header(20, 16, 0x0102, 7, 42);
    let mut bytes = bytes;
    bytes.extend_from_slice(&[9, 8, 7, 6, 5, 4]);
    let p = NetlinkPacket::new(&bytes).unwrap();
    assert_eq!(p.get_length(), 20);
    assert_eq!(p.get_kind(), 16);
    assert_eq!(p.get_flags().bits(), 0x0102);
    assert_eq!(p.get_seq(), 7);
    assert_eq!(p.get_pid(), 42);
    assert_eq!(p.payload(), &[9, 8, 7, 6]);
    assert_eq!(p.packet(), &bytes[..]);
    assert_eq!(p.byte_order(), native_order());
}

#[test]
fn payload_is_kept_within_buffer() {
    let mut long = header(100, 1, 0, 0, 0);
    long.extend_from_slice(&[1, 2, 3]);
    assert_eq!(NetlinkPacket::new(&long).unwrap().payload(), &[1, 2, 3]);
    let mut short = header(4, 1, 0, 0, 0);
    short.extend_from_slice(&[1, 2, 3]);
    assert!(NetlinkPacket::new(&short).unwrap().payload().is_empty());
}

#[test]
fn packet_in_given_order() {
    let mut b = vec![0u8; 16];
    b[3] = 32;
    let p = NetlinkPacket::with_order(&b, ByteOrder::Big).unwrap();
    assert_eq!(p.get_length(), 32);
    let q = NetlinkPacket::with_order(&b, ByteOrder::Little).unwrap();
    assert_eq!(q.get_length(), 32 << 24);
}

#[test]
fn buf_gives_its_packet() {
    let b = NetlinkBuf::from(message(NLMSG_DONE, &[0, 0, 0, 0]));
    assert_eq!(b.len(), 20);
    let p = b.get_packet();
    assert_eq!(p.get_kind(), NLMSG_DONE);
    assert_eq!(p.get_length(), 20);
}

#[test]
fn iterable_walks_aligned_messages() {
    let mut data = message(16, &[1, 2, 3, 4, 5]);
    assert_eq!(data.len(), 24);
    data.extend(message(NLMSG_DONE, &[0, 0, 0, 0]));
    let mut it = NetlinkIterable::new(&data);
    let first = it.next().unwrap();
    assert_eq!(first.get_kind(), 16);
    assert_eq!(first.packet().len(), 21);
    assert_eq!(first.payload(), &[1, 2, 3, 4, 5]);
    let second = it.next().unwrap();
    assert_eq!(second.get_kind(), NLMSG_DONE);
    assert!(it.next().is_none());
    assert!(it.next().is_none());
}

#[test]
fn iterable_stops_at_cut_message() {
    let mut data = message(16, &[1, 2, 3, 4]);
    let cut = header(64, 16, 0, 0, 0);
    data.extend(cut);
    let mut it = NetlinkIterable::new(&data);
    assert!(it.next().is_some());
    assert!(it.next().is_none());
    let bogus = header(3, 16, 0, 0, 0);
    assert!(NetlinkIterable::new(&bogus).next().is_none());
}

fn expect_packet(a: ReaderAction) -> (NetlinkBuf, bool) {
    match a {
        ReaderAction::Packet { buf, noop } => (buf, noop),
        other => panic!("expected a packet, got {:?}", other),
    }
}

#[test]
fn reader_cuts_stream_into_messages() {
    let mut r = NetlinkReader::new(());
    assert_eq!(r.get_state(), NetlinkReaderState::NeedMore);
    assert!(matches!(r.resume(), ReaderAction::Read));
    let mut stream = message(16, &[1, 2, 3, 4, 5, 6]);
    stream.extend(message(16, &[7, 8, 9, 10]));
    stream.extend(message(NLMSG_DONE, &[0, 0, 0, 0]));
    // Part of a header: the reader asks for more.
    assert!(matches!(r.feed(&stream[..10]), ReaderAction::Read));
    assert_eq!(r.get_state(), NetlinkReaderState::NeedMore);
    let (b, noop) = expect_packet(r.feed(&stream[10..]));
    assert!(!noop);
    assert_eq!(b.len(), 22);
    assert_eq!(b.get_packet().get_kind(), 16);
    assert_eq!(r.get_state(), NetlinkReaderState::Parsing);
    let (b, _) = expect_packet(r.resume());
    assert_eq!(b.len(), 20);
    let (b, _) = expect_packet(r.resume());
    assert_eq!(b.get_packet().get_kind(), NLMSG_DONE);
    assert_eq!(r.get_state(), NetlinkReaderState::Done);
    assert!(matches!(r.resume(), ReaderAction::Finished));
    assert!(matches!(r.resume(), ReaderAction::Finished));
    assert_eq!(r.buffered_len(), stream.len());
}

#[test]
fn reader_error_message_ends_reading() {
    let mut r = NetlinkReader::new(());
    let (b, _) = expect_packet(r.feed(&message(NLMSG_ERROR, &[0, 0, 0, 0])));
    assert_eq!(b.get_packet().get_kind(), NLMSG_ERROR);
    assert_eq!(r.get_state(), NetlinkReaderState::Error);
    assert!(matches!(r.resume(), ReaderAction::Finished));
}

#[test]
fn reader_noop_keeps_state() {
    let mut r = NetlinkReader::new(());
    let mut stream = message(NLMSG_NOOP, &[]);
    stream.extend(message(16, &[1, 2, 3, 4]));
    let (_, noop) = expect_packet(r.feed(&stream));
    assert!(noop);
    assert_eq!(r.get_state(), NetlinkReaderState::NeedMore);
    // Still in need of more: the next resume asks for a read first.
    assert!(matches!(r.resume(), ReaderAction::Read));
    let (b, noop) = expect_packet(r.feed(&[1u8]));
    assert!(!noop);
    assert_eq!(b.get_packet().get_kind(), 16);
}

#[test]
fn reader_overrun() {
    let mut r = NetlinkReader::new(());
    assert!(matches!(r.feed(&message(NLMSG_OVERRUN, &[])), ReaderAction::Overrun));
    let mut r = NetlinkReader::new(());
    assert!(matches!(r.feed(&header(0, 16, 0, 0, 0)), ReaderAction::Finished));
    assert_eq!(r.get_state(), NetlinkReaderState::NeedMore);
}

#[test]
fn reader_waits_for_split_message() {
    let msg = message(16, &[7u8; 16]);
    let mut r = NetlinkReader::new(());
    // A whole header, but not the whole message: the reader asks for more.
    assert!(matches!(r.feed(&msg[..16]), ReaderAction::Read));
    assert_eq!(r.get_state(), NetlinkReaderState::NeedMore);
    assert!(matches!(r.resume(), ReaderAction::Read));
    let (b, _) = expect_packet(r.feed(&msg[16..]));
    assert_eq!(b.len(), 32);
    assert_eq!(b.get_packet().payload(), &[7u8; 16]);
}

#[test]
fn reader_waits_for_split_padding() {
    let first = message(16, &[1, 2, 3, 4, 5]);
    let second = message(16, &[6, 7, 8, 9]);
    let mut r = NetlinkReader::new(());
    let (b, _) = expect_packet(r.feed(&first[..21]));
    assert_eq!(b.len(), 21);
    // The padding has not arrived yet: the reader asks for more.
    assert!(matches!(r.resume(), ReaderAction::Read));
    let mut rest = first[21..].to_vec();
    rest.extend(second);
    let (b, _) = expect_packet(r.feed(&rest));
    assert_eq!(b.get_packet().payload(), &[6, 7, 8, 9]);
}

/// Drives a reader over `chunks` as the connection does, collecting what it
/// hands out.
fn drive(chunks: &[&[u8]]) -> Vec<Vec<u8>> {
    let mut r = NetlinkReader::new(());
    let mut out = Vec::new();
    let mut next = 0;
    let mut action = r.resume();
    loop {
        match action {
            ReaderAction::Read => {
                if next == chunks.len() {
                    action = r.feed_eof();
                } else {
                    action = r.feed(chunks[next]);
                    next += 1;
                }
            }
            ReaderAction::Packet { buf, .. } => {
                out.push(buf.get_packet().packet().to_vec());
                action = r.resume();
            }
            ReaderAction::Finished => return out,
            other => panic!("reader failed: {:?}", other),
        }
    }
}

#[test]
fn reader_reads_whole_stream_in_any_reads() {
    let msgs = vec![
        message(16, &[1, 2, 3]),
        message(20, &[4u8; 12]),
        message(16, &[]),
        message(17, &[9u8; 30]),
    ];
    let mut stream = Vec::new();
    for m in &msgs {
        stream.extend_from_slice(m);
    }
    let expected: Vec<Vec<u8>> = msgs.iter().map(|m| {
        let len = u32::from_ne_bytes([m[0], m[1], m[2], m[3]]) as usize;
        m[..len].to_vec()
    }).collect();
    for size in [1usize, 3, 5, 16, 17, 4096] {
        let chunks: Vec<&[u8]> = stream.chunks(size).collect();
        assert_eq!(drive(&chunks), expected, "reads of {} bytes", size);
    }
}

#[test]
fn reader_done_ends_reading() {
    let mut stream = message(NLMSG_DONE, &[0, 0, 0, 0]);
    stream.extend(message(16, &[1, 2, 3, 4]));
    let mut r = NetlinkReader::new(());
    let (b, _) = expect_packet(r.feed(&stream));
    assert_eq!(b.get_packet().get_kind(), NLMSG_DONE);
    assert!(matches!(r.resume(), ReaderAction::Finished));
    assert!(matches!(r.resume(), ReaderAction::Finished));
}

#[test]
fn reader_end_and_failure() {
    let mut r = NetlinkReader::new(());
    assert!(matches!(r.feed(&[]), ReaderAction::Finished));
    assert_eq!(r.get_state(), NetlinkReaderState::Done);
    let mut r = NetlinkReader::new(());
    assert!(matches!(r.feed_eof(), ReaderAction::Finished));
    let mut r = NetlinkReader::new(());
    r.feed_error();
    assert_eq!(r.get_state(), NetlinkReaderState::Error);
    assert!(matches!(r.resume(), ReaderAction::Finished));
}

#[test]
fn request_builder_header() {
    let b = NetlinkRequestBuilder::new(22, NetlinkMsgFlags::new(NLM_F_DUMP));
    assert_eq!(b.get_length(), 16);
    let buf = b.build();
    let p = buf.get_packet();
    assert_eq!(p.get_length(), 16);
    assert_eq!(p.get_kind(), 22);
    assert_eq!(p.get_flags().bits(), NLM_F_DUMP | NLM_F_REQUEST);
    assert_eq!(p.get_seq(), 0);
    assert_eq!(p.get_pid(), 0);
}

#[test]
fn request_builder_append_doubles_length() {
    let b = NetlinkRequestBuilder::new(22, NetlinkMsgFlags::new(NLM_F_DUMP)).append(&[5u8; 16]);
    assert_eq!(b.get_length(), 32);
    let one = NetlinkRequestBuilder::new(22, NetlinkMsgFlags::new(NLM_F_DUMP)).append(&[5u8; 16]).build();
    assert_eq!(one.len(), 32);
    assert_eq!(one.get_packet().payload(), &[5u8; 16]);
    let b = b.append(&[1, 2, 3]);
    assert_eq!(b.get_length(), 64);
    let buf = b.build();
    assert_eq!(buf.len(), 35);
    let p = buf.get_packet();
    assert_eq!(&p.packet()[16..32], &[5u8; 16]);
    assert_eq!(&p.packet()[32..], &[1, 2, 3]);
}
