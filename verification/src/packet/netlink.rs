//! The netlink message header (`struct nlmsghdr`), buffers of messages, the
//! reader that cuts a byte stream into messages, and the request builder.
use vstd::prelude::*;
use crate::endian::{
    ByteOrder, host_order, native_order, read_u16, read_u32, write_u16, write_u32, u16_at, u32_at,
    u16_bytes, u32_bytes, splice,
};

verus! {

/* message flags */
/// It is request message.
pub const NLM_F_REQUEST: u16 = 1;
/// Multipart message, terminated by NLMSG_DONE.
pub const NLM_F_MULTI: u16 = 2;
/// Reply with ack, with zero or error code.
pub const NLM_F_ACK: u16 = 4;
/// Echo this request.
pub const NLM_F_ECHO: u16 = 8;
/// Dump was inconsistent due to sequence change.
pub const NLM_F_DUMP_INTR: u16 = 16;
/// Modifier to GET request: specify tree root.
pub const NLM_F_ROOT: u16 = 0x100;
/// Modifier to GET request: return all matching.
pub const NLM_F_MATCH: u16 = 0x200;
/// Modifier to GET request: atomic GET.
pub const NLM_F_ATOMIC: u16 = 0x400;
/// Modifier to GET request: `NLM_F_ROOT | NLM_F_MATCH`.
pub const NLM_F_DUMP: u16 = 0x300;
/// Modifier to NEW request: override existing.
pub const NLM_F_REPLACE: u16 = 0x100;
/// Modifier to NEW request: do not touch, if it exists.
pub const NLM_F_EXCL: u16 = 0x200;
/// Modifier to NEW request: create, if it does not exist.
pub const NLM_F_CREATE: u16 = 0x400;
/// Modifier to NEW request: add to end of list.
pub const NLM_F_APPEND: u16 = 0x800;

/// Every bit that one of the flags above names.
pub const NLM_F_ALL: u16 = 0x0f1f;

/* message types */
pub const NLMSG_NOOP: u16 = 1;
pub const NLMSG_ERROR: u16 = 2;
pub const NLMSG_DONE: u16 = 3;
pub const NLMSG_OVERRUN: u16 = 4;

/// Size of the netlink message header.
pub const NLMSG_HDRLEN: usize = 16;

/// A set of netlink message flags; only bits that a flag names are kept.
#[derive(Clone, Copy, Debug, PartialEq, Eq, Structural)]
pub struct NetlinkMsgFlags {
    bits: u16,
}

impl NetlinkMsgFlags {
    #[verifier::type_invariant]
    spec fn known_bits_only(self) -> bool {
        self.bits & NLM_F_ALL == self.bits
    }

    /// The raw bits of the set.
    pub closed spec fn spec_bits(self) -> u16 {
        self.bits
    }

    /// The set of the flags named in `val`; bits that no flag names are dropped.
    pub fn new(val: u16) -> (r: Self)
        ensures
            r.spec_bits() == val & NLM_F_ALL,
    {
        assert((val & 0x0f1fu16) & 0x0f1fu16 == val & 0x0f1fu16) by (bit_vector);
        NetlinkMsgFlags { bits: val & NLM_F_ALL }
    }

    /// The raw bits of the set; every one of them is a bit that a flag names.
    pub fn bits(&self) -> (r: u16)
        ensures
            r == self.spec_bits(),
            r & NLM_F_ALL == r,
    {
        proof { use_type_invariant(self); }
        self.bits
    }

    /// The flags that are in `self` or in `other`.
    pub fn union(self, other: Self) -> (r: Self)
        ensures
            r.spec_bits() == self.spec_bits() | other.spec_bits(),
    {
        proof {
            use_type_invariant(&self);
            use_type_invariant(&other);
        }
        let a = self.bits;
        let b = other.bits;
        assert((a | b) & 0x0f1fu16 == a | b) by (bit_vector)
            requires a & 0x0f1fu16 == a, b & 0x0f1fu16 == b;
        NetlinkMsgFlags { bits: a | b }
    }

    /// Whether every flag of `other` is in `self`.
    pub fn contains(&self, other: Self) -> (r: bool)
        ensures
            r == (self.spec_bits() & other.spec_bits() == other.spec_bits()),
    {
        self.bits & other.bits == other.bits
    }
}

/// Truncating to the known flags twice is the same as truncating once:
/// `NetlinkMsgFlags::new(NetlinkMsgFlags::new(v).bits())` is `NetlinkMsgFlags::new(v)`.
pub proof fn lemma_flags_new_idempotent(v: u16)
    ensures
        (v & NLM_F_ALL) & NLM_F_ALL == v & NLM_F_ALL,
{
    assert((v & 0x0f1fu16) & 0x0f1fu16 == v & 0x0f1fu16) by (bit_vector);
}

/// `len` rounded up to the next multiple of four.
pub open spec fn spec_align(len: int) -> int {
    ((len + 3) / 4) * 4
}

/// Rounds `len` up to the next multiple of four, the alignment of netlink
/// messages and of their attributes.
pub fn align(len: usize) -> (r: usize)
    requires
        len + 3 <= usize::MAX,
    ensures
        r == spec_align(len as int),
{
    let x = len + 3;
    let r = x & !3usize;
    assert(x & !3usize == (x / 4) * 4) by (bit_vector);
    r
}

/// The aligned length is a multiple of four, no less than `len` and less
/// than `len + 4`; aligning twice changes nothing.
pub proof fn lemma_align(len: int)
    requires
        len >= 0,
    ensures
        spec_align(len) % 4 == 0,
        len <= spec_align(len) < len + 4,
        spec_align(spec_align(len)) == spec_align(len),
{
}

/// Length of the message, header included (`nlmsg_len`).
pub open spec fn header_length(o: ByteOrder, s: Seq<u8>) -> u32 {
    u32_at(o, s, 0)
}

/// Type of the message (`nlmsg_type`).
pub open spec fn header_kind(o: ByteOrder, s: Seq<u8>) -> u16 {
    u16_at(o, s, 4)
}

/// Flags of the message as they stand in the header (`nlmsg_flags`).
pub open spec fn header_flags(o: ByteOrder, s: Seq<u8>) -> u16 {
    u16_at(o, s, 6)
}

/// Sequence number (`nlmsg_seq`).
pub open spec fn header_seq(o: ByteOrder, s: Seq<u8>) -> u32 {
    u32_at(o, s, 8)
}

/// Port id of the sender (`nlmsg_pid`).
pub open spec fn header_pid(o: ByteOrder, s: Seq<u8>) -> u32 {
    u32_at(o, s, 12)
}

/// Where the payload of a message ends: at the length that its header
/// records, kept within the buffer and no earlier than the header's end.
pub open spec fn payload_end(o: ByteOrder, s: Seq<u8>) -> int {
    let l = header_length(o, s) as int;
    if l < 16 {
        16
    } else if l > s.len() {
        s.len() as int
    } else {
        l
    }
}

/// The payload of a message: the bytes after the header, up to the length
/// that the header records.
pub open spec fn payload_bytes(o: ByteOrder, s: Seq<u8>) -> Seq<u8> {
    s.subrange(16, payload_end(o, s))
}

/// The sixteen bytes of a header with the given fields.
pub open spec fn header_bytes(o: ByteOrder, length: u32, kind: u16, flags: u16, seq: u32, pid: u32) -> Seq<u8> {
    u32_bytes(o, length) + u16_bytes(o, kind) + u16_bytes(o, flags) + u32_bytes(o, seq) + u32_bytes(o, pid)
}

/// The fields of a header read back from the bytes that `header_bytes` lays out.
pub proof fn lemma_header_roundtrip(o: ByteOrder, length: u32, kind: u16, flags: u16, seq: u32, pid: u32)
    ensures
        header_bytes(o, length, kind, flags, seq, pid).len() == 16,
        header_length(o, header_bytes(o, length, kind, flags, seq, pid)) == length,
        header_kind(o, header_bytes(o, length, kind, flags, seq, pid)) == kind,
        header_flags(o, header_bytes(o, length, kind, flags, seq, pid)) == flags,
        header_seq(o, header_bytes(o, length, kind, flags, seq, pid)) == seq,
        header_pid(o, header_bytes(o, length, kind, flags, seq, pid)) == pid,
{
    crate::endian::lemma_u32_roundtrip(o, length);
    crate::endian::lemma_u16_roundtrip(o, kind);
    crate::endian::lemma_u16_roundtrip(o, flags);
    crate::endian::lemma_u32_roundtrip(o, seq);
    crate::endian::lemma_u32_roundtrip(o, pid);
    let h = header_bytes(o, length, kind, flags, seq, pid);
    assert(h.subrange(0, 4) =~= u32_bytes(o, length));
    assert(h.subrange(4, 6) =~= u16_bytes(o, kind));
    assert(h.subrange(6, 8) =~= u16_bytes(o, flags));
    assert(h.subrange(8, 12) =~= u32_bytes(o, seq));
    assert(h.subrange(12, 16) =~= u32_bytes(o, pid));
}

/// A netlink message: at least a header's worth of bytes, read in the byte
/// order of the host that wrote them.
#[derive(Debug)]
pub struct NetlinkPacket {
    data: Vec<u8>,
    order: ByteOrder,
}

impl NetlinkPacket {
    #[verifier::type_invariant]
    spec fn holds_header(self) -> bool {
        self.data@.len() >= 16
    }

    /// The bytes of the message.
    pub closed spec fn bytes(&self) -> Seq<u8> {
        self.data@
    }

    /// The byte order its integers are read in.
    pub closed spec fn order(&self) -> ByteOrder {
        self.order
    }

    /// The size of a netlink header, the least a message can hold.
    pub fn minimum_packet_size() -> (r: usize)
        ensures
            r == 16,
    {
        NLMSG_HDRLEN
    }

    /// A message that takes over `data`, which holds at least a header.
    pub(crate) fn from_parts(data: Vec<u8>, order: ByteOrder) -> (r: NetlinkPacket)
        requires
            data@.len() >= 16,
        ensures
            r.bytes() == data@,
            r.order() == order,
    {
        NetlinkPacket { data, order }
    }

    /// A message over a copy of `buf`, read in the given byte order; `None`
    /// when `buf` is too short to hold a header.
    pub fn with_order(buf: &[u8], order: ByteOrder) -> (r: Option<NetlinkPacket>)
        ensures
            r is Some <==> buf@.len() >= 16,
            r matches Some(p) ==> p.bytes() == buf@ && p.order() == order,
    {
        if buf.len() < NLMSG_HDRLEN {
            None
        } else {
            let data = crate::packet::netlink::copy_bytes(buf);
            Some(NetlinkPacket { data, order })
        }
    }

    /// A message over a copy of `buf`, read in the byte order of the host;
    /// `None` when `buf` is too short to hold a header.
    pub fn new(buf: &[u8]) -> (r: Option<NetlinkPacket>)
        ensures
            r is Some <==> buf@.len() >= 16,
            r matches Some(p) ==> p.bytes() == buf@ && p.order() == host_order(),
    {
        Self::with_order(buf, native_order())
    }

    /// A message that takes `data` over, read in the given byte order;
    /// `None` when `data` is too short to hold a header.
    pub fn owned_with_order(data: Vec<u8>, order: ByteOrder) -> (r: Option<NetlinkPacket>)
        ensures
            r is Some <==> data@.len() >= 16,
            r matches Some(p) ==> p.bytes() == data@ && p.order() == order,
    {
        if data.len() < NLMSG_HDRLEN {
            None
        } else {
            Some(NetlinkPacket { data, order })
        }
    }

    /// A message that takes `data` over, read in the byte order of the host;
    /// `None` when `data` is too short to hold a header.
    pub fn owned(data: Vec<u8>) -> (r: Option<NetlinkPacket>)
        ensures
            r is Some <==> data@.len() >= 16,
            r matches Some(p) ==> p.bytes() == data@ && p.order() == host_order(),
    {
        Self::owned_with_order(data, native_order())
    }

    /// The byte order the message is read in.
    pub fn byte_order(&self) -> (r: ByteOrder)
        ensures
            r == self.order(),
    {
        self.order
    }

    /// All bytes of the message, header included.
    pub fn packet(&self) -> (r: &[u8])
        ensures
            r@ == self.bytes(),
            r@.len() >= 16,
    {
        proof { use_type_invariant(self); }
        self.data.as_slice()
    }

    /// The length that the header records.
    pub fn get_length(&self) -> (r: u32)
        ensures
            r == header_length(self.order(), self.bytes()),
            self.bytes().len() >= 16,
    {
        proof { use_type_invariant(self); }
        read_u32(self.order, self.data.as_slice(), 0)
    }

    /// The type of the message.
    pub fn get_kind(&self) -> (r: u16)
        ensures
            r == header_kind(self.order(), self.bytes()),
    {
        proof { use_type_invariant(self); }
        read_u16(self.order, self.data.as_slice(), 4)
    }

    /// The flags of the message; bits that no flag names are dropped.
    pub fn get_flags(&self) -> (r: NetlinkMsgFlags)
        ensures
            r.spec_bits() == header_flags(self.order(), self.bytes()) & NLM_F_ALL,
    {
        proof { use_type_invariant(self); }
        NetlinkMsgFlags::new(read_u16(self.order, self.data.as_slice(), 6))
    }

    /// The sequence number.
    pub fn get_seq(&self) -> (r: u32)
        ensures
            r == header_seq(self.order(), self.bytes()),
    {
        proof { use_type_invariant(self); }
        read_u32(self.order, self.data.as_slice(), 8)
    }

    /// The port id of the sender.
    pub fn get_pid(&self) -> (r: u32)
        ensures
            r == header_pid(self.order(), self.bytes()),
    {
        proof { use_type_invariant(self); }
        read_u32(self.order, self.data.as_slice(), 12)
    }

    /// The bytes after the header, up to the length that the header records.
    pub fn payload(&self) -> (r: &[u8])
        ensures
            r@ == payload_bytes(self.order(), self.bytes()),
    {
        proof { use_type_invariant(self); }
        let s = self.data.as_slice();
        let l = read_u32(self.order, s, 0);
        let end: usize = if (l as u64) < 16 {
            16
        } else if (l as u64) > (s.len() as u64) {
            s.len()
        } else {
            l as usize
        };
        vstd::slice::slice_subrange(s, 16, end)
    }
}

/// A copy of the bytes of `s`.
pub fn copy_bytes(s: &[u8]) -> (r: Vec<u8>)
    ensures
        r@ == s@,
{
    let mut r: Vec<u8> = Vec::with_capacity(s.len());
    let mut i: usize = 0;
    while i < s.len()
        invariant
            i <= s@.len(),
            r@ == s@.take(i as int),
        decreases s@.len() - i,
    {
        r.push(s[i]);
        i = i + 1;
        assert(r@ =~= s@.take(i as int));
    }
    assert(s@.take(s@.len() as int) =~= s@);
    r
}

/// An owned copy of one message, as the reader hands them out. Unlike a
/// [`NetlinkPacket`] it may be shorter than a header.
#[derive(Clone, Debug)]
pub struct NetlinkBuf {
    data: Vec<u8>,
    order: ByteOrder,
}

impl NetlinkBuf {
    /// The bytes of the message.
    pub closed spec fn bytes(&self) -> Seq<u8> {
        self.data@
    }

    /// The byte order its integers are read in.
    pub closed spec fn order(&self) -> ByteOrder {
        self.order
    }

    fn new(data: &[u8], order: ByteOrder) -> (r: Self)
        ensures
            r.bytes() == data@,
            r.order() == order,
    {
        NetlinkBuf { data: copy_bytes(data), order }
    }

    /// A buffer that takes `v` over, read in the byte order of the host.
    pub fn from(v: Vec<u8>) -> (r: Self)
        ensures
            r.bytes() == v@,
            r.order() == host_order(),
    {
        NetlinkBuf { data: v, order: native_order() }
    }

    /// A buffer that takes `v` over, read in the given byte order.
    pub fn with_order(v: Vec<u8>, order: ByteOrder) -> (r: Self)
        ensures
            r.bytes() == v@,
            r.order() == order,
    {
        NetlinkBuf { data: v, order }
    }

    /// The byte order the message is read in.
    pub fn byte_order(&self) -> (r: ByteOrder)
        ensures
            r == self.order(),
    {
        self.order
    }

    /// Number of bytes held.
    pub fn len(&self) -> (r: usize)
        ensures
            r == self.bytes().len(),
    {
        self.data.len()
    }

    /// The message the buffer holds; it must hold at least a header.
    pub fn get_packet(&self) -> (r: NetlinkPacket)
        requires
            self.bytes().len() >= 16,
        ensures
            r.bytes() == self.bytes(),
            r.order() == self.order(),
    {
        NetlinkPacket::from_parts(copy_bytes(self.data.as_slice()), self.order)
    }
}

/// Length of the message at the front of `rest`, when it is a whole message
/// of at least a header and no longer than `rest`; `None` ends the walk.
pub open spec fn next_message_len(o: ByteOrder, rest: Seq<u8>) -> Option<int> {
    if rest.len() < 16 {
        None
    } else {
        let l = header_length(o, rest) as int;
        if l < 16 || l > rest.len() {
            None
        } else {
            Some(l)
        }
    }
}

/// How far the walk moves past a message of length `l`: to the next aligned
/// offset, or to the end of what is left.
pub open spec fn message_advance(l: int, remaining: int) -> int {
    if spec_align(l) > remaining {
        remaining
    } else {
        spec_align(l)
    }
}

/// The messages that a buffer holds one after the other, each starting at
/// the aligned end of the one before, up to the first that is cut short.
pub open spec fn split_messages(o: ByteOrder, s: Seq<u8>) -> Seq<Seq<u8>>
    decreases s.len(),
{
    match next_message_len(o, s) {
        None => Seq::empty(),
        Some(l) => seq![s.take(l)] + split_messages(o, s.skip(message_advance(l, s.len() as int))),
    }
}

/// Walks the messages of a buffer in order.
pub struct NetlinkIterable<'a> {
    buf: &'a [u8],
    pos: usize,
    order: ByteOrder,
}

impl<'a> NetlinkIterable<'a> {
    #[verifier::type_invariant]
    spec fn within(self) -> bool {
        self.pos <= self.buf@.len()
    }

    /// What is left of the buffer to walk.
    pub closed spec fn remaining(&self) -> Seq<u8> {
        self.buf@.skip(self.pos as int)
    }

    /// The byte order the headers are read in.
    pub closed spec fn order(&self) -> ByteOrder {
        self.order
    }

    /// A walk over all of `buf`, reading headers in the given byte order.
    pub fn with_order(buf: &'a [u8], order: ByteOrder) -> (r: Self)
        ensures
            r.remaining() == buf@,
            r.order() == order,
    {
        assert(buf@.skip(0) =~= buf@);
        NetlinkIterable { buf: buf, pos: 0, order }
    }

    /// A walk over all of `buf`, reading headers in the byte order of the host.
    pub fn new(buf: &'a [u8]) -> (r: Self)
        ensures
            r.remaining() == buf@,
            r.order() == host_order(),
    {
        Self::with_order(buf, native_order())
    }

    /// The next message, or `None` when what is left does not start with a
    /// whole message.
    pub fn next(&mut self) -> (r: Option<NetlinkPacket>)
        ensures
            final(self).order() == old(self).order(),
            match next_message_len(old(self).order(), old(self).remaining()) {
                None => r is None && final(self).remaining() == old(self).remaining(),
                Some(l) => r matches Some(p) && p.bytes() == old(self).remaining().take(l)
                    && p.order() == old(self).order()
                    && final(self).remaining() == old(self).remaining().skip(
                        message_advance(l, old(self).remaining().len() as int),
                    ),
            },
            r is None ==> split_messages(old(self).order(), old(self).remaining()) == Seq::<Seq<u8>>::empty(),
            r matches Some(p) ==> split_messages(old(self).order(), old(self).remaining())
                == seq![p.bytes()] + split_messages(old(self).order(), final(self).remaining()),
    {
        proof { use_type_invariant(&*self); }
        let ghost rest = self.remaining();
        let left = self.buf.len() - self.pos;
        if left < NLMSG_HDRLEN {
            return None;
        }
        let l = read_u32(self.order, self.buf, self.pos);
        assert(l == header_length(self.order, rest));
        if (l as u64) < 16 || (l as u64) > (left as u64) {
            return None;
        }
        let l = l as usize;
        let msg = vstd::slice::slice_subrange(self.buf, self.pos, self.pos + l);
        assert(msg@ =~= rest.take(l as int));
        let pkt = NetlinkPacket::with_order(msg, self.order);
        let a = ((l as u64) + 3) / 4 * 4;
        let adv = if a > (left as u64) { left } else { a as usize };
        self.pos = self.pos + adv;
        assert(self.remaining() =~= rest.skip(adv as int));
        pkt
    }
}

/// Where the reader stands between two reads.
#[derive(Clone, Copy, Debug, PartialEq, Eq, Structural)]
pub enum NetlinkReaderState {
    Done,
    NeedMore,
    Error,
    Parsing,
}

/// What the reader asks of the code that drives it.
#[derive(Debug)]
pub enum ReaderAction {
    /// Read more bytes from the source and hand them to `feed`.
    Read,
    /// There is no message to hand out.
    Finished,
    /// A message; `noop` marks an `NLMSG_NOOP` message.
    Packet { buf: NetlinkBuf, noop: bool },
    /// The source reported an `NLMSG_OVERRUN` message.
    Overrun,
    /// A header records a length that cannot be aligned in a `usize`.
    OutOfRange,
}

/// The outcome of one step of the reader, over the bytes of a message.
pub enum ReadStep {
    Read,
    Finished,
    Packet(Seq<u8>, bool),
    Overrun,
    OutOfRange,
}

/// Whether `a` is the step `s` with the message read in byte order `o`.
pub open spec fn action_is(a: ReaderAction, s: ReadStep, o: ByteOrder) -> bool {
    match s {
        ReadStep::Read => a is Read,
        ReadStep::Finished => a is Finished,
        ReadStep::Packet(p, n) => a matches ReaderAction::Packet { buf, noop } && buf.bytes() == p
            && buf.order() == o && noop == n,
        ReadStep::Overrun => a is Overrun,
        ReadStep::OutOfRange => a is OutOfRange,
    }
}

/// The state the reader moves to on a message of type `k`.
pub open spec fn state_after_kind(k: u16, st: NetlinkReaderState) -> NetlinkReaderState {
    if k == NLMSG_ERROR {
        NetlinkReaderState::Error
    } else if k == NLMSG_DONE {
        NetlinkReaderState::Done
    } else if k == NLMSG_NOOP {
        st
    } else {
        NetlinkReaderState::Parsing
    }
}

/// One attempt to cut a message out of `buf` at offset `at`, in state `st`:
/// the new state, the new offset and the outcome.
pub open spec fn spec_parse(o: ByteOrder, buf: Seq<u8>, at: int, st: NetlinkReaderState) -> (
    NetlinkReaderState,
    int,
    ReadStep,
) {
    if at > buf.len() {
        (NetlinkReaderState::NeedMore, at, ReadStep::Read)
    } else {
        let rest = buf.skip(at);
        if rest.len() < 16 {
            (NetlinkReaderState::NeedMore, at, ReadStep::Read)
        } else {
            let l = header_length(o, rest) as int;
            let k = header_kind(o, rest);
            if l == 0 {
                (st, at, ReadStep::Finished)
            } else if l + 3 > usize::MAX {
                (st, at, ReadStep::OutOfRange)
            } else if k == NLMSG_OVERRUN {
                (st, at, ReadStep::Overrun)
            } else if l > rest.len() {
                (NetlinkReaderState::NeedMore, at, ReadStep::Read)
            } else {
                (state_after_kind(k, st), at + spec_align(l), ReadStep::Packet(rest.take(l), k == NLMSG_NOOP))
            }
        }
    }
}

/// What the reader does when it is resumed, before it reads anything.
pub open spec fn spec_resume(o: ByteOrder, buf: Seq<u8>, at: int, st: NetlinkReaderState) -> (
    NetlinkReaderState,
    int,
    ReadStep,
) {
    match st {
        NetlinkReaderState::NeedMore => (st, at, ReadStep::Read),
        NetlinkReaderState::Done => (st, at, ReadStep::Finished),
        NetlinkReaderState::Error => (st, at, ReadStep::Finished),
        NetlinkReaderState::Parsing => spec_parse(o, buf, at, st),
    }
}

/// Cuts the messages out of the bytes that a source yields. The reader
/// decides; the code that drives it reads from `reader` when asked to and
/// hands over what it read.
pub struct NetlinkReader<R> {
    pub reader: R,
    buf: Vec<u8>,
    read_at: usize,
    state: NetlinkReaderState,
    order: ByteOrder,
}

impl<R> NetlinkReader<R> {
    /// The source the bytes are read from.
    pub closed spec fn source(&self) -> R {
        self.reader
    }

    /// The bytes read so far.
    pub closed spec fn buffered(&self) -> Seq<u8> {
        self.buf@
    }

    /// The offset of the next message in the bytes read so far.
    pub closed spec fn position(&self) -> int {
        self.read_at as int
    }

    /// The state of the reader.
    pub closed spec fn state(&self) -> NetlinkReaderState {
        self.state
    }

    /// The byte order headers are read in.
    pub closed spec fn order(&self) -> ByteOrder {
        self.order
    }

    /// The bounds that the reader's bookkeeping stays within.
    pub closed spec fn wf(&self) -> bool {
        &&& self.buf@.len() <= isize::MAX
        &&& self.read_at <= self.buf@.len() + 3
    }

    /// A reader over `reader`, reading headers in the given byte order.
    pub fn with_order(reader: R, order: ByteOrder) -> (r: Self)
        ensures
            r.wf(),
            r.source() == reader,
            r.buffered() == Seq::<u8>::empty(),
            r.position() == 0,
            r.state() == NetlinkReaderState::NeedMore,
            r.order() == order,
    {
        NetlinkReader { reader: reader, buf: Vec::new(), read_at: 0, state: NetlinkReaderState::NeedMore, order }
    }

    /// A reader over `reader`, reading headers in the byte order of the host.
    pub fn new(reader: R) -> (r: Self)
        ensures
            r.wf(),
            r.source() == reader,
            r.buffered() == Seq::<u8>::empty(),
            r.position() == 0,
            r.state() == NetlinkReaderState::NeedMore,
            r.order() == host_order(),
    {
        Self::with_order(reader, native_order())
    }

    /// Number of bytes read so far.
    pub fn buffered_len(&self) -> (r: usize)
        ensures
            r == self.buffered().len(),
    {
        self.buf.len()
    }

    /// The state of the reader.
    pub fn get_state(&self) -> (r: NetlinkReaderState)
        ensures
            r == self.state(),
    {
        self.state
    }

    fn parse(&mut self) -> (a: ReaderAction)
        requires
            old(self).wf(),
        ensures
            final(self).wf(),
            final(self).source() == old(self).source(),
            final(self).order() == old(self).order(),
            final(self).buffered() == old(self).buffered(),
            ({
                let (st, at, step) = spec_parse(old(self).order(), old(self).buffered(), old(self).position(), old(self).state());
                &&& final(self).state() == st
                &&& final(self).position() == at
                &&& action_is(a, step, old(self).order())
            }),
    {
        let at = self.read_at;
        let len = self.buf.len();
        if at > len {
            self.state = NetlinkReaderState::NeedMore;
            return ReaderAction::Read;
        }
        let ghost rest = self.buf@.skip(at as int);
        let left = len - at;
        if left < NLMSG_HDRLEN {
            self.state = NetlinkReaderState::NeedMore;
            return ReaderAction::Read;
        }
        let s = self.buf.as_slice();
        let l = read_u32(self.order, s, at);
        let k = read_u16(self.order, s, at + 4);
        assert(l == header_length(self.order, rest));
        assert(k == header_kind(self.order, rest));
        if l == 0 {
            return ReaderAction::Finished;
        }
        if (l as u64) + 3 > (usize::MAX as u64) {
            return ReaderAction::OutOfRange;
        }
        let a = align(l as usize);
        if k == NLMSG_OVERRUN {
            return ReaderAction::Overrun;
        }
        let l = l as usize;
        if l > left {
            self.state = NetlinkReaderState::NeedMore;
            return ReaderAction::Read;
        }
        self.state = if k == NLMSG_ERROR {
            NetlinkReaderState::Error
        } else if k == NLMSG_DONE {
            NetlinkReaderState::Done
        } else if k == NLMSG_NOOP {
            self.state
        } else {
            NetlinkReaderState::Parsing
        };
        let s = self.buf.as_slice();
        let msg = vstd::slice::slice_subrange(s, at, at + l);
        assert(msg@ =~= rest.take(l as int));
        let slot = NetlinkBuf::new(msg, self.order);
        self.read_at = at + a;
        ReaderAction::Packet { buf: slot, noop: k == NLMSG_NOOP }
    }

    /// Resumes the reader: it asks for more bytes, hands out nothing more
    /// once it is done or failed, or cuts the next message out of what it
    /// has read.
    pub fn resume(&mut self) -> (a: ReaderAction)
        requires
            old(self).wf(),
        ensures
            final(self).wf(),
            final(self).source() == old(self).source(),
            final(self).order() == old(self).order(),
            final(self).buffered() == old(self).buffered(),
            ({
                let (st, at, step) = spec_resume(old(self).order(), old(self).buffered(), old(self).position(), old(self).state());
                &&& final(self).state() == st
                &&& final(self).position() == at
                &&& action_is(a, step, old(self).order())
            }),
    {
        match self.state {
            NetlinkReaderState::NeedMore => ReaderAction::Read,
            NetlinkReaderState::Done => ReaderAction::Finished,
            NetlinkReaderState::Error => ReaderAction::Finished,
            NetlinkReaderState::Parsing => self.parse(),
        }
    }

    /// Hands the reader the bytes of one read. No bytes mean the source has
    /// ended: the reader is done. Otherwise they are added to what was read
    /// and the next message is cut out.
    pub fn feed(&mut self, data: &[u8]) -> (a: ReaderAction)
        requires
            old(self).wf(),
            old(self).buffered().len() + data@.len() <= isize::MAX,
        ensures
            final(self).wf(),
            final(self).source() == old(self).source(),
            final(self).order() == old(self).order(),
            data@.len() == 0 ==> {
                &&& final(self).buffered() == old(self).buffered()
                &&& final(self).position() == old(self).position()
                &&& final(self).state() == NetlinkReaderState::Done
                &&& a is Finished
            },
            data@.len() > 0 ==> {
                let (st, at, step) = spec_parse(old(self).order(), old(self).buffered() + data@, old(self).position(), old(self).state());
                &&& final(self).buffered() == old(self).buffered() + data@
                &&& final(self).state() == st
                &&& final(self).position() == at
                &&& action_is(a, step, old(self).order())
            },
    {
        if data.len() == 0 {
            return self.feed_eof();
        }
        let mut i: usize = 0;
        let ghost start = self.buf@;
        while i < data.len()
            invariant
                i <= data@.len(),
                self.buf@ == start + data@.take(i as int),
                start == old(self).buf@,
                start.len() + data@.len() <= isize::MAX,
                self.read_at == old(self).read_at,
                self.state == old(self).state,
                self.order == old(self).order,
                self.reader == old(self).reader,
            decreases data@.len() - i,
        {
            self.buf.push(data[i]);
            i = i + 1;
            assert(self.buf@ =~= start + data@.take(i as int));
        }
        assert(data@.take(data@.len() as int) =~= data@);
        self.parse()
    }

    /// Tells the reader that the source has ended: it is done.
    pub fn feed_eof(&mut self) -> (a: ReaderAction)
        requires
            old(self).wf(),
        ensures
            final(self).wf(),
            final(self).source() == old(self).source(),
            final(self).order() == old(self).order(),
            final(self).buffered() == old(self).buffered(),
            final(self).position() == old(self).position(),
            final(self).state() == NetlinkReaderState::Done,
            a is Finished,
    {
        self.state = NetlinkReaderState::Done;
        ReaderAction::Finished
    }

    /// Tells the reader that the source failed: it hands out nothing more.
    pub fn feed_error(&mut self)
        requires
            old(self).wf(),
        ensures
            final(self).wf(),
            final(self).source() == old(self).source(),
            final(self).order() == old(self).order(),
            final(self).buffered() == old(self).buffered(),
            final(self).position() == old(self).position(),
            final(self).state() == NetlinkReaderState::Error,
    {
        self.state = NetlinkReaderState::Error;
    }
}

/// A header of length 16 with the given type and flags; sequence number
/// and port id are zero.
pub fn header_vec(o: ByteOrder, kind: u16, flags: u16) -> (r: Vec<u8>)
    ensures
        r@ == header_bytes(o, 16, kind, flags, 0, 0),
{
    let mut data: Vec<u8> = vec![0u8; 16];
    write_u32(o, &mut data, 0, 16);
    write_u16(o, &mut data, 4, kind);
    write_u16(o, &mut data, 6, flags);
    assert(data@ =~= header_bytes(o, 16, kind, flags, 0, 0));
    data
}

/// Builds a netlink request: a header, then what is appended to it.
pub struct NetlinkRequestBuilder {
    data: Vec<u8>,
    order: ByteOrder,
}

impl NetlinkRequestBuilder {
    #[verifier::type_invariant]
    spec fn holds_header(self) -> bool {
        self.data@.len() >= 16
    }

    /// The bytes of the request so far.
    pub closed spec fn bytes(&self) -> Seq<u8> {
        self.data@
    }

    /// The byte order the header is written in.
    pub closed spec fn order(&self) -> ByteOrder {
        self.order
    }

    /// A request of type `kind` with `flags` and `NLM_F_REQUEST` set, its
    /// header written in the given byte order.
    pub fn with_order(kind: u16, flags: NetlinkMsgFlags, order: ByteOrder) -> (r: Self)
        ensures
            r.order() == order,
            r.bytes() == header_bytes(order, 16, kind, flags.spec_bits() | NLM_F_REQUEST, 0, 0),
    {
        let data = header_vec(order, kind, flags.union(NetlinkMsgFlags::new(NLM_F_REQUEST)).bits());
        assert(NLM_F_REQUEST & NLM_F_ALL == NLM_F_REQUEST) by (bit_vector);
        NetlinkRequestBuilder { data, order }
    }

    /// A request of type `kind` with `flags` and `NLM_F_REQUEST` set, its
    /// header written in the byte order of the host.
    pub fn new(kind: u16, flags: NetlinkMsgFlags) -> (r: Self)
        ensures
            r.order() == host_order(),
            r.bytes() == header_bytes(r.order(), 16, kind, flags.spec_bits() | NLM_F_REQUEST, 0, 0),
    {
        Self::with_order(kind, flags, native_order())
    }

    /// The length that the header records.
    pub fn get_length(&self) -> (r: u32)
        ensures
            r == header_length(self.order(), self.bytes()),
            self.bytes().len() >= 16,
    {
        proof { use_type_invariant(self); }
        read_u32(self.order, self.data.as_slice(), 0)
    }

    /// Appends `data` to the request. The length in the header is doubled,
    /// not increased by the size of `data`; this is exact for the one use
    /// the route requests make of it, a header followed by a body of the
    /// same size.
    pub fn append(self, data: &[u8]) -> (r: Self)
        requires
            2 * header_length(self.order(), self.bytes()) <= u32::MAX,
            self.bytes().len() + data@.len() <= isize::MAX,
        ensures
            r.order() == self.order(),
            r.bytes() == splice(self.bytes(), 0, u32_bytes(self.order(), (2 * header_length(self.order(), self.bytes())) as u32)) + data@,
    {
        proof { use_type_invariant(&self); }
        let NetlinkRequestBuilder { data: mut buf, order } = self;
        let len = read_u32(order, buf.as_slice(), 0);
        write_u32(order, &mut buf, 0, len + len);
        let ghost head = buf@;
        let mut i: usize = 0;
        while i < data.len()
            invariant
                i <= data@.len(),
                buf@ == head + data@.take(i as int),
                head.len() >= 16,
                head.len() + data@.len() <= isize::MAX,
            decreases data@.len() - i,
        {
            buf.push(data[i]);
            i = i + 1;
            assert(buf@ =~= head + data@.take(i as int));
        }
        assert(data@.take(data@.len() as int) =~= data@);
        NetlinkRequestBuilder { data: buf, order }
    }

    /// The request as a buffer to send.
    pub fn build(self) -> (r: NetlinkBuf)
        ensures
            r.bytes() == self.bytes(),
            r.order() == self.order(),
    {
        NetlinkBuf::with_order(self.data, self.order)
    }
}

/// Once the reader is done or has failed, resuming it hands out nothing and
/// changes nothing.
pub proof fn lemma_reader_finished_stays(o: ByteOrder, buf: Seq<u8>, at: int, st: NetlinkReaderState)
    requires
        st == NetlinkReaderState::Done || st == NetlinkReaderState::Error,
    ensures
        spec_resume(o, buf, at, st) == (st, at, ReadStep::Finished),
{
}

/// A step of the reader never moves its position back, keeps it a multiple
/// of four, and moves it only past a message it hands out: the bytes at the
/// old position, as many as their header records, followed by the padding
/// up to the next multiple of four.
pub proof fn lemma_reader_step(o: ByteOrder, buf: Seq<u8>, at: int, st: NetlinkReaderState)
    requires
        0 <= at,
    ensures
        ({
            let (st2, at2, step) = spec_resume(o, buf, at, st);
            &&& at <= at2
            &&& at % 4 == 0 ==> at2 % 4 == 0
            &&& at2 != at ==> step is Packet
            &&& step matches ReadStep::Packet(p, noop) ==> {
                &&& p == buf.subrange(at, at + p.len())
                &&& at2 == at + spec_align(p.len() as int)
                &&& p.len() >= 4 ==> header_length(o, p) == p.len()
                &&& p.len() >= 6 ==> (noop <==> header_kind(o, p) == NLMSG_NOOP)
            }
        }),
{
    let (st2, at2, step) = spec_resume(o, buf, at, st);
    if let ReadStep::Packet(p, noop) = step {
        let rest = buf.skip(at);
        assert(p =~= buf.subrange(at, at + p.len()));
        if p.len() >= 4 {
            assert(header_length(o, p) == header_length(o, rest));
        }
        if p.len() >= 6 {
            assert(header_kind(o, p) == header_kind(o, rest));
        }
    }
}

/// A whole message that records its own aligned size, standing at the
/// reader's position, is handed out intact, and the position moves to the
/// byte after it; only an `NLMSG_OVERRUN` message stops the reader instead.
pub proof fn lemma_reader_reads_message(
    o: ByteOrder,
    prefix: Seq<u8>,
    m: Seq<u8>,
    rest: Seq<u8>,
    st: NetlinkReaderState,
)
    requires
        m.len() >= 16,
        header_length(o, m) == m.len(),
        m.len() % 4 == 0,
        header_kind(o, m) != NLMSG_OVERRUN,
    ensures
        spec_parse(o, prefix + m + rest, prefix.len() as int, st) == (
            state_after_kind(header_kind(o, m), st),
            (prefix.len() + m.len()) as int,
            ReadStep::Packet(m, header_kind(o, m) == NLMSG_NOOP),
        ),
{
    let buf = prefix + m + rest;
    let r = buf.skip(prefix.len() as int);
    assert(r =~= m + rest);
    assert(header_length(o, r) == header_length(o, m));
    assert(header_kind(o, r) == header_kind(o, m));
    assert(r.take(m.len() as int) =~= m);
}

/// A step that hands out an `NLMSG_DONE` message leaves the reader done, and
/// one that hands out an `NLMSG_ERROR` message leaves it failed: the message
/// itself is handed out as data, and from then on every resume hands out
/// nothing and asks for no read, whatever has been read.
pub proof fn lemma_done_or_error_ends_reader(o: ByteOrder, buf: Seq<u8>, at: int, st: NetlinkReaderState)
    ensures
        ({
            let (st2, at2, step) = spec_parse(o, buf, at, st);
            match step {
                ReadStep::Packet(p, _) => p.len() >= 6 ==> {
                    &&& header_kind(o, p) == NLMSG_DONE ==> st2 == NetlinkReaderState::Done
                    &&& header_kind(o, p) == NLMSG_ERROR ==> st2 == NetlinkReaderState::Error
                    &&& (header_kind(o, p) == NLMSG_DONE || header_kind(o, p) == NLMSG_ERROR) ==> forall|
                        later: Seq<u8>,
                    | #[trigger] spec_resume(o, later, at2, st2) == (st2, at2, ReadStep::Finished)
                },
                _ => true,
            }
        }),
{
    let (st2, at2, step) = spec_parse(o, buf, at, st);
    if let ReadStep::Packet(p, _) = step {
        if p.len() >= 6 {
            let rest = buf.skip(at);
            assert(header_kind(o, p) == header_kind(o, rest));
        }
    }
}

/// Feeding the reader only adds bytes at the end of what it has read.
pub proof fn lemma_feed_appends(buf: Seq<u8>, data: Seq<u8>)
    ensures
        (buf + data).subrange(0, buf.len() as int) == buf,
        (buf + data).len() == buf.len() + data.len(),
{
    assert((buf + data).subrange(0, buf.len() as int) =~= buf);
}

/// A request with a body of header size appended records its own size,
/// its type, and its flags with `NLM_F_REQUEST` set, and carries the body
/// as its payload.
pub proof fn lemma_request_with_body(o: ByteOrder, kind: u16, flags: u16, body: Seq<u8>)
    requires
        body.len() == 16,
    ensures
        ({
            let h = header_bytes(o, 16, kind, flags | NLM_F_REQUEST, 0, 0);
            let b = splice(h, 0, u32_bytes(o, (2 * header_length(o, h)) as u32)) + body;
            &&& header_length(o, b) == b.len()
            &&& header_kind(o, b) == kind
            &&& header_flags(o, b) == flags | NLM_F_REQUEST
            &&& payload_bytes(o, b) == body
        }),
{
    let h = header_bytes(o, 16, kind, flags | NLM_F_REQUEST, 0, 0);
    lemma_header_roundtrip(o, 16, kind, flags | NLM_F_REQUEST, 0, 0);
    let t = splice(h, 0, u32_bytes(o, 32));
    crate::endian::lemma_write_read_u32(o, h, 0, 32);
    let b = t + body;
    assert(header_length(o, b) == header_length(o, t));
    assert(header_kind(o, b) == header_kind(o, t));
    assert(header_kind(o, t) == header_kind(o, h));
    assert(header_flags(o, b) == header_flags(o, t));
    assert(header_flags(o, t) == header_flags(o, h));
    assert(payload_bytes(o, b) =~= body);
}

/// Every message of the walk over a buffer holds at least a header and
/// records its own size; the walk is a sequence of such messages.
pub proof fn lemma_split_messages(o: ByteOrder, s: Seq<u8>)
    ensures
        forall|i: int| 0 <= i < split_messages(o, s).len() ==> {
            &&& #[trigger] split_messages(o, s)[i].len() >= 16
            &&& header_length(o, split_messages(o, s)[i]) == split_messages(o, s)[i].len()
        },
    decreases s.len(),
{
    match next_message_len(o, s) {
        None => {},
        Some(l) => {
            let rest = s.skip(message_advance(l, s.len() as int));
            lemma_split_messages(o, rest);
            let m = s.take(l);
            assert(header_length(o, m) == header_length(o, s));
            let all = split_messages(o, s);
            assert(all == seq![m] + split_messages(o, rest));
            assert forall|i: int| 0 <= i < all.len() implies {
                &&& #[trigger] all[i].len() >= 16
                &&& header_length(o, all[i]) == all[i].len()
            } by {
                if i > 0 {
                    assert(all[i] == split_messages(o, rest)[i - 1]);
                }
            }
        },
    }
}

/// Whenever what is left starts with a whole message (a header that
/// records at least a header's size and no more than what is left), the
/// walk hands that message out next, whatever its type.
pub proof fn lemma_walk_takes_whole_message(o: ByteOrder, rest: Seq<u8>)
    requires
        rest.len() >= 16,
        16 <= header_length(o, rest) <= rest.len(),
    ensures
        next_message_len(o, rest) == Some(header_length(o, rest) as int),
        split_messages(o, rest).len() >= 1,
        split_messages(o, rest)[0] == rest.take(header_length(o, rest) as int),
{
}

/// A message laid out from a header of any type, flags, sequence number
/// and port, recording its own size, then its body, is handed out whole by
/// the walk over it and whatever follows it; when its size is a multiple of
/// four, the walk then goes on with exactly what follows.
pub proof fn lemma_walk_message_then_rest(
    o: ByteOrder,
    kind: u16,
    flags: u16,
    seq: u32,
    pid: u32,
    body: Seq<u8>,
    tail: Seq<u8>,
)
    requires
        16 + body.len() <= u32::MAX,
    ensures
        ({
            let m = header_bytes(o, (16 + body.len()) as u32, kind, flags, seq, pid) + body;
            &&& next_message_len(o, m + tail) == Some(m.len() as int)
            &&& split_messages(o, m + tail).len() >= 1
            &&& split_messages(o, m + tail)[0] == m
            &&& header_kind(o, split_messages(o, m + tail)[0]) == kind
            &&& m.len() % 4 == 0 ==> split_messages(o, m + tail) == seq![m] + split_messages(o, tail)
        }),
{
    let n = (16 + body.len()) as u32;
    lemma_header_roundtrip(o, n, kind, flags, seq, pid);
    let h = header_bytes(o, n, kind, flags, seq, pid);
    let m = h + body;
    let s = m + tail;
    assert(header_length(o, s) == header_length(o, h));
    assert(header_kind(o, m) == header_kind(o, h));
    assert(s.take(m.len() as int) =~= m);
    if m.len() % 4 == 0 {
        lemma_align(m.len() as int);
        assert(spec_align(m.len() as int) == m.len());
        assert(message_advance(m.len() as int, s.len() as int) == m.len());
        assert(s.skip(m.len() as int) =~= tail);
    }
}

} // verus!
