//! Framing of a netlink byte stream into messages for an asynchronous
//! transport, and the request builder that pads what it appends.
use vstd::prelude::*;
use bytes::BytesMut;
use crate::endian::{ByteOrder, host_order, native_order, read_u32, write_u32, splice, u32_bytes};
use crate::packet::netlink::{
    NetlinkMsgFlags, NetlinkPacket, NLM_F_REQUEST, NLMSG_HDRLEN, header_bytes, header_length,
    header_vec, spec_align, copy_bytes,
};

verus! {

#[verifier::external_type_specification]
#[verifier::external_body]
pub struct ExBytesMut(BytesMut);

/// The bytes that a `bytes::BytesMut` holds.
pub uninterp spec fn bytes_mut_contents(b: BytesMut) -> Seq<u8>;

/// `<BytesMut as Deref>::deref`: the bytes the buffer holds, as a slice.
#[verifier::external_body]
fn bytes_mut_slice(b: &BytesMut) -> (r: &[u8])
    ensures
        r@ == bytes_mut_contents(*b),
{
    &b[..]
}

/// `BytesMut::split_to`: the buffer keeps the bytes from `at` on and the
/// first `at` bytes are handed back; the crate panics when `at` is past the end.
#[verifier::external_body]
fn bytes_mut_split_to(b: &mut BytesMut, at: usize) -> (r: BytesMut)
    requires
        at <= bytes_mut_contents(*old(b)).len(),
    ensures
        bytes_mut_contents(*final(b)) == bytes_mut_contents(*old(b)).skip(at as int),
        bytes_mut_contents(r) == bytes_mut_contents(*old(b)).take(at as int),
{
    b.split_to(at)
}

/// `BytesMut::extend_from_slice`: the bytes of `s` are added at the end.
#[verifier::external_body]
fn bytes_mut_extend(b: &mut BytesMut, s: &[u8])
    requires
        bytes_mut_contents(*old(b)).len() + s@.len() <= isize::MAX,
    ensures
        bytes_mut_contents(*final(b)) == bytes_mut_contents(*old(b)) + s@,
{
    b.extend_from_slice(s)
}

/// Why a stream cannot be cut into messages.
#[derive(Clone, Copy, Debug, PartialEq, Eq, Structural)]
pub enum DecodeError {
    /// Fewer bytes than a header, and not none.
    Malformed,
}

/// What decoding the buffered bytes `s` gives (`Err` for a malformed
/// stream, `Ok(None)` for no message, `Ok(Some(m))` for the message `m`),
/// and how many bytes it consumes.
pub open spec fn spec_decode(o: ByteOrder, s: Seq<u8>) -> (Result<Option<Seq<u8>>, DecodeError>, int) {
    if s.len() == 0 {
        (Ok(None), 0)
    } else if s.len() < 16 {
        (Err(DecodeError::Malformed), 0)
    } else {
        let l = header_length(o, s) as int;
        let a = spec_align(l);
        if a > s.len() {
            (Ok(None), 0)
        } else if l < 16 {
            (Ok(None), a)
        } else {
            (Ok(Some(s.take(l))), a)
        }
    }
}

/// Cuts a byte stream into netlink messages and lays messages out into it.
pub struct NetlinkCodec {
    order: ByteOrder,
}

impl NetlinkCodec {
    /// The byte order headers are read in.
    pub closed spec fn order(&self) -> ByteOrder {
        self.order
    }

    /// A codec that reads headers in the byte order of the host.
    pub fn new() -> (r: Self)
        ensures
            r.order() == host_order(),
    {
        NetlinkCodec { order: native_order() }
    }

    /// A codec that reads headers in the given byte order.
    pub fn with_order(order: ByteOrder) -> (r: Self)
        ensures
            r.order() == order,
    {
        NetlinkCodec { order }
    }

    /// Cuts the message at the front of `buf` out of it. Nothing is cut when
    /// `buf` is empty or does not yet hold the whole aligned message; fewer
    /// bytes than a header are malformed. A message whose header records
    /// fewer bytes than a header is skipped and `None` handed out.
    pub fn decode(&self, buf: &mut BytesMut) -> (r: Result<Option<NetlinkPacket>, DecodeError>)
        ensures
            ({
                let (res, used) = spec_decode(self.order(), bytes_mut_contents(*old(buf)));
                &&& bytes_mut_contents(*final(buf)) == bytes_mut_contents(*old(buf)).skip(used)
                &&& match res {
                    Err(e) => r == Err::<Option<NetlinkPacket>, DecodeError>(e),
                    Ok(None) => r matches Ok(None),
                    Ok(Some(m)) => r matches Ok(Some(p)) && p.bytes() == m && p.order() == self.order(),
                }
            }),
    {
        let s = bytes_mut_slice(buf);
        let ghost whole = s@;
        if s.len() == 0 {
            return Ok(None);
        }
        if s.len() < NLMSG_HDRLEN {
            return Err(DecodeError::Malformed);
        }
        let l = read_u32(self.order, s, 0);
        let aligned = ((l as u64) + 3) / 4 * 4;
        if aligned > (s.len() as u64) {
            return Ok(None);
        }
        let msg = copy_bytes(vstd::slice::slice_subrange(s, 0, l as usize));
        assert(msg@ =~= whole.take(l as int));
        let pkt = NetlinkPacket::owned_with_order(msg, self.order);
        let _ = bytes_mut_split_to(buf, aligned as usize);
        Ok(pkt)
    }

    /// Lays the bytes of `msg` out at the end of `buf`.
    pub fn encode(&self, msg: NetlinkPacket, buf: &mut BytesMut)
        requires
            bytes_mut_contents(*old(buf)).len() + msg.bytes().len() <= isize::MAX,
        ensures
            bytes_mut_contents(*final(buf)) == bytes_mut_contents(*old(buf)) + msg.bytes(),
    {
        bytes_mut_extend(buf, msg.packet());
    }

    /// Lays the bytes of `msg` out at the end of `buf` when the buffer can
    /// grow by that much, and tells whether it did; otherwise `buf` stays
    /// as it was.
    pub fn encode_checked(&self, msg: NetlinkPacket, buf: &mut BytesMut) -> (r: bool)
        ensures
            r == (bytes_mut_contents(*old(buf)).len() + msg.bytes().len() <= isize::MAX),
            r ==> bytes_mut_contents(*final(buf)) == bytes_mut_contents(*old(buf)) + msg.bytes(),
            !r ==> bytes_mut_contents(*final(buf)) == bytes_mut_contents(*old(buf)),
    {
        let held = bytes_mut_slice(buf).len();
        let size = msg.packet().len();
        let max = isize::MAX as usize;
        if size > max || held > max - size {
            return false;
        }
        self.encode(msg, buf);
        true
    }
}

/// A message whose header records its own aligned size comes back out of
/// the stream it was laid into, whatever follows it, and exactly its bytes
/// are consumed.
pub proof fn lemma_decode_encoded(o: ByteOrder, m: Seq<u8>, rest: Seq<u8>)
    requires
        m.len() >= 16,
        header_length(o, m) == m.len(),
        m.len() % 4 == 0,
    ensures
        spec_decode(o, m + rest) == (Ok::<Option<Seq<u8>>, DecodeError>(Some(m)), m.len() as int),
        (m + rest).skip(m.len() as int) == rest,
{
    let s = m + rest;
    assert(header_length(o, s) == header_length(o, m));
    assert(s.take(m.len() as int) =~= m);
    assert(s.skip(m.len() as int) =~= rest);
}

/// Builds a netlink request: a header, then what is appended to it, each
/// piece padded to a multiple of four bytes.
pub struct NetlinkRequestBuilder {
    data: Vec<u8>,
    order: ByteOrder,
}

/// `n` zero bytes.
pub open spec fn zeros(n: int) -> Seq<u8> {
    Seq::new(n as nat, |i: int| 0u8)
}

impl NetlinkRequestBuilder {
    #[verifier::type_invariant]
    spec fn holds_header(self) -> bool {
        &&& self.data@.len() >= 16
        &&& self.data@.len() % 4 == 0
        &&& header_length(self.order, self.data@) <= self.data@.len()
    }

    /// The bytes of the request so far.
    pub closed spec fn bytes(&self) -> Seq<u8> {
        self.data@
    }

    /// The byte order the header is written in.
    pub closed spec fn order(&self) -> ByteOrder {
        self.order
    }

    /// A request of type `kind` with `flags` and `NLM_F_REQUEST` set, its
    /// header written in the given byte order.
    pub fn with_order(kind: u16, flags: NetlinkMsgFlags, order: ByteOrder) -> (r: Self)
        ensures
            r.order() == order,
            r.bytes() == header_bytes(order, 16, kind, flags.spec_bits() | NLM_F_REQUEST, 0, 0),
            r.bytes().len() % 4 == 0,
            header_length(r.order(), r.bytes()) <= r.bytes().len(),
    {
        let data = header_vec(order, kind, flags.union(NetlinkMsgFlags::new(NLM_F_REQUEST)).bits());
        assert(NLM_F_REQUEST & 0x0f1f == NLM_F_REQUEST) by (bit_vector);
        proof {
            crate::packet::netlink::lemma_header_roundtrip(order, 16, kind, flags.spec_bits() | NLM_F_REQUEST, 0, 0);
        }
        NetlinkRequestBuilder { data, order }
    }

    /// A request of type `kind` with `flags` and `NLM_F_REQUEST` set, its
    /// header written in the byte order of the host.
    pub fn new(kind: u16, flags: NetlinkMsgFlags) -> (r: Self)
        ensures
            r.order() == host_order(),
            r.bytes() == header_bytes(r.order(), 16, kind, flags.spec_bits() | NLM_F_REQUEST, 0, 0),
            r.bytes().len() % 4 == 0,
            header_length(r.order(), r.bytes()) <= r.bytes().len(),
    {
        Self::with_order(kind, flags, native_order())
    }

    /// The length that the header records.
    pub fn get_length(&self) -> (r: u32)
        ensures
            r == header_length(self.order(), self.bytes()),
            self.bytes().len() >= 16,
            self.bytes().len() % 4 == 0,
            r <= self.bytes().len(),
    {
        proof { use_type_invariant(self); }
        read_u32(self.order, self.data.as_slice(), 0)
    }

    /// Appends `data` and pads it with zeros to a multiple of four bytes.
    /// The length in the header grows by the size of `data` (taken modulo
    /// 2^32), not by the padding.
    pub fn append(self, data: &[u8]) -> (r: Self)
        requires
            header_length(self.order(), self.bytes()) + (data@.len() as u32) <= u32::MAX,
            self.bytes().len() + spec_align(data@.len() as int) <= isize::MAX,
        ensures
            r.order() == self.order(),
            r.bytes() == splice(
                self.bytes(),
                0,
                u32_bytes(self.order(), (header_length(self.order(), self.bytes()) + (data@.len() as u32)) as u32),
            ) + data@ + zeros(spec_align(data@.len() as int) - data@.len()),
            r.bytes().len() == self.bytes().len() + spec_align(data@.len() as int),
            r.bytes().len() % 4 == 0,
            header_length(r.order(), r.bytes()) <= r.bytes().len(),
    {
        proof { use_type_invariant(&self); }
        let NetlinkRequestBuilder { data: mut buf, order } = self;
        let len = data.len();
        let aligned_len = crate::packet::netlink::align(len);
        let old_len = read_u32(order, buf.as_slice(), 0);
        #[verifier::truncate]
        let short_len = len as u32;
        assert((short_len as u64) <= (len as u64)) by (bit_vector)
            requires short_len == len as u32;
        let new_len = old_len + short_len;
        let ghost before = buf@;
        write_u32(order, &mut buf, 0, new_len);
        proof {
            crate::endian::lemma_write_read_u32(order, before, 0, new_len);
        }
        let ghost head = buf@;
        let mut i: usize = 0;
        while i < len
            invariant
                i <= len,
                len == data@.len(),
                buf@ == head + data@.take(i as int),
                head.len() >= 16,
                head.len() + aligned_len <= isize::MAX,
                aligned_len == spec_align(len as int),
            decreases len - i,
        {
            buf.push(data[i]);
            i = i + 1;
            assert(buf@ =~= head + data@.take(i as int));
        }
        assert(data@.take(len as int) =~= data@);
        let mut j: usize = len;
        while j < aligned_len
            invariant
                len <= j <= aligned_len,
                buf@ == head + data@ + zeros(j - len),
                head.len() >= 16,
                head.len() + aligned_len <= isize::MAX,
            decreases aligned_len - j,
        {
            buf.push(0u8);
            j = j + 1;
            assert(buf@ =~= head + data@ + zeros(j - len));
        }
        assert(header_length(order, buf@) == header_length(order, head));
        NetlinkRequestBuilder { data: buf, order }
    }

    /// The request as a message to send.
    pub fn build(self) -> (r: NetlinkPacket)
        ensures
            r.bytes() == self.bytes(),
            r.order() == self.order(),
    {
        proof { use_type_invariant(&self); }
        let NetlinkRequestBuilder { data, order } = self;
        NetlinkPacket::from_parts(data, order)
    }
}

/// Encoding a message that records its own aligned size into an empty
/// buffer, then decoding, gives the message back and leaves the buffer empty.
pub proof fn lemma_encode_then_decode(o: ByteOrder, m: Seq<u8>)
    requires
        m.len() >= 16,
        header_length(o, m) == m.len(),
        m.len() % 4 == 0,
    ensures
        ({
            let encoded = Seq::<u8>::empty() + m;
            &&& spec_decode(o, encoded) == (Ok::<Option<Seq<u8>>, DecodeError>(Some(m)), m.len() as int)
            &&& encoded.skip(m.len() as int) == Seq::<u8>::empty()
        }),
{
    let encoded = Seq::<u8>::empty() + m;
    assert(encoded =~= m + Seq::<u8>::empty());
    lemma_decode_encoded(o, m, Seq::<u8>::empty());
}

/// Decoding never consumes more than the buffer holds, consumes whole
/// aligned messages only, and hands out a message that starts the buffer,
/// holds at least a header and records its own size.
pub proof fn lemma_decode_consumes(o: ByteOrder, s: Seq<u8>)
    ensures
        ({
            let (res, used) = spec_decode(o, s);
            &&& 0 <= used <= s.len()
            &&& used % 4 == 0
            &&& res is Err ==> used == 0
            &&& res matches Ok(Some(m)) ==> {
                &&& m == s.take(m.len() as int)
                &&& m.len() >= 16
                &&& header_length(o, m) == m.len()
                &&& used == spec_align(m.len() as int)
            }
        }),
{
    let (res, used) = spec_decode(o, s);
    if let Ok(Some(m)) = res {
        assert(header_length(o, m) == header_length(o, s));
    }
}

/// A request built with bodies whose sizes are multiples of four comes back
/// out of the stream it is encoded into, whatever follows it.
pub proof fn lemma_built_request_decodes(o: ByteOrder, kind: u16, flags: u16, body: Seq<u8>, rest: Seq<u8>)
    requires
        body.len() % 4 == 0,
        16 + body.len() <= u32::MAX,
    ensures
        ({
            let h = header_bytes(o, 16, kind, flags | NLM_F_REQUEST, 0, 0);
            let m = splice(h, 0, u32_bytes(o, (header_length(o, h) + (body.len() as u32)) as u32)) + body
                + zeros(spec_align(body.len() as int) - body.len());
            spec_decode(o, m + rest) == (Ok::<Option<Seq<u8>>, DecodeError>(Some(m)), m.len() as int)
        }),
{
    let h = header_bytes(o, 16, kind, flags | NLM_F_REQUEST, 0, 0);
    crate::packet::netlink::lemma_header_roundtrip(o, 16, kind, flags | NLM_F_REQUEST, 0, 0);
    let n = (16 + body.len()) as u32;
    let t = splice(h, 0, u32_bytes(o, n));
    crate::endian::lemma_write_read_u32(o, h, 0, n);
    let pad = zeros(spec_align(body.len() as int) - body.len());
    assert(pad.len() == 0);
    let m = t + body + pad;
    assert(m =~= t + body);
    assert(header_length(o, m) == header_length(o, t));
    lemma_decode_encoded(o, m, rest);
}

/// A buffer that holds a header but not yet the whole aligned message that
/// the header announces is left alone: decoding waits for more bytes,
/// hands out nothing and consumes nothing. In particular this holds when
/// the recorded length is larger than what the buffer holds.
pub proof fn lemma_decode_waits_for_whole_message(o: ByteOrder, s: Seq<u8>)
    requires
        s.len() >= 16,
    ensures
        spec_align(header_length(o, s) as int) > s.len()
            ==> spec_decode(o, s) == (Ok::<Option<Seq<u8>>, DecodeError>(None), 0int),
        header_length(o, s) > s.len()
            ==> spec_decode(o, s) == (Ok::<Option<Seq<u8>>, DecodeError>(None), 0int),
{
    crate::packet::netlink::lemma_align(header_length(o, s) as int);
}

/// Decoding fails exactly when the buffer holds some bytes, but fewer than
/// a header; every other buffer decodes, to a message or to nothing.
pub proof fn lemma_decode_fails_only_on_partial_header(o: ByteOrder, s: Seq<u8>)
    ensures
        spec_decode(o, s).0 is Err <==> 0 < s.len() < 16,
{
}

/// A message that arrives in two parts, the first holding its header, is
/// not cut while only the first part is buffered (nothing is consumed),
/// and comes out whole, with exactly its bytes consumed, once the rest has
/// been appended, whatever follows it.
pub proof fn lemma_decode_split_message(o: ByteOrder, m: Seq<u8>, k: int, rest: Seq<u8>)
    requires
        m.len() >= 16,
        header_length(o, m) == m.len(),
        m.len() % 4 == 0,
        16 <= k < m.len(),
    ensures
        spec_decode(o, m.take(k)) == (Ok::<Option<Seq<u8>>, DecodeError>(None), 0int),
        spec_decode(o, m.take(k) + m.skip(k) + rest)
            == (Ok::<Option<Seq<u8>>, DecodeError>(Some(m)), m.len() as int),
{
    let p = m.take(k);
    assert(header_length(o, p) == header_length(o, m));
    lemma_decode_waits_for_whole_message(o, p);
    assert(p + m.skip(k) + rest =~= m + rest);
    lemma_decode_encoded(o, m, rest);
}

} // verus!
