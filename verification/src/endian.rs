//! Host byte order and fixed-width integers in byte sequences.
//!
//! Netlink headers are written in the byte order of the host. A value of
//! [`ByteOrder`] travels with every buffer, so that what is read back is
//! decoded in the same order as it was written.
use vstd::prelude::*;

verus! {

/// The order in which the bytes of a multi-byte integer are laid out.
#[derive(Clone, Copy, Debug, PartialEq, Eq, Structural)]
pub enum ByteOrder {
    Little,
    Big,
}

/// The 16-bit integer that the two bytes `b0, b1` (in that order) encode.
pub open spec fn spec_u16(o: ByteOrder, b0: u8, b1: u8) -> u16 {
    match o {
        ByteOrder::Little => (b0 + b1 * 256) as u16,
        ByteOrder::Big => (b0 * 256 + b1) as u16,
    }
}

/// The 32-bit integer that the four bytes `b0, b1, b2, b3` (in that order) encode.
pub open spec fn spec_u32(o: ByteOrder, b0: u8, b1: u8, b2: u8, b3: u8) -> u32 {
    match o {
        ByteOrder::Little => (b0 + b1 * 0x100 + b2 * 0x1_0000 + b3 * 0x100_0000) as u32,
        ByteOrder::Big => (b0 * 0x100_0000 + b1 * 0x1_0000 + b2 * 0x100 + b3) as u32,
    }
}

/// The 16-bit integer stored at offset `i` of `s`.
pub open spec fn u16_at(o: ByteOrder, s: Seq<u8>, i: int) -> u16 {
    spec_u16(o, s[i], s[i + 1])
}

/// The 32-bit integer stored at offset `i` of `s`.
pub open spec fn u32_at(o: ByteOrder, s: Seq<u8>, i: int) -> u32 {
    spec_u32(o, s[i], s[i + 1], s[i + 2], s[i + 3])
}

/// The two bytes that encode `v`.
pub open spec fn u16_bytes(o: ByteOrder, v: u16) -> Seq<u8> {
    let lo = (v % 256) as u8;
    let hi = (v / 256) as u8;
    match o {
        ByteOrder::Little => seq![lo, hi],
        ByteOrder::Big => seq![hi, lo],
    }
}

/// The four bytes that encode `v`.
pub open spec fn u32_bytes(o: ByteOrder, v: u32) -> Seq<u8> {
    let b0 = (v % 0x100) as u8;
    let b1 = ((v / 0x100) % 0x100) as u8;
    let b2 = ((v / 0x1_0000) % 0x100) as u8;
    let b3 = (v / 0x100_0000) as u8;
    match o {
        ByteOrder::Little => seq![b0, b1, b2, b3],
        ByteOrder::Big => seq![b3, b2, b1, b0],
    }
}

/// `s` with the bytes of `t` written over it from offset `i` on.
pub open spec fn splice(s: Seq<u8>, i: int, t: Seq<u8>) -> Seq<u8> {
    s.take(i) + t + s.skip(i + t.len())
}

/// Decoding the bytes that encode a 16-bit integer gives the integer back.
pub proof fn lemma_u16_roundtrip(o: ByteOrder, v: u16)
    ensures
        u16_bytes(o, v).len() == 2,
        u16_at(o, u16_bytes(o, v), 0) == v,
{
}

/// Decoding the bytes that encode a 32-bit integer gives the integer back.
pub proof fn lemma_u32_roundtrip(o: ByteOrder, v: u32)
    ensures
        u32_bytes(o, v).len() == 4,
        u32_at(o, u32_bytes(o, v), 0) == v,
{
}

/// Writing a 32-bit integer into a buffer and reading it back at the same
/// offset gives the integer; the size and every other byte stay as they were.
pub proof fn lemma_write_read_u32(o: ByteOrder, s: Seq<u8>, i: int, v: u32)
    requires
        0 <= i,
        i + 4 <= s.len(),
    ensures
        splice(s, i, u32_bytes(o, v)).len() == s.len(),
        u32_at(o, splice(s, i, u32_bytes(o, v)), i) == v,
        forall|j: int| 0 <= j < s.len() && !(i <= j < i + 4) ==> #[trigger] splice(s, i, u32_bytes(o, v))[j] == s[j],
{
    lemma_u32_roundtrip(o, v);
    let t = splice(s, i, u32_bytes(o, v));
    assert(t.subrange(i, i + 4) =~= u32_bytes(o, v));
}

/// Writing a 16-bit integer into a buffer and reading it back at the same
/// offset gives the integer; the size and every other byte stay as they were.
pub proof fn lemma_write_read_u16(o: ByteOrder, s: Seq<u8>, i: int, v: u16)
    requires
        0 <= i,
        i + 2 <= s.len(),
    ensures
        splice(s, i, u16_bytes(o, v)).len() == s.len(),
        u16_at(o, splice(s, i, u16_bytes(o, v)), i) == v,
        forall|j: int| 0 <= j < s.len() && !(i <= j < i + 2) ==> #[trigger] splice(s, i, u16_bytes(o, v))[j] == s[j],
{
    lemma_u16_roundtrip(o, v);
    let t = splice(s, i, u16_bytes(o, v));
    assert(t.subrange(i, i + 2) =~= u16_bytes(o, v));
}

/// Reads the 16-bit integer at offset `i` of `s`.
pub fn read_u16(o: ByteOrder, s: &[u8], i: usize) -> (r: u16)
    requires
        i + 2 <= s@.len(),
    ensures
        r == u16_at(o, s@, i as int),
{
    let b0 = s[i] as u16;
    let b1 = s[i + 1] as u16;
    match o {
        ByteOrder::Little => b0 + b1 * 256,
        ByteOrder::Big => b0 * 256 + b1,
    }
}

/// Reads the 32-bit integer at offset `i` of `s`.
pub fn read_u32(o: ByteOrder, s: &[u8], i: usize) -> (r: u32)
    requires
        i + 4 <= s@.len(),
    ensures
        r == u32_at(o, s@, i as int),
{
    let b0 = s[i] as u32;
    let b1 = s[i + 1] as u32;
    let b2 = s[i + 2] as u32;
    let b3 = s[i + 3] as u32;
    match o {
        ByteOrder::Little => b0 + b1 * 0x100 + b2 * 0x1_0000 + b3 * 0x100_0000,
        ByteOrder::Big => b0 * 0x100_0000 + b1 * 0x1_0000 + b2 * 0x100 + b3,
    }
}

/// Writes the two bytes that encode `v` at offset `i` of `buf`.
pub fn write_u16(o: ByteOrder, buf: &mut Vec<u8>, i: usize, v: u16)
    requires
        i + 2 <= old(buf).len(),
    ensures
        final(buf)@ == splice(old(buf)@, i as int, u16_bytes(o, v)),
{
    let lo = (v % 256) as u8;
    let hi = (v / 256) as u8;
    match o {
        ByteOrder::Little => {
            buf.set(i, lo);
            buf.set(i + 1, hi);
        },
        ByteOrder::Big => {
            buf.set(i, hi);
            buf.set(i + 1, lo);
        },
    }
    assert(buf@ =~= splice(old(buf)@, i as int, u16_bytes(o, v)));
}

/// Writes the four bytes that encode `v` at offset `i` of `buf`.
pub fn write_u32(o: ByteOrder, buf: &mut Vec<u8>, i: usize, v: u32)
    requires
        i + 4 <= old(buf).len(),
    ensures
        final(buf)@ == splice(old(buf)@, i as int, u32_bytes(o, v)),
{
    let b0 = (v % 0x100) as u8;
    let b1 = ((v / 0x100) % 0x100) as u8;
    let b2 = ((v / 0x1_0000) % 0x100) as u8;
    let b3 = (v / 0x100_0000) as u8;
    match o {
        ByteOrder::Little => {
            buf.set(i, b0);
            buf.set(i + 1, b1);
            buf.set(i + 2, b2);
            buf.set(i + 3, b3);
        },
        ByteOrder::Big => {
            buf.set(i, b3);
            buf.set(i + 1, b2);
            buf.set(i + 2, b1);
            buf.set(i + 3, b0);
        },
    }
    assert(buf@ =~= splice(old(buf)@, i as int, u32_bytes(o, v)));
}

/// The byte order of the hardware that runs the library, as vstd abstracts
/// it with `vstd::endian::endianness`. Which of the two it is is not fixed
/// here: the laws that speak of it hold on either kind of host.
pub open spec fn host_order() -> ByteOrder {
    match vstd::endian::endianness() {
        vstd::endian::Endian::Little => ByteOrder::Little,
        vstd::endian::Endian::Big => ByteOrder::Big,
    }
}

/// `u16::from_ne_bytes`: std documents that it reads the two bytes in the
/// byte order of the target (the hardware that runs it), which Rust only
/// allows to be little or big endian. The contract claims exactly that: the
/// result is the reading of the bytes in the host's order.
#[verifier::external_body]
fn native_u16(bytes: [u8; 2]) -> (r: u16)
    ensures
        r == spec_u16(ByteOrder::Little, bytes[0], bytes[1])
            || r == spec_u16(ByteOrder::Big, bytes[0], bytes[1]),
        r == spec_u16(host_order(), bytes[0], bytes[1]),
{
    u16::from_ne_bytes(bytes)
}

/// The byte order whose reading of the bytes `01 00` is `reading`: little
/// endian when it is 1, big endian otherwise (a big-endian host reads 256).
pub fn order_of_native_reading(reading: u16) -> (o: ByteOrder)
    ensures
        reading == spec_u16(ByteOrder::Little, 1, 0) ==> o == ByteOrder::Little,
        reading == spec_u16(ByteOrder::Big, 1, 0) ==> o == ByteOrder::Big,
{
    if reading == 1 {
        ByteOrder::Little
    } else {
        ByteOrder::Big
    }
}

/// The byte order of the host, found by reading the bytes `01 00` as a
/// native 16-bit integer. Which order comes back depends on the machine.
pub fn native_order() -> (o: ByteOrder)
    ensures
        o == host_order(),
{
    let o = order_of_native_reading(native_u16([1u8, 0u8]));
    assert(spec_u16(ByteOrder::Little, 1, 0) != spec_u16(ByteOrder::Big, 1, 0));
    o
}

} // verus!
