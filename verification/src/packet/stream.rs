//! The reader over a whole stream: fed the bytes of a run of messages in
//! reads of any size, it hands out every message once, in order, then ends.
use vstd::prelude::*;
use crate::endian::ByteOrder;
use crate::packet::netlink::{
    NetlinkReaderState, ReadStep, NLMSG_DONE, NLMSG_ERROR, NLMSG_NOOP, NLMSG_OVERRUN, header_kind,
    header_length, spec_align, spec_parse, spec_resume,
};
use crate::tokio::zeros;

verus! {

/// A message followed by the zeros that pad it to a multiple of four bytes.
pub open spec fn padded(m: Seq<u8>) -> Seq<u8> {
    m + zeros(spec_align(m.len() as int) - m.len())
}

/// The bytes of the messages `ms`, each padded, one after the other.
pub open spec fn stream_of(ms: Seq<Seq<u8>>) -> Seq<u8>
    decreases ms.len(),
{
    if ms.len() == 0 {
        Seq::empty()
    } else {
        padded(ms[0]) + stream_of(ms.drop_first())
    }
}

/// Where message `i` starts in the stream of `ms`.
pub open spec fn offset_of(ms: Seq<Seq<u8>>, i: int) -> int {
    stream_of(ms.take(i)).len() as int
}

/// The chunks `cs` one after the other.
pub open spec fn concat(cs: Seq<Seq<u8>>) -> Seq<u8>
    decreases cs.len(),
{
    if cs.len() == 0 {
        Seq::empty()
    } else {
        cs[0] + concat(cs.drop_first())
    }
}

/// A message that records its own size, holds at least a header, and is of
/// none of the types that change how the reader goes on.
pub open spec fn plain_message(o: ByteOrder, m: Seq<u8>) -> bool {
    &&& m.len() >= 16
    &&& header_length(o, m) == m.len()
    &&& header_kind(o, m) != NLMSG_NOOP
    &&& header_kind(o, m) != NLMSG_ERROR
    &&& header_kind(o, m) != NLMSG_DONE
    &&& header_kind(o, m) != NLMSG_OVERRUN
}

/// Every message of `ms` is plain.
pub open spec fn plain_messages(o: ByteOrder, ms: Seq<Seq<u8>>) -> bool {
    forall|i: int| 0 <= i < ms.len() ==> plain_message(o, #[trigger] ms[i])
}

/// What the reader has done so far of the stream `s` of `ms`: it has read
/// a prefix `buf` of the stream and handed out the first `i` messages, and
/// its position is where message `i` starts.
pub open spec fn reading_core(
    s: Seq<u8>,
    ms: Seq<Seq<u8>>,
    buf: Seq<u8>,
    at: int,
    st: NetlinkReaderState,
    i: int,
) -> bool {
    &&& 0 <= i <= ms.len()
    &&& s == stream_of(ms)
    &&& buf.len() <= s.len()
    &&& buf == s.take(buf.len() as int)
    &&& at == offset_of(ms, i)
    &&& (st == NetlinkReaderState::NeedMore || st == NetlinkReaderState::Parsing)
}

/// `reading_core`, and the reader only asks for more bytes when it does not
/// hold all of message `i`.
pub open spec fn reading(
    s: Seq<u8>,
    ms: Seq<Seq<u8>>,
    buf: Seq<u8>,
    at: int,
    st: NetlinkReaderState,
    i: int,
) -> bool {
    &&& reading_core(s, ms, buf, at, st, i)
    &&& st == NetlinkReaderState::NeedMore ==> !(i < ms.len() && at + ms[i].len() <= buf.len())
}

/// What the reader hands out when it is driven over `chunks`, the reads of
/// its source, after a step that left it at `buf`, `at`, `st` with outcome
/// `step`: the driver asks for the next read when the reader says `Read`
/// (an empty read, or none left, ends the source), resumes the reader after
/// each message, and stops when the reader has nothing more. `None` when
/// the reader fails or `fuel` runs out.
pub open spec fn handle(
    o: ByteOrder,
    buf: Seq<u8>,
    at: int,
    st: NetlinkReaderState,
    step: ReadStep,
    chunks: Seq<Seq<u8>>,
    fuel: nat,
) -> Option<Seq<Seq<u8>>>
    decreases fuel,
{
    if fuel == 0 {
        None
    } else {
        match step {
            ReadStep::Finished => Some(Seq::empty()),
            ReadStep::Packet(p, _) => {
                let (st2, at2, step2) = spec_resume(o, buf, at, st);
                match handle(o, buf, at2, st2, step2, chunks, (fuel - 1) as nat) {
                    Some(rest) => Some(seq![p] + rest),
                    None => None,
                }
            },
            ReadStep::Read => if chunks.len() == 0 || chunks[0].len() == 0 {
                Some(Seq::empty())
            } else {
                let buf2 = buf + chunks[0];
                let (st2, at2, step2) = spec_parse(o, buf2, at, st);
                handle(o, buf2, at2, st2, step2, chunks.drop_first(), (fuel - 1) as nat)
            },
            _ => None,
        }
    }
}

/// What a new reader hands out when driven over `chunks`.
pub open spec fn read_stream(o: ByteOrder, chunks: Seq<Seq<u8>>, fuel: nat) -> Option<Seq<Seq<u8>>> {
    handle(o, Seq::empty(), 0, NetlinkReaderState::NeedMore, ReadStep::Read, chunks, fuel)
}

proof fn lemma_padded_len(m: Seq<u8>)
    ensures
        padded(m).len() == spec_align(m.len() as int),
        padded(m).take(m.len() as int) == m,
{
    assert(padded(m).take(m.len() as int) =~= m);
}

/// The stream of `ms` is the stream of its first `i` messages, then that
/// of the others.
proof fn lemma_stream_split(ms: Seq<Seq<u8>>, i: int)
    requires
        0 <= i <= ms.len(),
    ensures
        stream_of(ms) == stream_of(ms.take(i)) + stream_of(ms.skip(i)),
    decreases i,
{
    if i == 0 {
        assert(ms.take(0) =~= Seq::<Seq<u8>>::empty());
        assert(ms.skip(0) =~= ms);
        assert(stream_of(ms) =~= stream_of(ms.take(0)) + stream_of(ms.skip(0)));
    } else {
        let df = ms.drop_first();
        lemma_stream_split(df, i - 1);
        assert(ms.take(i).drop_first() =~= df.take(i - 1));
        assert(ms.take(i)[0] == ms[0]);
        assert(ms.skip(i) =~= df.skip(i - 1));
        assert(stream_of(ms) =~= stream_of(ms.take(i)) + stream_of(ms.skip(i)));
    }
}

/// Message `i` stands in the stream at its offset, and the next message
/// starts at the aligned end of it.
proof fn lemma_message_at(ms: Seq<Seq<u8>>, i: int)
    requires
        0 <= i < ms.len(),
    ensures
        offset_of(ms, i) + ms[i].len() <= offset_of(ms, i + 1) <= stream_of(ms).len(),
        offset_of(ms, i + 1) == offset_of(ms, i) + spec_align(ms[i].len() as int),
        stream_of(ms).subrange(offset_of(ms, i), offset_of(ms, i) + ms[i].len()) == ms[i],
{
    lemma_stream_split(ms, i);
    lemma_stream_split(ms, i + 1);
    let tail = ms.skip(i);
    assert(tail[0] == ms[i]);
    assert(tail.drop_first() =~= ms.skip(i + 1));
    let t1 = ms.take(i + 1);
    lemma_stream_split(t1, i);
    assert(t1.take(i) =~= ms.take(i));
    assert(t1.skip(i) =~= seq![ms[i]]);
    assert(seq![ms[i]].drop_first() =~= Seq::<Seq<u8>>::empty());
    lemma_padded_len(ms[i]);
    let s = stream_of(ms);
    let a = offset_of(ms, i);
    assert(s =~= stream_of(ms.take(i)) + (padded(ms[i]) + stream_of(ms.skip(i + 1))));
    assert(s.subrange(a, a + ms[i].len()) =~= ms[i]);
}

/// The start of every message, and the end of the stream, lie within the stream.
proof fn lemma_offset_bound(ms: Seq<Seq<u8>>, i: int)
    requires
        0 <= i <= ms.len(),
    ensures
        0 <= offset_of(ms, i) <= stream_of(ms).len(),
        i == ms.len() ==> offset_of(ms, i) == stream_of(ms).len(),
{
    lemma_stream_split(ms, i);
    if i == ms.len() {
        assert(ms.take(i) =~= ms);
    }
}

/// One attempt to cut a message out of a prefix of the stream either asks
/// for more bytes, holding its place, or hands out the next message intact.
proof fn lemma_parse_stream(
    o: ByteOrder,
    s: Seq<u8>,
    ms: Seq<Seq<u8>>,
    buf: Seq<u8>,
    at: int,
    st: NetlinkReaderState,
    i: int,
)
    requires
        plain_messages(o, ms),
        s.len() <= isize::MAX,
        reading_core(s, ms, buf, at, st, i),
    ensures
        ({
            let (st2, at2, step) = spec_parse(o, buf, at, st);
            ||| (step == ReadStep::Read && st2 == NetlinkReaderState::NeedMore && at2 == at
                && reading(s, ms, buf, at2, st2, i))
            ||| (i < ms.len() && step == ReadStep::Packet(ms[i], false)
                && st2 == NetlinkReaderState::Parsing && reading(s, ms, buf, at2, st2, i + 1))
        }),
{
    lemma_offset_bound(ms, i);
    if i < ms.len() {
        lemma_message_at(ms, i);
        assert(plain_message(o, ms[i]));
        let m = ms[i];
        if at <= buf.len() && buf.len() - at >= 16 {
            let rest = buf.skip(at);
            assert forall|j: int| 0 <= j < 16 implies rest[j] == m[j] by {
                assert(rest[j] == buf[at + j]);
                assert(buf[at + j] == s[at + j]);
                assert(s.subrange(at, at + m.len())[j] == s[at + j]);
            }
            assert(header_length(o, rest) == header_length(o, m));
            assert(header_kind(o, rest) == header_kind(o, m));
            if m.len() <= rest.len() {
                assert forall|j: int| 0 <= j < m.len() implies rest[j] == m[j] by {
                    assert(rest[j] == buf[at + j]);
                    assert(buf[at + j] == s[at + j]);
                    assert(s.subrange(at, at + m.len())[j] == s[at + j]);
                }
                assert(rest.take(m.len() as int) =~= m);
                lemma_offset_bound(ms, i + 1);
            }
        }
    }
}

/// Resuming the reader in the middle of the stream either asks for more
/// bytes, holding its place, or hands out the next message intact.
proof fn lemma_resume_stream(
    o: ByteOrder,
    s: Seq<u8>,
    ms: Seq<Seq<u8>>,
    buf: Seq<u8>,
    at: int,
    st: NetlinkReaderState,
    i: int,
)
    requires
        plain_messages(o, ms),
        s.len() <= isize::MAX,
        reading(s, ms, buf, at, st, i),
    ensures
        ({
            let (st2, at2, step) = spec_resume(o, buf, at, st);
            ||| (step == ReadStep::Read && st2 == NetlinkReaderState::NeedMore && at2 == at
                && reading(s, ms, buf, at2, st2, i))
            ||| (i < ms.len() && step == ReadStep::Packet(ms[i], false)
                && st2 == NetlinkReaderState::Parsing && reading(s, ms, buf, at2, st2, i + 1))
        }),
{
    if st == NetlinkReaderState::Parsing {
        lemma_parse_stream(o, s, ms, buf, at, st, i);
    }
}

/// When the reader asks for more bytes after reading the whole stream, it
/// has handed out every message.
proof fn lemma_end_of_stream(s: Seq<u8>, ms: Seq<Seq<u8>>, buf: Seq<u8>, at: int, i: int)
    requires
        reading(s, ms, buf, at, NetlinkReaderState::NeedMore, i),
        buf.len() == s.len(),
    ensures
        i == ms.len(),
{
    if i < ms.len() {
        lemma_message_at(ms, i);
    }
}

/// Driving the reader over the rest of the stream hands out the messages it
/// has not yet handed out: the one of the step just taken, if it handed one
/// out, then all that follow.
#[verifier::spinoff_prover]
#[verifier::rlimit(60)]
proof fn lemma_handle_stream(
    o: ByteOrder,
    s: Seq<u8>,
    ms: Seq<Seq<u8>>,
    buf: Seq<u8>,
    at: int,
    st: NetlinkReaderState,
    step: ReadStep,
    i: int,
    chunks: Seq<Seq<u8>>,
    fuel: nat,
)
    requires
        plain_messages(o, ms),
        s.len() <= isize::MAX,
        reading(s, ms, buf, at, st, i),
        buf + concat(chunks) == s,
        forall|j: int| 0 <= j < chunks.len() ==> (#[trigger] chunks[j]).len() > 0,
        (step == ReadStep::Read && st == NetlinkReaderState::NeedMore) || (i >= 1 && step
            == ReadStep::Packet(ms[i - 1], false) && st == NetlinkReaderState::Parsing),
        fuel >= ms.len() - i + chunks.len() + (if step is Packet { 2int } else { 1int }),
    ensures
        handle(o, buf, at, st, step, chunks, fuel) == Some(
            if step is Packet {
                ms.skip(i - 1)
            } else {
                ms.skip(i)
            },
        ),
    decreases fuel,
{
    if step is Packet {
        lemma_resume_stream(o, s, ms, buf, at, st, i);
        let (st2, at2, step2) = spec_resume(o, buf, at, st);
        lemma_handle_stream(o, s, ms, buf, at2, st2, step2, if step2 is Packet { i + 1 } else { i }, chunks, (fuel - 1) as nat);
        assert(ms.skip(i - 1) =~= seq![ms[i - 1]] + ms.skip(i));
    } else if chunks.len() == 0 {
        assert(concat(chunks) =~= Seq::<u8>::empty());
        assert(buf =~= s);
        lemma_end_of_stream(s, ms, buf, at, i);
        assert(ms.skip(i) =~= Seq::<Seq<u8>>::empty());
    } else {
        let c = chunks[0];
        let rest = chunks.drop_first();
        let buf2 = buf + c;
        assert(concat(chunks) == c + concat(rest));
        assert(buf2 + concat(rest) =~= s);
        assert(buf2 =~= s.take(buf2.len() as int));
        assert forall|j: int| 0 <= j < rest.len() implies (#[trigger] rest[j]).len() > 0 by {
            assert(rest[j] == chunks[j + 1]);
        }
        lemma_parse_stream(o, s, ms, buf2, at, st, i);
        let (st2, at2, step2) = spec_parse(o, buf2, at, st);
        lemma_handle_stream(o, s, ms, buf2, at2, st2, step2, if step2 is Packet { i + 1 } else { i }, rest, (fuel - 1) as nat);
    }
}

/// Fed the stream of plain messages in reads of any sizes, each read
/// holding at least one byte, then the end of the source, a new reader
/// hands out every message once, whole and without its padding, in order,
/// and then ends.
pub proof fn lemma_read_stream(o: ByteOrder, ms: Seq<Seq<u8>>, chunks: Seq<Seq<u8>>)
    requires
        plain_messages(o, ms),
        stream_of(ms).len() <= isize::MAX,
        concat(chunks) == stream_of(ms),
        forall|j: int| 0 <= j < chunks.len() ==> (#[trigger] chunks[j]).len() > 0,
    ensures
        read_stream(o, chunks, (ms.len() + chunks.len() + 1) as nat) == Some(ms),
{
    let s = stream_of(ms);
    assert(ms.take(0) =~= Seq::<Seq<u8>>::empty());
    assert(Seq::<u8>::empty() =~= s.take(0));
    assert(Seq::<u8>::empty() + concat(chunks) =~= s);
    if ms.len() > 0 {
        assert(plain_message(o, ms[0]));
    }
    lemma_handle_stream(o, s, ms, Seq::empty(), 0, NetlinkReaderState::NeedMore, ReadStep::Read, 0, chunks, (ms.len() + chunks.len() + 1) as nat);
    assert(ms.skip(0) =~= ms);
}

} // verus!
