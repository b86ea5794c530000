//! Layouts of the rtnetlink message bodies: interface address messages
//! (`struct ifaddrmsg`), interface info messages (`struct ifinfomsg`) and
//! the attributes (`struct rtattr`) that follow them.
pub mod addr;

use vstd::prelude::*;
use crate::endian::{ByteOrder, read_u16, u16_at};
use crate::packet::netlink::message_advance;

verus! {

/// Size of an interface address message (`struct ifaddrmsg`).
pub const IFADDR_LEN: usize = 8;

/// Size of an interface info message (`struct ifinfomsg`).
pub const IFINFO_LEN: usize = 16;

/// Size of an attribute header (`struct rtattr`).
pub const RTA_HDRLEN: usize = 4;

/// Length of the attribute at the front of `s`, header included (`rta_len`).
pub open spec fn rta_len(o: ByteOrder, s: Seq<u8>) -> u16 {
    u16_at(o, s, 0)
}

/// Type of the attribute at the front of `s` (`rta_type`).
pub open spec fn rta_type(o: ByteOrder, s: Seq<u8>) -> u16 {
    u16_at(o, s, 2)
}

/// Length of the attribute at the front of `rest`, when it is a whole
/// attribute; `None` ends the walk.
pub open spec fn next_attr_len(o: ByteOrder, rest: Seq<u8>) -> Option<int> {
    if rest.len() < 4 {
        None
    } else {
        let l = rta_len(o, rest) as int;
        if l < 4 || l > rest.len() {
            None
        } else {
            Some(l)
        }
    }
}

/// The payload of the first attribute of type `t` in the walk over `rest`.
pub open spec fn find_attr(o: ByteOrder, rest: Seq<u8>, t: u16) -> Option<Seq<u8>>
    decreases rest.len(),
{
    match next_attr_len(o, rest) {
        None => None,
        Some(l) => if rta_type(o, rest) == t {
            Some(rest.subrange(4, l))
        } else {
            find_attr(o, rest.skip(message_advance(l, rest.len() as int)), t)
        },
    }
}

/// Finds the first attribute of type `t` in the attributes that start at
/// offset `start` of `s`, and gives the bounds of its payload.
pub fn find_attr_range(o: ByteOrder, s: &[u8], start: usize, t: u16) -> (r: Option<(usize, usize)>)
    requires
        start <= s@.len(),
    ensures
        match find_attr(o, s@.skip(start as int), t) {
            None => r is None,
            Some(p) => r matches Some((a, b)) && a <= b <= s@.len() && s@.subrange(a as int, b as int) == p,
        },
{
    let mut pos = start;
    while pos < s.len()
        invariant
            start <= pos <= s@.len(),
            find_attr(o, s@.skip(start as int), t) == find_attr(o, s@.skip(pos as int), t),
        decreases s@.len() - pos,
    {
        let ghost rest = s@.skip(pos as int);
        let left = s.len() - pos;
        if left < RTA_HDRLEN {
            return None;
        }
        let l = read_u16(o, s, pos);
        let k = read_u16(o, s, pos + 2);
        assert(l == rta_len(o, rest));
        assert(k == rta_type(o, rest));
        let l = l as usize;
        if l < RTA_HDRLEN || l > left {
            return None;
        }
        if k == t {
            assert(s@.subrange(pos + 4, pos + l) =~= rest.subrange(4, l as int));
            return Some((pos + 4, pos + l));
        }
        let a = (l + 3) / 4 * 4;
        let adv = if a > left { left } else { a };
        assert(adv == message_advance(l as int, rest.len() as int));
        assert(s@.skip(pos + adv) =~= rest.skip(adv as int));
        pos = pos + adv;
    }
    assert(s@.skip(pos as int).len() == 0);
    None
}

/// The body of an interface info message with the given family and every
/// other field zero.
pub open spec fn ifinfo_bytes(family: u8) -> Seq<u8> {
    Seq::new(16, |i: int| if i == 0 { family } else { 0u8 })
}

/// Lays out the body of an interface info message with the given family
/// and every other field zero.
pub fn ifinfo_body(family: u8) -> (r: Vec<u8>)
    ensures
        r@ == ifinfo_bytes(family),
{
    let mut v: Vec<u8> = vec![0u8; IFINFO_LEN];
    v.set(0, family);
    assert(v@ =~= ifinfo_bytes(family));
    v
}

/// The attributes of the walk over `rest`, in order: each one's type and
/// payload.
pub open spec fn attr_list(o: ByteOrder, rest: Seq<u8>) -> Seq<(u16, Seq<u8>)>
    decreases rest.len(),
{
    match next_attr_len(o, rest) {
        None => Seq::empty(),
        Some(l) => seq![(rta_type(o, rest), rest.subrange(4, l))] + attr_list(
            o,
            rest.skip(message_advance(l, rest.len() as int)),
        ),
    }
}

/// One attribute: its type and its payload.
#[derive(Clone, Debug)]
pub struct RtAttr {
    pub rta_type: u16,
    pub payload: Vec<u8>,
}

/// Whether `v` holds the attributes `l`, one for one.
pub open spec fn attrs_are(v: Seq<RtAttr>, l: Seq<(u16, Seq<u8>)>) -> bool {
    &&& v.len() == l.len()
    &&& forall|i: int| 0 <= i < v.len() ==> (#[trigger] v[i]).rta_type == l[i].0 && v[i].payload@ == l[i].1
}

/// The attributes that start at offset `start` of `s`, in order.
pub fn attributes(o: ByteOrder, s: &[u8], start: usize) -> (r: Vec<RtAttr>)
    requires
        start <= s@.len(),
    ensures
        attrs_are(r@, attr_list(o, s@.skip(start as int))),
{
    let mut out: Vec<RtAttr> = Vec::new();
    let mut pos = start;
    let ghost mut done: Seq<(u16, Seq<u8>)> = Seq::empty();
    while pos < s.len()
        invariant
            start <= pos <= s@.len(),
            attr_list(o, s@.skip(start as int)) == done + attr_list(o, s@.skip(pos as int)),
            attrs_are(out@, done),
        decreases s@.len() - pos,
    {
        let ghost rest = s@.skip(pos as int);
        let left = s.len() - pos;
        if left < RTA_HDRLEN {
            assert(attr_list(o, rest) =~= Seq::<(u16, Seq<u8>)>::empty());
            assert(done + attr_list(o, rest) =~= done);
            assert(attr_list(o, s@.skip(start as int)) == done);
            return out;
        }
        let l = read_u16(o, s, pos);
        let k = read_u16(o, s, pos + 2);
        assert(l == rta_len(o, rest));
        assert(k == rta_type(o, rest));
        let l = l as usize;
        if l < RTA_HDRLEN || l > left {
            assert(done + attr_list(o, rest) =~= done);
            assert(attr_list(o, s@.skip(start as int)) == done);
            return out;
        }
        let payload = crate::packet::netlink::copy_bytes(vstd::slice::slice_subrange(s, pos + 4, pos + l));
        assert(payload@ =~= rest.subrange(4, l as int));
        let a = (l + 3) / 4 * 4;
        let adv = if a > left { left } else { a };
        assert(adv == message_advance(l as int, rest.len() as int));
        assert(s@.skip(pos + adv) =~= rest.skip(adv as int));
        proof {
            let item = (k, rest.subrange(4, l as int));
            assert(done + attr_list(o, rest) =~= done.push(item) + attr_list(o, rest.skip(adv as int)));
            done = done.push(item);
        }
        let ghost before = out@;
        out.push(RtAttr { rta_type: k, payload });
        assert(out@ == before.push(out@[before.len() as int]));
        pos = pos + adv;
    }
    proof {
        if pos >= s@.len() {
            assert(attr_list(o, s@.skip(pos as int)) =~= Seq::<(u16, Seq<u8>)>::empty());
            assert(done + attr_list(o, s@.skip(pos as int)) =~= done);
        }
        assert(attr_list(o, s@.skip(start as int)) == done);
    }
    out
}

/// Finding an attribute gives the payload of the first attribute of that
/// type in the walk, and nothing when no attribute has that type.
pub proof fn lemma_find_attr_is_first(o: ByteOrder, rest: Seq<u8>, t: u16)
    ensures
        find_attr(o, rest, t) matches Some(p) ==> exists|i: int| {
            &&& 0 <= i < attr_list(o, rest).len()
            &&& #[trigger] attr_list(o, rest)[i] == (t, p)
            &&& forall|j: int| 0 <= j < i ==> (#[trigger] attr_list(o, rest)[j]).0 != t
        },
        find_attr(o, rest, t) is None ==> forall|i: int| 0 <= i < attr_list(o, rest).len()
            ==> (#[trigger] attr_list(o, rest)[i]).0 != t,
    decreases rest.len(),
{
    match next_attr_len(o, rest) {
        None => {},
        Some(l) => {
            let next = rest.skip(message_advance(l, rest.len() as int));
            lemma_find_attr_is_first(o, next, t);
            let all = attr_list(o, rest);
            let first = (rta_type(o, rest), rest.subrange(4, l));
            assert(all == seq![first] + attr_list(o, next));
            if rta_type(o, rest) == t {
                assert(all[0] == (t, rest.subrange(4, l)));
            } else {
                assert forall|i: int| 0 < i < all.len() implies #[trigger] all[i] == attr_list(o, next)[i - 1] by {}
                if let Some(p) = find_attr(o, next, t) {
                    let i = choose|i: int| {
                        &&& 0 <= i < attr_list(o, next).len()
                        &&& #[trigger] attr_list(o, next)[i] == (t, p)
                        &&& forall|j: int| 0 <= j < i ==> (#[trigger] attr_list(o, next)[j]).0 != t
                    };
                    assert(all[i + 1] == (t, p));
                    assert forall|j: int| 0 <= j < i + 1 implies (#[trigger] all[j]).0 != t by {
                        if j > 0 {
                            assert(all[j] == attr_list(o, next)[j - 1]);
                        }
                    }
                } else {
                    assert forall|i: int| 0 <= i < all.len() implies (#[trigger] all[i]).0 != t by {
                        if i > 0 {
                            assert(all[i] == attr_list(o, next)[i - 1]);
                        }
                    }
                }
            }
        },
    }
}

} // verus!
