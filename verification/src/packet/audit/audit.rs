//! The audit status message (`struct audit_status`).
use vstd::prelude::*;
use crate::endian::{ByteOrder, read_u32, write_u32, u32_at, u32_bytes};

verus! {

/// Size of an audit status message: ten 32-bit fields.
pub const AUDIT_STATUS_LEN: usize = 40;

/// The status of the audit subsystem, each field a 32-bit integer in the
/// byte order of the host, in this order.
#[derive(Clone, Copy, Debug, PartialEq, Eq, Structural)]
pub struct AuditStatus {
    pub mask: u32,
    pub enabled: u32,
    pub failure: u32,
    pub pid: u32,
    pub rate_limit: u32,
    pub backlog_limit: u32,
    pub lost: u32,
    pub backlog: u32,
    pub feature_bitmap: u32,
    pub backlog_wait_time: u32,
}

/// The status that the first forty bytes of `s` hold.
pub open spec fn spec_audit_status(o: ByteOrder, s: Seq<u8>) -> AuditStatus {
    AuditStatus {
        mask: u32_at(o, s, 0),
        enabled: u32_at(o, s, 4),
        failure: u32_at(o, s, 8),
        pid: u32_at(o, s, 12),
        rate_limit: u32_at(o, s, 16),
        backlog_limit: u32_at(o, s, 20),
        lost: u32_at(o, s, 24),
        backlog: u32_at(o, s, 28),
        feature_bitmap: u32_at(o, s, 32),
        backlog_wait_time: u32_at(o, s, 36),
    }
}

/// Field `k` of a status, in the order of the message.
pub open spec fn audit_field(a: AuditStatus, k: int) -> u32 {
    if k == 0 {
        a.mask
    } else if k == 1 {
        a.enabled
    } else if k == 2 {
        a.failure
    } else if k == 3 {
        a.pid
    } else if k == 4 {
        a.rate_limit
    } else if k == 5 {
        a.backlog_limit
    } else if k == 6 {
        a.lost
    } else if k == 7 {
        a.backlog
    } else if k == 8 {
        a.feature_bitmap
    } else {
        a.backlog_wait_time
    }
}

/// The forty bytes that lay out `a`: the four bytes of each field in turn.
pub open spec fn audit_status_bytes(o: ByteOrder, a: AuditStatus) -> Seq<u8> {
    Seq::new(40, |i: int| u32_bytes(o, audit_field(a, i / 4))[i % 4])
}

impl AuditStatus {
    /// The size of the message.
    pub fn minimum_packet_size() -> (r: usize)
        ensures
            r == 40,
    {
        AUDIT_STATUS_LEN
    }

    /// The status that `buf` holds, read in byte order `o`; `None` when
    /// `buf` is shorter than the message.
    pub fn from_bytes(o: ByteOrder, buf: &[u8]) -> (r: Option<AuditStatus>)
        ensures
            r is Some <==> buf@.len() >= 40,
            r matches Some(a) ==> a == spec_audit_status(o, buf@),
            r matches Some(a) ==> forall|k: int|
                0 <= k < 10 ==> #[trigger] audit_field(a, k) == u32_at(o, buf@, 4 * k),
    {
        if buf.len() < AUDIT_STATUS_LEN {
            return None;
        }
        proof { lemma_audit_status_fields(o, buf@); }
        Some(AuditStatus {
            mask: read_u32(o, buf, 0),
            enabled: read_u32(o, buf, 4),
            failure: read_u32(o, buf, 8),
            pid: read_u32(o, buf, 12),
            rate_limit: read_u32(o, buf, 16),
            backlog_limit: read_u32(o, buf, 20),
            lost: read_u32(o, buf, 24),
            backlog: read_u32(o, buf, 28),
            feature_bitmap: read_u32(o, buf, 32),
            backlog_wait_time: read_u32(o, buf, 36),
        })
    }

    /// Field `k` of the status, in the order of the message.
    pub fn field(&self, k: usize) -> (r: u32)
        requires
            k < 10,
        ensures
            r == audit_field(*self, k as int),
    {
        if k == 0 {
            self.mask
        } else if k == 1 {
            self.enabled
        } else if k == 2 {
            self.failure
        } else if k == 3 {
            self.pid
        } else if k == 4 {
            self.rate_limit
        } else if k == 5 {
            self.backlog_limit
        } else if k == 6 {
            self.lost
        } else if k == 7 {
            self.backlog
        } else if k == 8 {
            self.feature_bitmap
        } else {
            self.backlog_wait_time
        }
    }

    /// The bytes of the message in byte order `o`.
    pub fn to_bytes(&self, o: ByteOrder) -> (r: Vec<u8>)
        ensures
            r@ == audit_status_bytes(o, *self),
            r@.len() == 40,
            forall|k: int| 0 <= k < 10 ==> #[trigger] r@.subrange(4 * k, 4 * k + 4)
                == u32_bytes(o, audit_field(*self, k)),
    {
        proof { lemma_audit_status_bytes_fields(o, *self); }
        let mut v: Vec<u8> = Vec::new();
        let mut k: usize = 0;
        while k < 10
            invariant
                k <= 10,
                v@ == audit_status_bytes(o, *self).take(4 * k as int),
            decreases 10 - k,
        {
            let mut w: Vec<u8> = vec![0u8; 4];
            write_u32(o, &mut w, 0, self.field(k));
            let ghost before = v@;
            v.push(w[0]);
            v.push(w[1]);
            v.push(w[2]);
            v.push(w[3]);
            assert(v@ =~= audit_status_bytes(o, *self).take(4 * (k + 1) as int));
            k = k + 1;
        }
        assert(audit_status_bytes(o, *self).take(40) =~= audit_status_bytes(o, *self));
        v
    }
}

/// Reading back the bytes of a status gives the status.
pub proof fn lemma_audit_status_roundtrip(o: ByteOrder, a: AuditStatus)
    ensures
        audit_status_bytes(o, a).len() == 40,
        spec_audit_status(o, audit_status_bytes(o, a)) == a,
{
    let s = audit_status_bytes(o, a);
    assert forall|k: int| 0 <= k < 10 implies #[trigger] u32_at(o, s, 4 * k) == audit_field(a, k) by {
        crate::endian::lemma_u32_roundtrip(o, audit_field(a, k));
        assert((4 * k) / 4 == k && (4 * k + 1) / 4 == k && (4 * k + 2) / 4 == k && (4 * k + 3) / 4 == k);
        assert((4 * k) % 4 == 0 && (4 * k + 1) % 4 == 1 && (4 * k + 2) % 4 == 2 && (4 * k + 3) % 4 == 3);
    }
    assert(u32_at(o, s, 4 * 0int) == a.mask);
    assert(u32_at(o, s, 4 * 1int) == a.enabled);
    assert(u32_at(o, s, 4 * 2int) == a.failure);
    assert(u32_at(o, s, 4 * 3int) == a.pid);
    assert(u32_at(o, s, 4 * 4int) == a.rate_limit);
    assert(u32_at(o, s, 4 * 5int) == a.backlog_limit);
    assert(u32_at(o, s, 4 * 6int) == a.lost);
    assert(u32_at(o, s, 4 * 7int) == a.backlog);
    assert(u32_at(o, s, 4 * 8int) == a.feature_bitmap);
    assert(u32_at(o, s, 4 * 9int) == a.backlog_wait_time);
}

/// Field `k` of the status read from `s`, in the order of the message, is
/// the 32-bit integer at offset `4 * k` of `s`: the mask at 0, the
/// backlog limit at 20, the count of lost records at 24, and so on.
pub proof fn lemma_audit_status_fields(o: ByteOrder, s: Seq<u8>)
    requires
        s.len() >= 40,
    ensures
        forall|k: int| 0 <= k < 10 ==> #[trigger] audit_field(spec_audit_status(o, s), k) == u32_at(o, s, 4 * k),
        spec_audit_status(o, s).backlog_limit == u32_at(o, s, 20),
        spec_audit_status(o, s).lost == u32_at(o, s, 24),
{
    let a = spec_audit_status(o, s);
    assert forall|k: int| 0 <= k < 10 implies #[trigger] audit_field(a, k) == u32_at(o, s, 4 * k) by {
        if k == 0 {} else if k == 1 {} else if k == 2 {} else if k == 3 {} else if k == 4 {}
        else if k == 5 {} else if k == 6 {} else if k == 7 {} else if k == 8 {} else {}
    }
}

/// The bytes of a status hold field `k`, in the order of the message, at
/// offsets `4 * k` to `4 * k + 4`, encoded in the byte order asked for.
pub proof fn lemma_audit_status_bytes_fields(o: ByteOrder, a: AuditStatus)
    ensures
        audit_status_bytes(o, a).len() == 40,
        forall|k: int| 0 <= k < 10 ==> #[trigger] audit_status_bytes(o, a).subrange(4 * k, 4 * k + 4)
            == u32_bytes(o, audit_field(a, k)),
        audit_status_bytes(o, a).subrange(0, 4) == u32_bytes(o, a.mask),
        audit_status_bytes(o, a).subrange(4, 8) == u32_bytes(o, a.enabled),
        audit_status_bytes(o, a).subrange(8, 12) == u32_bytes(o, a.failure),
        audit_status_bytes(o, a).subrange(12, 16) == u32_bytes(o, a.pid),
        audit_status_bytes(o, a).subrange(16, 20) == u32_bytes(o, a.rate_limit),
        audit_status_bytes(o, a).subrange(20, 24) == u32_bytes(o, a.backlog_limit),
        audit_status_bytes(o, a).subrange(24, 28) == u32_bytes(o, a.lost),
        audit_status_bytes(o, a).subrange(28, 32) == u32_bytes(o, a.backlog),
        audit_status_bytes(o, a).subrange(32, 36) == u32_bytes(o, a.feature_bitmap),
        audit_status_bytes(o, a).subrange(36, 40) == u32_bytes(o, a.backlog_wait_time),
{
    let s = audit_status_bytes(o, a);
    assert forall|k: int| 0 <= k < 10 implies #[trigger] s.subrange(4 * k, 4 * k + 4)
        == u32_bytes(o, audit_field(a, k)) by {
        crate::endian::lemma_u32_roundtrip(o, audit_field(a, k));
        assert((4 * k) / 4 == k && (4 * k + 1) / 4 == k && (4 * k + 2) / 4 == k && (4 * k + 3) / 4 == k);
        assert((4 * k) % 4 == 0 && (4 * k + 1) % 4 == 1 && (4 * k + 2) % 4 == 2 && (4 * k + 3) % 4 == 3);
        assert(s.subrange(4 * k, 4 * k + 4) =~= u32_bytes(o, audit_field(a, k)));
    }
    assert(s.subrange(4 * 0int, 4 * 0int + 4) == u32_bytes(o, audit_field(a, 0int)));
    assert(s.subrange(4 * 1int, 4 * 1int + 4) == u32_bytes(o, audit_field(a, 1int)));
    assert(s.subrange(4 * 2int, 4 * 2int + 4) == u32_bytes(o, audit_field(a, 2int)));
    assert(s.subrange(4 * 3int, 4 * 3int + 4) == u32_bytes(o, audit_field(a, 3int)));
    assert(s.subrange(4 * 4int, 4 * 4int + 4) == u32_bytes(o, audit_field(a, 4int)));
    assert(s.subrange(4 * 5int, 4 * 5int + 4) == u32_bytes(o, audit_field(a, 5int)));
    assert(s.subrange(4 * 6int, 4 * 6int + 4) == u32_bytes(o, audit_field(a, 6int)));
    assert(s.subrange(4 * 7int, 4 * 7int + 4) == u32_bytes(o, audit_field(a, 7int)));
    assert(s.subrange(4 * 8int, 4 * 8int + 4) == u32_bytes(o, audit_field(a, 8int)));
    assert(s.subrange(4 * 9int, 4 * 9int + 4) == u32_bytes(o, audit_field(a, 9int)));
}

} // verus!
