use netlink::endian::ByteOrder;
use netlink::packet::audit::audit::AuditStatus;

fn sample() -> AuditStatus {
    AuditStatus {
        mask: 1,
        enabled: 2,
        failure: 3,
        pid: 0x0102_0304,
        rate_limit: 5,
        backlog_limit: 6,
        lost: 7,
        backlog: 8,
        feature_bitmap: 9,
        backlog_wait_time: 0xffff_ffff,
    }
}

#[test]
fn audit_status_roundtrip() {
    for order in [ByteOrder::Little, ByteOrder::Big] {
        let a = sample();
        let bytes = a.to_bytes(order);
        assert_eq!(bytes.len(), AuditStatus::minimum_packet_size());
        assert_eq!(AuditStatus::from_bytes(order, &bytes), Some(a));
    }
}

#[test]
fn audit_status_layout() {
    let bytes = sample().to_bytes(ByteOrder::Big);
    assert_eq!(&bytes[12..16], &[1, 2, 3, 4]);
    assert_eq!(&bytes[36..40], &[0xff; 4]);
    assert_eq!(AuditStatus::from_bytes(ByteOrder::Big, &bytes[..39]), None);
    assert_eq!(sample().field(3), 0x0102_0304);
}
