use snapkeep::Error;
use snapkeep::detect::SubvolumeMetadata;
use snapkeep::detect::should_skip_create;
use snapkeep::wire::NAME_BUF_LEN;
use snapkeep::wire::SUBVOL_INFO_LEN;
use snapkeep::wire::VOL_ARGS_V2_LEN;
use snapkeep::wire::decode_name_buf;
use snapkeep::wire::decode_subvol_info;
use snapkeep::wire::encode_name_buf;
use snapkeep::wire::encode_snap_create_request;
use snapkeep::wire::encode_snap_destroy_request;

#[test]
fn name_buf_encodes_and_pads() {
    let name = b"snap-x".to_vec();
    let buf = encode_name_buf(&name).unwrap();
    assert_eq!(buf.len(), NAME_BUF_LEN);
    assert_eq!(&buf[..6], b"snap-x");
    assert!(buf[6..].iter().all(|&b| b == 0));
}

#[test]
fn name_buf_round_trips() {
    let name = b"snap-2024-01-01T00:00:00Z".to_vec();
    let buf = encode_name_buf(&name).unwrap();
    assert_eq!(decode_name_buf(&buf), name);
}

#[test]
fn name_with_embedded_nul_is_rejected() {
    let name = b"bad\0name".to_vec();
    assert!(matches!(encode_name_buf(&name), Err(Error::InvalidInput)));
}

#[test]
fn name_must_leave_room_for_terminator() {
    let too_long = vec![b'a'; NAME_BUF_LEN];
    assert!(matches!(encode_name_buf(&too_long), Err(Error::InvalidInput)));
    let exactly_fits = vec![b'a'; NAME_BUF_LEN - 1];
    let buf = encode_name_buf(&exactly_fits).unwrap();
    assert_eq!(buf[NAME_BUF_LEN - 1], 0);
}

#[test]
fn create_request_layout() {
    let req = encode_snap_create_request(7, true, &b"n".to_vec()).unwrap();
    assert_eq!(req.len(), VOL_ARGS_V2_LEN);
    // Source handle, little-endian, at offset 0.
    assert_eq!(req[0], 7);
    assert!(req[1..8].iter().all(|&b| b == 0));
    // Transaction id stays zero.
    assert!(req[8..16].iter().all(|&b| b == 0));
    // Read-only flag bit.
    assert_eq!(req[16], 2);
    assert!(req[17..24].iter().all(|&b| b == 0));
    // Unused union stays zero.
    assert!(req[24..56].iter().all(|&b| b == 0));
    // Name buffer at offset 56.
    assert_eq!(req[56], b'n');
    assert!(req[57..].iter().all(|&b| b == 0));
}

#[test]
fn create_request_writable_has_zero_flags() {
    let req = encode_snap_create_request(7, false, &b"n".to_vec()).unwrap();
    assert_eq!(req[16], 0);
}

#[test]
fn create_request_large_fd_little_endian() {
    let req = encode_snap_create_request(0x0102_0304, false, &b"n".to_vec()).unwrap();
    assert_eq!(&req[0..8], &[4, 3, 2, 1, 0, 0, 0, 0]);
}

#[test]
fn destroy_request_layout() {
    let req = encode_snap_destroy_request(&b"gone".to_vec()).unwrap();
    assert_eq!(req.len(), VOL_ARGS_V2_LEN);
    assert!(req[..56].iter().all(|&b| b == 0));
    assert_eq!(&req[56..60], b"gone");
    assert!(req[60..].iter().all(|&b| b == 0));
}

#[test]
fn create_request_rejects_bad_name() {
    assert!(matches!(
        encode_snap_create_request(1, true, &b"a\0b".to_vec()),
        Err(Error::InvalidInput)
    ));
}

#[test]
fn subvol_info_decodes_fields() {
    let mut buf = vec![0u8; SUBVOL_INFO_LEN];
    // Generation at offset 280.
    buf[280] = 42;
    buf[281] = 1;
    // Uuid at 296, parent uuid at 312.
    for k in 0..16 {
        buf[296 + k] = k as u8 + 1;
        buf[312 + k] = 0xa0 + k as u8;
    }
    // Creation transaction id at offset 352.
    buf[352] = 9;
    let m = decode_subvol_info(&buf).unwrap();
    assert_eq!(m.generation, 42 + 256);
    assert_eq!(m.creation_transaction_id, 9);
    assert_eq!(m.uuid, (1..=16).collect::<Vec<u8>>());
    assert_eq!(m.parent_uuid, (0xa0..=0xaf).collect::<Vec<u8>>());
}

#[test]
fn subvol_info_wrong_size_is_rejected() {
    let buf = vec![0u8; SUBVOL_INFO_LEN - 1];
    assert!(matches!(decode_subvol_info(&buf), Err(Error::InvalidInput)));
}

fn meta(uuid: [u8; 16], parent: [u8; 16], generation: u64, otransid: u64) -> SubvolumeMetadata {
    SubvolumeMetadata {
        uuid: uuid.to_vec(),
        parent_uuid: parent.to_vec(),
        generation,
        creation_transaction_id: otransid,
    }
}

#[test]
fn unchanged_source_skips_creation() {
    // The source's generation equals the snapshot's creation transaction
    // id and the source is the snapshot's parent: nothing to do.
    let src = meta([1; 16], [9; 16], 77, 0);
    let snap = meta([5; 16], [1; 16], 100, 77);
    assert!(should_skip_create(&src, &snap));
}

#[test]
fn changed_generation_creates() {
    let src = meta([1; 16], [9; 16], 78, 0);
    let snap = meta([5; 16], [1; 16], 100, 77);
    assert!(!should_skip_create(&src, &snap));
}

#[test]
fn different_parent_creates() {
    let src = meta([2; 16], [9; 16], 77, 0);
    let snap = meta([5; 16], [1; 16], 100, 77);
    assert!(!should_skip_create(&src, &snap));
}
