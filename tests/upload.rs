use grib_stream::upload::{S3MultipartUploader, UploadError, MIN_PART_SIZE};

fn session() -> S3MultipartUploader {
    S3MultipartUploader::new("bucket", "wind/a.grb2", Some("id-1".to_string())).unwrap()
}

#[test]
fn six_mib_write_gives_one_full_part_then_remainder() {
    assert_eq!(MIN_PART_SIZE, 5_242_880);
    let mut s = session();
    let data: Vec<u8> = (0..6_291_456u32).map(|i| (i % 251) as u8).collect();
    s.write(&data);
    let p1 = s.next_part().unwrap();
    assert_eq!(p1.part_number, 1);
    assert_eq!(p1.data.len(), 5_242_880);
    assert_eq!(&p1.data[..], &data[..5_242_880]);
    assert!(s.next_part().is_none());
    assert_eq!(s.buffered_len(), 1_048_576);
    assert_eq!(s.record_part(Some("t1".to_string())), Ok(()));

    let p2 = s.final_part().unwrap();
    assert_eq!(p2.part_number, 2);
    assert_eq!(&p2.data[..], &data[5_242_880..]);
    assert_eq!(s.record_part(Some("t2".to_string())), Ok(()));
    assert!(s.final_part().is_none());

    let req = s.complete();
    let numbers: Vec<i32> = req.parts.iter().map(|p| p.part_number).collect();
    assert_eq!(numbers, vec![1, 2]);
    assert_eq!(req.parts[0].e_tag, "t1");
    assert_eq!(req.parts[1].e_tag, "t2");
    assert_eq!(req.upload_id, "id-1");
    assert_eq!(req.bucket, "bucket");
    assert_eq!(req.key, "wind/a.grb2");
}

#[test]
fn finalize_without_writes_uploads_one_empty_part() {
    let mut s = session();
    let p = s.final_part().unwrap();
    assert_eq!(p.part_number, 1);
    assert!(p.data.is_empty());
    assert_eq!(s.record_part(Some("e".to_string())), Ok(()));
    assert!(s.final_part().is_none());
    let req = s.complete();
    assert_eq!(req.parts.len(), 1);
    assert_eq!(req.parts[0].part_number, 1);
}

#[test]
fn many_small_writes_number_parts_contiguously() {
    let mut s = session();
    let chunk = vec![7u8; 1_500_000];
    let mut tags = 0;
    for _ in 0..12 {
        s.write(&chunk);
        while let Some(p) = s.next_part() {
            assert_eq!(p.data.len(), MIN_PART_SIZE);
            tags += 1;
            assert_eq!(s.record_part(Some(format!("t{tags}"))), Ok(()));
        }
    }
    if let Some(_) = s.final_part() {
        tags += 1;
        assert_eq!(s.record_part(Some(format!("t{tags}"))), Ok(()));
    }
    let req = s.complete();
    assert_eq!(req.parts.len(), 4);
    for (i, p) in req.parts.iter().enumerate() {
        assert_eq!(p.part_number, i as i32 + 1);
    }
}

#[test]
fn missing_token_is_initiation_error() {
    let r = S3MultipartUploader::new("b", "k", None);
    assert!(matches!(r, Err(UploadError::Initiation)));
}

#[test]
fn missing_tag_is_part_upload_error() {
    let mut s = session();
    s.write(&vec![1u8; MIN_PART_SIZE]);
    let p = s.next_part().unwrap();
    assert_eq!(p.part_number, 1);
    assert_eq!(s.record_part(None), Err(UploadError::PartUpload { part_number: 1 }));
    assert_eq!(s.part_number(), 1);
}

#[test]
fn abort_names_the_session() {
    let s = session();
    let a = s.abort();
    assert_eq!(a.upload_id, "id-1");
    assert_eq!(a.bucket, "bucket");
    assert_eq!(a.key, "wind/a.grb2");
}

#[test]
fn no_second_part_before_the_first_is_recorded() {
    let mut s = session();
    s.write(&vec![3u8; 2 * MIN_PART_SIZE]);
    let p = s.next_part().unwrap();
    assert_eq!(p.part_number, 1);
    assert!(s.next_part().is_none());
    assert!(s.final_part().is_none());
    assert_eq!(s.buffered_len(), MIN_PART_SIZE);
    assert_eq!(s.record_part(Some("a".to_string())), Ok(()));
    let q = s.next_part().unwrap();
    assert_eq!(q.part_number, 2);
}

#[test]
fn recording_with_no_part_cut_is_refused() {
    let mut s = session();
    assert_eq!(s.record_part(Some("x".to_string())), Err(UploadError::PartUpload { part_number: 1 }));
    assert_eq!(s.part_number(), 1);
    let p = s.final_part().unwrap();
    assert_eq!(p.part_number, 1);
}

#[test]
fn writes_keep_the_session_target() {
    let mut s = session();
    s.write(&[1, 2, 3]);
    assert_eq!(s.bucket(), "bucket");
    assert_eq!(s.key(), "wind/a.grb2");
    assert_eq!(s.upload_id(), "id-1");
    assert_eq!(s.buffered_len(), 3);
}
