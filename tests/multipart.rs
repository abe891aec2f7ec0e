use cos_upload::{
    completion_manifest, parse_upload_id, uses_multipart, Config, Method, MultipartUpload, Phase, UploadError,
    MULTIPART_THRESHOLD, PART_SIZE,
};

const INIT_BODY: &str = "<InitiateMultipartUploadResult><Bucket>bk</Bucket><Key>k</Key>\
                         <UploadId>1585130821cbb7df1d11846c073ad648e8f33b087cec2381df437acdc833cf654b9ecc6361</UploadId>\
                         </InitiateMultipartUploadResult>";

fn config() -> Config {
    Config::new("AKID".to_string(), "SECRET".to_string(), "ap-x".to_string(), "bk".to_string())
}

fn initiated(size: u64) -> MultipartUpload {
    let mut up = MultipartUpload::new("dir/big.bin".to_string(), size);
    up.on_initiate_response(200, INIT_BODY.to_string()).unwrap();
    up
}

#[test]
fn threshold_size_uses_simple_upload() {
    assert_eq!(MULTIPART_THRESHOLD, 5 * 1024 * 1024);
    assert!(!uses_multipart(5 * 1024 * 1024));
    assert!(uses_multipart(5 * 1024 * 1024 + 1));
    assert!(!uses_multipart(0));
}

#[test]
fn parts_cover_the_file_in_order() {
    let size = 2 * PART_SIZE + 7;
    let mut up = initiated(size);
    let mut spans = Vec::new();
    while let Some((n, start, end)) = up.next_part() {
        spans.push((n, start, end));
        up.on_part_response(200, Some(format!("\"etag{}\"", n)), String::new()).unwrap();
    }
    assert_eq!(spans, vec![(1, 0, PART_SIZE), (2, PART_SIZE, 2 * PART_SIZE), (3, 2 * PART_SIZE, size)]);
    assert_eq!(up.parts().len(), 3);
}

#[test]
fn exact_multiple_of_part_size_has_no_empty_part() {
    let mut up = initiated(2 * PART_SIZE);
    let mut count = 0u32;
    while let Some((n, start, end)) = up.next_part() {
        count += 1;
        assert_eq!(n, count);
        assert_eq!(end - start, PART_SIZE);
        up.on_part_response(204, Some("t".to_string()), String::new()).unwrap();
    }
    assert_eq!(count, 2);
}

#[test]
fn full_multipart_flow_returns_object_url() {
    let cfg = config();
    let mut up = MultipartUpload::new("dir/big.bin".to_string(), PART_SIZE + 1);
    let init = up.initiate_request(&cfg, &Vec::new()).unwrap();
    assert_eq!(init.method, Method::Post);
    assert_eq!(init.url, "https://bk.cos.ap-x.myqcloud.com/dir/big.bin?uploads");
    up.on_initiate_response(200, INIT_BODY.to_string()).unwrap();
    assert_eq!(up.phase(), Phase::Initiated);
    assert!(up.upload_id().starts_with("1585130821cbb7df"));
    while let Some((_, start, end)) = up.next_part() {
        let data = vec![7u8; (end - start) as usize];
        let req = up.part_request(&cfg, data).unwrap();
        assert_eq!(req.method, Method::Put);
        up.on_part_response(200, Some("\"e\"".to_string()), String::new()).unwrap();
    }
    let done = up.complete_request(&cfg).unwrap();
    assert_eq!(done.method, Method::Post);
    let body = String::from_utf8(done.body.clone()).unwrap();
    assert_eq!(
        body,
        "<CompleteMultipartUpload><Part><PartNumber>1</PartNumber><ETag>\"e\"</ETag></Part>\
         <Part><PartNumber>2</PartNumber><ETag>\"e\"</ETag></Part></CompleteMultipartUpload>"
    );
    let url = up.on_complete_response(&cfg, 200, String::new()).unwrap();
    assert_eq!(url, "https://bk.cos.ap-x.myqcloud.com/dir/big.bin");
    assert_eq!(up.phase(), Phase::Completed);
}

#[test]
fn failed_initiation_aborts() {
    let mut up = MultipartUpload::new("k".to_string(), PART_SIZE * 3);
    let r = up.on_initiate_response(403, "AccessDenied".to_string());
    assert!(matches!(r, Err(UploadError::Status { code: 403, ref body }) if body == "AccessDenied"));
    assert_eq!(up.phase(), Phase::Aborted);
}

#[test]
fn initiation_without_upload_id_aborts() {
    let mut up = MultipartUpload::new("k".to_string(), PART_SIZE * 3);
    let r = up.on_initiate_response(200, "<Result></Result>".to_string());
    assert!(matches!(r, Err(UploadError::MissingUploadId { ref body }) if body == "<Result></Result>"));
    assert_eq!(up.phase(), Phase::Aborted);
}

#[test]
fn failed_part_upload_aborts() {
    let mut up = initiated(PART_SIZE * 3);
    up.on_part_response(200, Some("a".to_string()), String::new()).unwrap();
    let r = up.on_part_response(500, Some("b".to_string()), "InternalError".to_string());
    assert!(matches!(r, Err(UploadError::Status { code: 500, .. })));
    assert_eq!(up.phase(), Phase::Aborted);
    assert_eq!(up.parts().len(), 1);
}

#[test]
fn part_upload_without_etag_aborts() {
    let mut up = initiated(PART_SIZE * 3);
    let r = up.on_part_response(200, None, "no tag".to_string());
    assert!(matches!(r, Err(UploadError::MissingETag { ref body }) if body == "no tag"));
    assert_eq!(up.phase(), Phase::Aborted);
    assert!(up.parts().is_empty());
}

#[test]
fn failed_completion_aborts() {
    let cfg = config();
    let mut up = initiated(10);
    up.on_part_response(200, Some("a".to_string()), String::new()).unwrap();
    assert_eq!(up.next_part(), None);
    let r = up.on_complete_response(&cfg, 400, "MalformedXML".to_string());
    assert!(matches!(r, Err(UploadError::Status { code: 400, .. })));
    assert_eq!(up.phase(), Phase::Aborted);
}

#[test]
fn manifest_ascends_whatever_the_finish_order() {
    let parts = vec![(3u32, "c".to_string()), (1u32, "a".to_string()), (2u32, "b".to_string())];
    let expected = "<CompleteMultipartUpload>\
                    <Part><PartNumber>1</PartNumber><ETag>a</ETag></Part>\
                    <Part><PartNumber>2</PartNumber><ETag>b</ETag></Part>\
                    <Part><PartNumber>3</PartNumber><ETag>c</ETag></Part>\
                    </CompleteMultipartUpload>";
    assert_eq!(completion_manifest(&parts).as_deref(), Some(expected));
    let reordered = vec![(2u32, "b".to_string()), (3u32, "c".to_string()), (1u32, "a".to_string())];
    assert_eq!(completion_manifest(&reordered).as_deref(), Some(expected));
}

#[test]
fn manifest_of_no_parts_and_duplicate_parts() {
    assert_eq!(
        completion_manifest(&Vec::new()).as_deref(),
        Some("<CompleteMultipartUpload></CompleteMultipartUpload>")
    );
    let dup = vec![(1u32, "a".to_string()), (1u32, "b".to_string())];
    assert_eq!(completion_manifest(&dup), None);
}

#[test]
fn upload_id_is_taken_between_markers() {
    assert_eq!(parse_upload_id("<a><UploadId>xyz</UploadId></a>").unwrap(), "xyz");
    assert_eq!(parse_upload_id("<UploadId></UploadId>").unwrap(), "");
    assert_eq!(parse_upload_id("<UploadId>1</UploadId><UploadId>2</UploadId>").unwrap(), "1");
    assert!(matches!(parse_upload_id("no marker"), Err(UploadError::MissingUploadId { .. })));
    assert!(matches!(parse_upload_id("<UploadId>open"), Err(UploadError::MissingUploadId { .. })));
    assert!(matches!(parse_upload_id(""), Err(UploadError::MissingUploadId { .. })));
}
