use cos_upload::{
    check_response, complete_multipart_request, init_multipart_request, is_success, object_request,
    simple_upload_request, upload_part_request, Config, Method, UploadError,
};

fn config() -> Config {
    Config::new("AKID".to_string(), "SECRET".to_string(), "ap-x".to_string(), "bk".to_string())
}

fn header<'a>(headers: &'a [(String, String)], name: &str) -> Vec<&'a str> {
    headers.iter().filter(|(k, _)| k == name).map(|(_, v)| v.as_str()).collect()
}

#[test]
fn config_host_and_url() {
    let cfg = config();
    assert_eq!(cfg.secret_id, "AKID");
    assert_eq!(cfg.host(), "bk.cos.ap-x.myqcloud.com");
    assert_eq!(cfg.object_url("a/b.txt"), "https://bk.cos.ap-x.myqcloud.com/a/b.txt");
}

#[test]
fn simple_upload_carries_metadata_headers() {
    let cfg = config();
    let metadata = vec![("User-Id".to_string(), "123".to_string()), ("source".to_string(), "s".to_string())];
    let req = simple_upload_request(&cfg, "/tmp/notes.txt", "u/notes.txt", b"hello".to_vec(), &metadata).unwrap();
    assert_eq!(req.method, Method::Put);
    assert_eq!(req.url, "https://bk.cos.ap-x.myqcloud.com/u/notes.txt");
    assert_eq!(req.body, b"hello".to_vec());
    assert_eq!(header(&req.headers, "x-cos-meta-User-Id"), vec!["123"]);
    assert_eq!(header(&req.headers, "x-cos-meta-source"), vec!["s"]);
    assert_eq!(header(&req.headers, "Content-Type"), vec!["text/plain"]);
    assert_eq!(header(&req.headers, "Content-Length"), vec!["5"]);
    assert_eq!(header(&req.headers, "Host"), vec!["bk.cos.ap-x.myqcloud.com"]);
    assert_eq!(req.headers.len(), 6);
    let (name, token) = req.headers.last().unwrap();
    assert_eq!(name, "Authorization");
    assert!(token.contains("&q-header-list=content-length;content-type;host;x-cos-meta-source;x-cos-meta-user-id&"));
    assert!(token.contains("&q-url-param-list=&"));
}

#[test]
fn unknown_extension_is_octet_stream() {
    let req = simple_upload_request(&config(), "data", "k", Vec::new(), &Vec::new()).unwrap();
    assert_eq!(header(&req.headers, "Content-Type"), vec!["application/octet-stream"]);
    assert_eq!(header(&req.headers, "Content-Length"), vec!["0"]);
}

#[test]
fn metadata_colliding_after_lowercasing_is_rejected() {
    let metadata = vec![("Key".to_string(), "1".to_string()), ("key".to_string(), "2".to_string())];
    let r = simple_upload_request(&config(), "a.txt", "k", Vec::new(), &metadata);
    assert!(matches!(r, Err(UploadError::Signing)));
}

#[test]
fn initiate_request_carries_metadata_headers() {
    let metadata = vec![("Owner".to_string(), "me".to_string())];
    let req = init_multipart_request(&config(), "big.bin", &metadata).unwrap();
    assert_eq!(req.method, Method::Post);
    assert_eq!(req.url, "https://bk.cos.ap-x.myqcloud.com/big.bin?uploads");
    assert_eq!(header(&req.headers, "x-cos-meta-Owner"), vec!["me"]);
    assert!(req.body.is_empty());
    let token = &req.headers.last().unwrap().1;
    assert!(token.contains("&q-header-list=host;x-cos-meta-owner&q-url-param-list=uploads&"));
}

#[test]
fn part_request_shape() {
    let req = upload_part_request(&config(), "big.bin", "ID1", 42, vec![1, 2, 3]).unwrap();
    assert_eq!(req.method, Method::Put);
    assert_eq!(req.url, "https://bk.cos.ap-x.myqcloud.com/big.bin?partNumber=42&uploadId=ID1");
    assert_eq!(header(&req.headers, "Content-Length"), vec!["3"]);
    assert_eq!(req.body, vec![1, 2, 3]);
    let token = &req.headers.last().unwrap().1;
    assert!(token.contains("&q-header-list=content-length;host&q-url-param-list=partnumber;uploadid&"));
}

#[test]
fn complete_request_shape() {
    let req = complete_multipart_request(&config(), "big.bin", "ID1", "<CompleteMultipartUpload></CompleteMultipartUpload>")
        .unwrap();
    assert_eq!(req.url, "https://bk.cos.ap-x.myqcloud.com/big.bin?uploadId=ID1");
    assert_eq!(req.body, b"<CompleteMultipartUpload></CompleteMultipartUpload>".to_vec());
}

#[test]
fn head_and_delete_requests() {
    let head = object_request(&config(), Method::Head, "a.txt").unwrap();
    assert_eq!(head.method, Method::Head);
    assert_eq!(head.url, "https://bk.cos.ap-x.myqcloud.com/a.txt");
    assert_eq!(head.headers.len(), 2);
    let del = object_request(&config(), Method::Delete, "a.txt").unwrap();
    assert_eq!(del.method, Method::Delete);
    assert_eq!(Method::Delete.name(), "delete");
}

#[test]
fn status_classification() {
    assert!(is_success(200));
    assert!(is_success(299));
    assert!(!is_success(199));
    assert!(!is_success(300));
    assert!(check_response(204, String::new()).is_ok());
    assert!(matches!(check_response(404, "NoSuchKey".to_string()), Err(UploadError::Status { code: 404, .. })));
}

#[test]
fn requests_with_fixed_names_are_always_built() {
    let cfg = config();
    assert!(object_request(&cfg, Method::Head, "").is_ok());
    assert!(complete_multipart_request(&cfg, "k", "", "").is_ok());
    assert!(upload_part_request(&cfg, "k", "u", 1, Vec::new()).is_ok());
    assert!(init_multipart_request(&cfg, "k", &Vec::new()).is_ok());
}
