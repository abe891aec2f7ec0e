use cos_upload::{authorization_at, generate_authorization, hmac_sha1, sha1_digest};

fn pairs(items: &[(&str, &str)]) -> Vec<(String, String)> {
    items.iter().map(|(k, v)| (k.to_string(), v.to_string())).collect()
}

#[test]
fn hmac_sha1_matches_published_vector() {
    assert_eq!(
        hmac_sha1("key", "The quick brown fox jumps over the lazy dog"),
        "de7c9b85b8b78aa6bc8a7a36f70a90701c9db4d9"
    );
    assert_eq!(hmac_sha1("", ""), "fbdb1d1b18aa6c08324b7d64b71fb76370690e1d");
}

#[test]
fn hmac_sha1_is_deterministic() {
    let a = hmac_sha1("secret", "message");
    let b = hmac_sha1("secret", "message");
    assert_eq!(a, b);
    assert_eq!(a.len(), 40);
    assert_ne!(a, hmac_sha1("secret", "message!"));
}

#[test]
fn sha1_digest_matches_published_vectors() {
    assert_eq!(sha1_digest("abc"), "a9993e364706816aba3e25717850c26c9cd0d89d");
    assert_eq!(sha1_digest(""), "da39a3ee5e6b4b0d3255bfef95601890afd80709");
    assert_eq!(sha1_digest("abc"), sha1_digest("abc"));
}

#[test]
fn authorization_matches_golden_value() {
    let params = pairs(&[]);
    let headers = pairs(&[("host", "b.cos.r.example.com")]);
    let token = authorization_at("AKIDTEST", "SECRETTEST", "GET", "/test.txt", &params, &headers, 1700000000, 3600);
    assert_eq!(
        token.as_deref(),
        Some(
            "q-sign-algorithm=sha1&q-ak=AKIDTEST&q-sign-time=1700000000;1700003600\
             &q-key-time=1700000000;1700003600&q-header-list=host&q-url-param-list=\
             &q-signature=9465e9c3b03949c8bc24f315c0c21df1d34fa745"
        )
    );
}

#[test]
fn authorization_lowercases_encodes_and_sorts() {
    let params = pairs(&[("uploadId", "ID+1"), ("partNumber", "2")]);
    let headers = pairs(&[("Host", "bk.cos.ap-x.myqcloud.com"), ("Content-Length", "3")]);
    let token = authorization_at("AK", "S", "PUT", "/a/b.bin", &params, &headers, -5, 3600).unwrap();
    assert_eq!(
        token,
        "q-sign-algorithm=sha1&q-ak=AK&q-sign-time=-5;3595&q-key-time=-5;3595\
         &q-header-list=content-length;host&q-url-param-list=partnumber;uploadid\
         &q-signature=b36b7873e3ad73903b4c2395755d17b3c218ec0b"
    );
}

#[test]
fn authorization_rejects_window_overflow() {
    let headers = pairs(&[("host", "h")]);
    assert_eq!(authorization_at("a", "b", "get", "/", &Vec::new(), &headers, i64::MAX - 10, 3600), None);
    assert!(authorization_at("a", "b", "get", "/", &Vec::new(), &headers, i64::MAX - 3600, 3600).is_some());
}

#[test]
fn authorization_rejects_names_that_collide_after_lowercasing() {
    let headers = pairs(&[("Host", "h"), ("host", "h2")]);
    assert_eq!(authorization_at("a", "b", "get", "/", &Vec::new(), &headers, 0, 3600), None);
    assert_eq!(generate_authorization("a", "b", "get", "/", &Vec::new(), &headers, 3600), None);
}

#[test]
fn generate_authorization_uses_a_one_hour_window() {
    let headers = pairs(&[("host", "b.cos.r.example.com")]);
    let token = generate_authorization("AKIDTEST", "SECRETTEST", "get", "/x", &Vec::new(), &headers, 3600).unwrap();
    let times = token.split('&').nth(2).unwrap().trim_start_matches("q-sign-time=");
    let mut it = times.split(';');
    let start: i64 = it.next().unwrap().parse().unwrap();
    let end: i64 = it.next().unwrap().parse().unwrap();
    assert_eq!(end - start, 3600);
    assert!(token.starts_with("q-sign-algorithm=sha1&q-ak=AKIDTEST&q-sign-time="));
    assert!(token.contains("&q-header-list=host&q-url-param-list=&q-signature="));
}
