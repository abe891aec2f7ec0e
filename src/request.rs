use vstd::prelude::*;
use vstd::utf8::encode_utf8;

use crate::canonical::{lowered_names_distinct, pair_views, Pair};
use crate::codec::{decimal, u64_decimal};
use crate::config::Config;
use crate::signature::{generate_authorization, token_text};

verus! {

/// How long a signature stays valid, in seconds.
pub const SIGNATURE_VALIDITY: i64 = 3600;

/// The HTTP methods the service is called with.
#[derive(Debug, Clone, Copy, PartialEq, Eq)]
pub enum Method {
    Put,
    Post,
    Head,
    Delete,
}

impl Method {
    /// The lowercase name that is signed.
    pub open spec fn name_spec(self) -> Seq<char> {
        match self {
            Method::Put => "put"@,
            Method::Post => "post"@,
            Method::Head => "head"@,
            Method::Delete => "delete"@,
        }
    }

    /// The lowercase name that is signed.
    pub fn name(&self) -> (r: &'static str)
        ensures
            r@ == self.name_spec(),
    {
        match self {
            Method::Put => "put",
            Method::Post => "post",
            Method::Head => "head",
            Method::Delete => "delete",
        }
    }
}

/// Errors of a transfer, and of the multipart state machine.
#[derive(Debug, Clone)]
pub enum UploadError {
    /// No authorization could be made: two header or parameter names
    /// lower-case alike, or the signing window's end overflowed.
    Signing,
    /// The service answered with a status outside 2xx.
    Status { code: u16, body: String },
    /// The answer to the initiation held no upload id; `body` is that answer.
    MissingUploadId { body: String },
    /// The answer to a part upload held no ETag; `body` is that answer.
    MissingETag { body: String },
    /// The part counter would pass its largest value.
    PartNumberOverflow,
}

/// One outgoing call, signed and ready to send.
#[derive(Debug, Clone)]
pub struct HttpRequest {
    pub method: Method,
    pub url: String,
    /// Every header to send, `Authorization` last.
    pub headers: Vec<(String, String)>,
    pub body: Vec<u8>,
}

/// `t` is the token that signs these values for some signing window of the
/// standard validity.
pub open spec fn signed_by(
    cfg: Config,
    method: Method,
    path: Seq<char>,
    params: Seq<Pair>,
    headers: Seq<Pair>,
    t: Seq<char>,
) -> bool {
    exists|now: i64|
        i64::MIN <= now + SIGNATURE_VALIDITY <= i64::MAX && t == token_text(
            cfg.secret_id@,
            cfg.secret_key@,
            method.name_spec(),
            path,
            params,
            headers,
            now as int,
            SIGNATURE_VALIDITY as int,
        )
}

/// `req` sends `headers` plus an `Authorization` header that signs the call.
pub open spec fn is_signed_request(
    req: HttpRequest,
    cfg: Config,
    method: Method,
    object_key: Seq<char>,
    url: Seq<char>,
    params: Seq<Pair>,
    headers: Seq<Pair>,
    body: Seq<u8>,
) -> bool {
    &&& req.method == method
    &&& req.url@ == url
    &&& req.body@ == body
    &&& pair_views(req.headers@).len() == headers.len() + 1
    &&& pair_views(req.headers@).drop_last() == headers
    &&& pair_views(req.headers@).last().0 == "Authorization"@
    &&& signed_by(cfg, method, "/"@ + object_key, params, headers, pair_views(req.headers@).last().1)
}

/// Signs a call to `/{object_key}` with these parameters and headers, and
/// attaches the token as the `Authorization` header.
pub fn sign_request(
    cfg: &Config,
    method: Method,
    object_key: &str,
    url: String,
    params: &Vec<(String, String)>,
    headers: Vec<(String, String)>,
    body: Vec<u8>,
) -> (r: Result<HttpRequest, UploadError>)
    ensures
        r matches Ok(req) ==> is_signed_request(
            req,
            *cfg,
            method,
            object_key@,
            url@,
            pair_views(params@),
            pair_views(headers@),
            body@,
        ),
        r matches Err(e) ==> e is Signing,
        r is Ok <==> lowered_names_distinct(pair_views(params@)) && lowered_names_distinct(pair_views(headers@)),
{
    let mut path = String::from_str("/");
    path.append(object_key);
    let token = generate_authorization(
        cfg.secret_id.as_str(),
        cfg.secret_key.as_str(),
        method.name(),
        path.as_str(),
        params,
        &headers,
        SIGNATURE_VALIDITY,
    );
    match token {
        Some(t) => {
            let ghost hv = pair_views(headers@);
            let mut all = headers;
            all.push((String::from_str("Authorization"), t));
            proof {
                assert(pair_views(all@).drop_last() =~= hv);
            }
            Ok(HttpRequest { method, url, headers: all, body })
        },
        None => Err(UploadError::Signing),
    }
}

/// What the MIME type guess yields for a file path.
pub uninterp spec fn mime_of(path: Seq<char>) -> Seq<char>;

/// Relies on mime_guess's `from_path` and `first_or_octet_stream`: the MIME
/// type guessed from the path's extension, `application/octet-stream` when
/// there is none (a path without any `.` has no extension).
#[verifier::external_body]
fn guess_content_type(path: &str) -> (r: String)
    ensures
        r@ == mime_of(path@),
        !path@.contains('.') ==> r@ == "application/octet-stream"@,
{
    mime_guess::from_path(path).first_or_octet_stream().to_string()
}

/// One metadata entry as a header: `x-cos-meta-{name}: value`, the name's case kept.
pub open spec fn meta_header(e: Pair) -> Pair {
    ("x-cos-meta-"@ + e.0, e.1)
}

/// Every metadata entry as a header, in order.
pub open spec fn meta_headers(md: Seq<Pair>) -> Seq<Pair> {
    md.map_values(|e: Pair| meta_header(e))
}

/// Appends one header per metadata entry.
fn append_metadata(headers: &mut Vec<(String, String)>, metadata: &Vec<(String, String)>)
    ensures
        pair_views(final(headers)@) == pair_views(old(headers)@) + meta_headers(pair_views(metadata@)),
{
    let ghost start = pair_views(headers@);
    let mut i: usize = 0;
    while i < metadata.len()
        invariant
            0 <= i <= metadata.len(),
            pair_views(headers@) == start + meta_headers(pair_views(metadata@)).take(i as int),
        decreases metadata.len() - i,
    {
        let mut name = String::from_str("x-cos-meta-");
        name.append(metadata[i].0.as_str());
        let value = metadata[i].1.clone();
        let ghost before = pair_views(headers@);
        headers.push((name, value));
        proof {
            assert(meta_headers(pair_views(metadata@)).take(i as int + 1)
                =~= meta_headers(pair_views(metadata@)).take(i as int).push(meta_header(pair_views(metadata@)[i as int])));
            assert(pair_views(headers@) =~= before.push(meta_header(pair_views(metadata@)[i as int])));
        }
        i = i + 1;
    }
    proof {
        assert(meta_headers(pair_views(metadata@)).take(metadata@.len() as int) =~= meta_headers(pair_views(metadata@)));
    }
}

/// A header list with one `Host` header.
fn host_headers(cfg: &Config) -> (r: Vec<(String, String)>)
    ensures
        pair_views(r@) == seq![("Host"@, cfg.host_spec())],
{
    let mut headers: Vec<(String, String)> = Vec::new();
    headers.push((String::from_str("Host"), cfg.host()));
    proof {
        assert(pair_views(headers@) =~= seq![("Host"@, cfg.host_spec())]);
    }
    headers
}

/// The headers of a single-request upload.
pub open spec fn simple_upload_headers(cfg: Config, file_path: Seq<char>, len: nat, md: Seq<Pair>) -> Seq<Pair> {
    seq![
        ("Content-Type"@, mime_of(file_path)),
        ("Host"@, cfg.host_spec()),
        ("Content-Length"@, decimal(len)),
    ] + meta_headers(md)
}

/// The signed PUT that uploads a whole file in one request: its content type
/// guessed from `file_path`, its length, and one header per metadata entry.
pub fn simple_upload_request(
    cfg: &Config,
    file_path: &str,
    object_key: &str,
    content: Vec<u8>,
    metadata: &Vec<(String, String)>,
) -> (r: Result<HttpRequest, UploadError>)
    ensures
        r matches Ok(req) ==> is_signed_request(
            req,
            *cfg,
            Method::Put,
            object_key@,
            cfg.object_url_spec(object_key@),
            seq![],
            simple_upload_headers(*cfg, file_path@, content@.len(), pair_views(metadata@)),
            content@,
        ),
        r matches Err(e) ==> e is Signing,
        r is Ok <==> lowered_names_distinct(simple_upload_headers(*cfg, file_path@, content@.len(), pair_views(metadata@))),
{
    let url = cfg.object_url(object_key);
    let mut headers: Vec<(String, String)> = Vec::new();
    headers.push((String::from_str("Content-Type"), guess_content_type(file_path)));
    headers.push((String::from_str("Host"), cfg.host()));
    headers.push((String::from_str("Content-Length"), u64_decimal(content.len() as u64)));
    let ghost base = pair_views(headers@);
    append_metadata(&mut headers, metadata);
    let params: Vec<(String, String)> = Vec::new();
    proof {
        assert(pair_views(params@) =~= Seq::<Pair>::empty());
        assert(pair_views(headers@) =~= simple_upload_headers(*cfg, file_path@, content@.len(), pair_views(metadata@)));
    }
    sign_request(cfg, Method::Put, object_key, url, &params, headers, content)
}

/// The signed POST that opens a multipart upload, with one header per metadata entry.
pub fn init_multipart_request(cfg: &Config, object_key: &str, metadata: &Vec<(String, String)>) -> (r: Result<
    HttpRequest,
    UploadError,
>)
    ensures
        r matches Ok(req) ==> is_signed_request(
            req,
            *cfg,
            Method::Post,
            object_key@,
            cfg.object_url_spec(object_key@) + "?uploads"@,
            seq![("uploads"@, ""@)],
            seq![("Host"@, cfg.host_spec())] + meta_headers(pair_views(metadata@)),
            seq![],
        ),
        r matches Err(e) ==> e is Signing,
        r is Ok <==> lowered_names_distinct(seq![("Host"@, cfg.host_spec())] + meta_headers(pair_views(metadata@))),
{
    let mut url = cfg.object_url(object_key);
    url.append("?uploads");
    let mut headers = host_headers(cfg);
    append_metadata(&mut headers, metadata);
    let mut params: Vec<(String, String)> = Vec::new();
    params.push((String::from_str("uploads"), String::from_str("")));
    proof {
        assert(pair_views(params@) =~= seq![("uploads"@, ""@)]);
    }
    sign_request(cfg, Method::Post, object_key, url, &params, headers, Vec::new())
}

/// The signed PUT that uploads part `part_number` of a multipart upload.
pub fn upload_part_request(
    cfg: &Config,
    object_key: &str,
    upload_id: &str,
    part_number: u32,
    data: Vec<u8>,
) -> (r: Result<HttpRequest, UploadError>)
    ensures
        r matches Ok(req) ==> is_signed_request(
            req,
            *cfg,
            Method::Put,
            object_key@,
            cfg.object_url_spec(object_key@) + "?partNumber="@ + decimal(part_number as nat) + "&uploadId="@ + upload_id@,
            seq![("partNumber"@, decimal(part_number as nat)), ("uploadId"@, upload_id@)],
            seq![("Host"@, cfg.host_spec()), ("Content-Length"@, decimal(data@.len()))],
            data@,
        ),
        r matches Err(e) ==> e is Signing,
        r is Ok <==> lowered_names_distinct(seq![("partNumber"@, decimal(part_number as nat)), ("uploadId"@, upload_id@)])
            && lowered_names_distinct(seq![("Host"@, cfg.host_spec()), ("Content-Length"@, decimal(data@.len()))]),
{
    let number = u64_decimal(part_number as u64);
    let mut url = cfg.object_url(object_key);
    url.append("?partNumber=");
    url.append(number.as_str());
    url.append("&uploadId=");
    url.append(upload_id);
    let mut headers = host_headers(cfg);
    let ghost before = pair_views(headers@);
    headers.push((String::from_str("Content-Length"), u64_decimal(data.len() as u64)));
    proof {
        assert(pair_views(headers@) =~= before.push(("Content-Length"@, decimal(data@.len()))));
    }
    let mut params: Vec<(String, String)> = Vec::new();
    params.push((String::from_str("partNumber"), number));
    params.push((String::from_str("uploadId"), String::from_str(upload_id)));
    proof {
        assert(pair_views(params@) =~= seq![("partNumber"@, decimal(part_number as nat)), ("uploadId"@, upload_id@)]);
        assert(pair_views(headers@) =~= seq![("Host"@, cfg.host_spec()), ("Content-Length"@, decimal(data@.len()))]);
    }
    sign_request(cfg, Method::Put, object_key, url, &params, headers, data)
}

/// The signed POST that commits a multipart upload with `manifest` as its body.
pub fn complete_multipart_request(cfg: &Config, object_key: &str, upload_id: &str, manifest: &str) -> (r: Result<
    HttpRequest,
    UploadError,
>)
    ensures
        r matches Ok(req) ==> is_signed_request(
            req,
            *cfg,
            Method::Post,
            object_key@,
            cfg.object_url_spec(object_key@) + "?uploadId="@ + upload_id@,
            seq![("uploadId"@, upload_id@)],
            seq![("Host"@, cfg.host_spec())],
            encode_utf8(manifest@),
        ),
        r matches Err(e) ==> e is Signing,
        r is Ok,
{
    let mut url = cfg.object_url(object_key);
    url.append("?uploadId=");
    url.append(upload_id);
    let headers = host_headers(cfg);
    let mut params: Vec<(String, String)> = Vec::new();
    params.push((String::from_str("uploadId"), String::from_str(upload_id)));
    proof {
        assert(pair_views(params@) =~= seq![("uploadId"@, upload_id@)]);
    }
    sign_request(cfg, Method::Post, object_key, url, &params, headers, manifest.as_bytes_vec())
}

/// A signed call without parameters or body on an object: HEAD to read its
/// metadata, DELETE to remove it.
pub fn object_request(cfg: &Config, method: Method, object_key: &str) -> (r: Result<HttpRequest, UploadError>)
    ensures
        r matches Ok(req) ==> is_signed_request(
            req,
            *cfg,
            method,
            object_key@,
            cfg.object_url_spec(object_key@),
            seq![],
            seq![("Host"@, cfg.host_spec())],
            seq![],
        ),
        r matches Err(e) ==> e is Signing,
        r is Ok,
{
    let url = cfg.object_url(object_key);
    let headers = host_headers(cfg);
    let params: Vec<(String, String)> = Vec::new();
    proof {
        assert(pair_views(params@) =~= Seq::<Pair>::empty());
    }
    sign_request(cfg, method, object_key, url, &params, headers, Vec::new())
}

/// Whether a status code is a success (2xx).
pub open spec fn is_success_spec(code: u16) -> bool {
    200 <= code <= 299
}

/// Whether a status code is a success (2xx).
pub fn is_success(code: u16) -> (r: bool)
    ensures
        r == is_success_spec(code),
{
    200 <= code && code <= 299
}

/// The outcome of a call that returns nothing: `Ok` on 2xx, else the status
/// and the answer's body.
pub fn check_response(code: u16, body: String) -> (r: Result<(), UploadError>)
    ensures
        is_success_spec(code) ==> r is Ok,
        !is_success_spec(code) ==> (r matches Err(UploadError::Status { code: c, body: b }) && c == code && b@ == body@),
{
    if is_success(code) {
        Ok(())
    } else {
        Err(UploadError::Status { code, body })
    }
}

} // verus!
