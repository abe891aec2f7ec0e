//! Request signing and multipart-upload orchestration for an object-storage
//! service. The library decides and builds every call; the caller sends them
//! and reads the local file.

pub mod canonical;
pub mod codec;
pub mod config;
pub mod multipart;
pub mod order;
pub mod request;
pub mod response;
pub mod session;
pub mod signature;

pub use canonical::canonicalize;
pub use config::Config;
pub use multipart::{completion_manifest, uses_multipart, MULTIPART_THRESHOLD, PART_SIZE};
pub use request::{
    check_response, complete_multipart_request, init_multipart_request, is_success, object_request,
    simple_upload_request, upload_part_request, HttpRequest, Method, UploadError,
};
pub use response::parse_upload_id;
pub use session::{MultipartUpload, Phase};
pub use signature::{authorization_at, generate_authorization, hmac_sha1, sha1_digest};
