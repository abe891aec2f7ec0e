use vstd::prelude::*;
use vstd::utf8::encode_utf8;

use crate::config::Config;
use crate::multipart::{
    completion_manifest, is_part_order, lemma_parts_cover, part_count_spec, manifest_text, part_end, part_order_of, part_start, part_views,
    PartView, PART_SIZE,
};
use crate::request::{
    complete_multipart_request, init_multipart_request, is_signed_request, is_success, is_success_spec,
    meta_headers, upload_part_request, HttpRequest, Method, UploadError,
};
use crate::canonical::{lowered_names_distinct, pair_views, Pair};
use crate::codec::decimal;
use crate::response::{parse_upload_id, upload_id_at};

verus! {

/// Where a multipart upload stands.
#[derive(Debug, Clone, Copy, PartialEq, Eq)]
pub enum Phase {
    /// Nothing sent yet.
    NotStarted,
    /// The service gave an upload id; parts are being uploaded.
    Initiated,
    /// The manifest was accepted.
    Completed,
    /// A step failed; nothing more is sent.
    Aborted,
}

/// The state of a multipart upload, as values.
pub struct UploadView {
    pub phase: Phase,
    pub object_key: Seq<char>,
    pub file_size: nat,
    pub upload_id: Seq<char>,
    pub parts: Seq<PartView>,
}

/// The decisions of one multipart upload: which call comes next, and what
/// each answer means. The caller performs the calls and reads the file.
pub struct MultipartUpload {
    phase: Phase,
    object_key: String,
    file_size: u64,
    upload_id: String,
    parts: Vec<(u32, String)>,
}

/// Parts `1..=parts.len()` are recorded, each under its own number.
pub open spec fn parts_numbered(parts: Seq<PartView>) -> bool {
    forall|i: int| 0 <= i < parts.len() ==> (#[trigger] parts[i]).0 == i + 1
}

/// Every byte of the file lies in a recorded part.
pub open spec fn all_parts_done(v: UploadView) -> bool {
    v.parts.len() * PART_SIZE >= v.file_size
}

proof fn lemma_product_fits(done: int)
    requires
        0 <= done <= u32::MAX,
    ensures
        0 <= done * PART_SIZE <= u32::MAX * 5242880,
{
    assert(PART_SIZE == 5242880);
    assert(0 <= done * 5242880 <= u32::MAX * 5242880) by (nonlinear_arith)
        requires
            0 <= done <= u32::MAX,
    ;
}

impl View for MultipartUpload {
    type V = UploadView;

    closed spec fn view(&self) -> UploadView {
        UploadView {
            phase: self.phase,
            object_key: self.object_key@,
            file_size: self.file_size as nat,
            upload_id: self.upload_id@,
            parts: part_views(self.parts@),
        }
    }
}

impl MultipartUpload {
    /// The state is consistent: parts are numbered from 1 without gaps, each
    /// starts inside the file, and while parts remain the next number fits.
    pub open spec fn wf(&self) -> bool {
        let v = self@;
        &&& parts_numbered(v.parts)
        &&& v.parts.len() <= u32::MAX
        &&& (v.parts.len() > 0 ==> part_start(v.parts.len() as int, PART_SIZE as int) < v.file_size)
        &&& (v.phase == Phase::NotStarted ==> v.parts.len() == 0)
        &&& (v.phase == Phase::Initiated && !all_parts_done(v) ==> v.parts.len() < u32::MAX)
    }

    /// A fresh upload of `file_size` bytes to `object_key`.
    pub fn new(object_key: String, file_size: u64) -> (r: Self)
        ensures
            r.wf(),
            r@.phase == Phase::NotStarted,
            r@.object_key == object_key@,
            r@.file_size == file_size,
            r@.upload_id.len() == 0,
            r@.parts.len() == 0,
    {
        let r = MultipartUpload { phase: Phase::NotStarted, object_key, file_size, upload_id: String::new(), parts: Vec::new() };
        proof {
            assert(r@.parts =~= Seq::<PartView>::empty());
        }
        r
    }

    /// Where the upload stands.
    pub fn phase(&self) -> (r: Phase)
        ensures
            r == self@.phase,
    {
        self.phase
    }

    /// The upload id the service gave.
    pub fn upload_id(&self) -> (r: &str)
        ensures
            r@ == self@.upload_id,
    {
        self.upload_id.as_str()
    }

    /// The part records so far, in part order.
    pub fn parts(&self) -> (r: &Vec<(u32, String)>)
        ensures
            part_views(r@) == self@.parts,
    {
        &self.parts
    }

    /// The call that opens the upload.
    pub fn initiate_request(&self, cfg: &Config, metadata: &Vec<(String, String)>) -> (r: Result<HttpRequest, UploadError>)
        requires
            self@.phase == Phase::NotStarted,
        ensures
            r matches Ok(req) ==> is_signed_request(
                req,
                *cfg,
                Method::Post,
                self@.object_key,
                cfg.object_url_spec(self@.object_key) + "?uploads"@,
                seq![("uploads"@, ""@)],
                seq![("Host"@, cfg.host_spec())] + meta_headers(pair_views(metadata@)),
                seq![],
            ),
            r matches Err(e) ==> e is Signing,
            r is Ok <==> lowered_names_distinct(seq![("Host"@, cfg.host_spec())] + meta_headers(pair_views(metadata@))),
    {
        init_multipart_request(cfg, self.object_key.as_str(), metadata)
    }

    /// Takes the answer to the initiation. On 2xx with an upload id the
    /// upload is initiated under that id; on any other status, or without an
    /// id, it is aborted and the error returned.
    pub fn on_initiate_response(&mut self, code: u16, body: String) -> (r: Result<(), UploadError>)
        requires
            old(self).wf(),
            old(self)@.phase == Phase::NotStarted,
        ensures
            final(self).wf(),
            final(self)@.object_key == old(self)@.object_key,
            final(self)@.file_size == old(self)@.file_size,
            final(self)@.parts == old(self)@.parts,
            !is_success_spec(code) ==> (r matches Err(UploadError::Status { code: c, body: b }) && c == code && b@ == body@),
            !is_success_spec(code) ==> final(self)@.upload_id == old(self)@.upload_id,
            is_success_spec(code) ==> (r is Ok <==> exists|i: int, j: int| upload_id_at(body@, i, j)),
            is_success_spec(code) && r is Err ==> (r matches Err(UploadError::MissingUploadId { body: b }) && b@ == body@),
            r is Ok ==> exists|i: int, j: int|
                upload_id_at(body@, i, j) && final(self)@.upload_id == body@.subrange(i + "<UploadId>"@.len(), j),
            r is Ok ==> final(self)@.phase == Phase::Initiated,
            r is Err ==> final(self)@.phase == Phase::Aborted,
    {
        if !is_success(code) {
            self.phase = Phase::Aborted;
            return Err(UploadError::Status { code, body });
        }
        match parse_upload_id(body.as_str()) {
            Ok(id) => {
                self.upload_id = id;
                self.phase = Phase::Initiated;
                proof {
                    assert(self@.parts.len() == 0);
                }
                Ok(())
            },
            Err(e) => {
                self.phase = Phase::Aborted;
                Err(e)
            },
        }
    }

    /// The next part to upload as `(number, start, end)`, the bytes
    /// `[start, end)` of the file; `None` once every byte is in a part.
    pub fn next_part(&self) -> (r: Option<(u32, u64, u64)>)
        requires
            self.wf(),
            self@.phase == Phase::Initiated,
        ensures
            r is None <==> all_parts_done(self@),
            r matches Some((n, s, e)) ==> {
                &&& n == self@.parts.len() + 1
                &&& s == part_start(n as int, PART_SIZE as int)
                &&& e == part_end(n as int, PART_SIZE as int, self@.file_size as int)
                &&& s < e
                &&& n <= part_count_spec(self@.file_size, PART_SIZE as nat)
            },
    {
        let done = self.parts.len() as u64;
        proof {
            lemma_product_fits(done as int);
        }
        if (done as u128) * (PART_SIZE as u128) >= (self.file_size as u128) {
            return None;
        }
        let start = done * PART_SIZE;
        let end = if self.file_size - start > PART_SIZE {
            start + PART_SIZE
        } else {
            self.file_size
        };
        let n = (done + 1) as u32;
        proof {
            lemma_parts_cover(self.file_size as nat, PART_SIZE as nat);
            assert(part_start(n as int, PART_SIZE as int) == done * PART_SIZE);
        }
        assert((n as int) * PART_SIZE == done * PART_SIZE + PART_SIZE) by (nonlinear_arith)
            requires
                n == done + 1,
        ;
        Some((n, start, end))
    }

    /// The call that uploads the next part, whose bytes are `data`.
    pub fn part_request(&self, cfg: &Config, data: Vec<u8>) -> (r: Result<HttpRequest, UploadError>)
        requires
            self.wf(),
            self@.phase == Phase::Initiated,
            !all_parts_done(self@),
        ensures
            r matches Ok(req) ==> is_signed_request(
                req,
                *cfg,
                Method::Put,
                self@.object_key,
                cfg.object_url_spec(self@.object_key) + "?partNumber="@ + decimal(self@.parts.len() + 1) + "&uploadId="@
                    + self@.upload_id,
                seq![("partNumber"@, decimal(self@.parts.len() + 1)), ("uploadId"@, self@.upload_id)],
                seq![("Host"@, cfg.host_spec()), ("Content-Length"@, decimal(data@.len()))],
                data@,
            ),
            r matches Err(e) ==> e is Signing,
            r is Ok <==> lowered_names_distinct(seq![("partNumber"@, decimal(self@.parts.len() + 1)), ("uploadId"@, self@.upload_id)])
                && lowered_names_distinct(seq![("Host"@, cfg.host_spec()), ("Content-Length"@, decimal(data@.len()))]),
    {
        let n = (self.parts.len() + 1) as u32;
        upload_part_request(cfg, self.object_key.as_str(), self.upload_id.as_str(), n, data)
    }

    /// Takes the answer to the upload of the next part. On 2xx with an ETag
    /// the part is recorded; on any other status, without an ETag, or when a
    /// further part would need a number past `u32::MAX`, the upload is
    /// aborted and the error returned.
    pub fn on_part_response(&mut self, code: u16, etag: Option<String>, body: String) -> (r: Result<(), UploadError>)
        requires
            old(self).wf(),
            old(self)@.phase == Phase::Initiated,
            !all_parts_done(old(self)@),
        ensures
            final(self).wf(),
            final(self)@.object_key == old(self)@.object_key,
            final(self)@.file_size == old(self)@.file_size,
            final(self)@.upload_id == old(self)@.upload_id,
            !is_success_spec(code) ==> (r matches Err(UploadError::Status { code: c, body: b }) && c == code && b@ == body@),
            is_success_spec(code) && etag is None ==> (r matches Err(UploadError::MissingETag { body: b }) && b@ == body@),
            !is_success_spec(code) || etag is None ==> final(self)@.parts == old(self)@.parts,
            is_success_spec(code) && etag is Some ==> final(self)@.parts == old(self)@.parts.push(
                ((old(self)@.parts.len() + 1) as u32, etag->Some_0@),
            ),
            is_success_spec(code) && etag is Some ==> (r is Ok <==> (all_parts_done(final(self)@)
                || old(self)@.parts.len() + 1 < u32::MAX)),
            is_success_spec(code) && etag is Some && r is Err ==> (r matches Err(e) && e is PartNumberOverflow),
            r is Ok ==> final(self)@.phase == Phase::Initiated,
            r is Err ==> final(self)@.phase == Phase::Aborted,
    {
        if !is_success(code) {
            self.phase = Phase::Aborted;
            return Err(UploadError::Status { code, body });
        }
        let tag = match etag {
            Some(t) => t,
            None => {
                self.phase = Phase::Aborted;
                return Err(UploadError::MissingETag { body });
            },
        };
        let ghost before = self@.parts;
        let n = (self.parts.len() + 1) as u32;
        self.parts.push((n, tag));
        proof {
            assert(self@.parts =~= before.push((n, tag@)));
        }
        let done = self.parts.len() as u64;
        proof {
            lemma_product_fits(done as int);
        }
        let remaining = (done as u128) * (PART_SIZE as u128) < (self.file_size as u128);
        if remaining && n == u32::MAX {
            self.phase = Phase::Aborted;
            return Err(UploadError::PartNumberOverflow);
        }
        Ok(())
    }

    /// The completion manifest of the recorded parts, in ascending part number.
    pub fn manifest(&self) -> (r: String)
        requires
            self.wf(),
        ensures
            is_part_order(self@.parts, part_order_of(self@.parts)),
            r@ == manifest_text(part_order_of(self@.parts)),
    {
        match completion_manifest(&self.parts) {
            Some(m) => m,
            None => {
                proof {
                    assert forall|i: int, j: int| 0 <= i < j < self@.parts.len() implies (#[trigger] self@.parts[i]).0
                        != (#[trigger] self@.parts[j]).0 by {}
                }
                String::new()
            },
        }
    }

    /// The call that commits the upload once every part is recorded.
    pub fn complete_request(&self, cfg: &Config) -> (r: Result<HttpRequest, UploadError>)
        requires
            self.wf(),
            self@.phase == Phase::Initiated,
            all_parts_done(self@),
        ensures
            r matches Ok(req) ==> is_signed_request(
                req,
                *cfg,
                Method::Post,
                self@.object_key,
                cfg.object_url_spec(self@.object_key) + "?uploadId="@ + self@.upload_id,
                seq![("uploadId"@, self@.upload_id)],
                seq![("Host"@, cfg.host_spec())],
                encode_utf8(manifest_text(part_order_of(self@.parts))),
            ),
            r matches Err(e) ==> e is Signing,
            r is Ok,
    {
        let m = self.manifest();
        complete_multipart_request(cfg, self.object_key.as_str(), self.upload_id.as_str(), m.as_str())
    }

    /// Takes the answer to the completion: on 2xx the upload is complete and
    /// the object's URL returned; otherwise it is aborted.
    pub fn on_complete_response(&mut self, cfg: &Config, code: u16, body: String) -> (r: Result<String, UploadError>)
        requires
            old(self).wf(),
            old(self)@.phase == Phase::Initiated,
            all_parts_done(old(self)@),
        ensures
            final(self).wf(),
            final(self)@.object_key == old(self)@.object_key,
            final(self)@.file_size == old(self)@.file_size,
            final(self)@.upload_id == old(self)@.upload_id,
            final(self)@.parts == old(self)@.parts,
            is_success_spec(code) ==> (r matches Ok(url) && url@ == cfg.object_url_spec(old(self)@.object_key)),
            is_success_spec(code) ==> final(self)@.phase == Phase::Completed,
            !is_success_spec(code) ==> (r matches Err(UploadError::Status { code: c, body: b }) && c == code && b@ == body@),
            !is_success_spec(code) ==> final(self)@.phase == Phase::Aborted,
    {
        if !is_success(code) {
            self.phase = Phase::Aborted;
            return Err(UploadError::Status { code, body });
        }
        self.phase = Phase::Completed;
        Ok(cfg.object_url(self.object_key.as_str()))
    }
}

} // verus!
