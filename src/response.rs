use vstd::prelude::*;

use crate::request::UploadError;

verus! {

/// `pat` occurs in `t` at position `i`.
pub open spec fn occurs_at(t: Seq<char>, pat: Seq<char>, i: int) -> bool {
    0 <= i && i + pat.len() <= t.len() && t.subrange(i, i + pat.len()) == pat
}

/// `i` is the first position at or after `from` where `pat` occurs in `t`.
pub open spec fn first_occurrence(t: Seq<char>, pat: Seq<char>, from: int, i: int) -> bool {
    &&& from <= i
    &&& occurs_at(t, pat, i)
    &&& forall|k: int| from <= k < i ==> !#[trigger] occurs_at(t, pat, k)
}

/// Whether `pat` occurs in `t` at position `i`.
fn occurs_at_exec(t: &str, tlen: usize, pat: &str, plen: usize, i: usize) -> (r: bool)
    requires
        tlen == t@.len(),
        plen == pat@.len(),
    ensures
        r == occurs_at(t@, pat@, i as int),
{
    if i > tlen || plen > tlen - i {
        return false;
    }
    let mut k: usize = 0;
    while k < plen
        invariant
            i + plen <= tlen,
            tlen == t@.len(),
            plen == pat@.len(),
            0 <= k <= plen,
            t@.subrange(i as int, i + k) == pat@.subrange(0, k as int),
        decreases plen - k,
    {
        if t.get_char(i + k) != pat.get_char(k) {
            assert(t@.subrange(i as int, i + plen)[k as int] != pat@[k as int]);
            return false;
        }
        assert(t@.subrange(i as int, i + k + 1) =~= t@.subrange(i as int, i + k).push(t@[i + k]));
        assert(pat@.subrange(0, k + 1) =~= pat@.subrange(0, k as int).push(pat@[k as int]));
        k = k + 1;
    }
    assert(pat@.subrange(0, plen as int) =~= pat@);
    true
}

/// The first position at or after `from` where `pat` occurs in `t`.
fn find_from(t: &str, pat: &str, from: usize) -> (r: Option<usize>)
    ensures
        r matches Some(i) ==> first_occurrence(t@, pat@, from as int, i as int),
        r is None ==> forall|k: int| from <= k ==> !#[trigger] occurs_at(t@, pat@, k),
{
    let tlen = t.unicode_len();
    let plen = pat.unicode_len();
    if plen > tlen || from > tlen - plen {
        return None;
    }
    let last = tlen - plen;
    let mut i: usize = from;
    loop
        invariant
            tlen == t@.len(),
            plen == pat@.len(),
            last == tlen - plen,
            from <= i <= last,
            forall|k: int| from <= k < i ==> !#[trigger] occurs_at(t@, pat@, k),
        decreases last - i,
    {
        if occurs_at_exec(t, tlen, pat, plen, i) {
            return Some(i);
        }
        if i == last {
            return None;
        }
        i = i + 1;
    }
}

/// The upload id carried by an answer: the text between the first
/// `<UploadId>` and the first `</UploadId>` after it.
pub open spec fn upload_id_at(t: Seq<char>, i: int, j: int) -> bool {
    &&& first_occurrence(t, "<UploadId>"@, 0, i)
    &&& first_occurrence(t, "</UploadId>"@, i + "<UploadId>"@.len(), j)
}

/// The upload id of an answer to the initiation of a multipart upload:
/// the text between the first `<UploadId>` and the `</UploadId>` that
/// follows it. `MissingUploadId`, carrying the answer, when either marker
/// is absent.
pub fn parse_upload_id(body: &str) -> (r: Result<String, UploadError>)
    ensures
        r is Ok <==> exists|i: int, j: int| upload_id_at(body@, i, j),
        r matches Ok(id) ==> exists|i: int, j: int|
            upload_id_at(body@, i, j) && id@ == body@.subrange(i + "<UploadId>"@.len(), j),
        r matches Err(e) ==> (e matches UploadError::MissingUploadId { body: b } && b@ == body@),
{
    let open = "<UploadId>";
    let close = "</UploadId>";
    let i = match find_from(body, open, 0) {
        Some(i) => i,
        None => {
            assert forall|a: int, b: int| !upload_id_at(body@, a, b) by {
                if upload_id_at(body@, a, b) {
                    assert(occurs_at(body@, open@, a));
                }
            }
            return Err(UploadError::MissingUploadId { body: String::from_str(body) });
        },
    };
    let olen = open.unicode_len();
    let body_len = body.unicode_len();
    assert(i + olen <= body_len);
    let start = i + olen;
    let j = match find_from(body, close, start) {
        Some(j) => j,
        None => {
            assert forall|a: int, b: int| !upload_id_at(body@, a, b) by {
                if upload_id_at(body@, a, b) {
                    if a < i {
                        assert(!occurs_at(body@, open@, a));
                    } else if a > i {
                        assert(!occurs_at(body@, open@, i as int));
                    }
                    assert(occurs_at(body@, close@, b));
                }
            }
            return Err(UploadError::MissingUploadId { body: String::from_str(body) });
        },
    };
    assert(upload_id_at(body@, i as int, j as int));
    let id = String::from_str(body.substring_char(start, j));
    Ok(id)
}

} // verus!
