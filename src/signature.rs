use vstd::prelude::*;
use vstd::utf8::encode_utf8;

use crate::canonical::{canonical_names, canonical_pairs, canonicalize, lowered_names_distinct, pair_views, Pair};
use crate::codec::{hex_chars, hex_lower, is_lower_hex, lemma_hex_chars, i64_decimal, lower_of, lowercase, signed_decimal};

verus! {

/// What HMAC-SHA1 yields for a key and a message.
pub uninterp spec fn hmac_sha1_of(key: Seq<u8>, message: Seq<u8>) -> Seq<u8>;

/// What SHA-1 yields for a message.
pub uninterp spec fn sha1_of(message: Seq<u8>) -> Seq<u8>;

/// Relies on hmac's `Hmac<Sha1>`: the 20-byte HMAC-SHA1 tag of `message` under
/// `key`. Keys of any length are accepted, so the key set-up does not fail.
#[verifier::external_body]
fn hmac_sha1_tag(key: &[u8], message: &[u8]) -> (r: Vec<u8>)
    ensures
        r@ == hmac_sha1_of(key@, message@),
        r@.len() == 20,
{
    let mut mac = <hmac::Hmac<sha1::Sha1> as hmac::Mac>::new_from_slice(key).unwrap();
    hmac::Mac::update(&mut mac, message);
    hmac::Mac::finalize(mac).into_bytes().to_vec()
}

/// Relies on sha1's `Sha1`: the 20-byte SHA-1 digest of `message`.
#[verifier::external_body]
fn sha1_bytes(message: &[u8]) -> (r: Vec<u8>)
    ensures
        r@ == sha1_of(message@),
        r@.len() == 20,
{
    <sha1::Sha1 as sha1::Digest>::digest(message).to_vec()
}

/// Relies on chrono's `Utc::now`: the current time in whole seconds since the
/// Unix epoch. It never precedes the epoch, and chrono's dates stop at day
/// `i32::MAX`, which bounds it from above.
#[verifier::external_body]
fn unix_now() -> (r: i64)
    ensures
        0 <= r <= 200_000_000_000_000,
{
    chrono::Utc::now().timestamp()
}

/// Lowercase hex of the HMAC-SHA1 of two texts' UTF-8 forms.
pub open spec fn hmac_sha1_hex(key: Seq<char>, message: Seq<char>) -> Seq<char> {
    hex_chars(hmac_sha1_of(encode_utf8(key), encode_utf8(message)))
}

/// Lowercase hex of the SHA-1 of a text's UTF-8 form.
pub open spec fn sha1_hex(message: Seq<char>) -> Seq<char> {
    hex_chars(sha1_of(encode_utf8(message)))
}

/// HMAC-SHA1 of `message` under `key`, as 40 lowercase hex digits.
pub fn hmac_sha1(key: &str, message: &str) -> (r: String)
    ensures
        r@ == hmac_sha1_hex(key@, message@),
        r@.len() == 40,
        is_lower_hex(r@),
{
    let tag = hmac_sha1_tag(key.as_bytes(), message.as_bytes());
    proof {
        lemma_hex_chars(tag@);
    }
    hex_lower(tag.as_slice())
}

/// SHA-1 of `message`, as 40 lowercase hex digits.
pub fn sha1_digest(message: &str) -> (r: String)
    ensures
        r@ == sha1_hex(message@),
        r@.len() == 40,
        is_lower_hex(r@),
{
    let digest = sha1_bytes(message.as_bytes());
    proof {
        lemma_hex_chars(digest@);
    }
    hex_lower(digest.as_slice())
}

/// HMAC-SHA1 and SHA-1 are functions of their inputs: the same key and
/// message give the same hex digest on every call.
pub proof fn lemma_digests_deterministic(key1: Seq<char>, message1: Seq<char>, key2: Seq<char>, message2: Seq<char>)
    requires
        key1 == key2,
        message1 == message2,
    ensures
        hmac_sha1_hex(key1, message1) == hmac_sha1_hex(key2, message2),
        sha1_hex(message1) == sha1_hex(message2),
{
}

/// The signing window `start;end`.
pub open spec fn key_time_text(start: int, end: int) -> Seq<char> {
    signed_decimal(start) + ";"@ + signed_decimal(end)
}

/// The canonical request: method, path, parameters and headers, one per line.
pub open spec fn http_string(method: Seq<char>, path: Seq<char>, params: Seq<Pair>, headers: Seq<Pair>) -> Seq<char> {
    lower_of(method) + "\n"@ + path + "\n"@ + canonical_pairs(params) + "\n"@ + canonical_pairs(headers) + "\n"@
}

/// The text that the derived key signs.
pub open spec fn string_to_sign(key_time: Seq<char>, http: Seq<char>) -> Seq<char> {
    "sha1\n"@ + key_time + "\n"@ + sha1_hex(http) + "\n"@
}

/// The authorization token for a request whose signing window opens at `start`
/// and lasts `expire` seconds, when the names of each map lower-case distinctly.
pub open spec fn token_text(
    secret_id: Seq<char>,
    secret_key: Seq<char>,
    method: Seq<char>,
    path: Seq<char>,
    params: Seq<Pair>,
    headers: Seq<Pair>,
    start: int,
    expire: int,
) -> Seq<char> {
    let key_time = key_time_text(start, start + expire);
    let sign_key = hmac_sha1_hex(secret_key, key_time);
    let signature = hmac_sha1_hex(sign_key, string_to_sign(key_time, http_string(method, path, params, headers)));
    "q-sign-algorithm=sha1&q-ak="@ + secret_id + "&q-sign-time="@ + key_time + "&q-key-time="@ + key_time
        + "&q-header-list="@ + canonical_names(headers) + "&q-url-param-list="@ + canonical_names(params)
        + "&q-signature="@ + signature
}

/// A token can be made: both maps canonicalise and the window's end fits an i64.
pub open spec fn signable(params: Seq<Pair>, headers: Seq<Pair>, start: int, expire: int) -> bool {
    &&& lowered_names_distinct(params)
    &&& lowered_names_distinct(headers)
    &&& i64::MIN <= start + expire <= i64::MAX
}

/// The authorization token for a signing window opening at `start_time`.
/// `None` when two names of a map lower-case alike or the window's end
/// overflows.
pub fn authorization_at(
    secret_id: &str,
    secret_key: &str,
    method: &str,
    path: &str,
    params: &Vec<(String, String)>,
    headers: &Vec<(String, String)>,
    start_time: i64,
    expire: i64,
) -> (r: Option<String>)
    ensures
        r is Some <==> signable(pair_views(params@), pair_views(headers@), start_time as int, expire as int),
        r matches Some(t) ==> t@ == token_text(
            secret_id@,
            secret_key@,
            method@,
            path@,
            pair_views(params@),
            pair_views(headers@),
            start_time as int,
            expire as int,
        ),
{
    let end_time = match start_time.checked_add(expire) {
        Some(e) => e,
        None => return None,
    };
    let mut key_time = i64_decimal(start_time);
    key_time.append(";");
    let end_text = i64_decimal(end_time);
    key_time.append(end_text.as_str());

    let (param_names, param_pairs) = match canonicalize(params) {
        Some(c) => c,
        None => return None,
    };
    let (header_names, header_pairs) = match canonicalize(headers) {
        Some(c) => c,
        None => return None,
    };

    let sign_key = hmac_sha1(secret_key, key_time.as_str());

    let mut http = lowercase(method);
    http.append("\n");
    http.append(path);
    http.append("\n");
    http.append(param_pairs.as_str());
    http.append("\n");
    http.append(header_pairs.as_str());
    http.append("\n");

    let http_hash = sha1_digest(http.as_str());
    let mut to_sign = String::from_str("sha1\n");
    to_sign.append(key_time.as_str());
    to_sign.append("\n");
    to_sign.append(http_hash.as_str());
    to_sign.append("\n");

    let signature = hmac_sha1(sign_key.as_str(), to_sign.as_str());

    let mut token = String::from_str("q-sign-algorithm=sha1&q-ak=");
    token.append(secret_id);
    token.append("&q-sign-time=");
    token.append(key_time.as_str());
    token.append("&q-key-time=");
    token.append(key_time.as_str());
    token.append("&q-header-list=");
    token.append(header_names.as_str());
    token.append("&q-url-param-list=");
    token.append(param_names.as_str());
    token.append("&q-signature=");
    token.append(signature.as_str());
    Some(token)
}

/// The authorization token for a window that opens now and lasts `expire`
/// seconds: the token of `authorization_at` for whatever time the clock gave.
pub fn generate_authorization(
    secret_id: &str,
    secret_key: &str,
    method: &str,
    path: &str,
    params: &Vec<(String, String)>,
    headers: &Vec<(String, String)>,
    expire: i64,
) -> (r: Option<String>)
    ensures
        exists|now: i64| {
            &&& (r is Some <==> signable(pair_views(params@), pair_views(headers@), now as int, expire as int))
            &&& (r matches Some(t) ==> t@ == token_text(
                secret_id@,
                secret_key@,
                method@,
                path@,
                pair_views(params@),
                pair_views(headers@),
                now as int,
                expire as int,
            ))
        },
        0 <= expire <= 1_000_000_000 ==> (r is Some <==> (lowered_names_distinct(pair_views(params@))
            && lowered_names_distinct(pair_views(headers@)))),
{
    let now = unix_now();
    authorization_at(secret_id, secret_key, method, path, params, headers, now, expire)
}

} // verus!
