//! Layout and signing of the requests sent to the storage service.

use vstd::prelude::*;
use vstd::string::*;
use vstd::utf8::*;
use crate::config::Info;
use crate::sign::{authorization, authorize, method_name, string_to_sign, HMAC_INPUT_LIMIT, Method};
use crate::text::{all_digits, decimal_chars, decimal_string, lemma_encode_utf8_concat, parse_u64_spec};

verus! {

broadcast use vstd::string::group_string_axioms;

/// `https://{bucket}.{endpoint}{path}`: where the object at `path` lives.
pub open spec fn object_url(bucket: Seq<char>, endpoint: Seq<char>, path: Seq<char>) -> Seq<char> {
    "https://"@ + bucket + "."@ + endpoint + path
}

/// Builds the URL of the object at `path` in the configured bucket.
pub fn url(info: &Info, path: &str) -> (u: String)
    ensures
        u@ == object_url(info.bucket@, info.endpoint@, path@),
{
    let mut u = "https://".to_owned();
    u.append(info.bucket.as_str());
    u.append(".");
    u.append(info.endpoint.as_str());
    u.append(path);
    u
}

/// `{bucket}.{endpoint}`: the `Host` header of every request.
pub open spec fn host_of(info: Info) -> Seq<char> {
    info.bucket@ + "."@ + info.endpoint@
}

/// `/{bucket}{path}{query}`: the canonical resource that a request signs.
pub open spec fn resource_of(info: Info, path: Seq<char>, query: Seq<char>) -> Seq<char> {
    "/"@ + info.bucket@ + path + query
}

/// The string that a request without `Content-MD5`, `Content-Type` or OSS headers signs.
pub open spec fn request_string_to_sign(
    info: Info,
    method: Method,
    date: Seq<char>,
    path: Seq<char>,
    query: Seq<char>,
) -> Seq<char> {
    string_to_sign(method, Seq::empty(), Seq::empty(), date, Seq::empty(), resource_of(info, path, query))
}

/// Whether the signature of such a request stays within what HMAC-SHA1 can hash.
pub open spec fn signable(
    info: Info,
    method: Method,
    date: Seq<char>,
    path: Seq<char>,
    query: Seq<char>,
) -> bool {
    &&& encode_utf8(info.access_key_scret@).len() < HMAC_INPUT_LIMIT
    &&& encode_utf8(request_string_to_sign(info, method, date, path, query)).len()
        < HMAC_INPUT_LIMIT
}

/// The length of the UTF-8 encoding of `s`.
fn utf8_len(s: &str) -> (n: u128)
    ensures
        n == encode_utf8(s@).len(),
        n <= usize::MAX,
{
    let l: usize = s.as_bytes().len();
    l as u128
}

/// Whether a request `method` on the object at `path` with the query `query`, dated
/// `date`, can be signed with the access key of `info` (`signable`).
pub fn is_signable(info: &Info, method: Method, date: &str, path: &str, query: &str) -> (b: bool)
    ensures
        b == signable(*info, method, date@, path@, query@),
{
    let total: u128 = utf8_len(method.as_str()) + 3 + utf8_len(date) + 1 + 1
        + utf8_len(info.bucket.as_str()) + utf8_len(path) + utf8_len(query);
    proof {
        let e = Seq::<char>::empty();
        let nl = "\n"@;
        let sl = "/"@;
        reveal_strlit("\n");
        reveal_strlit("/");
        vstd::utf8::is_ascii_chars_encode_utf8(nl);
        vstd::utf8::is_ascii_chars_encode_utf8(sl);
        let res = resource_of(*info, path@, query@);
        lemma_encode_utf8_concat(sl, info.bucket@);
        lemma_encode_utf8_concat(sl + info.bucket@, path@);
        lemma_encode_utf8_concat(sl + info.bucket@ + path@, query@);
        let m = method_name(method);
        lemma_encode_utf8_concat(m, nl);
        lemma_encode_utf8_concat(m + nl, e);
        lemma_encode_utf8_concat(m + nl + e, nl);
        lemma_encode_utf8_concat(m + nl + e + nl, e);
        lemma_encode_utf8_concat(m + nl + e + nl + e, nl);
        lemma_encode_utf8_concat(m + nl + e + nl + e + nl, date@);
        lemma_encode_utf8_concat(m + nl + e + nl + e + nl + date@, e);
        lemma_encode_utf8_concat(m + nl + e + nl + e + nl + date@ + e, nl);
        lemma_encode_utf8_concat(m + nl + e + nl + e + nl + date@ + e + nl, res);
        assert(encode_utf8(e).len() == 0);
    }
    utf8_len(info.access_key_scret.as_str()) < HMAC_INPUT_LIMIT as u128 && total < HMAC_INPUT_LIMIT as u128
}

/// A signed request to the storage service: what goes on the request line and in the
/// `Date`, `Host`, `Authorization` and (for uploads of parts) `Content-Length` headers.
pub struct OssRequest {
    pub method: Method,
    pub url: String,
    pub date: String,
    pub host: String,
    pub authorization: String,
    pub content_length: Option<String>,
}

/// `request` is the request `method` on the object at `path` with the query `query`,
/// dated `date` and signed with the access key of `info`: its URL and the resource
/// it signs both end in `path` followed by `query`.
pub open spec fn is_signed_request(
    request: OssRequest,
    info: Info,
    method: Method,
    date: Seq<char>,
    path: Seq<char>,
    query: Seq<char>,
) -> bool {
    &&& request.method == method
    &&& request.url@ == object_url(info.bucket@, info.endpoint@, path) + query
    &&& request.date@ == date
    &&& request.host@ == host_of(info)
    &&& request.authorization@ == authorization(
        info.access_key_id@,
        info.access_key_scret@,
        request_string_to_sign(info, method, date, path, query),
    )
}

/// The request `method` on the object at `path` with the query `query`
/// (empty, or starting with `?`), dated `date` and signed with the access key of `info`.
pub fn signed_request(info: &Info, method: Method, date: &String, path: &str, query: &str) -> (r: OssRequest)
    requires
        signable(*info, method, date@, path@, query@),
    ensures
        is_signed_request(r, *info, method, date@, path@, query@),
        r.content_length is None,
{
    let mut host = info.bucket.clone();
    host.append(".");
    host.append(info.endpoint.as_str());
    let mut resource = "/".to_owned();
    resource.append(info.bucket.as_str());
    resource.append(path);
    resource.append(query);
    let auth = authorize(
        method,
        None,
        None,
        date.clone(),
        None,
        resource,
        info.access_key_id.clone(),
        info.access_key_scret.clone(),
    );
    let mut u = url(info, path);
    u.append(query);
    OssRequest {
        method,
        url: u,
        date: date.clone(),
        host,
        authorization: auth,
        content_length: None,
    }
}

/// A signed request addresses the very object it signs: its URL is `https://`, the
/// `Host` header, then `path` and `query`, and the resource its signature covers is
/// `/`, the bucket, then the same `path` and `query`.
pub proof fn lemma_request_addresses_signed_resource(
    r: OssRequest,
    info: Info,
    method: Method,
    date: Seq<char>,
    path: Seq<char>,
    query: Seq<char>,
)
    requires
        is_signed_request(r, info, method, date, path, query),
    ensures
        r.url@ == "https://"@ + r.host@ + (path + query),
        r.host@ == info.bucket@ + "."@ + info.endpoint@,
        resource_of(info, path, query) == "/"@ + info.bucket@ + (path + query),
        r.authorization@ == authorization(
            info.access_key_id@,
            info.access_key_scret@,
            string_to_sign(method, Seq::empty(), Seq::empty(), date, Seq::empty(), resource_of(info, path, query)),
        ),
{
    assert(r.url@ =~= "https://"@ + r.host@ + (path + query));
    assert(resource_of(info, path, query) =~= "/"@ + info.bucket@ + (path + query));
}

/// `?uploadId={upload_id}`
pub open spec fn upload_id_query(upload_id: Seq<char>) -> Seq<char> {
    "?uploadId="@ + upload_id
}

/// `?partNumber={part_num}&uploadId={upload_id}`
pub open spec fn part_query(part_num: int, upload_id: Seq<char>) -> Seq<char> {
    "?partNumber="@ + int_chars(part_num) + "&uploadId="@ + upload_id
}

/// The part number travels in an UploadPart query as itself: for every part number
/// `n >= 0` the query is `?partNumber=`, a run of digits that reads back as `n`,
/// `&uploadId=` and the upload id.
pub proof fn lemma_part_query_carries_part_number(part_num: i32, upload_id: Seq<char>)
    requires
        part_num >= 0,
    ensures
        exists|d: Seq<char>|
            part_query(part_num as int, upload_id) == seq![
                '?',
                'p',
                'a',
                'r',
                't',
                'N',
                'u',
                'm',
                'b',
                'e',
                'r',
                '=',
            ] + d + seq!['&', 'u', 'p', 'l', 'o', 'a', 'd', 'I', 'd', '='] + upload_id
                && all_digits(d) && parse_u64_spec(d) == Some(part_num as u64),
{
    reveal_strlit("?partNumber=");
    reveal_strlit("&uploadId=");
    let d = decimal_chars(part_num as nat);
    crate::text::lemma_decimal_parse_roundtrip(part_num as u64);
    crate::text::lemma_decimal_digits(part_num as nat);
    assert("?partNumber="@ =~= seq!['?', 'p', 'a', 'r', 't', 'N', 'u', 'm', 'b', 'e', 'r', '=']);
    assert("&uploadId="@ =~= seq!['&', 'u', 'p', 'l', 'o', 'a', 'd', 'I', 'd', '=']);
    assert(all_digits(d));
}

/// The decimal text of the integer `n`, with a leading `-` when it is negative.
pub open spec fn int_chars(n: int) -> Seq<char> {
    if n < 0 {
        "-"@ + decimal_chars((-n) as nat)
    } else {
        decimal_chars(n as nat)
    }
}

/// Writes `n` in decimal, the way `i32::to_string` does.
pub fn i32_string(n: i32) -> (s: String)
    ensures
        s@ == int_chars(n as int),
{
    if n < 0 {
        let mut s = "-".to_owned();
        let m = decimal_string((-(n as i64)) as u64);
        s.append(m.as_str());
        s
    } else {
        decimal_string(n as u64)
    }
}

/// InitiateMultipartUpload: `POST {path}?uploads`.
pub fn init_upload_request(info: &Info, date: &String, path: &str) -> (r: OssRequest)
    requires
        signable(*info, Method::Post, date@, path@, "?uploads"@),
    ensures
        is_signed_request(r, *info, Method::Post, date@, path@, "?uploads"@),
        r.content_length is None,
{
    signed_request(info, Method::Post, date, path, "?uploads")
}

/// UploadPart: `PUT {path}?partNumber={part_num}&uploadId={upload_id}`, with the
/// length in bytes of the part as `Content-Length`.
pub fn upload_part_request(
    info: &Info,
    date: &String,
    path: &str,
    upload_id: &str,
    part_num: i32,
    length: usize,
) -> (r: OssRequest)
    requires
        signable(*info, Method::Put, date@, path@, part_query(part_num as int, upload_id@)),
    ensures
        is_signed_request(r, *info, Method::Put, date@, path@, part_query(part_num as int, upload_id@)),
        r.content_length matches Some(l) && l@ == decimal_chars(length as nat),
{
    let mut query = "?partNumber=".to_owned();
    let number = i32_string(part_num);
    query.append(number.as_str());
    query.append("&uploadId=");
    query.append(upload_id);
    let mut r = signed_request(info, Method::Put, date, path, query.as_str());
    r.content_length = Some(decimal_string(length as u64));
    r
}

/// CompleteMultipartUpload: `POST {path}?uploadId={upload_id}`; its body is
/// `create_xml` of the parts' ETags.
pub fn complete_upload_request(info: &Info, date: &String, path: &str, upload_id: &str) -> (r: OssRequest)
    requires
        signable(*info, Method::Post, date@, path@, upload_id_query(upload_id@)),
    ensures
        is_signed_request(r, *info, Method::Post, date@, path@, upload_id_query(upload_id@)),
        r.content_length is None,
{
    let mut query = "?uploadId=".to_owned();
    query.append(upload_id);
    signed_request(info, Method::Post, date, path, query.as_str())
}

/// GetObject: `GET {src}`.
pub fn get_request(info: &Info, date: &String, src: &str) -> (r: OssRequest)
    requires
        signable(*info, Method::Get, date@, src@, Seq::empty()),
    ensures
        is_signed_request(r, *info, Method::Get, date@, src@, Seq::empty()),
        r.content_length is None,
{
    proof {
        reveal_strlit("");
    }
    assert(""@ =~= Seq::<char>::empty());
    signed_request(info, Method::Get, date, src, "")
}

/// HeadObject: `HEAD {path}`.
pub fn head_request(info: &Info, date: &String, path: &str) -> (r: OssRequest)
    requires
        signable(*info, Method::Head, date@, path@, Seq::empty()),
    ensures
        is_signed_request(r, *info, Method::Head, date@, path@, Seq::empty()),
        r.content_length is None,
{
    proof {
        reveal_strlit("");
    }
    assert(""@ =~= Seq::<char>::empty());
    signed_request(info, Method::Head, date, path, "")
}

} // verus!
