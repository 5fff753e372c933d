//! Request methods, the signature of a request, and dates.

use vstd::prelude::*;
use vstd::string::*;
use vstd::utf8::*;
use crypto::hmac::Hmac;
use crypto::mac::Mac;
use crypto::sha1::Sha1;

verus! {

broadcast use vstd::string::group_string_axioms;

/// Largest byte length (exclusive) of a key or message that the SHA-1 of `crypto`
/// counts in its 64-bit bit counter together with the 64-byte HMAC pad.
pub const HMAC_INPUT_LIMIT: u64 = 0x1000_0000_0000_0000;

/// The HTTP request methods.
#[derive(Clone, Copy, PartialEq, Eq, Debug)]
pub enum Method {
    Get,
    Post,
    Put,
    Delete,
    Head,
    Options,
    Connect,
    Patch,
    Trace,
}

/// The name of `m` as it stands in a request line.
pub open spec fn method_name(m: Method) -> Seq<char> {
    match m {
        Method::Get => "GET"@,
        Method::Post => "POST"@,
        Method::Put => "PUT"@,
        Method::Delete => "DELETE"@,
        Method::Head => "HEAD"@,
        Method::Options => "OPTIONS"@,
        Method::Connect => "CONNECT"@,
        Method::Patch => "PATCH"@,
        Method::Trace => "TRACE"@,
    }
}

impl Method {
    /// The name of the method, such as `GET`.
    pub fn as_str(&self) -> (s: &'static str)
        ensures
            s@ == method_name(*self),
    {
        match self {
            Method::Get => "GET",
            Method::Post => "POST",
            Method::Put => "PUT",
            Method::Delete => "DELETE",
            Method::Head => "HEAD",
            Method::Options => "OPTIONS",
            Method::Connect => "CONNECT",
            Method::Patch => "PATCH",
            Method::Trace => "TRACE",
        }
    }
}

// ---------------------------------------------------------------------------
// Base64
// ---------------------------------------------------------------------------

/// The character of the six-bit value `v` in the standard Base64 alphabet.
pub open spec fn base64_char(v: int) -> char {
    if v < 26 {
        (65 + v) as char
    } else if v < 52 {
        (97 + v - 26) as char
    } else if v < 62 {
        (48 + v - 52) as char
    } else if v == 62 {
        '+'
    } else {
        '/'
    }
}

/// Whether `c` is one of the 64 characters of the standard Base64 alphabet.
pub open spec fn is_base64_alphabet(c: char) -> bool {
    ||| 'A' <= c <= 'Z'
    ||| 'a' <= c <= 'z'
    ||| '0' <= c <= '9'
    ||| c == '+'
    ||| c == '/'
}

/// The number of `=` that pad the Base64 of `n` bytes.
pub open spec fn base64_padding(n: nat) -> nat {
    if n % 3 == 0 {
        0
    } else if n % 3 == 1 {
        2
    } else {
        1
    }
}

/// Standard Base64 (RFC 4648, section 4) of `b`, padded with `=`: every three bytes
/// become four characters.
pub open spec fn base64_encode(b: Seq<u8>) -> Seq<char>
    decreases b.len(),
{
    let b0 = b[0] as int;
    let b1 = b[1] as int;
    let b2 = b[2] as int;
    if b.len() == 0 {
        Seq::empty()
    } else if b.len() == 1 {
        seq![base64_char(b0 / 4), base64_char((b0 % 4) * 16), '=', '=']
    } else if b.len() == 2 {
        seq![
            base64_char(b0 / 4),
            base64_char((b0 % 4) * 16 + b1 / 16),
            base64_char((b1 % 16) * 4),
            '=',
        ]
    } else {
        seq![
            base64_char(b0 / 4),
            base64_char((b0 % 4) * 16 + b1 / 16),
            base64_char((b1 % 16) * 4 + b2 / 64),
            base64_char(b2 % 64),
        ] + base64_encode(b.subrange(3, b.len() as int))
    }
}

/// Base64 turns every started group of three bytes into four characters.
pub proof fn lemma_base64_len(b: Seq<u8>)
    ensures
        base64_encode(b).len() == 4 * ((b.len() + 2) / 3),
    decreases b.len(),
{
    if b.len() > 2 {
        lemma_base64_len(b.subrange(3, b.len() as int));
    }
}

proof fn lemma_base64_char(v: int)
    requires
        0 <= v < 64,
    ensures
        is_base64_alphabet(base64_char(v)),
{
    if v < 26 {
        assert((65 + v) as char as int == 65 + v);
    } else if v < 52 {
        assert((97 + v - 26) as char as int == 97 + v - 26);
    } else if v < 62 {
        assert((48 + v - 52) as char as int == 48 + v - 52);
    }
}

/// The Base64 of `b` is alphabet characters followed by its padding of `=`.
pub proof fn lemma_base64_shape(b: Seq<u8>)
    ensures
        forall|i: int|
            0 <= i < base64_encode(b).len() - base64_padding(b.len()) ==> is_base64_alphabet(
                #[trigger] base64_encode(b)[i],
            ),
        forall|i: int|
            base64_encode(b).len() - base64_padding(b.len()) <= i < base64_encode(b).len()
                ==> #[trigger] base64_encode(b)[i] == '=',
    decreases b.len(),
{
    lemma_base64_len(b);
    if b.len() > 0 {
        let b0 = b[0] as int;
        lemma_base64_char(b0 / 4);
        if b.len() == 1 {
            lemma_base64_char((b0 % 4) * 16);
        } else {
            let b1 = b[1] as int;
            lemma_base64_char((b0 % 4) * 16 + b1 / 16);
            if b.len() == 2 {
                lemma_base64_char((b1 % 16) * 4);
            } else {
                let b2 = b[2] as int;
                lemma_base64_char((b1 % 16) * 4 + b2 / 64);
                lemma_base64_char(b2 % 64);
                let rest = b.subrange(3, b.len() as int);
                lemma_base64_shape(rest);
                lemma_base64_len(rest);
                let head = seq![
                    base64_char(b0 / 4),
                    base64_char((b0 % 4) * 16 + b1 / 16),
                    base64_char((b1 % 16) * 4 + b2 / 64),
                    base64_char(b2 % 64),
                ];
                assert(base64_encode(b) == head + base64_encode(rest));
                assert(base64_padding(b.len()) == base64_padding(rest.len()));
                assert forall|i: int|
                    0 <= i < base64_encode(b).len() - base64_padding(b.len()) implies is_base64_alphabet(
                    #[trigger] base64_encode(b)[i],
                ) by {
                    if i >= 4 {
                        assert(base64_encode(b)[i] == base64_encode(rest)[i - 4]);
                    }
                }
                assert forall|i: int|
                    base64_encode(b).len() - base64_padding(b.len()) <= i < base64_encode(b).len()
                        implies #[trigger] base64_encode(b)[i] == '=' by {
                    assert(base64_encode(b)[i] == base64_encode(rest)[i - 4]);
                }
            }
        }
    }
}

/// `base64::encode`: the standard Base64 of the bytes, padded (the `STANDARD` config).
/// It panics when the length of the output overflows `usize`, which `requires` leaves out.
#[verifier::external_body]
fn base64_encode_bytes(input: &[u8]) -> (s: String)
    requires
        (input@.len() / 3) * 4 + 4 <= usize::MAX,
    ensures
        s@ == base64_encode(input@),
{
    base64::encode(input)
}

// ---------------------------------------------------------------------------
// HMAC-SHA1
// ---------------------------------------------------------------------------

/// The HMAC-SHA1 code (RFC 2104) of `msg` under `key`.
pub uninterp spec fn hmac_sha1(key: Seq<u8>, msg: Seq<u8>) -> Seq<u8>;

/// `crypto::hmac::Hmac::new(Sha1::new(), key)`, then `input(msg)`, then `result().code()`:
/// the HMAC-SHA1 code of `msg` under `key`, 20 bytes long (SHA-1 has 160 output bits).
/// The SHA-1 of `crypto` panics when its 64-bit bit counter overflows, which the bounds
/// of `requires` leave out.
#[verifier::external_body]
fn hmac_sha1_code(key: &[u8], msg: &[u8]) -> (code: Vec<u8>)
    requires
        key@.len() < HMAC_INPUT_LIMIT,
        msg@.len() < HMAC_INPUT_LIMIT,
    ensures
        code@ == hmac_sha1(key@, msg@),
        code@.len() == 20,
{
    let mut hasher = Hmac::new(Sha1::new(), key);
    hasher.input(msg);
    hasher.result().code().to_vec()
}

// ---------------------------------------------------------------------------
// Signing a request
// ---------------------------------------------------------------------------

/// The text of an optional header value: empty when there is none.
pub open spec fn opt_text(o: Option<String>) -> Seq<char> {
    match o {
        Some(s) => s@,
        None => Seq::empty(),
    }
}

/// The string that a request signature covers:
/// `METHOD\nMD5\nTYPE\nDATE{HEADERS}\nRESOURCE`.
pub open spec fn string_to_sign(
    method: Method,
    content_md5: Seq<char>,
    content_type: Seq<char>,
    date: Seq<char>,
    oss_headers: Seq<char>,
    resource: Seq<char>,
) -> Seq<char> {
    method_name(method) + "\n"@ + content_md5 + "\n"@ + content_type + "\n"@ + date + oss_headers
        + "\n"@ + resource
}

/// The `Authorization` header that signs `to_sign` with the access key
/// (`key_id`, `secret`): `OSS {key_id}:{signature}`, where the signature is the Base64
/// of the HMAC-SHA1 of the string's UTF-8 bytes under the secret's UTF-8 bytes.
pub open spec fn authorization(key_id: Seq<char>, secret: Seq<char>, to_sign: Seq<char>) -> Seq<char> {
    "OSS "@ + key_id + ":"@ + base64_encode(hmac_sha1(encode_utf8(secret), encode_utf8(to_sign)))
}

/// The signature covers exactly the string to sign, byte for byte: the header is
/// `OSS `, the key id, `:`, then the Base64 of the HMAC-SHA1, under the secret's UTF-8
/// bytes, of the UTF-8 bytes of `METHOD\nMD5\nTYPE\nDATE{HEADERS}\nRESOURCE`; and the
/// resource, with its query and `&`-joined subresources, ends the signed bytes unchanged.
pub proof fn lemma_authorization_signs_whole_string(
    method: Method,
    content_md5: Seq<char>,
    content_type: Seq<char>,
    date: Seq<char>,
    oss_headers: Seq<char>,
    resource: Seq<char>,
    key_id: Seq<char>,
    secret: Seq<char>,
)
    ensures
        authorization(
            key_id,
            secret,
            string_to_sign(method, content_md5, content_type, date, oss_headers, resource),
        ) == seq!['O', 'S', 'S', ' '] + key_id + seq![':'] + base64_encode(
            hmac_sha1(
                encode_utf8(secret),
                encode_utf8(
                    method_name(method) + seq!['\n'] + content_md5 + seq!['\n'] + content_type
                        + seq!['\n'] + date + oss_headers + seq!['\n'] + resource,
                ),
            ),
        ),
        ({
            let signed = encode_utf8(
                string_to_sign(method, content_md5, content_type, date, oss_headers, resource),
            );
            let r = encode_utf8(resource);
            signed.len() >= r.len() && signed.subrange(signed.len() - r.len(), signed.len() as int)
                == r
        }),
{
    reveal_strlit("\n");
    reveal_strlit("OSS ");
    reveal_strlit(":");
    assert("\n"@ =~= seq!['\n']);
    assert("OSS "@ =~= seq!['O', 'S', 'S', ' ']);
    assert(":"@ =~= seq![':']);
    let prefix = method_name(method) + "\n"@ + content_md5 + "\n"@ + content_type + "\n"@ + date
        + oss_headers + "\n"@;
    crate::text::lemma_encode_utf8_concat(prefix, resource);
    let signed = encode_utf8(prefix + resource);
    assert(signed.subrange(signed.len() - encode_utf8(resource).len(), signed.len() as int)
        =~= encode_utf8(resource));
}

fn text_or_empty(o: Option<String>) -> (s: String)
    ensures
        s@ == opt_text(o),
{
    match o {
        Some(s) => s,
        None => String::new(),
    }
}

/// Builds the `Authorization` header of a request: the signature of the request's
/// method, optional `Content-MD5` and `Content-Type`, date, optional canonical OSS
/// headers and canonical resource, under the access key.  The canonical OSS headers
/// follow the date directly and are followed by a newline, so a caller that passes
/// headers starts them with a newline (`\nx-oss-a:1\nx-oss-b:2`).  The signature is
/// the padded Base64 of the 20-byte HMAC-SHA1 code: 27 alphabet characters, then `=`.
pub fn authorize(
    method: Method,
    content_md5: Option<String>,
    content_type: Option<String>,
    date: String,
    canonicalized_oss_headers: Option<String>,
    canonicalized_resource: String,
    access_key_id: String,
    access_key_scret: String,
) -> (auth: String)
    requires
        encode_utf8(access_key_scret@).len() < HMAC_INPUT_LIMIT,
        encode_utf8(
            string_to_sign(
                method,
                opt_text(content_md5),
                opt_text(content_type),
                date@,
                opt_text(canonicalized_oss_headers),
                canonicalized_resource@,
            ),
        ).len() < HMAC_INPUT_LIMIT,
    ensures
        auth@ == authorization(
            access_key_id@,
            access_key_scret@,
            string_to_sign(
                method,
                opt_text(content_md5),
                opt_text(content_type),
                date@,
                opt_text(canonicalized_oss_headers),
                canonicalized_resource@,
            ),
        ),
        hmac_sha1(
            encode_utf8(access_key_scret@),
            encode_utf8(
                string_to_sign(
                    method,
                    opt_text(content_md5),
                    opt_text(content_type),
                    date@,
                    opt_text(canonicalized_oss_headers),
                    canonicalized_resource@,
                ),
            ),
        ).len() == 20,
        auth@.len() == access_key_id@.len() + 33,
        forall|i: int|
            access_key_id@.len() + 5 <= i < access_key_id@.len() + 32 ==> is_base64_alphabet(
                #[trigger] auth@[i],
            ),
        auth@[access_key_id@.len() + 32int] == '=',
{
    let content_md5 = text_or_empty(content_md5);
    let content_type = text_or_empty(content_type);
    let oss_headers = text_or_empty(canonicalized_oss_headers);
    let mut sign_str = method.as_str().to_owned();
    sign_str.append("\n");
    sign_str.append(content_md5.as_str());
    sign_str.append("\n");
    sign_str.append(content_type.as_str());
    sign_str.append("\n");
    sign_str.append(date.as_str());
    sign_str.append(oss_headers.as_str());
    sign_str.append("\n");
    sign_str.append(canonicalized_resource.as_str());
    let code = hmac_sha1_code(access_key_scret.as_str().as_bytes(), sign_str.as_str().as_bytes());
    let signature = base64_encode_bytes(code.as_slice());
    proof {
        lemma_base64_len(code@);
        lemma_base64_shape(code@);
        reveal_strlit("OSS ");
        reveal_strlit(":");
    }
    let mut authorization = "OSS ".to_owned();
    authorization.append(access_key_id.as_str());
    authorization.append(":");
    authorization.append(signature.as_str());
    authorization
}

// ---------------------------------------------------------------------------
// Dates
// ---------------------------------------------------------------------------

/// The IMF-fixdate text (RFC 7231, such as `Sun, 06 Nov 1994 08:49:37 GMT`) of the
/// instant `secs` seconds after the Unix epoch.
pub uninterp spec fn http_date_text(secs: u64) -> Seq<char>;

/// The fixed layout of an IMF-fixdate: 29 characters, `Www, DD Mmm YYYY HH:MM:SS GMT`,
/// with the separators at their places and ` GMT` at the end.
pub open spec fn has_imf_fixdate_layout(s: Seq<char>) -> bool {
    &&& s.len() == 29
    &&& s[3] == ','
    &&& s[4] == ' '
    &&& s[7] == ' '
    &&& s[11] == ' '
    &&& s[16] == ' '
    &&& s[19] == ':'
    &&& s[22] == ':'
    &&& s.subrange(25, 29) == seq![' ', 'G', 'M', 'T']
}

/// The first instant that `httpdate` cannot format (the year 10000).
pub const HTTP_DATE_LIMIT: u64 = 253402300800;

/// `httpdate::fmt_http_date` of the instant `secs` seconds after the Unix epoch.  It
/// panics from the year 10000 on, which `requires` leaves out.  `HttpDate`'s `Display`
/// fills the 29-byte template `   , 00     0000 00:00:00 GMT` with the day, month, year
/// and time, so the text has that layout.
#[verifier::external_body]
fn fmt_http_date_secs(secs: u64) -> (s: String)
    requires
        secs < HTTP_DATE_LIMIT,
    ensures
        s@ == http_date_text(secs),
        has_imf_fixdate_layout(s@),
{
    httpdate::fmt_http_date(std::time::UNIX_EPOCH + std::time::Duration::from_secs(secs))
}

/// The `Date` header for the instant `now_secs` seconds after the Unix epoch.
pub fn date(now_secs: u64) -> (d: String)
    requires
        now_secs < HTTP_DATE_LIMIT,
    ensures
        d@ == http_date_text(now_secs),
        has_imf_fixdate_layout(d@),
{
    fmt_http_date_secs(now_secs)
}

} // verus!
