//! Reading the upload id out of an InitiateMultipartUpload reply.

use vstd::prelude::*;
use vstd::string::*;
use vstd::utf8::*;
use quick_xml::Reader;
use quick_xml::events::{BytesText, Event};

verus! {

broadcast use vstd::string::group_string_axioms;

// ---------------------------------------------------------------------------
// Reading XML
// ---------------------------------------------------------------------------

/// What the library reads of an event of `quick_xml::Reader::read_event`.
pub enum XmlToken {
    /// `Ok(Event::Start(e))`, with `e.name()`.
    Start(Seq<u8>),
    /// `Ok(Event::End(e))`, with `e.name()`.
    End(Seq<u8>),
    /// `Ok(Event::Text(e))`, with the escaped text `e.escaped()`.
    Text(Seq<u8>),
    /// `Ok(Event::Eof)`.
    Eof,
    /// Any other event (empty element, comment, CDATA, declaration, ...).
    Other,
    /// `Err(_)`.
    Error,
}

/// An event of `quick_xml::Reader::read_event`, as the library reads it.
pub enum XmlEvent {
    Start(Vec<u8>),
    End(Vec<u8>),
    Text(Vec<u8>),
    Eof,
    Other,
    Error,
}

impl View for XmlEvent {
    type V = XmlToken;

    open spec fn view(&self) -> XmlToken {
        match self {
            XmlEvent::Start(n) => XmlToken::Start(n@),
            XmlEvent::End(n) => XmlToken::End(n@),
            XmlEvent::Text(t) => XmlToken::Text(t@),
            XmlEvent::Eof => XmlToken::Eof,
            XmlEvent::Other => XmlToken::Other,
            XmlEvent::Error => XmlToken::Error,
        }
    }
}

/// The event that the `index`-th call of `read_event` (counting from 0) returns on a
/// `quick_xml::Reader::from_str` over a text whose UTF-8 bytes are `input`, with the
/// reader's default settings.
pub uninterp spec fn xml_event_at(input: Seq<u8>, index: nat) -> XmlToken;

/// What `BytesText::unescape_and_decode` makes of the escaped text `raw` (built without
/// the `encoding` feature): the text with entity and character references replaced,
/// when `raw` is valid UTF-8 and every reference is well formed.
pub uninterp spec fn xml_text_decode(raw: Seq<u8>) -> Option<Seq<char>>;

/// A `quick_xml::Reader` over a string.  Verus refuses a declaration of
/// `quick_xml::Reader` (its parameter is bound by `std::io::BufRead`), so the reader is
/// held in this opaque struct.
#[verifier::external_body]
pub struct XmlReaderCore<'a> {
    inner: Reader<&'a [u8]>,
}

/// A reader of XML events over the bytes `input`, of which `count` events were read.
pub struct XmlEventReader<'a> {
    core: XmlReaderCore<'a>,
    input: Ghost<Seq<u8>>,
    count: Ghost<nat>,
}

impl<'a> View for XmlEventReader<'a> {
    type V = (Seq<u8>, nat);

    closed spec fn view(&self) -> (Seq<u8>, nat) {
        (self.input@, self.count@)
    }
}

/// `quick_xml::Reader::from_str`: a reader over the UTF-8 bytes of `s` that has read
/// no event yet.
#[verifier::external_body]
fn xml_reader_from_str<'a>(s: &'a str) -> (r: XmlEventReader<'a>)
    ensures
        r@ == (s.spec_bytes(), 0nat),
{
    XmlEventReader {
        core: XmlReaderCore { inner: Reader::from_str(s) },
        input: Ghost(s.spec_bytes()),
        count: Ghost(0nat),
    }
}

/// `quick_xml::Reader::read_event`: the next event, as `xml_event_at` names it.  Every
/// event but `Eof` consumes at least one byte of the input, and after `Eof` or an error
/// the reader only returns `Eof`; so from the event of index `input.len() + 1` on,
/// every event is `Eof`.
#[verifier::external_body]
fn xml_read_event(r: &mut XmlEventReader) -> (ev: XmlEvent)
    ensures
        ev@ == xml_event_at(old(r)@.0, old(r)@.1),
        final(r)@ == (old(r)@.0, old(r)@.1 + 1),
        old(r)@.1 > old(r)@.0.len() ==> ev@ == XmlToken::Eof,
{
    let mut buf = Vec::new();
    match r.core.inner.read_event(&mut buf) {
        Ok(Event::Start(e)) => XmlEvent::Start(e.name().to_vec()),
        Ok(Event::End(e)) => XmlEvent::End(e.name().to_vec()),
        Ok(Event::Text(e)) => XmlEvent::Text(e.escaped().to_vec()),
        Ok(Event::Eof) => XmlEvent::Eof,
        Ok(_) => XmlEvent::Other,
        Err(_) => XmlEvent::Error,
    }
}

/// `BytesText::unescape_and_decode` of the escaped text `raw`, read with `r`.
#[verifier::external_body]
fn xml_text_value(r: &XmlEventReader, raw: &Vec<u8>) -> (s: Option<String>)
    ensures
        s matches Some(v) ==> xml_text_decode(raw@) == Some(v@),
        s is None ==> xml_text_decode(raw@) is None,
{
    BytesText::from_escaped(raw.as_slice()).unescape_and_decode(&r.core.inner).ok()
}

// ---------------------------------------------------------------------------
// The UploadId of an InitiateMultipartUpload reply
// ---------------------------------------------------------------------------

/// The UTF-8 bytes of the element name `UploadId`.
pub open spec fn upload_id_name() -> Seq<u8> {
    "UploadId".spec_bytes()
}

/// What reading an InitiateMultipartUpload reply gives.
pub enum UploadIdScan {
    /// The text of the first `UploadId` element.
    Found(Seq<char>),
    /// The reader reached the end without meeting an `UploadId` element.
    Missing,
    /// An `UploadId` element was met, but its text could not be read: it is not
    /// followed by text or by its end tag, its text is not valid, or the element
    /// is never closed.
    Malformed,
}

/// Whether, from event `k` on, the reader finds the end tag `name` that closes the
/// element opened before event `k`, with `depth` elements of the same name still open
/// inside it (`Reader::read_to_end`).
pub open spec fn closes_at_end(input: Seq<u8>, name: Seq<u8>, k: nat, depth: nat) -> bool
    decreases input.len() + 2 - k,
{
    if k > input.len() + 1 {
        false
    } else {
        match xml_event_at(input, k) {
            XmlToken::End(n) => if n == name {
                if depth == 0 {
                    true
                } else {
                    closes_at_end(input, name, k + 1, (depth - 1) as nat)
                }
            } else {
                closes_at_end(input, name, k + 1, depth)
            },
            XmlToken::Start(n) => if n == name {
                closes_at_end(input, name, k + 1, depth + 1)
            } else {
                closes_at_end(input, name, k + 1, depth)
            },
            XmlToken::Eof => false,
            XmlToken::Error => false,
            _ => closes_at_end(input, name, k + 1, depth),
        }
    }
}

/// The text of the `UploadId` element opened just before event `k`
/// (`Reader::read_text`): the unescaped text event, provided the element is then
/// closed, or the empty text when the end tag follows at once.
pub open spec fn upload_id_text(input: Seq<u8>, k: nat) -> UploadIdScan {
    match xml_event_at(input, k) {
        XmlToken::Text(raw) => if closes_at_end(input, upload_id_name(), k + 1, 0) {
            match xml_text_decode(raw) {
                Some(s) => UploadIdScan::Found(s),
                None => UploadIdScan::Malformed,
            }
        } else {
            UploadIdScan::Malformed
        },
        XmlToken::End(n) => if n == upload_id_name() {
            UploadIdScan::Found(Seq::empty())
        } else {
            UploadIdScan::Malformed
        },
        _ => UploadIdScan::Malformed,
    }
}

/// Reading events from event `k` on: the first `UploadId` start tag decides, the end
/// of the input gives `Missing`, every other event is passed over.
pub open spec fn upload_id_from(input: Seq<u8>, k: nat) -> UploadIdScan
    decreases input.len() + 2 - k,
{
    if k > input.len() + 1 {
        UploadIdScan::Missing
    } else {
        match xml_event_at(input, k) {
            XmlToken::Start(n) => if n == upload_id_name() {
                upload_id_text(input, k + 1)
            } else {
                upload_id_from(input, k + 1)
            },
            XmlToken::Eof => UploadIdScan::Missing,
            _ => upload_id_from(input, k + 1),
        }
    }
}

/// What an InitiateMultipartUpload reply `body` gives for its upload id.
pub open spec fn upload_id_scan(body: Seq<char>) -> UploadIdScan {
    upload_id_from(encode_utf8(body), 0)
}

proof fn lemma_upload_id_from_skips(input: Seq<u8>, j: nat, k: nat)
    requires
        j <= k <= input.len() + 1,
        forall|i: nat|
            j <= i < k ==> {
                &&& !(#[trigger] xml_event_at(input, i) is Eof)
                &&& xml_event_at(input, i) != XmlToken::Start(upload_id_name())
            },
    ensures
        upload_id_from(input, j) == upload_id_from(input, k),
    decreases k - j,
{
    if j < k {
        lemma_upload_id_from_skips(input, j + 1, k);
        assert(!(xml_event_at(input, j) is Eof));
    }
}

/// The reply gives the text of its first `UploadId` element, however long the reply:
/// when, reading the events of `body` from the start, no `UploadId` start tag and no
/// end of input comes before event `k`, event `k` is the `UploadId` start tag, event
/// `k + 1` is text that decodes to `s`, and the element is then closed, the upload id
/// is `s`.  When instead the input ends at event `k` with no `UploadId` start tag
/// before, there is none.
pub proof fn lemma_upload_id_is_first_element_text(body: Seq<char>, k: nat, raw: Seq<u8>, s: Seq<char>)
    requires
        k <= encode_utf8(body).len(),
        forall|i: nat|
            i < k ==> {
                &&& !(#[trigger] xml_event_at(encode_utf8(body), i) is Eof)
                &&& xml_event_at(encode_utf8(body), i) != XmlToken::Start(
                    "UploadId".spec_bytes(),
                )
            },
    ensures
        xml_event_at(encode_utf8(body), k) == XmlToken::Start("UploadId".spec_bytes())
            && xml_event_at(encode_utf8(body), k + 1) == XmlToken::Text(raw) && closes_at_end(
            encode_utf8(body),
            "UploadId".spec_bytes(),
            k + 2,
            0,
        ) && xml_text_decode(raw) == Some(s) ==> upload_id_scan(body) == UploadIdScan::Found(s),
        xml_event_at(encode_utf8(body), k) == XmlToken::Eof ==> upload_id_scan(body)
            == UploadIdScan::Missing,
{
    lemma_upload_id_from_skips(encode_utf8(body), 0, k);
}

/// Whether two byte strings are equal.
fn bytes_equal(a: &[u8], b: &[u8]) -> (r: bool)
    ensures
        r == (a@ == b@),
{
    if a.len() != b.len() {
        return false;
    }
    let mut i: usize = 0;
    while i < a.len()
        invariant
            a@.len() == b@.len(),
            i <= a@.len(),
            forall|j: int| 0 <= j < i ==> a@[j] == b@[j],
        decreases a@.len() - i,
    {
        if a[i] != b[i] {
            return false;
        }
        i = i + 1;
    }
    assert(a@ =~= b@);
    true
}

/// Reads on to the end tag `name` of the element whose start tag was read before,
/// with `depth` elements of the same name open inside it, skipping nested elements of
/// the same name (`Reader::read_to_end`).
fn read_to_end(r: &mut XmlEventReader, name: &[u8], depth: usize) -> (ok: bool)
    requires
        old(r)@.0.len() <= usize::MAX,
        1 <= old(r)@.1 <= old(r)@.0.len() + 1,
        depth < old(r)@.1,
    ensures
        ok == closes_at_end(old(r)@.0, name@, old(r)@.1, depth as nat),
        final(r)@.0 == old(r)@.0,
    decreases old(r)@.0.len() + 1 - old(r)@.1,
{
    let ghost k = r@.1;
    let ev = xml_read_event(r);
    match ev {
        XmlEvent::End(n) => {
            if bytes_equal(n.as_slice(), name) {
                if depth == 0 {
                    true
                } else {
                    read_to_end(r, name, depth - 1)
                }
            } else {
                read_to_end(r, name, depth)
            }
        },
        XmlEvent::Start(n) => {
            if bytes_equal(n.as_slice(), name) {
                read_to_end(r, name, depth + 1)
            } else {
                read_to_end(r, name, depth)
            }
        },
        XmlEvent::Eof => false,
        XmlEvent::Error => false,
        _ => read_to_end(r, name, depth),
    }
}

/// Reads the text of the `UploadId` element whose start tag was just read
/// (`Reader::read_text`).
fn read_upload_id_text(r: &mut XmlEventReader) -> (res: Option<String>)
    requires
        old(r)@.0.len() <= usize::MAX,
        old(r)@.1 >= 1,
        old(r)@.1 <= old(r)@.0.len() + 1,
    ensures
        match upload_id_text(old(r)@.0, old(r)@.1) {
            UploadIdScan::Found(s) => res matches Some(v) && v@ == s,
            _ => res is None,
        },
{
    let ghost input = r@.0;
    let ghost k = r@.1;
    let name = "UploadId".as_bytes();
    let ev = xml_read_event(r);
    match ev {
        XmlEvent::Text(raw) => {
            let s = xml_text_value(r, &raw);
            let closed = read_to_end(r, name, 0);
            if closed {
                s
            } else {
                None
            }
        },
        XmlEvent::End(n) => {
            if bytes_equal(n.as_slice(), name) {
                Some(String::new())
            } else {
                None
            }
        },
        _ => None,
    }
}

/// The exact outcome of reading `body` for its upload id.
fn scan_upload_id(body: &str) -> (res: Option<Option<String>>)
    ensures
        match upload_id_scan(body@) {
            UploadIdScan::Found(s) => res matches Some(Some(v)) && v@ == s,
            UploadIdScan::Missing => res matches Some(None),
            UploadIdScan::Malformed => res is None,
        },
{
    let n = body.as_bytes().len();
    let mut r = xml_reader_from_str(body);
    let ghost input = r@.0;
    let name = "UploadId".as_bytes();
    loop
        invariant
            r@.0 == input,
            input == encode_utf8(body@),
            input.len() == n,
            name@ == upload_id_name(),
            r@.1 <= input.len() + 1,
            upload_id_scan(body@) == upload_id_from(input, r@.1),
        decreases input.len() + 1 - r@.1,
    {
        let ghost k = r@.1;
        let ev = xml_read_event(&mut r);
        assert(upload_id_from(input, k) == match xml_event_at(input, k) {
            XmlToken::Start(n) => if n == upload_id_name() {
                upload_id_text(input, k + 1)
            } else {
                upload_id_from(input, k + 1)
            },
            XmlToken::Eof => UploadIdScan::Missing,
            _ => upload_id_from(input, k + 1),
        });
        match ev {
            XmlEvent::Start(t) => {
                if bytes_equal(t.as_slice(), name) {
                    let s = read_upload_id_text(&mut r);
                    return match s {
                        Some(v) => Some(Some(v)),
                        None => None,
                    };
                }
            },
            XmlEvent::Eof => {
                return Some(None);
            },
            _ => {},
        }
    }
}

/// The upload id of an InitiateMultipartUpload reply: the text of its first `UploadId`
/// element, or `Err(())` when the reply has none.  A reply whose `UploadId` element
/// cannot be read is left out (`try_parse_upload_id` takes any reply).
pub fn parse_upload_id(body: &str) -> (r: Result<String, ()>)
    requires
        upload_id_scan(body@) !is Malformed,
    ensures
        match upload_id_scan(body@) {
            UploadIdScan::Found(s) => r matches Ok(id) && id@ == s,
            _ => r is Err,
        },
{
    match scan_upload_id(body) {
        Some(Some(id)) => Ok(id),
        _ => Err(()),
    }
}

/// Reads any InitiateMultipartUpload reply: `None` when its `UploadId` element cannot
/// be read, else what `parse_upload_id` gives.
pub fn try_parse_upload_id(body: &str) -> (r: Option<Result<String, ()>>)
    ensures
        r is None <==> upload_id_scan(body@) is Malformed,
        match upload_id_scan(body@) {
            UploadIdScan::Found(s) => r matches Some(Ok(id)) && id@ == s,
            UploadIdScan::Missing => r matches Some(Err(_)),
            UploadIdScan::Malformed => r is None,
        },
{
    match scan_upload_id(body) {
        None => None,
        Some(_) => Some(parse_upload_id(body)),
    }
}

} // verus!
