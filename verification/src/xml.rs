//! Writing the body of a CompleteMultipartUpload request.

use vstd::prelude::*;
use vstd::string::*;
use vstd::utf8::*;
use std::io::Cursor;
use quick_xml::Writer;
use quick_xml::events::{BytesEnd, BytesStart, BytesText, Event};
use crate::escape::{
    escape_bytes, lemma_escape_utf8, lemma_escaped_text_has_no_markup, lemma_unescape_escape, xml_escape,
    xml_unescape,
};
use crate::text::{decimal_chars, decimal_string, is_digit, lemma_encode_utf8_concat, parse_u64_spec};

verus! {

broadcast use vstd::string::group_string_axioms;

// ---------------------------------------------------------------------------
// Writing XML
// ---------------------------------------------------------------------------

/// A `quick_xml::Writer` over an in-memory buffer.  Verus refuses a declaration of
/// `quick_xml::Writer` (its parameter is bound by `std::io::Write`), so the writer is
/// held in this opaque struct; `xml_writer_output` names the bytes written into it.
#[verifier::external_body]
pub struct XmlWriter {
    inner: Writer<Cursor<Vec<u8>>>,
}

/// The bytes written so far into `w`.
pub uninterp spec fn xml_writer_output(w: XmlWriter) -> Seq<u8>;

/// `quick_xml::Writer::new` over an empty `Cursor<Vec<u8>>`: nothing is written yet.
#[verifier::external_body]
fn xml_writer_new() -> (w: XmlWriter)
    ensures
        xml_writer_output(w) == Seq::<u8>::empty(),
{
    XmlWriter { inner: Writer::new(Cursor::new(Vec::new())) }
}

/// `quick_xml::Writer::write_event` with `Event::Start(BytesStart::owned(name, name.len()))`:
/// the writer (built without indentation) appends `<`, the name and `>`.  Writing into
/// a `Cursor<Vec<u8>>` does not fail, so the result is dropped.
#[verifier::external_body]
fn xml_write_start(w: &mut XmlWriter, name: &str)
    ensures
        xml_writer_output(*final(w)) == xml_writer_output(*old(w)) + seq![60u8] + name.spec_bytes() + seq![62u8],
{
    let _ = w.inner.write_event(Event::Start(BytesStart::owned(name.as_bytes(), name.len())));
}

/// `quick_xml::Writer::write_event` with `Event::End(BytesEnd::owned(name))`: the writer
/// appends `</`, the name and `>`.
#[verifier::external_body]
fn xml_write_end(w: &mut XmlWriter, name: &str)
    ensures
        xml_writer_output(*final(w)) == xml_writer_output(*old(w)) + seq![60u8, 47u8] + name.spec_bytes() + seq![62u8],
{
    let _ = w.inner.write_event(Event::End(BytesEnd::owned(name.as_bytes().to_vec())));
}

/// `quick_xml::Writer::write_event` with `Event::Text(BytesText::from_plain_str(text))`:
/// `from_plain_str` escapes the text's bytes with `quick_xml::escape::escape`, and the
/// writer appends the escaped bytes.
#[verifier::external_body]
fn xml_write_text(w: &mut XmlWriter, text: &str)
    ensures
        xml_writer_output(*final(w)) == xml_writer_output(*old(w)) + escape_bytes(text.spec_bytes()),
{
    let _ = w.inner.write_event(Event::Text(BytesText::from_plain_str(text)));
}

/// `Writer::into_inner` then `Cursor::into_inner`: the bytes written.
#[verifier::external_body]
fn xml_writer_bytes(w: XmlWriter) -> (b: Vec<u8>)
    ensures
        b@ == xml_writer_output(w),
{
    w.inner.into_inner().into_inner()
}

/// `String::from_utf8`: a string when the bytes are valid UTF-8, holding the characters
/// they encode.
#[verifier::external_body]
fn string_from_utf8(bytes: Vec<u8>) -> (r: Option<String>)
    ensures
        r is Some <==> valid_utf8(bytes@),
        r matches Some(s) ==> s@ == decode_utf8(bytes@),
{
    String::from_utf8(bytes).ok()
}

// ---------------------------------------------------------------------------
// The CompleteMultipartUpload document
// ---------------------------------------------------------------------------

/// `<name>`
pub open spec fn open_tag(name: Seq<char>) -> Seq<char> {
    seq!['<'] + name + seq!['>']
}

/// `</name>`
pub open spec fn close_tag(name: Seq<char>) -> Seq<char> {
    seq!['<', '/'] + name + seq!['>']
}

/// `<name>content</name>`
pub open spec fn element(name: Seq<char>, content: Seq<char>) -> Seq<char> {
    open_tag(name) + content + close_tag(name)
}

/// The `Part` element of part `number`, whose upload was answered with `etag`.
pub open spec fn part_xml(number: nat, etag: Seq<char>) -> Seq<char> {
    element(
        "Part"@,
        element("PartNumber"@, decimal_chars(number)) + element("ETag"@, xml_escape(etag)),
    )
}

/// The `Part` elements for `etags`, numbered from 1 in order.
pub open spec fn parts_xml(etags: Seq<Seq<char>>) -> Seq<char>
    decreases etags.len(),
{
    if etags.len() == 0 {
        Seq::empty()
    } else {
        parts_xml(etags.drop_last()) + part_xml(etags.len(), etags.last())
    }
}

/// The body of a CompleteMultipartUpload request: part `i + 1` carries `etags[i]`.
pub open spec fn complete_upload_xml(etags: Seq<Seq<char>>) -> Seq<char> {
    element("CompleteMultipartUpload"@, parts_xml(etags))
}

/// The characters of each string in `v`.
pub open spec fn string_views(v: Seq<String>) -> Seq<Seq<char>> {
    v.map_values(|s: String| s@)
}

/// Whether `s` holds no `<`.
pub open spec fn has_no_lt(s: Seq<char>) -> bool {
    forall|i: int| 0 <= i < s.len() ==> s[i] != '<'
}

/// When two texts both read `a`, then `<` and `k`, then a tail without `<`, the
/// `<` is the last one in each: the parts before it and the tails are the same.
proof fn lemma_split_at_last_tag(a: Seq<char>, b: Seq<char>, k: Seq<char>, x: Seq<char>, y: Seq<char>)
    requires
        a + (seq!['<'] + k) + x == b + (seq!['<'] + k) + y,
        has_no_lt(k),
        has_no_lt(x),
        has_no_lt(y),
    ensures
        a == b,
        x == y,
{
    let w = a + (seq!['<'] + k) + x;
    let v = b + (seq!['<'] + k) + y;
    assert(w.len() == v.len());
    assert(forall|i: int| 0 <= i < w.len() ==> w[i] == v[i]);
    assert(w[a.len() as int] == '<');
    assert(v[b.len() as int] == '<');
    if a.len() < b.len() {
        let p = b.len() as int;
        if p < a.len() + 1 + k.len() {
            assert(w[p] == k[p - a.len() - 1]);
        } else {
            let ak = a + (seq!['<'] + k);
            assert(p < w.len());
            assert(w[p] == x[p - ak.len()]);
        }
    } else if b.len() < a.len() {
        let p = a.len() as int;
        if p < b.len() + 1 + k.len() {
            assert(v[p] == k[p - b.len() - 1]);
        } else {
            let bk = b + (seq!['<'] + k);
            assert(p < v.len());
            assert(v[p] == y[p - bk.len()]);
        }
    }
    assert(a =~= w.subrange(0, a.len() as int));
    assert(b =~= v.subrange(0, b.len() as int));
    assert(x =~= w.subrange((a.len() + 1 + k.len()) as int, w.len() as int));
    assert(y =~= v.subrange((b.len() + 1 + k.len()) as int, v.len() as int));
}

proof fn lemma_strip_suffix(a: Seq<char>, b: Seq<char>, s: Seq<char>)
    requires
        a + s == b + s,
    ensures
        a == b,
{
    broadcast use vstd::seq::group_seq_axioms;

    assert((a + s).len() == a.len() + s.len());
    assert((b + s).len() == b.len() + s.len());
    assert(a.len() == b.len());
    assert forall|i: int| 0 <= i < a.len() implies a[i] == b[i] by {
        assert((a + s)[i] == a[i]);
        assert((b + s)[i] == b[i]);
    }
    assert(a =~= b);
}

proof fn lemma_strip_prefix(s: Seq<char>, a: Seq<char>, b: Seq<char>)
    requires
        s + a == s + b,
    ensures
        a == b,
{
    assert(a =~= (s + a).subrange(s.len() as int, (s + a).len() as int));
    assert(b =~= (s + b).subrange(s.len() as int, (s + b).len() as int));
}

/// Escaping tells texts apart.
proof fn lemma_escape_injective(a: Seq<char>, b: Seq<char>)
    requires
        xml_escape(a) == xml_escape(b),
    ensures
        a == b,
{
    lemma_unescape_escape(a);
    lemma_unescape_escape(b);
}

proof fn lemma_escaped_has_no_lt(s: Seq<char>)
    ensures
        has_no_lt(xml_escape(s)),
{
    lemma_escaped_text_has_no_markup(s);
    assert forall|i: int| 0 <= i < xml_escape(s).len() implies xml_escape(s)[i] != '<' by {
        let c = xml_escape(s)[i];
    }
}

proof fn lemma_decimal_has_no_lt(n: nat)
    ensures
        has_no_lt(decimal_chars(n)),
{
    crate::text::lemma_decimal_digits(n);
    assert forall|i: int| 0 <= i < decimal_chars(n).len() implies decimal_chars(n)[i] != '<' by {
        assert(is_digit(decimal_chars(n)[i]));
    }
}

/// `<PartNumber>` without its `<`.
pub open spec fn number_tag_rest() -> Seq<char> {
    "PartNumber"@ + seq!['>']
}

/// `<ETag>` without its `<`.
pub open spec fn etag_tag_rest() -> Seq<char> {
    "ETag"@ + seq!['>']
}

/// What comes before the ETag text of the last part: the earlier parts, `<Part>`,
/// and `<PartNumber>`, the number and `</PartNumber>`.
pub open spec fn last_part_head(e: Seq<Seq<char>>) -> Seq<char> {
    parts_xml(e.drop_last()) + open_tag("Part"@) + (seq!['<'] + number_tag_rest()) + decimal_chars(
        e.len(),
    ) + close_tag("PartNumber"@)
}

proof fn lemma_parts_xml_last(e: Seq<Seq<char>>)
    requires
        e.len() > 0,
    ensures
        parts_xml(e) == last_part_head(e) + (seq!['<'] + etag_tag_rest()) + xml_escape(e.last()) + (
        close_tag("ETag"@) + close_tag("Part"@)),
{
    assert(parts_xml(e) =~= last_part_head(e) + (seq!['<'] + etag_tag_rest()) + xml_escape(e.last())
        + (close_tag("ETag"@) + close_tag("Part"@)));
}

proof fn lemma_last_part_head(e1: Seq<Seq<char>>, e2: Seq<Seq<char>>)
    requires
        e1.len() > 0,
        e2.len() > 0,
        last_part_head(e1) == last_part_head(e2),
    ensures
        parts_xml(e1.drop_last()) == parts_xml(e2.drop_last()),
{
    reveal_strlit("PartNumber");
    assert(has_no_lt(number_tag_rest()));
    let d1 = decimal_chars(e1.len());
    let d2 = decimal_chars(e2.len());
    let q1 = parts_xml(e1.drop_last()) + open_tag("Part"@);
    let q2 = parts_xml(e2.drop_last()) + open_tag("Part"@);
    assert(last_part_head(e1) =~= q1 + (seq!['<'] + number_tag_rest()) + d1 + close_tag("PartNumber"@));
    assert(last_part_head(e2) =~= q2 + (seq!['<'] + number_tag_rest()) + d2 + close_tag("PartNumber"@));
    lemma_strip_suffix(
        q1 + (seq!['<'] + number_tag_rest()) + d1,
        q2 + (seq!['<'] + number_tag_rest()) + d2,
        close_tag("PartNumber"@),
    );
    lemma_decimal_has_no_lt(e1.len());
    lemma_decimal_has_no_lt(e2.len());
    lemma_split_at_last_tag(q1, q2, number_tag_rest(), d1, d2);
    lemma_strip_suffix(parts_xml(e1.drop_last()), parts_xml(e2.drop_last()), open_tag("Part"@));
}

/// The `Part` elements for different ETag lists differ.
proof fn lemma_parts_xml_injective(e1: Seq<Seq<char>>, e2: Seq<Seq<char>>)
    requires
        parts_xml(e1) == parts_xml(e2),
    ensures
        e1 == e2,
    decreases e1.len(),
{
    if e1.len() == 0 && e2.len() == 0 {
        assert(e1 =~= e2);
    } else if e1.len() == 0 || e2.len() == 0 {
        if e1.len() > 0 {
            assert(parts_xml(e1).len() > 0);
        } else {
            assert(parts_xml(e2).len() > 0);
        }
    } else {
        reveal_strlit("ETag");
        assert(has_no_lt(etag_tag_rest()));
        let tail = close_tag("ETag"@) + close_tag("Part"@);
        let x1 = xml_escape(e1.last());
        let x2 = xml_escape(e2.last());
        lemma_parts_xml_last(e1);
        lemma_parts_xml_last(e2);
        lemma_strip_suffix(
            last_part_head(e1) + (seq!['<'] + etag_tag_rest()) + x1,
            last_part_head(e2) + (seq!['<'] + etag_tag_rest()) + x2,
            tail,
        );
        lemma_escaped_has_no_lt(e1.last());
        lemma_escaped_has_no_lt(e2.last());
        lemma_split_at_last_tag(last_part_head(e1), last_part_head(e2), etag_tag_rest(), x1, x2);
        lemma_escape_injective(e1.last(), e2.last());
        lemma_last_part_head(e1, e2);
        lemma_parts_xml_injective(e1.drop_last(), e2.drop_last());
        assert(e1 =~= e1.drop_last().push(e1.last()));
        assert(e2 =~= e2.drop_last().push(e2.last()));
    }
}

spec fn listed_part(etags: Seq<Seq<char>>, k: int) -> Seq<char> {
    part_xml((k + 1) as nat, etags[k])
}

proof fn lemma_parts_xml_flatten(etags: Seq<Seq<char>>)
    ensures
        parts_xml(etags) == Seq::new(etags.len(), |k: int| listed_part(etags, k)).flatten_alt(),
    decreases etags.len(),
{
    let s = Seq::new(etags.len(), |k: int| listed_part(etags, k));
    if etags.len() > 0 {
        let front = etags.drop_last();
        lemma_parts_xml_flatten(front);
        assert(s.drop_last() =~= Seq::new(front.len(), |k: int| listed_part(front, k)));
        assert(s.last() == part_xml(etags.len(), etags.last()));
    }
}

/// Part `k` (from 1) of a CompleteMultipartUpload document is numbered `k` and carries
/// the escaped ETag `etags[k - 1]`: written out, the document is
/// `<CompleteMultipartUpload>`, then for every `k` in order
/// `<Part><PartNumber>k</PartNumber><ETag>etag</ETag></Part>`, then
/// `</CompleteMultipartUpload>`; and the number written for part `k` reads back as `k`.
pub proof fn lemma_completion_document_parts(etags: Seq<Seq<char>>)
    ensures
        complete_upload_xml(etags) == seq!['<'] + "CompleteMultipartUpload"@ + seq!['>']
            + Seq::new(
            etags.len(),
            |k: int|
                seq!['<'] + "Part"@ + seq!['>'] + seq!['<'] + "PartNumber"@ + seq!['>']
                    + decimal_chars((k + 1) as nat) + seq!['<', '/'] + "PartNumber"@ + seq!['>']
                    + seq!['<'] + "ETag"@ + seq!['>'] + xml_escape(etags[k]) + seq!['<', '/']
                    + "ETag"@ + seq!['>'] + seq!['<', '/'] + "Part"@ + seq!['>'],
        ).flatten() + seq!['<', '/'] + "CompleteMultipartUpload"@ + seq!['>'],
        forall|k: u64| 1 <= k ==> parse_u64_spec(#[trigger] decimal_chars(k as nat)) == Some(k),
{
    let s = Seq::new(etags.len(), |k: int| listed_part(etags, k));
    let w = Seq::new(
        etags.len(),
        |k: int|
            seq!['<'] + "Part"@ + seq!['>'] + seq!['<'] + "PartNumber"@ + seq!['>']
                + decimal_chars((k + 1) as nat) + seq!['<', '/'] + "PartNumber"@ + seq!['>']
                + seq!['<'] + "ETag"@ + seq!['>'] + xml_escape(etags[k]) + seq!['<', '/']
                + "ETag"@ + seq!['>'] + seq!['<', '/'] + "Part"@ + seq!['>'],
    );
    assert forall|k: int| 0 <= k < etags.len() implies s[k] == w[k] by {
        assert(listed_part(etags, k) =~= w[k]);
    }
    assert(s =~= w);
    lemma_parts_xml_flatten(etags);
    s.lemma_flatten_and_flatten_alt_are_equivalent();
    assert(complete_upload_xml(etags) =~= seq!['<'] + "CompleteMultipartUpload"@ + seq!['>']
        + w.flatten() + seq!['<', '/'] + "CompleteMultipartUpload"@ + seq!['>']);
    assert forall|k: u64| 1 <= k implies parse_u64_spec(#[trigger] decimal_chars(k as nat)) == Some(k) by {
        crate::text::lemma_decimal_parse_roundtrip(k);
    }
}

/// The ETags that a CompleteMultipartUpload document lists, part after part: `None`
/// when `doc` is no such document.
pub open spec fn read_completion_document(doc: Seq<char>) -> Option<Seq<Seq<char>>> {
    if exists|e: Seq<Seq<char>>| complete_upload_xml(e) == doc {
        Some(choose|e: Seq<Seq<char>>| complete_upload_xml(e) == doc)
    } else {
        None
    }
}

/// A CompleteMultipartUpload document reads back as the ETags it was written from:
/// one `CompleteMultipartUpload` element holding exactly one `Part` per ETag, the
/// `Part` for `etags[i]` numbered `i + 1`, and each `ETag` text, with its entity
/// references read back, equal to the ETag.  No other ETag list gives the same document.
pub proof fn lemma_completion_document_reads_back(etags: Seq<Seq<char>>)
    ensures
        read_completion_document(complete_upload_xml(etags)) == Some(etags),
        forall|e: Seq<Seq<char>>| complete_upload_xml(e) == complete_upload_xml(etags) ==> e == etags,
        forall|i: int| 0 <= i < etags.len() ==> xml_unescape(xml_escape(#[trigger] etags[i])) == etags[i],
{
    assert forall|e: Seq<Seq<char>>| complete_upload_xml(e) == complete_upload_xml(etags) implies e == etags by {
        let o = open_tag("CompleteMultipartUpload"@);
        let c = close_tag("CompleteMultipartUpload"@);
        assert(complete_upload_xml(e) =~= o + (parts_xml(e) + c));
        assert(complete_upload_xml(etags) =~= o + (parts_xml(etags) + c));
        lemma_strip_prefix(o, parts_xml(e) + c, parts_xml(etags) + c);
        lemma_strip_suffix(parts_xml(e), parts_xml(etags), c);
        lemma_parts_xml_injective(e, etags);
    }
    assert forall|i: int| 0 <= i < etags.len() implies xml_unescape(xml_escape(#[trigger] etags[i])) == etags[i] by {
        lemma_unescape_escape(etags[i]);
    }
}

proof fn lemma_open_tag_bytes(name: Seq<char>)
    ensures
        encode_utf8(open_tag(name)) == seq![60u8] + encode_utf8(name) + seq![62u8],
{
    vstd::utf8::is_ascii_chars_encode_utf8(seq!['<']);
    vstd::utf8::is_ascii_chars_encode_utf8(seq!['>']);
    lemma_encode_utf8_concat(seq!['<'] + name, seq!['>']);
    lemma_encode_utf8_concat(seq!['<'], name);
    assert(encode_utf8(seq!['<']) =~= seq![60u8]);
    assert(encode_utf8(seq!['>']) =~= seq![62u8]);
}

proof fn lemma_close_tag_bytes(name: Seq<char>)
    ensures
        encode_utf8(close_tag(name)) == seq![60u8, 47u8] + encode_utf8(name) + seq![62u8],
{
    vstd::utf8::is_ascii_chars_encode_utf8(seq!['<', '/']);
    vstd::utf8::is_ascii_chars_encode_utf8(seq!['>']);
    lemma_encode_utf8_concat(seq!['<', '/'] + name, seq!['>']);
    lemma_encode_utf8_concat(seq!['<', '/'], name);
    assert(encode_utf8(seq!['<', '/']) =~= seq![60u8, 47u8]);
    assert(encode_utf8(seq!['>']) =~= seq![62u8]);
}

/// Digits need no escaping.
proof fn lemma_escape_digits(ds: Seq<char>)
    requires
        forall|i: int| 0 <= i < ds.len() ==> is_digit(#[trigger] ds[i]),
    ensures
        xml_escape(ds) == ds,
    decreases ds.len(),
{
    if ds.len() > 0 {
        let rest = ds.drop_first();
        assert forall|i: int| 0 <= i < rest.len() implies is_digit(#[trigger] rest[i]) by {
            assert(rest[i] == ds[i + 1]);
        }
        lemma_escape_digits(rest);
        assert(is_digit(ds[0]));
        assert(seq![ds[0]] + rest == ds);
    }
}

fn write_open_tag(w: &mut XmlWriter, name: &str, Ghost(doc): Ghost<Seq<char>>)
    requires
        xml_writer_output(*old(w)) == encode_utf8(doc),
    ensures
        xml_writer_output(*final(w)) == encode_utf8(doc + open_tag(name@)),
{
    xml_write_start(w, name);
    proof {
        lemma_open_tag_bytes(name@);
        lemma_encode_utf8_concat(doc, open_tag(name@));
    }
}

fn write_close_tag(w: &mut XmlWriter, name: &str, Ghost(doc): Ghost<Seq<char>>)
    requires
        xml_writer_output(*old(w)) == encode_utf8(doc),
    ensures
        xml_writer_output(*final(w)) == encode_utf8(doc + close_tag(name@)),
{
    xml_write_end(w, name);
    proof {
        lemma_close_tag_bytes(name@);
        lemma_encode_utf8_concat(doc, close_tag(name@));
    }
}

fn write_escaped_text(w: &mut XmlWriter, text: &str, Ghost(doc): Ghost<Seq<char>>)
    requires
        xml_writer_output(*old(w)) == encode_utf8(doc),
    ensures
        xml_writer_output(*final(w)) == encode_utf8(doc + xml_escape(text@)),
{
    xml_write_text(w, text);
    proof {
        lemma_escape_utf8(text@);
        lemma_encode_utf8_concat(doc, xml_escape(text@));
    }
}

fn write_part(
    w: &mut XmlWriter,
    number: &str,
    etag: &str,
    Ghost(n): Ghost<nat>,
    Ghost(doc): Ghost<Seq<char>>,
)
    requires
        xml_writer_output(*old(w)) == encode_utf8(doc),
        number@ == decimal_chars(n),
    ensures
        xml_writer_output(*final(w)) == encode_utf8(doc + part_xml(n, etag@)),
{
    write_open_tag(w, "Part", Ghost(doc));
    let ghost d1 = doc + open_tag("Part"@);
    write_open_tag(w, "PartNumber", Ghost(d1));
    let ghost d2 = d1 + open_tag("PartNumber"@);
    write_escaped_text(w, number, Ghost(d2));
    let ghost d3 = d2 + xml_escape(number@);
    write_close_tag(w, "PartNumber", Ghost(d3));
    let ghost d4 = d3 + close_tag("PartNumber"@);
    write_open_tag(w, "ETag", Ghost(d4));
    let ghost d5 = d4 + open_tag("ETag"@);
    write_escaped_text(w, etag, Ghost(d5));
    let ghost d6 = d5 + xml_escape(etag@);
    write_close_tag(w, "ETag", Ghost(d6));
    let ghost d7 = d6 + close_tag("ETag"@);
    write_close_tag(w, "Part", Ghost(d7));
    proof {
        crate::text::lemma_decimal_digits(n);
        lemma_escape_digits(number@);
        assert(d7 + close_tag("Part"@) =~= doc + part_xml(n, etag@));
    }
}

/// Writes the body of a CompleteMultipartUpload request for parts whose uploads were
/// answered with the ETags in `verify`, in order: part `i + 1` gets `verify[i]`.
pub fn create_xml(verify: Vec<String>) -> (xml: String)
    requires
        verify.len() <= i32::MAX,
    ensures
        xml@ == complete_upload_xml(string_views(verify@)),
{
    let ghost etags = string_views(verify@);
    let mut w = xml_writer_new();
    assert(encode_utf8(Seq::<char>::empty()) == Seq::<u8>::empty());
    write_open_tag(&mut w, "CompleteMultipartUpload", Ghost(Seq::empty()));
    let ghost head = Seq::<char>::empty() + open_tag("CompleteMultipartUpload"@);
    let mut i: usize = 0;
    while i < verify.len()
        invariant
            i <= verify.len() <= i32::MAX,
            etags == string_views(verify@),
            xml_writer_output(w) == encode_utf8(head + parts_xml(etags.take(i as int))),
        decreases verify.len() - i,
    {
        let ghost before = head + parts_xml(etags.take(i as int));
        let number = decimal_string((i + 1) as u64);
        write_part(&mut w, number.as_str(), verify[i].as_str(), Ghost((i + 1) as nat), Ghost(before));
        proof {
            let t = etags.take(i + 1);
            assert(t.drop_last() == etags.take(i as int));
            assert(t.last() == verify[i as int]@);
            assert(before + part_xml((i + 1) as nat, verify[i as int]@) == head + parts_xml(t));
        }
        i = i + 1;
    }
    let ghost body = head + parts_xml(etags.take(i as int));
    write_close_tag(&mut w, "CompleteMultipartUpload", Ghost(body));
    let bytes = xml_writer_bytes(w);
    proof {
        assert(etags.take(i as int) == etags);
        assert(body + close_tag("CompleteMultipartUpload"@) == complete_upload_xml(etags));
        vstd::utf8::encode_utf8_valid_utf8(complete_upload_xml(etags));
        vstd::utf8::encode_utf8_decode_utf8(complete_upload_xml(etags));
    }
    match string_from_utf8(bytes) {
        Some(s) => s,
        None => {
            proof { assert(false); }
            String::new()
        },
    }
}

} // verus!
