use quick_xml::events::Event;
use quick_xml::Reader;
use tdisk::upload::UploadSession;
use tdisk::reply::{parse_upload_id, try_parse_upload_id};
use tdisk::xml::create_xml;

#[test]
fn create_xml_lists_parts_in_order() {
    let xml = create_xml(vec!["\"A1\"".to_string(), "\"B2\"".to_string()]);
    assert_eq!(
        xml,
        "<CompleteMultipartUpload>\
<Part><PartNumber>1</PartNumber><ETag>&quot;A1&quot;</ETag></Part>\
<Part><PartNumber>2</PartNumber><ETag>&quot;B2&quot;</ETag></Part>\
</CompleteMultipartUpload>"
    );
}

#[test]
fn create_xml_without_parts() {
    assert_eq!(create_xml(Vec::new()), "<CompleteMultipartUpload></CompleteMultipartUpload>");
}

#[test]
fn create_xml_escapes_markup() {
    let xml = create_xml(vec!["a<b>&'c\"é".to_string()]);
    assert_eq!(
        xml,
        "<CompleteMultipartUpload><Part><PartNumber>1</PartNumber>\
<ETag>a&lt;b&gt;&amp;&apos;c&quot;é</ETag></Part></CompleteMultipartUpload>"
    );
}

#[test]
fn create_xml_numbers_many_parts() {
    let etags: Vec<String> = (0..12).map(|i| format!("e{}", i)).collect();
    let xml = create_xml(etags);
    assert!(xml.contains("<Part><PartNumber>12</PartNumber><ETag>e11</ETag></Part>"));
    assert!(xml.contains("<Part><PartNumber>10</PartNumber><ETag>e9</ETag></Part>"));
}

const INIT_REPLY: &str = "<?xml version=\"1.0\" encoding=\"UTF-8\"?>\n\
<InitiateMultipartUploadResult>\n\
  <Bucket>oss-example</Bucket>\n\
  <Key>multipart.data</Key>\n\
  <UploadId>0004B9894A22E5B1888A1E29F823****</UploadId>\n\
</InitiateMultipartUploadResult>";

#[test]
fn parse_upload_id_finds_first_upload_id() {
    assert_eq!(parse_upload_id(INIT_REPLY), Ok("0004B9894A22E5B1888A1E29F823****".to_string()));
    assert_eq!(
        try_parse_upload_id(INIT_REPLY),
        Some(Ok("0004B9894A22E5B1888A1E29F823****".to_string()))
    );
}

#[test]
fn parse_upload_id_unescapes_text() {
    assert_eq!(parse_upload_id("<R><UploadId>a&amp;b&#65;</UploadId></R>"), Ok("a&bA".to_string()));
}

#[test]
fn parse_upload_id_empty_element() {
    assert_eq!(parse_upload_id("<R><UploadId></UploadId></R>"), Ok(String::new()));
}

#[test]
fn parse_upload_id_skips_nested_elements() {
    assert_eq!(parse_upload_id("<R><UploadId><X/></UploadId></R>"), Ok(String::new()));
}

#[test]
fn parse_upload_id_takes_the_first() {
    assert_eq!(
        parse_upload_id("<R><UploadId>one</UploadId><UploadId>two</UploadId></R>"),
        Ok("one".to_string())
    );
}

#[test]
fn parse_upload_id_missing() {
    assert_eq!(parse_upload_id("<Error><Code>AccessDenied</Code></Error>"), Err(()));
    assert_eq!(parse_upload_id(""), Err(()));
    assert_eq!(try_parse_upload_id("no xml at all"), Some(Err(())));
}

#[test]
fn try_parse_upload_id_malformed() {
    assert_eq!(try_parse_upload_id("<R><UploadId>abc"), None);
    assert_eq!(try_parse_upload_id("<R><UploadId>x</Other></R>"), None);
    assert_eq!(try_parse_upload_id("<R><UploadId>a&zz;b</UploadId></R>"), None);
}

#[test]
fn upload_session_numbers_parts_and_keeps_etags() {
    let mut s = UploadSession::new();
    assert_eq!(s.next_part(1024), Some(1));
    s.record_etag("\"e1\"".to_string());
    assert_eq!(s.next_part(10), Some(2));
    s.record_etag("\"e2\"".to_string());
    assert_eq!(s.next_part(0), None);
    assert_eq!(s.part_num(), 2);
    assert_eq!(
        s.completion_xml(),
        create_xml(vec!["\"e1\"".to_string(), "\"e2\"".to_string()])
    );
}

#[test]
fn upload_session_of_empty_file() {
    let mut s = UploadSession::new();
    assert_eq!(s.next_part(0), None);
    assert_eq!(s.part_num(), 0);
    assert_eq!(s.completion_xml(), "<CompleteMultipartUpload></CompleteMultipartUpload>");
}

#[test]
fn create_xml_reads_back_with_an_xml_reader() {
    let etags = vec!["\"a&b\"".to_string(), "<x>".to_string(), "plain".to_string()];
    let xml = create_xml(etags.clone());
    let mut reader = Reader::from_str(&xml);
    let mut buf = Vec::new();
    let mut path: Vec<Vec<u8>> = Vec::new();
    let mut numbers = Vec::new();
    let mut read_etags = Vec::new();
    let mut roots = 0;
    loop {
        match reader.read_event(&mut buf).unwrap() {
            Event::Start(e) => {
                if path.is_empty() {
                    roots += 1;
                }
                path.push(e.name().to_vec());
            }
            Event::End(_) => {
                path.pop();
            }
            Event::Text(t) => {
                let text = t.unescape_and_decode(&reader).unwrap();
                match path.last().map(|n| n.as_slice()) {
                    Some(b"PartNumber") => numbers.push(text),
                    Some(b"ETag") => read_etags.push(text),
                    _ => assert!(text.is_empty()),
                }
            }
            Event::Eof => break,
            _ => panic!("unexpected event"),
        }
        buf.clear();
    }
    assert_eq!(roots, 1);
    assert_eq!(numbers, vec!["1", "2", "3"]);
    assert_eq!(read_etags, etags);
}
