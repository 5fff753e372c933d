use tdisk::config::Info;
use tdisk::request::{
    complete_upload_request, get_request, head_request, i32_string, init_upload_request,
    upload_part_request, url,
};
use tdisk::sign::{authorize, date, Method};

fn info() -> Info {
    Info {
        endpoint: "oss-cn-hangzhou.aliyuncs.com".to_string(),
        access_key_id: "my-id".to_string(),
        access_key_scret: "secret".to_string(),
        bucket: "my-bucket".to_string(),
    }
}

#[test]
fn url_joins_bucket_endpoint_and_path() {
    assert_eq!(
        url(&info(), "/test/package.json"),
        "https://my-bucket.oss-cn-hangzhou.aliyuncs.com/test/package.json"
    );
}

#[test]
fn url_with_empty_path() {
    assert_eq!(url(&info(), ""), "https://my-bucket.oss-cn-hangzhou.aliyuncs.com");
}

#[test]
fn authorize_matches_documented_signature() {
    let auth = authorize(
        Method::Put,
        Some("ODBGOERFMDMzQTczRUY3NUE3NzA5QzdFNUYzMDQxNEM=".to_string()),
        Some("text/html".to_string()),
        "Thu, 17 Nov 2005 18:49:58 GMT".to_string(),
        Some("\nx-oss-magic:abracadabra\nx-oss-meta-author:foo@bar.com".to_string()),
        "/oss-example/nelson".to_string(),
        "44CF9590006BF252F707".to_string(),
        "OtxrzxIsfpFjA7SwPzILwy8Bw21TLhquhboDYROV".to_string(),
    );
    assert_eq!(auth, "OSS 44CF9590006BF252F707:26NBxoKdsyly4EDv6inkoDft/yA=");
}

#[test]
fn authorize_without_optional_headers() {
    let auth = authorize(
        Method::Get,
        None,
        None,
        "Sun, 06 Nov 1994 08:49:37 GMT".to_string(),
        None,
        "/my-bucket/docs/a.txt".to_string(),
        "my-id".to_string(),
        "secret".to_string(),
    );
    assert_eq!(auth, "OSS my-id:W+HExmNMc+F02SwrmomwJ4KXkIU=");
}

#[test]
fn authorize_signature_is_28_characters() {
    let auth = authorize(
        Method::Delete,
        None,
        None,
        "d".to_string(),
        None,
        "/r".to_string(),
        "id".to_string(),
        "k".to_string(),
    );
    assert!(auth.starts_with("OSS id:"));
    assert_eq!(auth.len(), "OSS id:".len() + 28);
    assert!(auth.ends_with('='));
}

#[test]
fn method_names() {
    assert_eq!(Method::Get.as_str(), "GET");
    assert_eq!(Method::Post.as_str(), "POST");
    assert_eq!(Method::Put.as_str(), "PUT");
    assert_eq!(Method::Head.as_str(), "HEAD");
    assert_eq!(Method::Delete.as_str(), "DELETE");
    assert_eq!(Method::Options.as_str(), "OPTIONS");
    assert_eq!(Method::Connect.as_str(), "CONNECT");
    assert_eq!(Method::Patch.as_str(), "PATCH");
    assert_eq!(Method::Trace.as_str(), "TRACE");
}

#[test]
fn date_is_imf_fixdate() {
    assert_eq!(date(784111777), "Sun, 06 Nov 1994 08:49:37 GMT");
    assert_eq!(date(0), "Thu, 01 Jan 1970 00:00:00 GMT");
}

#[test]
fn init_upload_request_is_signed_post() {
    let d = "Sun, 06 Nov 1994 08:49:37 GMT".to_string();
    let r = init_upload_request(&info(), &d, "/docs/a.txt");
    assert_eq!(r.method, Method::Post);
    assert_eq!(r.url, "https://my-bucket.oss-cn-hangzhou.aliyuncs.com/docs/a.txt?uploads");
    assert_eq!(r.host, "my-bucket.oss-cn-hangzhou.aliyuncs.com");
    assert_eq!(r.date, d);
    assert_eq!(r.authorization, "OSS my-id:6odppsnmOWiTdEhQHR58g1qIwcs=");
    assert_eq!(r.content_length, None);
}

#[test]
fn get_request_is_signed_get() {
    let d = "Sun, 06 Nov 1994 08:49:37 GMT".to_string();
    let r = get_request(&info(), &d, "/docs/a.txt");
    assert_eq!(r.method, Method::Get);
    assert_eq!(r.url, "https://my-bucket.oss-cn-hangzhou.aliyuncs.com/docs/a.txt");
    assert_eq!(r.authorization, "OSS my-id:W+HExmNMc+F02SwrmomwJ4KXkIU=");
}

#[test]
fn head_request_signs_the_head_method() {
    let d = "Sun, 06 Nov 1994 08:49:37 GMT".to_string();
    let h = head_request(&info(), &d, "/docs/a.txt");
    let g = get_request(&info(), &d, "/docs/a.txt");
    assert_eq!(h.method, Method::Head);
    assert_eq!(h.url, g.url);
    assert_ne!(h.authorization, g.authorization);
    let expected = authorize(
        Method::Head,
        None,
        None,
        d.clone(),
        None,
        "/my-bucket/docs/a.txt".to_string(),
        "my-id".to_string(),
        "secret".to_string(),
    );
    assert_eq!(h.authorization, expected);
}

#[test]
fn upload_part_request_has_part_query_and_length() {
    let d = "Sun, 06 Nov 1994 08:49:37 GMT".to_string();
    let r = upload_part_request(&info(), &d, "/docs/a.txt", "ID42", 7, 1048576);
    assert_eq!(r.method, Method::Put);
    assert_eq!(
        r.url,
        "https://my-bucket.oss-cn-hangzhou.aliyuncs.com/docs/a.txt?partNumber=7&uploadId=ID42"
    );
    assert_eq!(r.content_length, Some("1048576".to_string()));
    let expected = authorize(
        Method::Put,
        None,
        None,
        d.clone(),
        None,
        "/my-bucket/docs/a.txt?partNumber=7&uploadId=ID42".to_string(),
        "my-id".to_string(),
        "secret".to_string(),
    );
    assert_eq!(r.authorization, expected);
}

#[test]
fn complete_upload_request_has_upload_id_query() {
    let d = "d".to_string();
    let r = complete_upload_request(&info(), &d, "/x", "U1");
    assert_eq!(r.method, Method::Post);
    assert_eq!(r.url, "https://my-bucket.oss-cn-hangzhou.aliyuncs.com/x?uploadId=U1");
    let expected = authorize(
        Method::Post,
        None,
        None,
        "d".to_string(),
        None,
        "/my-bucket/x?uploadId=U1".to_string(),
        "my-id".to_string(),
        "secret".to_string(),
    );
    assert_eq!(r.authorization, expected);
    assert_eq!(r.content_length, None);
}

#[test]
fn i32_string_matches_to_string() {
    for n in [0i32, 1, 9, 10, 99, 100, 12345, -1, -10, i32::MAX, i32::MIN] {
        assert_eq!(i32_string(n), n.to_string());
    }
}

#[test]
fn date_has_imf_fixdate_layout() {
    for secs in [0u64, 784111777, 1_700_000_000, 253402300799] {
        let d = date(secs);
        assert_eq!(d.len(), 29);
        assert!(d.ends_with(" GMT"));
        assert_eq!(&d[3..5], ", ");
        assert_eq!(&d[19..20], ":");
    }
    assert_eq!(date(253402300799), "Fri, 31 Dec 9999 23:59:59 GMT");
}

#[test]
fn authorize_signature_is_padded_base64_of_20_bytes() {
    let auth = authorize(
        Method::Post,
        None,
        None,
        "x".to_string(),
        None,
        "/b".to_string(),
        "key".to_string(),
        "s".to_string(),
    );
    let sig = &auth["OSS key:".len()..];
    assert_eq!(sig.len(), 28);
    assert!(sig[..27].chars().all(|c| c.is_ascii_alphanumeric() || c == '+' || c == '/'));
    assert!(sig.ends_with('='));
}
