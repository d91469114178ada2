use hidamari::utils::url_decode_utf8;
use hidamari::text::{decimal_string, trim_string, trim_end_string, has_prefix};
use hidamari::web::{check_path, file_response_target, FileResponse, FileBase, byte_range, RangeBound};
use hidamari::albumart;
use hidamari::web::{file_reply, FileReply};

#[test]
fn url_decode_plain_and_escapes() {
    assert_eq!(url_decode_utf8("a%20b"), "a b");
    assert_eq!(url_decode_utf8("%E3%81%82"), "あ");
    assert_eq!(url_decode_utf8("abc"), "abc");
}

#[test]
fn url_decode_stops_at_bad_escape() {
    assert_eq!(url_decode_utf8("ab%zzcd"), "ab");
    assert_eq!(url_decode_utf8("ab%4"), "ab");
    assert_eq!(url_decode_utf8("%+41"), "\u{4}1");
}

#[test]
fn url_decode_invalid_utf8_is_replaced() {
    assert_eq!(url_decode_utf8("%FF"), "\u{FFFD}");
}

#[test]
fn decimal_text() {
    assert_eq!(decimal_string(0), "0");
    assert_eq!(decimal_string(1234567), "1234567");
}

#[test]
fn trimming() {
    assert_eq!(trim_string("  a b \n"), "a b");
    assert_eq!(trim_end_string("  a b \n"), "  a b");
    assert!(has_prefix("asource://x", "asource://"));
    assert!(!has_prefix("as", "asource://"));
}

#[test]
fn check_path_resolves() {
    assert_eq!(check_path("a/./b/../c"), Some(String::from("a/c")));
    assert_eq!(check_path("/theme/x//y/"), Some(String::from("theme/x/y")));
    assert_eq!(check_path(""), Some(String::new()));
}

#[test]
fn check_path_refuses_escape() {
    assert_eq!(check_path("../etc/passwd"), None);
    assert_eq!(check_path("a/\\/b"), None);
    assert_eq!(check_path("a/../.."), None);
}

#[test]
fn resolved_path_resolves_to_itself() {
    let p = check_path("x/../y/./z").unwrap();
    assert_eq!(check_path(&p), Some(p.clone()));
}

#[test]
fn file_routes() {
    let (b, p) = file_response_target(&FileResponse::Main);
    assert!(b == FileBase::Theme);
    assert_eq!(p, Some(String::from("main.html")));
    let (b, p) = file_response_target(&FileResponse::Favicon);
    assert!(b == FileBase::Theme);
    assert_eq!(p, Some(String::from("favicon.ico")));
    let (b, p) = file_response_target(&FileResponse::Common(String::from("/common/js/app.js")));
    assert!(b == FileBase::Common);
    assert_eq!(p, Some(String::from("js/app.js")));
    let (b, p) = file_response_target(&FileResponse::Tsound(String::from("/tsound/../x")));
    assert!(b == FileBase::Tsound);
    assert_eq!(p, None);
    let (b, p) = file_response_target(&FileResponse::Theme(String::from("/theme")));
    assert!(b == FileBase::Theme);
    assert_eq!(p, Some(String::new()));
}

#[test]
fn byte_ranges() {
    assert_eq!(byte_range(&RangeBound::Included(0), &RangeBound::Included(9), 100), Some((0, 10)));
    assert_eq!(byte_range(&RangeBound::Excluded(4), &RangeBound::Unbounded, 10), Some((5, 10)));
    assert_eq!(byte_range(&RangeBound::Unbounded, &RangeBound::Excluded(5), 10), Some((0, 5)));
    assert_eq!(byte_range(&RangeBound::Included(5), &RangeBound::Excluded(5), 10), None);
    assert_eq!(byte_range(&RangeBound::Included(0), &RangeBound::Included(10), 10), None);
}

#[test]
fn albumart_path_check() {
    assert_eq!(albumart::check_path("/Artist/Album/01.flac/"), Some(String::from("Artist/Album/01.flac")));
    assert_eq!(albumart::check_path("/../x"), None);
    assert_eq!(albumart::check_path("a\\"), Some(String::from("a\\")));
}

#[test]
fn file_replies() {
    match file_reply("x/y.html", 100, &None) {
        FileReply::Whole(len, mime) => {
            assert_eq!(len, 100);
            assert_eq!(mime, "text/html");
        }
        _ => panic!("expected the whole file"),
    }
    match file_reply("a.mp3", 100, &Some(Some((RangeBound::Included(10), RangeBound::Unbounded)))) {
        FileReply::Partial(st, ed, mime) => {
            assert_eq!((st, ed), (10, 100));
            assert_eq!(mime, "audio/mpeg");
        }
        _ => panic!("expected a part"),
    }
    assert!(matches!(file_reply("a", 10, &Some(Some((RangeBound::Included(20), RangeBound::Unbounded)))), FileReply::Unsatisfiable(10)));
    assert!(matches!(file_reply("a", 10, &Some(None)), FileReply::NotFound));
    match file_reply("noext", 1, &None) {
        FileReply::Whole(_, mime) => assert_eq!(mime, "application/octet-stream"),
        _ => panic!("expected the whole file"),
    }
}

#[test]
fn url_decode_ascii_prefix() {
    assert_eq!(url_decode_utf8("plain/path-1"), "plain/path-1");
    assert_eq!(url_decode_utf8("dir/%E3%81%82%20b"), format!("dir/{}", url_decode_utf8("%E3%81%82%20b")));
    assert_eq!(url_decode_utf8("dir/%E3%81%82%20b"), "dir/\u{3042} b");
}

#[test]
fn url_decode_of_escaped_text() {
    for t in ["", "a b", "\u{3042}\u{1F600}/x", "100%"] {
        let upper: String = t.bytes().map(|b| format!("%{:02X}", b)).collect();
        let lower: String = t.bytes().map(|b| format!("%{:02x}", b)).collect();
        assert_eq!(url_decode_utf8(&upper), t);
        assert_eq!(url_decode_utf8(&lower), t);
    }
}

#[test]
fn url_decode_ascii_prefix_before_invalid_bytes() {
    assert_eq!(url_decode_utf8("ab%FFcd"), format!("ab{}", url_decode_utf8("%FFcd")));
    assert_eq!(url_decode_utf8("ab%FFcd"), "ab\u{FFFD}cd");
    assert_eq!(url_decode_utf8("x/%E3%81"), "x/\u{FFFD}");
}

#[test]
fn url_decode_malformed_escape_ends() {
    assert_eq!(url_decode_utf8("a%41%zz rest"), url_decode_utf8("a%41"));
    assert_eq!(url_decode_utf8("a%41%zz rest"), "aA");
    assert_eq!(url_decode_utf8("%E3%81%82%4"), "\u{3042}");
    assert_eq!(url_decode_utf8("b%+4x%"), "b\u{4}x");
}
