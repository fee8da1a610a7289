use fywaf::crs::transforms::{
    apply_one, apply_transforms, compress_whitespace, css_decode, html_entity_decode, js_decode,
    url_decode_uni, utf8_to_unicode_escape,
};
use fywaf::crs::types::Transform;

#[test]
fn url_decode_basic() {
    assert_eq!(url_decode_uni("%3Cscript%3E"), "<script>");
}

#[test]
fn url_decode_unicode() {
    assert_eq!(url_decode_uni("%u003C"), "<");
}

#[test]
fn html_entity_decode_lt_gt() {
    assert_eq!(html_entity_decode("&lt;script&gt;"), "<script>");
}

#[test]
fn html_entity_decode_numeric() {
    assert_eq!(html_entity_decode("&#60;"), "<");
    assert_eq!(html_entity_decode("&#x3C;"), "<");
}

#[test]
fn js_decode_unicode() {
    assert_eq!(js_decode(r"\u003Cscript\u003E"), "<script>");
}

#[test]
fn compress_whitespace_collapses() {
    assert_eq!(compress_whitespace("a   b\t\tc"), "a b c");
}

#[test]
fn apply_transforms_chain() {
    let t = [Transform::UrlDecodeUni, Transform::Lowercase];
    assert_eq!(apply_transforms("%3CSCRIPT%3E", &t), "<script>");
}

#[test]
fn url_decode_keeps_what_is_no_escape() {
    assert_eq!(url_decode_uni("100%"), "100%");
    assert_eq!(url_decode_uni("%4"), "%4");
    assert_eq!(url_decode_uni("%zz%41"), "%zzA");
    assert_eq!(url_decode_uni("a+b"), "a+b");
    assert_eq!(url_decode_uni("%uD800"), "%uD800");
}

#[test]
fn html_entities_by_name_and_number() {
    assert_eq!(html_entity_decode("&amp;&quot;&apos;"), "&\"'");
    assert_eq!(html_entity_decode("&nbsp;&#;&#x;&#xD800;"), "&nbsp;&#;&#x;&#xD800;");
    assert_eq!(html_entity_decode("&#228;"), "ä");
    assert_eq!(html_entity_decode("&lt"), "&lt");
}

#[test]
fn js_escapes() {
    assert_eq!(js_decode(r"\x41\n\t\r\q\\"), "A\n\t\rq\\");
    assert_eq!(js_decode(r"\u12"), "u12");
    assert_eq!(js_decode("end\\"), "end\\");
}

#[test]
fn css_escapes() {
    assert_eq!(css_decode(r"\41 BC"), "ABC");
    assert_eq!(css_decode(r"\000041B"), "AB");
    assert_eq!(css_decode(r"\g"), r"\g");
}

#[test]
fn unicode_escapes() {
    assert_eq!(utf8_to_unicode_escape("aä€"), "a\\u00E4\\u20AC");
}

#[test]
fn removals_and_names() {
    assert_eq!(apply_one("a\0b", &Transform::RemoveNulls), "ab");
    assert_eq!(apply_one("a \t\nb", &Transform::RemoveWhitespace), "ab");
    assert_eq!(apply_one("a b", &Transform::Identity), "a b");
    assert_eq!(apply_one("a b", &Transform::Other("md5".to_string())), "a b");
    assert_eq!(apply_one("ÄB", &Transform::Lowercase), "äb");
}

#[test]
fn transforms_compose() {
    let first = [Transform::UrlDecodeUni];
    let second = [Transform::HtmlEntityDecode, Transform::Lowercase];
    let both = [Transform::UrlDecodeUni, Transform::HtmlEntityDecode, Transform::Lowercase];
    let value = "%26lt%3BIMG";
    let once = apply_transforms(value, &first);
    assert_eq!(apply_transforms(&once, &second), apply_transforms(value, &both));
    assert_eq!(apply_transforms(value, &both), "<img");
    assert_eq!(apply_transforms(value, &[]), value);
}

#[test]
fn plain_text_stays() {
    let plain = "nothing to decode, ~here~";
    assert_eq!(url_decode_uni(plain), plain);
    assert_eq!(html_entity_decode(plain), plain);
    assert_eq!(js_decode(plain), plain);
    assert_eq!(css_decode(plain), plain);
}

#[test]
fn compressing_and_removing_twice() {
    let value = " a \t\r\n b\0\0c ";
    for t in [
        Transform::CompressWhitespace,
        Transform::RemoveNulls,
        Transform::RemoveWhitespace,
    ] {
        let once = apply_one(value, &t);
        assert_eq!(apply_one(&once, &t), once);
    }
    assert_eq!(apply_one(value, &Transform::CompressWhitespace), " a b\0\0c ");
}
