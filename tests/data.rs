use file_shover::data::{get_mime_type, MimeType};

#[test]
fn test_mime_type_to_str() {
    assert_eq!(MimeType::TextHtml.as_str(), "text/html");
}

#[test]
fn mime_from_extension() {
    assert_eq!(get_mime_type("/index.html"), MimeType::TextHtml);
    assert_eq!(get_mime_type("a/b/style.css"), MimeType::TextCss);
    assert_eq!(get_mime_type("app.min.js"), MimeType::TextJavascript);
    assert_eq!(get_mime_type("/img/photo.jpg"), MimeType::ImageJpeg);
    assert_eq!(get_mime_type("notes.txt"), MimeType::TextPlain);
    assert_eq!(get_mime_type("README"), MimeType::TextPlain);
    assert_eq!(get_mime_type("/dir.html/file"), MimeType::TextPlain);
    assert_eq!(get_mime_type(".html"), MimeType::TextPlain);
    assert_eq!(get_mime_type("/x/.html"), MimeType::TextPlain);
    assert_eq!(get_mime_type("page.HTML"), MimeType::TextPlain);
    assert_eq!(get_mime_type(""), MimeType::TextPlain);
    assert_eq!(get_mime_type("a.html/"), MimeType::TextHtml);
    assert_eq!(get_mime_type("x/a.html/."), MimeType::TextHtml);
    assert_eq!(get_mime_type("x/a.css//./"), MimeType::TextCss);
    assert_eq!(get_mime_type("x.js/.."), MimeType::TextPlain);
    assert_eq!(get_mime_type("./"), MimeType::TextPlain);
    assert_eq!(get_mime_type("/"), MimeType::TextPlain);
    assert_eq!(get_mime_type("a."), MimeType::TextPlain);
}

#[test]
fn mime_strings() {
    assert_eq!(MimeType::TextCss.as_str(), "text/css");
    assert_eq!(MimeType::TextJavascript.as_str(), "text/javascript");
    assert_eq!(MimeType::ImageJpeg.as_str(), "image/jpeg");
    assert_eq!(MimeType::TextPlain.as_str(), "text/plain");
}
