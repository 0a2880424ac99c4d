use css_parser::{parse_stylesheet_from_url, CssStyleSheet};
use url::Url;

#[test]
fn sheet_location_title_and_base_url() {
    let location = Url::parse("https://example.com/css/style.css?x=1").unwrap();
    let sheet = CssStyleSheet::new(location, Vec::new());
    assert_eq!(sheet.location, "https://example.com/css/style.css?x=1");
    assert_eq!(sheet.title, "/css/style.css");
    assert_eq!(sheet.base_url, "example.com");
    assert_eq!(sheet.type_sheet, "StyleSheet");
}

#[test]
fn sheet_without_domain() {
    let location = Url::parse("file:///tmp/style.css").unwrap();
    let sheet = CssStyleSheet::new(location, Vec::new());
    assert_eq!(sheet.location, "file:///tmp/style.css");
    assert_eq!(sheet.title, "/tmp/style.css");
    assert_eq!(sheet.base_url, "Host not get in the url");
    let ip = Url::parse("http://127.0.0.1/a.css").unwrap();
    assert_eq!(CssStyleSheet::new(ip, Vec::new()).base_url, "Host not get in the url");
}

#[test]
fn parse_from_url_keeps_rules() {
    let location = Url::parse("https://example.org/a.css").unwrap();
    let sheet = parse_stylesheet_from_url(location, "a { b: c }".to_string()).unwrap();
    assert_eq!(sheet.rules.len(), 1);
    assert_eq!(sheet.base_url, "example.org");
}
