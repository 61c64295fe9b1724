use crawler::parser::LinkParser;

#[test]
fn parse_urls() {
    let absolute_url = "http://www.example.com/foo.html";
    let image_url = "http://www.images.com/image.jpg";
    let base_url = "http://something.com/test";
    let relative_url = "../bar.html";
    let text = format!(
        r#"
            <a href="{}">foo</a>
            <a href="{}">bar</a>
            <a href="">zar</a>
            <img src="{}" />
        "#,
        absolute_url, relative_url, image_url
    );
    let parser = LinkParser::new(base_url.to_string());
    let urls = vec![
        absolute_url.to_string(),
        "http://something.com/bar.html".to_string(),
        image_url.to_string(),
    ];
    assert_eq!(urls, parser.parse(&text));
}

#[test]
fn invalid_data() {
    let base_url = "http://www.example.com";
    let text = "asd";
    let parser = LinkParser::new(base_url.to_string());
    assert_eq!(0, parser.parse(&text).len());
}

// An absolute link is passed through the URL parser, not returned verbatim:
// a host-only address gains its root path in the serialization.
#[test]
fn absolute_link_is_normalized() {
    let parser = LinkParser::new("http://something.com/test".to_string());
    let links = parser.parse(r#"<a href="http://www.example.com">x</a>"#);
    assert_eq!(vec!["http://www.example.com/".to_string()], links);
}

// A relative link is resolved against the base by the URL library, not glued
// on textually.
#[test]
fn relative_link_is_resolved() {
    let parser = LinkParser::new("http://host.org/a/b/page.html".to_string());
    let links = parser.parse(r#"<img src="../c.png" />"#);
    assert_eq!(vec!["http://host.org/a/c.png".to_string()], links);
}

// A value that neither parses as absolute nor resolves against the base is
// silently discarded; the scan goes on past it.
#[test]
fn unresolvable_link_is_discarded() {
    let parser = LinkParser::new("mailto:someone".to_string());
    let links = parser.parse(r#"<a href="x.html">a</a><a href="http://ok.com/y">b</a>"#);
    assert_eq!(vec!["http://ok.com/y".to_string()], links);
}

// An attribute without a closing quote captures nothing.
#[test]
fn unterminated_value_is_ignored() {
    let parser = LinkParser::new("http://something.com/".to_string());
    assert_eq!(0, parser.parse(r#"<a href="http://www.example.com/no-close"#).len());
}

// Duplicates within one page are kept and order is first-seen.
#[test]
fn duplicates_and_order_kept() {
    let parser = LinkParser::new("http://base.org/".to_string());
    let links = parser.parse(
        r#"<a href="http://b.org/1">1</a><a href="http://a.org/2">2</a><a href="http://b.org/1">1</a>"#,
    );
    assert_eq!(
        vec![
            "http://b.org/1".to_string(),
            "http://a.org/2".to_string(),
            "http://b.org/1".to_string(),
        ],
        links
    );
}
