use rashamon::page::{decode_entities, parse_html, parse_would_panic, PageNode, ParsedPage};

fn texts(p: &ParsedPage) -> Vec<String> {
    p.nodes
        .iter()
        .map(|n| match n {
            PageNode::Heading { level, text } => format!("h{level}:{text}"),
            PageNode::Paragraph(t) => format!("p:{t}"),
            PageNode::ListItem(t) => format!("li:{t}"),
            PageNode::Pre(t) => format!("pre:{t}"),
            PageNode::HRule => "hr".to_string(),
        })
        .collect()
}

#[test]
fn entities_are_decoded() {
    assert_eq!(decode_entities("a &amp; b &lt;c&gt;"), "a & b <c>");
    assert_eq!(decode_entities("&#65;&#x42;&copy;"), "AB©");
    assert_eq!(decode_entities("&unknown; & done"), "&unknown; & done");
    assert_eq!(decode_entities("&#xD800;x"), "x");
    assert_eq!(decode_entities("plain"), "plain");
}

#[test]
fn title_comes_from_title_tag() {
    let p = parse_html("<html><head><TITLE> Hello &amp; welcome </title></head><body></body></html>");
    assert_eq!(p.title.as_deref(), Some("Hello & welcome"));
    assert!(p.nodes.is_empty());
}

#[test]
fn og_title_is_the_fallback() {
    let p = parse_html("<head><meta name=\"x\"><meta property=\"og:title\" content=\"Open &quot;Graph&quot;\"></head>");
    assert_eq!(p.title.as_deref(), Some("Open \"Graph\""));
    assert_eq!(parse_html("<p>no title here at all, just text</p>").title, None);
}

#[test]
fn body_is_walked_into_nodes() {
    let html = "<html><head><style>p{}</style></head><body>\
        <h1>Main heading</h1><p>This paragraph is long enough to keep.</p>\
        <ul><li>List item text</li><li>ab</li></ul><hr><hr>\
        <pre>  keep   spaces </pre><script>var x = '<p>';</script>\
        <h2></h2><h3>Sub</h3></body></html>";
    let p = parse_html(html);
    assert_eq!(
        texts(&p),
        vec![
            "h1:Main heading".to_string(),
            "p:This paragraph is long enough to keep.".to_string(),
            "li:List item text".to_string(),
            "hr".to_string(),
            "pre:keep   spaces".to_string(),
            "h3:Sub".to_string(),
        ]
    );
}

#[test]
fn short_fragments_are_dropped() {
    let p = parse_html("<body><p>ok</p><p>Fine words</p><div>1234</div></body>");
    assert_eq!(texts(&p), vec!["p:Fine words".to_string()]);
}

#[test]
fn unterminated_tag_at_end_is_detected() {
    assert!(parse_would_panic("<p>text</p><"));
    assert!(!parse_would_panic("<p>text</p>"));
    assert!(!parse_would_panic(""));
}
