use rashamon::persist::{
    bookmarks_from_text, bookmarks_json, history_from_text, history_json, theme_from_text,
    theme_json, StoredBookmark, StoredHistory,
};

fn bm(title: &str, url: &str) -> StoredBookmark {
    StoredBookmark { title: title.to_string(), url: url.to_string() }
}

#[test]
fn bookmarks_file_format() {
    let text = bookmarks_json(&[bm("A \"quoted\" title", "https://a.example"), bm("B", "https://b.example")]);
    assert_eq!(
        text,
        "[\n  {\"title\": \"A \\\"quoted\\\" title\", \"url\": \"https://a.example\"},\n  {\"title\": \"B\", \"url\": \"https://b.example\"}\n]\n"
    );
    assert_eq!(bookmarks_json(&[]), "[\n]\n");
}

#[test]
fn bookmarks_round_trip() {
    let list = vec![bm("Tab\tand\nnewline", "https://a.example/?q=1"), bm("", "https://b.example"), bm("ünï", "https://c.example")];
    let back = bookmarks_from_text(&bookmarks_json(&list));
    assert_eq!(back.len(), 3);
    for (a, b) in list.iter().zip(back.iter()) {
        assert_eq!(a.title, b.title);
        assert_eq!(a.url, b.url);
    }
}

#[test]
fn history_file_puts_url_first_and_round_trips() {
    let h = vec![StoredHistory { url: "https://a.example".to_string(), title: "A".to_string() }];
    let text = history_json(&h);
    assert_eq!(text, "[\n  {\"url\": \"https://a.example\", \"title\": \"A\"}\n]\n");
    let back = history_from_text(&text);
    assert_eq!(back.len(), 1);
    assert_eq!(back[0].url, "https://a.example");
    assert_eq!(back[0].title, "A");
}

#[test]
fn records_without_url_are_dropped() {
    let text = "[{\"title\": \"no url\"}, {\"url\": \"\", \"title\": \"empty\"}, {\"url\": \"https://x.example\"}]";
    let back = bookmarks_from_text(text);
    assert_eq!(back.len(), 1);
    assert_eq!(back[0].url, "https://x.example");
    assert_eq!(back[0].title, "");
}

#[test]
fn unicode_escapes_are_decoded() {
    let text = "[{\"url\": \"https://x.example\", \"title\": \"caf\\u00e9 \\/ x\"}]";
    let back = history_from_text(text);
    assert_eq!(back.len(), 1);
    assert_eq!(back[0].title, "café / x");
}

#[test]
fn malformed_text_gives_nothing() {
    assert!(bookmarks_from_text("{not-json").is_empty());
    assert!(history_from_text("").is_empty());
    assert_eq!(theme_from_text("[]"), None);
}

#[test]
fn theme_round_trips() {
    let text = theme_json("LightClean");
    assert_eq!(text, "{\n  \"theme\": \"LightClean\"\n}\n");
    assert_eq!(theme_from_text(&text).as_deref(), Some("LightClean"));
    assert_eq!(theme_from_text("{\"other\": \"x\"}"), None);
}
