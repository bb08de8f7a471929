use llm_session::gemini::types::{InlineData, Part, TextPart};
use llm_session::gemini::utils::{find_image_link, image_links, MarkdownToParts, MatchedFiles};

#[test]
fn image_detection_regex() {
    let images = image_links(" water is good ![but fire](https://looks-good). thanks thanks");
    assert_eq!(images.len(), 1);
    for image in images {
        assert_eq!(image.alt, "but fire");
        assert_eq!(image.url, "https://looks-good");
    }
}

#[test]
fn image_link_positions() {
    let md = "a ![x](u) b ![y](v)";
    let first = find_image_link(md, 0).unwrap();
    assert_eq!((first.start, first.end), (2, 9));
    let second = find_image_link(md, first.end).unwrap();
    assert_eq!((second.start, second.end, second.alt.as_str(), second.url.as_str()), (12, 19, "y", "v"));
    assert!(find_image_link(md, second.end).is_none());
}

#[test]
fn broken_image_links_are_skipped() {
    assert!(image_links("![no close").is_empty());
    assert!(image_links("![alt]\n(url)").is_empty());
    assert!(image_links("![alt] (url)").is_empty());
    let links = image_links("![a\n![b](c)");
    assert_eq!(links.len(), 1);
    assert_eq!(links[0].alt, "b");
}

fn all_text(parts: &[Part]) -> String {
    parts
        .iter()
        .filter_map(|p| match p {
            Part::text(t) => Some(t.text.clone()),
            _ => None,
        })
        .collect()
}

fn matched(md: &str, from: usize, fetched: bool) -> MatchedFiles {
    let link = find_image_link(md, from).unwrap();
    MatchedFiles {
        index: link.start,
        length: link.end - link.start,
        mime_type: if fetched { Some("image/png".to_string()) } else { None },
        base64: if fetched { Some("AAAA".to_string()) } else { None },
    }
}

#[test]
fn markdown_with_fetched_image_becomes_three_parts() {
    let markdown = " water is good ![but fire](tests/lda.png). thanks thanks";
    let m = matched(markdown, 0, true);
    assert_eq!((m.index, m.length), (15, 26));
    let parts = MarkdownToParts::from_matches(markdown.to_string(), vec![m]).process();
    assert_eq!(all_text(&parts), markdown);
    assert_eq!(parts.len(), 3);
    assert_eq!(parts[0], Part::text(TextPart::new(" water is good ![but fire](tests/lda.png)".to_string(), false)));
    assert_eq!(parts[1], Part::inline_data(InlineData::new("image/png".to_string(), "AAAA".to_string())));
    assert_eq!(parts[2], Part::text(TextPart::new(". thanks thanks".to_string(), false)));
}

#[test]
fn markdown_with_failed_fetch_keeps_text() {
    let markdown = " water is good ![but fire](lda.png).  thanks thanks ![but fire](x.png).";
    let first = matched(markdown, 0, false);
    let second = matched(markdown, first.index + first.length, true);
    let parts = MarkdownToParts::from_matches(markdown.to_string(), vec![first, second]).process();
    assert_eq!(all_text(&parts), markdown);
    assert_eq!(parts.len(), 3);
    assert_eq!(parts[2], Part::text(TextPart::new(".".to_string(), false)));
}

#[test]
fn markdown_ending_with_image_has_no_trailing_text() {
    let markdown = "see ![i](u)";
    let parts = MarkdownToParts::from_matches(markdown.to_string(), vec![matched(markdown, 0, true)]).process();
    assert_eq!(parts.len(), 2);
    assert_eq!(all_text(&parts), markdown);
}
