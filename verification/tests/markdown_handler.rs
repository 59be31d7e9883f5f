use note_render::events::{LinkKind, MdEvent, MdTag};
use note_render::incremental_dom::render_incremental_dom;
use note_render::markdown_handler::MarkdownHandler;

fn s(x: &str) -> String {
    x.to_string()
}

#[test]
fn inline_math_becomes_marked_inline_code() {
    let h = MarkdownHandler::new("Energy $$E = mc^2$$ and $$a$$.");
    assert_eq!(h.markdown(), "Energy `\u{2042}E = mc^2` and `\u{2042}a`.");
    assert!(h.do_refresh);
}

#[test]
fn text_without_math_is_kept() {
    let h = MarkdownHandler::new("# Title\n\nsome $5 and $$ unmatched");
    assert_eq!(h.markdown(), "# Title\n\nsome $5 and $$ unmatched");
}

#[test]
fn math_match_starts_at_the_leftmost_double_dollar_that_closes() {
    let h = MarkdownHandler::new("$$$a$$");
    assert_eq!(h.markdown(), "$`\u{2042}a`");
    let h = MarkdownHandler::new("$$$$");
    assert_eq!(h.markdown(), "`\u{2042}`");
    let h = MarkdownHandler::new("$$a\nb$$");
    assert_eq!(h.markdown(), "`\u{2042}a\nb`");
}

#[test]
fn load_markdown_replaces_and_marks_for_refresh() {
    let mut h = MarkdownHandler::new("");
    assert!(h.take_refresh());
    assert!(!h.take_refresh());
    h.load_markdown("x $$y$$");
    assert_eq!(h.markdown(), "x `\u{2042}y`");
    assert!(h.take_refresh());
    assert!(!h.do_refresh);
    h.load_markdown("z");
    assert_eq!(h.markdown(), "z");
    assert!(h.do_refresh);
}

#[test]
fn gen_parser_reads_the_note() {
    let h = MarkdownHandler::new("# Title\n\nSome *text* and $$x$$.");
    let events = h.gen_parser();
    let shape: Vec<String> = events.iter().map(|e| format!("{:?}", e)).collect();
    assert_eq!(
        shape,
        vec![
            "Start(Heading(1))",
            "Text(\"Title\")",
            "End(Heading(1))",
            "Start(Paragraph)",
            "Text(\"Some \")",
            "Start(Emphasis)",
            "Text(\"text\")",
            "End(Emphasis)",
            "Text(\" and \")",
            "Code(\"\u{2042}x\")",
            "Text(\".\")",
            "End(Paragraph)",
        ]
    );
    let page = render_incremental_dom(&events).unwrap();
    assert!(page.contains("inline_math('x');"));
}

#[test]
fn gen_parser_points_inline_images_at_the_image_server() {
    let h = MarkdownHandler::new("![Cat](pics/cat.png \"A cat\") ![Dog][d] ![up](..)\n\n[d]: pics/dog.png");
    let events = h.gen_parser();
    let images: Vec<(LinkKind, String, String)> = events
        .into_iter()
        .filter_map(|e| match e {
            MdEvent::Start(MdTag::Image(kind, dest, title)) => Some((kind, dest, title)),
            _ => None,
        })
        .collect();
    assert_eq!(
        images,
        vec![
            (LinkKind::Inline, s("http://127.0.0.1:8080/cat.png"), s("A cat")),
            (LinkKind::Reference, s("pics/dog.png"), s("")),
            (LinkKind::Inline, s("http://127.0.0.1:8080/"), s("")),
        ]
    );
}

#[test]
fn latex_blocks_in_a_list_render_all_their_lines() {
    let h = MarkdownHandler::new("- item\n\n  ```latex\n  a \\\\\n  b\n  ```\n");
    let events = h.gen_parser();
    let page = render_incremental_dom(&events).unwrap();
    assert!(page.contains("display_math('a \\\\\\\\b');"));
    assert!(!page.contains("elementClose('pre')"));
}

#[test]
fn loading_a_note_is_like_starting_with_it() {
    let text = "# A\n\n![x](dir/x.png) and $$m$$";
    let fresh = MarkdownHandler::new(text);
    let mut h = MarkdownHandler::new("something else entirely");
    h.take_refresh();
    h.load_markdown(text);
    h.load_markdown(text);
    assert!(h.do_refresh);
    assert_eq!(h.markdown(), fresh.markdown());
    let a: Vec<String> = h.gen_parser().iter().map(|e| format!("{:?}", e)).collect();
    let b: Vec<String> = fresh.gen_parser().iter().map(|e| format!("{:?}", e)).collect();
    assert_eq!(a, b);
}

#[test]
fn adjacent_and_unclosed_math() {
    let h = MarkdownHandler::new("$$a$$$$b$$ $$c$d $$\u{3b1}$$ x");
    assert_eq!(h.markdown(), "`\u{2042}a``\u{2042}b` $$c$d `\u{2042}\u{3b1}` x");
    let h = MarkdownHandler::new("$$c$d$$ $$");
    assert_eq!(h.markdown(), "$$c$d`\u{2042} `");
    let h = MarkdownHandler::new("$$x");
    assert_eq!(h.markdown(), "$$x");
    let h = MarkdownHandler::new("");
    assert_eq!(h.markdown(), "");
}
