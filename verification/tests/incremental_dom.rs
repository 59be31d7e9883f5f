use note_render::events::{ColumnAlignment, LinkKind, MdEvent, MdTag};
use note_render::incremental_dom::{push_incremental_dom, render_incremental_dom, IncrementalDomWriter};

fn s(x: &str) -> String {
    x.to_string()
}

fn render(events: Vec<MdEvent>) -> String {
    render_incremental_dom(&events).expect("rendering should succeed")
}

#[test]
fn escape_drops_newlines_and_escapes_quotes_and_backslashes() {
    assert_eq!(
        IncrementalDomWriter::escape_without_quotes("a\nb\\c\"d'e"),
        "ab\\\\c\\\"d\\'e"
    );
    assert_eq!(IncrementalDomWriter::escape_without_quotes(""), "");
    assert_eq!(IncrementalDomWriter::escape_without_quotes("\u{2042}x"), "\u{2042}x");
}

#[test]
fn escape_matches_sequential_replacements() {
    let samples = ["", "plain", "\\'\"\n", "it's \"quoted\"\\\n\\n", "\n\n'''\\\\"];
    for sample in samples.iter() {
        let expected = sample
            .replace("\n", "")
            .replace("\\", "\\\\")
            .replace("\"", "\\\"")
            .replace("\'", "\\'");
        assert_eq!(IncrementalDomWriter::escape_without_quotes(sample), expected);
    }
}

#[test]
fn paragraph_with_text() {
    let out = render(vec![
        MdEvent::Start(MdTag::Paragraph),
        MdEvent::Text(s("Hello 'world'")),
        MdEvent::End(MdTag::Paragraph),
    ]);
    assert_eq!(
        out,
        "IncrementalDOM.elementOpen('p',null,null);IncrementalDOM.text('Hello \\'world\\'');IncrementalDOM.elementClose('p');"
    );
}

#[test]
fn empty_event_list_renders_nothing() {
    assert_eq!(render(vec![]), "");
}

#[test]
fn headings_carry_their_level() {
    let out = render(vec![
        MdEvent::Start(MdTag::Heading(2)),
        MdEvent::Text(s("T")),
        MdEvent::End(MdTag::Heading(2)),
        MdEvent::Start(MdTag::Heading(12)),
        MdEvent::End(MdTag::Heading(12)),
    ]);
    assert_eq!(
        out,
        "IncrementalDOM.elementOpen('h2',null,null);IncrementalDOM.text('T');IncrementalDOM.elementClose('h2');IncrementalDOM.elementOpen('h12',null,null);IncrementalDOM.elementClose('h12');"
    );
}

#[test]
fn lists_ordered_unordered_and_with_start() {
    let out = render(vec![
        MdEvent::Start(MdTag::List(Some(1))),
        MdEvent::Start(MdTag::Item),
        MdEvent::End(MdTag::Item),
        MdEvent::End(MdTag::List(Some(1))),
        MdEvent::Start(MdTag::List(Some(3))),
        MdEvent::End(MdTag::List(Some(3))),
        MdEvent::Start(MdTag::List(None)),
        MdEvent::End(MdTag::List(None)),
    ]);
    assert_eq!(
        out,
        "IncrementalDOM.elementOpen('ol',null,null);IncrementalDOM.elementOpen('li',null,null);IncrementalDOM.elementClose('li');IncrementalDOM.elementClose('ol');IncrementalDOM.elementOpen('ol',null,null,'start','3');IncrementalDOM.elementClose('ol');IncrementalDOM.elementOpen('ul',null,null);IncrementalDOM.elementClose('ul');"
    );
}

#[test]
fn list_start_with_many_digits() {
    let out = render(vec![MdEvent::Start(MdTag::List(Some(1234567890123)))]);
    assert_eq!(out, "IncrementalDOM.elementOpen('ol',null,null,'start','1234567890123');");
}

#[test]
fn inline_code_and_inline_math() {
    let out = render(vec![MdEvent::Code(s("x = 'a'"))]);
    assert_eq!(
        out,
        "IncrementalDOM.elementOpen('code',null,null);IncrementalDOM.text('x = \\'a\\'');IncrementalDOM.elementClose('code');"
    );
    let out = render(vec![MdEvent::Code(s("\u{2042}a+b"))]);
    assert_eq!(out, "inline_math('a+b');");
    let out = render(vec![MdEvent::Code(s("\u{2042}\\frac{1}{2}"))]);
    assert_eq!(out, "inline_math('\\\\frac{1}{2}');");
}

#[test]
fn newline_before_marker_still_gives_inline_math() {
    // the newline is dropped before the marker is looked for
    let out = render(vec![MdEvent::Code(s("\n\u{2042}x"))]);
    assert_eq!(out, "inline_math('x');");
}

#[test]
fn latex_code_block_renders_display_math() {
    let out = render(vec![
        MdEvent::Start(MdTag::CodeBlock(s("latex"))),
        MdEvent::Text(s("x^2 \\\\\ny\n")),
        MdEvent::End(MdTag::CodeBlock(s("latex"))),
        MdEvent::Rule,
    ]);
    assert_eq!(out, "display_math('x^2 \\\\\\\\y');IncrementalDOM.elementVoid('hr',null,null);");
}

#[test]
fn latex_code_block_joins_all_its_lines() {
    let out = render(vec![
        MdEvent::Start(MdTag::CodeBlock(s("latex"))),
        MdEvent::Text(s("a = b \\\\\n")),
        MdEvent::Text(s("c = d\n")),
        MdEvent::Text(s("e\n")),
        MdEvent::End(MdTag::CodeBlock(s("latex"))),
        MdEvent::Text(s("after")),
    ]);
    assert_eq!(out, "display_math('a = b \\\\\\\\c = de');IncrementalDOM.text('after');");
}

#[test]
fn latex_code_block_with_more_info_words() {
    let out = render(vec![
        MdEvent::Start(MdTag::CodeBlock(s("latex numbered"))),
        MdEvent::Text(s("a")),
        MdEvent::End(MdTag::CodeBlock(s("latex numbered"))),
    ]);
    assert_eq!(out, "display_math('a');");
}

#[test]
fn latex_code_block_without_text_cannot_render() {
    let events = vec![
        MdEvent::Start(MdTag::CodeBlock(s("latex"))),
        MdEvent::End(MdTag::CodeBlock(s("latex"))),
    ];
    assert!(render_incremental_dom(&events).is_none());
    let events = vec![MdEvent::Start(MdTag::CodeBlock(s("latex")))];
    assert!(render_incremental_dom(&events).is_none());
}

#[test]
fn latex_block_text_at_the_very_end() {
    let out = render(vec![
        MdEvent::Start(MdTag::CodeBlock(s("latex"))),
        MdEvent::Text(s("z")),
    ]);
    assert_eq!(out, "display_math('z');");
}

#[test]
fn other_code_blocks_name_their_language() {
    let out = render(vec![
        MdEvent::Start(MdTag::CodeBlock(s("rust ignore"))),
        MdEvent::Text(s("fn main() {}\n")),
        MdEvent::End(MdTag::CodeBlock(s("rust ignore"))),
    ]);
    assert_eq!(
        out,
        "IncrementalDOM.elementOpen('pre',null,null);IncrementalDOM.elementOpen('code',null,null,'class','language-rust');IncrementalDOM.text('fn main() {}');IncrementalDOM.elementClose('code');IncrementalDOM.elementClose('pre');"
    );
    let out = render(vec![MdEvent::Start(MdTag::CodeBlock(s("")))]);
    assert_eq!(
        out,
        "IncrementalDOM.elementOpen('pre',null,null);IncrementalDOM.elementOpen('code',null,null,'class','language-');"
    );
}

#[test]
fn image_takes_its_alt_text_from_the_events_inside() {
    let out = render(vec![
        MdEvent::Start(MdTag::Image(LinkKind::Inline, s("http://127.0.0.1:8080/cat.png"), s("A cat"))),
        MdEvent::Text(s("my cat")),
        MdEvent::Start(MdTag::Emphasis),
        MdEvent::Text(s("<3")),
        MdEvent::End(MdTag::Emphasis),
        MdEvent::SoftBreak,
        MdEvent::TaskListMarker(true),
        MdEvent::End(MdTag::Image(LinkKind::Inline, s("http://127.0.0.1:8080/cat.png"), s("A cat"))),
        MdEvent::Text(s("after")),
    ]);
    assert_eq!(
        out,
        "IncrementalDOM.elementOpen('img',null,null,'src','http://127.0.0.1:8080/cat.png','alt','my&#x20;cat&lt;3 [x]','title','A cat');IncrementalDOM.elementClose('img');IncrementalDOM.text('after');"
    );
}

#[test]
fn image_alt_text_with_footnote_reference_and_unclosed_image() {
    let out = render(vec![
        MdEvent::Start(MdTag::Image(LinkKind::Reference, s("d"), s("t"))),
        MdEvent::FootnoteReference(s("n")),
        MdEvent::TaskListMarker(false),
        MdEvent::Rule,
    ]);
    assert_eq!(
        out,
        "IncrementalDOM.elementOpen('img',null,null,'src','d','alt','[1][ ] ','title','t');IncrementalDOM.elementClose('img');"
    );
}

#[test]
fn footnotes_keep_their_numbers() {
    let out = render(vec![
        MdEvent::FootnoteReference(s("b note")),
        MdEvent::FootnoteReference(s("a")),
        MdEvent::FootnoteReference(s("b note")),
        MdEvent::Start(MdTag::FootnoteDefinition(s("a"))),
        MdEvent::End(MdTag::FootnoteDefinition(s("a"))),
    ]);
    let first = "IncrementalDOM.elementOpen('sup',null,null,'class','footnote-reference');IncrementalDOM.elementOpen('a', null,null,'href','#b&#x20;noteIncrementalDOM.text('1');IncrementalDOM.elementClose('a');IncrementalDOM.elementClose('sup');";
    let second = "IncrementalDOM.elementOpen('sup',null,null,'class','footnote-reference');IncrementalDOM.elementOpen('a', null,null,'href','#aIncrementalDOM.text('2');IncrementalDOM.elementClose('a');IncrementalDOM.elementClose('sup');";
    let definition = "IncrementalDOM.elementOpen('div',null,null,'class','footnote-definition','id','a;IncrementalDOM.elementOpen('sup',null,null,'class','footnote-definition-label');IncrementalDOM.text('2');IncrementalDOM.elementClose('sup');IncrementalDOM.elementClose('div');";
    assert_eq!(out, format!("{}{}{}{}", first, second, first, definition));
}

#[test]
fn tables_align_cells_and_switch_from_head_to_body() {
    let out = render(vec![
        MdEvent::Start(MdTag::Table(vec![ColumnAlignment::Left, ColumnAlignment::Unaligned, ColumnAlignment::Right])),
        MdEvent::Start(MdTag::TableHead),
        MdEvent::Start(MdTag::TableCell),
        MdEvent::End(MdTag::TableCell),
        MdEvent::Start(MdTag::TableCell),
        MdEvent::End(MdTag::TableCell),
        MdEvent::End(MdTag::TableHead),
        MdEvent::Start(MdTag::TableRow),
        MdEvent::Start(MdTag::TableCell),
        MdEvent::End(MdTag::TableCell),
        MdEvent::Start(MdTag::TableCell),
        MdEvent::End(MdTag::TableCell),
        MdEvent::Start(MdTag::TableCell),
        MdEvent::End(MdTag::TableCell),
        MdEvent::Start(MdTag::TableCell),
        MdEvent::End(MdTag::TableCell),
        MdEvent::End(MdTag::TableRow),
        MdEvent::End(MdTag::Table(vec![])),
    ]);
    let expected = [
        "IncrementalDOM.elementOpen('table',null,null);",
        "IncrementalDOM.elementOpen('thead',null,null);IncrementalDOM.elementOpen('tr',null,null);",
        "IncrementalDOM.elementOpen('th',null,null,'align','left');IncrementalDOM.elementClose('th');",
        "IncrementalDOM.elementOpen('th',null,null,'align','');IncrementalDOM.elementClose('th');",
        "IncrementalDOM.elementClose('tr');IncrementalDOM.elementClose('thead');IncrementalDOM.elementOpen('tbody',null,null);",
        "IncrementalDOM.elementOpen('tr',null,null);",
        "IncrementalDOM.elementOpen('td',null,null,'align','left');IncrementalDOM.elementClose('td');",
        "IncrementalDOM.elementOpen('td',null,null,'align','');IncrementalDOM.elementClose('td');",
        "IncrementalDOM.elementOpen('td',null,null,'align','right');IncrementalDOM.elementClose('td');",
        "IncrementalDOM.elementOpen('td',null,null,'align','');IncrementalDOM.elementClose('td');",
        "IncrementalDOM.elementClose('tr');",
        "IncrementalDOM.elementClose('tbody');IncrementalDOM.elementClose('table');"
    ].concat();
    assert_eq!(out, expected);
}

#[test]
fn center_alignment() {
    let out = render(vec![
        MdEvent::Start(MdTag::Table(vec![ColumnAlignment::Center])),
        MdEvent::Start(MdTag::TableRow),
        MdEvent::Start(MdTag::TableCell),
    ]);
    assert_eq!(
        out,
        "IncrementalDOM.elementOpen('table',null,null);IncrementalDOM.elementOpen('tr',null,null);IncrementalDOM.elementOpen('th',null,null,'align','center');"
    );
}

#[test]
fn inline_elements_breaks_rules_and_markers() {
    let out = render(vec![
        MdEvent::Start(MdTag::BlockQuote),
        MdEvent::Start(MdTag::Strong),
        MdEvent::End(MdTag::Strong),
        MdEvent::Start(MdTag::Strikethrough),
        MdEvent::End(MdTag::Strikethrough),
        MdEvent::Start(MdTag::Emphasis),
        MdEvent::End(MdTag::Emphasis),
        MdEvent::SoftBreak,
        MdEvent::HardBreak,
        MdEvent::Rule,
        MdEvent::TaskListMarker(true),
        MdEvent::TaskListMarker(false),
        MdEvent::Html(s("<b a='1'>")),
        MdEvent::End(MdTag::BlockQuote),
    ]);
    let expected = [
        "IncrementalDOM.elementOpen('blockquote',null,null);",
        "IncrementalDOM.elementOpen('strong',null,null);IncrementalDOM.elementClose('strong');",
        "IncrementalDOM.elementOpen('del',null,null);IncrementalDOM.elementClose('del');",
        "IncrementalDOM.elementOpen('em',null,null);IncrementalDOM.elementClose('em');",
        "IncrementalDOM.elementVoid('br',null,null);IncrementalDOM.elementVoid('br',null,null);",
        "IncrementalDOM.elementVoid('hr',null,null);",
        "IncrementalDOM.elementVoid('input',null,null,'disabled','','type','checkbox','checked','');",
        "IncrementalDOM.elementVoid('input',null,null,'disabled','','type','checkbox');",
        "html('<b a=\\'1\\'>');",
        "IncrementalDOM.elementClose('blockquote');"
    ].concat();
    assert_eq!(out, expected);
}

#[test]
fn links_render_only_their_text() {
    let out = render(vec![
        MdEvent::Start(MdTag::Link(LinkKind::Inline, s("http://x"), s(""))),
        MdEvent::Text(s("x")),
        MdEvent::End(MdTag::Link(LinkKind::Inline, s("http://x"), s(""))),
        MdEvent::End(MdTag::Image(LinkKind::Inline, s("i"), s(""))),
    ]);
    assert_eq!(out, "IncrementalDOM.text('x');");
}

#[test]
fn push_incremental_dom_replaces_the_string() {
    let mut out = String::from("old contents");
    let events = vec![MdEvent::Rule];
    push_incremental_dom(&mut out, &events);
    assert_eq!(out, "IncrementalDOM.elementVoid('hr',null,null);");
}

#[test]
fn writer_runs_from_the_start() {
    let events = vec![MdEvent::Text(s("a")), MdEvent::HardBreak];
    let mut writer = IncrementalDomWriter::new(&events);
    assert_eq!(
        writer.run(),
        Some(s("IncrementalDOM.text('a');IncrementalDOM.elementVoid('br',null,null);"))
    );
}

/// Reads `s` as the content of a single-quoted JavaScript string literal
/// whose only escapes are `\\`, `\'` and `\"`.
fn read_js_string_content(s: &str) -> Option<String> {
    let mut out = String::new();
    let mut chars = s.chars();
    while let Some(c) = chars.next() {
        match c {
            '\\' => match chars.next() {
                Some(e) if e == '\\' || e == '\'' || e == '"' => out.push(e),
                _ => return None,
            },
            '\'' | '\n' | '\r' | '\u{2028}' | '\u{2029}' => return None,
            other => out.push(other),
        }
    }
    Some(out)
}

#[test]
fn escaped_text_reads_back_as_the_text_without_newlines() {
    let samples = ["", "a'b", "\\'\"\\\\", "line one\nline two\n", "it\\'s", "\u{2042}'\n"];
    for sample in samples.iter() {
        let escaped = IncrementalDomWriter::escape_without_quotes(sample);
        assert_eq!(read_js_string_content(&escaped), Some(sample.replace("\n", "")));
    }
    // a carriage return is kept as it is and would end the literal
    let escaped = IncrementalDomWriter::escape_without_quotes("a\r\nb");
    assert_eq!(read_js_string_content(&escaped), None);
}

#[test]
fn encoded_footnote_labels_hold_only_safe_characters() {
    let label = "a'b\"<c>\\ \u{e9}\u{3b1}&";
    let out = render(vec![MdEvent::Start(MdTag::FootnoteDefinition(s(label)))]);
    let prefix = "IncrementalDOM.elementOpen('div',null,null,'class','footnote-definition','id','";
    assert!(out.starts_with(prefix));
    let rest = &out[prefix.len()..];
    let encoded = &rest[..rest.find(";IncrementalDOM").unwrap()];
    assert_eq!(encoded, "a&#x27;b&quot;&lt;c&gt;&#x5C;&#x20;&#xE9;\u{3b1}&amp;");
    for c in encoded.chars() {
        assert!(c.is_ascii_alphanumeric() || c == '&' || c == '#' || c == ';' || (c as u32) >= 256);
    }
}

/// Reads `s` where a backslash makes the next character stand for itself.
fn read_backslash_pairs(s: &str) -> Option<String> {
    let mut out = String::new();
    let mut chars = s.chars();
    while let Some(c) = chars.next() {
        match c {
            '\\' => out.push(chars.next()?),
            '\'' | '"' | '\n' => return None,
            other => out.push(other),
        }
    }
    Some(out)
}

#[test]
fn every_escaped_text_reads_back_by_backslash_pairs() {
    let samples = ["", "a\r\nb", "\u{2028}'\"\\", "\\\\\n\n'", "x\ny"];
    for sample in samples.iter() {
        let escaped = IncrementalDomWriter::escape_without_quotes(sample);
        assert!(!escaped.contains('\n'));
        assert_eq!(read_backslash_pairs(&escaped), Some(sample.replace("\n", "")));
    }
}

#[test]
fn events_that_render_alone_render_one_after_the_other() {
    let a = || vec![MdEvent::Text(s("x'y")), MdEvent::SoftBreak, MdEvent::Code(s("c"))];
    let b = || vec![MdEvent::Rule, MdEvent::TaskListMarker(true), MdEvent::Html(s("<b>")), MdEvent::HardBreak];
    let mut ab = a();
    ab.extend(b());
    assert_eq!(render(ab), render(a()) + &render(b()));
    assert_eq!(render(vec![MdEvent::SoftBreak]), "IncrementalDOM.elementVoid('br',null,null);");
    assert_eq!(render(vec![MdEvent::HardBreak]), "IncrementalDOM.elementVoid('br',null,null);");
    assert_eq!(render(vec![MdEvent::Rule]), "IncrementalDOM.elementVoid('hr',null,null);");
}

#[test]
fn nested_elements_close_innermost_first() {
    let out = render(vec![
        MdEvent::Start(MdTag::BlockQuote),
        MdEvent::Start(MdTag::List(None)),
        MdEvent::Start(MdTag::Item),
        MdEvent::Start(MdTag::Strong),
        MdEvent::Text(s("x")),
        MdEvent::End(MdTag::Strong),
        MdEvent::End(MdTag::Item),
        MdEvent::End(MdTag::List(None)),
        MdEvent::End(MdTag::BlockQuote),
        MdEvent::Rule,
    ]);
    assert_eq!(
        out,
        "IncrementalDOM.elementOpen('blockquote',null,null);\
         IncrementalDOM.elementOpen('ul',null,null);\
         IncrementalDOM.elementOpen('li',null,null);\
         IncrementalDOM.elementOpen('strong',null,null);\
         IncrementalDOM.text('x');\
         IncrementalDOM.elementClose('strong');\
         IncrementalDOM.elementClose('li');\
         IncrementalDOM.elementClose('ul');\
         IncrementalDOM.elementClose('blockquote');\
         IncrementalDOM.elementVoid('hr',null,null);"
    );
}
