use std::collections::VecDeque;

use note_render::filesystem_handler::{FilesystemHandler, ResourceRequest};
use note_render::noterender::{dom_update_script, enqueue_event, handle_events, inject_resources, EventAction, JavascriptEvent};

#[test]
fn page_messages_name_events() {
    assert_eq!(JavascriptEvent::from("ready"), JavascriptEvent::READY);
    assert_eq!(JavascriptEvent::from("test"), JavascriptEvent::TEST);
    assert_eq!(JavascriptEvent::from("Ready"), JavascriptEvent::NONE);
    assert_eq!(JavascriptEvent::from(""), JavascriptEvent::NONE);
}

#[test]
fn events_are_handled_in_arrival_order() {
    let mut queue = VecDeque::new();
    enqueue_event(&mut queue, "test");
    enqueue_event(&mut queue, "ready");
    enqueue_event(&mut queue, "test");
    let actions = handle_events(&mut queue);
    assert_eq!(actions, vec![EventAction::ReportTest, EventAction::ReloadPage, EventAction::ReportTest]);
    assert!(queue.is_empty());
}

#[test]
fn an_undefined_event_stops_handling() {
    let mut queue = VecDeque::new();
    enqueue_event(&mut queue, "ready");
    enqueue_event(&mut queue, "bogus");
    enqueue_event(&mut queue, "test");
    let actions = handle_events(&mut queue);
    assert_eq!(actions, vec![EventAction::ReloadPage]);
    assert_eq!(queue, VecDeque::from(vec![JavascriptEvent::TEST]));
    let actions = handle_events(&mut queue);
    assert_eq!(actions, vec![EventAction::ReportTest]);
    assert!(queue.is_empty());
    assert!(handle_events(&mut queue).is_empty());
}

#[test]
fn page_loads_style_sheets_and_scripts() {
    let css = vec!["css_inject/github.css".to_string(), "css_inject/readme.txt".to_string()];
    let js = vec!["javascript_inject/katex.js".to_string(), "javascript_inject/style.css".to_string()];
    let page = inject_resources(&css, &js, "<p>hi</p>");
    let expected = [
        "<!DOCTYPE html>\n<html lang=\"en\">\n<head>\n",
        "<link rel=\"stylesheet\" href=\"http://127.0.0.1:8080/github.css\"></style>\n",
        "<script type=\"text/javascript\" src=\"http://127.0.0.1:8080/katex.js\"></script>\n",
        "\n</head>\n<body id=\"content\" class=\"markdown-body\" onload=\"on_ready()\">\n",
        "<p>hi</p>",
        "\n</body></html>"
    ].concat();
    assert_eq!(page, expected);
}

#[test]
fn page_without_resources() {
    let page = inject_resources(&vec![], &vec![], "");
    assert_eq!(
        page,
        "<!DOCTYPE html>\n<html lang=\"en\">\n<head>\n\n</head>\n<body id=\"content\" class=\"markdown-body\" onload=\"on_ready()\">\n\n</body></html>"
    );
}

#[test]
fn update_script_wraps_the_page() {
    assert_eq!(
        dom_update_script("IncrementalDOM.text('a');"),
        "doIncrementalDom(String.raw`IncrementalDOM.text('a');`);"
    );
}

#[test]
fn injected_style_sheet_address_routes_to_the_built_in_file() {
    let page = inject_resources(&vec!["css_inject/katex.min.css".to_string()], &vec![], "");
    let start = "<link rel=\"stylesheet\" href=\"http://127.0.0.1:8080";
    let at = page.find(start).unwrap() + start.len();
    let request = &page[at..at + page[at..].find('"').unwrap()];
    assert_eq!(request, "/katex.min.css");
    let h = FilesystemHandler::new("/d/n.md");
    match h.route_request(request) {
        ResourceRequest::Embedded(p) => assert_eq!(p, "css_inject/katex.min.css"),
        other => panic!("expected a built-in file, got {:?}", other),
    }
}
