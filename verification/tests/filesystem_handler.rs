use note_render::events::{MdEvent, MdTag};
use note_render::filesystem_handler::{FilesystemHandler, ResourceRequest};
use note_render::markdown_handler::MarkdownHandler;

fn embedded(r: ResourceRequest) -> String {
    match r {
        ResourceRequest::Embedded(p) => p,
        other => panic!("expected an embedded resource, got {:?}", other),
    }
}

fn image(r: ResourceRequest) -> String {
    match r {
        ResourceRequest::Image(p) => p,
        other => panic!("expected an image, got {:?}", other),
    }
}

#[test]
fn only_existing_markdown_files_are_accepted() {
    assert!(FilesystemHandler::verify_file_argument(Some("notes.md".to_string()), true));
    assert!(FilesystemHandler::verify_file_argument(Some("/a/b/notes.mdl".to_string()), true));
    assert!(!FilesystemHandler::verify_file_argument(Some("notes.md".to_string()), false));
    assert!(!FilesystemHandler::verify_file_argument(Some("notes.txt".to_string()), true));
    assert!(!FilesystemHandler::verify_file_argument(Some("notes".to_string()), true));
    assert!(!FilesystemHandler::verify_file_argument(Some(".md".to_string()), true));
    assert!(!FilesystemHandler::verify_file_argument(Some("notes.MD".to_string()), true));
    assert!(!FilesystemHandler::verify_file_argument(None, true));
}

#[test]
fn style_sheets_scripts_and_fonts_are_built_in() {
    let h = FilesystemHandler::new("/home/me/notes/lecture.md");
    assert!(h.has_file_stem());
    assert_eq!(embedded(h.route_request("/style.css")), "css_inject/style.css");
    assert_eq!(embedded(h.route_request("/katex/katex.min.js")), "javascript_inject/katex.min.js");
    assert_eq!(embedded(h.route_request("/fonts/KaTeX_Main.woff2")), "font_inject/KaTeX_Main.woff2");
    assert_eq!(embedded(h.route_request("/a.woff")), "font_inject/a.woff");
    assert_eq!(embedded(h.route_request("/a.ttf")), "font_inject/a.ttf");
}

#[test]
fn other_requests_are_images_next_to_the_note() {
    let h = FilesystemHandler::new("/home/me/notes/lecture.md");
    assert_eq!(image(h.route_request("/cat.png")), "images/lecture/cat.png");
    assert_eq!(image(h.route_request("/plain")), "images/lecture/plain");
}

#[test]
fn watching_a_new_file_returns_the_old_one() {
    let mut h = FilesystemHandler::new("a.md");
    let previous = h.watch_new_file("dir/b.mdl");
    assert_eq!(previous, "a.md");
    assert_eq!(h.watching_path(), "dir/b.mdl");
    assert_eq!(image(h.route_request("/x.png")), "images/b/x.png");
}

#[test]
fn a_path_without_file_name_has_no_stem() {
    let h = FilesystemHandler::new("/");
    assert!(!h.has_file_stem());
}

#[test]
fn extensions_and_stems_follow_the_file_name() {
    let h = FilesystemHandler::new("dir/.hidden");
    assert_eq!(image(h.route_request("/x.png")), "images/.hidden/x.png");
    let h = FilesystemHandler::new("dir/archive.tar.md");
    assert_eq!(image(h.route_request("/x.png")), "images/archive.tar/x.png");
    assert_eq!(image(h.route_request("/.css")), "images/archive.tar/.css");
    assert_eq!(embedded(h.route_request("/a.b.css")), "css_inject/a.b.css");
    assert_eq!(image(h.route_request("/a.css.png")), "images/archive.tar/a.css.png");
    assert!(FilesystemHandler::verify_file_argument(Some("a.b.md".to_string()), true));
    assert!(!FilesystemHandler::verify_file_argument(Some("notes.md.txt".to_string()), true));
}

#[test]
fn an_inline_image_address_routes_to_the_note_images() {
    let events = MarkdownHandler::new("![c](any/dir/cat.png)").gen_parser();
    let address = events
        .into_iter()
        .find_map(|e| match e {
            MdEvent::Start(MdTag::Image(_, dest, _)) => Some(dest),
            _ => None,
        })
        .unwrap();
    assert_eq!(address, "http://127.0.0.1:8080/cat.png");
    let request = &address["http://127.0.0.1:8080".len()..];
    let h = FilesystemHandler::new("/d/n.md");
    assert_eq!(image(h.route_request(request)), "images/n/cat.png");
}
