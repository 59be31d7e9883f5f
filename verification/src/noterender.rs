//! The viewer window's side of the note: the page it starts from, the
//! script that updates it, and what to do with the events it sends back.

use vstd::prelude::*;
use std::collections::VecDeque;

use crate::filesystem_handler::{ResourceView, resource_for};
use crate::paths::{extension, file_name, path_extension, path_file_name};

verus! {

/// A message from the page's JavaScript.
#[derive(Clone, Copy, Debug, PartialEq, Eq, Structural)]
pub enum JavascriptEvent {
    /// a message the page does not define
    NONE,
    /// the page finished loading
    READY,
    /// a test message
    TEST,
}

/// The event a page message names: `"ready"`, `"test"`, or anything else.
pub open spec fn event_named(arg: Seq<char>) -> JavascriptEvent {
    if arg == "ready"@ {
        JavascriptEvent::READY
    } else if arg == "test"@ {
        JavascriptEvent::TEST
    } else {
        JavascriptEvent::NONE
    }
}

impl<'a> From<&'a str> for JavascriptEvent {
    fn from(arg: &'a str) -> (ev: JavascriptEvent) {
        let arg = arg.to_owned();
        if arg == "ready".to_owned() {
            JavascriptEvent::READY
        } else if arg == "test".to_owned() {
            JavascriptEvent::TEST
        } else {
            JavascriptEvent::NONE
        }
    }
}

impl<'a> vstd::std_specs::convert::FromSpecImpl<&'a str> for JavascriptEvent {
    open spec fn obeys_from_spec() -> bool {
        true
    }

    open spec fn from_spec(v: &'a str) -> JavascriptEvent {
        event_named(v@)
    }
}

/// What the window has to do for a handled event.
#[derive(Clone, Copy, Debug, PartialEq, Eq, Structural)]
pub enum EventAction {
    /// report the page as ready and load the current page into it
    ReloadPage,
    /// report the test message
    ReportTest,
}

/// Handling a queue of events: events are taken from the back (the oldest
/// first, as new ones are pushed at the front) until the queue is empty or
/// an event the page does not define was taken. Returns the actions, in
/// order, and the events left in the queue.
pub open spec fn handled_events(queue: Seq<JavascriptEvent>) -> (Seq<EventAction>, Seq<JavascriptEvent>)
    decreases queue.len(),
{
    if queue.len() == 0 {
        (Seq::empty(), queue)
    } else {
        let rest = queue.drop_last();
        match queue.last() {
            JavascriptEvent::NONE => (Seq::empty(), rest),
            JavascriptEvent::READY => {
                let r = handled_events(rest);
                (seq![EventAction::ReloadPage] + r.0, r.1)
            },
            JavascriptEvent::TEST => {
                let r = handled_events(rest);
                (seq![EventAction::ReportTest] + r.0, r.1)
            },
        }
    }
}

/// Puts the event that `arg` names at the front of the queue.
pub fn enqueue_event(queue: &mut VecDeque<JavascriptEvent>, arg: &str)
    ensures
        final(queue)@ == seq![event_named(arg@)] + old(queue)@,
{
    queue.push_front(JavascriptEvent::from(arg));
}

/// Takes events from the back of the queue and returns what to do for
/// them (see `handled_events`).
pub fn handle_events(queue: &mut VecDeque<JavascriptEvent>) -> (actions: Vec<EventAction>)
    ensures
        (actions@, final(queue)@) == handled_events(old(queue)@),
{
    let mut actions: Vec<EventAction> = Vec::new();
    let ghost q0 = queue@;
    while queue.len() > 0
        invariant
            q0 == old(queue)@,
            ({
                let r = handled_events(queue@);
                handled_events(q0) == (actions@ + r.0, r.1)
            }),
        decreases queue@.len(),
    {
        let ghost before = actions@;
        let ghost q = queue@;
        let event = queue.pop_back();
        assert(queue@ =~= q.drop_last());
        match event {
            Some(JavascriptEvent::READY) => {
                actions.push(EventAction::ReloadPage);
                assert(before + (seq![EventAction::ReloadPage] + handled_events(queue@).0)
                    =~= actions@ + handled_events(queue@).0);
            },
            Some(JavascriptEvent::TEST) => {
                actions.push(EventAction::ReportTest);
                assert(before + (seq![EventAction::ReportTest] + handled_events(queue@).0)
                    =~= actions@ + handled_events(queue@).0);
            },
            _ => {
                assert(handled_events(q) == (Seq::<EventAction>::empty(), queue@));
                assert(actions@ + Seq::<EventAction>::empty() =~= actions@);
                return actions;
            },
        }
    }
    assert(actions@ + Seq::<EventAction>::empty() =~= actions@);
    actions
}

/// The tags that load the resources among `paths` whose extension is
/// `ext`, each one `open`, the resource's file name, `close`.
pub open spec fn resource_tags(
    paths: Seq<Seq<char>>,
    ext: Seq<char>,
    open: Seq<char>,
    close: Seq<char>,
) -> Seq<char>
    decreases paths.len(),
{
    if paths.len() == 0 {
        Seq::empty()
    } else {
        let path = paths.last();
        resource_tags(paths.drop_last(), ext, open, close) + if path_extension(path) == Some(ext) {
            open + match path_file_name(path) {
                Some(name) => name,
                None => Seq::empty(),
            } + close
        } else {
            Seq::empty()
        }
    }
}

/// The start of a style sheet link.
pub open spec fn style_open() -> Seq<char> {
    "<link rel=\"stylesheet\" href=\"http://127.0.0.1:8080/"@
}

/// The end of a style sheet link.
pub open spec fn style_close() -> Seq<char> {
    "\"></style>\n"@
}

/// The start of a script tag.
pub open spec fn script_open() -> Seq<char> {
    "<script type=\"text/javascript\" src=\"http://127.0.0.1:8080/"@
}

/// The end of a script tag.
pub open spec fn script_close() -> Seq<char> {
    "\"></script>\n"@
}

/// The page the window starts from: a head that loads every `.css` file of
/// `css_files` and every `.js` file of `js_files` from the resource server,
/// and a body holding `html`.
pub open spec fn page_with_resources(
    css_files: Seq<Seq<char>>,
    js_files: Seq<Seq<char>>,
    html: Seq<char>,
) -> Seq<char> {
    "<!DOCTYPE html>\n<html lang=\"en\">\n<head>\n"@ + resource_tags(
        css_files,
        "css"@,
        style_open(),
        style_close(),
    ) + resource_tags(js_files, "js"@, script_open(), script_close())
        + "\n</head>\n<body id=\"content\" class=\"markdown-body\" onload=\"on_ready()\">\n"@ + html
        + "\n</body></html>"@
}

/// The tags for one path: its tag where it has the extension asked for,
/// nothing otherwise.
pub proof fn resource_tag_of_one_path(path: Seq<char>, ext: Seq<char>, open: Seq<char>, close: Seq<char>)
    ensures
        path_extension(path) == Some(ext) ==> resource_tags(seq![path], ext, open, close) == open
            + path_file_name(path)->Some_0 + close,
        path_extension(path) != Some(ext) ==> resource_tags(seq![path], ext, open, close)
            == Seq::<char>::empty(),
{
    let one = seq![path];
    assert(one.drop_last() =~= Seq::<Seq<char>>::empty());
    assert(one.last() == path);
    assert(resource_tags(Seq::empty(), ext, open, close) == Seq::<char>::empty());
    assert(Seq::<char>::empty() + Seq::<char>::empty() =~= Seq::<char>::empty());
    if path_extension(path) == Some(ext) {
        assert(Seq::<char>::empty() + (open + path_file_name(path)->Some_0 + close) =~= open
            + path_file_name(path)->Some_0 + close);
    }
}

/// The tags for a list of paths are the tags for each path, in order: those
/// for two lists joined are those for the first followed by those for the
/// second.
pub proof fn resource_tags_concatenate(
    a: Seq<Seq<char>>,
    b: Seq<Seq<char>>,
    ext: Seq<char>,
    open: Seq<char>,
    close: Seq<char>,
)
    ensures
        resource_tags(a + b, ext, open, close) == resource_tags(a, ext, open, close) + resource_tags(
            b,
            ext,
            open,
            close,
        ),
    decreases b.len(),
{
    if b.len() == 0 {
        assert(a + b =~= a);
        assert(resource_tags(a, ext, open, close) + Seq::<char>::empty() =~= resource_tags(
            a,
            ext,
            open,
            close,
        ));
    } else {
        resource_tags_concatenate(a, b.drop_last(), ext, open, close);
        assert((a + b).drop_last() =~= a + b.drop_last());
        assert((a + b).last() == b.last());
        let last = if path_extension(b.last()) == Some(ext) {
            open + match path_file_name(b.last()) {
                Some(name) => name,
                None => Seq::empty(),
            } + close
        } else {
            Seq::empty()
        };
        assert(resource_tags(a, ext, open, close) + resource_tags(b.drop_last(), ext, open, close)
            + last =~= resource_tags(a, ext, open, close) + (resource_tags(
            b.drop_last(),
            ext,
            open,
            close,
        ) + last));
    }
}

/// A built-in style sheet or script is served by its file name: the page's
/// tag for it addresses the resource server with the file's name, and a
/// request for a path with that file name is looked up among the built-in
/// resources, in the directory for its kind.
pub proof fn injected_resources_are_served_from_the_built_in_files(
    path: Seq<char>,
    request: Seq<char>,
    stem: Seq<char>,
)
    requires
        path_extension(path) == Some("css"@) || path_extension(path) == Some("js"@),
        path_file_name(request) == path_file_name(path),
    ensures
        path_extension(path) == Some("css"@) ==> resource_tags(
            seq![path],
            "css"@,
            style_open(),
            style_close(),
        ) == style_open() + path_file_name(path)->Some_0 + style_close() && resource_for(
            request,
            stem,
        ) == ResourceView::Embedded("css_inject/"@ + path_file_name(path)->Some_0),
        path_extension(path) == Some("js"@) ==> resource_tags(
            seq![path],
            "js"@,
            script_open(),
            script_close(),
        ) == script_open() + path_file_name(path)->Some_0 + script_close() && resource_for(
            request,
            stem,
        ) == ResourceView::Embedded("javascript_inject/"@ + path_file_name(path)->Some_0),
{
    reveal_strlit("css");
    reveal_strlit("js");
    let one = seq![path];
    assert(one.drop_last() =~= Seq::<Seq<char>>::empty());
    assert(one.last() == path);
    assert(resource_tags(Seq::empty(), "css"@, style_open(), style_close()) == Seq::<char>::empty());
    assert(resource_tags(Seq::empty(), "js"@, script_open(), script_close()) == Seq::<char>::empty());
    assert(path_extension(request) == path_extension(path));
    let name = path_file_name(path)->Some_0;
    assert(Seq::<char>::empty() + (style_open() + name + style_close()) =~= style_open() + name
        + style_close());
    assert(Seq::<char>::empty() + (script_open() + name + script_close()) =~= script_open() + name
        + script_close());
    assert("js"@.len() != "css"@.len());
}

/// The values of a list of strings.
pub open spec fn strings_view(v: Seq<String>) -> Seq<Seq<char>> {
    v.map_values(|s: String| s@)
}

/// Appends the tags for the resources among `paths` with extension `ext`.
fn push_resource_tags(out: &mut String, paths: &Vec<String>, ext: &str, open: &str, close: &str)
    ensures
        final(out)@ == old(out)@ + resource_tags(strings_view(paths@), ext@, open@, close@),
{
    let ghost start = out@;
    let ghost all = strings_view(paths@);
    let wanted = ext.to_owned();
    for i in 0..paths.len()
        invariant
            all == strings_view(paths@),
            wanted@ == ext@,
            out@ == start + resource_tags(all.take(i as int), ext@, open@, close@),
    {
        let path = paths[i].as_str();
        let ghost before = out@;
        assert(all.take(i + 1).drop_last() =~= all.take(i as int));
        assert(all.take(i + 1).last() == path@);
        match extension(path) {
            Some(e) => {
                if e == wanted {
                    out.append(open);
                    if let Some(name) = file_name(path) {
                        out.append(name.as_str());
                    }
                    out.append(close);
                }
            },
            None => {},
        }
        proof {
            let piece = out@.subrange(before.len() as int, out@.len() as int);
            assert(out@ =~= before + piece);
            assert(start + resource_tags(all.take(i as int), ext@, open@, close@) + piece =~= start
                + (resource_tags(all.take(i as int), ext@, open@, close@) + piece));
        }
    }
    assert(all.take(paths.len() as int) =~= all);
}

/// The page the window starts from (see `page_with_resources`); the files
/// are given by their paths among the built-in resources.
pub fn inject_resources(css_files: &Vec<String>, js_files: &Vec<String>, html: &str) -> (page: String)
    ensures
        page@ == page_with_resources(strings_view(css_files@), strings_view(js_files@), html@),
{
    let mut inject_string = String::new();
    push_resource_tags(
        &mut inject_string,
        css_files,
        "css",
        "<link rel=\"stylesheet\" href=\"http://127.0.0.1:8080/",
        "\"></style>\n",
    );
    push_resource_tags(
        &mut inject_string,
        js_files,
        "js",
        "<script type=\"text/javascript\" src=\"http://127.0.0.1:8080/",
        "\"></script>\n",
    );
    let mut page = String::new();
    page.append("<!DOCTYPE html>\n<html lang=\"en\">\n<head>\n");
    page.append(inject_string.as_str());
    page.append("\n</head>\n<body id=\"content\" class=\"markdown-body\" onload=\"on_ready()\">\n");
    page.append(html);
    page.append("\n</body></html>");
    proof {
        let t = "<!DOCTYPE html>\n<html lang=\"en\">\n<head>\n"@;
        let c = resource_tags(strings_view(css_files@), "css"@, style_open(), style_close());
        let j = resource_tags(strings_view(js_files@), "js"@, script_open(), script_close());
        assert(inject_string@ =~= c + j);
        assert(t + (c + j) =~= t + c + j);
    }
    page
}

/// The script that shows `page`, an IncrementalDOM program, in the window.
pub fn dom_update_script(page: &str) -> (script: String)
    ensures
        script@ == "doIncrementalDom(String.raw`"@ + page@ + "`);"@,
{
    let mut script = String::new();
    script.append("doIncrementalDom(String.raw`");
    script.append(page);
    script.append("`);");
    script
}

/// The actions for events taken in the order they arrived, up to the first
/// event the page does not define.
pub open spec fn actions_in_arrival_order(arrived: Seq<JavascriptEvent>) -> Seq<EventAction>
    decreases arrived.len(),
{
    if arrived.len() == 0 {
        Seq::empty()
    } else {
        match arrived[0] {
            JavascriptEvent::NONE => Seq::empty(),
            JavascriptEvent::READY => seq![EventAction::ReloadPage] + actions_in_arrival_order(
                arrived.drop_first(),
            ),
            JavascriptEvent::TEST => seq![EventAction::ReportTest] + actions_in_arrival_order(
                arrived.drop_first(),
            ),
        }
    }
}

/// Events are handled in the order they arrived: after `arrived` was put
/// one by one at the front of an empty queue, handling the queue yields the
/// actions of the events in arrival order, up to the first undefined one.
pub proof fn events_handled_in_arrival_order(arrived: Seq<JavascriptEvent>)
    ensures
        handled_events(arrived.reverse()).0 == actions_in_arrival_order(arrived),
    decreases arrived.len(),
{
    if arrived.len() > 0 {
        let q = arrived.reverse();
        assert(q.last() == arrived[0]);
        assert(q.drop_last() =~= arrived.drop_first().reverse());
        events_handled_in_arrival_order(arrived.drop_first());
    }
}

} // verus!
