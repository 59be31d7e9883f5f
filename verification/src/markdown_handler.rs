//! The Markdown note being shown: its text, with inline `$$...$$` math
//! turned into marked inline code, and whether the view needs a refresh.

use vstd::prelude::*;

use crate::events::{EventView, LinkKind, MdEvent, MdTag, TagView, events_view};
use crate::markdown_parser::{markdown_events, parse_markdown};
use crate::paths::{file_name, path_file_name};

verus! {

/// The character that marks inline code produced from `$$...$$` math.
pub const MARKER_CHARACTER: char = '\u{2042}';

/// The pattern of inline math: `$$`, text without `$`, `$$`.
pub const INLINE_MATH_PATTERN: &'static str = "\\$\\$([^\\$]*)\\$\\$";

/// What inline math becomes: inline code holding `MARKER_CHARACTER`
/// followed by the math.
pub const INLINE_MATH_REPLACEMENT: &'static str = "`\u{2042}$1`";

/// Where the image server answers.
pub const IMAGE_SERVER_PREFIX: &'static str = "http://127.0.0.1:8080/";

/// The index of the first `$` in `s` at or after `from`, or the length of
/// `s` where there is none.
pub open spec fn first_dollar(s: Seq<char>, from: int) -> int
    decreases s.len() - from,
{
    if from >= s.len() {
        s.len() as int
    } else if s[from] == '$' {
        from
    } else {
        first_dollar(s, from + 1)
    }
}

/// Where `s` starts with inline math (`$$`, text without `$`, `$$`), the
/// index of its closing `$$`.
pub open spec fn inline_math_end(s: Seq<char>) -> Option<int> {
    let j = first_dollar(s, 2);
    if s.len() >= 2 && s[0] == '$' && s[1] == '$' && j + 1 < s.len() && s[j + 1] == '$' {
        Some(j)
    } else {
        None
    }
}

/// `s` with its inline math, found from left to right without overlap,
/// each replaced by inline code: a backtick, `MARKER_CHARACTER`, the
/// math, a backtick.
pub open spec fn inline_math_replaced(s: Seq<char>) -> Seq<char>
    decreases s.len(),
{
    if s.len() == 0 {
        s
    } else {
        match inline_math_end(s) {
            Some(j) => {
                proof {
                    lemma_first_dollar(s, 2);
                }
                seq!['`', MARKER_CHARACTER] + s.subrange(2, j) + seq!['`'] + inline_math_replaced(
                    s.skip(j + 2),
                )
            },
            None => seq![s[0]] + inline_math_replaced(s.skip(1)),
        }
    }
}

/// `first_dollar(s, from)` lies between `from` and the length of `s`; no
/// `$` comes before it, and where it is inside `s` it is a `$`.
pub proof fn lemma_first_dollar(s: Seq<char>, from: int)
    requires
        0 <= from <= s.len(),
    ensures
        from <= first_dollar(s, from) <= s.len(),
        first_dollar(s, from) < s.len() ==> s[first_dollar(s, from)] == '$',
        forall|k: int| from <= k < first_dollar(s, from) ==> s[k] != '$',
    decreases s.len() - from,
{
    if from < s.len() && s[from] != '$' {
        lemma_first_dollar(s, from + 1);
    }
}

/// The text `regex::Regex::new(pattern)` followed by `replace_all(text,
/// replacement)` yields, or `None` where the pattern does not compile.
pub uninterp spec fn regex_replaced_all(
    pattern: Seq<char>,
    replacement: Seq<char>,
    text: Seq<char>,
) -> Option<Seq<char>>;

/// Compiles `pattern` with `regex::Regex::new` and replaces every
/// non-overlapping match in `text`, leftmost first, with `replacement`
/// (`$1` standing for the first group) by `Regex::replace_all`. For the
/// inline math pattern and replacement the result is stated: the pattern
/// compiles, and a match is `$$`, the longest run of characters other than
/// `$`, `$$`, which gives `inline_math_replaced`. For other arguments the
/// result is only named: it is a function of the three arguments.
#[verifier::external_body]
fn regex_replace_all(pattern: &str, replacement: &str, text: &str) -> (res: Option<String>)
    ensures
        match res {
            Some(s) => regex_replaced_all(pattern@, replacement@, text@) == Some(s@),
            None => regex_replaced_all(pattern@, replacement@, text@) is None,
        },
        pattern@ == INLINE_MATH_PATTERN@ && replacement@ == INLINE_MATH_REPLACEMENT@
            ==> res is Some && res->Some_0@ == inline_math_replaced(text@),
{
    match regex::Regex::new(pattern) {
        Ok(re) => Some(re.replace_all(text, replacement).into_owned()),
        Err(_) => None,
    }
}

/// Inline math `$$x$$`, with no `$` in `x`, becomes the marked inline code
/// `` `⁂x` ``.
pub proof fn inline_math_becomes_marked_code(x: Seq<char>)
    requires
        forall|k: int| 0 <= k < x.len() ==> x[k] != '$',
    ensures
        inline_math_replaced(seq!['$', '$'] + x + seq!['$', '$']) == seq!['`', MARKER_CHARACTER]
            + x + seq!['`'],
{
    let s = seq!['$', '$'] + x + seq!['$', '$'];
    let j: int = x.len() as int + 2;
    lemma_first_dollar(s, 2);
    assert(s[j] == '$');
    assert forall|k: int| 2 <= k < j implies s[k] != '$' by {
        assert(s[k] == x[k - 2]);
    }
    assert(first_dollar(s, 2) == j);
    assert(inline_math_end(s) == Some(j));
    assert(s.subrange(2, j) =~= x);
    assert(s.skip(j + 2) =~= Seq::<char>::empty());
    assert(inline_math_replaced(s.skip(j + 2)) =~= Seq::<char>::empty());
    assert(inline_math_replaced(s) =~= seq!['`', MARKER_CHARACTER] + x + seq!['`']);
}

/// Text without `$` is left as it is.
pub proof fn text_without_dollars_is_unchanged(s: Seq<char>)
    requires
        forall|k: int| 0 <= k < s.len() ==> s[k] != '$',
    ensures
        inline_math_replaced(s) == s,
    decreases s.len(),
{
    if s.len() > 0 {
        assert(inline_math_end(s) is None);
        text_without_dollars_is_unchanged(s.skip(1));
        assert(seq![s[0]] + s.skip(1) =~= s);
    }
}

/// The event an image event becomes: an inline image's destination is
/// replaced by the image server's address followed by the destination's
/// file name; every other event stays as it is.
pub open spec fn served_image(e: EventView) -> EventView {
    match e {
        EventView::Start(TagView::Image(LinkKind::Inline, dest, title)) => EventView::Start(
            TagView::Image(
                LinkKind::Inline,
                IMAGE_SERVER_PREFIX@ + match path_file_name(dest) {
                    Some(name) => name,
                    None => Seq::empty(),
                },
                title,
            ),
        ),
        _ => e,
    }
}

/// Only inline images are pointed at the image server: every other event,
/// reference-style, collapsed, shortcut, autolink and e-mail images among
/// them, is passed on as it is; an inline image keeps its kind and title.
pub proof fn only_inline_images_are_served(e: EventView)
    ensures
        !(e matches EventView::Start(TagView::Image(LinkKind::Inline, _, _))) ==> served_image(e)
            == e,
        e matches EventView::Start(TagView::Image(LinkKind::Inline, dest, title)) ==> served_image(e)
            matches EventView::Start(TagView::Image(LinkKind::Inline, served, t2)) && t2 == title
            && served.len() >= IMAGE_SERVER_PREFIX@.len() && served.subrange(
            0,
            IMAGE_SERVER_PREFIX@.len() as int,
        ) == IMAGE_SERVER_PREFIX@,
{
    if let EventView::Start(TagView::Image(LinkKind::Inline, dest, title)) = e {
        let name = match path_file_name(dest) {
            Some(n) => n,
            None => Seq::<char>::empty(),
        };
        assert((IMAGE_SERVER_PREFIX@ + name).subrange(0, IMAGE_SERVER_PREFIX@.len() as int)
            =~= IMAGE_SERVER_PREFIX@);
    }
}

/// A Markdown note and whether it changed since it was last rendered.
/// Both fields are public, so that contracts can speak of `do_refresh`
/// directly.
pub struct MarkdownHandler {
    pub markdown_string: String,
    pub do_refresh: bool,
}

impl MarkdownHandler {
    /// The note text, after inline math was replaced.
    pub open spec fn markdown_view(&self) -> Seq<char> {
        self.markdown_string@
    }

    /// A handler for `input`, marked for refresh.
    pub fn new(input: &str) -> (h: MarkdownHandler)
        ensures
            h.markdown_view() == inline_math_replaced(input@),
            h.do_refresh,
    {
        MarkdownHandler { markdown_string: Self::transform_input(input), do_refresh: true }
    }

    /// Replaces the note with `input` and marks it for refresh.
    pub fn load_markdown(&mut self, input: &str)
        ensures
            final(self).markdown_view() == inline_math_replaced(input@),
            final(self).do_refresh,
    {
        self.markdown_string = Self::transform_input(input);
        self.do_refresh = true;
    }

    /// `input` with its inline math replaced by marked inline code.
    fn transform_input(input: &str) -> (res: String)
        ensures
            res@ == inline_math_replaced(input@),
    {
        match regex_replace_all(INLINE_MATH_PATTERN, INLINE_MATH_REPLACEMENT, input) {
            Some(s) => s,
            None => String::new(),
        }
    }

    /// The note text, to be parsed into events.
    pub fn markdown(&self) -> (s: &str)
        ensures
            s@ == self.markdown_view(),
    {
        self.markdown_string.as_str()
    }

    /// Clears the refresh mark and tells whether it was set.
    pub fn take_refresh(&mut self) -> (was_set: bool)
        ensures
            was_set == old(self).do_refresh,
            !final(self).do_refresh,
            final(self).markdown_view() == old(self).markdown_view(),
    {
        let was_set = self.do_refresh;
        self.do_refresh = false;
        was_set
    }

    /// The events of this note's Markdown, with every inline image pointed
    /// at the image server (see `served_image`).
    pub fn gen_parser(&self) -> (events: Vec<MdEvent>)
        ensures
            events_view(events@) == markdown_events(self.markdown_view()).map_values(
                |e: EventView| served_image(e),
            ),
    {
        serve_images(parse_markdown(self.markdown_string.as_str()))
    }
}

/// `event` with an inline image pointed at the image server.
fn serve_image(event: MdEvent) -> (res: MdEvent)
    ensures
        res@ == served_image(event@),
{
    match event {
        MdEvent::Start(MdTag::Image(LinkKind::Inline, dest, title)) => {
            let mut new_path = String::new();
            new_path.append(IMAGE_SERVER_PREFIX);
            if let Some(name) = file_name(dest.as_str()) {
                new_path.append(name.as_str());
            }
            proof {
                if path_file_name(dest@) is None {
                    assert(new_path@ =~= IMAGE_SERVER_PREFIX@ + Seq::<char>::empty());
                }
            }
            MdEvent::Start(MdTag::Image(LinkKind::Inline, new_path, title))
        },
        other => other,
    }
}

/// Every event of `events` passed through `serve_image`.
fn serve_images(events: Vec<MdEvent>) -> (res: Vec<MdEvent>)
    ensures
        events_view(res@) == events_view(events@).map_values(|e: EventView| served_image(e)),
{
    broadcast use vstd::std_specs::vec::group_vec_axioms;
    let ghost all = events@;
    let mut res: Vec<MdEvent> = Vec::new();
    for e in it: events.into_iter()
        invariant
            it.seq() == all,
            res@.len() == it.index(),
            forall|j: int| 0 <= j < it.index() ==> #[trigger] res@[j]@ == served_image(all[j]@),
    {
        res.push(serve_image(e));
    }
    assert(events_view(res@) =~= events_view(all).map_values(|e: EventView| served_image(e)));
    res
}

} // verus!
