//! The watched note file: which paths may be watched, and where the
//! resource server finds what a request asks for.

use vstd::prelude::*;

use crate::events::{EventView, LinkKind, TagView};
use crate::markdown_handler::{IMAGE_SERVER_PREFIX, served_image};
use crate::paths::{extension, file_name, file_stem, path_extension, path_file_name, path_file_stem};

verus! {

/// Whether `path` names an existing Markdown note: a `.md` or `.mdl` file
/// that exists.
pub open spec fn is_note_file(path: Option<Seq<char>>, exists: bool) -> bool {
    match path {
        Some(p) => match path_extension(p) {
            Some(ext) => (ext == "mdl"@ || ext == "md"@) && exists,
            None => false,
        },
        None => false,
    }
}

/// Whether a path names a note depends only on its extension and on
/// whether the file exists: a path with extension `md` or `mdl` names a
/// note exactly when the file exists, any other path never does.
pub proof fn note_files_are_judged_by_extension(p: Seq<char>, q: Seq<char>, exists: bool)
    ensures
        path_extension(p) == path_extension(q) ==> is_note_file(Some(p), exists) == is_note_file(
            Some(q),
            exists,
        ),
        path_extension(p) == Some("md"@) || path_extension(p) == Some("mdl"@) ==> is_note_file(
            Some(p),
            exists,
        ) == exists,
        !(path_extension(p) == Some("md"@) || path_extension(p) == Some("mdl"@)) ==> !is_note_file(
            Some(p),
            exists,
        ),
        !is_note_file(None, exists),
{
}

/// Where a requested resource is looked up.
#[derive(Debug)]
pub enum ResourceRequest {
    /// a file among the resources built into the program, by its path there
    Embedded(String),
    /// an image file, by its path relative to the directory of the note
    Image(String),
}

/// The mathematical value of a `ResourceRequest`.
pub enum ResourceView {
    Embedded(Seq<char>),
    Image(Seq<char>),
}

impl View for ResourceRequest {
    type V = ResourceView;

    open spec fn view(&self) -> ResourceView {
        match self {
            ResourceRequest::Embedded(p) => ResourceView::Embedded(p@),
            ResourceRequest::Image(p) => ResourceView::Image(p@),
        }
    }
}

/// Where the resource at `request` is looked up for a note whose file stem
/// is `stem`: style sheets, scripts and fonts among the built-in resources
/// (by file name, in `css_inject/`, `javascript_inject/` and `font_inject/`),
/// everything else as the image `images/<stem><request>` next to the note.
pub open spec fn resource_for(request: Seq<char>, stem: Seq<char>) -> ResourceView {
    let image = ResourceView::Image("images/"@ + stem + request);
    let name = match path_file_name(request) {
        Some(n) => n,
        None => Seq::empty(),
    };
    match path_extension(request) {
        Some(ext) => if ext == "css"@ {
            ResourceView::Embedded("css_inject/"@ + name)
        } else if ext == "js"@ {
            ResourceView::Embedded("javascript_inject/"@ + name)
        } else if ext == "ttf"@ || ext == "woff"@ || ext == "woff2"@ {
            ResourceView::Embedded("font_inject/"@ + name)
        } else {
            image
        },
        None => image,
    }
}

/// Whether `ext` is the extension of a resource built into the program:
/// style sheets, scripts and fonts.
pub open spec fn is_resource_extension(ext: Seq<char>) -> bool {
    ext == "css"@ || ext == "js"@ || ext == "ttf"@ || ext == "woff"@ || ext == "woff2"@
}

/// An inline image is served by its file name: its address becomes the
/// image server's address followed by the file name of its destination,
/// and a request for a path with that file name is looked up as
/// `images/<stem><request>` next to the note, unless the name has the
/// extension of a built-in resource.
pub proof fn images_are_served_from_the_note_images(
    dest: Seq<char>,
    title: Seq<char>,
    request: Seq<char>,
    stem: Seq<char>,
)
    requires
        path_file_name(dest) is Some,
        path_file_name(request) == path_file_name(dest),
        !(path_extension(dest) matches Some(ext) && is_resource_extension(ext)),
    ensures
        served_image(EventView::Start(TagView::Image(LinkKind::Inline, dest, title)))
            == EventView::Start(
            TagView::Image(
                LinkKind::Inline,
                IMAGE_SERVER_PREFIX@ + path_file_name(dest)->Some_0,
                title,
            ),
        ),
        resource_for(request, stem) == ResourceView::Image("images/"@ + stem + request),
{
    assert(path_extension(request) == path_extension(dest));
}

/// The note file being watched and served from.
pub struct FilesystemHandler {
    watching_path: String,
    watching_stem: Option<String>,
}

impl FilesystemHandler {
    /// The path of the watched note.
    pub closed spec fn watched(&self) -> Seq<char> {
        self.watching_path@
    }

    /// The file stem of the watched note, where it has one.
    pub closed spec fn stem(&self) -> Option<Seq<char>> {
        match self.watching_stem {
            Some(s) => Some(s@),
            None => None,
        }
    }

    /// The stem is the one `Path::file_stem` gives for the watched path.
    pub closed spec fn wf(&self) -> bool {
        self.stem() == path_file_stem(self.watched())
    }

    /// A handler watching `watch_path`.
    pub fn new(watch_path: &str) -> (h: FilesystemHandler)
        ensures
            h.wf(),
            h.watched() == watch_path@,
            h.stem() == path_file_stem(watch_path@),
    {
        let mut path = String::new();
        path.append(watch_path);
        FilesystemHandler { watching_path: path, watching_stem: file_stem(watch_path) }
    }

    /// Switches to watching `path`; returns the path watched before. From
    /// then on requests are routed by the stem of `path`: an image request
    /// `r` is looked up as `images/<stem of path><r>`.
    pub fn watch_new_file(&mut self, path: &str) -> (previous: String)
        ensures
            final(self).wf(),
            final(self).watched() == path@,
            final(self).stem() == path_file_stem(path@),
            previous@ == old(self).watched(),
    {
        let mut new_path = String::new();
        new_path.append(path);
        let mut previous = new_path;
        std::mem::swap(&mut previous, &mut self.watching_path);
        self.watching_stem = file_stem(path);
        previous
    }

    /// The path of the watched note.
    pub fn watching_path(&self) -> (p: &str)
        ensures
            p@ == self.watched(),
    {
        self.watching_path.as_str()
    }

    /// Whether the watched note has a file stem, which serving images needs.
    pub fn has_file_stem(&self) -> (b: bool)
        ensures
            b == self.stem() is Some,
    {
        self.watching_stem.is_some()
    }

    /// Whether the argument names an existing Markdown note (`.md` or
    /// `.mdl`); `file_exists` tells whether the file exists.
    pub fn verify_file_argument(file_path: Option<String>, file_exists: bool) -> (ok: bool)
        ensures
            ok == is_note_file(
                match file_path {
                    Some(p) => Some(p@),
                    None => None,
                },
                file_exists,
            ),
    {
        let file_path = match file_path {
            Some(p) => p,
            None => {
                return false;
            },
        };
        match extension(file_path.as_str()) {
            Some(ext) => (ext == "mdl".to_owned() || ext == "md".to_owned()) && file_exists,
            None => false,
        }
    }

    /// Where the resource at `request_path` is looked up.
    pub fn route_request(&self, request_path: &str) -> (res: ResourceRequest)
        requires
            self.wf(),
            self.stem() is Some,
        ensures
            res@ == resource_for(request_path@, self.stem()->Some_0),
    {
        let stem = match &self.watching_stem {
            Some(s) => s,
            None => {
                return ResourceRequest::Image(String::new());
            },
        };
        if let Some(ext) = extension(request_path) {
            let dir = if ext == "css".to_owned() {
                Some("css_inject/")
            } else if ext == "js".to_owned() {
                Some("javascript_inject/")
            } else if ext == "ttf".to_owned() || ext == "woff".to_owned() || ext == "woff2".to_owned() {
                Some("font_inject/")
            } else {
                None
            };
            if let Some(dir) = dir {
                let mut embedded_path = String::new();
                embedded_path.append(dir);
                if let Some(name) = file_name(request_path) {
                    embedded_path.append(name.as_str());
                }
                return ResourceRequest::Embedded(embedded_path);
            }
        }
        let mut image_path = String::new();
        image_path.append("images/");
        image_path.append(stem.as_str());
        image_path.append(request_path);
        ResourceRequest::Image(image_path)
    }
}

} // verus!
