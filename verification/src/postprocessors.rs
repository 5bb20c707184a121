//! Rewriting of link and image destinations, and the pass over the events of
//! one document that applies it.

use vstd::prelude::*;
use crate::path_lemmas::{
    drawn_from, lemma_document_dir_draws_from_file, lemma_resolved_path_draws_from_inputs,
};
use crate::paths::{document_dir, document_dir_of, resolve_path, resolved_path};
use crate::text::{
    append_chars, chars_of, contains, contains_text, ends_with, find_first, first_index,
    lemma_first_index_is_first, slice_chars, starts_with, string_of,
};

verus! {

/// What marks a destination as a document of the site, counted from the
/// content root.
pub const INTERNAL_LINK_MARKER: &'static str = "@/";

/// The ending by which a destination is known to be a document.
pub const DOCUMENT_EXTENSION: &'static str = ".md";

/// The directory whose files the site serves from its root.
pub const STATIC_PREFIX: &'static str = "static/";

/// What one document is processed with: the path of its file.
#[derive(Debug, PartialEq, Eq)]
pub struct Context {
    pub current_file: String,
}

/// How a link or an image was written in the document.
#[derive(Clone, Copy, Debug, PartialEq, Eq)]
pub enum LinkType {
    Inline,
    Reference,
    ReferenceUnknown,
    Collapsed,
    CollapsedUnknown,
    Shortcut,
    ShortcutUnknown,
    Autolink,
    Email,
}

/// One event of a document. Only the start of a link and the start of an
/// image are looked into; every other event is carried along as `Other`.
#[derive(Debug, PartialEq)]
pub enum MarkdownEvent<T> {
    LinkStart { link_type: LinkType, dest_url: String, title: String, id: String },
    ImageStart { link_type: LinkType, dest_url: String, title: String, id: String },
    Other(T),
}

/// What a postprocessor tells the exporter to do next.
#[derive(Clone, Copy, Debug, PartialEq, Eq)]
pub enum PostprocessorResult {
    Continue,
    StopHere,
    StopAndSkipNote,
}

/// The postprocessor for one content tree.
#[derive(Debug, PartialEq, Eq)]
pub struct ZolaLinkPostprocessor {
    pub source_dir: String,
}

/// A link that leads out of the site: it names a scheme, or it is a mail
/// address.
pub open spec fn is_external_link(url: Seq<char>) -> bool {
    contains_text(url, "://"@) || "mailto:"@.is_prefix_of(url)
}

/// An image that is not a file of the site: an external link, or inline data.
pub open spec fn is_external_image(url: Seq<char>) -> bool {
    is_external_link(url) || "data:"@.is_prefix_of(url)
}

/// The destination up to its first `#`.
pub open spec fn path_part(url: Seq<char>) -> Seq<char> {
    url.take(first_index(url, '#'))
}

/// The destination from its first `#` on; empty where it has none.
pub open spec fn fragment(url: Seq<char>) -> Seq<char> {
    url.skip(first_index(url, '#'))
}

/// Whether the destination, without its fragment, names a document.
pub open spec fn is_document_link(url: Seq<char>) -> bool {
    DOCUMENT_EXTENSION@.is_suffix_of(path_part(url))
}

/// The destination of a link as the site wants it. External links and links
/// to anything but a document stay as they are. A link to a document becomes
/// the marker, the resolved path and the fragment as it was given.
pub open spec fn zola_link(url: Seq<char>, current_file: Seq<char>, source_dir: Seq<char>) -> Seq<
    char,
> {
    if is_external_link(url) || !is_document_link(url) {
        url
    } else {
        INTERNAL_LINK_MARKER@ + resolved_path(
            document_dir(current_file, source_dir),
            path_part(url),
        ) + fragment(url)
    }
}

/// The destination of an image as the site wants it. External images stay as
/// they are. A path that resolves into the static directory becomes a path
/// from the site's root; any other stays the resolved path.
pub open spec fn zola_image(
    url: Seq<char>,
    current_file: Seq<char>,
    source_dir: Seq<char>,
) -> Seq<char> {
    if is_external_image(url) {
        url
    } else {
        let resolved = resolved_path(document_dir(current_file, source_dir), url);
        if STATIC_PREFIX@.is_prefix_of(resolved) {
            seq!['/'] + resolved.skip(STATIC_PREFIX@.len() as int)
        } else {
            resolved
        }
    }
}

/// `after` is `before` with its destination rewritten: a link by `zola_link`,
/// an image by `zola_image`, with type, title and identifier kept. Any other
/// event is the same as before.
pub open spec fn event_rewritten<T>(
    before: MarkdownEvent<T>,
    after: MarkdownEvent<T>,
    current_file: Seq<char>,
    source_dir: Seq<char>,
) -> bool {
    match before {
        MarkdownEvent::LinkStart { link_type, dest_url, title, id } => {
            &&& after is LinkStart
            &&& after->LinkStart_link_type == link_type
            &&& after->LinkStart_title == title
            &&& after->LinkStart_id == id
            &&& after->LinkStart_dest_url@ == zola_link(dest_url@, current_file, source_dir)
        },
        MarkdownEvent::ImageStart { link_type, dest_url, title, id } => {
            &&& after is ImageStart
            &&& after->ImageStart_link_type == link_type
            &&& after->ImageStart_title == title
            &&& after->ImageStart_id == id
            &&& after->ImageStart_dest_url@ == zola_image(dest_url@, current_file, source_dir)
        },
        MarkdownEvent::Other(_) => after == before,
    }
}

/// The path that `relative_path` resolves to, seen from `current_dir`: the two
/// are joined, `.` is dropped and `..` takes the segment before it away, or
/// nothing where there is none.
pub fn resolve_relative_path(current_dir: &str, relative_path: &str) -> (resolved: String)
    ensures
        resolved@ == resolved_path(current_dir@, relative_path@),
{
    let resolved = resolve_path(&chars_of(current_dir), &chars_of(relative_path));
    string_of(&resolved)
}

/// Rewrites the destination of a link found in the document of `context`.
pub fn convert_to_zola_link_with_context(url: &str, context: &Context, source_dir: &str) -> (link:
    String)
    ensures
        link@ == zola_link(url@, context.current_file@, source_dir@),
{
    let text = chars_of(url);
    if contains(&text, &chars_of("://")) || starts_with(&text, &chars_of("mailto:")) {
        return url.to_owned();
    }
    let cut = find_first(&text, '#');
    proof {
        lemma_first_index_is_first(text@, '#');
    }
    let path = slice_chars(&text, 0, cut);
    if !ends_with(&path, &chars_of(DOCUMENT_EXTENSION)) {
        return url.to_owned();
    }
    let dir = document_dir_of(&chars_of(context.current_file.as_str()), &chars_of(source_dir));
    let resolved = resolve_path(&dir, &path);
    let mut link = chars_of(INTERNAL_LINK_MARKER);
    append_chars(&mut link, &resolved);
    append_chars(&mut link, &slice_chars(&text, cut, text.len()));
    string_of(&link)
}

/// Rewrites the destination of an image found in the document of `context`.
pub fn convert_to_zola_image_with_context(url: &str, context: &Context, source_dir: &str) -> (image:
    String)
    ensures
        image@ == zola_image(url@, context.current_file@, source_dir@),
{
    let text = chars_of(url);
    if contains(&text, &chars_of("://")) || starts_with(&text, &chars_of("mailto:"))
        || starts_with(&text, &chars_of("data:")) {
        return url.to_owned();
    }
    let dir = document_dir_of(&chars_of(context.current_file.as_str()), &chars_of(source_dir));
    let resolved = resolve_path(&dir, &text);
    let prefix = chars_of(STATIC_PREFIX);
    if starts_with(&resolved, &prefix) {
        let mut image: Vec<char> = vec!['/'];
        assert(image@ =~= seq!['/']);
        append_chars(&mut image, &slice_chars(&resolved, prefix.len(), resolved.len()));
        string_of(&image)
    } else {
        string_of(&resolved)
    }
}

/// The postprocessor for the content tree rooted at `source_dir`.
pub fn create_zola_link_postprocessor(source_dir: String) -> (postprocessor: ZolaLinkPostprocessor)
    ensures
        postprocessor.source_dir == source_dir,
{
    ZolaLinkPostprocessor { source_dir }
}

impl ZolaLinkPostprocessor {
    /// Goes through the events of one document once, in order, and rewrites
    /// the destination of every link and image in place. The number and order
    /// of the events stay; the exporter is always told to continue.
    pub fn process<T>(&self, context: &Context, events: &mut Vec<MarkdownEvent<T>>) -> (result:
        PostprocessorResult)
        ensures
            result == PostprocessorResult::Continue,
            final(events)@.len() == old(events)@.len(),
            forall|i: int|
                0 <= i < old(events)@.len() ==> event_rewritten(
                    old(events)@[i],
                    #[trigger] final(events)@[i],
                    context.current_file@,
                    self.source_dir@,
                ),
    {
        let mut i: usize = 0;
        while i < events.len()
            invariant
                i <= events.len(),
                events@.len() == old(events)@.len(),
                forall|j: int|
                    0 <= j < i ==> event_rewritten(
                        old(events)@[j],
                        #[trigger] events@[j],
                        context.current_file@,
                        self.source_dir@,
                    ),
                forall|j: int| i <= j < events@.len() ==> events@[j] == old(events)@[j],
            decreases events.len() - i,
        {
            match &mut events[i] {
                MarkdownEvent::LinkStart { dest_url, .. } => {
                    let rewritten = convert_to_zola_link_with_context(
                        dest_url.as_str(),
                        context,
                        self.source_dir.as_str(),
                    );
                    *dest_url = rewritten;
                },
                MarkdownEvent::ImageStart { dest_url, .. } => {
                    let rewritten = convert_to_zola_image_with_context(
                        dest_url.as_str(),
                        context,
                        self.source_dir.as_str(),
                    );
                    *dest_url = rewritten;
                },
                MarkdownEvent::Other(_) => {},
            }
            i = i + 1;
        }
        PostprocessorResult::Continue
    }
}

impl Context {
    /// The context of the document at `current_file`.
    pub fn new(current_file: String) -> (context: Context)
        ensures
            context.current_file == current_file,
    {
        Context { current_file }
    }

    /// The path of the document.
    pub fn current_file(&self) -> (path: &String)
        ensures
            path == self.current_file,
    {
        &self.current_file
    }
}

/// An image destination that names a scheme, a mail address or inline data is
/// handed back as it came, character for character.
pub proof fn lemma_external_images_pass_through(
    url: Seq<char>,
    current_file: Seq<char>,
    source_dir: Seq<char>,
)
    requires
        contains_text(url, "://"@) || "mailto:"@.is_prefix_of(url) || "data:"@.is_prefix_of(url),
    ensures
        zola_image(url, current_file, source_dir) == url,
{
}

/// A link destination that names a scheme or a mail address is handed back as
/// it came, character for character; so is inline data, unless what stands
/// before its first `#` ends like a document.
pub proof fn lemma_external_links_pass_through(
    url: Seq<char>,
    current_file: Seq<char>,
    source_dir: Seq<char>,
)
    requires
        contains_text(url, "://"@) || "mailto:"@.is_prefix_of(url) || "data:"@.is_prefix_of(url),
        contains_text(url, "://"@) || "mailto:"@.is_prefix_of(url) || !is_document_link(url),
    ensures
        zola_link(url, current_file, source_dir) == url,
{
}

/// A rewritten link to a document begins with the marker and ends with the
/// fragment as it was given; between the two stands the resolved path.
pub proof fn lemma_document_links_carry_marker_and_fragment(
    url: Seq<char>,
    current_file: Seq<char>,
    source_dir: Seq<char>,
)
    requires
        !is_external_link(url),
        is_document_link(url),
    ensures
        INTERNAL_LINK_MARKER@.is_prefix_of(zola_link(url, current_file, source_dir)),
        fragment(url).is_suffix_of(zola_link(url, current_file, source_dir)),
        zola_link(url, current_file, source_dir).len() == INTERNAL_LINK_MARKER@.len()
            + resolved_path(document_dir(current_file, source_dir), path_part(url)).len()
            + fragment(url).len(),
        path_part(url) + fragment(url) == url,
{
    lemma_first_index_is_first(url, '#');
}

/// Rewriting brings in no backslash: where neither the destination nor the
/// path of the document holds one, the rewritten destination holds none.
pub proof fn lemma_rewriting_adds_no_backslash(
    url: Seq<char>,
    current_file: Seq<char>,
    source_dir: Seq<char>,
)
    requires
        !url.contains('\\'),
        !current_file.contains('\\'),
    ensures
        !zola_link(url, current_file, source_dir).contains('\\'),
        !zola_image(url, current_file, source_dir).contains('\\'),
{
    let allowed = Set::<char>::new(|c: char| c != '\\');
    let dir = document_dir(current_file, source_dir);
    let cut = first_index(url, '#');
    lemma_first_index_is_first(url, '#');
    assert(drawn_from(url, allowed));
    assert(drawn_from(current_file, allowed));
    lemma_document_dir_draws_from_file(current_file, source_dir, allowed);
    lemma_resolved_path_draws_from_inputs(dir, url, allowed);
    assert(drawn_from(path_part(url), allowed)) by {
        assert forall|k: int| 0 <= k < path_part(url).len() implies allowed.contains(
            #[trigger] path_part(url)[k],
        ) by {
            assert(path_part(url)[k] == url[k]);
        }
    }
    lemma_resolved_path_draws_from_inputs(dir, path_part(url), allowed);

    let link = zola_link(url, current_file, source_dir);
    assert forall|k: int| 0 <= k < link.len() implies #[trigger] link[k] != '\\' by {
        if !(is_external_link(url) || !is_document_link(url)) {
            reveal_strlit("@/");
            let resolved = resolved_path(dir, path_part(url));
            if k < 2 {
            } else if k < 2 + resolved.len() {
                assert(link[k] == resolved[k - 2]);
            } else {
                assert(link[k] == url[k - 2 - resolved.len() + cut]);
            }
        }
    }
    let image = zola_image(url, current_file, source_dir);
    assert forall|k: int| 0 <= k < image.len() implies #[trigger] image[k] != '\\' by {
        if !is_external_image(url) {
            let resolved = resolved_path(dir, url);
            if STATIC_PREFIX@.is_prefix_of(resolved) {
                if k >= 1 {
                    assert(image[k] == resolved[k - 1 + STATIC_PREFIX@.len()]);
                }
            } else {
                assert(image[k] == resolved[k]);
            }
        }
    }
}

} // verus!
