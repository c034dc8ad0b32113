//! Markdown rendering and image inlining.
//!
//! Markdown text is converted to an HTML fragment by comrak; the
//! fragment is then scanned for the image elements that conversion
//! produces, and every element whose referenced image bytes are
//! available is replaced, throughout the document, by a self-contained
//! element holding a base64 `data:` URI. Reading the image files is the
//! caller's part: it receives the list of references found and hands
//! back the bytes of each, `None` where a file could not be read; a
//! missing image leaves its element exactly as rendered.

use vstd::prelude::*;

use crate::paths::mime_for_path;
use crate::paths::mime_of;
use crate::text::find_from;
use crate::text::find_from_spec;
use crate::text::lemma_find_from_spec_some;
use crate::text::lemma_replace_all_nonempty;
use crate::text::replace_all;
use crate::text::replace_all_spec;

verus! {

/// The HTML fragment comrak produces for a Markdown text, with default
/// options. The conversion is a pure function of the text.
pub uninterp spec fn comrak_html_of(markdown: Seq<char>) -> Seq<char>;

/// Relies on comrak::markdown_to_html with default options: it returns
/// the HTML rendering of the Markdown text, a function of the text
/// alone.
#[verifier::external_body]
fn comrak_render(markdown: &str) -> (r: String)
    ensures
        r@ == comrak_html_of(markdown@),
{
    comrak::markdown_to_html(markdown, &comrak::Options::default())
}

/// The base64 encoding (standard alphabet, padded) of a byte sequence.
pub uninterp spec fn base64_of(bytes: Seq<u8>) -> Seq<char>;

/// Relies on base64::encode: the standard-alphabet, padded base64
/// encoding of the bytes, a function of the bytes alone.
#[verifier::external_body]
fn base64_encode(bytes: &Vec<u8>) -> (r: String)
    ensures
        r@ == base64_of(bytes@),
{
    base64::encode(bytes)
}

/// Opening text of an image element as comrak emits it.
pub open spec fn img_open() -> Seq<char> {
    "<img src=\""@
}

/// The quote closing the source attribute's value.
pub open spec fn img_quote() -> Seq<char> {
    "\""@
}

/// Closing text of a self-closing image element.
pub open spec fn img_close() -> Seq<char> {
    "/>"@
}

/// One image element found in rendered HTML: the element's full text,
/// to be substituted away, and the path its source attribute holds.
pub struct ImageTag {
    pub full: String,
    pub src: String,
}

/// View of a list of found image elements.
pub open spec fn tags_view(tags: Seq<ImageTag>) -> Seq<(Seq<char>, Seq<char>)> {
    tags.map(|i: int, t: ImageTag| (t.full@, t.src@))
}

/// View of a list of optional image byte vectors.
pub open spec fn data_view(data: Seq<Option<Vec<u8>>>) -> Seq<Option<Seq<u8>>> {
    data.map(
        |i: int, o: Option<Vec<u8>>|
            match o {
                Some(v) => Some(v@),
                None => None,
            },
    )
}

/// The image elements of `s` at or after position `i`, scanned left to
/// right: each is opened by `img_open()`, its source runs to the next
/// quote, and the element runs on to the next `/>`. Scanning resumes
/// right after each element; it stops when any of the three parts is
/// missing.
pub open spec fn image_tags_from(s: Seq<char>, i: int) -> Seq<(Seq<char>, Seq<char>)>
    decreases s.len() - i + 1,
        via image_tags_from_decreases
{
    match find_from_spec(s, img_open(), i) {
        None => Seq::empty(),
        Some(p) => match find_from_spec(s, img_quote(), p + img_open().len()) {
            None => Seq::empty(),
            Some(q) => match find_from_spec(s, img_close(), q) {
                None => Seq::empty(),
                Some(e) => seq![(s.subrange(p, e + 2), s.subrange(p + img_open().len(), q))]
                    + image_tags_from(s, e + 2),
            },
        },
    }
}

#[via_fn]
proof fn image_tags_from_decreases(s: Seq<char>, i: int) {
    reveal_strlit("<img src=\"");
    reveal_strlit("\"");
    reveal_strlit("/>");
    match find_from_spec(s, img_open(), i) {
        None => {},
        Some(p) => {
            lemma_find_from_spec_some(s, img_open(), i, p);
            match find_from_spec(s, img_quote(), p + img_open().len() as int) {
                None => {},
                Some(q) => {
                    lemma_find_from_spec_some(s, img_quote(), p + img_open().len() as int, q);
                    match find_from_spec(s, img_close(), q) {
                        None => {},
                        Some(e) => {
                            lemma_find_from_spec_some(s, img_close(), q, e);
                        },
                    }
                },
            }
        },
    }
}

/// Scan rendered HTML for the image elements comrak produced, in
/// order. Image markup in the raw Markdown source that comrak does not
/// convert is not found, since with default options comrak omits raw
/// HTML from its output.
pub fn find_image_tags(html: &str) -> (r: Vec<ImageTag>)
    ensures
        tags_view(r@) == image_tags_from(html@, 0),
{
    let n = html.unicode_len();
    let mut out: Vec<ImageTag> = Vec::new();
    let mut i: usize = 0;
    proof {
        reveal_strlit("<img src=\"");
        assert(tags_view(out@) + image_tags_from(html@, 0) =~= image_tags_from(html@, 0));
    }
    loop
        invariant
            n == html@.len(),
            i <= n,
            image_tags_from(html@, 0) == tags_view(out@) + image_tags_from(html@, i as int),
        decreases n - i + 1,
    {
        proof {
            reveal_strlit("<img src=\"");
        }
        let p = match find_from(html, "<img src=\"", i) {
            Some(p) => p,
            None => {
                proof {
                    assert(tags_view(out@) + image_tags_from(html@, i as int) =~= tags_view(out@));
                }
                return out;
            },
        };
        proof {
            lemma_find_from_spec_some(html@, img_open(), i as int, p as int);
        }
        let q = match find_from(html, "\"", p + 10) {
            Some(q) => q,
            None => {
                proof {
                    assert(tags_view(out@) + image_tags_from(html@, i as int) =~= tags_view(out@));
                }
                return out;
            },
        };
        proof {
            reveal_strlit("\"");
            lemma_find_from_spec_some(html@, img_quote(), p + 10, q as int);
        }
        let e = match find_from(html, "/>", q) {
            Some(e) => e,
            None => {
                proof {
                    assert(tags_view(out@) + image_tags_from(html@, i as int) =~= tags_view(out@));
                }
                return out;
            },
        };
        proof {
            reveal_strlit("/>");
            lemma_find_from_spec_some(html@, img_close(), q as int, e as int);
        }
        let ghost before = tags_view(out@);
        let full = String::from_str(html.substring_char(p, e + 2));
        let src = String::from_str(html.substring_char(p + 10, q));
        out.push(ImageTag { full, src });
        proof {
            assert(tags_view(out@) =~= before + seq![
                (html@.subrange(p as int, e + 2), html@.subrange(p + 10, q as int)),
            ]);
            assert(before + (seq![
                (html@.subrange(p as int, e + 2), html@.subrange(p + 10, q as int)),
            ] + image_tags_from(html@, e + 2)) =~= tags_view(out@) + image_tags_from(
                html@,
                e + 2,
            ));
        }
        i = e + 2;
    }
}

/// The self-contained image element embedding the bytes of the image
/// at `path`: its source is a `data:` URI carrying the MIME type
/// derived from the path's extension and the base64-encoded bytes.
pub open spec fn data_image_element(path: Seq<char>, bytes: Seq<u8>) -> Seq<char> {
    "<img src=\"data:"@ + mime_of(path) + ";base64,"@ + base64_of(bytes) + "\" />"@
}

/// Build the self-contained image element for the image at `path`
/// whose contents are `bytes`.
pub fn build_data_image_element(path: &str, bytes: &Vec<u8>) -> (r: String)
    ensures
        r@ == data_image_element(path@, bytes@),
{
    let mut out = String::from_str("<img src=\"data:");
    out.append(mime_for_path(path));
    out.append(";base64,");
    let payload = base64_encode(bytes);
    out.append(payload.as_str());
    out.append("\" />");
    proof {
        assert(out@ =~= data_image_element(path@, bytes@));
    }
    out
}

/// One inlining step: if the image's bytes were read, every occurrence
/// of the element's text is replaced by the self-contained element;
/// unreadable bytes leave the document untouched.
pub open spec fn inline_step(
    html: Seq<char>,
    tag: (Seq<char>, Seq<char>),
    bytes: Option<Seq<u8>>,
) -> Seq<char> {
    match bytes {
        Some(b) => replace_all_spec(html, tag.0, data_image_element(tag.1, b)),
        None => html,
    }
}

/// Inline a list of found image elements, in order, each with the
/// bytes read for it. The walk ends when either list runs out.
pub open spec fn inline_all(
    html: Seq<char>,
    tags: Seq<(Seq<char>, Seq<char>)>,
    data: Seq<Option<Seq<u8>>>,
) -> Seq<char>
    decreases tags.len(),
{
    if tags.len() == 0 || data.len() == 0 {
        html
    } else {
        inline_all(inline_step(html, tags[0], data[0]), tags.drop_first(), data.drop_first())
    }
}

/// Substitute inlined image elements into rendered HTML: `data[i]`
/// holds the bytes read for `tags[i]`, `None` where reading failed.
/// Inlining is best effort per image: a `None` leaves that element as
/// comrak rendered it.
pub fn inline_images(html: &str, tags: &Vec<ImageTag>, data: &Vec<Option<Vec<u8>>>) -> (r: String)
    ensures
        r@ == inline_all(html@, tags_view(tags@), data_view(data@)),
{
    let mut cur = String::from_str(html);
    let end = if tags.len() < data.len() {
        tags.len()
    } else {
        data.len()
    };
    let mut i: usize = 0;
    proof {
        assert(tags_view(tags@).skip(0) =~= tags_view(tags@));
        assert(data_view(data@).skip(0) =~= data_view(data@));
    }
    while i < end
        invariant
            i <= end,
            end <= tags@.len(),
            end <= data@.len(),
            tags@.len() == end || data@.len() == end,
            inline_all(html@, tags_view(tags@), data_view(data@)) == inline_all(
                cur@,
                tags_view(tags@).skip(i as int),
                data_view(data@).skip(i as int),
            ),
        decreases end - i,
    {
        let ghost tv = tags_view(tags@).skip(i as int);
        let ghost dv = data_view(data@).skip(i as int);
        proof {
            assert(tv[0] == (tags@[i as int].full@, tags@[i as int].src@));
            assert(dv[0] == data_view(data@)[i as int]);
            assert(tv.drop_first() =~= tags_view(tags@).skip(i + 1));
            assert(dv.drop_first() =~= data_view(data@).skip(i + 1));
        }
        let tag = &tags[i];
        let d = &data[i];
        match d {
            Some(bytes) => {
                let element = build_data_image_element(tag.src.as_str(), bytes);
                cur = replace_all(cur.as_str(), tag.full.as_str(), element.as_str());
            },
            None => {},
        }
        i += 1;
    }
    proof {
        assert(tags_view(tags@).skip(i as int).len() == 0 || data_view(data@).skip(
            i as int,
        ).len() == 0);
    }
    cur
}

/// Convert Markdown text to an HTML fragment and report, in order, the
/// image elements the conversion produced. The caller reads the bytes
/// of each reported source path and hands them to `inline_images`.
pub fn render_markdown(markdown: &str) -> (r: (String, Vec<ImageTag>))
    ensures
        r.0@ == comrak_html_of(markdown@),
        tags_view(r.1@) == image_tags_from(r.0@, 0),
{
    let html = comrak_render(markdown);
    let tags = find_image_tags(html.as_str());
    (html, tags)
}

/// The fully rendered document: the comrak HTML of the Markdown text,
/// with its image elements inlined against the given image bytes.
pub open spec fn rendered_document(markdown: Seq<char>, data: Seq<Option<Seq<u8>>>) -> Seq<char> {
    inline_all(comrak_html_of(markdown), image_tags_from(comrak_html_of(markdown), 0), data)
}

/// The two rendering stages compose into the rendered document: when
/// `html` is the conversion of the Markdown text and `tags` are the
/// image elements found in it, inlining yields exactly
/// `rendered_document` of the text and the image bytes.
pub proof fn lemma_stages_compose(
    markdown: Seq<char>,
    html: Seq<char>,
    tags: Seq<(Seq<char>, Seq<char>)>,
    data: Seq<Option<Seq<u8>>>,
)
    requires
        html == comrak_html_of(markdown),
        tags == image_tags_from(html, 0),
    ensures
        inline_all(html, tags, data) == rendered_document(markdown, data),
{
}

/// Inlining never empties a document: a non-empty HTML fragment stays
/// non-empty whatever image bytes are available, since every
/// substituted element is itself non-empty.
pub proof fn lemma_inlining_preserves_nonempty(
    html: Seq<char>,
    tags: Seq<(Seq<char>, Seq<char>)>,
    data: Seq<Option<Seq<u8>>>,
)
    requires
        html.len() > 0,
    ensures
        inline_all(html, tags, data).len() > 0,
    decreases tags.len(),
{
    if tags.len() != 0 && data.len() != 0 {
        let h1 = inline_step(html, tags[0], data[0]);
        match data[0] {
            Some(b) => {
                reveal_strlit("<img src=\"data:");
                assert(data_image_element(tags[0].1, b).len() > 0);
                lemma_replace_all_nonempty(html, tags[0].0, data_image_element(tags[0].1, b));
            },
            None => {},
        }
        lemma_inlining_preserves_nonempty(h1, tags.drop_first(), data.drop_first());
    }
}

/// A document none of whose images could be read is left exactly as
/// comrak rendered it: every element keeps its original text, and
/// rendering still succeeds.
pub proof fn lemma_missing_images_leave_html_unchanged(
    html: Seq<char>,
    tags: Seq<(Seq<char>, Seq<char>)>,
    data: Seq<Option<Seq<u8>>>,
)
    requires
        forall|i: int| 0 <= i < data.len() ==> data[i] is None,
    ensures
        inline_all(html, tags, data) == html,
    decreases tags.len(),
{
    if tags.len() != 0 && data.len() != 0 {
        assert(data[0] is None);
        assert(forall|i: int|
            0 <= i < data.drop_first().len() ==> #[trigger] data.drop_first()[i] == data[i + 1]);
        lemma_missing_images_leave_html_unchanged(html, tags.drop_first(), data.drop_first());
    }
}

/// Rendering is deterministic: the same Markdown source, with the
/// bytes of its referenced images unchanged, yields byte-identical
/// output on every rendering.
pub proof fn lemma_rendering_idempotent(
    markdown: Seq<char>,
    data: Seq<Option<Seq<u8>>>,
    first: Seq<char>,
    second: Seq<char>,
)
    requires
        first == rendered_document(markdown, data),
        second == rendered_document(markdown, data),
    ensures
        first == second,
{
}

} // verus!
