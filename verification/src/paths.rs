//! Path handling on plain strings: recognizing Markdown documents,
//! deriving the HTML artifact path, and mapping image file extensions
//! to MIME types.
//!
//! Paths are treated as character strings with `/` as the directory
//! separator. The extension of a path is the part of its file name
//! after the last dot, provided that dot is not the file name's first
//! character (a leading-dot name such as `.gitignore` has none).

use vstd::prelude::*;

verus! {

/// Index of the last occurrence of `c` in `s`, or `-1` if `c` does not
/// occur.
pub open spec fn last_pos(s: Seq<char>, c: char) -> int
    decreases s.len(),
{
    if s.len() == 0 {
        -1
    } else if s[s.len() - 1] == c {
        s.len() - 1
    } else {
        last_pos(s.drop_last(), c)
    }
}

/// `last_pos` stays within bounds and, when `c` occurs, points at it.
pub proof fn lemma_last_pos_bounds(s: Seq<char>, c: char)
    ensures
        -1 <= last_pos(s, c) < s.len(),
        last_pos(s, c) >= 0 ==> s[last_pos(s, c)] == c,
        forall|j: int| last_pos(s, c) < j < s.len() ==> s[j] != c,
    decreases s.len(),
{
    if s.len() > 0 && s[s.len() - 1] != c {
        lemma_last_pos_bounds(s.drop_last(), c);
        assert(forall|j: int| 0 <= j < s.len() - 1 ==> s[j] == s.drop_last()[j]);
    }
}

/// The extension of `p`: what follows the last dot of its file name,
/// unless that dot begins the file name or the file name has no dot.
pub open spec fn extension_of(p: Seq<char>) -> Option<Seq<char>> {
    let fname_start = last_pos(p, '/') + 1;
    let dot = last_pos(p, '.');
    if dot > fname_start {
        Some(p.subrange(dot + 1, p.len() as int))
    } else {
        None
    }
}

/// `p` names a Markdown document: its extension is exactly `md`.
pub open spec fn is_markdown_path(p: Seq<char>) -> bool {
    extension_of(p) == Some("md"@)
}

/// The artifact path of a Markdown document: the same path with the
/// `md` extension replaced by `html`.
pub open spec fn html_counterpart_spec(p: Seq<char>) -> Seq<char> {
    p.subrange(0, p.len() - 2) + "html"@
}

/// A Markdown path ends in `.md` with at least one character of file
/// name before the dot.
pub proof fn lemma_markdown_path_shape(p: Seq<char>)
    requires
        is_markdown_path(p),
    ensures
        p.len() >= 4,
        p[p.len() - 3] == '.',
        p[p.len() - 2] == 'm',
        p[p.len() - 1] == 'd',
{
    lemma_last_pos_bounds(p, '/');
    lemma_last_pos_bounds(p, '.');
    reveal_strlit("md");
    let dot = last_pos(p, '.');
    let ext = p.subrange(dot + 1, p.len() as int);
    assert(ext.len() == 2);
    assert(ext[0] == 'm' && ext[1] == 'd');
}

/// Find the index of the last occurrence of `c` in `s`, if any.
fn find_last(s: &str, c: char) -> (r: Option<usize>)
    ensures
        match r {
            Some(i) => last_pos(s@, c) == i as int,
            None => last_pos(s@, c) == -1,
        },
{
    let n = s.unicode_len();
    let mut i: usize = n;
    proof {
        assert(s@.subrange(0, n as int) =~= s@);
    }
    while i > 0
        invariant
            n == s@.len(),
            i <= n,
            last_pos(s@, c) == last_pos(s@.subrange(0, i as int), c),
        decreases i,
    {
        let ch = s.get_char(i - 1);
        proof {
            let pre = s@.subrange(0, i as int);
            assert(pre[i - 1] == s@[i - 1]);
            assert(pre.drop_last() =~= s@.subrange(0, i - 1));
        }
        if ch == c {
            return Some(i - 1);
        }
        i -= 1;
    }
    proof {
        assert(s@.subrange(0, 0) =~= Seq::<char>::empty());
    }
    None
}

/// Test whether `p` names a Markdown document.
pub fn is_markdown_file(p: &str) -> (r: bool)
    ensures
        r == is_markdown_path(p@),
{
    let n = p.unicode_len();
    let dot = find_last(p, '.');
    let slash = find_last(p, '/');
    proof {
        lemma_last_pos_bounds(p@, '.');
        lemma_last_pos_bounds(p@, '/');
        reveal_strlit("md");
    }
    match dot {
        None => false,
        Some(d) => {
            let fname_start = match slash {
                None => 0usize,
                Some(sl) => sl + 1,
            };
            if n >= 3 && d == n - 3 && d > fname_start {
                let c1 = p.get_char(n - 2);
                let c2 = p.get_char(n - 1);
                let r = c1 == 'm' && c2 == 'd';
                proof {
                    if r {
                        assert(p@.subrange(d + 1, n as int) =~= "md"@);
                    } else if is_markdown_path(p@) {
                        let ext = p@.subrange(d + 1, n as int);
                        assert(ext[0] == 'm' && ext[1] == 'd');
                        assert(p@[n - 2] == 'm' && p@[n - 1] == 'd');
                    }
                }
                r
            } else {
                proof {
                    if is_markdown_path(p@) {
                        let ext = p@.subrange(d + 1, n as int);
                        assert(ext.len() == 2);
                    }
                }
                false
            }
        },
    }
}

/// Derive the HTML artifact path of a Markdown document: same
/// directory, same stem, extension `html` in place of `md`.
pub fn html_counterpart(p: &str) -> (r: String)
    requires
        is_markdown_path(p@),
    ensures
        r@ == html_counterpart_spec(p@),
{
    proof {
        lemma_markdown_path_shape(p@);
    }
    let n = p.unicode_len();
    let stem = p.substring_char(0, n - 2);
    let mut out = String::from_str(stem);
    out.append("html");
    out
}

/// The MIME type of an image file, from its extension alone: a fixed
/// mapping for `jpg`/`jpeg`, `gif` and `png`; anything else, including
/// a missing extension, falls back to the opaque byte stream type.
pub open spec fn mime_of(p: Seq<char>) -> Seq<char> {
    match extension_of(p) {
        Some(e) => if e == "jpg"@ || e == "jpeg"@ {
            "image/jpeg"@
        } else if e == "gif"@ {
            "image/gif"@
        } else if e == "png"@ {
            "image/png"@
        } else {
            "application/octet-stream"@
        },
        None => "application/octet-stream"@,
    }
}

/// Compare two strings character by character.
fn str_eq_chars(a: &str, b: &str) -> (r: bool)
    ensures
        r == (a@ == b@),
{
    let na = a.unicode_len();
    let nb = b.unicode_len();
    if na != nb {
        return false;
    }
    let mut j: usize = 0;
    while j < na
        invariant
            na == a@.len(),
            na == b@.len(),
            j <= na,
            forall|k: int| 0 <= k < j ==> a@[k] == b@[k],
        decreases na - j,
    {
        if a.get_char(j) != b.get_char(j) {
            return false;
        }
        j += 1;
    }
    proof {
        assert(a@ =~= b@);
    }
    true
}

/// Determine the MIME type of an image reference from its extension.
pub fn mime_for_path(p: &str) -> (r: &'static str)
    ensures
        r@ == mime_of(p@),
{
    let n = p.unicode_len();
    let dot = find_last(p, '.');
    let slash = find_last(p, '/');
    proof {
        lemma_last_pos_bounds(p@, '.');
        lemma_last_pos_bounds(p@, '/');
    }
    match dot {
        None => "application/octet-stream",
        Some(d) => {
            let fname_start = match slash {
                None => 0usize,
                Some(sl) => sl + 1,
            };
            if d > fname_start {
                let ext = p.substring_char(d + 1, n);
                if str_eq_chars(ext, "jpg") || str_eq_chars(ext, "jpeg") {
                    "image/jpeg"
                } else if str_eq_chars(ext, "gif") {
                    "image/gif"
                } else if str_eq_chars(ext, "png") {
                    "image/png"
                } else {
                    "application/octet-stream"
                }
            } else {
                "application/octet-stream"
            }
        },
    }
}

/// Keep, in order, the paths of the regular files that name Markdown
/// documents.
pub open spec fn markdown_selection(entries: Seq<(Seq<char>, bool)>) -> Seq<Seq<char>>
    decreases entries.len(),
{
    if entries.len() == 0 {
        Seq::empty()
    } else {
        let head = if entries[0].1 && is_markdown_path(entries[0].0) {
            seq![entries[0].0]
        } else {
            Seq::<Seq<char>>::empty()
        };
        head + markdown_selection(entries.drop_first())
    }
}

/// View of a list of directory entries: each a path and whether it is
/// a regular file.
pub open spec fn entries_view(entries: Seq<(String, bool)>) -> Seq<(Seq<char>, bool)> {
    entries.map(|i: int, e: (String, bool)| (e.0@, e.1))
}

/// View of a list of paths.
pub open spec fn paths_view(paths: Seq<String>) -> Seq<Seq<char>> {
    paths.map(|i: int, p: String| p@)
}

/// From a directory listing, select the Markdown documents: the
/// regular files whose extension is `md`, in the order given.
pub fn select_markdown_files(entries: &Vec<(String, bool)>) -> (r: Vec<String>)
    ensures
        paths_view(r@) == markdown_selection(entries_view(entries@)),
{
    let mut out: Vec<String> = Vec::new();
    let mut i: usize = 0;
    proof {
        assert(entries_view(entries@).skip(0) =~= entries_view(entries@));
        assert(paths_view(out@) + markdown_selection(entries_view(entries@))
            =~= markdown_selection(entries_view(entries@)));
    }
    while i < entries.len()
        invariant
            i <= entries@.len(),
            markdown_selection(entries_view(entries@)) == paths_view(out@) + markdown_selection(
                entries_view(entries@).skip(i as int),
            ),
        decreases entries@.len() - i,
    {
        let ghost pre = paths_view(out@);
        let ghost rest = entries_view(entries@).skip(i as int);
        let is_file = entries[i].1;
        let is_md = is_markdown_file(entries[i].0.as_str());
        if is_file && is_md {
            out.push(entries[i].0.clone());
        }
        proof {
            assert(rest[0] == entries_view(entries@)[i as int]);
            assert(rest.drop_first() =~= entries_view(entries@).skip(i + 1));
            if is_file && is_md {
                assert(paths_view(out@) =~= pre + seq![entries@[i as int].0@]);
                assert(pre + (seq![entries@[i as int].0@] + markdown_selection(
                    entries_view(entries@).skip(i + 1),
                )) =~= paths_view(out@) + markdown_selection(entries_view(entries@).skip(i + 1)));
            } else {
                assert(paths_view(out@) =~= pre);
                assert(Seq::<Seq<char>>::empty() + markdown_selection(
                    entries_view(entries@).skip(i + 1),
                ) =~= markdown_selection(entries_view(entries@).skip(i + 1)));
            }
        }
        i += 1;
    }
    proof {
        assert(entries_view(entries@).skip(i as int) =~= Seq::<(Seq<char>, bool)>::empty());
        assert(paths_view(out@) + Seq::<Seq<char>>::empty() =~= paths_view(out@));
    }
    out
}

} // verus!
