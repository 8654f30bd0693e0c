//! Recognizing candidate files by path, and building the candidate record
//! for a discovered file.  Directory walking itself is left to the caller;
//! this module owns the rules applied to each path.

use vstd::prelude::*;

use crate::model::{BookEntry, EpubMeta, FileFormat, MetaV, RecV};
use crate::util::{file_uri, uri_of};

verus! {

/// The largest index at which `c` occurs in `s`, or -1 where it does not.
pub open spec fn last_occurrence(s: Seq<char>, c: char) -> int
    decreases s.len(),
{
    if s.len() == 0 {
        -1
    } else if s.last() == c {
        s.len() - 1
    } else {
        last_occurrence(s.drop_last(), c)
    }
}

/// Where the file name begins: just after the last path separator.
pub open spec fn name_start(path: Seq<char>) -> int {
    last_occurrence(path, '/') + 1
}

/// Where the extension begins: just after the last dot, provided that dot
/// lies inside the file name and not at its head (a leading dot marks a
/// hidden file, not an extension).  Where there is none, the path's end.
pub open spec fn ext_start(path: Seq<char>) -> int {
    let d = last_occurrence(path, '.');
    if d > name_start(path) {
        d + 1
    } else {
        path.len() as int
    }
}

/// The path's extension; empty where it has none.
pub open spec fn extension_of(path: Seq<char>) -> Seq<char> {
    path.subrange(ext_start(path), path.len() as int)
}

/// The path's final component; empty for a path that ends in a separator.
pub open spec fn file_name_of(path: Seq<char>) -> Seq<char> {
    path.subrange(name_start(path), path.len() as int)
}

/// `c` is `l` up to ASCII case: equal outright, or the upper-case letter
/// whose lower-case form is `l`.
pub open spec fn ci_eq(c: char, l: char) -> bool {
    c == l || ('A' <= c && c <= 'Z' && (c as u32) + 32 == (l as u32))
}

/// The extension reads `pdf`, ignoring ASCII case.
pub open spec fn matches_pdf(e: Seq<char>) -> bool {
    e.len() == 3 && ci_eq(e[0], 'p') && ci_eq(e[1], 'd') && ci_eq(e[2], 'f')
}

/// The extension reads `epub`, ignoring ASCII case.
pub open spec fn matches_epub(e: Seq<char>) -> bool {
    e.len() == 4 && ci_eq(e[0], 'e') && ci_eq(e[1], 'p') && ci_eq(e[2], 'u') && ci_eq(e[3], 'b')
}

/// The format a path is indexed under: `pdf` extensions are PDF, all
/// others EPUB.
pub open spec fn spec_format_of(path: Seq<char>) -> FileFormat {
    if matches_pdf(extension_of(path)) {
        FileFormat::Pdf
    } else {
        FileFormat::Epub
    }
}

/// The path carries a recognized e-book extension.
pub open spec fn spec_is_candidate(path: Seq<char>) -> bool {
    matches_epub(extension_of(path)) || matches_pdf(extension_of(path))
}

/// Finds the largest index at which `c` occurs in the path.
fn last_occurrence_idx(s: &String, c: char) -> (r: Option<usize>)
    ensures
        match r {
            Some(j) => j < s@.len() && last_occurrence(s@, c) == j as int,
            None => last_occurrence(s@, c) == -1,
        },
{
    let n = s.as_str().unicode_len();
    let mut j = n;
    proof {
        assert(s@.take(n as int) =~= s@);
    }
    while j > 0
        invariant
            n == s@.len(),
            j <= n,
            last_occurrence(s@, c) == last_occurrence(s@.take(j as int), c),
        decreases j,
    {
        proof {
            assert(s@.take(j as int).drop_last() =~= s@.take(j - 1));
            assert(s@.take(j as int).last() == s@[j - 1]);
        }
        let ch = s.as_str().get_char(j - 1);
        if ch == c {
            return Some(j - 1);
        }
        j -= 1;
    }
    None
}

/// Compares two characters up to ASCII case, the right one lower-case.
fn ci_eq_chars(c: char, l: char) -> (r: bool)
    ensures
        r == ci_eq(c, l),
{
    c == l || ('A' <= c && c <= 'Z' && (c as u32) + 32 == (l as u32))
}

/// Computes where the path's extension begins (the path's length where it
/// has none) and where its file name begins.
fn ext_bounds(path: &String) -> (r: (usize, usize))
    ensures
        r.0 == ext_start(path@),
        r.1 == name_start(path@),
        r.1 <= r.0 <= path@.len(),
{
    let n = path.as_str().unicode_len();
    let slash = last_occurrence_idx(path, '/');
    let ns: usize = match slash {
        Some(j) => j + 1,
        None => 0,
    };
    let dot = last_occurrence_idx(path, '.');
    let es: usize = match dot {
        Some(d) => if d > ns {
            d + 1
        } else {
            n
        },
        None => n,
    };
    proof {
        lemma_last_occurrence_bounds(path@, '.');
        lemma_last_occurrence_bounds(path@, '/');
    }
    (es, ns)
}

/// The last occurrence of a character lies inside the sequence.
proof fn lemma_last_occurrence_bounds(s: Seq<char>, c: char)
    ensures
        -1 <= last_occurrence(s, c) < s.len(),
    decreases s.len(),
{
    if s.len() > 0 && s.last() != c {
        lemma_last_occurrence_bounds(s.drop_last(), c);
    }
}

/// The format a path is indexed under, decided by its extension.
pub fn format_of_path(path: &String) -> (f: FileFormat)
    ensures
        f == spec_format_of(path@),
{
    let (es, _ns) = ext_bounds(path);
    let n = path.as_str().unicode_len();
    let ghost e = extension_of(path@);
    if n - es == 3 {
        let c0 = path.as_str().get_char(es);
        let c1 = path.as_str().get_char(es + 1);
        let c2 = path.as_str().get_char(es + 2);
        proof {
            assert(e[0] == path@[es as int]);
            assert(e[1] == path@[es + 1]);
            assert(e[2] == path@[es + 2]);
        }
        if ci_eq_chars(c0, 'p') && ci_eq_chars(c1, 'd') && ci_eq_chars(c2, 'f') {
            FileFormat::Pdf
        } else {
            FileFormat::Epub
        }
    } else {
        FileFormat::Epub
    }
}

/// Whether a path is picked up by a scan: it carries a recognized e-book
/// extension (`epub` or `pdf`, ignoring ASCII case).
pub fn is_epub(path: &String) -> (r: bool)
    ensures
        r == spec_is_candidate(path@),
{
    let (es, _ns) = ext_bounds(path);
    let n = path.as_str().unicode_len();
    let ghost e = extension_of(path@);
    if n - es == 3 {
        let c0 = path.as_str().get_char(es);
        let c1 = path.as_str().get_char(es + 1);
        let c2 = path.as_str().get_char(es + 2);
        proof {
            assert(e[0] == path@[es as int]);
            assert(e[1] == path@[es + 1]);
            assert(e[2] == path@[es + 2]);
        }
        ci_eq_chars(c0, 'p') && ci_eq_chars(c1, 'd') && ci_eq_chars(c2, 'f')
    } else if n - es == 4 {
        let c0 = path.as_str().get_char(es);
        let c1 = path.as_str().get_char(es + 1);
        let c2 = path.as_str().get_char(es + 2);
        let c3 = path.as_str().get_char(es + 3);
        proof {
            assert(e[0] == path@[es as int]);
            assert(e[1] == path@[es + 1]);
            assert(e[2] == path@[es + 2]);
            assert(e[3] == path@[es + 3]);
        }
        ci_eq_chars(c0, 'e') && ci_eq_chars(c1, 'p') && ci_eq_chars(c2, 'u') && ci_eq_chars(
            c3,
            'b',
        )
    } else {
        false
    }
}

/// The path's final component.
pub fn file_name(path: &String) -> (r: String)
    ensures
        r@ == file_name_of(path@),
{
    let (_es, ns) = ext_bounds(path);
    let n = path.as_str().unicode_len();
    let sub = path.as_str().substring_char(ns, n);
    sub.to_owned()
}

/// The candidate record a load builds for one discovered file: live, not
/// missing, stamped `now`, its fields derived from the path and from what
/// the content identifier and metadata extractor reported.
pub open spec fn spec_entry(
    path: Seq<char>,
    size_bytes: u64,
    xxhash: Option<u128>,
    meta: MetaV,
    now: Seq<char>,
) -> RecV {
    RecV {
        full_path: path,
        uri_path: uri_of(path),
        protocol: "file"@,
        filename: file_name_of(path),
        xxhash: xxhash,
        date_found: now,
        missing: false,
        stale: false,
        size_bytes: size_bytes,
        format: spec_format_of(path),
        title: meta.title,
        author: meta.author,
        description: meta.description,
        chapters: meta.chapters,
        publish_date: meta.publish_date,
        publisher: meta.publisher,
        other_metadata: meta.other_metadata,
    }
}

/// Builds the candidate record for one discovered file.  The hash is
/// `None` where hashing was skipped or failed; the metadata is all-empty
/// where extraction failed.
pub fn build_entry(
    path: &String,
    size_bytes: u64,
    xxhash: Option<u128>,
    meta: EpubMeta,
    now: &String,
) -> (r: BookEntry)
    ensures
        r@ == spec_entry(path@, size_bytes, xxhash, meta@, now@),
{
    let r = BookEntry {
        full_path: path.clone(),
        uri_path: file_uri(path),
        protocol: String::from_str("file"),
        filename: file_name(path),
        xxhash: xxhash,
        date_found: now.clone(),
        missing: false,
        stale: false,
        size_bytes: size_bytes,
        format: format_of_path(path),
        title: meta.title,
        author: meta.author,
        description: meta.description,
        chapters: meta.chapters,
        publish_date: meta.publish_date,
        publisher: meta.publisher,
        other_metadata: meta.other_metadata,
    };
    proof {
        assert(r@ =~= spec_entry(path@, size_bytes, xxhash, meta@, now@));
    }
    r
}

} // verus!
