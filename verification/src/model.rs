//! Data model of the catalog: records, their metadata, and the catalog
//! itself, together with the spec-level views that the reconciliation
//! contracts are stated over.

use vstd::prelude::*;

verus! {

/// How much logging the command-line front end should produce.
#[derive(Debug, Clone, Copy, PartialEq, Eq, Structural)]
pub enum Verbosity {
    Info,
    Quiet,
    Debug,
}

impl Default for Verbosity {
    fn default() -> (r: Self)
        ensures
            r == Verbosity::Info,
    {
        Verbosity::Info
    }
}

/// File format of an indexed item.
#[derive(Debug, Clone, Copy, PartialEq, Eq, Structural)]
pub enum FileFormat {
    Epub,
    Pdf,
}

impl Default for FileFormat {
    fn default() -> (r: Self)
        ensures
            r == FileFormat::Epub,
    {
        FileFormat::Epub
    }
}

/// Best-effort bibliographic metadata extracted from a file.  Absence of a
/// field is `None` or empty, never an error.
#[derive(Debug)]
pub struct EpubMeta {
    pub title: Option<String>,
    pub author: Option<String>,
    pub description: Option<String>,
    pub chapters: Vec<String>,
    pub publish_date: Option<String>,
    pub publisher: Option<String>,
    /// Free-form extras; well-formed metadata has pairwise distinct keys.
    pub other_metadata: Vec<(String, String)>,
}

/// Spec-level value of an [`EpubMeta`].
#[verifier::ext_equal]
pub ghost struct MetaV {
    pub title: Option<Seq<char>>,
    pub author: Option<Seq<char>>,
    pub description: Option<Seq<char>>,
    pub chapters: Seq<Seq<char>>,
    pub publish_date: Option<Seq<char>>,
    pub publisher: Option<Seq<char>>,
    pub other_metadata: Seq<(Seq<char>, Seq<char>)>,
}

impl View for EpubMeta {
    type V = MetaV;

    open spec fn view(&self) -> MetaV {
        MetaV {
            title: self.title.deep_view(),
            author: self.author.deep_view(),
            description: self.description.deep_view(),
            chapters: self.chapters.deep_view(),
            publish_date: self.publish_date.deep_view(),
            publisher: self.publisher.deep_view(),
            other_metadata: self.other_metadata.deep_view(),
        }
    }
}

impl DeepView for EpubMeta {
    type V = MetaV;

    open spec fn deep_view(&self) -> MetaV {
        self.view()
    }
}

/// One record of the catalog: a file observed at some path, with its
/// content hash and metadata at the time of observation.  Historical
/// versions of a path are retained with `stale` set.
#[derive(Debug)]
pub struct BookEntry {
    /// Absolute path; the identity key of the record.
    pub full_path: String,
    /// Derived `file://` URI form of the path; non-authoritative.
    pub uri_path: String,
    pub protocol: String,
    pub filename: String,
    /// 128-bit content hash; `None` only when hashing was skipped or failed.
    pub xxhash: Option<u128>,
    /// ISO-8601 timestamp of when this record version was created.
    pub date_found: String,
    /// True if the path was last observed unreadable or absent.
    pub missing: bool,
    /// True if a newer record for the same path supersedes this one.
    pub stale: bool,
    /// Last observed byte length.
    pub size_bytes: u64,
    pub format: FileFormat,
    pub title: Option<String>,
    pub author: Option<String>,
    pub description: Option<String>,
    pub chapters: Vec<String>,
    pub publish_date: Option<String>,
    pub publisher: Option<String>,
    pub other_metadata: Vec<(String, String)>,
}

/// Spec-level value of a [`BookEntry`].
#[verifier::ext_equal]
pub ghost struct RecV {
    pub full_path: Seq<char>,
    pub uri_path: Seq<char>,
    pub protocol: Seq<char>,
    pub filename: Seq<char>,
    pub xxhash: Option<u128>,
    pub date_found: Seq<char>,
    pub missing: bool,
    pub stale: bool,
    pub size_bytes: u64,
    pub format: FileFormat,
    pub title: Option<Seq<char>>,
    pub author: Option<Seq<char>>,
    pub description: Option<Seq<char>>,
    pub chapters: Seq<Seq<char>>,
    pub publish_date: Option<Seq<char>>,
    pub publisher: Option<Seq<char>>,
    pub other_metadata: Seq<(Seq<char>, Seq<char>)>,
}

impl View for BookEntry {
    type V = RecV;

    open spec fn view(&self) -> RecV {
        RecV {
            full_path: self.full_path@,
            uri_path: self.uri_path@,
            protocol: self.protocol@,
            filename: self.filename@,
            xxhash: self.xxhash,
            date_found: self.date_found@,
            missing: self.missing,
            stale: self.stale,
            size_bytes: self.size_bytes,
            format: self.format,
            title: self.title.deep_view(),
            author: self.author.deep_view(),
            description: self.description.deep_view(),
            chapters: self.chapters.deep_view(),
            publish_date: self.publish_date.deep_view(),
            publisher: self.publisher.deep_view(),
            other_metadata: self.other_metadata.deep_view(),
        }
    }
}

impl DeepView for BookEntry {
    type V = RecV;

    open spec fn deep_view(&self) -> RecV {
        self.view()
    }
}

/// The catalog: an append-ordered sequence of records plus an optional
/// "last reconciled at" timestamp.
#[derive(Debug)]
pub struct BooksDb {
    pub books: Vec<BookEntry>,
    pub last_updated: Option<String>,
}

/// Spec-level value of a [`BooksDb`].
#[verifier::ext_equal]
pub ghost struct DbV {
    pub books: Seq<RecV>,
    pub last_updated: Option<Seq<char>>,
}

impl View for BooksDb {
    type V = DbV;

    open spec fn view(&self) -> DbV {
        DbV { books: self.books.deep_view(), last_updated: self.last_updated.deep_view() }
    }
}

impl BooksDb {
    /// An empty catalog with no reconciliation timestamp.
    pub fn new() -> (r: BooksDb)
        ensures
            r@.books =~= Seq::<RecV>::empty(),
            r@.last_updated is None,
    {
        BooksDb { books: Vec::new(), last_updated: None }
    }
}

impl Default for BooksDb {
    fn default() -> (r: Self)
        ensures
            r@.books =~= Seq::<RecV>::empty(),
            r@.last_updated is None,
    {
        BooksDb::new()
    }
}

/// Clones a vector of strings, element for element.
pub fn clone_string_vec(v: &Vec<String>) -> (r: Vec<String>)
    ensures
        r@ == v@,
{
    let mut r: Vec<String> = Vec::new();
    let n = v.len();
    for i in 0..n
        invariant
            n == v.len(),
            r@ =~= v@.take(i as int),
    {
        r.push(v[i].clone());
    }
    proof {
        assert(r@ =~= v@);
    }
    r
}

/// Clones a vector of key/value string pairs, element for element.
pub fn clone_pair_vec(v: &Vec<(String, String)>) -> (r: Vec<(String, String)>)
    ensures
        r@ == v@,
{
    let mut r: Vec<(String, String)> = Vec::new();
    let n = v.len();
    for i in 0..n
        invariant
            n == v.len(),
            r@ =~= v@.take(i as int),
    {
        r.push((v[i].0.clone(), v[i].1.clone()));
    }
    proof {
        assert(r@ =~= v@);
    }
    r
}

/// Clones an optional string.
pub fn clone_opt_string(v: &Option<String>) -> (r: Option<String>)
    ensures
        r == *v,
{
    match v {
        Some(s) => Some(s.clone()),
        None => None,
    }
}

impl Clone for EpubMeta {
    fn clone(&self) -> (r: Self)
        ensures
            r@ == self@,
    {
        EpubMeta {
            title: clone_opt_string(&self.title),
            author: clone_opt_string(&self.author),
            description: clone_opt_string(&self.description),
            chapters: clone_string_vec(&self.chapters),
            publish_date: clone_opt_string(&self.publish_date),
            publisher: clone_opt_string(&self.publisher),
            other_metadata: clone_pair_vec(&self.other_metadata),
        }
    }
}

impl Default for EpubMeta {
    fn default() -> (r: Self)
        ensures
            r@ == empty_meta(),
    {
        let r = EpubMeta {
            title: None,
            author: None,
            description: None,
            chapters: Vec::new(),
            publish_date: None,
            publisher: None,
            other_metadata: Vec::new(),
        };
        proof {
            assert(r@ =~= empty_meta());
        }
        r
    }
}

/// The all-empty metadata value substituted when extraction fails.
pub open spec fn empty_meta() -> MetaV {
    MetaV {
        title: None,
        author: None,
        description: None,
        chapters: Seq::empty(),
        publish_date: None,
        publisher: None,
        other_metadata: Seq::empty(),
    }
}

impl Clone for BookEntry {
    fn clone(&self) -> (r: Self)
        ensures
            r@ == self@,
    {
        BookEntry {
            full_path: self.full_path.clone(),
            uri_path: self.uri_path.clone(),
            protocol: self.protocol.clone(),
            filename: self.filename.clone(),
            xxhash: self.xxhash,
            date_found: self.date_found.clone(),
            missing: self.missing,
            stale: self.stale,
            size_bytes: self.size_bytes,
            format: self.format,
            title: clone_opt_string(&self.title),
            author: clone_opt_string(&self.author),
            description: clone_opt_string(&self.description),
            chapters: clone_string_vec(&self.chapters),
            publish_date: clone_opt_string(&self.publish_date),
            publisher: clone_opt_string(&self.publisher),
            other_metadata: clone_pair_vec(&self.other_metadata),
        }
    }
}

} // verus!
