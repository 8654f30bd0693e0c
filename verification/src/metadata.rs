//! EPUB metadata extraction: open the archive given as bytes, read
//! `META-INF/container.xml` to locate the OPF document, and pull the Dublin
//! Core fields out of it.  Extraction is best effort; callers substitute an
//! all-empty result on any error.

use vstd::prelude::*;

use crate::model::{EpubMeta, MetaV};

verus! {

/// The text of the named file inside a ZIP archive given as bytes: `None`
/// where the bytes are not a readable archive, the name is absent, or the
/// entry is not valid text.  A pure function of the bytes and the name.
pub uninterp spec fn zip_entry_of(archive: Seq<u8>, name: Seq<char>) -> Option<Seq<char>>;

/// Relies on zip's ZipArchive::new and by_name, and Read::read_to_string:
/// which text comes back depends on the archive bytes and the entry name
/// alone, and every failure is an `Err`, never a panic.
#[verifier::external_body]
fn zip_entry_text(archive: &Vec<u8>, name: &str) -> (r: Option<String>)
    ensures
        r.deep_view() == zip_entry_of(archive@, name@),
{
    let cursor = std::io::Cursor::new(archive.as_slice());
    let mut za = match zip::read::ZipArchive::new(cursor) {
        Ok(z) => z,
        Err(_) => return None,
    };
    let mut file = match za.by_name(name) {
        Ok(f) => f,
        Err(_) => return None,
    };
    let mut text = String::new();
    match std::io::Read::read_to_string(&mut file, &mut text) {
        Ok(_) => Some(text),
        Err(_) => None,
    }
}

/// One node of a parsed XML document: its tag name (namespace dropped),
/// its immediate text, and its attributes, in document order.
pub struct XmlNode {
    pub name: String,
    pub text: Option<String>,
    pub attrs: Vec<(String, String)>,
}

/// Spec-level value of an [`XmlNode`].
#[verifier::ext_equal]
pub ghost struct XmlNodeV {
    pub name: Seq<char>,
    pub text: Option<Seq<char>>,
    pub attrs: Seq<(Seq<char>, Seq<char>)>,
}

impl View for XmlNode {
    type V = XmlNodeV;

    open spec fn view(&self) -> XmlNodeV {
        XmlNodeV {
            name: self.name@,
            text: self.text.deep_view(),
            attrs: self.attrs.deep_view(),
        }
    }
}

impl DeepView for XmlNode {
    type V = XmlNodeV;

    open spec fn deep_view(&self) -> XmlNodeV {
        self.view()
    }
}

/// The nodes of an XML document in document order, or `None` where the
/// text is not well-formed XML.  A pure function of the text.
pub uninterp spec fn xml_nodes_of(text: Seq<char>) -> Option<Seq<XmlNodeV>>;

/// Relies on roxmltree's Document::parse, descendants, tag_name, text and
/// attributes: the node list depends on the document text alone, and a
/// document that does not parse is an `Err`, never a panic.
#[verifier::external_body]
fn xml_nodes(text: &str) -> (r: Option<Vec<XmlNode>>)
    ensures
        r.deep_view() == xml_nodes_of(text@),
{
    match roxmltree::Document::parse(text) {
        Ok(doc) => Some(
            doc.descendants().map(
                |n| XmlNode {
                    name: n.tag_name().name().to_string(),
                    text: n.text().map(|t| t.to_string()),
                    attrs: n.attributes().map(
                        |a| (a.name().to_string(), a.value().to_string()),
                    ).collect(),
                },
            ).collect(),
        ),
        Err(_) => None,
    }
}

/// What remains of a string once leading and trailing whitespace is gone;
/// a pure function of the string.
pub uninterp spec fn trim_of(s: Seq<char>) -> Seq<char>;

/// Relies on str::trim: the result is a substring of the input and depends
/// on the input alone.
#[verifier::external_body]
fn trim_text(s: &str) -> (r: String)
    ensures
        r@ == trim_of(s@),
        r@.len() <= s@.len(),
{
    s.trim().to_string()
}

/// The first node with the given tag name, in document order.
pub open spec fn spec_find_node(ns: Seq<XmlNodeV>, name: Seq<char>) -> Option<XmlNodeV>
    decreases ns.len(),
{
    if ns.len() == 0 {
        None
    } else if ns[0].name == name {
        Some(ns[0])
    } else {
        spec_find_node(ns.drop_first(), name)
    }
}

/// The value of the first attribute with the given key.
pub open spec fn spec_find_attr(
    attrs: Seq<(Seq<char>, Seq<char>)>,
    key: Seq<char>,
) -> Option<Seq<char>>
    decreases attrs.len(),
{
    if attrs.len() == 0 {
        None
    } else if attrs[0].0 == key {
        Some(attrs[0].1)
    } else {
        spec_find_attr(attrs.drop_first(), key)
    }
}

/// The trimmed text of the first node with the given tag name, if both the
/// node and its text exist.
pub open spec fn spec_text_of(ns: Seq<XmlNodeV>, name: Seq<char>) -> Option<Seq<char>> {
    match spec_find_node(ns, name) {
        None => None,
        Some(n) => match n.text {
            None => None,
            Some(t) => Some(trim_of(t)),
        },
    }
}

/// Finds the first node with the given tag name.
fn find_node<'a>(nodes: &'a Vec<XmlNode>, name: &String) -> (r: Option<&'a XmlNode>)
    ensures
        match r {
            Some(n) => spec_find_node(nodes.deep_view(), name@) == Some(n@),
            None => spec_find_node(nodes.deep_view(), name@) is None,
        },
{
    let ghost ns = nodes.deep_view();
    let n = nodes.len();
    let mut j: usize = 0;
    proof {
        assert(ns.skip(0) =~= ns);
    }
    while j < n
        invariant
            n == nodes.len(),
            ns == nodes.deep_view(),
            ns.len() == n,
            j <= n,
            spec_find_node(ns, name@) == spec_find_node(ns.skip(j as int), name@),
        decreases n - j,
    {
        proof {
            assert(ns.skip(j as int)[0] == ns[j as int]);
            assert(ns.skip(j as int).drop_first() =~= ns.skip(j + 1));
        }
        if nodes[j].name == *name {
            return Some(&nodes[j]);
        }
        j += 1;
    }
    None
}

/// Finds the value of the first attribute with the given key.
fn find_attr<'a>(attrs: &'a Vec<(String, String)>, key: &String) -> (r: Option<&'a String>)
    ensures
        match r {
            Some(v) => spec_find_attr(attrs.deep_view(), key@) == Some(v@),
            None => spec_find_attr(attrs.deep_view(), key@) is None,
        },
{
    let ghost avs = attrs.deep_view();
    let n = attrs.len();
    let mut j: usize = 0;
    proof {
        assert(avs.skip(0) =~= avs);
    }
    while j < n
        invariant
            n == attrs.len(),
            avs == attrs.deep_view(),
            avs.len() == n,
            j <= n,
            spec_find_attr(avs, key@) == spec_find_attr(avs.skip(j as int), key@),
        decreases n - j,
    {
        proof {
            assert(avs.skip(j as int)[0] == avs[j as int]);
            assert(avs.skip(j as int).drop_first() =~= avs.skip(j + 1));
        }
        if attrs[j].0 == *key {
            return Some(&attrs[j].1);
        }
        j += 1;
    }
    None
}

/// The trimmed text of the first node with the given tag name.
fn text_of(nodes: &Vec<XmlNode>, name: &String) -> (r: Option<String>)
    ensures
        r.deep_view() == spec_text_of(nodes.deep_view(), name@),
{
    match find_node(nodes, name) {
        None => None,
        Some(n) => match &n.text {
            None => None,
            Some(t) => Some(trim_text(t.as_str())),
        },
    }
}

/// Why extraction failed; callers treat every case as "no metadata".
#[derive(Debug, Clone, Copy, PartialEq, Eq, Structural)]
pub enum MetaError {
    /// The bytes are not a readable archive, or it has no
    /// `META-INF/container.xml`.
    ContainerMissing,
    /// The container document is not well-formed XML.
    ContainerInvalid,
    /// The container names no rootfile with a `full-path` attribute.
    RootfileMissing,
    /// The archive has no entry at the rootfile's path.
    OpfMissing,
    /// The OPF document is not well-formed XML.
    OpfInvalid,
}

/// The Dublin Core fields of an OPF document: title, creator, description,
/// publisher and date, each the trimmed text of its first node, and the
/// extras `identifier` and `language` where present, keyed uniquely.
pub open spec fn spec_meta_from(ns: Seq<XmlNodeV>) -> MetaV {
    MetaV {
        title: spec_text_of(ns, "title"@),
        author: spec_text_of(ns, "creator"@),
        description: spec_text_of(ns, "description"@),
        chapters: Seq::empty(),
        publish_date: spec_text_of(ns, "date"@),
        publisher: spec_text_of(ns, "publisher"@),
        other_metadata: spec_extras_from(ns),
    }
}

/// The extras mapping: `identifier` then `language`, each only where its
/// node has text, in key order.
pub open spec fn spec_extras_from(ns: Seq<XmlNodeV>) -> Seq<(Seq<char>, Seq<char>)> {
    let ids: Seq<(Seq<char>, Seq<char>)> = match spec_text_of(ns, "identifier"@) {
        Some(v) => seq![("identifier"@, v)],
        None => Seq::empty(),
    };
    let langs: Seq<(Seq<char>, Seq<char>)> = match spec_text_of(ns, "language"@) {
        Some(v) => seq![("language"@, v)],
        None => Seq::empty(),
    };
    ids + langs
}


/// The extras mapping of any extracted document keys its entries
/// uniquely: it holds at most one `identifier` and one `language` entry,
/// and those two keys differ.
pub proof fn lemma_extras_keys_unique(ns: Seq<XmlNodeV>)
    ensures
        forall|i: int, j: int|
            0 <= i < j < spec_extras_from(ns).len() ==> (#[trigger] spec_extras_from(ns)[i]).0 != (
            #[trigger] spec_extras_from(ns)[j]).0,
{
    reveal_strlit("identifier");
    reveal_strlit("language");
    let ex = spec_extras_from(ns);
    assert forall|i: int, j: int| 0 <= i < j < ex.len() implies (#[trigger] ex[i]).0 != (
    #[trigger] ex[j]).0 by {
        assert(ex[0].0 == "identifier"@ && ex[1].0 == "language"@);
        assert("identifier"@.len() == 10);
        assert("language"@.len() == 8);
    }
}

/// What extraction yields on given archive bytes: the metadata of the OPF
/// document that the container points at, or the first error on the way.
pub open spec fn spec_extract(data: Seq<u8>) -> Result<MetaV, MetaError> {
    match zip_entry_of(data, "META-INF/container.xml"@) {
        None => Err(MetaError::ContainerMissing),
        Some(cx) => match xml_nodes_of(cx) {
            None => Err(MetaError::ContainerInvalid),
            Some(cns) => match spec_find_node(cns, "rootfile"@) {
                None => Err(MetaError::RootfileMissing),
                Some(rf) => match spec_find_attr(rf.attrs, "full-path"@) {
                    None => Err(MetaError::RootfileMissing),
                    Some(opf_path) => match zip_entry_of(data, opf_path) {
                        None => Err(MetaError::OpfMissing),
                        Some(ox) => match xml_nodes_of(ox) {
                            None => Err(MetaError::OpfInvalid),
                            Some(ons) => Ok(spec_meta_from(ons)),
                        },
                    },
                },
            },
        },
    }
}

/// Extracts EPUB metadata from the archive's bytes: reads
/// `META-INF/container.xml`, follows its rootfile's `full-path` to the OPF
/// document, and collects the Dublin Core fields.  Chapter extraction is
/// not attempted.  Every failure is reported as an error value.
pub fn extract_epub_metadata(data: &Vec<u8>) -> (r: Result<EpubMeta, MetaError>)
    ensures
        match r {
            Ok(m) => spec_extract(data@) == Ok::<MetaV, MetaError>(m@),
            Err(e) => spec_extract(data@) == Err::<MetaV, MetaError>(e),
        },
{
    let container = match zip_entry_text(data, "META-INF/container.xml") {
        Some(c) => c,
        None => return Err(MetaError::ContainerMissing),
    };
    let cns = match xml_nodes(container.as_str()) {
        Some(ns) => ns,
        None => return Err(MetaError::ContainerInvalid),
    };
    let rootfile = String::from_str("rootfile");
    let full_path = String::from_str("full-path");
    let opf_path = match find_node(&cns, &rootfile) {
        None => return Err(MetaError::RootfileMissing),
        Some(rf) => match find_attr(&rf.attrs, &full_path) {
            None => return Err(MetaError::RootfileMissing),
            Some(p) => p.clone(),
        },
    };
    let opf = match zip_entry_text(data, opf_path.as_str()) {
        Some(o) => o,
        None => return Err(MetaError::OpfMissing),
    };
    let ons = match xml_nodes(opf.as_str()) {
        Some(ns) => ns,
        None => return Err(MetaError::OpfInvalid),
    };
    let title = text_of(&ons, &String::from_str("title"));
    let author = text_of(&ons, &String::from_str("creator"));
    let description = text_of(&ons, &String::from_str("description"));
    let publish_date = text_of(&ons, &String::from_str("date"));
    let publisher = text_of(&ons, &String::from_str("publisher"));
    let mut other_metadata: Vec<(String, String)> = Vec::new();
    match text_of(&ons, &String::from_str("identifier")) {
        Some(v) => other_metadata.push((String::from_str("identifier"), v)),
        None => (),
    }
    match text_of(&ons, &String::from_str("language")) {
        Some(v) => other_metadata.push((String::from_str("language"), v)),
        None => (),
    }
    let m = EpubMeta {
        title,
        author,
        description,
        chapters: Vec::new(),
        publish_date,
        publisher,
        other_metadata,
    };
    proof {
        assert(m.other_metadata.deep_view() =~= spec_extras_from(ons.deep_view()));
        assert(m@ =~= spec_meta_from(ons.deep_view()));
    }
    Ok(m)
}

} // verus!
