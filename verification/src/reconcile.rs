//! The reconciliation engine: the rules by which candidate records are
//! folded into the catalog.
//!
//! A record is *live* when its `stale` flag is clear; the catalog is
//! well-formed when each path has at most one live record.  All ingestion
//! paths (load, check, merge) reduce to one supersession rule,
//! [`spec_merge_entry`]: a candidate whose hash matches the live record for
//! its path is discarded; otherwise the live record is flagged stale and
//! missing and the candidate is appended as the new live record.

use vstd::prelude::*;

use crate::model::{clone_opt_string, clone_pair_vec, clone_string_vec, BookEntry, BooksDb, EpubMeta, MetaV, RecV};
use crate::util::{file_uri, uri_of};

verus! {

/// Two stored hashes agree only when both are present and equal; an absent
/// hash never counts as equal to anything, itself included.
pub open spec fn hashes_match(a: Option<u128>, b: Option<u128>) -> bool {
    a is Some && b is Some && a->0 == b->0
}

/// The candidate as it is appended: the new live record for its path.
pub open spec fn as_live(c: RecV) -> RecV {
    RecV { stale: false, missing: false, ..c }
}

/// A superseded record: no longer the live truth for its path.
pub open spec fn superseded(e: RecV) -> RecV {
    RecV { stale: true, missing: true, ..e }
}

/// Record `i` is the live record for `path`.
pub open spec fn live_at(s: Seq<RecV>, i: int, path: Seq<char>) -> bool {
    0 <= i < s.len() && !s[i].stale && s[i].full_path == path
}

/// Some live record for `path` exists.
pub open spec fn has_live(s: Seq<RecV>, path: Seq<char>) -> bool {
    exists|i: int| live_at(s, i, path)
}

/// The index of the live record for `path` (meaningful only under [`wf`],
/// which makes it unique).
pub open spec fn live_index(s: Seq<RecV>, path: Seq<char>) -> int {
    choose|i: int| live_at(s, i, path)
}

/// Well-formedness of a record sequence: at most one live record per path.
pub open spec fn wf(s: Seq<RecV>) -> bool {
    forall|i: int, j: int|
        0 <= i < j < s.len() && !(#[trigger] s[i]).stale && !(#[trigger] s[j]).stale
            ==> s[i].full_path != s[j].full_path
}

/// The supersession rule applied to one candidate.
pub open spec fn spec_merge_entry(s: Seq<RecV>, c: RecV) -> Seq<RecV> {
    if has_live(s, c.full_path) {
        let i = live_index(s, c.full_path);
        if hashes_match(s[i].xxhash, c.xxhash) {
            s
        } else {
            s.update(i, superseded(s[i])).push(as_live(c))
        }
    } else {
        s.push(as_live(c))
    }
}

/// Under [`wf`] the live record for a path is unique.
pub proof fn lemma_live_index_unique(s: Seq<RecV>, path: Seq<char>, i: int)
    requires
        wf(s),
        live_at(s, i, path),
    ensures
        live_index(s, path) == i,
        has_live(s, path),
{
    let j = live_index(s, path);
    assert(live_at(s, j, path));
    if i < j {
        assert(s[i].full_path != s[j].full_path);
    } else if j < i {
        assert(s[j].full_path != s[i].full_path);
    }
}

/// The supersession rule preserves well-formedness.
pub proof fn lemma_merge_entry_wf(s: Seq<RecV>, c: RecV)
    requires
        wf(s),
    ensures
        wf(spec_merge_entry(s, c)),
{
    let r = spec_merge_entry(s, c);
    if has_live(s, c.full_path) {
        let i = live_index(s, c.full_path);
        assert(live_at(s, i, c.full_path));
        if hashes_match(s[i].xxhash, c.xxhash) {
        } else {
            assert forall|p: int, q: int|
                0 <= p < q < r.len() && !(#[trigger] r[p]).stale && !(#[trigger] r[q]).stale implies r[p].full_path
                != r[q].full_path by {
                if q == s.len() {
                    // r[q] is the appended candidate; any other live record
                    // kept its path and differs from the superseded one.
                    assert(r[p] == s[p]);
                    if r[p].full_path == c.full_path {
                        assert(live_at(s, p, c.full_path));
                        lemma_live_index_unique(s, c.full_path, p);
                    }
                } else {
                    assert(r[p] == s[p] && r[q] == s[q]);
                }
            }
        }
    } else {
        assert forall|p: int, q: int|
            0 <= p < q < r.len() && !(#[trigger] r[p]).stale && !(#[trigger] r[q]).stale implies r[p].full_path
            != r[q].full_path by {
            if q == s.len() {
                if r[p].full_path == c.full_path {
                    assert(live_at(s, p, c.full_path));
                }
            }
        }
    }
}

/// The number of records, live and stale, in the catalog.
pub fn cmd_count(db: &BooksDb) -> (n: usize)
    ensures
        n == db@.books.len(),
{
    db.books.len()
}


/// Decides well-formedness of a catalog: at most one live record per
/// path.  A front end validates a freshly loaded catalog with this before
/// handing it to an operation that requires well-formedness.
pub fn catalog_wf(db: &BooksDb) -> (r: bool)
    ensures
        r == wf(db@.books),
{
    let ghost s = db@.books;
    let n = db.books.len();
    let mut i: usize = 0;
    while i < n
        invariant
            n == db.books.len(),
            s == db@.books,
            s.len() == n,
            i <= n,
            forall|p: int, q: int|
                0 <= p < q < i && !(#[trigger] s[p]).stale && !(#[trigger] s[q]).stale
                    ==> s[p].full_path != s[q].full_path,
        decreases n - i,
    {
        if !db.books[i].stale {
            let mut j: usize = 0;
            while j < i
                invariant
                    n == db.books.len(),
                    s == db@.books,
                    s.len() == n,
                    i < n,
                    j <= i,
                    !s[i as int].stale,
                    forall|p: int|
                        0 <= p < j && !(#[trigger] s[p]).stale ==> s[p].full_path != s[
                            i as int
                        ].full_path,
                decreases i - j,
            {
                if !db.books[j].stale && db.books[j].full_path == db.books[i].full_path {
                    proof {
                        if wf(s) {
                            assert(s[j as int].full_path != s[i as int].full_path);
                        }
                    }
                    return false;
                }
                j += 1;
            }
        }
        i += 1;
    }
    true
}

/// Compares two stored hashes; true only when both are present and equal.
pub fn hash_eq(a: Option<u128>, b: Option<u128>) -> (r: bool)
    ensures
        r == hashes_match(a, b),
{
    match (a, b) {
        (Some(x), Some(y)) => x == y,
        _ => false,
    }
}

/// Applies the supersession rule for one candidate record.
///
/// If a live record with the candidate's path exists and both hashes are
/// present and equal, the candidate is discarded.  Otherwise the live
/// record (if any) is flagged stale and missing, and the candidate is
/// appended as the new live record with its flags cleared.
///
/// A discarded candidate refreshes nothing on the record it matched, its
/// size included: sizes are refreshed only by a check or rehash pass,
/// which read the size from disk rather than from a candidate.
pub fn merge_entry(db: &mut BooksDb, cand: BookEntry)
    requires
        wf(old(db)@.books),
    ensures
        final(db)@.books == spec_merge_entry(old(db)@.books, cand@),
        wf(final(db)@.books),
        final(db)@.last_updated == old(db)@.last_updated,
{
    proof {
        lemma_merge_entry_wf(old(db)@.books, cand@);
    }
    let ghost s = db@.books;
    let ghost c0 = cand@;
    let n = db.books.len();
    let mut i: usize = 0;
    let mut found = false;
    while !found && i < n
        invariant
            n == db.books.len(),
            s.len() == n,
            i <= n,
            !found ==> forall|k: int| 0 <= k < i ==> !live_at(s, k, c0.full_path),
            found ==> live_at(s, i as int, c0.full_path) && i < n,
            db@.books == s,
            *db == *old(db),
            cand@ == c0,
        decreases n - i, if found { 0int } else { 1int },
    {
        if !db.books[i].stale && db.books[i].full_path == cand.full_path {
            found = true;
        } else {
            i += 1;
        }
    }
    if found {
        proof {
            lemma_live_index_unique(s, c0.full_path, i as int);
        }
        if hash_eq(db.books[i].xxhash, cand.xxhash) {
            // Unchanged content: the candidate is discarded.
            proof {
                assert(hashes_match(s[i as int].xxhash, c0.xxhash));
            }
        } else {
            db.books[i].stale = true;
            db.books[i].missing = true;
            let mut cand = cand;
            cand.stale = false;
            cand.missing = false;
            db.books.push(cand);
            proof {
                assert(cand@ == as_live(c0));
                assert(db@.books =~= s.update(i as int, superseded(s[i as int])).push(as_live(
                    c0,
                )));
            }
        }
    } else {
        proof {
            if has_live(s, c0.full_path) {
                let k = live_index(s, c0.full_path);
                assert(live_at(s, k, c0.full_path));
            }
        }
        let mut cand = cand;
        cand.stale = false;
        cand.missing = false;
        db.books.push(cand);
        proof {
            assert(cand@ == as_live(c0));
            assert(db@.books =~= s.push(as_live(c0)));
        }
    }
}

/// The catalog after a prune: exactly the records that are not stale,
/// in order, unchanged.
pub open spec fn pruned(s: Seq<RecV>) -> Seq<RecV> {
    s.filter(|e: RecV| !e.stale)
}

/// Removes every stale record; live records, missing or not, are kept
/// byte for byte.  Returns how many records were removed.
pub fn cmd_prune(db: &mut BooksDb) -> (removed: usize)
    ensures
        final(db)@.books == pruned(old(db)@.books),
        final(db)@.last_updated == old(db)@.last_updated,
        removed == old(db)@.books.len() - final(db)@.books.len(),
        wf(final(db)@.books) <== wf(old(db)@.books),
{
    let ghost s = db@.books;
    let n = db.books.len();
    let mut kept: Vec<BookEntry> = Vec::new();
    for i in 0..n
        invariant
            s.len() == n,
            n - i == db.books.len(),
            db.books.deep_view() =~= s.skip(i as int),
            kept.deep_view() =~= pruned(s.take(i as int)),
            db.last_updated.deep_view() == old(db)@.last_updated,
    {
        let ghost pre = db.books@;
        let e = db.books.remove(0);
        proof {
            reveal(Seq::filter);
            assert(e == pre[0]);
            assert(e.deep_view() == s.skip(i as int)[0]);
            assert forall|k: int| 0 <= k < db.books@.len() implies db.books.deep_view()[k]
                == s.skip(i + 1)[k] by {
                assert(db.books@[k] == pre[k + 1]);
                assert(pre[k + 1].deep_view() == s.skip(i as int)[k + 1]);
            }
            assert(db.books.deep_view() =~= s.skip(i + 1));
            let t = s.take(i + 1);
            assert(t.drop_last() =~= s.take(i as int));
            assert(t.last() == s[i as int]);
            assert(t.last() == e.deep_view());
        }
        if !e.stale {
            kept.push(e);
        }
    }
    proof {
        assert(s.take(n as int) =~= s);
    }
    let removed = n - kept.len();
    db.books = kept;
    proof {
        if wf(s) {
            lemma_filter_preserves_wf(s);
        }
    }
    removed
}

/// No live record of `s` carries the path `p`, so none in the pruned
/// catalog does either.
proof fn lemma_filter_no_path(s: Seq<RecV>, p: Seq<char>)
    requires
        forall|k: int| 0 <= k < s.len() && !(#[trigger] s[k]).stale ==> s[k].full_path != p,
    ensures
        forall|q: int| 0 <= q < pruned(s).len() ==> (#[trigger] pruned(s)[q]).full_path != p,
    decreases s.len(),
{
    reveal(Seq::filter);
    if s.len() > 0 {
        assert(forall|k: int|
            0 <= k < s.drop_last().len() && !(#[trigger] s.drop_last()[k]).stale
                ==> s.drop_last()[k].full_path != p);
        lemma_filter_no_path(s.drop_last(), p);
    }
}

/// Pruning keeps only live records, so well-formedness is preserved.
proof fn lemma_filter_preserves_wf(s: Seq<RecV>)
    requires
        wf(s),
    ensures
        wf(pruned(s)),
    decreases s.len(),
{
    reveal(Seq::filter);
    if s.len() > 0 {
        let d = s.drop_last();
        assert(wf(d));
        lemma_filter_preserves_wf(d);
        if !s.last().stale {
            assert(forall|k: int|
                0 <= k < d.len() && !(#[trigger] d[k]).stale ==> d[k].full_path
                    != s.last().full_path);
            lemma_filter_no_path(d, s.last().full_path);
            assert(pruned(s) =~= pruned(d).push(s.last()));
        }
    }
}


/// The catalog after folding in a batch of freshly discovered candidates,
/// one [`spec_merge_entry`] application per candidate, in order.
pub open spec fn spec_load(s: Seq<RecV>, cs: Seq<RecV>) -> Seq<RecV>
    decreases cs.len(),
{
    if cs.len() == 0 {
        s
    } else {
        spec_load(spec_merge_entry(s, cs[0]), cs.drop_first())
    }
}

/// Folding one more candidate is one more supersession step.
pub proof fn lemma_spec_load_push(s: Seq<RecV>, cs: Seq<RecV>, c: RecV)
    ensures
        spec_load(s, cs.push(c)) == spec_merge_entry(spec_load(s, cs), c),
    decreases cs.len(),
{
    if cs.len() == 0 {
        assert(cs.push(c).drop_first() =~= cs);
        assert(cs.push(c)[0] == c);
        assert(spec_load(s, cs.push(c)) == spec_load(spec_merge_entry(s, c), cs));
        assert(spec_load(spec_merge_entry(s, c), cs) == spec_merge_entry(s, c));
        assert(spec_load(s, cs) == s);
    } else {
        let m = spec_merge_entry(s, cs[0]);
        assert(cs.push(c)[0] == cs[0]);
        assert(cs.push(c).drop_first() =~= cs.drop_first().push(c));
        assert(spec_load(s, cs.push(c)) == spec_load(m, cs.drop_first().push(c)));
        lemma_spec_load_push(m, cs.drop_first(), c);
        assert(spec_load(s, cs) == spec_load(m, cs.drop_first()));
    }
}

/// A load of any candidate batch preserves well-formedness.
pub proof fn lemma_spec_load_wf(s: Seq<RecV>, cs: Seq<RecV>)
    requires
        wf(s),
    ensures
        wf(spec_load(s, cs)),
    decreases cs.len(),
{
    if cs.len() > 0 {
        lemma_merge_entry_wf(s, cs[0]);
        lemma_spec_load_wf(spec_merge_entry(s, cs[0]), cs.drop_first());
    }
}

/// Ingests a batch of candidate records built from freshly discovered
/// files, applying the supersession rule once per candidate, in order.
pub fn cmd_load(db: &mut BooksDb, entries: Vec<BookEntry>)
    requires
        wf(old(db)@.books),
    ensures
        final(db)@.books == spec_load(old(db)@.books, entries.deep_view()),
        wf(final(db)@.books),
        final(db)@.last_updated == old(db)@.last_updated,
{
    let ghost s = db@.books;
    let ghost cs = entries.deep_view();
    let mut entries = entries;
    let n = entries.len();
    for k in 0..n
        invariant
            cs.len() == n,
            n - k == entries.len(),
            entries.deep_view() =~= cs.skip(k as int),
            db@.books == spec_load(s, cs.take(k as int)),
            wf(db@.books),
            db@.last_updated == old(db)@.last_updated,
    {
        let ghost pre = entries@;
        let e = entries.remove(0);
        proof {
            assert(e.deep_view() == cs.skip(k as int)[0]);
            assert forall|j: int| 0 <= j < entries@.len() implies entries.deep_view()[j] == cs.skip(
                k + 1,
            )[j] by {
                assert(entries@[j] == pre[j + 1]);
                assert(pre[j + 1].deep_view() == cs.skip(k as int)[j + 1]);
            }
            assert(entries.deep_view() =~= cs.skip(k + 1));
            assert(cs.take(k + 1).drop_last() =~= cs.take(k as int));
            assert(cs.take(k as int).push(cs[k as int]) =~= cs.take(k + 1));
            lemma_spec_load_push(s, cs.take(k as int), cs[k as int]);
        }
        merge_entry(db, e);
    }
    proof {
        assert(cs.take(n as int) =~= cs);
    }
}

/// A foreign record as it enters the merge: its discovery date backfilled
/// with `now` where it was empty.
pub open spec fn backfilled(c: RecV, now: Seq<char>) -> RecV {
    if c.date_found.len() == 0 {
        RecV { date_found: now, ..c }
    } else {
        c
    }
}

/// The catalog after absorbing every record of a foreign catalog, live or
/// stale, in stored order, as a backfilled candidate.
pub open spec fn spec_merge_all(s: Seq<RecV>, cs: Seq<RecV>, now: Seq<char>) -> Seq<RecV>
    decreases cs.len(),
{
    if cs.len() == 0 {
        s
    } else {
        spec_merge_all(spec_merge_entry(s, backfilled(cs[0], now)), cs.drop_first(), now)
    }
}

/// Absorbing one more foreign record is one more supersession step.
pub proof fn lemma_spec_merge_all_push(s: Seq<RecV>, cs: Seq<RecV>, c: RecV, now: Seq<char>)
    ensures
        spec_merge_all(s, cs.push(c), now) == spec_merge_entry(
            spec_merge_all(s, cs, now),
            backfilled(c, now),
        ),
    decreases cs.len(),
{
    if cs.len() == 0 {
        assert(cs.push(c).drop_first() =~= cs);
        assert(cs.push(c)[0] == c);
        let m = spec_merge_entry(s, backfilled(c, now));
        assert(spec_merge_all(s, cs.push(c), now) == spec_merge_all(m, cs, now));
        assert(spec_merge_all(m, cs, now) == m);
        assert(spec_merge_all(s, cs, now) == s);
    } else {
        let m = spec_merge_entry(s, backfilled(cs[0], now));
        assert(cs.push(c)[0] == cs[0]);
        assert(cs.push(c).drop_first() =~= cs.drop_first().push(c));
        assert(spec_merge_all(s, cs.push(c), now) == spec_merge_all(
            m,
            cs.drop_first().push(c),
            now,
        ));
        lemma_spec_merge_all_push(m, cs.drop_first(), c, now);
        assert(spec_merge_all(s, cs, now) == spec_merge_all(m, cs.drop_first(), now));
    }
}

/// A merge of any foreign catalog preserves well-formedness.
pub proof fn lemma_spec_merge_all_wf(s: Seq<RecV>, cs: Seq<RecV>, now: Seq<char>)
    requires
        wf(s),
    ensures
        wf(spec_merge_all(s, cs, now)),
    decreases cs.len(),
{
    if cs.len() > 0 {
        lemma_merge_entry_wf(s, backfilled(cs[0], now));
        lemma_spec_merge_all_wf(spec_merge_entry(s, backfilled(cs[0], now)), cs.drop_first(), now);
    }
}

/// Absorbs a foreign catalog: every one of its records, live or stale, in
/// stored order, is fed through the supersession rule as a candidate, with
/// an empty discovery date backfilled to `now`.  The foreign catalog's own
/// staleness does not filter a record out; only the interaction with this
/// catalog's live record for the same path decides its fate.
pub fn cmd_merge(db: &mut BooksDb, other: BooksDb, now: &String)
    requires
        wf(old(db)@.books),
    ensures
        final(db)@.books == spec_merge_all(old(db)@.books, other@.books, now@),
        wf(final(db)@.books),
        final(db)@.last_updated == old(db)@.last_updated,
{
    let ghost s = db@.books;
    let ghost cs = other@.books;
    let mut other = other;
    let n = other.books.len();
    for k in 0..n
        invariant
            cs.len() == n,
            n - k == other.books.len(),
            other.books.deep_view() =~= cs.skip(k as int),
            db@.books == spec_merge_all(s, cs.take(k as int), now@),
            wf(db@.books),
            db@.last_updated == old(db)@.last_updated,
    {
        let ghost pre = other.books@;
        let mut e = other.books.remove(0);
        proof {
            assert(e.deep_view() == cs.skip(k as int)[0]);
            assert forall|j: int| 0 <= j < other.books@.len() implies other.books.deep_view()[j]
                == cs.skip(k + 1)[j] by {
                assert(other.books@[j] == pre[j + 1]);
                assert(pre[j + 1].deep_view() == cs.skip(k as int)[j + 1]);
            }
            assert(other.books.deep_view() =~= cs.skip(k + 1));
            assert(cs.take(k as int).push(cs[k as int]) =~= cs.take(k + 1));
            lemma_spec_merge_all_push(s, cs.take(k as int), cs[k as int], now@);
        }
        if e.date_found.as_str().is_empty() {
            e.date_found = now.clone();
        }
        proof {
            assert(e.deep_view() == backfilled(cs[k as int], now@));
        }
        merge_entry(db, e);
    }
    proof {
        assert(cs.take(n as int) =~= cs);
    }
}


/// One re-probe of a path on disk, as the filesystem collaborators report
/// it: whether the path still exists, its current size, the freshly
/// computed hash (`None` where hashing failed), and freshly extracted
/// metadata.  A rehash pass ignores the metadata.
pub struct Probe {
    pub path: String,
    pub found: bool,
    pub size_bytes: u64,
    pub hash: Option<u128>,
    pub meta: EpubMeta,
}

/// Spec-level value of a [`Probe`].
#[verifier::ext_equal]
pub ghost struct ProbeV {
    pub path: Seq<char>,
    pub found: bool,
    pub size_bytes: u64,
    pub hash: Option<u128>,
    pub meta: MetaV,
}

impl View for Probe {
    type V = ProbeV;

    open spec fn view(&self) -> ProbeV {
        ProbeV {
            path: self.path@,
            found: self.found,
            size_bytes: self.size_bytes,
            hash: self.hash,
            meta: self.meta@,
        }
    }
}

impl DeepView for Probe {
    type V = ProbeV;

    open spec fn deep_view(&self) -> ProbeV {
        self.view()
    }
}

/// Some probe in the list reports on `path`.
pub open spec fn has_probe(ps: Seq<ProbeV>, path: Seq<char>) -> bool
    decreases ps.len(),
{
    ps.len() > 0 && (ps[0].path == path || has_probe(ps.drop_first(), path))
}

/// The first probe in the list that reports on `path` (meaningful only
/// under [`has_probe`]).
pub open spec fn the_probe(ps: Seq<ProbeV>, path: Seq<char>) -> ProbeV
    decreases ps.len(),
{
    if ps.len() == 0 {
        arbitrary()
    } else if ps[0].path == path {
        ps[0]
    } else {
        the_probe(ps.drop_first(), path)
    }
}

/// A list in which no probe reports on `path` has no probe for it.
pub proof fn lemma_no_probe(ps: Seq<ProbeV>, path: Seq<char>)
    requires
        forall|k: int| 0 <= k < ps.len() ==> (#[trigger] ps[k]).path != path,
    ensures
        !has_probe(ps, path),
    decreases ps.len(),
{
    if ps.len() > 0 {
        assert(forall|k: int|
            0 <= k < ps.drop_first().len() ==> (#[trigger] ps.drop_first()[k]).path != path);
        lemma_no_probe(ps.drop_first(), path);
    }
}

/// The first matching position in the list carries [`the_probe`].
pub proof fn lemma_the_probe_at(ps: Seq<ProbeV>, path: Seq<char>, j: int)
    requires
        0 <= j < ps.len(),
        ps[j].path == path,
        forall|k: int| 0 <= k < j ==> (#[trigger] ps[k]).path != path,
    ensures
        has_probe(ps, path),
        the_probe(ps, path) == ps[j],
    decreases j,
{
    if j == 0 {
    } else {
        assert(ps[0].path != path);
        assert(ps.drop_first()[j - 1] == ps[j]);
        assert(forall|k: int|
            0 <= k < j - 1 ==> (#[trigger] ps.drop_first()[k]).path != path);
        lemma_the_probe_at(ps.drop_first(), path, j - 1);
    }
}

/// Finds the first probe that reports on `path`.
fn find_probe(probes: &Vec<Probe>, path: &String) -> (r: Option<usize>)
    ensures
        match r {
            Some(j) => j < probes.len() && has_probe(probes.deep_view(), path@) && the_probe(
                probes.deep_view(),
                path@,
            ) == probes.deep_view()[j as int],
            None => !has_probe(probes.deep_view(), path@),
        },
{
    let ghost ps = probes.deep_view();
    let n = probes.len();
    let mut j: usize = 0;
    while j < n
        invariant
            n == probes.len(),
            ps == probes.deep_view(),
            ps.len() == n,
            j <= n,
            forall|k: int| 0 <= k < j ==> (#[trigger] ps[k]).path != path@,
        decreases n - j,
    {
        if probes[j].path == *path {
            proof {
                lemma_the_probe_at(ps, path@, j as int);
            }
            return Some(j);
        }
        j += 1;
    }
    proof {
        lemma_no_probe(ps, path@);
    }
    None
}

/// Every live record has a probe reporting on its path.
pub open spec fn probes_cover(s: Seq<RecV>, ps: Seq<ProbeV>) -> bool {
    forall|i: int|
        0 <= i < s.len() && !(#[trigger] s[i]).stale ==> has_probe(ps, s[i].full_path)
}

/// The probe shows changed content, so the record must be superseded by a
/// fresh one: the path was found, its hash was computed, and it does not
/// match the stored one.
pub open spec fn needs_fresh(e: RecV, p: ProbeV) -> bool {
    p.found && p.hash is Some && !hashes_match(e.xxhash, p.hash)
}

/// A live record after its re-probe: flagged missing where the path is
/// gone or its content could not be hashed, refreshed in size where the
/// content is unchanged, superseded where it changed.
pub open spec fn checked_rec(e: RecV, p: ProbeV) -> RecV {
    if !p.found {
        RecV { missing: true, ..e }
    } else if p.hash is None {
        // A hashing failure against an existing file is the missing
        // outcome, in place; it never supersedes.
        RecV { missing: true, ..e }
    } else if hashes_match(e.xxhash, p.hash) {
        RecV { size_bytes: p.size_bytes, ..e }
    } else {
        superseded(e)
    }
}

/// The new live record appended when a re-probe supersedes `e`: same path
/// and format, fresh hash, size, metadata and timestamp.
pub open spec fn fresh_rec(e: RecV, p: ProbeV, now: Seq<char>) -> RecV {
    RecV {
        full_path: e.full_path,
        uri_path: uri_of(e.full_path),
        protocol: e.protocol,
        filename: e.filename,
        xxhash: p.hash,
        date_found: now,
        missing: false,
        stale: false,
        size_bytes: p.size_bytes,
        format: e.format,
        title: p.meta.title,
        author: p.meta.author,
        description: p.meta.description,
        chapters: p.meta.chapters,
        publish_date: p.meta.publish_date,
        publisher: p.meta.publisher,
        other_metadata: p.meta.other_metadata,
    }
}

/// The records of `s` with the first `k` live ones re-checked in place.
pub open spec fn checked_upto(s: Seq<RecV>, ps: Seq<ProbeV>, k: int) -> Seq<RecV> {
    Seq::new(
        s.len(),
        |i: int|
            if i < k && !s[i].stale {
                checked_rec(s[i], the_probe(ps, s[i].full_path))
            } else {
                s[i]
            },
    )
}

/// The fresh records a check appends, in record order.
pub open spec fn fresh_of(e: RecV, ps: Seq<ProbeV>, now: Seq<char>) -> Seq<RecV> {
    if !e.stale && needs_fresh(e, the_probe(ps, e.full_path)) {
        seq![fresh_rec(e, the_probe(ps, e.full_path), now)]
    } else {
        Seq::empty()
    }
}

/// All fresh records a check of `s` appends, in record order.
pub open spec fn fresh_list(s: Seq<RecV>, ps: Seq<ProbeV>, now: Seq<char>) -> Seq<RecV>
    decreases s.len(),
{
    if s.len() == 0 {
        Seq::empty()
    } else {
        fresh_list(s.drop_last(), ps, now) + fresh_of(s.last(), ps, now)
    }
}

/// The catalog after a check: every live record re-checked in place, and
/// one fresh live record appended per superseded one.
pub open spec fn spec_check(s: Seq<RecV>, ps: Seq<ProbeV>, now: Seq<char>) -> Seq<RecV> {
    checked_upto(s, ps, s.len() as int) + fresh_list(s, ps, now)
}

/// Every fresh record originates from a live record that needed
/// superseding, whose path and format it carries.
pub proof fn lemma_fresh_origin(s: Seq<RecV>, ps: Seq<ProbeV>, now: Seq<char>)
    ensures
        forall|m: int|
            0 <= m < fresh_list(s, ps, now).len() ==> exists|i: int|
                0 <= i < s.len() && !(#[trigger] s[i]).stale && needs_fresh(
                    s[i],
                    the_probe(ps, s[i].full_path),
                ) && #[trigger] fresh_list(s, ps, now)[m] == fresh_rec(
                    s[i],
                    the_probe(ps, s[i].full_path),
                    now,
                ),
    decreases s.len(),
{
    if s.len() > 0 {
        lemma_fresh_origin(s.drop_last(), ps, now);
        let fl = fresh_list(s, ps, now);
        let fd = fresh_list(s.drop_last(), ps, now);
        assert forall|m: int| 0 <= m < fl.len() implies exists|i: int|
            0 <= i < s.len() && !(#[trigger] s[i]).stale && needs_fresh(
                s[i],
                the_probe(ps, s[i].full_path),
            ) && #[trigger] fl[m] == fresh_rec(s[i], the_probe(ps, s[i].full_path), now) by {
            if m < fd.len() {
                let i = choose|i: int|
                    0 <= i < s.drop_last().len() && !(#[trigger] s.drop_last()[i]).stale
                        && needs_fresh(
                        s.drop_last()[i],
                        the_probe(ps, s.drop_last()[i].full_path),
                    ) && fd[m] == fresh_rec(
                        s.drop_last()[i],
                        the_probe(ps, s.drop_last()[i].full_path),
                        now,
                    );
                assert(s.drop_last()[i] == s[i]);
                assert(fl[m] == fd[m]);
            } else {
                let i = s.len() - 1;
                assert(fl[m] == fresh_of(s.last(), ps, now)[m - fd.len()]);
                assert(s.last() == s[i]);
            }
        }
    }
}

/// The fresh records of one check carry pairwise distinct paths: each
/// originates from a distinct live record.
pub proof fn lemma_fresh_distinct(s: Seq<RecV>, ps: Seq<ProbeV>, now: Seq<char>)
    requires
        wf(s),
    ensures
        forall|m1: int, m2: int|
            0 <= m1 < m2 < fresh_list(s, ps, now).len()
                ==> (#[trigger] fresh_list(s, ps, now)[m1]).full_path != (#[trigger] fresh_list(
                s,
                ps,
                now,
            )[m2]).full_path,
    decreases s.len(),
{
    if s.len() > 0 {
        let fl = fresh_list(s, ps, now);
        let fd = fresh_list(s.drop_last(), ps, now);
        let last = s.len() - 1;
        assert(wf(s.drop_last()));
        lemma_fresh_distinct(s.drop_last(), ps, now);
        lemma_fresh_origin(s.drop_last(), ps, now);
        assert forall|m1: int, m2: int|
            0 <= m1 < m2 < fl.len() implies (#[trigger] fl[m1]).full_path
            != (#[trigger] fl[m2]).full_path by {
            if m2 < fd.len() {
                assert(fl[m1] == fd[m1] && fl[m2] == fd[m2]);
            } else {
                // fl[m2] comes from the last record; fl[m1] from a live
                // record earlier in the sequence, whose path differs.
                assert(fl[m2] == fresh_of(s.last(), ps, now)[m2 - fd.len()]);
                assert(fresh_of(s.last(), ps, now).len() > 0);
                assert(fl[m2].full_path == s[last].full_path);
                assert(!s[last].stale);
                assert(m1 < fd.len());
                assert(fl[m1] == fd[m1]);
                let i1 = choose|k: int|
                    0 <= k < s.drop_last().len() && !(#[trigger] s.drop_last()[k]).stale
                        && needs_fresh(
                        s.drop_last()[k],
                        the_probe(ps, s.drop_last()[k].full_path),
                    ) && fd[m1] == fresh_rec(
                        s.drop_last()[k],
                        the_probe(ps, s.drop_last()[k].full_path),
                        now,
                    );
                assert(s.drop_last()[i1] == s[i1]);
                assert(fl[m1].full_path == s[i1].full_path);
                assert(i1 < last && !s[i1].stale);
                assert(s[i1].full_path != s[last].full_path);
            }
        }
    }
}

/// A check preserves well-formedness: in-place outcomes keep paths and
/// never revive a stale record, and each fresh record's path had its only
/// live record superseded.
pub proof fn lemma_spec_check_wf(s: Seq<RecV>, ps: Seq<ProbeV>, now: Seq<char>)
    requires
        wf(s),
    ensures
        wf(spec_check(s, ps, now)),
{
    let r = spec_check(s, ps, now);
    let main = checked_upto(s, ps, s.len() as int);
    let fl = fresh_list(s, ps, now);
    lemma_fresh_origin(s, ps, now);
    assert forall|p: int, q: int|
        0 <= p < q < r.len() && !(#[trigger] r[p]).stale && !(#[trigger] r[q]).stale implies r[p].full_path
        != r[q].full_path by {
        if p < main.len() && q < main.len() {
            assert(!s[p].stale && !s[q].stale);
        } else if p < main.len() && q >= main.len() {
            // r[q] is fresh: its origin's live record was superseded.
            let m = q - main.len();
            let i = choose|i: int|
                0 <= i < s.len() && !(#[trigger] s[i]).stale && needs_fresh(
                    s[i],
                    the_probe(ps, s[i].full_path),
                ) && fl[m] == fresh_rec(s[i], the_probe(ps, s[i].full_path), now);
            if r[p].full_path == r[q].full_path {
                assert(!s[p].stale && s[p].full_path == s[i].full_path);
                if p != i {
                    assert(s[p].full_path != s[i].full_path);
                }
                assert(p == i);
                assert(r[p] == checked_rec(s[i], the_probe(ps, s[i].full_path)));
                assert(r[p].stale);
            }
        } else {
            // Both fresh: their paths are pairwise distinct.
            lemma_fresh_distinct(s, ps, now);
            assert(fl[p - main.len()].full_path != fl[q - main.len()].full_path);
        }
    }
}


/// Builds the fresh live record that supersedes `e` after a re-probe.
fn fresh_entry(e: &BookEntry, p: &Probe, now: &String) -> (r: BookEntry)
    ensures
        r@ == fresh_rec(e@, p@, now@),
{
    let r = BookEntry {
        full_path: e.full_path.clone(),
        uri_path: file_uri(&e.full_path),
        protocol: e.protocol.clone(),
        filename: e.filename.clone(),
        xxhash: p.hash,
        date_found: now.clone(),
        missing: false,
        stale: false,
        size_bytes: p.size_bytes,
        format: e.format,
        title: clone_opt_string(&p.meta.title),
        author: clone_opt_string(&p.meta.author),
        description: clone_opt_string(&p.meta.description),
        chapters: clone_string_vec(&p.meta.chapters),
        publish_date: clone_opt_string(&p.meta.publish_date),
        publisher: clone_opt_string(&p.meta.publisher),
        other_metadata: clone_pair_vec(&p.meta.other_metadata),
    };
    proof {
        assert(r@ =~= fresh_rec(e@, p@, now@));
    }
    r
}

/// Re-validates every live record against its probe.  A vanished path, or
/// one whose content could not be hashed, is flagged missing in place;
/// unchanged content only refreshes the size; changed content supersedes
/// the record, appending a fresh live record built from the probe and
/// stamped `now`.
pub fn cmd_check(db: &mut BooksDb, probes: &Vec<Probe>, now: &String)
    requires
        wf(old(db)@.books),
        probes_cover(old(db)@.books, probes.deep_view()),
    ensures
        final(db)@.books == spec_check(old(db)@.books, probes.deep_view(), now@),
        wf(final(db)@.books),
        final(db)@.last_updated == old(db)@.last_updated,
{
    let ghost s = db@.books;
    let ghost ps = probes.deep_view();
    let n = db.books.len();
    let mut fresh: Vec<BookEntry> = Vec::new();
    for i in 0..n
        invariant
            s.len() == n,
            n == db.books.len(),
            wf(s),
            probes_cover(s, ps),
            ps == probes.deep_view(),
            db.books.deep_view() =~= checked_upto(s, ps, i as int),
            fresh.deep_view() =~= fresh_list(s.take(i as int), ps, now@),
            db.last_updated.deep_view() == old(db)@.last_updated,
    {
        proof {
            assert(db.books.deep_view()[i as int] == s[i as int]);
            assert(s.take(i + 1).drop_last() =~= s.take(i as int));
            assert(s.take(i + 1).last() == s[i as int]);
        }
        if !db.books[i].stale {
            let j = match find_probe(probes, &db.books[i].full_path) {
                Some(j) => j,
                None => {
                    proof {
                        assert(has_probe(ps, s[i as int].full_path));
                    }
                    0
                },
            };
            let ghost pv = the_probe(ps, s[i as int].full_path);
            let p = &probes[j];
            proof {
                assert(p@ == ps[j as int]);
                assert(p@ == pv);
            }
            if !p.found {
                db.books[i].missing = true;
            } else if p.hash.is_none() {
                db.books[i].missing = true;
            } else if hash_eq(db.books[i].xxhash, p.hash) {
                db.books[i].size_bytes = p.size_bytes;
            } else {
                let f = fresh_entry(&db.books[i], p, now);
                db.books[i].stale = true;
                db.books[i].missing = true;
                fresh.push(f);
                proof {
                    assert(fresh.deep_view() =~= fresh_list(s.take(i as int), ps, now@).push(
                        fresh_rec(s[i as int], pv, now@),
                    ));
                }
            }
            proof {
                assert(db.books.deep_view()[i as int] == checked_rec(s[i as int], pv));
            }
        } else {
            proof {
                assert(fresh_of(s[i as int], ps, now@) =~= Seq::empty());
            }
        }
        proof {
            assert(db.books.deep_view().len() == checked_upto(s, ps, i + 1).len());
            assert forall|k: int| 0 <= k < s.len() implies db.books.deep_view()[k] == checked_upto(
                s,
                ps,
                i + 1,
            )[k] by {
                if k < i {
                    assert(db.books.deep_view()[k] == checked_upto(s, ps, i as int)[k]);
                } else if k == i {
                } else {
                    assert(db.books.deep_view()[k] == checked_upto(s, ps, i as int)[k]);
                }
            }
            assert(db.books.deep_view() =~= checked_upto(s, ps, i + 1));
            assert(fresh_list(s.take(i + 1), ps, now@) =~= fresh_list(s.take(i as int), ps, now@)
                + fresh_of(s[i as int], ps, now@));
            assert(fresh.deep_view() =~= fresh_list(s.take(i + 1), ps, now@));
        }
    }
    let mut fresh = fresh;
    db.books.append(&mut fresh);
    proof {
        assert(s.take(n as int) =~= s);
        assert(db.books.deep_view() =~= spec_check(s, ps, now@));
        lemma_spec_check_wf(s, ps, now@);
    }
}

/// A live, non-missing record after a rehash pass: where its probe found
/// the path and the pass applies (forced, or the hash was absent), the
/// size is refreshed and a successfully computed hash is written; a
/// failed hash leaves the stored one untouched.  No record is ever
/// superseded.
pub open spec fn rehashed_rec(e: RecV, ps: Seq<ProbeV>, force: bool) -> RecV {
    if !e.stale && !e.missing && has_probe(ps, e.full_path) {
        let p = the_probe(ps, e.full_path);
        if p.found && (force || e.xxhash is None) {
            RecV {
                size_bytes: p.size_bytes,
                xxhash: if p.hash is Some {
                    p.hash
                } else {
                    e.xxhash
                },
                ..e
            }
        } else {
            e
        }
    } else {
        e
    }
}

/// The records of `s` with the first `k` rehashed in place.
pub open spec fn rehash_upto(s: Seq<RecV>, ps: Seq<ProbeV>, force: bool, k: int) -> Seq<RecV> {
    Seq::new(
        s.len(),
        |i: int|
            if i < k {
                rehashed_rec(s[i], ps, force)
            } else {
                s[i]
            },
    )
}

/// The catalog after a rehash pass over every record.
pub open spec fn spec_rehash(s: Seq<RecV>, ps: Seq<ProbeV>, force: bool) -> Seq<RecV> {
    Seq::new(s.len(), |i: int| rehashed_rec(s[i], ps, force))
}

/// A rehash pass touches neither staleness nor paths, so well-formedness
/// is preserved.
pub proof fn lemma_spec_rehash_wf(s: Seq<RecV>, ps: Seq<ProbeV>, force: bool)
    requires
        wf(s),
    ensures
        wf(spec_rehash(s, ps, force)),
{
    let r = spec_rehash(s, ps, force);
    assert forall|i: int, j: int|
        0 <= i < j < r.len() && !(#[trigger] r[i]).stale && !(#[trigger] r[j]).stale implies r[i].full_path
        != r[j].full_path by {
        assert(r[i].full_path == s[i].full_path && r[i].stale == s[i].stale);
        assert(r[j].full_path == s[j].full_path && r[j].stale == s[j].stale);
    }
}

/// Fills in or recomputes hashes on live, non-missing records in place,
/// refreshing sizes as it goes.  With `force` every such probed record
/// whose path was found is rehashed; without it only those whose stored
/// hash is absent.  Records without a probe, stale or missing records,
/// and vanished paths are left untouched, and a failed hash never erases
/// a stored one.
pub fn cmd_rehash(db: &mut BooksDb, probes: &Vec<Probe>, force: bool)
    requires
        wf(old(db)@.books),
    ensures
        final(db)@.books == spec_rehash(old(db)@.books, probes.deep_view(), force),
        wf(final(db)@.books),
        final(db)@.last_updated == old(db)@.last_updated,
{
    let ghost s = db@.books;
    let ghost ps = probes.deep_view();
    let n = db.books.len();
    for i in 0..n
        invariant
            s.len() == n,
            n == db.books.len(),
            ps == probes.deep_view(),
            db.books.deep_view() =~= rehash_upto(s, ps, force, i as int),
            db.last_updated.deep_view() == old(db)@.last_updated,
    {
        proof {
            assert(db.books.deep_view()[i as int] == s[i as int]);
        }
        if !db.books[i].stale && !db.books[i].missing {
            match find_probe(probes, &db.books[i].full_path) {
                Some(j) => {
                    let p = &probes[j];
                    proof {
                        assert(p@ == ps[j as int]);
                        assert(p@ == the_probe(ps, s[i as int].full_path));
                    }
                    if p.found && (force || db.books[i].xxhash.is_none()) {
                        db.books[i].size_bytes = p.size_bytes;
                        if p.hash.is_some() {
                            db.books[i].xxhash = p.hash;
                        }
                    }
                },
                None => {},
            }
        }
        proof {
            assert forall|k: int| 0 <= k < s.len() implies db.books.deep_view()[k] == rehash_upto(
                s,
                ps,
                force,
                i + 1,
            )[k] by {
                if k != i {
                    assert(db.books.deep_view()[k] == rehash_upto(s, ps, force, i as int)[k]);
                }
            }
            assert(db.books.deep_view() =~= rehash_upto(s, ps, force, i + 1));
        }
    }
    proof {
        assert(db.books.deep_view() =~= spec_rehash(s, ps, force));
        lemma_spec_rehash_wf(s, ps, force);
    }
}

} // verus!
