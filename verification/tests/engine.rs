//! Unit tests of the supersession rule and the per-record operations.

use bookdb::model::{BookEntry, BooksDb, EpubMeta};
use bookdb::reconcile::{
    catalog_wf, cmd_count, cmd_merge, cmd_prune, cmd_rehash, hash_eq, merge_entry, Probe,
};

fn meta_empty() -> EpubMeta {
    EpubMeta {
        title: None,
        author: None,
        description: None,
        chapters: Vec::new(),
        publish_date: None,
        publisher: None,
        other_metadata: Vec::new(),
    }
}

fn entry(path: &str, hash: Option<u128>, stale: bool, date: &str) -> BookEntry {
    BookEntry {
        full_path: String::from(path),
        uri_path: String::new(),
        protocol: String::from("file"),
        filename: String::new(),
        xxhash: hash,
        date_found: String::from(date),
        missing: false,
        stale,
        size_bytes: 0,
        format: Default::default(),
        title: None,
        author: None,
        description: None,
        chapters: Vec::new(),
        publish_date: None,
        publisher: None,
        other_metadata: Vec::new(),
    }
}

#[test]
fn hash_eq_requires_both_present() {
    assert!(hash_eq(Some(7), Some(7)));
    assert!(!hash_eq(Some(7), Some(8)));
    assert!(!hash_eq(None, Some(7)));
    assert!(!hash_eq(Some(7), None));
    // An absent hash is never equal to anything, itself included.
    assert!(!hash_eq(None, None));
}

#[test]
fn merge_entry_inserts_new_path() {
    let mut db = BooksDb::new();
    merge_entry(&mut db, entry("/a", Some(1), false, "d1"));
    assert_eq!(db.books.len(), 1);
    assert!(!db.books[0].stale);
    assert!(!db.books[0].missing);
}

#[test]
fn merge_entry_discards_matching_candidate() {
    let mut db = BooksDb::new();
    merge_entry(&mut db, entry("/a", Some(1), false, "d1"));
    merge_entry(&mut db, entry("/a", Some(1), false, "d2"));
    assert_eq!(db.books.len(), 1);
    assert_eq!(db.books[0].date_found, "d1");
}

#[test]
fn merge_entry_supersedes_on_hash_change() {
    let mut db = BooksDb::new();
    merge_entry(&mut db, entry("/a", Some(1), false, "d1"));
    merge_entry(&mut db, entry("/a", Some(2), false, "d2"));
    assert_eq!(db.books.len(), 2);
    assert!(db.books[0].stale);
    assert!(db.books[0].missing);
    assert_eq!(db.books[0].xxhash, Some(1));
    assert!(!db.books[1].stale);
    assert_eq!(db.books[1].xxhash, Some(2));
}

#[test]
fn merge_entry_supersedes_on_absent_hash() {
    // An absent hash on either side is never treated as a match.
    let mut db = BooksDb::new();
    merge_entry(&mut db, entry("/a", None, false, "d1"));
    merge_entry(&mut db, entry("/a", None, false, "d2"));
    assert_eq!(db.books.len(), 2);
    assert!(db.books[0].stale);
    assert!(!db.books[1].stale);
}

#[test]
fn merge_entry_forces_candidate_live() {
    // A stale, missing candidate from a foreign catalog is absorbed as a
    // live record.
    let mut db = BooksDb::new();
    let mut cand = entry("/a", Some(1), true, "d1");
    cand.missing = true;
    merge_entry(&mut db, cand);
    assert_eq!(db.books.len(), 1);
    assert!(!db.books[0].stale);
    assert!(!db.books[0].missing);
}

#[test]
fn merge_backfills_empty_dates() {
    let mut db = BooksDb::new();
    let other = BooksDb {
        books: vec![entry("/a", Some(1), false, "")],
        last_updated: None,
    };
    let now = String::from("2024-03-01T00:00:00+00:00");
    cmd_merge(&mut db, other, &now);
    assert_eq!(db.books.len(), 1);
    assert_eq!(db.books[0].date_found, "2024-03-01T00:00:00+00:00");
}

#[test]
fn merge_keeps_nonempty_dates() {
    let mut db = BooksDb::new();
    let other = BooksDb {
        books: vec![entry("/a", Some(1), false, "kept")],
        last_updated: None,
    };
    let now = String::from("2024-03-01T00:00:00+00:00");
    cmd_merge(&mut db, other, &now);
    assert_eq!(db.books[0].date_found, "kept");
}

#[test]
fn foreign_stale_record_can_supersede_local_live() {
    // A stale record of the other catalog is evaluated as a normal
    // candidate: with a differing hash it supersedes the local live record.
    let mut db = BooksDb::new();
    merge_entry(&mut db, entry("/a", Some(1), false, "d1"));
    let other = BooksDb {
        books: vec![entry("/a", Some(9), true, "d0")],
        last_updated: None,
    };
    let now = String::from("now");
    cmd_merge(&mut db, other, &now);
    assert_eq!(db.books.len(), 2);
    assert!(db.books[0].stale);
    assert_eq!(db.books[1].xxhash, Some(9));
    assert!(!db.books[1].stale);
}

#[test]
fn prune_removes_exactly_the_stale() {
    let mut db = BooksDb::new();
    db.books.push(entry("/a", Some(1), true, "d"));
    db.books.push(entry("/b", Some(2), false, "d"));
    let mut missing_live = entry("/c", Some(3), false, "d");
    missing_live.missing = true;
    db.books.push(missing_live);
    db.books.push(entry("/d", Some(4), true, "d"));
    let removed = cmd_prune(&mut db);
    assert_eq!(removed, 2);
    assert_eq!(db.books.len(), 2);
    assert_eq!(db.books[0].full_path, "/b");
    // A live record flagged missing is kept.
    assert_eq!(db.books[1].full_path, "/c");
    assert!(db.books[1].missing);

    // Pruning again removes nothing.
    let removed_again = cmd_prune(&mut db);
    assert_eq!(removed_again, 0);
    assert_eq!(db.books.len(), 2);
}

#[test]
fn count_reports_all_records() {
    let mut db = BooksDb::new();
    db.books.push(entry("/a", Some(1), true, "d"));
    db.books.push(entry("/b", Some(2), false, "d"));
    assert_eq!(cmd_count(&db), 2);
}

fn probe(path: &str, found: bool, size: u64, hash: Option<u128>) -> Probe {
    Probe {
        path: String::from(path),
        found,
        size_bytes: size,
        hash,
        meta: meta_empty(),
    }
}

#[test]
fn rehash_fills_absent_hashes_only() {
    let mut db = BooksDb::new();
    db.books.push(entry("/a", None, false, "d"));
    db.books.push(entry("/b", Some(5), false, "d"));
    let probes = vec![probe("/a", true, 11, Some(0xA)), probe("/b", true, 22, Some(0xF))];
    cmd_rehash(&mut db, &probes, false);
    assert_eq!(db.books[0].xxhash, Some(0xA));
    assert_eq!(db.books[0].size_bytes, 11);
    // /b already had a hash and force is off: untouched.
    assert_eq!(db.books[1].xxhash, Some(5));
    assert_eq!(db.books[1].size_bytes, 0);
}

#[test]
fn rehash_force_recomputes_all() {
    let mut db = BooksDb::new();
    db.books.push(entry("/b", Some(5), false, "d"));
    let probes = vec![probe("/b", true, 22, Some(0xF))];
    cmd_rehash(&mut db, &probes, true);
    assert_eq!(db.books[0].xxhash, Some(0xF));
    assert_eq!(db.books[0].size_bytes, 22);
}

#[test]
fn rehash_failure_keeps_stored_hash() {
    let mut db = BooksDb::new();
    db.books.push(entry("/b", Some(5), false, "d"));
    let probes = vec![probe("/b", true, 22, None)];
    cmd_rehash(&mut db, &probes, true);
    // The hash could not be computed: size refreshed, hash untouched.
    assert_eq!(db.books[0].xxhash, Some(5));
    assert_eq!(db.books[0].size_bytes, 22);
}

#[test]
fn rehash_skips_stale_vanished_and_unprobed() {
    let mut db = BooksDb::new();
    db.books.push(entry("/stale", None, true, "d"));
    db.books.push(entry("/gone", None, false, "d"));
    db.books.push(entry("/unprobed", None, false, "d"));
    let probes = vec![
        probe("/stale", true, 1, Some(0x1)),
        probe("/gone", false, 0, None),
    ];
    cmd_rehash(&mut db, &probes, true);
    assert_eq!(db.books[0].xxhash, None);
    assert_eq!(db.books[1].xxhash, None);
    assert_eq!(db.books[2].xxhash, None);
    assert_eq!(db.books[0].size_bytes, 0);
    assert_eq!(db.books[1].size_bytes, 0);
}

#[test]
fn rehash_skips_missing_records() {
    let mut db = BooksDb::new();
    let mut e = entry("/m", None, false, "d");
    e.missing = true;
    db.books.push(e);
    let probes = vec![probe("/m", true, 9, Some(0x9))];
    cmd_rehash(&mut db, &probes, true);
    // A record flagged missing is left for a check to deal with.
    assert_eq!(db.books[0].xxhash, None);
    assert_eq!(db.books[0].size_bytes, 0);
}

#[test]
fn catalog_wf_detects_duplicate_live_paths() {
    let mut db = BooksDb::new();
    db.books.push(entry("/a", Some(1), false, "d"));
    db.books.push(entry("/b", Some(2), false, "d"));
    // A stale record may share a live record's path.
    db.books.push(entry("/a", Some(3), true, "d"));
    assert!(catalog_wf(&db));
    // A second live record for /a breaks the invariant.
    db.books.push(entry("/a", Some(4), false, "d"));
    assert!(!catalog_wf(&db));
}
