//! End-to-end reconciliation scenarios against an in-memory catalog.

use bookdb::model::{BooksDb, EpubMeta, FileFormat};
use bookdb::reconcile::{cmd_check, cmd_load, cmd_merge, cmd_prune, Probe};
use bookdb::scan::build_entry;

fn meta_empty() -> EpubMeta {
    EpubMeta {
        title: None,
        author: None,
        description: None,
        chapters: Vec::new(),
        publish_date: None,
        publisher: None,
        other_metadata: Vec::new(),
    }
}

fn live_count(db: &BooksDb) -> usize {
    db.books.iter().filter(|b| !b.stale).count()
}

fn stale_count(db: &BooksDb) -> usize {
    db.books.iter().filter(|b| b.stale).count()
}

fn two_candidates() -> Vec<bookdb::model::BookEntry> {
    let now = String::from("2024-01-01T00:00:00+00:00");
    vec![
        build_entry(
            &String::from("/lib/a.epub"),
            100,
            Some(0xAAA),
            meta_empty(),
            &now,
        ),
        build_entry(
            &String::from("/lib/b.pdf"),
            200,
            Some(0xBBB),
            meta_empty(),
            &now,
        ),
    ]
}

#[test]
fn load_then_reload_then_change_then_prune() {
    let mut db = BooksDb::new();

    // First load discovers both files.
    cmd_load(&mut db, two_candidates());
    assert_eq!(db.books.len(), 2);
    assert_eq!(live_count(&db), 2);
    assert_eq!(stale_count(&db), 0);
    assert_eq!(db.books[0].format, FileFormat::Epub);
    assert_eq!(db.books[1].format, FileFormat::Pdf);

    // A second load with no filesystem changes adds nothing.
    cmd_load(&mut db, two_candidates());
    assert_eq!(db.books.len(), 2);
    assert_eq!(live_count(&db), 2);
    assert_eq!(stale_count(&db), 0);

    // a.epub's content changes; a check supersedes its record.
    let probes = vec![
        Probe {
            path: String::from("/lib/a.epub"),
            found: true,
            size_bytes: 150,
            hash: Some(0xAAA2),
            meta: meta_empty(),
        },
        Probe {
            path: String::from("/lib/b.pdf"),
            found: true,
            size_bytes: 200,
            hash: Some(0xBBB),
            meta: meta_empty(),
        },
    ];
    let now2 = String::from("2024-01-02T00:00:00+00:00");
    cmd_check(&mut db, &probes, &now2);
    assert_eq!(db.books.len(), 3);
    assert_eq!(live_count(&db), 2);
    assert_eq!(stale_count(&db), 1);
    let old = &db.books[0];
    assert_eq!(old.full_path, "/lib/a.epub");
    assert!(old.stale);
    assert!(old.missing);
    assert_eq!(old.xxhash, Some(0xAAA));
    let b = &db.books[1];
    assert_eq!(b.full_path, "/lib/b.pdf");
    assert!(!b.stale);
    assert_eq!(b.xxhash, Some(0xBBB));
    let fresh = &db.books[2];
    assert_eq!(fresh.full_path, "/lib/a.epub");
    assert!(!fresh.stale);
    assert!(!fresh.missing);
    assert_eq!(fresh.xxhash, Some(0xAAA2));
    assert_eq!(fresh.size_bytes, 150);
    assert_eq!(fresh.date_found, "2024-01-02T00:00:00+00:00");

    // Pruning drops the superseded record and nothing else.
    let removed = cmd_prune(&mut db);
    assert_eq!(removed, 1);
    assert_eq!(db.books.len(), 2);
    assert_eq!(live_count(&db), 2);
    assert_eq!(stale_count(&db), 0);
}

#[test]
fn check_twice_is_idempotent() {
    let mut db = BooksDb::new();
    cmd_load(&mut db, two_candidates());
    let probes = vec![
        Probe {
            path: String::from("/lib/a.epub"),
            found: true,
            size_bytes: 100,
            hash: Some(0xAAA),
            meta: meta_empty(),
        },
        Probe {
            path: String::from("/lib/b.pdf"),
            found: false,
            size_bytes: 0,
            hash: None,
            meta: meta_empty(),
        },
    ];
    let now = String::from("2024-01-03T00:00:00+00:00");
    cmd_check(&mut db, &probes, &now);
    let after_first: Vec<(String, bool, bool, Option<u128>, u64)> = db
        .books
        .iter()
        .map(|b| (b.full_path.clone(), b.stale, b.missing, b.xxhash, b.size_bytes))
        .collect();
    // b.pdf vanished: flagged missing in place, still live.
    assert_eq!(db.books.len(), 2);
    assert!(db.books[1].missing);
    assert!(!db.books[1].stale);

    let now2 = String::from("2024-01-04T00:00:00+00:00");
    cmd_check(&mut db, &probes, &now2);
    let after_second: Vec<(String, bool, bool, Option<u128>, u64)> = db
        .books
        .iter()
        .map(|b| (b.full_path.clone(), b.stale, b.missing, b.xxhash, b.size_bytes))
        .collect();
    assert_eq!(after_first, after_second);
}

#[test]
fn merge_disjoint_either_way_gives_same_records() {
    let now = String::from("2024-02-01T00:00:00+00:00");
    let mut a = BooksDb::new();
    cmd_load(
        &mut a,
        vec![build_entry(
            &String::from("/x/one.epub"),
            1,
            Some(0x1),
            meta_empty(),
            &now,
        )],
    );
    let mut b = BooksDb::new();
    cmd_load(
        &mut b,
        vec![build_entry(
            &String::from("/y/two.pdf"),
            2,
            Some(0x2),
            meta_empty(),
            &now,
        )],
    );

    let mut ab = BooksDb {
        books: a.books.iter().map(clone_entry).collect(),
        last_updated: None,
    };
    let other_b = BooksDb {
        books: b.books.iter().map(clone_entry).collect(),
        last_updated: None,
    };
    cmd_merge(&mut ab, other_b, &now);

    let mut ba = b;
    cmd_merge(&mut ba, a, &now);

    let mut ab_paths: Vec<String> = ab.books.iter().map(|e| e.full_path.clone()).collect();
    let mut ba_paths: Vec<String> = ba.books.iter().map(|e| e.full_path.clone()).collect();
    ab_paths.sort();
    ba_paths.sort();
    assert_eq!(ab_paths, ba_paths);
    assert_eq!(ab.books.len(), 2);
    assert_eq!(ba.books.len(), 2);
    assert!(ab.books.iter().all(|e| !e.stale));
    assert!(ba.books.iter().all(|e| !e.stale));
}

fn clone_entry(e: &bookdb::model::BookEntry) -> bookdb::model::BookEntry {
    e.clone()
}

#[test]
fn unhashable_existing_file_is_flagged_missing_in_place() {
    let mut db = BooksDb::new();
    cmd_load(&mut db, two_candidates());
    // a.epub still exists but its content cannot be hashed; b.pdf is fine.
    let probes = vec![
        Probe {
            path: String::from("/lib/a.epub"),
            found: true,
            size_bytes: 100,
            hash: None,
            meta: meta_empty(),
        },
        Probe {
            path: String::from("/lib/b.pdf"),
            found: true,
            size_bytes: 200,
            hash: Some(0xBBB),
            meta: meta_empty(),
        },
    ];
    let now = String::from("2024-01-05T00:00:00+00:00");
    cmd_check(&mut db, &probes, &now);
    // No supersession: the record is flagged missing in place.
    assert_eq!(db.books.len(), 2);
    assert!(!db.books[0].stale);
    assert!(db.books[0].missing);
    assert_eq!(db.books[0].xxhash, Some(0xAAA));
    // A second check with the same observations changes nothing.
    let now2 = String::from("2024-01-06T00:00:00+00:00");
    cmd_check(&mut db, &probes, &now2);
    assert_eq!(db.books.len(), 2);
    assert!(db.books[0].missing && !db.books[0].stale);
    assert_eq!(db.books[0].xxhash, Some(0xAAA));
}
