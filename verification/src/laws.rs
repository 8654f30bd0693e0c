//! Proved laws of the reconciliation engine: how its operations compose
//! over repeated runs and between catalogs.

use vstd::prelude::*;

use crate::model::RecV;
use crate::reconcile::{
    as_live, backfilled, checked_rec, checked_upto, fresh_list, fresh_of, fresh_rec, has_live,
    has_probe, hashes_match, lemma_fresh_origin, lemma_live_index_unique, lemma_merge_entry_wf,
    lemma_spec_check_wf, live_at, live_index, needs_fresh, probes_cover, pruned, spec_check,
    spec_load, spec_merge_all, spec_merge_entry, superseded, the_probe, wf, ProbeV,
};

verus! {

/// A check on which no live record needs superseding appends nothing.
proof fn lemma_fresh_list_empty(s: Seq<RecV>, ps: Seq<ProbeV>, now: Seq<char>)
    requires
        forall|i: int|
            0 <= i < s.len() && !(#[trigger] s[i]).stale ==> !needs_fresh(
                s[i],
                the_probe(ps, s[i].full_path),
            ),
    ensures
        fresh_list(s, ps, now) =~= Seq::<RecV>::empty(),
    decreases s.len(),
{
    if s.len() > 0 {
        assert(forall|i: int|
            0 <= i < s.drop_last().len() && !(#[trigger] s.drop_last()[i]).stale ==> !needs_fresh(
                s.drop_last()[i],
                the_probe(ps, s.drop_last()[i].full_path),
            ));
        lemma_fresh_list_empty(s.drop_last(), ps, now);
        assert(s.last() == s[s.len() - 1]);
        assert(fresh_of(s.last(), ps, now) =~= Seq::<RecV>::empty());
    }
}

/// Running a check twice against the same filesystem state yields the same
/// catalog as running it once: the first run already records every probed
/// outcome, so the second changes nothing.
pub proof fn lemma_check_idempotent(s: Seq<RecV>, ps: Seq<ProbeV>, now1: Seq<char>, now2: Seq<char>)
    requires
        wf(s),
        probes_cover(s, ps),
    ensures
        spec_check(spec_check(s, ps, now1), ps, now2) == spec_check(s, ps, now1),
{
    let s1 = spec_check(s, ps, now1);
    let main = checked_upto(s, ps, s.len() as int);
    let fl = fresh_list(s, ps, now1);
    lemma_spec_check_wf(s, ps, now1);
    lemma_fresh_origin(s, ps, now1);
    // Every live record of the first run's result re-checks to itself.
    assert forall|i: int| 0 <= i < s1.len() && !(#[trigger] s1[i]).stale implies {
        &&& has_probe(ps, s1[i].full_path)
        &&& checked_rec(s1[i], the_probe(ps, s1[i].full_path)) == s1[i]
        &&& !needs_fresh(s1[i], the_probe(ps, s1[i].full_path))
    } by {
        if i < main.len() {
            assert(s1[i] == main[i]);
            assert(!s[i].stale);
            let p = the_probe(ps, s[i].full_path);
            assert(s1[i] == checked_rec(s[i], p));
            assert(s1[i].full_path == s[i].full_path);
            if !p.found || p.hash is None {
                // The first run already flagged the record missing; the
                // second flags it again, changing nothing.
                assert(checked_rec(s1[i], p) =~= s1[i]);
            } else if hashes_match(s[i].xxhash, p.hash) {
                assert(s1[i].xxhash == s[i].xxhash);
                assert(checked_rec(s1[i], p) =~= s1[i]);
            } else {
                assert(s1[i].stale);
            }
        } else {
            // A fresh record of the first run: its hash is the probe's
            // computed hash, so the second run sees a match.
            let m = i - main.len();
            let o = choose|o: int|
                0 <= o < s.len() && !(#[trigger] s[o]).stale && needs_fresh(
                    s[o],
                    the_probe(ps, s[o].full_path),
                ) && fl[m] == fresh_rec(s[o], the_probe(ps, s[o].full_path), now1);
            let p = the_probe(ps, s[o].full_path);
            assert(s1[i] == fl[m]);
            assert(s1[i].full_path == s[o].full_path);
            assert(has_probe(ps, s[o].full_path));
            assert(p.hash is Some);
            assert(s1[i].xxhash == p.hash);
            assert(hashes_match(s1[i].xxhash, p.hash));
            assert(checked_rec(s1[i], p) =~= s1[i]);
        }
    }
    lemma_fresh_list_empty(s1, ps, now2);
    assert(checked_upto(s1, ps, s1.len() as int) =~= s1);
    assert(spec_check(s1, ps, now2) =~= s1);
}

/// Some position in the appended fresh list carries the record that
/// supersedes the live record at `i`.
proof fn lemma_fresh_exists(s: Seq<RecV>, ps: Seq<ProbeV>, now: Seq<char>, i: int)
    requires
        0 <= i < s.len(),
        !s[i].stale,
        needs_fresh(s[i], the_probe(ps, s[i].full_path)),
    ensures
        exists|m: int|
            0 <= m < fresh_list(s, ps, now).len() && #[trigger] fresh_list(s, ps, now)[m]
                == fresh_rec(s[i], the_probe(ps, s[i].full_path), now),
    decreases s.len(),
{
    let fl = fresh_list(s, ps, now);
    let fd = fresh_list(s.drop_last(), ps, now);
    if i == s.len() - 1 {
        assert(s.last() == s[i]);
        assert(fresh_of(s.last(), ps, now).len() == 1);
        assert(fl[fd.len() as int] == fresh_rec(s[i], the_probe(ps, s[i].full_path), now));
    } else {
        assert(s.drop_last()[i] == s[i]);
        lemma_fresh_exists(s.drop_last(), ps, now, i);
        let m = choose|m: int|
            0 <= m < fd.len() && #[trigger] fd[m] == fresh_rec(
                s.drop_last()[i],
                the_probe(ps, s.drop_last()[i].full_path),
                now,
            );
        assert(fl[m] == fd[m]);
    }
}

/// When a live record's content changes, a check leaves exactly one live
/// record for its path, carrying the new hash, and exactly one superseded
/// record, the old one, flagged stale and missing with the old hash; no
/// other record carries that path, given none did before.
pub proof fn lemma_supersession_unique(
    s: Seq<RecV>,
    ps: Seq<ProbeV>,
    now: Seq<char>,
    i: int,
    h1: u128,
    h2: u128,
)
    requires
        wf(s),
        0 <= i < s.len(),
        !s[i].stale,
        s[i].xxhash == Some(h1),
        the_probe(ps, s[i].full_path).found,
        the_probe(ps, s[i].full_path).hash == Some(h2),
        h1 != h2,
        forall|k: int| 0 <= k < s.len() && k != i ==> (#[trigger] s[k]).full_path != s[i].full_path,
    ensures
        wf(spec_check(s, ps, now)),
        has_live(spec_check(s, ps, now), s[i].full_path),
        spec_check(s, ps, now)[live_index(spec_check(s, ps, now), s[i].full_path)].xxhash == Some(
            h2,
        ),
        spec_check(s, ps, now)[i] == superseded(s[i]),
        spec_check(s, ps, now)[i].xxhash == Some(h1),
        forall|k: int|
            0 <= k < spec_check(s, ps, now).len() && k != i && (#[trigger] spec_check(
                s,
                ps,
                now,
            )[k]).full_path == s[i].full_path ==> !spec_check(s, ps, now)[k].stale,
{
    let r = spec_check(s, ps, now);
    let main = checked_upto(s, ps, s.len() as int);
    let fl = fresh_list(s, ps, now);
    let p = the_probe(ps, s[i].full_path);
    let path = s[i].full_path;
    lemma_spec_check_wf(s, ps, now);
    lemma_fresh_origin(s, ps, now);
    assert(!hashes_match(s[i].xxhash, p.hash));
    assert(needs_fresh(s[i], p));
    assert(r[i] == checked_rec(s[i], p));
    assert(r[i] == superseded(s[i]));
    lemma_fresh_exists(s, ps, now, i);
    let m = choose|m: int|
        0 <= m < fl.len() && #[trigger] fl[m] == fresh_rec(s[i], the_probe(ps, s[i].full_path), now);
    let j = main.len() + m;
    assert(r[j] == fl[m]);
    assert(live_at(r, j, path));
    lemma_live_index_unique(r, path, j);
    assert(r[live_index(r, path)].xxhash == Some(h2));
    assert forall|k: int|
        0 <= k < r.len() && k != i && (#[trigger] r[k]).full_path == path implies !r[k].stale by {
        if k < main.len() {
            assert(r[k].full_path == s[k].full_path);
            assert(s[k].full_path != path);
        } else {
            let o = choose|o: int|
                0 <= o < s.len() && !(#[trigger] s[o]).stale && needs_fresh(
                    s[o],
                    the_probe(ps, s[o].full_path),
                ) && fl[k - main.len()] == fresh_rec(s[o], the_probe(ps, s[o].full_path), now);
            assert(!r[k].stale);
        }
    }
}

/// Pruning a pruned catalog changes nothing: every surviving record is
/// live, so a second prune keeps them all.
pub proof fn lemma_prune_idempotent(s: Seq<RecV>)
    ensures
        pruned(pruned(s)) == pruned(s),
{
    broadcast use vstd::seq_lib::group_filter_ensures;

    lemma_filter_all_live(pruned(s));
}

/// A catalog of live records is unchanged by a prune.
proof fn lemma_filter_all_live(t: Seq<RecV>)
    requires
        forall|i: int| 0 <= i < t.len() ==> !(#[trigger] t[i]).stale,
    ensures
        pruned(t) == t,
    decreases t.len(),
{
    reveal(Seq::filter);
    if t.len() == 0 {
        assert(pruned(t) =~= t);
    } else {
        assert(forall|i: int|
            0 <= i < t.drop_last().len() ==> !(#[trigger] t.drop_last()[i]).stale);
        lemma_filter_all_live(t.drop_last());
        assert(!t.last().stale);
        assert(pruned(t) =~= t.drop_last().push(t.last()));
        assert(t.drop_last().push(t.last()) =~= t);
    }
}

/// Absorbing a batch of live, dated candidate records none of whose paths
/// collide with a live record or with each other simply appends them.
proof fn lemma_merge_all_inserts(s: Seq<RecV>, cs: Seq<RecV>, now: Seq<char>)
    requires
        wf(s),
        forall|k: int|
            0 <= k < cs.len() ==> !(#[trigger] cs[k]).stale && !cs[k].missing
                && cs[k].date_found.len() > 0,
        forall|k1: int, k2: int|
            0 <= k1 < k2 < cs.len() ==> (#[trigger] cs[k1]).full_path != (#[trigger] cs[k2]).full_path,
        forall|i: int, k: int|
            0 <= i < s.len() && !(#[trigger] s[i]).stale && 0 <= k < cs.len() ==> s[i].full_path
                != (#[trigger] cs[k]).full_path,
    ensures
        spec_merge_all(s, cs, now) == s + cs,
    decreases cs.len(),
{
    if cs.len() == 0 {
        assert(s + cs =~= s);
    } else {
        let c0 = cs[0];
        assert(backfilled(c0, now) =~= c0);
        if has_live(s, c0.full_path) {
            let w = choose|w: int| live_at(s, w, c0.full_path);
            assert(s[w].full_path != c0.full_path);
        }
        assert(!has_live(s, c0.full_path));
        assert(as_live(c0) =~= c0);
        let t = spec_merge_entry(s, c0);
        assert(t == s.push(c0));
        lemma_merge_entry_wf(s, c0);
        assert(forall|k: int|
            0 <= k < cs.drop_first().len() ==> !(#[trigger] cs.drop_first()[k]).stale
                && !cs.drop_first()[k].missing && cs.drop_first()[k].date_found.len() > 0);
        assert forall|k1: int, k2: int| 0 <= k1 < k2 < cs.drop_first().len() implies (
        #[trigger] cs.drop_first()[k1]).full_path != (#[trigger] cs.drop_first()[k2]).full_path by {
            assert(cs.drop_first()[k1] == cs[k1 + 1] && cs.drop_first()[k2] == cs[k2 + 1]);
        }
        assert forall|i: int, k: int|
            0 <= i < t.len() && !(#[trigger] t[i]).stale && 0 <= k
                < cs.drop_first().len() implies t[i].full_path != (
        #[trigger] cs.drop_first()[k]).full_path by {
            assert(cs.drop_first()[k] == cs[k + 1]);
            if i < s.len() {
                assert(t[i] == s[i]);
            } else {
                assert(t[i] == c0);
            }
        }
        lemma_merge_all_inserts(t, cs.drop_first(), now);
        assert(spec_merge_all(s, cs, now) == spec_merge_all(t, cs.drop_first(), now));
        assert(t + cs.drop_first() =~= s + cs);
    }
}

/// Merging two catalogs that share no paths, hold only live, present,
/// dated records, is order-indifferent: either direction appends the other
/// catalog's records whole, and both directions yield the same records up
/// to order.
pub proof fn lemma_merge_disjoint_commutes(a: Seq<RecV>, b: Seq<RecV>, now: Seq<char>)
    requires
        wf(a),
        wf(b),
        forall|i: int|
            0 <= i < a.len() ==> !(#[trigger] a[i]).stale && !a[i].missing && a[i].date_found.len()
                > 0,
        forall|i: int|
            0 <= i < b.len() ==> !(#[trigger] b[i]).stale && !b[i].missing && b[i].date_found.len()
                > 0,
        forall|i: int, j: int|
            0 <= i < a.len() && 0 <= j < b.len() ==> (#[trigger] a[i]).full_path != (
            #[trigger] b[j]).full_path,
    ensures
        spec_merge_all(a, b, now) == a + b,
        spec_merge_all(b, a, now) == b + a,
        spec_merge_all(a, b, now).to_multiset() == spec_merge_all(b, a, now).to_multiset(),
{
    assert forall|k1: int, k2: int| 0 <= k1 < k2 < b.len() implies (#[trigger] b[k1]).full_path
        != (#[trigger] b[k2]).full_path by {
        assert(!b[k1].stale && !b[k2].stale);
    }
    assert forall|k1: int, k2: int| 0 <= k1 < k2 < a.len() implies (#[trigger] a[k1]).full_path
        != (#[trigger] a[k2]).full_path by {
        assert(!a[k1].stale && !a[k2].stale);
    }
    assert forall|i: int, k: int|
        0 <= i < b.len() && !(#[trigger] b[i]).stale && 0 <= k < a.len() implies b[i].full_path
        != (#[trigger] a[k]).full_path by {
        assert(a[k].full_path != b[i].full_path);
    }
    lemma_merge_all_inserts(a, b, now);
    lemma_merge_all_inserts(b, a, now);
    vstd::seq_lib::lemma_multiset_commutative(a, b);
    vstd::seq_lib::lemma_multiset_commutative(b, a);
    assert((a + b).to_multiset() =~= (b + a).to_multiset());
}

/// A load never disturbs the live record of a path no candidate carries.
proof fn lemma_load_preserves_live(s: Seq<RecV>, cs: Seq<RecV>, q: Seq<char>)
    requires
        wf(s),
        has_live(s, q),
        forall|k: int| 0 <= k < cs.len() ==> (#[trigger] cs[k]).full_path != q,
    ensures
        wf(spec_load(s, cs)),
        has_live(spec_load(s, cs), q),
        live_index(spec_load(s, cs), q) == live_index(s, q),
        spec_load(s, cs)[live_index(spec_load(s, cs), q)] == s[live_index(s, q)],
    decreases cs.len(),
{
    let iq = live_index(s, q);
    assert(live_at(s, iq, q));
    lemma_live_index_unique(s, q, iq);
    if cs.len() == 0 {
    } else {
        let c0 = cs[0];
        let t = spec_merge_entry(s, c0);
        lemma_merge_entry_wf(s, c0);
        assert(c0.full_path != q);
        if has_live(s, c0.full_path) {
            let i0 = live_index(s, c0.full_path);
            assert(live_at(s, i0, c0.full_path));
            assert(i0 != iq);
            if hashes_match(s[i0].xxhash, c0.xxhash) {
                assert(t == s);
            } else {
                assert(t[iq] == s[iq]);
            }
        } else {
            assert(t[iq] == s[iq]);
        }
        assert(live_at(t, iq, q));
        lemma_live_index_unique(t, q, iq);
        assert(forall|k: int|
            0 <= k < cs.drop_first().len() ==> (#[trigger] cs.drop_first()[k]).full_path != q);
        lemma_load_preserves_live(t, cs.drop_first(), q);
    }
}

/// After a load of candidates with pairwise distinct paths, each
/// candidate's path has a live record whose hash is the candidate's.
proof fn lemma_load_live_hash(s: Seq<RecV>, cs: Seq<RecV>)
    requires
        wf(s),
        forall|k1: int, k2: int|
            0 <= k1 < k2 < cs.len() ==> (#[trigger] cs[k1]).full_path != (#[trigger] cs[k2]).full_path,
    ensures
        wf(spec_load(s, cs)),
        forall|k: int|
            0 <= k < cs.len() ==> has_live(spec_load(s, cs), (#[trigger] cs[k]).full_path)
                && spec_load(s, cs)[live_index(spec_load(s, cs), cs[k].full_path)].xxhash
                == cs[k].xxhash,
    decreases cs.len(),
{
    let r = spec_load(s, cs);
    crate::reconcile::lemma_spec_load_wf(s, cs);
    if cs.len() > 0 {
        let c0 = cs[0];
        let t = spec_merge_entry(s, c0);
        lemma_merge_entry_wf(s, c0);
        // The first candidate's path gets a live record in `t` whose hash
        // is the candidate's.
        let ghost it: int = if has_live(s, c0.full_path) && hashes_match(
            s[live_index(s, c0.full_path)].xxhash,
            c0.xxhash,
        ) {
            live_index(s, c0.full_path)
        } else {
            t.len() - 1
        };
        if has_live(s, c0.full_path) {
            let i0 = live_index(s, c0.full_path);
            assert(live_at(s, i0, c0.full_path));
            if hashes_match(s[i0].xxhash, c0.xxhash) {
                assert(t == s);
                assert(s[i0].xxhash == c0.xxhash);
                assert(live_at(t, it, c0.full_path));
            } else {
                assert(t[it] == as_live(c0));
                assert(live_at(t, it, c0.full_path));
            }
        } else {
            assert(t[it] == as_live(c0));
            assert(live_at(t, it, c0.full_path));
        }
        assert(t[it].xxhash == c0.xxhash);
        lemma_live_index_unique(t, c0.full_path, it);
        // The remaining candidates never target this path again.
        assert forall|k: int| 0 <= k < cs.drop_first().len() implies (
        #[trigger] cs.drop_first()[k]).full_path != c0.full_path by {
            assert(cs.drop_first()[k] == cs[k + 1]);
        }
        lemma_load_preserves_live(t, cs.drop_first(), c0.full_path);
        assert forall|k1: int, k2: int| 0 <= k1 < k2 < cs.drop_first().len() implies (
        #[trigger] cs.drop_first()[k1]).full_path != (#[trigger] cs.drop_first()[k2]).full_path by {
            assert(cs.drop_first()[k1] == cs[k1 + 1] && cs.drop_first()[k2] == cs[k2 + 1]);
        }
        lemma_load_live_hash(t, cs.drop_first());
        assert(r == spec_load(t, cs.drop_first()));
        assert forall|k: int| 0 <= k < cs.len() implies has_live(r, (#[trigger] cs[k]).full_path)
            && r[live_index(r, cs[k].full_path)].xxhash == cs[k].xxhash by {
            if k == 0 {
                assert(r[live_index(r, c0.full_path)] == t[live_index(t, c0.full_path)]);
            } else {
                assert(cs.drop_first()[k - 1] == cs[k]);
            }
        }
    }
}

/// A load whose candidates all match the live records already present, by
/// hash, changes nothing.
proof fn lemma_load_noop(s: Seq<RecV>, cs: Seq<RecV>)
    requires
        wf(s),
        forall|k: int|
            0 <= k < cs.len() ==> has_live(s, (#[trigger] cs[k]).full_path) && hashes_match(
                s[live_index(s, cs[k].full_path)].xxhash,
                cs[k].xxhash,
            ),
    ensures
        spec_load(s, cs) == s,
    decreases cs.len(),
{
    if cs.len() > 0 {
        let c0 = cs[0];
        assert(has_live(s, c0.full_path) && hashes_match(
            s[live_index(s, c0.full_path)].xxhash,
            c0.xxhash,
        ));
        assert(spec_merge_entry(s, c0) == s);
        assert(forall|k: int|
            0 <= k < cs.drop_first().len() ==> has_live(
                s,
                (#[trigger] cs.drop_first()[k]).full_path,
            ) && hashes_match(
                s[live_index(s, cs.drop_first()[k].full_path)].xxhash,
                cs.drop_first()[k].xxhash,
            ));
        lemma_load_noop(s, cs.drop_first());
    }
}

/// Loading the same candidates twice adds nothing the second time: the
/// first load leaves every candidate's path with a live record carrying
/// the candidate's hash, so the second load discards every candidate,
/// provided every candidate was hashed and the paths are distinct.
pub proof fn lemma_load_idempotent(s: Seq<RecV>, cs: Seq<RecV>)
    requires
        wf(s),
        forall|k: int| 0 <= k < cs.len() ==> (#[trigger] cs[k]).xxhash is Some,
        forall|k1: int, k2: int|
            0 <= k1 < k2 < cs.len() ==> (#[trigger] cs[k1]).full_path != (#[trigger] cs[k2]).full_path,
    ensures
        spec_load(spec_load(s, cs), cs) == spec_load(s, cs),
{
    let s1 = spec_load(s, cs);
    lemma_load_live_hash(s, cs);
    assert forall|k: int| 0 <= k < cs.len() implies has_live(s1, (#[trigger] cs[k]).full_path)
        && hashes_match(s1[live_index(s1, cs[k].full_path)].xxhash, cs[k].xxhash) by {
        assert(s1[live_index(s1, cs[k].full_path)].xxhash == cs[k].xxhash);
        assert(cs[k].xxhash is Some);
    }
    lemma_load_noop(s1, cs);
}

} // verus!
