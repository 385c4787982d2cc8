//! The content-addressed history store.
//!
//! [`Database`] keeps clipboard records keyed by their content identity:
//! at most one row per identity, ordered by capture time, newest first.
//! An upsert of an already-seen identity replaces the old row (refreshing
//! its capture time and source) instead of adding a second one; listing
//! returns a capped prefix of the recency order; search filters the rows by
//! an ASCII-case-insensitive substring match on the value and an optional
//! exact match on the source label.
//!
//! The mathematical model of the store is a sequence of [`Rec`] values with
//! pairwise distinct identities, sorted by timestamp descending.  Unlike the
//! query strings such a table is usually built on, the operations here never
//! interpolate caller-supplied text into anything: the filter predicates are
//! functions of the argument sequences, so there is no injection surface.

use vstd::prelude::*;

use crate::clip::{Clip, Rec, identity_of, rec_of};
use crate::text::{is_substring, lower, matches_at};

verus! {

/// A store failure.  The in-memory table itself is total, so the verified
/// operations always succeed; the taxonomy exists for the durable mirror a
/// host process may keep, whose failures are reported with these values.
#[derive(Clone, Copy, Debug, PartialEq, Eq, Structural)]
pub enum StoreError {
    /// A write could not be persisted.
    WriteFailure,
    /// A query could not be answered.
    QueryFailure,
}

/// Rows are ordered by capture time, newest first (ties in either order).
pub open spec fn sorted_desc(rows: Seq<Rec>) -> bool {
    forall|i: int, j: int|
        0 <= i < j < rows.len() ==> rows[i].timestamp >= rows[j].timestamp
}

/// No two rows share a content identity.
pub open spec fn unique_hashes(rows: Seq<Rec>) -> bool {
    forall|i: int, j: int| 0 <= i < j < rows.len() ==> rows[i].hash != rows[j].hash
}

/// The store invariant: recency order and identity as a unique key.
pub open spec fn wf_rows(rows: Seq<Rec>) -> bool {
    sorted_desc(rows) && unique_hashes(rows)
}

/// The rows with identity `h` taken out.
pub open spec fn remove_hash(rows: Seq<Rec>, h: Seq<char>) -> Seq<Rec>
    decreases rows.len(),
{
    if rows.len() == 0 {
        Seq::empty()
    } else if rows[0].hash == h {
        remove_hash(rows.drop_first(), h)
    } else {
        seq![rows[0]] + remove_hash(rows.drop_first(), h)
    }
}

/// `r` inserted in front of the first row that is not newer than it, so that
/// descending order is kept and, among equal timestamps, the inserted row
/// comes first.
pub open spec fn insert_desc(rows: Seq<Rec>, r: Rec) -> Seq<Rec>
    decreases rows.len(),
{
    if rows.len() == 0 {
        seq![r]
    } else if rows[0].timestamp <= r.timestamp {
        seq![r] + rows
    } else {
        seq![rows[0]] + insert_desc(rows.drop_first(), r)
    }
}

/// What an upsert leaves in the store: any row with the same identity is
/// replaced by `r`, which takes the place its timestamp gives it.
pub open spec fn upsert_model(rows: Seq<Rec>, r: Rec) -> Seq<Rec> {
    insert_desc(remove_hash(rows, r.hash), r)
}

/// A row matches a search when the folded needle occurs in its folded value
/// (so neither case nor position matter) and, if a source filter is given,
/// its source equals the filter exactly.  An empty term matches every row.
pub open spec fn rec_matches(r: Rec, term: Seq<char>, source_filter: Seq<char>) -> bool {
    &&& is_substring(lower(r.value), lower(term))
    &&& (source_filter.len() == 0 || r.source == source_filter)
}

/// The rows a search returns: the matching rows, in store order.
pub open spec fn matching(rows: Seq<Rec>, term: Seq<char>, source_filter: Seq<char>) -> Seq<Rec>
    decreases rows.len(),
{
    if rows.len() == 0 {
        Seq::empty()
    } else {
        let rest = matching(rows.drop_first(), term, source_filter);
        if rec_matches(rows[0], term, source_filter) {
            seq![rows[0]] + rest
        } else {
            rest
        }
    }
}

/// The rows a recency listing returns: the first `limit` rows.
pub open spec fn recent_model(rows: Seq<Rec>, limit: int) -> Seq<Rec> {
    if rows.len() <= limit {
        rows
    } else {
        rows.take(limit)
    }
}

/// Removing an identity that no row carries changes nothing.
proof fn lemma_remove_hash_absent(rows: Seq<Rec>, h: Seq<char>)
    requires
        forall|i: int| 0 <= i < rows.len() ==> rows[i].hash != h,
    ensures
        remove_hash(rows, h) == rows,
    decreases rows.len(),
{
    if rows.len() > 0 {
        lemma_remove_hash_absent(rows.drop_first(), h);
        assert(remove_hash(rows, h) =~= rows);
    }
}

/// Removal keeps every other row: the result's rows all come from `rows`,
/// none carries `h`, and the length never grows.
proof fn lemma_remove_hash_sub(rows: Seq<Rec>, h: Seq<char>)
    ensures
        forall|x: Rec| #[trigger] remove_hash(rows, h).contains(x) ==> rows.contains(x),
        forall|i: int|
            0 <= i < remove_hash(rows, h).len() ==> #[trigger] remove_hash(rows, h)[i].hash != h,
        remove_hash(rows, h).len() <= rows.len(),
    decreases rows.len(),
{
    if rows.len() > 0 {
        lemma_remove_hash_sub(rows.drop_first(), h);
        assert forall|x: Rec| #[trigger] remove_hash(rows, h).contains(x) implies rows.contains(
            x,
        ) by {
            if rows[0].hash == h {
                assert(remove_hash(rows, h) == remove_hash(rows.drop_first(), h));
                assert(remove_hash(rows.drop_first(), h).contains(x));
                assert(rows.drop_first().contains(x));
                let k = choose|k: int|
                    0 <= k < rows.drop_first().len() && rows.drop_first()[k] == x;
                assert(rows[k + 1] == x);
            } else {
                let s = seq![rows[0]] + remove_hash(rows.drop_first(), h);
                assert(remove_hash(rows, h) == s);
                assert(s.contains(x));
                let k = choose|k: int| 0 <= k < s.len() && s[k] == x;
                if k == 0 {
                    assert(rows[0] == x);
                } else {
                    assert(s[k] == remove_hash(rows.drop_first(), h)[k - 1]);
                    assert(remove_hash(rows.drop_first(), h).contains(x));
                    assert(rows.drop_first().contains(x));
                    let m = choose|m: int|
                        0 <= m < rows.drop_first().len() && rows.drop_first()[m] == x;
                    assert(rows[m + 1] == x);
                }
            }
        }
    }
}

/// Removal preserves descending order, and cannot raise the newest
/// timestamp.
proof fn lemma_remove_hash_sorted(rows: Seq<Rec>, h: Seq<char>)
    requires
        sorted_desc(rows),
    ensures
        sorted_desc(remove_hash(rows, h)),
        forall|i: int|
            0 <= i < remove_hash(rows, h).len() ==> rows.len() > 0 && #[trigger] remove_hash(
                rows,
                h,
            )[i].timestamp <= rows[0].timestamp,
    decreases rows.len(),
{
    if rows.len() > 0 {
        let d = rows.drop_first();
        assert(sorted_desc(d)) by {
            assert forall|i: int, j: int| 0 <= i < j < d.len() implies d[i].timestamp
                >= d[j].timestamp by {
                assert(rows[i + 1].timestamp >= rows[j + 1].timestamp);
            }
        }
        lemma_remove_hash_sorted(d, h);
        if rows[0].hash == h {
            assert forall|i: int| 0 <= i < remove_hash(rows, h).len() implies #[trigger] remove_hash(
                rows,
                h,
            )[i].timestamp <= rows[0].timestamp by {
                if d.len() > 0 {
                    assert(remove_hash(d, h)[i].timestamp <= d[0].timestamp);
                    assert(rows[1].timestamp <= rows[0].timestamp);
                }
            }
        } else {
            let s = seq![rows[0]] + remove_hash(d, h);
            assert forall|i: int, j: int| 0 <= i < j < s.len() implies s[i].timestamp
                >= s[j].timestamp by {
                if i == 0 {
                    if d.len() > 0 {
                        assert(remove_hash(d, h)[j - 1].timestamp <= d[0].timestamp);
                        assert(rows[1].timestamp <= rows[0].timestamp);
                    }
                } else {
                    assert(remove_hash(d, h)[i - 1].timestamp >= remove_hash(d, h)[j - 1].timestamp);
                }
            }
        }
    }
}

/// Removal preserves the uniqueness of identities.
proof fn lemma_remove_hash_unique_pres(rows: Seq<Rec>, h: Seq<char>)
    requires
        unique_hashes(rows),
    ensures
        unique_hashes(remove_hash(rows, h)),
    decreases rows.len(),
{
    if rows.len() > 0 {
        let d = rows.drop_first();
        assert(unique_hashes(d)) by {
            assert forall|i: int, j: int| 0 <= i < j < d.len() implies d[i].hash != d[j].hash by {
                assert(rows[i + 1].hash != rows[j + 1].hash);
            }
        }
        lemma_remove_hash_unique_pres(d, h);
        if rows[0].hash != h {
            lemma_remove_hash_sub(d, h);
            let s = seq![rows[0]] + remove_hash(d, h);
            assert forall|i: int, j: int| 0 <= i < j < s.len() implies s[i].hash != s[j].hash by {
                if i == 0 {
                    assert(remove_hash(d, h).contains(remove_hash(d, h)[j - 1]));
                    assert(d.contains(remove_hash(d, h)[j - 1]));
                    let m = choose|m: int|
                        0 <= m < d.len() && d[m] == remove_hash(d, h)[j - 1];
                    assert(rows[m + 1].hash != rows[0].hash);
                } else {
                    assert(remove_hash(d, h)[i - 1].hash != remove_hash(d, h)[j - 1].hash);
                }
            }
        }
    }
}

/// When exactly the row at `idx` carries `h`, removal by identity is removal
/// of that row.
proof fn lemma_remove_hash_at(rows: Seq<Rec>, h: Seq<char>, idx: int)
    requires
        unique_hashes(rows),
        0 <= idx < rows.len(),
        rows[idx].hash == h,
    ensures
        remove_hash(rows, h) == rows.remove(idx),
    decreases rows.len(),
{
    let d = rows.drop_first();
    assert(unique_hashes(d)) by {
        assert forall|i: int, j: int| 0 <= i < j < d.len() implies d[i].hash != d[j].hash by {
            assert(rows[i + 1].hash != rows[j + 1].hash);
        }
    }
    if idx == 0 {
        assert forall|i: int| 0 <= i < d.len() implies d[i].hash != h by {
            assert(rows[0].hash != rows[i + 1].hash);
        }
        lemma_remove_hash_absent(d, h);
        assert(remove_hash(rows, h) =~= rows.remove(0));
    } else {
        assert(rows[0].hash != rows[idx].hash);
        assert(d[idx - 1].hash == h);
        lemma_remove_hash_at(d, h, idx - 1);
        assert(remove_hash(rows, h) =~= rows.remove(idx));
    }
}

/// Inserting at the position the timestamps select is what `insert_desc`
/// does: `p` rows are newer, the rest are not.
proof fn lemma_insert_desc_at(rows: Seq<Rec>, r: Rec, p: int)
    requires
        0 <= p <= rows.len(),
        forall|j: int| 0 <= j < p ==> rows[j].timestamp > r.timestamp,
        p < rows.len() ==> rows[p].timestamp <= r.timestamp,
    ensures
        insert_desc(rows, r) == rows.insert(p, r),
    decreases rows.len(),
{
    if p == 0 {
        if rows.len() == 0 {
            assert(insert_desc(rows, r) =~= rows.insert(0, r));
        } else {
            assert(insert_desc(rows, r) =~= rows.insert(0, r));
        }
    } else {
        let d = rows.drop_first();
        lemma_insert_desc_at(d, r, p - 1);
        assert(insert_desc(rows, r) =~= rows.insert(p, r));
    }
}

/// The shape of an insertion: one longer, contains the new row, and every
/// row is the new one or one of the old ones.
proof fn lemma_insert_desc_elems(rows: Seq<Rec>, r: Rec)
    ensures
        insert_desc(rows, r).len() == rows.len() + 1,
        insert_desc(rows, r).contains(r),
        forall|i: int|
            0 <= i < insert_desc(rows, r).len() ==> (#[trigger] insert_desc(rows, r)[i] == r
                || rows.contains(insert_desc(rows, r)[i])),
    decreases rows.len(),
{
    if rows.len() == 0 {
        assert(seq![r][0] == r);
        assert(insert_desc(rows, r).contains(r));
    } else if rows[0].timestamp <= r.timestamp {
        assert((seq![r] + rows)[0] == r);
        assert(insert_desc(rows, r).contains(r));
    } else {
        let d = rows.drop_first();
        lemma_insert_desc_elems(d, r);
        let s = seq![rows[0]] + insert_desc(d, r);
        let k = choose|k: int| 0 <= k < insert_desc(d, r).len() && insert_desc(d, r)[k] == r;
        assert(s[k + 1] == r);
        assert(s.contains(r));
        assert forall|i: int| 0 <= i < s.len() implies (#[trigger] s[i] == r || rows.contains(
            s[i],
        )) by {
            if i == 0 {
                assert(rows[0] == s[0]);
            } else {
                if insert_desc(d, r)[i - 1] == r {
                } else {
                    assert(d.contains(insert_desc(d, r)[i - 1]));
                    let m = choose|m: int| 0 <= m < d.len() && d[m] == insert_desc(d, r)[i - 1];
                    assert(rows[m + 1] == s[i]);
                }
            }
        }
    }
}

/// Insertion keeps descending order.
proof fn lemma_insert_desc_sorted(rows: Seq<Rec>, r: Rec)
    requires
        sorted_desc(rows),
    ensures
        sorted_desc(insert_desc(rows, r)),
    decreases rows.len(),
{
    if rows.len() == 0 {
    } else if rows[0].timestamp <= r.timestamp {
        let s = seq![r] + rows;
        assert forall|i: int, j: int| 0 <= i < j < s.len() implies s[i].timestamp
            >= s[j].timestamp by {
            if i == 0 {
                if j > 1 {
                    assert(rows[0].timestamp >= rows[j - 1].timestamp);
                }
            } else {
                assert(rows[i - 1].timestamp >= rows[j - 1].timestamp);
            }
        }
    } else {
        let d = rows.drop_first();
        assert(sorted_desc(d)) by {
            assert forall|i: int, j: int| 0 <= i < j < d.len() implies d[i].timestamp
                >= d[j].timestamp by {
                assert(rows[i + 1].timestamp >= rows[j + 1].timestamp);
            }
        }
        lemma_insert_desc_sorted(d, r);
        lemma_insert_desc_elems(d, r);
        let s = seq![rows[0]] + insert_desc(d, r);
        assert forall|i: int, j: int| 0 <= i < j < s.len() implies s[i].timestamp
            >= s[j].timestamp by {
            if i == 0 {
                let x = insert_desc(d, r)[j - 1];
                if x == r {
                } else {
                    assert(d.contains(x));
                    let m = choose|m: int| 0 <= m < d.len() && d[m] == x;
                    assert(rows[m + 1].timestamp <= rows[0].timestamp);
                }
            } else {
                assert(insert_desc(d, r)[i - 1].timestamp >= insert_desc(d, r)[j - 1].timestamp);
            }
        }
    }
}

/// Insertion of a fresh identity keeps identities unique.
proof fn lemma_insert_desc_unique(rows: Seq<Rec>, r: Rec)
    requires
        unique_hashes(rows),
        forall|i: int| 0 <= i < rows.len() ==> rows[i].hash != r.hash,
    ensures
        unique_hashes(insert_desc(rows, r)),
    decreases rows.len(),
{
    if rows.len() == 0 {
    } else if rows[0].timestamp <= r.timestamp {
        let s = seq![r] + rows;
        assert forall|i: int, j: int| 0 <= i < j < s.len() implies s[i].hash != s[j].hash by {
            if i == 0 {
                assert(rows[j - 1].hash != r.hash);
            } else {
                assert(rows[i - 1].hash != rows[j - 1].hash);
            }
        }
    } else {
        let d = rows.drop_first();
        assert(unique_hashes(d)) by {
            assert forall|i: int, j: int| 0 <= i < j < d.len() implies d[i].hash != d[j].hash by {
                assert(rows[i + 1].hash != rows[j + 1].hash);
            }
        }
        lemma_insert_desc_unique(d, r);
        lemma_insert_desc_elems(d, r);
        let s = seq![rows[0]] + insert_desc(d, r);
        assert forall|i: int, j: int| 0 <= i < j < s.len() implies s[i].hash != s[j].hash by {
            if i == 0 {
                let x = insert_desc(d, r)[j - 1];
                if x == r {
                    assert(rows[0].hash != r.hash);
                } else {
                    assert(d.contains(x));
                    let m = choose|m: int| 0 <= m < d.len() && d[m] == x;
                    assert(rows[0].hash != rows[m + 1].hash);
                }
            } else {
                assert(insert_desc(d, r)[i - 1].hash != insert_desc(d, r)[j - 1].hash);
            }
        }
    }
}

/// An upsert preserves the store invariant, puts the new row in, and leaves
/// it as the only row with its identity.
pub proof fn lemma_upsert_model_wf(rows: Seq<Rec>, r: Rec)
    requires
        wf_rows(rows),
    ensures
        wf_rows(upsert_model(rows, r)),
        upsert_model(rows, r).contains(r),
        upsert_model(rows, r).len() == remove_hash(rows, r.hash).len() + 1,
        forall|i: int|
            0 <= i < upsert_model(rows, r).len() && #[trigger] upsert_model(rows, r)[i].hash
                == r.hash ==> upsert_model(rows, r)[i] == r,
{
    let s = remove_hash(rows, r.hash);
    lemma_remove_hash_sorted(rows, r.hash);
    lemma_remove_hash_unique_pres(rows, r.hash);
    lemma_remove_hash_sub(rows, r.hash);
    lemma_insert_desc_sorted(s, r);
    lemma_insert_desc_unique(s, r);
    lemma_insert_desc_elems(s, r);
    assert forall|i: int|
        0 <= i < upsert_model(rows, r).len() && #[trigger] upsert_model(rows, r)[i].hash
            == r.hash implies upsert_model(rows, r)[i] == r by {
        let x = upsert_model(rows, r)[i];
        if x != r {
            assert(s.contains(x));
            let m = choose|m: int| 0 <= m < s.len() && s[m] == x;
            assert(s[m].hash != r.hash);
        }
    }
}

/// Filtering preserves descending order, and cannot raise the newest
/// timestamp.
proof fn lemma_matching_sorted(rows: Seq<Rec>, term: Seq<char>, f: Seq<char>)
    requires
        sorted_desc(rows),
    ensures
        sorted_desc(matching(rows, term, f)),
        forall|i: int|
            0 <= i < matching(rows, term, f).len() ==> rows.len() > 0 && #[trigger] matching(
                rows,
                term,
                f,
            )[i].timestamp <= rows[0].timestamp,
    decreases rows.len(),
{
    if rows.len() > 0 {
        let d = rows.drop_first();
        assert(sorted_desc(d)) by {
            assert forall|i: int, j: int| 0 <= i < j < d.len() implies d[i].timestamp
                >= d[j].timestamp by {
                assert(rows[i + 1].timestamp >= rows[j + 1].timestamp);
            }
        }
        lemma_matching_sorted(d, term, f);
        let rest = matching(d, term, f);
        if rec_matches(rows[0], term, f) {
            let s = seq![rows[0]] + rest;
            assert forall|i: int, j: int| 0 <= i < j < s.len() implies s[i].timestamp
                >= s[j].timestamp by {
                if i == 0 {
                    if d.len() > 0 {
                        assert(rest[j - 1].timestamp <= d[0].timestamp);
                        assert(rows[1].timestamp <= rows[0].timestamp);
                    }
                } else {
                    assert(rest[i - 1].timestamp >= rest[j - 1].timestamp);
                }
            }
            assert forall|i: int| 0 <= i < s.len() implies #[trigger] s[i].timestamp
                <= rows[0].timestamp by {
                if i > 0 && d.len() > 0 {
                    assert(rest[i - 1].timestamp <= d[0].timestamp);
                    assert(rows[1].timestamp <= rows[0].timestamp);
                }
            }
        } else {
            assert forall|i: int| 0 <= i < rest.len() implies #[trigger] rest[i].timestamp
                <= rows[0].timestamp by {
                if d.len() > 0 {
                    assert(rest[i].timestamp <= d[0].timestamp);
                    assert(rows[1].timestamp <= rows[0].timestamp);
                }
            }
        }
    }
}

/// Inserting a row and then removing its identity restores a table that was
/// free of that identity.
proof fn lemma_remove_insert_same(s: Seq<Rec>, r: Rec)
    requires
        forall|i: int| 0 <= i < s.len() ==> (#[trigger] s[i]).hash != r.hash,
    ensures
        remove_hash(insert_desc(s, r), r.hash) == s,
    decreases s.len(),
{
    if s.len() == 0 {
        assert(insert_desc(s, r) == seq![r]);
        assert(seq![r][0] == r);
        assert(seq![r].drop_first() =~= Seq::<Rec>::empty());
        assert(remove_hash(seq![r].drop_first(), r.hash) == Seq::<Rec>::empty());
        assert(s =~= Seq::<Rec>::empty());
        assert(remove_hash(insert_desc(s, r), r.hash) == s);
    } else if s[0].timestamp <= r.timestamp {
        assert((seq![r] + s)[0] == r);
        assert((seq![r] + s).drop_first() =~= s);
        lemma_remove_hash_absent(s, r.hash);
        assert(remove_hash((seq![r] + s).drop_first(), r.hash) == s);
        assert(remove_hash(insert_desc(s, r), r.hash) == s);
    } else {
        let d = s.drop_first();
        assert forall|i: int| 0 <= i < d.len() implies (#[trigger] d[i]).hash != r.hash by {
            assert(s[i + 1].hash != r.hash);
        }
        lemma_remove_insert_same(d, r);
        assert((seq![s[0]] + insert_desc(d, r)).drop_first() =~= insert_desc(d, r));
        assert(remove_hash(insert_desc(s, r), r.hash) =~= s);
    }
}

/// Law: an upsert is idempotent on the row count for a value already seen.
/// Upserting the same value twice yields exactly one row for it — the
/// second upsert replaces the first row instead of adding one — and that
/// row carries the second call's capture time and source.
pub proof fn lemma_upsert_same_value_once(
    rows: Seq<Rec>,
    v: Seq<char>,
    s1: Seq<char>,
    t1: int,
    s2: Seq<char>,
    t2: int,
)
    requires
        wf_rows(rows),
    ensures
        ({
            let once = upsert_model(rows, rec_of(v, t1, s1));
            let twice = upsert_model(once, rec_of(v, t2, s2));
            &&& wf_rows(twice)
            &&& twice.len() == once.len()
            &&& twice.contains(rec_of(v, t2, s2))
            &&& forall|i: int|
                0 <= i < twice.len() && (#[trigger] twice[i]).hash == identity_of(v) ==> twice[i]
                    == rec_of(v, t2, s2)
        }),
{
    let r1 = rec_of(v, t1, s1);
    let r2 = rec_of(v, t2, s2);
    let h = identity_of(v);
    let s = remove_hash(rows, h);
    let once = upsert_model(rows, r1);
    lemma_upsert_model_wf(rows, r1);
    lemma_upsert_model_wf(once, r2);
    lemma_remove_hash_sub(rows, h);
    lemma_remove_insert_same(s, r1);
    lemma_insert_desc_elems(s, r1);
    lemma_insert_desc_elems(remove_hash(once, h), r2);
}

/// Law: search returns exactly the matching rows.  Every stored row that
/// matches the term and the source filter appears in the result, and
/// everything in the result is a stored row that matches — a search never
/// invents, drops or edits a row.
pub proof fn lemma_matching_complete(rows: Seq<Rec>, term: Seq<char>, f: Seq<char>)
    ensures
        forall|i: int|
            0 <= i < rows.len() && rec_matches(#[trigger] rows[i], term, f) ==> matching(
                rows,
                term,
                f,
            ).contains(rows[i]),
        forall|i: int|
            0 <= i < matching(rows, term, f).len() ==> rec_matches(
                #[trigger] matching(rows, term, f)[i],
                term,
                f,
            ) && rows.contains(matching(rows, term, f)[i]),
    decreases rows.len(),
{
    if rows.len() > 0 {
        let d = rows.drop_first();
        lemma_matching_complete(d, term, f);
        let rest = matching(d, term, f);
        let out = matching(rows, term, f);
        assert forall|i: int|
            0 <= i < rows.len() && rec_matches(#[trigger] rows[i], term, f) implies out.contains(
            rows[i],
        ) by {
            if i == 0 {
                assert(out[0] == rows[0]);
            } else {
                assert(d[i - 1] == rows[i]);
                assert(rest.contains(d[i - 1]));
                let k = choose|k: int| 0 <= k < rest.len() && rest[k] == d[i - 1];
                if rec_matches(rows[0], term, f) {
                    assert(out[k + 1] == rest[k]);
                } else {
                    assert(out[k] == rest[k]);
                }
            }
        }
        assert forall|i: int| 0 <= i < out.len() implies rec_matches(
            #[trigger] out[i],
            term,
            f,
        ) && rows.contains(out[i]) by {
            if rec_matches(rows[0], term, f) {
                if i == 0 {
                    assert(out[0] == rows[0]);
                } else {
                    assert(out[i] == rest[i - 1]);
                    assert(d.contains(rest[i - 1]));
                    let k = choose|k: int| 0 <= k < d.len() && d[k] == rest[i - 1];
                    assert(rows[k + 1] == out[i]);
                }
            } else {
                assert(out[i] == rest[i]);
                assert(d.contains(rest[i]));
                let k = choose|k: int| 0 <= k < d.len() && d[k] == rest[i];
                assert(rows[k + 1] == out[i]);
            }
        }
    }
}

/// Law: a search with an empty term and an empty source filter returns the
/// whole table in recency order — the same rows a recency listing returns
/// when its limit covers the table.
pub proof fn lemma_search_blank_is_list_recent(rows: Seq<Rec>, limit: int)
    requires
        rows.len() <= limit,
    ensures
        matching(rows, Seq::<char>::empty(), Seq::<char>::empty()) == recent_model(rows, limit),
    decreases rows.len(),
{
    let e = Seq::<char>::empty();
    if rows.len() > 0 {
        assert(matches_at(lower(rows[0].value), lower(e), 0));
        assert(rec_matches(rows[0], e, e));
        lemma_search_blank_is_list_recent(rows.drop_first(), limit - 1);
        assert(recent_model(rows.drop_first(), limit - 1) == rows.drop_first());
        assert(matching(rows, e, e) =~= rows);
    }
}

/// Law: search is insensitive to the case of the term.  Two terms with the
/// same folded characters select the same rows — in particular a term
/// matches however the stored value and the query are capitalised, and a
/// match may sit at any position in the value.
pub proof fn lemma_search_case_insensitive(
    rows: Seq<Rec>,
    t1: Seq<char>,
    t2: Seq<char>,
    f: Seq<char>,
)
    requires
        lower(t1) == lower(t2),
    ensures
        matching(rows, t1, f) == matching(rows, t2, f),
    decreases rows.len(),
{
    if rows.len() > 0 {
        lemma_search_case_insensitive(rows.drop_first(), t1, t2, f);
    }
}

/// Law: a non-empty source filter that matches no row's source makes the
/// search empty, whatever the term would have matched.
pub proof fn lemma_search_source_mismatch(rows: Seq<Rec>, term: Seq<char>, f: Seq<char>)
    requires
        f.len() > 0,
        forall|i: int| 0 <= i < rows.len() ==> (#[trigger] rows[i]).source != f,
    ensures
        matching(rows, term, f) == Seq::<Rec>::empty(),
    decreases rows.len(),
{
    if rows.len() > 0 {
        let d = rows.drop_first();
        assert forall|i: int| 0 <= i < d.len() implies (#[trigger] d[i]).source != f by {
            assert(rows[i + 1].source != f);
        }
        lemma_search_source_mismatch(d, term, f);
        assert(rows[0].source != f);
        assert(!rec_matches(rows[0], term, f));
    }
}

/// The records a sequence of clips stands for.
pub open spec fn recs(s: Seq<Clip>) -> Seq<Rec> {
    Seq::new(s.len(), |i: int| s[i]@)
}

/// The character sequences a sequence of strings stands for.
pub open spec fn strs(s: Seq<String>) -> Seq<Seq<char>> {
    Seq::new(s.len(), |i: int| s[i]@)
}

/// The values of a sequence of records, in order.
pub open spec fn values_of(rows: Seq<Rec>) -> Seq<Seq<char>> {
    Seq::new(rows.len(), |i: int| rows[i].value)
}

/// `out` is the set of distinct sources of `rows`: it holds no duplicates,
/// each of its labels is the non-empty source of some row, and every
/// non-empty source of a row is among its labels.
pub open spec fn sources_ok(rows: Seq<Rec>, out: Seq<String>) -> bool {
    &&& forall|i: int, j: int| 0 <= i < j < out.len() ==> out[i]@ != out[j]@
    &&& forall|i: int|
        0 <= i < out.len() ==> (#[trigger] out[i])@.len() > 0 && exists|k: int|
            0 <= k < rows.len() && rows[k].source == out[i]@
    &&& forall|k: int|
        0 <= k < rows.len() && (#[trigger] rows[k]).source.len() > 0 ==> exists|i: int|
            0 <= i < out.len() && out[i]@ == rows[k].source
}

/// Filtering commutes with appending one row at the back.
proof fn lemma_matching_push(s: Seq<Rec>, r: Rec, term: Seq<char>, f: Seq<char>)
    ensures
        matching(s.push(r), term, f) == matching(s, term, f) + (if rec_matches(r, term, f) {
            seq![r]
        } else {
            Seq::<Rec>::empty()
        }),
    decreases s.len(),
{
    let tail = if rec_matches(r, term, f) {
        seq![r]
    } else {
        Seq::<Rec>::empty()
    };
    if s.len() == 0 {
        assert(s.push(r).drop_first() =~= Seq::<Rec>::empty());
        assert(s.push(r)[0] == r);
        assert(matching(s, term, f) == Seq::<Rec>::empty());
        assert(matching(s.push(r).drop_first(), term, f) == Seq::<Rec>::empty());
        if rec_matches(r, term, f) {
            assert(matching(s.push(r), term, f) == seq![r] + Seq::<Rec>::empty());
            assert(seq![r] + Seq::<Rec>::empty() =~= Seq::<Rec>::empty() + seq![r]);
        } else {
            assert(Seq::<Rec>::empty() + Seq::<Rec>::empty() =~= Seq::<Rec>::empty());
        }
    } else {
        assert(s.push(r).drop_first() =~= s.drop_first().push(r));
        lemma_matching_push(s.drop_first(), r, term, f);
        assert(s.push(r)[0] == s[0]);
        let rest = matching(s.drop_first(), term, f);
        if rec_matches(s[0], term, f) {
            assert(matching(s.push(r), term, f) == seq![s[0]] + (rest + tail));
            assert(matching(s, term, f) + tail == (seq![s[0]] + rest) + tail);
            assert(seq![s[0]] + (rest + tail) =~= (seq![s[0]] + rest) + tail);
        } else {
            assert(matching(s.push(r), term, f) == rest + tail);
        }
    }
}

/// The in-memory history table: at most one row per content identity,
/// newest first.
pub struct Database {
    rows: Vec<Clip>,
}

impl View for Database {
    type V = Seq<Rec>;

    closed spec fn view(&self) -> Seq<Rec> {
        recs(self.rows@)
    }
}

/// Finds the position of the row carrying identity `h`, if any.
fn find_hash(rows: &Vec<Clip>, h: &String) -> (o: Option<usize>)
    ensures
        match o {
            Some(i) => 0 <= i < rows@.len() && rows@[i as int]@.hash == h@,
            None => forall|j: int| 0 <= j < rows@.len() ==> (#[trigger] rows@[j])@.hash != h@,
        },
{
    let n: usize = rows.len();
    let mut i: usize = 0;
    while i < n
        invariant
            0 <= i <= n,
            n == rows@.len(),
            forall|j: int| 0 <= j < i ==> (#[trigger] rows@[j])@.hash != h@,
        decreases n - i,
    {
        if rows[i].hash == *h {
            return Some(i);
        }
        i = i + 1;
    }
    None
}

impl Database {
    /// The store invariant: recency order, identity as a unique key.
    pub open spec fn wf(&self) -> bool {
        wf_rows(self@)
    }

    /// An empty store.  A host that keeps a durable mirror rebuilds the
    /// table by replaying its persisted rows through [`Database::upsert`].
    pub fn new() -> (d: Database)
        ensures
            d@ == Seq::<Rec>::empty(),
            d.wf(),
    {
        let d = Database { rows: Vec::new() };
        proof {
            assert(d@ =~= Seq::<Rec>::empty());
        }
        d
    }

    /// How many rows the store holds.
    pub fn len(&self) -> (n: usize)
        ensures
            n == self@.len(),
    {
        self.rows.len()
    }

    /// Inserts the record, or, when a row with the same identity already
    /// exists, replaces that row, refreshing its capture time and source.
    /// The row count grows only for an unseen identity, and the replaced or
    /// inserted row moves to the place its timestamp gives it.  Never fails.
    pub fn upsert(&mut self, clip: Clip) -> (r: Result<(), StoreError>)
        requires
            old(self).wf(),
        ensures
            final(self).wf(),
            final(self)@ == upsert_model(old(self)@, clip@),
            r is Ok,
    {
        let ghost rows0 = self@;
        let ghost c = clip@;
        match find_hash(&self.rows, &clip.hash) {
            Some(i) => {
                let ghost before = self.rows@;
                self.rows.remove(i);
                proof {
                    lemma_remove_hash_at(rows0, c.hash, i as int);
                    assert(recs(before.remove(i as int)) =~= recs(before).remove(i as int));
                    assert(self@ == remove_hash(rows0, c.hash));
                }
            },
            None => {
                proof {
                    lemma_remove_hash_absent(rows0, c.hash);
                }
            },
        }
        let ghost mid = self@;
        let m: usize = self.rows.len();
        let mut p: usize = 0;
        while p < m && self.rows[p].timestamp > clip.timestamp
            invariant
                0 <= p <= m,
                m == self.rows@.len(),
                self@ == mid,
                c.timestamp == clip.timestamp as int,
                forall|j: int| 0 <= j < p ==> (#[trigger] self@[j]).timestamp > c.timestamp,
            decreases m - p,
        {
            proof {
                assert(self@[p as int] == self.rows@[p as int]@);
            }
            p = p + 1;
        }
        let ghost before = self.rows@;
        self.rows.insert(p, clip);
        proof {
            lemma_insert_desc_at(mid, c, p as int);
            assert(recs(before.insert(p as int, clip)) =~= recs(before).insert(p as int, c));
            assert(self@ == upsert_model(rows0, c));
            lemma_upsert_model_wf(rows0, c);
        }
        Ok(())
    }

    /// The `limit` most recent rows, newest first; the whole table when it
    /// has no more than `limit` rows.  Rows beyond the limit stay stored.
    /// Never fails.
    pub fn get_all_clips(&self, limit: u32) -> (r: Result<Vec<Clip>, StoreError>)
        requires
            self.wf(),
        ensures
            r matches Ok(clips) && recs(clips@) == recent_model(self@, limit as int),
            r matches Ok(clips) ==> sorted_desc(recs(clips@)) && clips@.len() <= limit,
    {
        let n: usize = self.rows.len();
        let lim: usize = limit as usize;
        let cap: usize = if lim < n {
            lim
        } else {
            n
        };
        let mut out: Vec<Clip> = Vec::new();
        let mut i: usize = 0;
        while i < cap
            invariant
                0 <= i <= cap,
                cap <= n,
                n == self.rows@.len(),
                out@.len() == i,
                forall|j: int| 0 <= j < i ==> #[trigger] out@[j] == self.rows@[j],
            decreases cap - i,
        {
            out.push(self.rows[i].duplicate());
            i = i + 1;
        }
        proof {
            assert(recs(out@) =~= recent_model(self@, limit as int));
        }
        Ok(out)
    }

    /// The values of the `limit` most recent rows, newest first.
    pub fn get_all_clips_str(&self, limit: u32) -> (r: Vec<String>)
        requires
            self.wf(),
        ensures
            strs(r@) == values_of(recent_model(self@, limit as int)),
    {
        match self.get_all_clips(limit) {
            Ok(clips) => {
                let n: usize = clips.len();
                let mut out: Vec<String> = Vec::new();
                let mut i: usize = 0;
                while i < n
                    invariant
                        0 <= i <= n,
                        n == clips@.len(),
                        out@.len() == i,
                        forall|j: int| 0 <= j < i ==> (#[trigger] out@[j])@ == clips@[j]@.value,
                    decreases n - i,
                {
                    out.push(clips[i].value.clone());
                    i = i + 1;
                }
                proof {
                    assert(strs(out@) =~= values_of(recs(clips@)));
                }
                out
            },
            Err(_) => unreached(),
        }
    }

    /// The rows matching the search, in recency order: the folded term must
    /// occur in the folded value, and, when `source_filter` is non-empty,
    /// the source must equal it exactly.  Never fails.
    pub fn search(&self, term: String, source_filter: String) -> (r: Result<
        Vec<Clip>,
        StoreError,
    >)
        requires
            self.wf(),
        ensures
            r matches Ok(clips) && recs(clips@) == matching(self@, term@, source_filter@),
            r matches Ok(clips) ==> sorted_desc(recs(clips@)),
    {
        proof {
            lemma_matching_sorted(self@, term@, source_filter@);
        }
        let needle = crate::text::to_lower_chars(term.as_str());
        let filter_empty = source_filter.as_str().is_empty();
        let n: usize = self.rows.len();
        let mut out: Vec<Clip> = Vec::new();
        let mut i: usize = 0;
        while i < n
            invariant
                0 <= i <= n,
                n == self.rows@.len(),
                needle@ == lower(term@),
                filter_empty == (source_filter@.len() == 0),
                recs(out@) == matching(self@.take(i as int), term@, source_filter@),
            decreases n - i,
        {
            let hay = crate::text::to_lower_chars(self.rows[i].value.as_str());
            let value_hit = crate::text::contains_chars(&hay, &needle);
            let source_hit = filter_empty || self.rows[i].source == source_filter;
            let ghost prefix = self@.take(i as int);
            proof {
                assert(self@.take(i as int + 1) =~= prefix.push(self@[i as int]));
                lemma_matching_push(prefix, self@[i as int], term@, source_filter@);
            }
            if value_hit && source_hit {
                out.push(self.rows[i].duplicate());
                proof {
                    assert(rec_matches(self@[i as int], term@, source_filter@));
                    assert(recs(out@) =~= matching(prefix, term@, source_filter@) + seq![
                        self@[i as int],
                    ]);
                }
            } else {
                proof {
                    assert(!rec_matches(self@[i as int], term@, source_filter@));
                    assert(matching(prefix, term@, source_filter@) + Seq::<Rec>::empty()
                        =~= matching(prefix, term@, source_filter@));
                }
            }
            i = i + 1;
        }
        proof {
            assert(self@.take(n as int) =~= self@);
        }
        Ok(out)
    }

    /// Every distinct non-empty source label observed in the table, without
    /// duplicates.  Never fails.
    pub fn get_all_sources(&self) -> (r: Vec<String>)
        ensures
            sources_ok(self@, r@),
    {
        let n: usize = self.rows.len();
        let mut out: Vec<String> = Vec::new();
        let mut i: usize = 0;
        while i < n
            invariant
                0 <= i <= n,
                n == self.rows@.len(),
                forall|a: int, b: int| 0 <= a < b < out@.len() ==> out@[a]@ != out@[b]@,
                forall|a: int|
                    0 <= a < out@.len() ==> (#[trigger] out@[a])@.len() > 0 && exists|k: int|
                        0 <= k < self@.len() && self@[k].source == out@[a]@,
                forall|k: int|
                    0 <= k < i && (#[trigger] self@[k]).source.len() > 0 ==> exists|a: int|
                        0 <= a < out@.len() && out@[a]@ == self@[k].source,
            decreases n - i,
        {
            let ghost out0 = out@;
            let src = &self.rows[i].source;
            let src_empty = src.as_str().is_empty();
            let already = contains_str(&out, src);
            if !src_empty && !already {
                out.push(src.clone());
            }
            proof {
                if !src_empty && !already {
                    assert(forall|a: int| 0 <= a < out0.len() ==> out@[a] == out0[a]);
                    assert(out@[out@.len() - 1]@ == self@[i as int].source);
                } else {
                    assert(out@ == out0);
                }
                assert forall|k: int|
                    0 <= k < i + 1 && (#[trigger] self@[k]).source.len() > 0 implies exists|a: int|
                    0 <= a < out@.len() && out@[a]@ == self@[k].source by {
                    if k < i {
                        let a = choose|a: int| 0 <= a < out0.len() && out0[a]@ == self@[k].source;
                        assert(out@[a]@ == self@[k].source);
                    } else {
                        assert(self@[k].source == self.rows@[i as int]@.source);
                        if src_empty {
                            assert(self@[k].source.len() == 0);
                        } else if already {
                            let a = choose|a: int| 0 <= a < out0.len() && out0[a]@ == src@;
                            assert(out@[a]@ == self@[k].source);
                        } else {
                            assert(out@[out@.len() - 1]@ == self@[k].source);
                        }
                    }
                }
            }
            i = i + 1;
        }
        out
    }
}

/// Decides whether a string with the given characters is already present.
fn contains_str(v: &Vec<String>, s: &String) -> (b: bool)
    ensures
        b == exists|i: int| 0 <= i < v@.len() && (#[trigger] v@[i])@ == s@,
{
    let n: usize = v.len();
    let mut i: usize = 0;
    while i < n
        invariant
            0 <= i <= n,
            n == v@.len(),
            forall|j: int| 0 <= j < i ==> (#[trigger] v@[j])@ != s@,
        decreases n - i,
    {
        if v[i] == *s {
            return true;
        }
        i = i + 1;
    }
    false
}

} // verus!
