//! Key/value row transmission logic: which rows participate in an
//! outbound request, and how duplicate names collapse (last wins).
use vstd::prelude::*;
use crate::model::{pairs_view, rows_view, KeyValue, KeyValueView};

verus! {

/// The rows that take part in transmission — enabled, with a
/// non-empty key — as (key, value) pairs, in list order.
pub open spec fn enabled_pairs(s: Seq<KeyValueView>) -> Seq<(Seq<char>, Seq<char>)>
    decreases s.len(),
{
    if s.len() == 0 {
        Seq::empty()
    } else {
        let rest = enabled_pairs(s.drop_last());
        let kv = s.last();
        if kv.enabled && kv.key.len() > 0 {
            rest.push((kv.key, kv.value))
        } else {
            rest
        }
    }
}

/// The last index of `m` whose key is `k`, or `-1`.
pub open spec fn find_key(m: Seq<(Seq<char>, Seq<char>)>, k: Seq<char>) -> int
    decreases m.len(),
{
    if m.len() == 0 {
        -1
    } else if m.last().0 == k {
        m.len() - 1
    } else {
        find_key(m.drop_last(), k)
    }
}

/// The pairs collapsed into a mapping: a later pair with a name
/// already present overwrites its value in place; a new name is
/// appended. Names therefore keep first-occurrence order and the
/// value of a name is the last one given to it.
pub open spec fn collapse_pairs(s: Seq<(Seq<char>, Seq<char>)>) -> Seq<(Seq<char>, Seq<char>)>
    decreases s.len(),
{
    if s.len() == 0 {
        Seq::empty()
    } else {
        let rest = collapse_pairs(s.drop_last());
        let p = s.last();
        let i = find_key(rest, p.0);
        if i >= 0 {
            rest.update(i, p)
        } else {
            rest.push(p)
        }
    }
}

pub open spec fn unique_keys(m: Seq<(Seq<char>, Seq<char>)>) -> bool {
    forall|i: int, j: int| 0 <= i < j < m.len() ==> (#[trigger] m[i]).0 != (#[trigger] m[j]).0
}

/// The value under name `k`, if any.
pub open spec fn lookup_key(m: Seq<(Seq<char>, Seq<char>)>, k: Seq<char>) -> Option<Seq<char>> {
    let i = find_key(m, k);
    if i >= 0 {
        Some(m[i].1)
    } else {
        None
    }
}

/// The value of the last participating row named `k`, if any: what a
/// receiver must see for that name.
pub open spec fn last_sent_value(rows: Seq<KeyValueView>, k: Seq<char>) -> Option<Seq<char>>
    decreases rows.len(),
{
    if rows.len() == 0 {
        None
    } else if rows.last().enabled && rows.last().key.len() > 0 && rows.last().key == k {
        Some(rows.last().value)
    } else {
        last_sent_value(rows.drop_last(), k)
    }
}

pub proof fn lemma_find_key_props(m: Seq<(Seq<char>, Seq<char>)>, k: Seq<char>)
    ensures
        find_key(m, k) >= 0 ==> 0 <= find_key(m, k) < m.len() && m[find_key(m, k)].0 == k,
        find_key(m, k) == -1 <==> forall|i: int| 0 <= i < m.len() ==> (#[trigger] m[i]).0 != k,
        find_key(m, k) >= -1,
    decreases m.len(),
{
    if m.len() > 0 {
        lemma_find_key_props(m.drop_last(), k);
        assert(forall|i: int| 0 <= i < m.len() - 1 ==> m.drop_last()[i] == #[trigger] m[i]);
        assert(m.last() == m[m.len() - 1]);
    }
}

proof fn lemma_find_key_update_other(m: Seq<(Seq<char>, Seq<char>)>, i: int, p: (Seq<char>, Seq<char>), k: Seq<char>)
    requires
        0 <= i < m.len(),
        m[i].0 == p.0,
    ensures
        find_key(m.update(i, p), k) == find_key(m, k),
    decreases m.len(),
{
    let mu = m.update(i, p);
    assert(mu.len() == m.len());
    if i == m.len() - 1 {
        assert(mu.last() == p);
        assert(m.last().0 == p.0);
        assert(mu.drop_last() =~= m.drop_last());
    } else {
        assert(mu.last() == m.last());
        assert(mu.drop_last() =~= m.drop_last().update(i, p));
        lemma_find_key_update_other(m.drop_last(), i, p, k);
    }
}

/// Collapsing keeps every name at most once, and never introduces an
/// empty name that the pairs did not hold.
pub proof fn lemma_collapse_unique(s: Seq<(Seq<char>, Seq<char>)>)
    ensures
        unique_keys(collapse_pairs(s)),
        (forall|i: int| 0 <= i < s.len() ==> (#[trigger] s[i]).0.len() > 0) ==> forall|i: int|
            0 <= i < collapse_pairs(s).len() ==> (#[trigger] collapse_pairs(s)[i]).0.len() > 0,
    decreases s.len(),
{
    if s.len() > 0 {
        lemma_collapse_unique(s.drop_last());
        let rest = collapse_pairs(s.drop_last());
        let p = s.last();
        let i = find_key(rest, p.0);
        lemma_find_key_props(rest, p.0);
        assert(forall|j: int| 0 <= j < s.len() - 1 ==> s.drop_last()[j] == #[trigger] s[j]);
        assert(s.last() == s[s.len() - 1]);
        if i >= 0 {
            assert(forall|j: int| 0 <= j < rest.len() && j != i ==> (#[trigger] rest.update(
                i,
                p,
            )[j]).0 == rest[j].0);
            assert(rest.update(i, p)[i].0 == p.0);
            assert(rest[i].0 == p.0);
        }
    }
}

/// The law of outgoing headers: after filtering to participating rows
/// and collapsing duplicates, the value recorded under any name is
/// exactly the value of the last participating row with that name
/// (last-in-list wins), and a name with no participating row is absent.
pub proof fn lemma_outgoing_last_wins(rows: Seq<KeyValueView>, k: Seq<char>)
    ensures
        lookup_key(collapse_pairs(enabled_pairs(rows)), k) == last_sent_value(rows, k),
    decreases rows.len(),
{
    let pairs = enabled_pairs(rows);
    let m = collapse_pairs(pairs);
    if rows.len() == 0 {
        assert(m.len() == 0);
    } else {
        lemma_outgoing_last_wins(rows.drop_last(), k);
        let pairs0 = enabled_pairs(rows.drop_last());
        let m0 = collapse_pairs(pairs0);
        let r = rows.last();
        lemma_collapse_unique(pairs0);
        if r.enabled && r.key.len() > 0 {
            let p = (r.key, r.value);
            assert(pairs =~= pairs0.push(p));
            assert(pairs.drop_last() =~= pairs0);
            assert(pairs.last() == p);
            let i = find_key(m0, p.0);
            lemma_find_key_props(m0, p.0);
            if i >= 0 {
                assert(m == m0.update(i, p));
                lemma_find_key_update_other(m0, i, p, k);
                lemma_find_key_props(m, k);
                if k == p.0 {
                    // the only index with this key is i, so find_key lands on it
                    assert(find_key(m, k) == find_key(m0, k));
                    assert(find_key(m0, k) >= 0);
                    assert(find_key(m0, k) == i) by {
                        if find_key(m0, k) != i {
                            assert(m0[find_key(m0, k)].0 == k && m0[i].0 == k);
                        }
                    }
                    assert(m[i] == p);
                } else {
                    assert(find_key(m, k) == find_key(m0, k));
                    if find_key(m0, k) >= 0 {
                        assert(m[find_key(m0, k)] == m0[find_key(m0, k)]);
                    }
                }
            } else {
                assert(m == m0.push(p));
                assert(m.drop_last() =~= m0);
                assert(m.last() == p);
                if k == p.0 {
                    assert(find_key(m, k) == m.len() - 1);
                    assert(m[m.len() - 1] == p);
                } else {
                    assert(find_key(m, k) == find_key(m0, k));
                    lemma_find_key_props(m0, k);
                    if find_key(m0, k) >= 0 {
                        assert(m[find_key(m0, k)] == m0[find_key(m0, k)]);
                    }
                }
            }
        } else {
            assert(pairs =~= pairs0);
        }
    }
}

/// Finds the first pair of `out` whose key equals `k`.
fn search_key(out: &Vec<(String, String)>, k: &String) -> (r: Option<usize>)
    ensures
        match r {
            Some(i) => i < out@.len() && pairs_view(out@)[i as int].0 == k@,
            None => forall|i: int|
                0 <= i < out@.len() ==> (#[trigger] pairs_view(out@)[i]).0 != k@,
        },
{
    let n = out.len();
    let mut i: usize = 0;
    while i < n
        invariant
            0 <= i <= n == out@.len(),
            forall|j: int| 0 <= j < i ==> (#[trigger] pairs_view(out@)[j]).0 != k@,
        decreases n - i,
    {
        if out[i].0.eq(k) {
            assert(pairs_view(out@)[i as int].0 == k@);
            return Some(i);
        }
        assert(pairs_view(out@)[i as int].0 != k@);
        i = i + 1;
    }
    None
}

/// Builds the outgoing mapping from a row list: rows that are enabled
/// and have a non-empty key take part, in order, and a later row with
/// a name already present overwrites its value (last-in-list wins).
pub fn build_outgoing_pairs(rows: &Vec<KeyValue>) -> (r: Vec<(String, String)>)
    ensures
        pairs_view(r@) == collapse_pairs(enabled_pairs(rows_view(rows@))),
{
    let n = rows.len();
    let mut out: Vec<(String, String)> = Vec::new();
    let mut idx: usize = 0;
    while idx < n
        invariant
            0 <= idx <= n == rows@.len(),
            pairs_view(out@) == collapse_pairs(enabled_pairs(rows_view(rows@.subrange(0, idx as int)))),
        decreases n - idx,
    {
        let ghost prev_rows = rows_view(rows@.subrange(0, idx as int));
        let ghost cur_rows = rows_view(rows@.subrange(0, idx as int + 1));
        proof {
            assert(cur_rows.drop_last() =~= prev_rows);
            assert(cur_rows.last() == rows@[idx as int]@);
            lemma_collapse_unique(enabled_pairs(prev_rows));
        }
        let row = &rows[idx];
        if row.enabled && !row.key.as_str().is_empty() {
            let ghost p = (row.key@, row.value@);
            let ghost pairs0 = enabled_pairs(prev_rows);
            let ghost m0 = collapse_pairs(pairs0);
            proof {
                assert(enabled_pairs(cur_rows) =~= pairs0.push(p));
                assert(pairs0.push(p).drop_last() =~= pairs0);
                lemma_find_key_props(m0, p.0);
            }
            match search_key(&out, &row.key) {
                Some(i) => {
                    proof {
                        // the searched index is the one find_key names
                        assert(find_key(m0, p.0) >= 0);
                        assert(m0[find_key(m0, p.0)].0 == p.0);
                        if find_key(m0, p.0) != i as int {
                            assert(m0[i as int].0 == p.0);
                            assert(false);
                        }
                    }
                    out[i] = (row.key.clone(), row.value.clone());
                    proof {
                        assert(pairs_view(out@) =~= m0.update(i as int, p));
                    }
                }
                None => {
                    proof {
                        assert(find_key(m0, p.0) == -1);
                    }
                    out.push((row.key.clone(), row.value.clone()));
                    proof {
                        assert(pairs_view(out@) =~= m0.push(p));
                    }
                }
            }
        } else {
            proof {
                assert(enabled_pairs(cur_rows) =~= enabled_pairs(prev_rows));
            }
        }
        idx = idx + 1;
    }
    proof {
        assert(rows@.subrange(0, n as int) =~= rows@);
    }
    out
}

/// Collects the participating rows — enabled, with a non-empty key —
/// as (key, value) pairs, in list order, without collapsing.
pub fn collect_enabled_pairs(rows: &Vec<KeyValue>) -> (r: Vec<(String, String)>)
    ensures
        pairs_view(r@) == enabled_pairs(rows_view(rows@)),
{
    let n = rows.len();
    let mut out: Vec<(String, String)> = Vec::new();
    let mut idx: usize = 0;
    while idx < n
        invariant
            0 <= idx <= n == rows@.len(),
            pairs_view(out@) == enabled_pairs(rows_view(rows@.subrange(0, idx as int))),
        decreases n - idx,
    {
        let ghost prev_rows = rows_view(rows@.subrange(0, idx as int));
        let ghost cur_rows = rows_view(rows@.subrange(0, idx as int + 1));
        proof {
            assert(cur_rows.drop_last() =~= prev_rows);
            assert(cur_rows.last() == rows@[idx as int]@);
        }
        let row = &rows[idx];
        if row.enabled && !row.key.as_str().is_empty() {
            out.push((row.key.clone(), row.value.clone()));
            proof {
                assert(pairs_view(out@) =~= enabled_pairs(prev_rows).push((row.key@, row.value@)));
            }
        } else {
            proof {
                assert(enabled_pairs(cur_rows) =~= enabled_pairs(prev_rows));
            }
        }
        idx = idx + 1;
    }
    proof {
        assert(rows@.subrange(0, n as int) =~= rows@);
    }
    out
}

/// Collapses already-filtered pairs, as received from a transport:
/// a later pair with a name already present overwrites its value
/// (last-observed wins).
pub fn collapse_received_pairs(pairs: &Vec<(String, String)>) -> (r: Vec<(String, String)>)
    ensures
        pairs_view(r@) == collapse_pairs(pairs_view(pairs@)),
{
    let n = pairs.len();
    let mut out: Vec<(String, String)> = Vec::new();
    let mut idx: usize = 0;
    while idx < n
        invariant
            0 <= idx <= n == pairs@.len(),
            pairs_view(out@) == collapse_pairs(pairs_view(pairs@).subrange(0, idx as int)),
        decreases n - idx,
    {
        let ghost prev = pairs_view(pairs@).subrange(0, idx as int);
        let ghost cur = pairs_view(pairs@).subrange(0, idx as int + 1);
        let ghost p = pairs_view(pairs@)[idx as int];
        let ghost m0 = collapse_pairs(prev);
        proof {
            assert(cur.drop_last() =~= prev);
            assert(cur.last() == p);
            lemma_collapse_unique(prev);
            lemma_find_key_props(m0, p.0);
        }
        let pair = &pairs[idx];
        match search_key(&out, &pair.0) {
            Some(i) => {
                proof {
                    assert(find_key(m0, p.0) >= 0);
                    if find_key(m0, p.0) != i as int {
                        assert(m0[i as int].0 == p.0);
                        assert(false);
                    }
                }
                out[i] = (pair.0.clone(), pair.1.clone());
                proof {
                    assert(pairs_view(out@) =~= m0.update(i as int, p));
                }
            }
            None => {
                proof {
                    assert(find_key(m0, p.0) == -1);
                }
                out.push((pair.0.clone(), pair.1.clone()));
                proof {
                    assert(pairs_view(out@) =~= m0.push(p));
                }
            }
        }
        idx = idx + 1;
    }
    proof {
        assert(pairs_view(pairs@).subrange(0, n as int) =~= pairs_view(pairs@));
    }
    out
}

} // verus!
