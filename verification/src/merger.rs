use vstd::prelude::*;

use crate::value::{lemma_view_entries_index, view_entries, SpecValue, ConfigValue};

verus! {

/// First index in `entries` whose key equals `key`, or -1 if none does.
pub open spec fn find_key(entries: Seq<(SpecValue, SpecValue)>, key: SpecValue) -> int
    decreases entries.len(),
{
    if entries.len() == 0 {
        -1
    } else if entries[0].0 == key {
        0
    } else {
        let rest = find_key(entries.subrange(1, entries.len() as int), key);
        if rest == -1 {
            -1
        } else {
            rest + 1
        }
    }
}

/// `find_key` returns -1 exactly when no entry has the key, and otherwise
/// the first index whose entry has it.
pub(crate) proof fn lemma_find_key(entries: Seq<(SpecValue, SpecValue)>, key: SpecValue)
    ensures
        find_key(entries, key) == -1 ==> forall|i: int|
            0 <= i < entries.len() ==> (#[trigger] entries[i]).0 != key,
        find_key(entries, key) != -1 ==> {
            let f = find_key(entries, key);
            &&& 0 <= f < entries.len()
            &&& entries[f].0 == key
            &&& forall|i: int| 0 <= i < f ==> (#[trigger] entries[i]).0 != key
        },
    decreases entries.len(),
{
    if entries.len() > 0 && entries[0].0 != key {
        let rest = entries.subrange(1, entries.len() as int);
        lemma_find_key(rest, key);
        assert forall|i: int| 1 <= i < entries.len() implies entries[i] == rest[i - 1] by {
            assert(rest[i - 1] == entries[i]);
        }
    }
}

/// The entry list after folding the first `n` entries of `rm` into `lm`,
/// left to right: an entry whose key is already present replaces the value
/// at the first occurrence of that key with the recursive merge of the two
/// values; an entry with a fresh key is appended.
pub open spec fn merge_entries(
    lm: Seq<(SpecValue, SpecValue)>,
    rm: Seq<(SpecValue, SpecValue)>,
    n: int,
) -> Seq<(SpecValue, SpecValue)>
    decreases rm, n,
    via merge_entries_decreases
{
    if n <= 0 || rm.len() < n {
        lm
    } else {
        let prev = merge_entries(lm, rm, n - 1);
        let key = rm[n - 1].0;
        let val = rm[n - 1].1;
        let at = find_key(prev, key);
        if at == -1 {
            prev.push((key, val))
        } else {
            prev.update(at, (key, spec_merge(prev[at].1, val)))
        }
    }
}

#[via_fn]
proof fn merge_entries_decreases(
    lm: Seq<(SpecValue, SpecValue)>,
    rm: Seq<(SpecValue, SpecValue)>,
    n: int,
) {
    if n > 0 && n <= rm.len() {
        assert(decreases_to!(rm => rm[n - 1]));
        assert(decreases_to!(rm[n - 1] => rm[n - 1].1));
    }
}

/// Deep, right-biased merge: two tables merge entry by entry, every other
/// pairing of shapes is replaced wholesale by the right operand.
pub open spec fn spec_merge(left: SpecValue, right: SpecValue) -> SpecValue
    decreases right, 0int,
{
    match (left, right) {
        (SpecValue::Table(lm), SpecValue::Table(rm)) => SpecValue::Table(
            merge_entries(lm, rm, rm.len() as int),
        ),
        (_, r) => r,
    }
}

/// Removing an element and inserting another at the same place is an update.
proof fn lemma_remove_insert<A>(s: Seq<A>, i: int, x: A)
    requires
        0 <= i < s.len(),
    ensures
        s.remove(i).insert(i, x) == s.update(i, x),
{
    assert(s.remove(i).insert(i, x) =~= s.update(i, x));
}

/// The value at the first occurrence of `key` in `entries`, if any.
pub open spec fn lookup(entries: Seq<(SpecValue, SpecValue)>, key: SpecValue) -> Option<
    SpecValue,
> {
    let at = find_key(entries, key);
    if at == -1 {
        None
    } else {
        Some(entries[at].1)
    }
}

/// Where `i` is a match and nothing before it is, `find_key` answers `i`.
proof fn lemma_find_key_is(entries: Seq<(SpecValue, SpecValue)>, key: SpecValue, i: int)
    requires
        0 <= i < entries.len(),
        entries[i].0 == key,
        forall|t: int| 0 <= t < i ==> (#[trigger] entries[t]).0 != key,
    ensures
        find_key(entries, key) == i,
{
    lemma_find_key(entries, key);
}

/// Where nothing matches, `find_key` answers -1.
proof fn lemma_find_key_none(entries: Seq<(SpecValue, SpecValue)>, key: SpecValue)
    requires
        forall|t: int| 0 <= t < entries.len() ==> (#[trigger] entries[t]).0 != key,
    ensures
        find_key(entries, key) == -1,
{
    lemma_find_key(entries, key);
}

/// What the merge of two tables holds at each key, `n` right entries in:
/// a key both sides define maps to the merge of the two values, a key of
/// one side alone keeps that side's value unchanged, and a key of neither
/// stays absent. In particular keys unrelated to the right side are never
/// disturbed, and the merged key set is the union of the two key sets.
proof fn lemma_merge_entries_lookup(
    lm: Seq<(SpecValue, SpecValue)>,
    rm: Seq<(SpecValue, SpecValue)>,
    n: int,
    key: SpecValue,
)
    requires
        0 <= n <= rm.len(),
        crate::value::unique_keys(rm),
    ensures
        lookup(merge_entries(lm, rm, n), key) == (match (
            lookup(lm, key),
            lookup(rm.subrange(0, n), key),
        ) {
            (Some(lv), Some(rv)) => Some(spec_merge(lv, rv)),
            (Some(lv), None) => Some(lv),
            (None, Some(rv)) => Some(rv),
            (None, None) => None,
        }),
    decreases n,
{
    if n == 0 {
        assert(rm.subrange(0, 0).len() == 0);
    } else {
        lemma_merge_entries_lookup(lm, rm, n - 1, key);
        let prev = merge_entries(lm, rm, n - 1);
        let k = rm[n - 1].0;
        let v = rm[n - 1].1;
        let at = find_key(prev, k);
        let cur = merge_entries(lm, rm, n);
        let pre_short = rm.subrange(0, n - 1);
        let pre = rm.subrange(0, n);
        lemma_find_key(prev, k);
        lemma_find_key(prev, key);
        lemma_find_key(lm, key);
        if key == k {
            lemma_find_key_none(pre_short, key);
            lemma_find_key_is(pre, key, n - 1);
            if at == -1 {
                assert(cur == prev.push((k, v)));
                lemma_find_key_is(cur, key, prev.len() as int);
                assert(lookup(cur, key) == Some(v));
            } else {
                assert(cur == prev.update(at, (k, spec_merge(prev[at].1, v))));
                lemma_find_key_is(cur, key, at);
                assert(lookup(cur, key) == Some(spec_merge(prev[at].1, v)));
            }
        } else {
            // The prefix one entry longer holds the same first match for
            // this unrelated key.
            lemma_find_key(pre_short, key);
            assert forall|t: int| 0 <= t < pre_short.len() implies pre_short[t] == pre[t] by {}
            if find_key(pre_short, key) == -1 {
                lemma_find_key_none(pre, key);
            } else {
                lemma_find_key_is(pre, key, find_key(pre_short, key));
            }
            // The step does not move or change the first match for this key.
            if at == -1 {
                assert(cur == prev.push((k, v)));
                if find_key(prev, key) == -1 {
                    lemma_find_key_none(cur, key);
                } else {
                    lemma_find_key_is(cur, key, find_key(prev, key));
                }
            } else {
                assert(cur == prev.update(at, (k, spec_merge(prev[at].1, v))));
                assert(cur[at].0 == k);
                if find_key(prev, key) == -1 {
                    lemma_find_key_none(cur, key);
                } else {
                    lemma_find_key_is(cur, key, find_key(prev, key));
                }
            }
            assert(lookup(cur, key) == lookup(prev, key));
            assert(lookup(pre, key) == lookup(pre_short, key));
        }
    }
}

/// What a merged configuration holds at each key (the table case): a key
/// only the base defines keeps its value, a key only the override defines
/// takes the override's value — unrelated keys from both sides survive —
/// and a key both define maps to the merge of the two values.
pub proof fn lemma_merge_lookup(l: SpecValue, r: SpecValue, key: SpecValue)
    requires
        l is Table,
        r is Table,
        crate::value::unique_keys(r->Table_0),
    ensures
        spec_merge(l, r) is Table,
        lookup(spec_merge(l, r)->Table_0, key) == (match (
            lookup(l->Table_0, key),
            lookup(r->Table_0, key),
        ) {
            (Some(lv), Some(rv)) => Some(spec_merge(lv, rv)),
            (Some(lv), None) => Some(lv),
            (None, Some(rv)) => Some(rv),
            (None, None) => None,
        }),
{
    let lm = l->Table_0;
    let rm = r->Table_0;
    lemma_merge_entries_lookup(lm, rm, rm.len() as int, key);
    assert(rm.subrange(0, rm.len() as int) =~= rm);
}

/// Merging never fails and is right-biased on shape conflicts: whenever the
/// two sides are not both tables, the result is the override side whole.
pub proof fn lemma_merge_right_bias(l: SpecValue, r: SpecValue)
    requires
        !(l is Table) || !(r is Table),
    ensures
        spec_merge(l, r) == r,
{
}

/// Merging sources in order, each key ends with the combination of the
/// sides that define it: a key of a single source keeps that source's
/// value; a key of several maps to their left-to-right nested merge, so
/// the rightmost source wins wherever shapes conflict.
pub proof fn lemma_merge_override_order(a: SpecValue, b: SpecValue, c: SpecValue, key: SpecValue)
    requires
        a is Table,
        b is Table,
        c is Table,
        crate::value::unique_keys(b->Table_0),
        crate::value::unique_keys(c->Table_0),
    ensures
        spec_merge(spec_merge(a, b), c) is Table,
        lookup(spec_merge(spec_merge(a, b), c)->Table_0, key) == (match (
            lookup(a->Table_0, key),
            lookup(b->Table_0, key),
            lookup(c->Table_0, key),
        ) {
            (None, None, None) => None::<SpecValue>,
            (Some(x), None, None) => Some(x),
            (None, Some(y), None) => Some(y),
            (None, None, Some(z)) => Some(z),
            (Some(x), Some(y), None) => Some(spec_merge(x, y)),
            (Some(x), None, Some(z)) => Some(spec_merge(x, z)),
            (None, Some(y), Some(z)) => Some(spec_merge(y, z)),
            (Some(x), Some(y), Some(z)) => Some(spec_merge(spec_merge(x, y), z)),
        }),
{
    lemma_merge_lookup(a, b, key);
    lemma_merge_lookup(spec_merge(a, b), c, key);
}

/// One step of merging a well-keyed entry list with itself leaves it as it
/// was, granted every value in it absorbs a merge with itself.
proof fn lemma_merge_entries_idem(es: Seq<(SpecValue, SpecValue)>, n: int)
    requires
        0 <= n <= es.len(),
        crate::value::unique_keys(es),
        forall|i: int| 0 <= i < es.len() ==> spec_merge((#[trigger] es[i]).1, es[i].1) == es[i].1,
    ensures
        merge_entries(es, es, n) == es,
    decreases n,
{
    if n > 0 {
        lemma_merge_entries_idem(es, n - 1);
        let k = es[n - 1].0;
        lemma_find_key_is(es, k, n - 1);
        assert(merge_entries(es, es, n) == es.update(n - 1, (k, spec_merge(es[n - 1].1, es[n
            - 1].1))));
        assert(es.update(n - 1, (k, es[n - 1].1)) =~= es);
    }
}

/// Merging a tree with an exact copy of itself gives the tree back, for
/// every well-formed tree (one whose tables never repeat a key; a table
/// holding the same key twice can grow under such a merge).
pub proof fn lemma_merge_idempotent(v: SpecValue)
    requires
        crate::value::wf(v),
    ensures
        spec_merge(v, v) == v,
    decreases v,
{
    match v {
        SpecValue::Table(es) => {
            assert forall|i: int| 0 <= i < es.len() implies spec_merge(
                (#[trigger] es[i]).1,
                es[i].1,
            ) == es[i].1 by {
                assert(decreases_to!(v => v->Table_0));
                assert(decreases_to!(es => es[i]));
                assert(decreases_to!(es[i] => es[i].1));
                lemma_merge_idempotent(es[i].1);
            }
            lemma_merge_entries_idem(es, es.len() as int);
        },
        _ => {
        },
    }
}

/// One step of the entry fold keeps keys pairwise distinct and all keys
/// and values well-formed, granted every fold of a well-formed value with
/// a right-side value stays well-formed.
proof fn lemma_merge_entries_wf(
    lm: Seq<(SpecValue, SpecValue)>,
    rm: Seq<(SpecValue, SpecValue)>,
    n: int,
)
    requires
        0 <= n <= rm.len(),
        crate::value::unique_keys(lm),
        forall|i: int|
            0 <= i < lm.len() ==> crate::value::wf((#[trigger] lm[i]).0) && crate::value::wf(
                lm[i].1,
            ),
        forall|i: int|
            0 <= i < rm.len() ==> crate::value::wf((#[trigger] rm[i]).0) && crate::value::wf(
                rm[i].1,
            ),
        forall|x: SpecValue, t: int|
            crate::value::wf(x) && 0 <= t < rm.len() ==> crate::value::wf(
                #[trigger] spec_merge(x, rm[t].1),
            ),
    ensures
        crate::value::unique_keys(merge_entries(lm, rm, n)),
        forall|i: int|
            0 <= i < merge_entries(lm, rm, n).len() ==> crate::value::wf(
                (#[trigger] merge_entries(lm, rm, n)[i]).0,
            ) && crate::value::wf(merge_entries(lm, rm, n)[i].1),
    decreases n,
{
    if n > 0 {
        lemma_merge_entries_wf(lm, rm, n - 1);
        let prev = merge_entries(lm, rm, n - 1);
        let k = rm[n - 1].0;
        let v = rm[n - 1].1;
        let at = find_key(prev, k);
        let cur = merge_entries(lm, rm, n);
        lemma_find_key(prev, k);
        if at == -1 {
            assert(cur == prev.push((k, v)));
            assert forall|i: int, j: int| 0 <= i < j < cur.len() implies (
            #[trigger] cur[i]).0 != (#[trigger] cur[j]).0 by {
                if j == cur.len() - 1 {
                    assert(prev[i].0 != k);
                }
            }
        } else {
            assert(cur == prev.update(at, (k, spec_merge(prev[at].1, v))));
            assert(prev[at].0 == k);
            assert forall|i: int, j: int| 0 <= i < j < cur.len() implies (
            #[trigger] cur[i]).0 != (#[trigger] cur[j]).0 by {
                assert(cur[i].0 == prev[i].0);
                assert(cur[j].0 == prev[j].0);
            }
            assert(crate::value::wf(spec_merge(prev[at].1, v)));
        }
    }
}

/// A merge of two well-formed trees is well-formed: a merged table never
/// repeats a key, so the other laws apply to merged configurations in turn.
pub proof fn lemma_merge_preserves_wf(l: SpecValue, r: SpecValue)
    requires
        crate::value::wf(l),
        crate::value::wf(r),
    ensures
        crate::value::wf(spec_merge(l, r)),
    decreases r,
{
    match (l, r) {
        (SpecValue::Table(lm), SpecValue::Table(rm)) => {
            assert forall|x: SpecValue, t: int|
                crate::value::wf(x) && 0 <= t < rm.len() implies crate::value::wf(
                #[trigger] spec_merge(x, rm[t].1),
            ) by {
                assert(decreases_to!(r => r->Table_0));
                assert(decreases_to!(rm => rm[t]));
                assert(decreases_to!(rm[t] => rm[t].1));
                assert(crate::value::wf(rm[t].1));
                lemma_merge_preserves_wf(x, rm[t].1);
            }
            lemma_merge_entries_wf(lm, rm, rm.len() as int);
        },
        _ => {
        },
    }
}

/// The tree merger: combines two value trees into a fresh one.
pub struct DefaultConfigMerger;

impl DefaultConfigMerger {
    /// First index in `entries` whose key equals `key`.
    pub(crate) fn find_entry(entries: &Vec<(ConfigValue, ConfigValue)>, key: &ConfigValue) -> (r: Option<usize>)
        ensures
            match r {
                Some(i) => 0 <= i < entries@.len() && find_key(view_entries(entries@), key@)
                    == i as int,
                None => find_key(view_entries(entries@), key@) == -1,
            },
    {
        proof {
            lemma_view_entries_index(entries@);
        }
        for i in 0..entries.len()
            invariant
                view_entries(entries@).len() == entries@.len(),
                forall|t: int|
                    0 <= t < entries@.len() ==> view_entries(entries@)[t] == (
                        crate::value::value_view(#[trigger] entries@[t].0),
                        crate::value::value_view(entries@[t].1),
                    ),
                forall|t: int| 0 <= t < i ==> (#[trigger] view_entries(entries@)[t]).0 != key@,
        {
            proof {
                lemma_view_entries_index(entries@);
            }
            if entries[i].0.deep_eq(key) {
                proof {
                    lemma_find_key(view_entries(entries@), key@);
                }
                return Some(i);
            }
        }
        proof {
            lemma_find_key(view_entries(entries@), key@);
        }
        None
    }

    /// Clones an entry list, entry by entry.
    fn clone_entries(entries: &Vec<(ConfigValue, ConfigValue)>) -> (r: Vec<(ConfigValue, ConfigValue)>)
        ensures
            view_entries(r@) == view_entries(entries@),
    {
        let mut out: Vec<(ConfigValue, ConfigValue)> = Vec::new();
        proof {
            lemma_view_entries_index(entries@);
        }
        for i in 0..entries.len()
            invariant
                out@.len() == i,
                forall|j: int|
                    0 <= j < i ==> (
                        crate::value::value_view(#[trigger] out@[j].0),
                        crate::value::value_view(out@[j].1),
                    ) == view_entries(entries@)[j],
                view_entries(entries@).len() == entries@.len(),
                forall|j: int|
                    0 <= j < entries@.len() ==> view_entries(entries@)[j] == (
                        crate::value::value_view(#[trigger] entries@[j].0),
                        crate::value::value_view(entries@[j].1),
                    ),
        {
            out.push((entries[i].0.deep_clone(), entries[i].1.deep_clone()));
        }
        proof {
            lemma_view_entries_index(out@);
            assert(out@.len() == entries@.len());
            assert forall|j: int| 0 <= j < out@.len() implies view_entries(out@)[j] == view_entries(
                entries@,
            )[j] by {
                assert((
                    crate::value::value_view(out@[j].0),
                    crate::value::value_view(out@[j].1),
                ) == view_entries(entries@)[j]);
            }
            assert(view_entries(out@) =~= view_entries(entries@));
        }
        out
    }

    /// Deep, right-biased merge of two value trees, read through references;
    /// the result is a fresh tree.
    pub fn merge_trees(left: &ConfigValue, right: &ConfigValue) -> (r: ConfigValue)
        ensures
            r@ == spec_merge(left@, right@),
        decreases *right,
    {
        match (left, right) {
            (ConfigValue::Table(les), ConfigValue::Table(res)) => {
                let ghost lm = view_entries(les@);
                let ghost rm = view_entries(res@);
                proof {
                    lemma_view_entries_index(res@);
                }
                let mut acc = Self::clone_entries(les);
                for j in 0..res.len()
                    invariant
                        *right == ConfigValue::Table(*res),
                        rm == view_entries(res@),
                        rm.len() == res@.len(),
                        forall|t: int|
                            0 <= t < res@.len() ==> rm[t] == (
                                crate::value::value_view(#[trigger] res@[t].0),
                                crate::value::value_view(res@[t].1),
                            ),
                        view_entries(acc@) == merge_entries(lm, rm, j as int),
                {
                    let ghost prev = view_entries(acc@);
                    proof {
                        lemma_view_entries_index(acc@);
                    }
                    let found = Self::find_entry(&acc, &res[j].0);
                    match found {
                        Some(i) => {
                            let ghost before = acc@;
                            proof {
                                lemma_find_key(prev, rm[j as int].0);
                            }
                            let pair = acc.remove(i);
                            proof {
                                assert(decreases_to!(*right => right->Table_0));
                                assert(decreases_to!(*res => res@));
                                assert(decreases_to!(res@ => res@[j as int]));
                                assert(decreases_to!(res@[j as int] => res@[j as int].1));
                            }
                            let merged = Self::merge_trees(&pair.1, &res[j].1);
                            acc.insert(i, (pair.0, merged));
                            proof {
                                lemma_remove_insert(before, i as int, (pair.0, merged));
                                assert(acc@ == before.update(i as int, (pair.0, merged)));
                                lemma_view_entries_index(acc@);
                                assert forall|t: int| 0 <= t < acc@.len() implies view_entries(
                                    acc@,
                                )[t] == merge_entries(lm, rm, j + 1)[t] by {
                                    assert(view_entries(acc@)[t] == (
                                        crate::value::value_view(acc@[t].0),
                                        crate::value::value_view(acc@[t].1),
                                    ));
                                    assert(prev[t] == (
                                        crate::value::value_view(before[t].0),
                                        crate::value::value_view(before[t].1),
                                    ));
                                }
                                assert(view_entries(acc@) =~= merge_entries(lm, rm, j + 1));
                            }
                        },
                        None => {
                            acc.push((res[j].0.deep_clone(), res[j].1.deep_clone()));
                            proof {
                                lemma_view_entries_index(acc@);
                                assert forall|t: int| 0 <= t < acc@.len() implies view_entries(
                                    acc@,
                                )[t] == merge_entries(lm, rm, j + 1)[t] by {
                                    assert(view_entries(acc@)[t] == (
                                        crate::value::value_view(acc@[t].0),
                                        crate::value::value_view(acc@[t].1),
                                    ));
                                }
                                assert(view_entries(acc@) =~= merge_entries(lm, rm, j + 1));
                            }
                        },
                    }
                }
                proof {
                    assert(left@ == SpecValue::Table(lm));
                    assert(right@ == SpecValue::Table(rm));
                }
                ConfigValue::Table(acc)
            },
            _ => right.deep_clone(),
        }
    }

    /// Deep, right-biased merge of two value trees; both inputs are consumed
    /// and a fresh tree is produced.
    pub fn merge(left: ConfigValue, right: ConfigValue) -> (r: ConfigValue)
        ensures
            r@ == spec_merge(left@, right@),
    {
        Self::merge_trees(&left, &right)
    }
}

} // verus!
