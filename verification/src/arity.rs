//! Argument arity: how many positional slots each key needs, and which
//! distinct arities are in use at all.
//!
//! The arity of a key is one more than the largest placeholder index that
//! any variant's compiled template for that key mentions, and zero when no
//! variant's template for it has a placeholder.

use vstd::prelude::*;
use crate::registry::{Variant, VariantV, views};
use crate::strutil::str_eq;
use crate::template::{Segment, SegmentV, segs_view};

verus! {

/// Every placeholder index in the segment list is below `usize::MAX`, so
/// that an arity (index plus one) fits in `usize`.
pub open spec fn segs_ok(segs: Seq<SegmentV>) -> bool {
    forall|t: int|
        0 <= t < segs.len() ==> ((#[trigger] segs[t]).index matches Some(ix) ==> ix
            < usize::MAX)
}

pub open spec fn all_segs_ok(vs: Seq<VariantV>) -> bool {
    forall|i: int, j: int|
        0 <= i < vs.len() && 0 <= j < vs[i].segs.len() ==> segs_ok((#[trigger] vs[i].segs[j]).1)
}

/// One more than the largest placeholder index in one segment list; zero
/// when it has none.
pub open spec fn segs_arity(segs: Seq<SegmentV>) -> int
    decreases segs.len(),
{
    if segs.len() == 0 {
        0
    } else {
        let rest = segs_arity(segs.drop_last());
        match segs.last().index {
            Some(ix) => if ix + 1 > rest {
                ix + 1
            } else {
                rest
            },
            None => rest,
        }
    }
}

/// Largest arity that the entries for key `k` in one variant's segment map
/// contribute.
pub open spec fn entries_arity(ss: Seq<(Seq<char>, Seq<SegmentV>)>, k: Seq<char>) -> int
    decreases ss.len(),
{
    if ss.len() == 0 {
        0
    } else {
        let rest = entries_arity(ss.drop_last(), k);
        if ss.last().0 == k {
            if segs_arity(ss.last().1) > rest {
                segs_arity(ss.last().1)
            } else {
                rest
            }
        } else {
            rest
        }
    }
}

/// The arity of key `k`: the maximum over all variants' compiled templates
/// for `k`.
pub open spec fn key_arity(vs: Seq<VariantV>, k: Seq<char>) -> int
    decreases vs.len(),
{
    if vs.len() == 0 {
        0
    } else {
        let rest = key_arity(vs.drop_last(), k);
        if entries_arity(vs.last().segs, k) > rest {
            entries_arity(vs.last().segs, k)
        } else {
            rest
        }
    }
}

pub proof fn lemma_segs_arity_nonneg(segs: Seq<SegmentV>)
    ensures
        segs_arity(segs) >= 0,
    decreases segs.len(),
{
    if segs.len() > 0 {
        lemma_segs_arity_nonneg(segs.drop_last());
    }
}

proof fn lemma_entries_arity_nonneg(ss: Seq<(Seq<char>, Seq<SegmentV>)>, k: Seq<char>)
    ensures
        entries_arity(ss, k) >= 0,
    decreases ss.len(),
{
    if ss.len() > 0 {
        lemma_entries_arity_nonneg(ss.drop_last(), k);
    }
}

pub proof fn lemma_key_arity_nonneg(vs: Seq<VariantV>, k: Seq<char>)
    ensures
        key_arity(vs, k) >= 0,
    decreases vs.len(),
{
    if vs.len() > 0 {
        lemma_key_arity_nonneg(vs.drop_last(), k);
    }
}

proof fn lemma_segs_arity_bound(segs: Seq<SegmentV>, t: int)
    requires
        0 <= t < segs.len(),
        segs[t].index is Some,
    ensures
        segs[t].index->0 + 1 <= segs_arity(segs),
    decreases segs.len(),
{
    lemma_segs_arity_nonneg(segs.drop_last());
    if t + 1 < segs.len() {
        lemma_segs_arity_bound(segs.drop_last(), t);
    }
}

proof fn lemma_entries_arity_bound(ss: Seq<(Seq<char>, Seq<SegmentV>)>, k: Seq<char>, j: int)
    requires
        0 <= j < ss.len(),
        ss[j].0 == k,
    ensures
        segs_arity(ss[j].1) <= entries_arity(ss, k),
    decreases ss.len(),
{
    lemma_entries_arity_nonneg(ss.drop_last(), k);
    if j + 1 < ss.len() {
        lemma_entries_arity_bound(ss.drop_last(), k, j);
    }
}

proof fn lemma_key_arity_bound(vs: Seq<VariantV>, k: Seq<char>, i: int)
    requires
        0 <= i < vs.len(),
    ensures
        entries_arity(vs[i].segs, k) <= key_arity(vs, k),
    decreases vs.len(),
{
    lemma_key_arity_nonneg(vs.drop_last(), k);
    if i + 1 < vs.len() {
        lemma_key_arity_bound(vs.drop_last(), k, i);
    }
}

/// Every placeholder index that any variant's compiled template for key `k`
/// mentions lies strictly below the arity of `k`: every mentioned slot,
/// and every slot between mentioned ones, is a valid position.
pub proof fn lemma_index_within_arity(vs: Seq<VariantV>, k: Seq<char>, i: int, j: int, t: int)
    requires
        0 <= i < vs.len(),
        0 <= j < vs[i].segs.len(),
        vs[i].segs[j].0 == k,
        0 <= t < vs[i].segs[j].1.len(),
        vs[i].segs[j].1[t].index is Some,
    ensures
        vs[i].segs[j].1[t].index->0 < key_arity(vs, k),
{
    lemma_segs_arity_bound(vs[i].segs[j].1, t);
    lemma_entries_arity_bound(vs[i].segs, k, j);
    lemma_key_arity_bound(vs, k, i);
}

/// One more than the largest placeholder index of one compiled segment
/// list, executably.
pub fn segs_arity_exec(segs: &Vec<Segment>) -> (r: usize)
    requires
        segs_ok(segs_view(segs@)),
    ensures
        r == segs_arity(segs_view(segs@)),
{
    let ghost sv = segs_view(segs@);
    let mut acc: usize = 0;
    let mut t: usize = 0;
    proof {
        assert(sv.subrange(0, 0) =~= Seq::<SegmentV>::empty());
    }
    while t < segs.len()
        invariant
            t <= segs@.len(),
            sv == segs_view(segs@),
            sv.len() == segs@.len(),
            segs_ok(sv),
            acc == segs_arity(sv.subrange(0, t as int)),
        decreases segs@.len() - t,
    {
        proof {
            assert(sv.subrange(0, t + 1).drop_last() =~= sv.subrange(0, t as int));
            assert(sv[t as int] == segs@[t as int]@);
        }
        match segs[t].index {
            Some(ix) => {
                proof {
                    assert(sv[t as int].index == Some(ix));
                    lemma_segs_arity_nonneg(sv.subrange(0, t as int));
                }
                if acc < ix + 1 {
                    acc = ix + 1;
                }
            },
            None => {
                proof {
                    assert(sv[t as int].index is None);
                }
            },
        }
        t += 1;
    }
    proof {
        assert(sv.subrange(0, sv.len() as int) =~= sv);
    }
    acc
}

pub open spec fn kvu_view(r: Seq<(String, usize)>) -> Seq<(Seq<char>, usize)> {
    r.map_values(|p: (String, usize)| (p.0@, p.1))
}

/// Some variant's raw properties mention the key.
pub open spec fn key_in_props(vs: Seq<VariantV>, k: Seq<char>) -> bool {
    exists|a: int, b: int|
        0 <= a < vs.len() && 0 <= b < vs[a].props.len() && (#[trigger] vs[a].props[b]).0 == k
}

pub open spec fn result_has_key(rv: Seq<(Seq<char>, usize)>, k: Seq<char>) -> bool {
    exists|t: int| 0 <= t < rv.len() && (#[trigger] rv[t]).0 == k
}

/// Index of the entry for key `k` in an arity table.
pub fn kvu_get(r: &Vec<(String, usize)>, k: &str) -> (res: Option<usize>)
    ensures
        match res {
            Some(ix) => ix < r@.len() && kvu_view(r@)[ix as int].0 == k@,
            None => !result_has_key(kvu_view(r@), k@),
        },
{
    let mut i: usize = 0;
    while i < r.len()
        invariant
            i <= r@.len(),
            forall|j: int| 0 <= j < i ==> (#[trigger] kvu_view(r@)[j]).0 != k@,
        decreases r@.len() - i,
    {
        if str_eq(r[i].0.as_str(), k) {
            return Some(i);
        }
        i += 1;
    }
    None
}

/// Computes, for every key that any variant's raw properties mention, the
/// arity of that key: the maximum over all variants' compiled templates.
/// The result holds each key exactly once.
#[verifier::loop_isolation(false)]
pub fn find_max_format_index_per_key(variants: &Vec<Variant>) -> (r: Vec<(String, usize)>)
    requires
        all_segs_ok(views(variants@)),
        forall|i: int, j: int|
            0 <= i < views(variants@).len() && 0 <= j < views(variants@)[i].segs.len()
                ==> key_in_props(views(variants@), (#[trigger] views(variants@)[i].segs[j]).0),
    ensures
        forall|a: int, b: int|
            0 <= a < b < r@.len() ==> (#[trigger] kvu_view(r@)[a]).0 != (#[trigger] kvu_view(
                r@,
            )[b]).0,
        forall|i: int, j: int|
            0 <= i < views(variants@).len() && 0 <= j < views(variants@)[i].props.len()
                ==> result_has_key(
                kvu_view(r@),
                (#[trigger] views(variants@)[i].props[j]).0,
            ),
        forall|t: int|
            0 <= t < r@.len() ==> {
                &&& key_in_props(views(variants@), (#[trigger] kvu_view(r@)[t]).0)
                &&& kvu_view(r@)[t].1 == key_arity(views(variants@), kvu_view(r@)[t].0)
            },
{
    let ghost vs = views(variants@);
    let n = variants.len();
    let mut r: Vec<(String, usize)> = Vec::new();
    let mut i: usize = 0;
    while i < n
        invariant
            i <= n,
            forall|a: int, b: int|
                0 <= a < b < r@.len() ==> (#[trigger] kvu_view(r@)[a]).0 != (#[trigger] kvu_view(
                    r@,
                )[b]).0,
            forall|t: int|
                0 <= t < r@.len() ==> key_in_props(vs, (#[trigger] kvu_view(r@)[t]).0)
                    && kvu_view(r@)[t].1 == 0,
            forall|a: int, b: int|
                0 <= a < i && 0 <= b < vs[a].props.len() ==> result_has_key(
                    kvu_view(r@),
                    (#[trigger] vs[a].props[b]).0,
                ),
        decreases n - i,
    {
        let v = &variants[i];
        let mut j: usize = 0;
        while j < v.properties.len()
            invariant
                j <= v.properties@.len(),
                forall|a: int, b: int|
                    0 <= a < b < r@.len() ==> (#[trigger] kvu_view(r@)[a]).0 != (
                    #[trigger] kvu_view(r@)[b]).0,
                forall|t: int|
                    0 <= t < r@.len() ==> key_in_props(vs, (#[trigger] kvu_view(r@)[t]).0)
                        && kvu_view(r@)[t].1 == 0,
                forall|a: int, b: int|
                    0 <= a < i && 0 <= b < vs[a].props.len() ==> result_has_key(
                        kvu_view(r@),
                        (#[trigger] vs[a].props[b]).0,
                    ),
                forall|b: int|
                    0 <= b < j ==> result_has_key(kvu_view(r@), (#[trigger] vs[i as int].props[b]).0),
            decreases v.properties@.len() - j,
        {
            let key = &v.properties[j].0;
            proof {
                assert(vs[i as int].props[j as int].0 == key@);
            }
            if kvu_get(&r, key.as_str()).is_none() {
                let ghost r0 = r@;
                r.push((key.clone(), 0));
                proof {
                    assert(forall|t: int|
                        0 <= t < r0.len() ==> #[trigger] kvu_view(r@)[t] == kvu_view(r0)[t]);
                    assert(kvu_view(r@)[r0.len() as int] == (key@, 0usize));
                    assert forall|k: Seq<char>| result_has_key(kvu_view(r0), k) implies
                        result_has_key(kvu_view(r@), k) by {
                        let t = choose|t: int|
                            0 <= t < kvu_view(r0).len() && (#[trigger] kvu_view(r0)[t]).0 == k;
                        assert(kvu_view(r@)[t].0 == k);
                    };
                    assert(result_has_key(kvu_view(r@), key@));
                }
            }
            j += 1;
        }
        i += 1;
    }
    // second pass: raise each key's value to the largest arity any variant's
    // compiled templates give it
    let mut i2: usize = 0;
    proof {
        assert(vs.subrange(0, 0) =~= Seq::<VariantV>::empty());
    }
    while i2 < n
        invariant
            i2 <= n,
            forall|a: int, b: int|
                0 <= a < b < r@.len() ==> (#[trigger] kvu_view(r@)[a]).0 != (#[trigger] kvu_view(
                    r@,
                )[b]).0,
            forall|a: int, b: int|
                0 <= a < vs.len() && 0 <= b < vs[a].props.len() ==> result_has_key(
                    kvu_view(r@),
                    (#[trigger] vs[a].props[b]).0,
                ),
            forall|t: int|
                0 <= t < r@.len() ==> key_in_props(vs, (#[trigger] kvu_view(r@)[t]).0)
                    && kvu_view(r@)[t].1 == key_arity(vs.subrange(0, i2 as int), kvu_view(r@)[t].0),
        decreases n - i2,
    {
        let v = &variants[i2];
        let mut j2: usize = 0;
        proof {
            assert(vs[i2 as int].segs.subrange(0, 0) =~= Seq::<(Seq<char>, Seq<SegmentV>)>::empty());
        }
        while j2 < v.segments.len()
            invariant
                j2 <= v.segments@.len(),
                vs[i2 as int].segs.len() == v.segments@.len(),
                forall|a: int, b: int|
                    0 <= a < b < r@.len() ==> (#[trigger] kvu_view(r@)[a]).0 != (
                    #[trigger] kvu_view(r@)[b]).0,
                forall|a: int, b: int|
                    0 <= a < vs.len() && 0 <= b < vs[a].props.len() ==> result_has_key(
                        kvu_view(r@),
                        (#[trigger] vs[a].props[b]).0,
                    ),
                forall|t: int|
                    0 <= t < r@.len() ==> key_in_props(vs, (#[trigger] kvu_view(r@)[t]).0) && ({
                        let k = kvu_view(r@)[t].0;
                        let base = key_arity(vs.subrange(0, i2 as int), k);
                        let part = entries_arity(vs[i2 as int].segs.subrange(0, j2 as int), k);
                        kvu_view(r@)[t].1 == if part > base {
                            part
                        } else {
                            base
                        }
                    }),
            decreases v.segments@.len() - j2,
        {
            let entry = &v.segments[j2];
            proof {
                assert(vs[i2 as int].segs[j2 as int] == (entry.0@, segs_view(entry.1@)));
                assert(segs_ok(segs_view(entry.1@)));
            }
            let m = segs_arity_exec(&entry.1);
            let ghost k0 = entry.0@;
            let ix = match kvu_get(&r, entry.0.as_str()) {
                Some(ix) => ix,
                None => {
                    proof {
                        assert(key_in_props(vs, k0));
                        assert(false);
                    }
                    0
                },
            };
            let ghost r0 = r@;
            if r[ix].1 < m {
                let kstr = r[ix].0.clone();
                r.set(ix, (kstr, m));
            }
            proof {
                assert(forall|t: int|
                    0 <= t < r@.len() && t != ix ==> #[trigger] kvu_view(r@)[t] == kvu_view(
                        r0,
                    )[t]);
                assert(kvu_view(r@)[ix as int].0 == kvu_view(r0)[ix as int].0);
                assert(vs[i2 as int].segs.subrange(0, j2 + 1).drop_last() =~= vs[
                    i2 as int
                ].segs.subrange(0, j2 as int));
                assert(forall|t: int|
                    0 <= t < r@.len() ==> key_in_props(vs, (#[trigger] kvu_view(r@)[t]).0));
                assert forall|a: int, b: int|
                    0 <= a < vs.len() && 0 <= b < vs[a].props.len() implies result_has_key(
                    kvu_view(r@),
                    (#[trigger] vs[a].props[b]).0,
                ) by {
                    let k = vs[a].props[b].0;
                    assert(result_has_key(kvu_view(r0), k));
                    let t = choose|t: int|
                        0 <= t < kvu_view(r0).len() && (#[trigger] kvu_view(r0)[t]).0 == k;
                    assert(kvu_view(r@)[t].0 == k);
                };
                assert forall|t: int| 0 <= t < r@.len() implies ({
                    let k = (#[trigger] kvu_view(r@)[t]).0;
                    let base = key_arity(vs.subrange(0, i2 as int), k);
                    let part = entries_arity(vs[i2 as int].segs.subrange(0, j2 + 1), k);
                    kvu_view(r@)[t].1 == if part > base {
                        part
                    } else {
                        base
                    }
                }) by {
                    let k = kvu_view(r@)[t].0;
                    assert(kvu_view(r0)[t].0 == k);
                    if t != ix as int && k == k0 {
                        assert(kvu_view(r@)[ix as int].0 == k0);
                        assert(false);
                    }
                }
            }
            j2 += 1;
        }
        proof {
            assert(vs.subrange(0, i2 + 1).drop_last() =~= vs.subrange(0, i2 as int));
            assert(vs.subrange(0, i2 + 1).last() == vs[i2 as int]);
            assert(vs[i2 as int].segs.subrange(0, j2 as int) =~= vs[i2 as int].segs);
        }
        i2 += 1;
    }
    proof {
        assert(vs.subrange(0, n as int) =~= vs);
    }
    r
}

/// Collects, in ascending order and without repetition, every arity that
/// any single variant's compiled template contributes, together with zero.
#[verifier::loop_isolation(false)]
pub fn find_all_format_indices(variants: &Vec<Variant>) -> (r: Vec<usize>)
    requires
        all_segs_ok(views(variants@)),
    ensures
        forall|a: int, b: int| 0 <= a < b < r@.len() ==> r@[a] < r@[b],
        forall|x: usize|
            #[trigger] r@.contains(x) <==> (x == 0 || exists|i: int, j: int|
                0 <= i < views(variants@).len() && 0 <= j < views(variants@)[i].segs.len()
                    && segs_arity((#[trigger] views(variants@)[i].segs[j]).1) == x),
{
    let ghost vs = views(variants@);
    let n = variants.len();
    let mut r: Vec<usize> = Vec::new();
    r.push(0);
    proof {
        assert(r@ =~= seq![0usize]);
        assert(r@[0] == 0usize);
        assert(r@.contains(0usize));
        assert forall|x: usize| #[trigger] r@.contains(x) implies x == 0 by {
            let w = choose|w: int| 0 <= w < r@.len() && r@[w] == x;
        };
    }
    let mut i: usize = 0;
    while i < n
        invariant
            i <= n,
            forall|a: int, b: int| 0 <= a < b < r@.len() ==> r@[a] < r@[b],
            forall|x: usize|
                #[trigger] r@.contains(x) <==> (x == 0 || exists|a: int, b: int|
                    0 <= a < i && 0 <= b < vs[a].segs.len() && segs_arity(
                        (#[trigger] vs[a].segs[b]).1,
                    ) == x),
        decreases n - i,
    {
        let v = &variants[i];
        let mut j: usize = 0;
        while j < v.segments.len()
            invariant
                j <= v.segments@.len(),
                vs[i as int].segs.len() == v.segments@.len(),
                forall|a: int, b: int| 0 <= a < b < r@.len() ==> r@[a] < r@[b],
                forall|x: usize|
                    #[trigger] r@.contains(x) <==> (x == 0 || (exists|a: int, b: int|
                        0 <= a < i && 0 <= b < vs[a].segs.len() && segs_arity(
                            (#[trigger] vs[a].segs[b]).1,
                        ) == x) || (exists|b: int|
                        0 <= b < j && segs_arity((#[trigger] vs[i as int].segs[b]).1) == x)),
            decreases v.segments@.len() - j,
        {
            let entry = &v.segments[j];
            proof {
                assert(vs[i as int].segs[j as int] == (entry.0@, segs_view(entry.1@)));
                assert(segs_ok(segs_view(entry.1@)));
            }
            let m = segs_arity_exec(&entry.1);
            insert_sorted(&mut r, m);
            proof {
                assert(segs_arity(vs[i as int].segs[j as int].1) == m);
            }
            j += 1;
        }
        i += 1;
    }
    r
}

/// Inserts a value into a strictly ascending vector, keeping it strictly
/// ascending; a value already present is left alone.
fn insert_sorted(r: &mut Vec<usize>, m: usize)
    requires
        forall|a: int, b: int| 0 <= a < b < old(r)@.len() ==> old(r)@[a] < old(r)@[b],
    ensures
        forall|a: int, b: int| 0 <= a < b < final(r)@.len() ==> final(r)@[a] < final(r)@[b],
        forall|x: usize| #[trigger] final(r)@.contains(x) <==> (old(r)@.contains(x) || x == m),
{
    let mut p: usize = 0;
    while p < r.len() && r[p] < m
        invariant
            p <= r@.len(),
            r@ == old(r)@,
            forall|a: int| 0 <= a < p ==> r@[a] < m,
        decreases r@.len() - p,
    {
        p += 1;
    }
    if p < r.len() && r[p] == m {
        proof {
            assert(r@.contains(r@[p as int]));
        }
        return ;
    }
    let ghost r0 = r@;
    r.insert(p, m);
    proof {
        assert(forall|a: int| 0 <= a < p ==> r@[a] == r0[a]);
        assert(r@[p as int] == m);
        assert(forall|a: int| p < a < r@.len() ==> r@[a] == r0[a - 1]);
        assert forall|x: usize| #[trigger] r@.contains(x) implies (r0.contains(x) || x == m) by {
            let w = choose|w: int| 0 <= w < r@.len() && r@[w] == x;
            if w < p as int {
                assert(r0[w] == x);
            } else if w > p as int {
                assert(r0[w - 1] == x);
            }
        }
        assert forall|x: usize| r0.contains(x) implies #[trigger] r@.contains(x) by {
            let w = choose|w: int| 0 <= w < r0.len() && r0[w] == x;
            if w < p as int {
                assert(r@[w] == x);
            } else {
                assert(r@[w + 1] == x);
            }
        }
        assert(r@.contains(m));
    }
}

} // verus!

