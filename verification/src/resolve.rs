//! Fallback resolution: filling every variant's key set up to parity with
//! the default language.
//!
//! Resolution walks the variants in declaration order and reads from a
//! running lookup table that starts with all declared variants in their raw
//! state and is updated as each variant finishes. A fallback declared
//! earlier than the variant that consults it is therefore seen fully
//! resolved; one declared later is seen raw. This order dependence is part
//! of the contract, not an accident.

use vstd::prelude::*;
use crate::registry::{
    Variant,
    VariantV,
    views,
    props_view,
    segmap_view,
    kv_lookup,
    kv_contains,
    has_name,
    index_of_name,
    valid_fallbacks,
    find_variant,
    clone_props,
    props_get,
    lemma_index_of_name,
};
use crate::strutil::clone_string_vec;
use crate::template::Segment;

verus! {

/// Raw properties of the variant named by the default name.
pub open spec fn default_props_of(vs: Seq<VariantV>, dname: Seq<char>) -> Seq<
    (Seq<char>, Seq<char>),
> {
    vs[index_of_name(vs, dname)].props
}

/// The lookup table as variant `i` sees it: variants finished before `i`
/// appear resolved, all others raw.
pub open spec fn table_props(
    vs: Seq<VariantV>,
    defaults: Seq<(Seq<char>, Seq<char>)>,
    i: int,
    name: Seq<char>,
) -> Seq<(Seq<char>, Seq<char>)>
    decreases i, 0int, 0int, 0int,
{
    let j = index_of_name(vs, name);
    if 0 <= j < vs.len() {
        if j < i {
            resolved_props(vs, defaults, j)
        } else {
            vs[j].props
        }
    } else {
        Seq::empty()
    }
}

/// Value chosen for a key missing from variant `i`: the first fallback whose
/// table entry holds the key, else the default value `dv`.
pub open spec fn chosen_value(
    vs: Seq<VariantV>,
    defaults: Seq<(Seq<char>, Seq<char>)>,
    i: int,
    fbs: Seq<Seq<char>>,
    k: Seq<char>,
    dv: Seq<char>,
    fi: int,
) -> Seq<char>
    decreases i, 1int, 0int, fbs.len() - fi,
{
    if fi < 0 || fi >= fbs.len() {
        dv
    } else {
        match kv_lookup(table_props(vs, defaults, i, fbs[fi]), k) {
            Some(v) => v,
            None => chosen_value(vs, defaults, i, fbs, k, dv, fi + 1),
        }
    }
}

/// Properties of variant `i` after the default keys from position `di` on
/// have been filled into the accumulator `acc`.
pub open spec fn fill_props(
    vs: Seq<VariantV>,
    defaults: Seq<(Seq<char>, Seq<char>)>,
    i: int,
    acc: Seq<(Seq<char>, Seq<char>)>,
    di: int,
) -> Seq<(Seq<char>, Seq<char>)>
    decreases i, 2int, defaults.len() - di, 0int,
{
    if di < 0 || di >= defaults.len() {
        acc
    } else {
        let k = defaults[di].0;
        let dv = defaults[di].1;
        if kv_contains(acc, k) {
            fill_props(vs, defaults, i, acc, di + 1)
        } else {
            fill_props(
                vs,
                defaults,
                i,
                acc.push((k, chosen_value(vs, defaults, i, vs[i].fallbacks, k, dv, 0))),
                di + 1,
            )
        }
    }
}

/// The fully resolved properties of variant `i`.
pub open spec fn resolved_props(
    vs: Seq<VariantV>,
    defaults: Seq<(Seq<char>, Seq<char>)>,
    i: int,
) -> Seq<(Seq<char>, Seq<char>)>
    decreases i, 3int, 0int, 0int,
{
    if i < 0 || i >= vs.len() {
        Seq::empty()
    } else {
        fill_props(vs, defaults, i, vs[i].props, 0)
    }
}

/// Filling keeps every key the accumulator already had, with its value, and
/// adds an entry for every default key from `di` on.
pub proof fn lemma_fill_contains(
    vs: Seq<VariantV>,
    defaults: Seq<(Seq<char>, Seq<char>)>,
    i: int,
    acc: Seq<(Seq<char>, Seq<char>)>,
    di: int,
)
    requires
        0 <= di <= defaults.len(),
    ensures
        forall|k: Seq<char>|
            kv_lookup(acc, k) is Some ==> kv_lookup(fill_props(vs, defaults, i, acc, di), k)
                == kv_lookup(acc, k),
        forall|e: int|
            di <= e < defaults.len() ==> kv_contains(
                fill_props(vs, defaults, i, acc, di),
                (#[trigger] defaults[e]).0,
            ),
    decreases defaults.len() - di,
{
    if di < defaults.len() {
        let k = defaults[di].0;
        let dv = defaults[di].1;
        if kv_contains(acc, k) {
            lemma_fill_contains(vs, defaults, i, acc, di + 1);
        } else {
            let acc2 = acc.push((k, chosen_value(vs, defaults, i, vs[i].fallbacks, k, dv, 0)));
            lemma_fill_contains(vs, defaults, i, acc2, di + 1);
            assert forall|k2: Seq<char>| kv_lookup(acc, k2) is Some implies kv_lookup(
                acc2,
                k2,
            ) == kv_lookup(acc, k2) by {
                crate::registry::lemma_kv_lookup_push(
                    acc,
                    (k, chosen_value(vs, defaults, i, vs[i].fallbacks, k, dv, 0)),
                    k2,
                );
            };
            crate::registry::lemma_kv_lookup_push(
                acc,
                (k, chosen_value(vs, defaults, i, vs[i].fallbacks, k, dv, 0)),
                k,
            );
        }
    }
}

/// After resolution no variant's properties are partial: every default key
/// has a value in every resolved variant.
pub proof fn lemma_resolved_covers(
    vs: Seq<VariantV>,
    defaults: Seq<(Seq<char>, Seq<char>)>,
    i: int,
    e: int,
)
    requires
        0 <= i < vs.len(),
        0 <= e < defaults.len(),
    ensures
        kv_contains(resolved_props(vs, defaults, i), defaults[e].0),
{
    lemma_fill_contains(vs, defaults, i, vs[i].props, 0);
}

/// Filling an accumulator that already holds every default key changes
/// nothing.
pub proof fn lemma_fill_id(
    vs: Seq<VariantV>,
    defaults: Seq<(Seq<char>, Seq<char>)>,
    i: int,
    acc: Seq<(Seq<char>, Seq<char>)>,
    di: int,
)
    requires
        0 <= di <= defaults.len(),
        forall|e: int| 0 <= e < defaults.len() ==> kv_contains(acc, (#[trigger] defaults[e]).0),
    ensures
        fill_props(vs, defaults, i, acc, di) == acc,
    decreases defaults.len() - di,
{
    if di < defaults.len() {
        lemma_fill_id(vs, defaults, i, acc, di + 1);
    }
}

/// The default variant, holding every default key already, resolves to its
/// raw self.
pub proof fn lemma_resolved_default(vs: Seq<VariantV>, dname: Seq<char>)
    requires
        has_name(vs, dname),
    ensures
        resolved_props(vs, default_props_of(vs, dname), index_of_name(vs, dname))
            == default_props_of(vs, dname),
{
    lemma_index_of_name(vs, dname);
    let dix = index_of_name(vs, dname);
    let defaults = vs[dix].props;
    assert forall|e: int| 0 <= e < defaults.len() implies kv_contains(
        vs[dix].props,
        (#[trigger] defaults[e]).0,
    ) by {
        crate::registry::lemma_kv_contains_own(defaults, e);
    };
    lemma_fill_id(vs, defaults, dix, vs[dix].props, 0);
}

proof fn lemma_fill_missing(
    vs: Seq<VariantV>,
    defaults: Seq<(Seq<char>, Seq<char>)>,
    i: int,
    acc: Seq<(Seq<char>, Seq<char>)>,
    di: int,
    d: int,
)
    requires
        0 <= di <= d < defaults.len(),
        forall|e: int| di <= e < d ==> (#[trigger] defaults[e]).0 != defaults[d].0,
        !kv_contains(acc, defaults[d].0),
    ensures
        kv_lookup(fill_props(vs, defaults, i, acc, di), defaults[d].0) == Some(
            chosen_value(vs, defaults, i, vs[i].fallbacks, defaults[d].0, defaults[d].1, 0),
        ),
    decreases d - di,
{
    let k = defaults[d].0;
    if di == d {
        let c = chosen_value(vs, defaults, i, vs[i].fallbacks, k, defaults[d].1, 0);
        let acc2 = acc.push((k, c));
        crate::registry::lemma_kv_lookup_push(acc, (k, c), k);
        assert(kv_lookup(acc2, k) == Some(c));
        lemma_fill_contains(vs, defaults, i, acc2, di + 1);
    } else {
        let k0 = defaults[di].0;
        if kv_contains(acc, k0) {
            lemma_fill_missing(vs, defaults, i, acc, di + 1, d);
        } else {
            let c0 = chosen_value(vs, defaults, i, vs[i].fallbacks, k0, defaults[di].1, 0);
            let acc2 = acc.push((k0, c0));
            crate::registry::lemma_kv_lookup_push(acc, (k0, c0), k);
            assert(!kv_contains(acc2, k));
            lemma_fill_missing(vs, defaults, i, acc2, di + 1, d);
        }
    }
}

/// A default key that variant `i` misses resolves to its chosen value: the
/// first fallback whose table entry holds it, else the default's own value.
pub proof fn lemma_resolved_missing(
    vs: Seq<VariantV>,
    defaults: Seq<(Seq<char>, Seq<char>)>,
    i: int,
    k: Seq<char>,
)
    requires
        0 <= i < vs.len(),
        kv_contains(defaults, k),
        !kv_contains(vs[i].props, k),
    ensures
        kv_lookup(resolved_props(vs, defaults, i), k) == Some(
            chosen_value(vs, defaults, i, vs[i].fallbacks, k, kv_lookup(defaults, k)->0, 0),
        ),
{
    crate::registry::lemma_kv_index(defaults, k);
    lemma_fill_missing(vs, defaults, i, vs[i].props, 0, crate::registry::kv_index(defaults, k));
}

/// Fallback determinism through declaration order: with variants declared
/// as [A (the default), B (fallback A), C (fallback B)] and a default key
/// that B and C both miss, B is resolved before C consults it, so C takes
/// B's resolved value, which B took from A: the chain resolves
/// transitively because each fallback stands earlier in the declaration
/// order than the variant that consults it.
pub proof fn lemma_fallback_chain_transitive(vs: Seq<VariantV>, k: Seq<char>)
    requires
        vs.len() == 3,
        vs[1].name != vs[0].name,
        vs[2].name != vs[0].name,
        vs[2].name != vs[1].name,
        vs[1].fallbacks == seq![vs[0].name],
        vs[2].fallbacks == seq![vs[1].name],
        kv_contains(vs[0].props, k),
        !kv_contains(vs[1].props, k),
        !kv_contains(vs[2].props, k),
    ensures
        kv_lookup(resolved_props(vs, vs[0].props, 1), k) == kv_lookup(vs[0].props, k),
        kv_lookup(resolved_props(vs, vs[0].props, 2), k) == kv_lookup(vs[0].props, k),
{
    let defaults = vs[0].props;
    crate::registry::lemma_kv_index(defaults, k);
    let dv = kv_lookup(defaults, k)->0;
    assert(has_name(vs, vs[0].name));
    assert(index_of_name(vs, vs[0].name) == 0);
    lemma_resolved_default(vs, vs[0].name);
    assert(resolved_props(vs, defaults, 0) == defaults);
    // B consults A, declared earlier, hence fully resolved
    lemma_resolved_missing(vs, defaults, 1, k);
    assert(vs[1].fallbacks[0] == vs[0].name);
    assert(table_props(vs, defaults, 1, vs[0].name) == defaults);
    assert(chosen_value(vs, defaults, 1, vs[1].fallbacks, k, dv, 0) == dv);
    assert(kv_lookup(resolved_props(vs, defaults, 1), k) == Some(dv));
    // C consults B, declared earlier, hence already resolved to A's value
    lemma_resolved_missing(vs, defaults, 2, k);
    assert(vs[2].fallbacks[0] == vs[1].name);
    lemma_index_of_name(vs, vs[1].name);
    assert(vs[1].name == vs.drop_first()[0].name);
    assert(has_name(vs, vs[1].name));
    assert(index_of_name(vs, vs[1].name) == 1);
    assert(table_props(vs, defaults, 2, vs[1].name) == resolved_props(vs, defaults, 1));
    assert(chosen_value(vs, defaults, 2, vs[2].fallbacks, k, dv, 0) == dv);
}

/// Copies a compiled segment list.
pub fn clone_segs(v: &Vec<Segment>) -> (r: Vec<Segment>)
    ensures
        r@ == v@,
{
    let mut r: Vec<Segment> = Vec::new();
    let mut i: usize = 0;
    while i < v.len()
        invariant
            i <= v@.len(),
            r@ =~= v@.subrange(0, i as int),
        decreases v@.len() - i,
    {
        r.push(Segment { literal: v[i].literal.clone(), index: v[i].index });
        i += 1;
    }
    proof {
        assert(r@ =~= v@);
    }
    r
}

/// Copies a key-to-segment-list association list.
pub fn clone_segmap(v: &Vec<(String, Vec<Segment>)>) -> (r: Vec<(String, Vec<Segment>)>)
    ensures
        segmap_view(r@) == segmap_view(v@),
{
    let mut r: Vec<(String, Vec<Segment>)> = Vec::new();
    let mut i: usize = 0;
    while i < v.len()
        invariant
            i <= v@.len(),
            r@.len() == i,
            segmap_view(r@) =~= segmap_view(v@).subrange(0, i as int),
        decreases v@.len() - i,
    {
        r.push((v[i].0.clone(), clone_segs(&v[i].1)));
        proof {
            assert(segmap_view(r@) =~= segmap_view(v@).subrange(0, i + 1));
        }
        i += 1;
    }
    proof {
        assert(segmap_view(r@) =~= segmap_view(v@));
    }
    r
}

/// Resolves every variant's properties up to key parity with the default
/// language, in declaration order, against the progressively updated table.
#[verifier::loop_isolation(false)]
pub fn resolve_fallbacks_properties(default_name: &str, variants: Vec<Variant>) -> (res: Vec<
    Variant,
>)
    requires
        has_name(views(variants@), default_name@),
        valid_fallbacks(views(variants@)),
    ensures
        res@.len() == variants@.len(),
        forall|i: int|
            #![trigger views(res@)[i]]
            0 <= i < res@.len() ==> {
                &&& views(res@)[i].name == views(variants@)[i].name
                &&& views(res@)[i].path == views(variants@)[i].path
                &&& views(res@)[i].fallbacks == views(variants@)[i].fallbacks
                &&& views(res@)[i].segs == views(variants@)[i].segs
                &&& views(res@)[i].props == resolved_props(
                    views(variants@),
                    default_props_of(views(variants@), default_name@),
                    i,
                )
            },
{
    let ghost vs = views(variants@);
    let dix = match find_variant(&variants, default_name) {
        Some(ix) => ix,
        None => {
            proof {
                assert(false);
            }
            0
        },
    };
    proof {
        lemma_index_of_name(vs, default_name@);
    }
    let default_props = clone_props(&variants[dix].properties);
    let ghost defaults = props_view(default_props@);
    proof {
        assert(defaults == default_props_of(vs, default_name@));
    }
    let n = variants.len();
    let mut res: Vec<Variant> = Vec::new();
    let mut i: usize = 0;
    while i < n
        invariant
            i <= n,
            res@.len() == i,
            forall|j: int|
                #![trigger views(res@)[j]]
                0 <= j < i ==> {
                    &&& views(res@)[j].name == vs[j].name
                    &&& views(res@)[j].path == vs[j].path
                    &&& views(res@)[j].fallbacks == vs[j].fallbacks
                    &&& views(res@)[j].segs == vs[j].segs
                    &&& views(res@)[j].props == resolved_props(vs, defaults, j)
                },
        decreases n - i,
    {
        let v = &variants[i];
        let mut new_props = clone_props(&v.properties);
        proof {
            assert(props_view(new_props@) == vs[i as int].props);
        }
        let mut d: usize = 0;
        while d < default_props.len()
            invariant
                d <= default_props@.len(),
                fill_props(vs, defaults, i as int, props_view(new_props@), d as int)
                    == resolved_props(vs, defaults, i as int),
            decreases default_props@.len() - d,
        {
            let ghost acc0 = props_view(new_props@);
            let key = &default_props[d].0;
            proof {
                assert(defaults[d as int] == (default_props@[d as int].0@, default_props@[
                    d as int
                ].1@));
            }
            if props_get(&new_props, key.as_str()).is_none() {
                let ghost fbs = vs[i as int].fallbacks;
                let ghost dvv = defaults[d as int].1;
                let mut chosen_val: Option<String> = None;
                let mut f: usize = 0;
                while f < v.fallbacks.len()
                    invariant
                        f <= v.fallbacks@.len(),
                        fbs.len() == v.fallbacks@.len(),
                        match chosen_val {
                            None => chosen_value(vs, defaults, i as int, fbs, key@, dvv, 0)
                                == chosen_value(vs, defaults, i as int, fbs, key@, dvv, f as int),
                            Some(s) => chosen_value(vs, defaults, i as int, fbs, key@, dvv, 0)
                                == s@,
                        },
                    decreases v.fallbacks@.len() - f,
                {
                    if chosen_val.is_none() {
                        let fb = &v.fallbacks[f];
                        proof {
                            assert(fbs[f as int] == fb@);
                            assert(has_name(vs, fb@));
                            lemma_index_of_name(vs, fb@);
                        }
                        let j = match find_variant(&variants, fb.as_str()) {
                            Some(j) => j,
                            None => {
                                proof {
                                    assert(false);
                                }
                                0
                            },
                        };
                        let props_j: &Vec<(String, String)> = if j < i {
                            proof {
                                assert(views(res@)[j as int].props == resolved_props(
                                    vs,
                                    defaults,
                                    j as int,
                                ));
                            }
                            &res[j].properties
                        } else {
                            proof {
                                assert(vs[j as int].props == props_view(
                                    variants@[j as int].properties@,
                                ));
                            }
                            &variants[j].properties
                        };
                        proof {
                            assert(props_view(props_j@) == table_props(
                                vs,
                                defaults,
                                i as int,
                                fb@,
                            ));
                        }
                        match props_get(props_j, key.as_str()) {
                            Some(ix) => {
                                chosen_val = Some(props_j[ix].1.clone());
                            },
                            None => {},
                        }
                    }
                    f += 1;
                }
                let value = match chosen_val {
                    Some(s) => s,
                    None => default_props[d].1.clone(),
                };
                proof {
                    assert(value@ == chosen_value(vs, defaults, i as int, fbs, key@, dvv, 0));
                }
                new_props.push((key.clone(), value));
                proof {
                    assert(props_view(new_props@) =~= acc0.push((key@, chosen_value(
                        vs,
                        defaults,
                        i as int,
                        fbs,
                        key@,
                        dvv,
                        0,
                    ))));
                }
            }
            d += 1;
        }
        let ghost r0 = res@;
        res.push(
            Variant {
                name: v.name.clone(),
                path: v.path.clone(),
                fallbacks: clone_string_vec(&v.fallbacks),
                properties: new_props,
                segments: clone_segmap(&v.segments),
            },
        );
        proof {
            assert(views(res@)[i as int].props == resolved_props(vs, defaults, i as int));
            assert(views(res@)[i as int].name == vs[i as int].name);
            assert(views(res@)[i as int].path == vs[i as int].path);
            assert(views(res@)[i as int].fallbacks =~= vs[i as int].fallbacks);
            assert(views(res@)[i as int].segs =~= vs[i as int].segs);
            assert forall|j: int|
                #![trigger views(res@)[j]]
                0 <= j < i + 1 implies {
                &&& views(res@)[j].name == vs[j].name
                &&& views(res@)[j].path == vs[j].path
                &&& views(res@)[j].fallbacks == vs[j].fallbacks
                &&& views(res@)[j].segs == vs[j].segs
                &&& views(res@)[j].props == resolved_props(vs, defaults, j)
            } by {
                if j < i as int {
                    assert(views(res@)[j] == views(r0)[j]);
                }
            }
        }
        i += 1;
    }
    res
}

} // verus!
