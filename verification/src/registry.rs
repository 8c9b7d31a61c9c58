//! The declared language variants, their mathematical model, and the
//! build-time validation queries.
//!
//! A variant is one declared language: its unique name, the identifier of its
//! source resource, its ordered fallback chain, its raw key/value template
//! strings, and (once compiled) the segment lists of those strings. Property
//! maps are association lists looked up by first match.

use vstd::prelude::*;
use crate::strutil::str_eq;
use crate::template::{Segment, SegmentV, segs_view};

verus! {

/// One declared language variant.
pub struct Variant {
    /// Unique language name.
    pub name: String,
    /// Identifier of the resource the raw properties came from.
    pub path: String,
    /// Ordered fallback language names; empty for the default variant.
    pub fallbacks: Vec<String>,
    /// Raw key/value template strings; keys unique.
    pub properties: Vec<(String, String)>,
    /// Key to compiled segment list, filled by the template compiler.
    pub segments: Vec<(String, Vec<Segment>)>,
}

/// The mathematical shape of a [`Variant`].
#[verifier::ext_equal]
pub struct VariantV {
    pub name: Seq<char>,
    pub path: Seq<char>,
    pub fallbacks: Seq<Seq<char>>,
    pub props: Seq<(Seq<char>, Seq<char>)>,
    pub segs: Seq<(Seq<char>, Seq<SegmentV>)>,
}

pub open spec fn props_view(ps: Seq<(String, String)>) -> Seq<(Seq<char>, Seq<char>)> {
    ps.map_values(|p: (String, String)| (p.0@, p.1@))
}

pub open spec fn segmap_view(ss: Seq<(String, Vec<Segment>)>) -> Seq<(Seq<char>, Seq<SegmentV>)> {
    ss.map_values(|e: (String, Vec<Segment>)| (e.0@, segs_view(e.1@)))
}

impl View for Variant {
    type V = VariantV;

    open spec fn view(&self) -> VariantV {
        VariantV {
            name: self.name@,
            path: self.path@,
            fallbacks: self.fallbacks@.map_values(|f: String| f@),
            props: props_view(self.properties@),
            segs: segmap_view(self.segments@),
        }
    }
}

pub open spec fn views(vs: Seq<Variant>) -> Seq<VariantV> {
    vs.map_values(|v: Variant| v@)
}

/// First-match lookup in an association list of key/value pairs.
pub open spec fn kv_lookup(ps: Seq<(Seq<char>, Seq<char>)>, k: Seq<char>) -> Option<Seq<char>>
    decreases ps.len(),
{
    if ps.len() == 0 {
        None
    } else if ps[0].0 == k {
        Some(ps[0].1)
    } else {
        kv_lookup(ps.drop_first(), k)
    }
}

pub open spec fn kv_contains(ps: Seq<(Seq<char>, Seq<char>)>, k: Seq<char>) -> bool {
    kv_lookup(ps, k) is Some
}

/// A variant with the given name is declared.
pub open spec fn has_name(vs: Seq<VariantV>, name: Seq<char>) -> bool {
    exists|i: int| 0 <= i < vs.len() && vs[i].name == name
}

/// Position of the first variant with the given name; the length if none has it.
pub open spec fn index_of_name(vs: Seq<VariantV>, name: Seq<char>) -> int
    decreases vs.len(),
{
    if vs.len() == 0 {
        0
    } else if vs[0].name == name {
        0
    } else {
        1 + index_of_name(vs.drop_first(), name)
    }
}

pub proof fn lemma_index_of_name(vs: Seq<VariantV>, name: Seq<char>)
    ensures
        has_name(vs, name) ==> {
            &&& 0 <= index_of_name(vs, name) < vs.len()
            &&& vs[index_of_name(vs, name)].name == name
            &&& forall|j: int| 0 <= j < index_of_name(vs, name) ==> vs[j].name != name
        },
        !has_name(vs, name) ==> index_of_name(vs, name) == vs.len(),
    decreases vs.len(),
{
    if vs.len() > 0 && vs[0].name != name {
        lemma_index_of_name(vs.drop_first(), name);
        assert(forall|j: int| 1 <= j < vs.len() ==> vs[j] == vs.drop_first()[j - 1]);
        if has_name(vs, name) {
            let w = choose|i: int| 0 <= i < vs.len() && vs[i].name == name;
            assert(vs.drop_first()[w - 1].name == name);
        }
        if has_name(vs.drop_first(), name) {
            let w = choose|i: int| 0 <= i < vs.drop_first().len() && vs.drop_first()[i].name
                == name;
            assert(vs[w + 1].name == name);
        }
    }
}

/// Position of the first entry whose key is `k`; the length if none has it.
pub open spec fn kv_index(ps: Seq<(Seq<char>, Seq<char>)>, k: Seq<char>) -> int
    decreases ps.len(),
{
    if ps.len() == 0 {
        0
    } else if ps[0].0 == k {
        0
    } else {
        1 + kv_index(ps.drop_first(), k)
    }
}

pub proof fn lemma_kv_index(ps: Seq<(Seq<char>, Seq<char>)>, k: Seq<char>)
    ensures
        kv_contains(ps, k) ==> {
            &&& 0 <= kv_index(ps, k) < ps.len()
            &&& ps[kv_index(ps, k)].0 == k
            &&& forall|j: int| 0 <= j < kv_index(ps, k) ==> ps[j].0 != k
            &&& kv_lookup(ps, k) == Some(ps[kv_index(ps, k)].1)
        },
        !kv_contains(ps, k) ==> kv_index(ps, k) == ps.len(),
    decreases ps.len(),
{
    if ps.len() > 0 && ps[0].0 != k {
        lemma_kv_index(ps.drop_first(), k);
        assert(forall|j: int| 1 <= j < ps.len() ==> ps[j] == ps.drop_first()[j - 1]);
    }
}

/// An association list holds every one of its own keys.
pub proof fn lemma_kv_contains_own(ps: Seq<(Seq<char>, Seq<char>)>, d: int)
    requires
        0 <= d < ps.len(),
    ensures
        kv_contains(ps, ps[d].0),
    decreases ps.len(),
{
    if ps[0].0 != ps[d].0 {
        lemma_kv_contains_own(ps.drop_first(), d - 1);
    }
}

/// Appending an entry leaves earlier keys' lookups alone and serves the new
/// key only where it was absent.
pub proof fn lemma_kv_lookup_push(
    ps: Seq<(Seq<char>, Seq<char>)>,
    p: (Seq<char>, Seq<char>),
    k: Seq<char>,
)
    ensures
        kv_lookup(ps.push(p), k) == if kv_lookup(ps, k) is Some {
            kv_lookup(ps, k)
        } else if p.0 == k {
            Some(p.1)
        } else {
            None
        },
    decreases ps.len(),
{
    if ps.len() == 0 {
        assert(ps.push(p).drop_first() =~= Seq::empty());
    } else {
        assert(ps.push(p).drop_first() =~= ps.drop_first().push(p));
        lemma_kv_lookup_push(ps.drop_first(), p, k);
    }
}

/// If the first `i` entries miss the key, lookup continues past them.
pub proof fn lemma_kv_lookup_skip(ps: Seq<(Seq<char>, Seq<char>)>, k: Seq<char>, i: int)
    requires
        0 <= i <= ps.len(),
        forall|j: int| 0 <= j < i ==> ps[j].0 != k,
    ensures
        kv_lookup(ps, k) == kv_lookup(ps.skip(i), k),
    decreases i,
{
    if i > 0 {
        lemma_kv_lookup_skip(ps.drop_first(), k, i - 1);
        assert(ps.drop_first().skip(i - 1) =~= ps.skip(i));
    } else {
        assert(ps.skip(0) =~= ps);
    }
}

/// First-match lookup, executably: the index of the entry that holds the key.
pub fn props_get(ps: &Vec<(String, String)>, k: &str) -> (r: Option<usize>)
    ensures
        match r {
            Some(ix) => {
                &&& ix < ps@.len()
                &&& props_view(ps@)[ix as int].0 == k@
                &&& kv_lookup(props_view(ps@), k@) == Some(props_view(ps@)[ix as int].1)
            },
            None => !kv_contains(props_view(ps@), k@),
        },
{
    let ghost pv = props_view(ps@);
    let mut i: usize = 0;
    while i < ps.len()
        invariant
            i <= ps@.len(),
            pv == props_view(ps@),
            pv.len() == ps@.len(),
            forall|j: int| 0 <= j < i ==> pv[j].0 != k@,
        decreases ps@.len() - i,
    {
        if str_eq(ps[i].0.as_str(), k) {
            proof {
                lemma_kv_lookup_skip(pv, k@, i as int);
                assert(pv.skip(i as int)[0] == pv[i as int]);
                reveal_with_fuel(kv_lookup, 1);
                assert(kv_lookup(pv.skip(i as int), k@) == Some(pv[i as int].1));
            }
            return Some(i);
        }
        i += 1;
    }
    proof {
        lemma_kv_lookup_skip(pv, k@, ps@.len() as int);
        assert(pv.skip(ps@.len() as int) =~= Seq::empty());
    }
    None
}

/// Position of the first variant with the given name, executably.
pub fn find_variant(vs: &Vec<Variant>, name: &str) -> (r: Option<usize>)
    ensures
        match r {
            Some(ix) => {
                &&& has_name(views(vs@), name@)
                &&& ix == index_of_name(views(vs@), name@)
            },
            None => !has_name(views(vs@), name@),
        },
{
    let ghost vv = views(vs@);
    let mut i: usize = 0;
    while i < vs.len()
        invariant
            i <= vs@.len(),
            vv == views(vs@),
            vv.len() == vs@.len(),
            forall|j: int| 0 <= j < i ==> vv[j].name != name@,
        decreases vs@.len() - i,
    {
        if str_eq(vs[i].name.as_str(), name) {
            proof {
                assert(vv[i as int].name == name@);
                lemma_index_of_name(vv, name@);
            }
            return Some(i);
        }
        i += 1;
    }
    None
}

/// Copies an association list of raw properties.
pub fn clone_props(ps: &Vec<(String, String)>) -> (r: Vec<(String, String)>)
    ensures
        r@ == ps@,
{
    let mut r: Vec<(String, String)> = Vec::new();
    let mut i: usize = 0;
    while i < ps.len()
        invariant
            i <= ps@.len(),
            r@ =~= ps@.subrange(0, i as int),
        decreases ps@.len() - i,
    {
        r.push((ps[i].0.clone(), ps[i].1.clone()));
        i += 1;
    }
    proof {
        assert(r@ =~= ps@);
    }
    r
}

/// A build-time fatal configuration error.
#[derive(Debug)]
pub enum BuildError {
    /// A fallback chain names a language that was never declared.
    UnknownFallback { variant: String, fallback: String },
    /// A non-default variant defines a key the default language does not.
    MissingDefaultKey { variant: String, key: String },
}

/// Every fallback name of every variant refers to a declared variant.
pub open spec fn valid_fallbacks(vs: Seq<VariantV>) -> bool {
    forall|i: int, j: int|
        0 <= i < vs.len() && 0 <= j < vs[i].fallbacks.len() ==> has_name(
            vs,
            #[trigger] vs[i].fallbacks[j],
        )
}

/// First undeclared name in one fallback chain, scanning from `j`.
pub open spec fn first_unknown_in_chain(
    vs: Seq<VariantV>,
    fbs: Seq<Seq<char>>,
    j: int,
) -> Option<Seq<char>>
    decreases fbs.len() - j,
{
    if j < 0 || j >= fbs.len() {
        None
    } else if !has_name(vs, fbs[j]) {
        Some(fbs[j])
    } else {
        first_unknown_in_chain(vs, fbs, j + 1)
    }
}

/// First (variant name, fallback name) pair whose fallback is undeclared, in
/// declaration order, scanning variants from `i`.
pub open spec fn first_unknown_fallback(vs: Seq<VariantV>, i: int) -> Option<
    (Seq<char>, Seq<char>),
>
    decreases vs.len() - i,
{
    if i < 0 || i >= vs.len() {
        None
    } else {
        match first_unknown_in_chain(vs, vs[i].fallbacks, 0) {
            Some(f) => Some((vs[i].name, f)),
            None => first_unknown_fallback(vs, i + 1),
        }
    }
}

proof fn lemma_chain_none_iff(vs: Seq<VariantV>, fbs: Seq<Seq<char>>, j: int)
    requires
        0 <= j <= fbs.len(),
    ensures
        first_unknown_in_chain(vs, fbs, j) is None <==> forall|t: int|
            j <= t < fbs.len() ==> has_name(vs, #[trigger] fbs[t]),
    decreases fbs.len() - j,
{
    if j < fbs.len() {
        lemma_chain_none_iff(vs, fbs, j + 1);
    }
}

proof fn lemma_unknown_none_iff(vs: Seq<VariantV>, i: int)
    requires
        0 <= i <= vs.len(),
    ensures
        first_unknown_fallback(vs, i) is None <==> forall|t: int, j: int|
            i <= t < vs.len() && 0 <= j < vs[t].fallbacks.len() ==> has_name(
                vs,
                #[trigger] vs[t].fallbacks[j],
            ),
    decreases vs.len() - i,
{
    if i < vs.len() {
        lemma_chain_none_iff(vs, vs[i].fallbacks, 0);
        lemma_unknown_none_iff(vs, i + 1);
    }
}

/// Checks that every fallback language of every variant exists; reports the
/// first violation in declaration order.
pub fn validate_fallbacks_exist(variants: &Vec<Variant>) -> (r: Result<(), BuildError>)
    ensures
        r is Ok <==> valid_fallbacks(views(variants@)),
        r is Ok <==> first_unknown_fallback(views(variants@), 0) is None,
        r matches Err(e) ==> e matches BuildError::UnknownFallback { variant, fallback }
            && first_unknown_fallback(views(variants@), 0) == Some((variant@, fallback@)),
{
    let ghost vv = views(variants@);
    proof {
        lemma_unknown_none_iff(vv, 0);
    }
    let mut i: usize = 0;
    while i < variants.len()
        invariant
            i <= variants@.len(),
            vv == views(variants@),
            vv.len() == variants@.len(),
            first_unknown_fallback(vv, 0) == first_unknown_fallback(vv, i as int),
        decreases variants@.len() - i,
    {
        let v = &variants[i];
        let mut j: usize = 0;
        while j < v.fallbacks.len()
            invariant
                i < vv.len(),
                vv == views(variants@),
                vv.len() == variants@.len(),
                v == variants@[i as int],
                j <= v.fallbacks@.len(),
                v@.fallbacks.len() == v.fallbacks@.len(),
                first_unknown_fallback(vv, 0) == first_unknown_fallback(vv, i as int),
                first_unknown_in_chain(vv, vv[i as int].fallbacks, 0)
                    == first_unknown_in_chain(vv, vv[i as int].fallbacks, j as int),
            decreases v.fallbacks@.len() - j,
        {
            let fb = &v.fallbacks[j];
            if find_variant(variants, fb.as_str()).is_none() {
                proof {
                    lemma_unknown_none_iff(vv, 0);
                    assert(vv[i as int] == variants@[i as int]@);
                    assert(vv[i as int].fallbacks[j as int] == fb@);
                    assert(first_unknown_in_chain(vv, vv[i as int].fallbacks, j as int) == Some(
                        fb@,
                    ));
                    assert(first_unknown_fallback(vv, i as int) == Some((vv[i as int].name, fb@)));
                    assert(vv[i as int].name == v.name@);
                    assert(!valid_fallbacks(vv));
                }
                return Err(
                    BuildError::UnknownFallback { variant: v.name.clone(), fallback: fb.clone() },
                );
            }
            proof {
                assert(vv[i as int].fallbacks[j as int] == fb@);
            }
            j += 1;
        }
        i += 1;
    }
    proof {
        assert(first_unknown_fallback(vv, 0) is None);
        assert(valid_fallbacks(vv));
    }
    Ok(())
}

/// Every key of every variant also exists in the default properties.
pub open spec fn keys_subset(vs: Seq<VariantV>, dprops: Seq<(Seq<char>, Seq<char>)>) -> bool {
    forall|i: int, j: int|
        0 <= i < vs.len() && 0 <= j < vs[i].props.len() ==> kv_contains(
            dprops,
            #[trigger] vs[i].props[j].0,
        )
}

/// First key of one variant that the default properties miss, scanning from `j`.
pub open spec fn first_missing_in_props(
    dprops: Seq<(Seq<char>, Seq<char>)>,
    ps: Seq<(Seq<char>, Seq<char>)>,
    j: int,
) -> Option<Seq<char>>
    decreases ps.len() - j,
{
    if j < 0 || j >= ps.len() {
        None
    } else if !kv_contains(dprops, ps[j].0) {
        Some(ps[j].0)
    } else {
        first_missing_in_props(dprops, ps, j + 1)
    }
}

/// First (variant name, key) pair whose key the default misses, in
/// declaration order, scanning variants from `i`.
pub open spec fn first_missing_key(
    vs: Seq<VariantV>,
    dprops: Seq<(Seq<char>, Seq<char>)>,
    i: int,
) -> Option<(Seq<char>, Seq<char>)>
    decreases vs.len() - i,
{
    if i < 0 || i >= vs.len() {
        None
    } else {
        match first_missing_in_props(dprops, vs[i].props, 0) {
            Some(k) => Some((vs[i].name, k)),
            None => first_missing_key(vs, dprops, i + 1),
        }
    }
}

proof fn lemma_missing_props_none_iff(
    dprops: Seq<(Seq<char>, Seq<char>)>,
    ps: Seq<(Seq<char>, Seq<char>)>,
    j: int,
)
    requires
        0 <= j <= ps.len(),
    ensures
        first_missing_in_props(dprops, ps, j) is None <==> forall|t: int|
            j <= t < ps.len() ==> kv_contains(dprops, #[trigger] ps[t].0),
    decreases ps.len() - j,
{
    if j < ps.len() {
        lemma_missing_props_none_iff(dprops, ps, j + 1);
    }
}

proof fn lemma_missing_none_iff(vs: Seq<VariantV>, dprops: Seq<(Seq<char>, Seq<char>)>, i: int)
    requires
        0 <= i <= vs.len(),
    ensures
        first_missing_key(vs, dprops, i) is None <==> forall|t: int, j: int|
            i <= t < vs.len() && 0 <= j < vs[t].props.len() ==> kv_contains(
                dprops,
                #[trigger] vs[t].props[j].0,
            ),
    decreases vs.len() - i,
{
    if i < vs.len() {
        lemma_missing_props_none_iff(dprops, vs[i].props, 0);
        lemma_missing_none_iff(vs, dprops, i + 1);
    }
}

/// Checks that every key of every variant is also a key of the default
/// language; reports the first violation in declaration order.
pub fn validate_all_keys_in_default_language(default_name: &str, variants: &Vec<Variant>) -> (r:
    Result<(), BuildError>)
    requires
        has_name(views(variants@), default_name@),
    ensures
        r is Ok <==> keys_subset(
            views(variants@),
            views(variants@)[index_of_name(views(variants@), default_name@)].props,
        ),
        r is Ok <==> first_missing_key(
            views(variants@),
            views(variants@)[index_of_name(views(variants@), default_name@)].props,
            0,
        ) is None,
        r matches Err(e) ==> e matches BuildError::MissingDefaultKey { variant, key }
            && first_missing_key(
            views(variants@),
            views(variants@)[index_of_name(views(variants@), default_name@)].props,
            0,
        ) == Some((variant@, key@)),
{
    let ghost vv = views(variants@);
    let dix = match find_variant(variants, default_name) {
        Some(ix) => ix,
        None => {
            proof {
                assert(false);
            }
            0
        },
    };
    let ghost dprops = vv[dix as int].props;
    proof {
        lemma_index_of_name(vv, default_name@);
        lemma_missing_none_iff(vv, dprops, 0);
    }
    let mut i: usize = 0;
    while i < variants.len()
        invariant
            i <= variants@.len(),
            vv == views(variants@),
            vv.len() == variants@.len(),
            dix < vv.len(),
            dix == index_of_name(vv, default_name@),
            dprops == vv[dix as int].props,
            first_missing_key(vv, dprops, 0) == first_missing_key(vv, dprops, i as int),
        decreases variants@.len() - i,
    {
        let v = &variants[i];
        let mut j: usize = 0;
        while j < v.properties.len()
            invariant
                i < vv.len(),
                vv == views(variants@),
                vv.len() == variants@.len(),
                dix < vv.len(),
                dprops == vv[dix as int].props,
                v == variants@[i as int],
                j <= v.properties@.len(),
                v@.props.len() == v.properties@.len(),
                dix == index_of_name(vv, default_name@),
                first_missing_key(vv, dprops, 0) == first_missing_key(vv, dprops, i as int),
                first_missing_in_props(dprops, vv[i as int].props, 0) == first_missing_in_props(
                    dprops,
                    vv[i as int].props,
                    j as int,
                ),
            decreases v.properties@.len() - j,
        {
            let key = &v.properties[j].0;
            if props_get(&variants[dix].properties, key.as_str()).is_none() {
                proof {
                    lemma_missing_none_iff(vv, dprops, 0);
                    assert(vv[i as int] == variants@[i as int]@);
                    assert(vv[dix as int] == variants@[dix as int]@);
                    assert(vv[i as int].props[j as int].0 == key@);
                    assert(first_missing_in_props(dprops, vv[i as int].props, j as int) == Some(
                        key@,
                    ));
                    assert(first_missing_key(vv, dprops, i as int) == Some(
                        (vv[i as int].name, key@),
                    ));
                    assert(vv[i as int].name == v.name@);
                    assert(!keys_subset(vv, dprops));
                }
                return Err(
                    BuildError::MissingDefaultKey { variant: v.name.clone(), key: key.clone() },
                );
            }
            proof {
                assert(vv[i as int].props[j as int].0 == key@);
            }
            j += 1;
        }
        i += 1;
    }
    proof {
        assert(first_missing_key(vv, dprops, 0) is None);
        assert(keys_subset(vv, dprops));
    }
    Ok(())
}

} // verus!
