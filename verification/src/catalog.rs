//! The immutable runtime catalog and the language selector.
//!
//! The catalog holds, for every key of the default language, the key's
//! argument arity and one compiled string per declared variant, in
//! declaration order with the default first. It is built once and read
//! forever after. The selector is one integer of state, written by
//! `select` and read by every lookup; selecting an undeclared language is
//! defined behavior and falls back to the default.

use vstd::prelude::*;
use crate::arity::{
    all_segs_ok,
    key_arity,
    kvu_view,
    result_has_key,
    find_max_format_index_per_key,
};
use crate::compile::{compiled_segs, parse_property_values_for_substitution_format};
use crate::registry::{
    Variant,
    VariantV,
    views,
    props_view,
    segmap_view,
    kv_lookup,
    has_name,
    index_of_name,
    valid_fallbacks,
    keys_subset,
    first_unknown_fallback,
    first_missing_key,
    validate_fallbacks_exist,
    validate_all_keys_in_default_language,
    props_get,
    BuildError,
};
use crate::resolve::{
    resolved_props,
    default_props_of,
    resolve_fallbacks_properties,
    lemma_resolved_covers,
    lemma_resolved_default,
    clone_segs,
};
use crate::strutil::str_eq;
use crate::template::{Segment, SegmentV, segs_view};

verus! {

/// One variant's rendering of one key: the full resolved string and its
/// compiled segments.
pub struct CompiledString {
    pub text: String,
    pub segments: Vec<Segment>,
}

pub struct CompiledStringV {
    pub text: Seq<char>,
    pub segments: Seq<SegmentV>,
}

impl View for CompiledString {
    type V = CompiledStringV;

    open spec fn view(&self) -> CompiledStringV {
        CompiledStringV { text: self.text@, segments: segs_view(self.segments@) }
    }
}


pub open spec fn cstrings_view(s: Seq<CompiledString>) -> Seq<CompiledStringV> {
    s.map_values(|c: CompiledString| c@)
}

pub open spec fn entries_view(s: Seq<CatalogEntry>) -> Seq<CatalogEntryV> {
    s.map_values(|e: CatalogEntry| e@)
}

pub open spec fn names_view(s: Seq<String>) -> Seq<Seq<char>> {
    s.map_values(|n: String| n@)
}

/// One exported key: its arity and one compiled string per declared
/// variant, in declaration order, default first.
pub struct CatalogEntry {
    pub key: String,
    pub arity: usize,
    pub variants: Vec<CompiledString>,
}

pub struct CatalogEntryV {
    pub key: Seq<char>,
    pub arity: usize,
    pub variants: Seq<CompiledStringV>,
}

impl View for CatalogEntry {
    type V = CatalogEntryV;

    open spec fn view(&self) -> CatalogEntryV {
        CatalogEntryV {
            key: self.key@,
            arity: self.arity,
            variants: cstrings_view(self.variants@),
        }
    }
}

/// The whole catalog: the declared variant names in declaration order, and
/// one entry per default-language key.
pub struct Catalog {
    pub names: Vec<String>,
    pub entries: Vec<CatalogEntry>,
}

pub struct CatalogV {
    pub names: Seq<Seq<char>>,
    pub entries: Seq<CatalogEntryV>,
}

impl View for Catalog {
    type V = CatalogV;

    open spec fn view(&self) -> CatalogV {
        CatalogV {
            names: names_view(self.names@),
            entries: entries_view(self.entries@),
        }
    }
}

pub open spec fn names_of(vs: Seq<VariantV>) -> Seq<Seq<char>> {
    vs.map_values(|v: VariantV| v.name)
}

/// The variants as they stand after resolution and compilation.
pub open spec fn pipeline_views(vs: Seq<VariantV>, defaults: Seq<(Seq<char>, Seq<char>)>) -> Seq<
    VariantV,
> {
    Seq::new(
        vs.len(),
        |i: int|
            VariantV {
                name: vs[i].name,
                path: vs[i].path,
                fallbacks: vs[i].fallbacks,
                props: resolved_props(vs, defaults, i),
                segs: compiled_segs(resolved_props(vs, defaults, i)),
            },
    )
}

/// What a built catalog holds, entry by entry, for the declared variants
/// `vs` with default properties `defaults`.
pub open spec fn catalog_matches(c: CatalogV, vs: Seq<VariantV>, defaults: Seq<(Seq<char>, Seq<char>)>) -> bool {
    &&& c.names == names_of(vs)
    &&& c.entries.len() == defaults.len()
    &&& forall|e: int|
        0 <= e < defaults.len() ==> {
            &&& (#[trigger] c.entries[e]).key == defaults[e].0
            &&& c.entries[e].arity == key_arity(pipeline_views(vs, defaults), defaults[e].0)
            &&& c.entries[e].variants.len() == vs.len()
            &&& forall|i: int|
                0 <= i < vs.len() ==> {
                    &&& Some((#[trigger] c.entries[e].variants[i]).text) == kv_lookup(
                        resolved_props(vs, defaults, i),
                        defaults[e].0,
                    )
                    &&& c.entries[e].variants[i].segments == crate::template::spec_compile(
                        c.entries[e].variants[i].text,
                    )
                }
        }
}

/// Builds the catalog from the declared variants, the first of which is the
/// default language: validates the declarations, resolves fallbacks,
/// compiles every template, and computes every key's arity.
pub fn build_catalog(variants: Vec<Variant>) -> (r: Result<Catalog, BuildError>)
    requires
        variants@.len() >= 1,
        views(variants@)[0].fallbacks.len() == 0,
        all_segs_ok(pipeline_views(views(variants@), views(variants@)[0].props)),
    ensures
        r is Ok <==> valid_fallbacks(views(variants@)) && keys_subset(
            views(variants@),
            views(variants@)[0].props,
        ),
        r matches Ok(c) ==> catalog_matches(c@, views(variants@), views(variants@)[0].props),
        r matches Err(e) ==> if !valid_fallbacks(views(variants@)) {
            e matches BuildError::UnknownFallback { variant, fallback }
                && first_unknown_fallback(views(variants@), 0) == Some((variant@, fallback@))
        } else {
            e matches BuildError::MissingDefaultKey { variant, key } && first_missing_key(
                views(variants@),
                views(variants@)[0].props,
                0,
            ) == Some((variant@, key@))
        },
{
    let ghost vs = views(variants@);
    let ghost defaults = vs[0].props;
    let default_name = variants[0].name.clone();
    proof {
        assert(vs[0].name == default_name@);
        assert(has_name(vs, default_name@));
        assert(index_of_name(vs, default_name@) == 0);
    }
    if let Err(e) = validate_fallbacks_exist(&variants) {
        return Err(e);
    }
    if let Err(e) = validate_all_keys_in_default_language(default_name.as_str(), &variants) {
        return Err(e);
    }
    proof {
        lemma_resolved_default(vs, default_name@);
        assert(default_props_of(vs, default_name@) == defaults);
    }
    let resolved = resolve_fallbacks_properties(default_name.as_str(), variants);
    let compiled = parse_property_values_for_substitution_format(resolved);
    let ghost pv = pipeline_views(vs, defaults);
    proof {
        assert(views(compiled@).len() == pv.len());
        assert(forall|i: int| 0 <= i < pv.len() ==> views(compiled@)[i] == pv[i]);
        assert(views(compiled@) =~= pv);
        assert forall|i: int, j: int|
            0 <= i < pv.len() && 0 <= j < pv[i].segs.len() implies crate::arity::key_in_props(
            pv,
            (#[trigger] pv[i].segs[j]).0,
        ) by {
            assert(pv[i].segs[j].0 == pv[i].props[j].0);
        };
    }
    let arities = find_max_format_index_per_key(&compiled);
    let n = compiled.len();
    // the default variant resolves to its raw self, so its property list is
    // the key list of the catalog
    proof {
        assert(views(compiled@)[0].props == defaults);
        assert(props_view(compiled@[0].properties@) == defaults);
    }
    let mut entries: Vec<CatalogEntry> = Vec::new();
    let mut e: usize = 0;
    let nkeys = compiled[0].properties.len();
    while e < nkeys
        invariant
            e <= nkeys,
            nkeys == defaults.len(),
            n == compiled@.len(),
            n == vs.len(),
            vs.len() >= 1,
            views(compiled@) == pipeline_views(vs, defaults),
            props_view(compiled@[0].properties@) == defaults,
            forall|a: int, b: int|
                0 <= a < b < arities@.len() ==> (#[trigger] kvu_view(arities@)[a]).0 != (
                #[trigger] kvu_view(arities@)[b]).0,
            forall|i: int, j: int|
                0 <= i < views(compiled@).len() && 0 <= j < views(compiled@)[i].props.len()
                    ==> result_has_key(
                    kvu_view(arities@),
                    (#[trigger] views(compiled@)[i].props[j]).0,
                ),
            forall|t: int|
                0 <= t < arities@.len() ==> (#[trigger] kvu_view(arities@)[t]).1 == key_arity(
                    views(compiled@),
                    kvu_view(arities@)[t].0,
                ),
            entries@.len() == e,
            forall|d: int|
                0 <= d < e ==> {
                    &&& (#[trigger] entries_view(entries@)[d]).key
                        == defaults[d].0
                    &&& entries_view(entries@)[d].arity == key_arity(
                        pipeline_views(vs, defaults),
                        defaults[d].0,
                    )
                    &&& entries_view(entries@)[d].variants.len() == vs.len()
                    &&& forall|i: int|
                        0 <= i < vs.len() ==> {
                            &&& Some(
                                (#[trigger] entries_view(entries@)[d].variants[i]).text,
                            ) == kv_lookup(resolved_props(vs, defaults, i), defaults[d].0)
                            &&& entries_view(entries@)[d].variants[i].segments
                                == crate::template::spec_compile(
                                entries_view(entries@)[d].variants[i].text,
                            )
                        }
                },
        decreases nkeys - e,
    {
        let key = &compiled[0].properties[e].0;
        proof {
            assert(defaults[e as int].0 == key@);
        }
        let aix = match crate::arity::kvu_get(&arities, key.as_str()) {
            Some(aix) => aix,
            None => {
                proof {
                    assert(views(compiled@)[0].props[e as int].0 == key@);
                    assert(false);
                }
                0
            },
        };
        let arity = arities[aix].1;
        proof {
            assert(kvu_view(arities@)[aix as int] == (key@, arity));
            assert(arity == key_arity(views(compiled@), key@));
        }
        let mut slots: Vec<CompiledString> = Vec::new();
        let mut i: usize = 0;
        while i < n
            invariant
                i <= n,
                n == compiled@.len(),
                n == vs.len(),
                e < nkeys,
                nkeys == defaults.len(),
                views(compiled@) == pipeline_views(vs, defaults),
                key == compiled@[0].properties@[e as int].0,
                key@ == defaults[e as int].0,
                slots@.len() == i,
                forall|j: int|
                    0 <= j < i ==> {
                        &&& Some(
                            (#[trigger] cstrings_view(slots@)[j]).text,
                        ) == kv_lookup(resolved_props(vs, defaults, j), defaults[e as int].0)
                        &&& cstrings_view(slots@)[j].segments
                            == crate::template::spec_compile(
                            cstrings_view(slots@)[j].text,
                        )
                    },
            decreases n - i,
        {
            let ghost s0 = slots@;
            proof {
                lemma_resolved_covers(vs, defaults, i as int, e as int);
                assert(views(compiled@)[i as int].props == resolved_props(vs, defaults, i as int));
                assert(props_view(compiled@[i as int].properties@) == resolved_props(
                    vs,
                    defaults,
                    i as int,
                ));
            }
            let ix = match props_get(&compiled[i].properties, key.as_str()) {
                Some(ix) => ix,
                None => {
                    proof {
                        assert(false);
                    }
                    0
                },
            };
            let text = compiled[i].properties[ix].1.clone();
            proof {
                assert(views(compiled@)[i as int].segs == compiled_segs(
                    resolved_props(vs, defaults, i as int),
                ));
                assert(segmap_view(compiled@[i as int].segments@) == compiled_segs(
                    resolved_props(vs, defaults, i as int),
                ));
                assert(segmap_view(compiled@[i as int].segments@)[ix as int] == (
                    resolved_props(vs, defaults, i as int)[ix as int].0,
                    crate::template::spec_compile(
                        resolved_props(vs, defaults, i as int)[ix as int].1,
                    ),
                ));
                assert(text@ == resolved_props(vs, defaults, i as int)[ix as int].1);
            }
            let segs = clone_segs(&compiled[i].segments[ix].1);
            slots.push(CompiledString { text, segments: segs });
            proof {
                assert(forall|j: int|
                    0 <= j < i ==> #[trigger] cstrings_view(slots@)[j]
                        == cstrings_view(s0)[j]);
                assert(cstrings_view(slots@)[i as int].segments =~= crate::template::spec_compile(
                    cstrings_view(slots@)[i as int].text,
                ));
            }
            i += 1;
        }
        let ghost en0 = entries@;
        entries.push(CatalogEntry { key: key.clone(), arity, variants: slots });
        proof {
            assert(forall|d: int|
                0 <= d < e ==> #[trigger] entries_view(entries@)[d]
                    == entries_view(en0)[d]);
            assert(entries_view(entries@)[e as int].key == defaults[
                e as int
            ].0);
        }
        e += 1;
    }
    let mut names: Vec<String> = Vec::new();
    let mut i: usize = 0;
    while i < n
        invariant
            i <= n,
            n == compiled@.len(),
            n == vs.len(),
            views(compiled@) == pipeline_views(vs, defaults),
            names@.len() == i,
            forall|j: int|
                0 <= j < i ==> #[trigger] names_view(names@)[j] == vs[j].name,
        decreases n - i,
    {
        let ghost ns0 = names@;
        names.push(compiled[i].name.clone());
        proof {
            assert(names_view(names@)[i as int] == views(compiled@)[i as int].name);
            assert forall|j: int| 0 <= j < i + 1 implies #[trigger] names_view(names@)[j]
                == vs[j].name by {
                if j < i as int {
                    assert(names_view(names@)[j] == names_view(ns0)[j]);
                }
            }
        }
        i += 1;
    }
    let c = Catalog { names, entries };
    proof {
        assert(c@.names =~= names_of(vs));
        assert(c@.entries =~= entries_view(entries@));
    }
    Ok(c)
}


/// In a built catalog every placeholder slot that any variant's compiled
/// segments for a key mention lies strictly below that key's arity: the
/// arity is computed as the maximum over all variants, so every mentioned
/// slot, and every slot between mentioned ones, is a valid position.
pub proof fn lemma_catalog_slots_within_arity(
    c: CatalogV,
    vs: Seq<VariantV>,
    defaults: Seq<(Seq<char>, Seq<char>)>,
    e: int,
    i: int,
    t: int,
)
    requires
        catalog_matches(c, vs, defaults),
        0 <= e < c.entries.len(),
        0 <= i < vs.len(),
        0 <= t < c.entries[e].variants[i].segments.len(),
        c.entries[e].variants[i].segments[t].index is Some,
    ensures
        c.entries[e].variants[i].segments[t].index->0 < c.entries[e].arity,
{
    let k = c.entries[e].key;
    let rp = resolved_props(vs, defaults, i);
    let pv = pipeline_views(vs, defaults);
    crate::registry::lemma_kv_index(rp, k);
    let d = crate::registry::kv_index(rp, k);
    assert(kv_lookup(rp, k) == Some(c.entries[e].variants[i].text));
    assert(rp[d].1 == c.entries[e].variants[i].text);
    assert(pv[i].segs == compiled_segs(rp));
    assert(pv[i].segs[d] == (rp[d].0, crate::template::spec_compile(rp[d].1)));
    assert(pv[i].segs[d].1 == c.entries[e].variants[i].segments);
    crate::arity::lemma_index_within_arity(pv, k, i, d, t);
}

/// Position of the first name equal to `n`; the length if none is.
pub open spec fn name_index(ns: Seq<Seq<char>>, n: Seq<char>) -> int
    decreases ns.len(),
{
    if ns.len() == 0 {
        0
    } else if ns[0] == n {
        0
    } else {
        1 + name_index(ns.drop_first(), n)
    }
}

pub open spec fn names_contain(ns: Seq<Seq<char>>, n: Seq<char>) -> bool {
    exists|i: int| 0 <= i < ns.len() && ns[i] == n
}

/// The variant position that selecting `n` puts in effect: the declared
/// position of `n`, or 0 (the default) when `n` was never declared.
pub open spec fn spec_select_index(ns: Seq<Seq<char>>, n: Seq<char>) -> int {
    if names_contain(ns, n) {
        name_index(ns, n)
    } else {
        0
    }
}

pub proof fn lemma_name_index(ns: Seq<Seq<char>>, n: Seq<char>)
    ensures
        names_contain(ns, n) ==> {
            &&& 0 <= name_index(ns, n) < ns.len()
            &&& ns[name_index(ns, n)] == n
            &&& forall|j: int| 0 <= j < name_index(ns, n) ==> ns[j] != n
        },
        !names_contain(ns, n) ==> name_index(ns, n) == ns.len(),
    decreases ns.len(),
{
    if ns.len() > 0 && ns[0] != n {
        lemma_name_index(ns.drop_first(), n);
        assert(forall|j: int| 1 <= j < ns.len() ==> ns[j] == ns.drop_first()[j - 1]);
        if names_contain(ns, n) {
            let w = choose|i: int| 0 <= i < ns.len() && ns[i] == n;
            assert(ns.drop_first()[w - 1] == n);
        }
        if names_contain(ns.drop_first(), n) {
            let w = choose|i: int| 0 <= i < ns.drop_first().len() && ns.drop_first()[i] == n;
            assert(ns[w + 1] == n);
        }
    }
}

/// The single piece of runtime state: the position of the currently
/// selected variant, one integer wide, written only by `select`.
pub struct LanguageSelector {
    index: u32,
}

impl View for LanguageSelector {
    type V = u32;

    closed spec fn view(&self) -> u32 {
        self.index
    }
}

impl LanguageSelector {
    /// A fresh selector: the default variant, position 0, is in effect.
    pub fn new() -> (r: LanguageSelector)
        ensures
            r@ == 0,
    {
        LanguageSelector { index: 0 }
    }

    /// Selects the named language among the declared names; an identifier
    /// that matches no declared name selects the default, position 0 —
    /// unknown input is not an error.
    pub fn select(&mut self, names: &Vec<String>, name: &str)
        requires
            names@.len() <= u32::MAX,
        ensures
            final(self)@ == spec_select_index(
                names_view(names@),
                name@,
            ),
            !names_contain(names_view(names@), name@) ==> final(self)@ == 0,
    {
        let ghost ns = names_view(names@);
        proof {
            lemma_name_index(ns, name@);
        }
        let mut i: usize = 0;
        while i < names.len()
            invariant
                i <= names@.len(),
                ns == names_view(names@),
                ns.len() == names@.len(),
                names@.len() <= u32::MAX,
                forall|j: int| 0 <= j < i ==> ns[j] != name@,
            decreases names@.len() - i,
        {
            if str_eq(names[i].as_str(), name) {
                proof {
                    assert(ns[i as int] == name@);
                    lemma_name_index(ns, name@);
                }
                self.index = i as u32;
                return ;
            }
            i += 1;
        }
        self.index = 0;
    }

    /// The position currently in effect.
    pub fn current_index(&self) -> (r: u32)
        ensures
            r == self@,
    {
        self.index
    }
}

/// Position of the first entry whose key is `k`; the length if none has it.
pub open spec fn entry_index(es: Seq<CatalogEntryV>, k: Seq<char>) -> int
    decreases es.len(),
{
    if es.len() == 0 {
        0
    } else if es[0].key == k {
        0
    } else {
        1 + entry_index(es.drop_first(), k)
    }
}

pub open spec fn has_entry(es: Seq<CatalogEntryV>, k: Seq<char>) -> bool {
    exists|i: int| 0 <= i < es.len() && (#[trigger] es[i]).key == k
}

pub proof fn lemma_entry_index(es: Seq<CatalogEntryV>, k: Seq<char>)
    ensures
        has_entry(es, k) ==> {
            &&& 0 <= entry_index(es, k) < es.len()
            &&& es[entry_index(es, k)].key == k
            &&& forall|j: int| 0 <= j < entry_index(es, k) ==> es[j].key != k
        },
        !has_entry(es, k) ==> entry_index(es, k) == es.len(),
    decreases es.len(),
{
    if es.len() > 0 && es[0].key != k {
        lemma_entry_index(es.drop_first(), k);
        assert(forall|j: int| 1 <= j < es.len() ==> es[j] == es.drop_first()[j - 1]);
        if has_entry(es, k) {
            let w = choose|i: int| 0 <= i < es.len() && (#[trigger] es[i]).key == k;
            assert(es.drop_first()[w - 1].key == k);
        }
        if has_entry(es.drop_first(), k) {
            let w = choose|i: int|
                0 <= i < es.drop_first().len() && (#[trigger] es.drop_first()[i]).key == k;
            assert(es[w + 1].key == k);
        }
    }
}

impl Catalog {
    /// The entry for the given key, if the default language defines it.
    pub fn get(&self, key: &str) -> (r: Option<&CatalogEntry>)
        ensures
            match r {
                Some(e) => has_entry(self@.entries, key@) && e@.key == key@ && e@
                    == self@.entries[entry_index(self@.entries, key@)],
                None => !has_entry(self@.entries, key@),
            },
    {
        let ghost es = self@.entries;
        let mut i: usize = 0;
        while i < self.entries.len()
            invariant
                i <= self.entries@.len(),
                es == self@.entries,
                es.len() == self.entries@.len(),
                forall|j: int| 0 <= j < i ==> (#[trigger] es[j]).key != key@,
            decreases self.entries@.len() - i,
        {
            if str_eq(self.entries[i].key.as_str(), key) {
                proof {
                    assert(es[i as int].key == key@);
                    lemma_entry_index(es, key@);
                }
                return Some(&self.entries[i]);
            }
            i += 1;
        }
        None
    }
}

pub open spec fn spec_entry_str(e: CatalogEntryV, idx: int) -> Seq<char> {
    e.variants[idx].text
}

pub open spec fn spec_default_str(e: CatalogEntryV) -> Seq<char> {
    spec_entry_str(e, 0)
}

impl CatalogEntry {
    /// The currently selected variant's full string, verbatim.
    pub fn as_str(&self, sel: &LanguageSelector) -> (r: &str)
        requires
            (sel@ as int) < self@.variants.len(),
        ensures
            r@ == spec_entry_str(self@, sel@ as int),
    {
        self.variants[sel.current_index() as usize].text.as_str()
    }

    /// The default variant's full string, whatever language is selected.
    pub fn default_str(&self) -> (r: &str)
        requires
            self@.variants.len() >= 1,
        ensures
            r@ == spec_default_str(self@),
    {
        self.variants[0].text.as_str()
    }
}

/// The default string of an entry is a function of the entry alone: no
/// `select` call moves it, because its specified value mentions no selector
/// state; and selecting the default language's own name brings `as_str`
/// back to exactly that string.
pub proof fn lemma_default_str_select_invariant(
    e: CatalogEntryV,
    ns: Seq<Seq<char>>,
    name: Seq<char>,
)
    requires
        ns.len() >= 1,
        e.variants.len() >= 1,
    ensures
        spec_default_str(e) == spec_entry_str(e, 0),
        name == ns[0] ==> spec_entry_str(e, spec_select_index(ns, name)) == spec_default_str(e),
        !names_contain(ns, name) ==> spec_entry_str(e, spec_select_index(ns, name))
            == spec_default_str(e),
{
    if name == ns[0] {
        assert(names_contain(ns, name));
        lemma_name_index(ns, name);
        assert(name_index(ns, name) == 0);
    }
}

/// Selecting a language that was never declared leaves the default
/// variant's position, 0, in effect.
pub proof fn lemma_unknown_language_selects_default(ns: Seq<Seq<char>>, name: Seq<char>)
    requires
        !names_contain(ns, name),
    ensures
        spec_select_index(ns, name) == 0,
{
}

} // verus!
