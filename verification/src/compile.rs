//! The pipeline step that compiles every resolved template string into its
//! segment list.

use vstd::prelude::*;
use crate::registry::{Variant, views, props_view, segmap_view, clone_props};
use crate::resolve::clone_segmap;
use crate::strutil::clone_string_vec;
use crate::template::{Segment, SegmentV, spec_compile, compile_template};

verus! {

/// The segment map that compiling every entry of a property list yields.
pub open spec fn compiled_segs(props: Seq<(Seq<char>, Seq<char>)>) -> Seq<
    (Seq<char>, Seq<SegmentV>),
> {
    props.map_values(|p: (Seq<char>, Seq<char>)| (p.0, spec_compile(p.1)))
}

/// Compiles the property values of every variant, filling its segment map
/// with one entry per property, in property order.
pub fn parse_property_values_for_substitution_format(variants: Vec<Variant>) -> (res: Vec<Variant>)
    ensures
        res@.len() == variants@.len(),
        forall|i: int|
            #![trigger views(res@)[i]]
            0 <= i < res@.len() ==> {
                &&& views(res@)[i].name == views(variants@)[i].name
                &&& views(res@)[i].path == views(variants@)[i].path
                &&& views(res@)[i].fallbacks == views(variants@)[i].fallbacks
                &&& views(res@)[i].props == views(variants@)[i].props
                &&& views(res@)[i].segs == compiled_segs(views(variants@)[i].props)
            },
{
    let ghost vs = views(variants@);
    let n = variants.len();
    let mut res: Vec<Variant> = Vec::new();
    let mut i: usize = 0;
    while i < n
        invariant
            i <= n,
            n == variants@.len(),
            vs == views(variants@),
            vs.len() == n,
            res@.len() == i,
            forall|j: int|
                #![trigger views(res@)[j]]
                0 <= j < i ==> {
                    &&& views(res@)[j].name == vs[j].name
                    &&& views(res@)[j].path == vs[j].path
                    &&& views(res@)[j].fallbacks == vs[j].fallbacks
                    &&& views(res@)[j].props == vs[j].props
                    &&& views(res@)[j].segs == compiled_segs(vs[j].props)
                },
        decreases n - i,
    {
        let v = &variants[i];
        let mut segs: Vec<(String, Vec<Segment>)> = Vec::new();
        let mut p: usize = 0;
        while p < v.properties.len()
            invariant
                i < n,
                n == variants@.len(),
                vs == views(variants@),
                v == variants@[i as int],
                p <= v.properties@.len(),
                vs[i as int].props.len() == v.properties@.len(),
                segs@.len() == p,
                segmap_view(segs@) =~= compiled_segs(vs[i as int].props).subrange(0, p as int),
            decreases v.properties@.len() - p,
        {
            let entry = &v.properties[p];
            let compiled = compile_template(entry.1.as_str());
            segs.push((entry.0.clone(), compiled));
            proof {
                assert(vs[i as int].props[p as int] == (entry.0@, entry.1@));
                assert(segmap_view(segs@) =~= compiled_segs(vs[i as int].props).subrange(
                    0,
                    p + 1,
                ));
            }
            p += 1;
        }
        let ghost r0 = res@;
        res.push(
            Variant {
                name: v.name.clone(),
                path: v.path.clone(),
                fallbacks: clone_string_vec(&v.fallbacks),
                properties: clone_props(&v.properties),
                segments: segs,
            },
        );
        proof {
            assert(segmap_view(res@[i as int].segments@) =~= compiled_segs(vs[i as int].props));
            assert(views(res@)[i as int].segs == segmap_view(res@[i as int].segments@));
            assert(views(res@)[i as int].props =~= vs[i as int].props);
            assert(views(res@)[i as int].fallbacks =~= vs[i as int].fallbacks);
            assert forall|j: int|
                #![trigger views(res@)[j]]
                0 <= j < i + 1 implies {
                &&& views(res@)[j].name == vs[j].name
                &&& views(res@)[j].path == vs[j].path
                &&& views(res@)[j].fallbacks == vs[j].fallbacks
                &&& views(res@)[j].props == vs[j].props
                &&& views(res@)[j].segs == compiled_segs(vs[j].props)
            } by {
                if j < i as int {
                    assert(views(res@)[j] == views(r0)[j]);
                }
            }
        }
        i += 1;
    }
    res
}

} // verus!
