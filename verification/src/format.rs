//! Formatting a compiled entry against a positional argument source.
//!
//! An argument source yields, for an index, a displayable value or nothing.
//! Out-of-range access is not an error: a missing argument contributes no
//! text, and the literal text around it stays intact, so a caller passing
//! fewer arguments than a template's arity gets a partially filled string.

use vstd::prelude::*;
use crate::catalog::{CatalogEntry, LanguageSelector};
use crate::template::{
    Segment,
    SegmentV,
    segs_view,
    spec_compile,
    has_placeholder,
    lemma_compile_literal_whole,
};

verus! {

/// A positional argument source: per index a displayable value or absence.
pub trait ArgSource {
    spec fn args(&self) -> Seq<Seq<char>>;

    /// The value at `idx`; `None` past the end.
    fn arg_at(&self, idx: usize) -> (r: Option<String>)
        ensures
            match r {
                Some(s) => idx < self.args().len() && s@ == self.args()[idx as int],
                None => idx >= self.args().len(),
            },
    ;
}

pub open spec fn arg_views(items: Seq<String>) -> Seq<Seq<char>> {
    items.map_values(|s: String| s@)
}

/// The zero-argument source: every slot is absent.
pub struct NoArgs {}

impl ArgSource for NoArgs {
    open spec fn args(&self) -> Seq<Seq<char>> {
        Seq::empty()
    }

    fn arg_at(&self, idx: usize) -> (r: Option<String>) {
        None
    }
}

/// A fixed single-argument source.
pub struct Args1 {
    pub v0: String,
}

impl ArgSource for Args1 {
    open spec fn args(&self) -> Seq<Seq<char>> {
        seq![self.v0@]
    }

    fn arg_at(&self, idx: usize) -> (r: Option<String>) {
        if idx == 0 {
            Some(self.v0.clone())
        } else {
            None
        }
    }
}

/// A fixed two-argument source.
pub struct Args2 {
    pub v0: String,
    pub v1: String,
}

impl ArgSource for Args2 {
    open spec fn args(&self) -> Seq<Seq<char>> {
        seq![self.v0@, self.v1@]
    }

    fn arg_at(&self, idx: usize) -> (r: Option<String>) {
        if idx == 0 {
            Some(self.v0.clone())
        } else if idx == 1 {
            Some(self.v1.clone())
        } else {
            None
        }
    }
}

/// A dynamically sized ordered argument source.
pub struct ArgList {
    pub items: Vec<String>,
}

impl ArgSource for ArgList {
    open spec fn args(&self) -> Seq<Seq<char>> {
        arg_views(self.items@)
    }

    fn arg_at(&self, idx: usize) -> (r: Option<String>) {
        if idx < self.items.len() {
            Some(self.items[idx].clone())
        } else {
            None
        }
    }
}

/// The text that formatting a segment list against the given arguments
/// yields: each literal prefix in order, each present argument in place,
/// each absent one as empty text.
pub open spec fn spec_format(segs: Seq<SegmentV>, args: Seq<Seq<char>>) -> Seq<char>
    decreases segs.len(),
{
    if segs.len() == 0 {
        Seq::empty()
    } else {
        let head = segs[0];
        head.literal + (match head.index {
            Some(ix) => if (ix as int) < args.len() {
                args[ix as int]
            } else {
                Seq::empty()
            },
            None => Seq::empty(),
        }) + spec_format(segs.drop_first(), args)
    }
}

pub proof fn lemma_spec_format_concat(s1: Seq<SegmentV>, s2: Seq<SegmentV>, args: Seq<Seq<char>>)
    ensures
        spec_format(s1 + s2, args) == spec_format(s1, args) + spec_format(s2, args),
    decreases s1.len(),
{
    if s1.len() == 0 {
        assert(s1 + s2 =~= s2);
        assert(spec_format(s1, args) + spec_format(s2, args) =~= spec_format(s2, args));
    } else {
        assert((s1 + s2).drop_first() =~= s1.drop_first() + s2);
        assert((s1 + s2)[0] == s1[0]);
        lemma_spec_format_concat(s1.drop_first(), s2, args);
        let head = s1[0];
        let mid = (match head.index {
            Some(ix) => if (ix as int) < args.len() {
                args[ix as int]
            } else {
                Seq::<char>::empty()
            },
            None => Seq::<char>::empty(),
        });
        assert(head.literal + mid + (spec_format(s1.drop_first(), args) + spec_format(s2, args))
            =~= (head.literal + mid + spec_format(s1.drop_first(), args)) + spec_format(
            s2,
            args,
        ));
    }
}

/// Formats one compiled segment list against an argument source.
pub fn format_segments<A: ArgSource>(segs: &Vec<Segment>, args: &A) -> (r: String)
    ensures
        r@ == spec_format(segs_view(segs@), args.args()),
{
    let ghost sv = segs_view(segs@);
    let mut out = String::new();
    let mut t: usize = 0;
    proof {
        assert(sv.subrange(0, 0) =~= Seq::<SegmentV>::empty());
    }
    while t < segs.len()
        invariant
            t <= segs@.len(),
            sv == segs_view(segs@),
            sv.len() == segs@.len(),
            out@ == spec_format(sv.subrange(0, t as int), args.args()),
        decreases segs@.len() - t,
    {
        let ghost out0 = out@;
        let seg = &segs[t];
        proof {
            assert(sv[t as int] == seg@);
        }
        out.append(seg.literal.as_str());
        let ghost mid_start = out@;
        match seg.index {
            Some(ix) => {
                match args.arg_at(ix) {
                    Some(s) => {
                        out.append(s.as_str());
                    },
                    None => {},
                }
            },
            None => {},
        }
        proof {
            let single = seq![sv[t as int]];
            assert(sv.subrange(0, t + 1) =~= sv.subrange(0, t as int) + single);
            lemma_spec_format_concat(sv.subrange(0, t as int), single, args.args());
            assert(single.len() == 1);
            assert(single[0] == sv[t as int]);
            assert(single.drop_first() =~= Seq::<SegmentV>::empty());
            assert(spec_format(single.drop_first(), args.args()) =~= Seq::<char>::empty());
            let mid = (match sv[t as int].index {
                Some(ix) => if (ix as int) < args.args().len() {
                    args.args()[ix as int]
                } else {
                    Seq::<char>::empty()
                },
                None => Seq::<char>::empty(),
            });
            assert(spec_format(single, args.args()) =~= sv[t as int].literal + mid);
            assert(out@ =~= out0 + spec_format(single, args.args()));
            assert(out@ =~= spec_format(sv.subrange(0, t + 1), args.args()));
        }
        t += 1;
    }
    proof {
        assert(sv.subrange(0, sv.len() as int) =~= sv);
    }
    out
}

/// The literal text of a segment list: every prefix, in order, with
/// nothing in the placeholder positions.
pub open spec fn literals_of(segs: Seq<SegmentV>) -> Seq<char>
    decreases segs.len(),
{
    if segs.len() == 0 {
        Seq::empty()
    } else {
        segs[0].literal + literals_of(segs.drop_first())
    }
}

/// Out-of-range tolerance: when every placeholder slot of a segment list
/// lies past the end of the argument source, formatting still yields all
/// the literal text, in order, with each missing slot contributing no text
/// — a short argument source never loses surrounding literals.
pub proof fn lemma_out_of_range_slots_keep_literals(segs: Seq<SegmentV>, args: Seq<Seq<char>>)
    requires
        forall|t: int|
            0 <= t < segs.len() ==> ((#[trigger] segs[t]).index matches Some(ix) ==> ix as int
                >= args.len()),
    ensures
        spec_format(segs, args) == literals_of(segs),
    decreases segs.len(),
{
    if segs.len() > 0 {
        assert(forall|t: int|
            0 <= t < segs.drop_first().len() ==> segs.drop_first()[t] == segs[t + 1]);
        lemma_out_of_range_slots_keep_literals(segs.drop_first(), args);
        assert(segs[0].index matches Some(ix) ==> ix as int >= args.len());
        assert(spec_format(segs, args) =~= segs[0].literal + literals_of(segs.drop_first()));
    }
}

/// Round trip for placeholder-free templates: a non-empty string in which
/// no well-formed placeholder occurs compiles to a single literal segment
/// equal to the whole string, and formatting it against any argument
/// source gives back exactly the original string.
pub proof fn lemma_literal_round_trip(s: Seq<char>, args: Seq<Seq<char>>)
    requires
        s.len() > 0,
        !has_placeholder(s),
    ensures
        spec_compile(s) == seq![SegmentV { literal: s, index: None }],
        spec_format(spec_compile(s), args) == s,
{
    lemma_compile_literal_whole(s);
    let single = seq![SegmentV { literal: s, index: None }];
    assert(single.len() == 1);
    assert(single[0] == SegmentV { literal: s, index: None });
    assert(single.drop_first() =~= Seq::<SegmentV>::empty());
    assert(spec_format(single.drop_first(), args) =~= Seq::<char>::empty());
    assert(spec_format(single, args) =~= s);
}

impl CatalogEntry {
    /// Formats the currently selected variant of this entry against the
    /// given argument source.
    pub fn format<A: ArgSource>(&self, sel: &LanguageSelector, args: &A) -> (r: String)
        requires
            (sel@ as int) < self@.variants.len(),
        ensures
            r@ == spec_format(self@.variants[sel@ as int].segments, args.args()),
    {
        let ix = sel.current_index() as usize;
        proof {
            assert(self@.variants[ix as int].segments == segs_view(
                self.variants@[ix as int].segments@,
            ));
        }
        format_segments(&self.variants[ix].segments, args)
    }
}

} // verus!
