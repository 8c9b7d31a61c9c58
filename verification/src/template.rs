//! Compilation of a raw template string into literal/placeholder segments.
//!
//! The placeholder grammar: a `{` followed immediately by one or more ASCII
//! digits and a closing `}` is a placeholder whose index is the parsed
//! integer. Any other use of `{` is literal text: the `{` itself, a digit run
//! that never reaches `}`, and a digit run whose value does not fit in
//! `usize` all stay in the literal buffer, character for character.

use vstd::prelude::*;

verus! {

/// One compiled piece of a template: a literal prefix, then optionally the
/// positional argument slot that follows it. The final segment of a template
/// with trailing literal text carries no slot.
pub struct Segment {
    pub literal: String,
    pub index: Option<usize>,
}

/// The mathematical shape of a [`Segment`].
pub struct SegmentV {
    pub literal: Seq<char>,
    pub index: Option<usize>,
}

impl View for Segment {
    type V = SegmentV;

    open spec fn view(&self) -> SegmentV {
        SegmentV { literal: self.literal@, index: self.index }
    }
}

pub open spec fn segs_view(s: Seq<Segment>) -> Seq<SegmentV> {
    s.map_values(|g: Segment| g@)
}

pub open spec fn is_digit(c: char) -> bool {
    48 <= c as int && c as int <= 57
}

/// Numeric value of a run of ASCII digit characters.
pub open spec fn digits_val(s: Seq<char>) -> int
    decreases s.len(),
{
    if s.len() == 0 {
        0
    } else {
        digits_val(s.drop_last()) * 10 + (s.last() as int - 48)
    }
}

/// Scanning state inside literal text, at position `i`, with the pending
/// literal prefix `kbuf`.
pub open spec fn compile_lit(s: Seq<char>, i: int, kbuf: Seq<char>) -> Seq<SegmentV>
    decreases s.len() - i, 1int,
{
    if i < 0 || i >= s.len() {
        if kbuf.len() == 0 {
            Seq::empty()
        } else {
            seq![SegmentV { literal: kbuf, index: None }]
        }
    } else if s[i] != '{' {
        compile_lit(s, i + 1, kbuf.push(s[i]))
    } else if i + 1 >= s.len() {
        compile_lit(s, i + 1, kbuf.push('{'))
    } else if !is_digit(s[i + 1]) {
        compile_lit(s, i + 2, kbuf.push('{').push(s[i + 1]))
    } else {
        compile_num(s, i + 2, kbuf, i + 1)
    }
}

/// Scanning state inside a digit run that began right after a `{`: the run
/// starts at `nstart`, the scan stands at `i`, and `s[nstart .. i]` are the
/// digits seen so far.
pub open spec fn compile_num(s: Seq<char>, i: int, kbuf: Seq<char>, nstart: int) -> Seq<SegmentV>
    decreases s.len() - i, 0int,
{
    if i < 0 || i >= s.len() {
        // the run never reached `}`: the whole attempt stays literal
        seq![SegmentV { literal: kbuf.push('{') + s.subrange(nstart, i), index: None }]
    } else if is_digit(s[i]) {
        compile_num(s, i + 1, kbuf, nstart)
    } else if s[i] == '}' && digits_val(s.subrange(nstart, i)) <= usize::MAX as int {
        seq![
            SegmentV {
                literal: kbuf,
                index: Some(digits_val(s.subrange(nstart, i)) as usize),
            },
        ] + compile_lit(s, i + 1, Seq::empty())
    } else if s[i] == '}' {
        compile_lit(s, i + 1, kbuf.push('{') + s.subrange(nstart, i) + seq!['}'])
    } else {
        compile_lit(s, i + 1, kbuf.push('{') + s.subrange(nstart, i) + seq![s[i]])
    }
}

/// Segments of a whole template string.
pub open spec fn spec_compile(s: Seq<char>) -> Seq<SegmentV> {
    compile_lit(s, 0, Seq::empty())
}

/// Positions `i` and `j` frame a well-formed placeholder in `s`: a `{`, at
/// least one digit, a `}`, and an index value that fits in `usize`.
pub open spec fn placeholder_pair(s: Seq<char>, i: int, j: int) -> bool {
    &&& 0 <= i
    &&& i + 1 < j < s.len()
    &&& s[i] == '{'
    &&& s[j] == '}'
    &&& forall|t: int| i < t < j ==> is_digit(s[t])
    &&& digits_val(s.subrange(i + 1, j)) <= usize::MAX as int
}

pub open spec fn has_placeholder(s: Seq<char>) -> bool {
    exists|i: int, j: int| placeholder_pair(s, i, j)
}

/// Scanning a string with no placeholder only ever grows the literal buffer.
proof fn lemma_compile_lit_literal(s: Seq<char>, i: int)
    requires
        0 <= i <= s.len(),
        !has_placeholder(s),
    ensures
        compile_lit(s, i, s.subrange(0, i)) == if s.len() == 0 {
            Seq::<SegmentV>::empty()
        } else {
            seq![SegmentV { literal: s, index: None }]
        },
    decreases s.len() - i, 1int,
{
    if i >= s.len() {
        assert(s.subrange(0, i) =~= s);
    } else if s[i] != '{' {
        assert(s.subrange(0, i).push(s[i]) =~= s.subrange(0, i + 1));
        lemma_compile_lit_literal(s, i + 1);
    } else if i + 1 >= s.len() {
        assert(s.subrange(0, i).push('{') =~= s.subrange(0, i + 1));
        lemma_compile_lit_literal(s, i + 1);
    } else if !is_digit(s[i + 1]) {
        assert(s.subrange(0, i).push('{').push(s[i + 1]) =~= s.subrange(0, i + 2));
        lemma_compile_lit_literal(s, i + 2);
    } else {
        lemma_compile_num_literal(s, i + 2, i + 1);
    }
}

proof fn lemma_compile_num_literal(s: Seq<char>, i: int, nstart: int)
    requires
        1 <= nstart < i <= s.len(),
        s[nstart - 1] == '{',
        forall|t: int| nstart <= t < i ==> is_digit(s[t]),
        !has_placeholder(s),
    ensures
        compile_num(s, i, s.subrange(0, nstart - 1), nstart) == seq![
            SegmentV { literal: s, index: None },
        ],
    decreases s.len() - i, 0int,
{
    let kbuf = s.subrange(0, nstart - 1);
    if i >= s.len() {
        assert(kbuf.push('{') + s.subrange(nstart, i) =~= s);
    } else if is_digit(s[i]) {
        lemma_compile_num_literal(s, i + 1, nstart);
    } else if s[i] == '}' && digits_val(s.subrange(nstart, i)) <= usize::MAX as int {
        assert(placeholder_pair(s, nstart - 1, i));
        assert(false);
    } else if s[i] == '}' {
        assert(kbuf.push('{') + s.subrange(nstart, i) + seq!['}'] =~= s.subrange(0, i + 1));
        lemma_compile_lit_literal(s, i + 1);
    } else {
        assert(kbuf.push('{') + s.subrange(nstart, i) + seq![s[i]] =~= s.subrange(0, i + 1));
        lemma_compile_lit_literal(s, i + 1);
    }
}

/// A template with no well-formed placeholder compiles to one literal
/// segment that holds the whole original string.
pub proof fn lemma_compile_literal_whole(s: Seq<char>)
    requires
        s.len() > 0,
        !has_placeholder(s),
    ensures
        spec_compile(s) == seq![SegmentV { literal: s, index: None }],
{
    assert(s.subrange(0, 0) =~= Seq::<char>::empty());
    lemma_compile_lit_literal(s, 0);
}

pub fn is_digit_exec(c: char) -> (r: bool)
    ensures
        r == is_digit(c),
{
    let u = c as u32;
    48 <= u && u <= 57
}

pub proof fn lemma_digits_val_nonneg(s: Seq<char>)
    requires
        forall|t: int| 0 <= t < s.len() ==> is_digit(s[t]),
    ensures
        digits_val(s) >= 0,
    decreases s.len(),
{
    if s.len() > 0 {
        lemma_digits_val_nonneg(s.drop_last());
    }
}

/// Extending a digit run never shrinks its value.
pub proof fn lemma_digits_val_mono(s: Seq<char>, from: int, t: int, to: int)
    requires
        0 <= from <= t <= to <= s.len(),
        forall|u: int| from <= u < to ==> is_digit(s[u]),
    ensures
        digits_val(s.subrange(from, to)) >= digits_val(s.subrange(from, t)),
    decreases to - t,
{
    if t < to {
        let shorter = s.subrange(from, to - 1);
        let longer = s.subrange(from, to);
        assert(longer.drop_last() =~= shorter);
        assert(forall|u: int| 0 <= u < shorter.len() ==> is_digit(shorter[u]));
        lemma_digits_val_nonneg(shorter);
        assert(digits_val(longer) == digits_val(shorter) * 10 + (longer.last() as int - 48));
        assert(digits_val(shorter) * 10 >= digits_val(shorter)) by (nonlinear_arith)
            requires digits_val(shorter) >= 0;
        lemma_digits_val_mono(s, from, t, to - 1);
    } else {
        assert(s.subrange(from, to) =~= s.subrange(from, t));
    }
}

/// Parses the digit run `s[from .. to]` as a `usize`, reporting overflow.
fn parse_digits(s: &str, from: usize, to: usize) -> (r: Option<usize>)
    requires
        from <= to <= s@.len(),
        forall|t: int| from <= t < to ==> is_digit(s@[t]),
    ensures
        match r {
            Some(v) => digits_val(s@.subrange(from as int, to as int)) == v,
            None => digits_val(s@.subrange(from as int, to as int)) > usize::MAX as int,
        },
{
    let mut acc: usize = 0;
    let mut t: usize = from;
    while t < to
        invariant
            from <= t <= to <= s@.len(),
            forall|u: int| from <= u < to ==> is_digit(s@[u]),
            acc == digits_val(s@.subrange(from as int, t as int)),
        decreases to - t,
    {
        let c = s.get_char(t);
        let d = ((c as u32) - 48) as usize;
        proof {
            assert(s@.subrange(from as int, t + 1).drop_last() =~= s@.subrange(
                from as int,
                t as int,
            ));
            assert(digits_val(s@.subrange(from as int, t + 1)) == acc * 10 + d);
        }
        if acc > (usize::MAX - d) / 10 {
            proof {
                assert(acc * 10 + d > usize::MAX) by (nonlinear_arith)
                    requires
                        acc > (usize::MAX - d) / 10,
                        0 <= d <= 9,
                        acc >= 0,
                ;
                lemma_digits_val_mono(s@, from as int, t + 1, to as int);
            }
            return None;
        }
        proof {
            assert(acc * 10 + d <= usize::MAX) by (nonlinear_arith)
                requires
                    acc <= (usize::MAX - d) / 10,
                    0 <= d <= 9,
                    acc >= 0,
            ;
        }
        acc = acc * 10 + d;
        t += 1;
    }
    proof {
        assert(s@.subrange(from as int, to as int) =~= s@.subrange(from as int, t as int));
    }
    Some(acc)
}

/// Appends the characters `s[from .. to]` to `buf`.
fn append_range(buf: &mut String, s: &str, from: usize, to: usize)
    requires
        from <= to <= s@.len(),
    ensures
        final(buf)@ == old(buf)@ + s@.subrange(from as int, to as int),
{
    let mut t: usize = from;
    while t < to
        invariant
            from <= t <= to <= s@.len(),
            buf@ == old(buf)@ + s@.subrange(from as int, t as int),
        decreases to - t,
    {
        let c = s.get_char(t);
        buf.push(c);
        proof {
            assert(old(buf)@ + s@.subrange(from as int, t + 1) =~= (old(buf)@ + s@.subrange(
                from as int,
                t as int,
            )).push(s@[t as int]));
        }
        t += 1;
    }
    proof {
        assert(old(buf)@ + s@.subrange(from as int, to as int) =~= buf@);
    }
}

/// Compiles one raw template string into its ordered segment list.
pub fn compile_template(s: &str) -> (res: Vec<Segment>)
    ensures
        segs_view(res@) == spec_compile(s@),
{
    let n = s.unicode_len();
    let mut res: Vec<Segment> = Vec::new();
    let mut kbuf = String::new();
    let mut i: usize = 0;
    proof {
        assert(segs_view(res@) + compile_lit(s@, 0, kbuf@) =~= spec_compile(s@));
    }
    while i < n
        invariant
            n == s@.len(),
            i <= n,
            spec_compile(s@) == segs_view(res@) + compile_lit(s@, i as int, kbuf@),
        decreases n - i,
    {
        let ghost res0 = res@;
        let ghost k0 = kbuf@;
        let c = s.get_char(i);
        if c != '{' {
            kbuf.push(c);
            i += 1;
        } else if i + 1 >= n {
            kbuf.push('{');
            i += 1;
        } else {
            let c2 = s.get_char(i + 1);
            if !is_digit_exec(c2) {
                kbuf.push('{');
                kbuf.push(c2);
                i += 2;
            } else {
                let nstart = i + 1;
                let mut j = i + 2;
                while j < n && is_digit_exec(s.get_char(j))
                    invariant
                        n == s@.len(),
                        nstart == i + 1,
                        i + 2 <= j <= n,
                        forall|u: int| nstart <= u < j ==> is_digit(s@[u]),
                        compile_lit(s@, i as int, kbuf@) == compile_num(
                            s@,
                            j as int,
                            kbuf@,
                            nstart as int,
                        ),
                    decreases n - j,
                {
                    j += 1;
                }
                let ghost digits = s@.subrange(nstart as int, j as int);
                if j >= n {
                    kbuf.push('{');
                    append_range(&mut kbuf, s, nstart, j);
                    i = j;
                    proof {
                        assert(kbuf@ =~= k0.push('{') + digits);
                    }
                } else {
                    let cj = s.get_char(j);
                    if cj == '}' {
                        match parse_digits(s, nstart, j) {
                            Some(v) => {
                                let lit = kbuf;
                                kbuf = String::new();
                                res.push(Segment { literal: lit, index: Some(v) });
                                i = j + 1;
                                proof {
                                    let seg = SegmentV { literal: k0, index: Some(v) };
                                    assert(segs_view(res@) =~= segs_view(res0).push(seg));
                                    assert(segs_view(res0) + (seq![seg] + compile_lit(
                                        s@,
                                        i as int,
                                        kbuf@,
                                    )) =~= segs_view(res@) + compile_lit(s@, i as int, kbuf@));
                                }
                            }
                            None => {
                                kbuf.push('{');
                                append_range(&mut kbuf, s, nstart, j);
                                kbuf.push('}');
                                i = j + 1;
                                proof {
                                    assert(kbuf@ =~= k0.push('{') + digits + seq!['}']);
                                }
                            }
                        }
                    } else {
                        kbuf.push('{');
                        append_range(&mut kbuf, s, nstart, j);
                        kbuf.push(cj);
                        i = j + 1;
                        proof {
                            assert(kbuf@ =~= k0.push('{') + digits + seq![s@[j as int]]);
                        }
                    }
                }
            }
        }
    }
    if !kbuf.as_str().is_empty() {
        res.push(Segment { literal: kbuf, index: None });
    }
    proof {
        assert(segs_view(res@) =~= spec_compile(s@));
    }
    res
}

} // verus!
