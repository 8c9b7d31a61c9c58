//! Escaping a string for embedding in generated source text.

use vstd::prelude::*;

verus! {

/// What one character becomes: newline, carriage return, tab and double
/// quote turn into a backslash escape whose backslash the final
/// backslash-doubling pass doubles again; a backslash becomes two; any
/// other character stays itself.
pub open spec fn escape_char(c: char) -> Seq<char> {
    if c == '\n' {
        seq!['\\', '\\', 'n']
    } else if c == '\r' {
        seq!['\\', '\\', 'r']
    } else if c == '\t' {
        seq!['\\', '\\', 't']
    } else if c == '"' {
        seq!['\\', '\\', '"']
    } else if c == '\\' {
        seq!['\\', '\\']
    } else {
        seq![c]
    }
}

pub open spec fn escape_seq(s: Seq<char>) -> Seq<char>
    decreases s.len(),
{
    if s.len() == 0 {
        Seq::empty()
    } else {
        escape_char(s[0]) + escape_seq(s.drop_first())
    }
}

proof fn lemma_escape_push(s: Seq<char>, c: char)
    ensures
        escape_seq(s.push(c)) == escape_seq(s) + escape_char(c),
    decreases s.len(),
{
    if s.len() == 0 {
        assert(s.push(c).drop_first() =~= Seq::empty());
        assert(escape_char(s.push(c)[0]) + escape_seq(Seq::empty()) =~= escape_char(c));
        assert(escape_seq(s) + escape_char(c) =~= escape_char(c));
    } else {
        assert(s.push(c).drop_first() =~= s.drop_first().push(c));
        lemma_escape_push(s.drop_first(), c);
        assert(escape_char(s[0]) + (escape_seq(s.drop_first()) + escape_char(c)) =~= (escape_char(
            s[0],
        ) + escape_seq(s.drop_first())) + escape_char(c));
    }
}

/// Escapes the characters that cannot stand unescaped in a source string
/// literal; the escape for each character is fixed, so the passes compose
/// into one left-to-right walk.
pub fn escape_string_for_source(input: &str) -> (r: String)
    ensures
        r@ == escape_seq(input@),
{
    let n = input.unicode_len();
    let mut out = String::new();
    let mut i: usize = 0;
    proof {
        assert(input@.subrange(0, 0) =~= Seq::<char>::empty());
    }
    while i < n
        invariant
            i <= n,
            n == input@.len(),
            out@ == escape_seq(input@.subrange(0, i as int)),
        decreases n - i,
    {
        let c = input.get_char(i);
        if c == '\n' {
            out.push('\\');
            out.push('\\');
            out.push('n');
        } else if c == '\r' {
            out.push('\\');
            out.push('\\');
            out.push('r');
        } else if c == '\t' {
            out.push('\\');
            out.push('\\');
            out.push('t');
        } else if c == '"' {
            out.push('\\');
            out.push('\\');
            out.push('"');
        } else if c == '\\' {
            out.push('\\');
            out.push('\\');
        } else {
            out.push(c);
        }
        proof {
            assert(input@.subrange(0, i + 1) =~= input@.subrange(0, i as int).push(
                input@[i as int],
            ));
            lemma_escape_push(input@.subrange(0, i as int), input@[i as int]);
            assert(out@ =~= escape_seq(input@.subrange(0, i as int)) + escape_char(
                input@[i as int],
            ));
        }
        i += 1;
    }
    proof {
        assert(input@.subrange(0, n as int) =~= input@);
    }
    out
}

} // verus!
