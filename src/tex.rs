//! Escaping text for LaTeX.
use vstd::prelude::*;

verus! {

/// What LaTeX needs in place of one character: `%` and `$` get a backslash.
pub open spec fn escape_char(c: char) -> Seq<char> {
    if c == '%' {
        seq!['\\', '%']
    } else if c == '$' {
        seq!['\\', '$']
    } else {
        seq![c]
    }
}

/// The characters of `s`, each escaped.
pub open spec fn escaped(s: Seq<char>) -> Seq<char>
    decreases s.len(),
{
    if s.len() == 0 {
        Seq::empty()
    } else {
        escaped(s.drop_last()) + escape_char(s.last())
    }
}

/// Relies on `String::push`: the character is appended.
#[verifier::external_body]
fn push_char(s: &mut String, c: char)
    ensures
        final(s)@ == old(s)@.push(c),
{
    s.push(c)
}

/// The LaTeX escaper.
#[derive(Clone, Copy, Debug, Default)]
pub struct Tex;

impl Tex {
    /// `s` with `%` and `$` escaped for LaTeX.
    pub fn write_escaped_str(&self, s: &str) -> (r: String)
        ensures
            r@ == escaped(s@),
    {
        let n = s.unicode_len();
        let mut out = String::new();
        let mut i: usize = 0;
        while i < n
            invariant
                i <= n,
                n == s@.len(),
                out@ == escaped(s@.subrange(0, i as int)),
            decreases n - i,
        {
            let c = s.get_char(i);
            assert(s@.subrange(0, i + 1).drop_last() =~= s@.subrange(0, i as int));
            if c == '%' {
                push_char(&mut out, '\\');
                push_char(&mut out, '%');
            } else if c == '$' {
                push_char(&mut out, '\\');
                push_char(&mut out, '$');
            } else {
                push_char(&mut out, c);
            }
            assert(out@ =~= escaped(s@.subrange(0, i + 1)));
            i = i + 1;
        }
        assert(s@.subrange(0, n as int) =~= s@);
        out
    }
}

} // verus!
