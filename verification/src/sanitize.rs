use crate::text::{is_wspace, is_wspace_char, push_char};
use vstd::prelude::*;

verus! {

/// Whether `c` is one of the characters a sanitized string may hold:
/// a lower-case ASCII letter, an ASCII digit, or `-`.
pub open spec fn is_slug_char(c: char) -> bool {
    ||| ('a' as int) <= (c as int) <= ('z' as int)
    ||| ('0' as int) <= (c as int) <= ('9' as int)
    ||| c == '-'
}

/// The lower-case counterpart of an upper-case ASCII letter.
pub open spec fn lower_ascii(c: char) -> char
    recommends
        ('A' as int) <= (c as int) <= ('Z' as int),
{
    ((c as u8) + 32) as char
}

/// What one character contributes to a sanitized string: white space
/// becomes `-`; lower-case letters, digits and `-` stay; upper-case
/// ASCII letters turn lower case; everything else is dropped.
pub open spec fn sanitize_char(c: char) -> Seq<char> {
    if is_wspace(c) {
        seq!['-']
    } else if is_slug_char(c) {
        seq![c]
    } else if ('A' as int) <= (c as int) <= ('Z' as int) {
        seq![lower_ascii(c)]
    } else {
        seq![]
    }
}

/// The sanitized form of a string: each character replaced by what
/// `sanitize_char` gives for it.
pub open spec fn spec_sanitize(s: Seq<char>) -> Seq<char>
    decreases s.len(),
{
    if s.len() == 0 {
        Seq::empty()
    } else {
        sanitize_char(s[0]) + spec_sanitize(s.drop_first())
    }
}

proof fn lemma_sanitize_snoc(s: Seq<char>, c: char)
    ensures
        spec_sanitize(s.push(c)) == spec_sanitize(s) + sanitize_char(c),
    decreases s.len(),
{
    if s.len() == 0 {
        let p = s.push(c);
        assert(p.len() == 1);
        assert(p[0] == c);
        assert(p.drop_first() =~= Seq::<char>::empty());
        assert(spec_sanitize(p) == sanitize_char(c) + spec_sanitize(p.drop_first()));
        assert(spec_sanitize(p.drop_first()) == Seq::<char>::empty());
        assert(spec_sanitize(s) == Seq::<char>::empty());
        assert(spec_sanitize(s.push(c)) =~= spec_sanitize(s) + sanitize_char(c));
    } else {
        assert(s.push(c).drop_first() =~= s.drop_first().push(c));
        lemma_sanitize_snoc(s.drop_first(), c);
        assert(spec_sanitize(s.push(c)) =~= spec_sanitize(s) + sanitize_char(c));
    }
}

/// Every character of a sanitized string is a lower-case letter, a
/// digit, or `-`.
pub proof fn lemma_sanitize_charset(s: Seq<char>)
    ensures
        forall|i: int| 0 <= i < spec_sanitize(s).len() ==> is_slug_char(#[trigger] spec_sanitize(
            s,
        )[i]),
    decreases s.len(),
{
    if s.len() > 0 {
        lemma_sanitize_charset(s.drop_first());
        assert forall|i: int| 0 <= i < spec_sanitize(s).len() implies is_slug_char(
            spec_sanitize(s)[i],
        ) by {
            let head = sanitize_char(s[0]);
            if i < head.len() {
                assert(spec_sanitize(s)[i] == head[i]);
            } else {
                assert(spec_sanitize(s)[i] == spec_sanitize(s.drop_first())[i - head.len()]);
            }
        }
    }
}

/// Sanitizing is idempotent: a sanitized string passes through
/// `spec_sanitize` unchanged.
pub proof fn lemma_sanitize_idempotent(s: Seq<char>)
    ensures
        spec_sanitize(spec_sanitize(s)) == spec_sanitize(s),
{
    lemma_sanitize_charset(s);
    lemma_sanitize_fixed(spec_sanitize(s));
}

/// A string made only of slug characters is a fixed point of
/// `spec_sanitize`.
pub proof fn lemma_sanitize_fixed(s: Seq<char>)
    requires
        forall|i: int| 0 <= i < s.len() ==> is_slug_char(#[trigger] s[i]),
    ensures
        spec_sanitize(s) == s,
    decreases s.len(),
{
    if s.len() > 0 {
        assert(is_slug_char(s[0]));
        assert(!is_wspace(s[0]));
        assert(sanitize_char(s[0]) =~= seq![s[0]]);
        lemma_sanitize_fixed(s.drop_first());
        assert(spec_sanitize(s) =~= s);
    }
}

/// Utility methods shared across the generators.
pub struct Helper {}

impl Helper {
    /// Replaces white space with `-`, keeps only `a-z`, `A-Z`, `0-9`
    /// and `-`, and turns the result lower case.
    pub fn sanitize_string(s: &str) -> (r: String)
        ensures
            r@ == spec_sanitize(s@),
    {
        let n = s.unicode_len();
        let mut r = String::new();
        let mut i: usize = 0;
        while i < n
            invariant
                0 <= i <= n,
                n == s@.len(),
                r@ == spec_sanitize(s@.take(i as int)),
            decreases n - i,
        {
            let c = s.get_char(i);
            proof {
                lemma_sanitize_snoc(s@.take(i as int), c);
                assert(s@.take(i as int).push(c) =~= s@.take(i + 1));
            }
            if is_wspace_char(c) {
                push_char(&mut r, '-');
            } else if (c >= 'a' && c <= 'z') || (c >= '0' && c <= '9') || c == '-' {
                push_char(&mut r, c);
            } else if c >= 'A' && c <= 'Z' {
                push_char(&mut r, ((c as u8) + 32) as char);
            } else {
            }
            i = i + 1;
        }
        proof {
            assert(s@.take(n as int) =~= s@);
        }
        r
    }
}

} // verus!
