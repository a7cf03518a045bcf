//! The order of keys: lexicographic by code point, as strings are ordered.

use vstd::prelude::*;
use vstd::std_specs::iter::IteratorSpec;

verus! {

/// Whether `a` comes strictly before `b` in lexicographic order: at the first
/// place where they differ `a` has the lesser code point, or `a` ends first.
pub open spec fn lex_less(a: Seq<char>, b: Seq<char>) -> bool
    decreases a.len(),
{
    if b.len() == 0 {
        false
    } else if a.len() == 0 {
        true
    } else if a[0] != b[0] {
        (a[0] as int) < (b[0] as int)
    } else {
        lex_less(a.drop_first(), b.drop_first())
    }
}

/// No key comes before itself.
pub proof fn lemma_lex_irreflexive(a: Seq<char>)
    ensures
        !lex_less(a, a),
    decreases a.len(),
{
    if a.len() > 0 {
        lemma_lex_irreflexive(a.drop_first());
    }
}

/// Of two different keys one comes before the other.
pub proof fn lemma_lex_total(a: Seq<char>, b: Seq<char>)
    requires
        a != b,
    ensures
        lex_less(a, b) || lex_less(b, a),
    decreases a.len(),
{
    if a.len() > 0 && b.len() > 0 && a[0] == b[0] {
        if a.drop_first() == b.drop_first() {
            assert(a =~= seq![a[0]] + a.drop_first());
            assert(b =~= seq![b[0]] + b.drop_first());
        }
        lemma_lex_total(a.drop_first(), b.drop_first());
    } else if a.len() == 0 && b.len() == 0 {
        assert(a =~= b);
    }
}

/// The order is transitive.
pub proof fn lemma_lex_transitive(a: Seq<char>, b: Seq<char>, c: Seq<char>)
    requires
        lex_less(a, b),
        lex_less(b, c),
    ensures
        lex_less(a, c),
    decreases a.len(),
{
    if a.len() > 0 && a[0] == b[0] && b[0] == c[0] {
        lemma_lex_transitive(a.drop_first(), b.drop_first(), c.drop_first());
    }
}

/// No two keys come before each other.
pub proof fn lemma_lex_asymmetric(a: Seq<char>, b: Seq<char>)
    requires
        lex_less(a, b),
    ensures
        !lex_less(b, a),
{
    if lex_less(b, a) {
        lemma_lex_transitive(a, b, a);
        lemma_lex_irreflexive(a);
    }
}

/// Tells whether `a` comes strictly before `b`.
pub fn is_lex_less(a: &str, b: &str) -> (less: bool)
    ensures
        less == lex_less(a@, b@),
{
    let mut left = a.chars();
    let mut right = b.chars();
    let ghost mut i: int = 0;
    loop
        invariant
            0 <= i <= a@.len(),
            i <= b@.len(),
            left.remaining() == a@.skip(i),
            right.remaining() == b@.skip(i),
            lex_less(a@, b@) == lex_less(a@.skip(i), b@.skip(i)),
        decreases a@.len() - i,
    {
        let x = left.next();
        let y = right.next();
        proof {
            if i < a@.len() {
                assert(a@.skip(i).drop_first() =~= a@.skip(i + 1));
            }
            if i < b@.len() {
                assert(b@.skip(i).drop_first() =~= b@.skip(i + 1));
            }
        }
        match y {
            None => {
                return false;
            },
            Some(d) => {
                match x {
                    None => {
                        return true;
                    },
                    Some(c) => {
                        if c != d {
                            return c < d;
                        }
                    },
                }
            },
        }
        proof {
            i = i + 1;
        }
    }
}

/// Tells whether two texts are the same.
pub fn is_same_text(a: &str, b: &str) -> (same: bool)
    ensures
        same == (a@ == b@),
{
    proof {
        lemma_lex_irreflexive(a@);
        if a@ != b@ {
            lemma_lex_total(a@, b@);
        }
    }
    !is_lex_less(a, b) && !is_lex_less(b, a)
}

} // verus!
