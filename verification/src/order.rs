//! Lexicographic order on names (character sequences), used to keep every
//! name-keyed collection of the crate in one canonical, deterministic order.
use vstd::prelude::*;

verus! {

/// Strict lexicographic order on character sequences, comparing scalar values.
pub open spec fn chars_lt(a: Seq<char>, b: Seq<char>) -> bool
    decreases a.len(),
{
    if b.len() == 0 {
        false
    } else if a.len() == 0 {
        true
    } else if a[0] == b[0] {
        chars_lt(a.drop_first(), b.drop_first())
    } else {
        (a[0] as u32) < (b[0] as u32)
    }
}

/// `chars_lt` is irreflexive.
pub proof fn lemma_chars_lt_irreflexive(a: Seq<char>)
    ensures
        !chars_lt(a, a),
    decreases a.len(),
{
    if a.len() > 0 {
        lemma_chars_lt_irreflexive(a.drop_first());
    }
}

/// Two characters with the same scalar value are the same character.
proof fn lemma_char_cast_injective(c1: char, c2: char)
    requires
        c1 as u32 == c2 as u32,
    ensures
        c1 == c2,
{
}

/// `chars_lt` is total: two names are ordered one way or the other, or equal.
pub proof fn lemma_chars_lt_total(a: Seq<char>, b: Seq<char>)
    ensures
        chars_lt(a, b) || chars_lt(b, a) || a == b,
    decreases a.len(),
{
    if a.len() == 0 {
        if b.len() == 0 {
            assert(a =~= b);
        }
    } else if b.len() == 0 {
    } else if a[0] == b[0] {
        lemma_chars_lt_total(a.drop_first(), b.drop_first());
        if a.drop_first() == b.drop_first() {
            assert(a.drop_first().len() == a.len() - 1);
            assert(b.drop_first().len() == b.len() - 1);
            assert(a.len() == b.len());
            assert forall|i: int| 0 <= i < a.len() implies a[i] == b[i] by {
                if i > 0 {
                    assert(a[i] == a.drop_first()[i - 1]);
                    assert(b[i] == b.drop_first()[i - 1]);
                }
            }
            assert(a =~= b);
        }
    } else {
        if (a[0] as u32) == (b[0] as u32) {
            lemma_char_cast_injective(a[0], b[0]);
        }
    }
}

/// `chars_lt` is transitive.
pub proof fn lemma_chars_lt_transitive(a: Seq<char>, b: Seq<char>, c: Seq<char>)
    requires
        chars_lt(a, b),
        chars_lt(b, c),
    ensures
        chars_lt(a, c),
    decreases a.len(),
{
    if c.len() == 0 {
    } else if a.len() == 0 {
    } else if b.len() == 0 {
    } else if a[0] == b[0] && b[0] == c[0] {
        lemma_chars_lt_transitive(a.drop_first(), b.drop_first(), c.drop_first());
    }
}

/// Decides `chars_lt` on two strings.
pub fn string_lt(a: &String, b: &String) -> (r: bool)
    ensures
        r == chars_lt(a@, b@),
{
    let a_str = a.as_str();
    let b_str = b.as_str();
    let a_len = a_str.unicode_len();
    let b_len = b_str.unicode_len();
    let mut i: usize = 0;
    proof {
        assert(a@.skip(0) =~= a@);
        assert(b@.skip(0) =~= b@);
        assert(a@.subrange(0, 0) =~= b@.subrange(0, 0));
    }
    loop
        invariant
            i <= a_len,
            i <= b_len,
            a_len == a@.len(),
            b_len == b@.len(),
            a_str@ == a@,
            b_str@ == b@,
            a@.subrange(0, i as int) =~= b@.subrange(0, i as int),
            chars_lt(a@, b@) == chars_lt(a@.skip(i as int), b@.skip(i as int)),
        decreases a_len - i,
    {
        if i == b_len {
            return false;
        }
        if i == a_len {
            return true;
        }
        let ca = a_str.get_char(i);
        let cb = b_str.get_char(i);
        if ca != cb {
            proof {
                assert(a@.skip(i as int)[0] == ca);
                assert(b@.skip(i as int)[0] == cb);
            }
            return (ca as u32) < (cb as u32);
        }
        proof {
            let sa = a@.skip(i as int);
            let sb = b@.skip(i as int);
            assert(sa[0] == ca && sb[0] == cb);
            assert(sa.drop_first() =~= a@.skip(i as int + 1));
            assert(sb.drop_first() =~= b@.skip(i as int + 1));
            assert(a@.subrange(0, i as int + 1) =~= b@.subrange(0, i as int + 1));
        }
        i = i + 1;
    }
}

/// Decides view equality of two strings.
pub fn string_eq(a: &String, b: &String) -> (r: bool)
    ensures
        r == (a@ == b@),
{
    String::eq(a, b)
}

} // verus!
