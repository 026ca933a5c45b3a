//! Lexicographic order on character sequences.
//!
//! Registry entries are kept sorted by name in ascending lexicographic
//! order of their characters' code points, which is also the order in which
//! an ordered map keyed by the names would iterate them.

use vstd::prelude::*;

verus! {

/// `a` comes strictly before `b` in lexicographic code-point order.
pub open spec fn lex_lt(a: Seq<char>, b: Seq<char>) -> bool
    decreases a.len(),
{
    if b.len() == 0 {
        false
    } else if a.len() == 0 {
        true
    } else if (a[0] as int) < (b[0] as int) {
        true
    } else if a[0] == b[0] {
        lex_lt(a.drop_first(), b.drop_first())
    } else {
        false
    }
}

/// No sequence comes before itself.
pub proof fn lemma_lex_irrefl(a: Seq<char>)
    ensures
        !lex_lt(a, a),
    decreases a.len(),
{
    if a.len() > 0 {
        lemma_lex_irrefl(a.drop_first());
    }
}

/// Of two distinct sequences, exactly one comes before the other.
pub proof fn lemma_lex_trichotomy(a: Seq<char>, b: Seq<char>)
    ensures
        lex_lt(a, b) || lex_lt(b, a) || a == b,
        lex_lt(a, b) ==> !lex_lt(b, a) && a != b,
    decreases a.len(),
{
    lemma_lex_irrefl(a);
    lemma_lex_irrefl(b);
    if a.len() > 0 && b.len() > 0 && a[0] == b[0] {
        lemma_lex_trichotomy(a.drop_first(), b.drop_first());
        if a.drop_first() == b.drop_first() {
            assert(a =~= b) by {
                assert forall|j: int| 0 <= j < a.len() implies a[j] == b[j] by {
                    if j > 0 {
                        assert(a[j] == a.drop_first()[j - 1]);
                        assert(b[j] == b.drop_first()[j - 1]);
                    }
                }
            }
        }
    }
}

/// Lexicographic order is transitive.
pub proof fn lemma_lex_trans(a: Seq<char>, b: Seq<char>, c: Seq<char>)
    requires
        lex_lt(a, b),
        lex_lt(b, c),
    ensures
        lex_lt(a, c),
    decreases a.len(),
{
    if b.len() > 0 && c.len() > 0 && a.len() > 0 {
        if a[0] == b[0] && b[0] == c[0] {
            lemma_lex_trans(a.drop_first(), b.drop_first(), c.drop_first());
        }
    }
}

/// Dropping an equal first character on both sides keeps the order.
proof fn lemma_lex_step(a: Seq<char>, b: Seq<char>)
    requires
        a.len() > 0,
        b.len() > 0,
        a[0] == b[0],
    ensures
        lex_lt(a, b) == lex_lt(a.drop_first(), b.drop_first()),
{
}

/// Compares two strings in lexicographic code-point order.
///
/// Returns a negative ordering as `0`, equality as `1` and a positive
/// ordering as `2`, so that one scan settles both `lex_lt` and equality.
pub fn str_lex_cmp(a: &str, b: &str) -> (r: u8)
    ensures
        r == 0 <==> lex_lt(a@, b@),
        r == 1 <==> a@ == b@,
        r == 2 <==> lex_lt(b@, a@),
{
    proof {
        lemma_lex_trichotomy(a@, b@);
        assert(a@.skip(0) =~= a@);
        assert(b@.skip(0) =~= b@);
    }
    let a_len = a.unicode_len();
    let b_len = b.unicode_len();
    let mut i: usize = 0;
    loop
        invariant
            i <= a_len,
            i <= b_len,
            a_len == a@.len(),
            b_len == b@.len(),
            lex_lt(a@, b@) == lex_lt(a@.skip(i as int), b@.skip(i as int)),
            lex_lt(b@, a@) == lex_lt(b@.skip(i as int), a@.skip(i as int)),
            (a@ == b@) == (a@.skip(i as int) == b@.skip(i as int)),
        decreases a_len - i,
    {
        if i == a_len || i == b_len {
            proof {
                lemma_lex_trichotomy(a@, b@);
            }
            if a_len == b_len {
                assert(a@.skip(i as int) =~= b@.skip(i as int));
                return 1;
            } else if i == a_len {
                assert(a@.skip(i as int).len() == 0);
                assert(lex_lt(a@.skip(i as int), b@.skip(i as int)));
                return 0;
            } else {
                assert(b@.skip(i as int).len() == 0);
                assert(lex_lt(b@.skip(i as int), a@.skip(i as int)));
                return 2;
            }
        }
        let ca = a.get_char(i);
        let cb = b.get_char(i);
        proof {
            assert(a@.skip(i as int)[0] == a@[i as int]);
            assert(b@.skip(i as int)[0] == b@[i as int]);
        }
        if (ca as u32) < (cb as u32) {
            assert(lex_lt(a@.skip(i as int), b@.skip(i as int)));
            return 0;
        } else if (cb as u32) < (ca as u32) {
            assert(lex_lt(b@.skip(i as int), a@.skip(i as int)));
            return 2;
        } else {
            proof {
                assert(ca == cb);
                lemma_lex_step(a@.skip(i as int), b@.skip(i as int));
                lemma_lex_step(b@.skip(i as int), a@.skip(i as int));
                assert(a@.skip(i as int).drop_first() =~= a@.skip(i + 1));
                assert(b@.skip(i as int).drop_first() =~= b@.skip(i + 1));
                if a@.skip(i + 1) == b@.skip(i + 1) {
                    assert(a@.skip(i as int) =~= b@.skip(i as int)) by {
                        assert forall|j: int| 0 <= j < a@.skip(i as int).len() implies a@.skip(
                            i as int,
                        )[j] == b@.skip(i as int)[j] by {
                            if j > 0 {
                                assert(a@.skip(i as int)[j] == a@.skip(i + 1)[j - 1]);
                                assert(b@.skip(i as int)[j] == b@.skip(i + 1)[j - 1]);
                            }
                        }
                    }
                }
                if a@.skip(i as int) == b@.skip(i as int) {
                    assert(a@.skip(i + 1) =~= b@.skip(i + 1)) by {
                        assert forall|j: int| 0 <= j < a@.skip(i + 1).len() implies #[trigger] a@.skip(
                            i + 1,
                        )[j] == b@.skip(i + 1)[j] by {
                            assert(a@.skip(i + 1)[j] == a@.skip(i as int)[j + 1]);
                            assert(b@.skip(i + 1)[j] == b@.skip(i as int)[j + 1]);
                        }
                    }
                }
            }
            i = i + 1;
        }
    }
}

} // verus!
