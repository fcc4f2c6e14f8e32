//! The order of texts by their characters.

use crate::text::chars_of;
use vstd::prelude::*;

verus! {

/// Whether a text comes before another: at the first character in which they differ it has
/// the lower one, or it ends first.
pub open spec fn before(left: Seq<char>, right: Seq<char>) -> bool
    decreases left.len(),
{
    if right.len() == 0 {
        false
    } else if left.len() == 0 {
        true
    } else if left[0] != right[0] {
        left[0] < right[0]
    } else {
        before(left.drop_first(), right.drop_first())
    }
}

/// Whether a text comes before another.
pub fn comes_before(left: &str, right: &str) -> (result: bool)
    ensures
        result == before(left@, right@),
{
    let a = chars_of(left);
    let b = chars_of(right);
    let mut i: usize = 0;
    proof {
        assert(a@.skip(0) == a@);
        assert(b@.skip(0) == b@);
    }
    while i < a.len() && i < b.len()
        invariant
            i <= a.len(),
            i <= b.len(),
            a@ == left@,
            b@ == right@,
            before(left@, right@) == before(a@.skip(i as int), b@.skip(i as int)),
        decreases a.len() - i,
    {
        proof {
            assert(a@.skip(i as int).drop_first() =~= a@.skip(i + 1));
            assert(b@.skip(i as int).drop_first() =~= b@.skip(i + 1));
        }
        if a[i] != b[i] {
            return a[i] < b[i];
        }
        i = i + 1;
    }
    i < b.len()
}

/// No text comes before itself.
pub proof fn lemma_before_irreflexive(text: Seq<char>)
    ensures
        !before(text, text),
    decreases text.len(),
{
    if text.len() > 0 {
        lemma_before_irreflexive(text.drop_first());
    }
}

/// The order is transitive.
pub proof fn lemma_before_transitive(a: Seq<char>, b: Seq<char>, c: Seq<char>)
    requires
        before(a, b),
        before(b, c),
    ensures
        before(a, c),
    decreases a.len(),
{
    if a.len() > 0 && a[0] == b[0] && b[0] == c[0] {
        lemma_before_transitive(a.drop_first(), b.drop_first(), c.drop_first());
    }
}

/// Of two different texts one comes before the other.
pub proof fn lemma_before_total(a: Seq<char>, b: Seq<char>)
    requires
        a != b,
    ensures
        before(a, b) || before(b, a),
    decreases a.len(),
{
    if a.len() == 0 {
        assert(b.len() > 0) by {
            if b.len() == 0 {
                assert(a =~= b);
            }
        }
    } else if b.len() > 0 && a[0] == b[0] {
        if a.drop_first() == b.drop_first() {
            assert(a =~= seq![a[0]] + a.drop_first());
            assert(b =~= seq![b[0]] + b.drop_first());
        }
        lemma_before_total(a.drop_first(), b.drop_first());
    }
}

/// A text comes before another exactly where they agree up to some index, at which it has the
/// lower character, or ends while the other goes on.
pub proof fn law_first_difference_decides(left: Seq<char>, right: Seq<char>)
    ensures
        before(left, right) <==> exists|n: int|
            0 <= n <= left.len() && n < right.len() && #[trigger] left.take(n) == right.take(n) && (
            n == left.len() || left[n] < right[n]),
    decreases left.len(),
{
    if right.len() > 0 && left.len() > 0 && left[0] == right[0] {
        let l = left.drop_first();
        let r = right.drop_first();
        law_first_difference_decides(l, r);
        if before(l, r) {
            let n = choose|n: int|
                0 <= n <= l.len() && n < r.len() && #[trigger] l.take(n) == r.take(n) && (n
                    == l.len() || l[n] < r[n]);
            assert(left.take(n + 1) =~= seq![left[0]] + l.take(n));
            assert(right.take(n + 1) =~= seq![left[0]] + r.take(n));
            assert(left.take(n + 1) == right.take(n + 1));
        }
        assert forall|n: int|
            0 <= n <= left.len() && n < right.len() && #[trigger] left.take(n) == right.take(n) && (
            n == left.len() || left[n] < right[n]) implies before(l, r) by {
            assert(n > 0);
            assert(left.take(n).drop_first() =~= l.take(n - 1));
            assert(right.take(n).drop_first() =~= r.take(n - 1));
            assert(l.take(n - 1) == r.take(n - 1));
        }
    } else {
        if before(left, right) {
            assert(left.take(0) =~= right.take(0));
        }
        assert forall|n: int|
            0 <= n <= left.len() && n < right.len() && #[trigger] left.take(n) == right.take(n) && (
            n == left.len() || left[n] < right[n]) implies before(
            left,
            right,
        ) by {
            if n > 0 {
                assert(left.take(n)[0] == left[0]);
                assert(right.take(n)[0] == right[0]);
            }
        }
    }
}

} // verus!
