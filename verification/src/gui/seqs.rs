use crate::gui::world::Handle;
use vstd::prelude::*;

verus! {

/// `s` without the handles whose keys lie in `a`, in the same order.
pub open spec fn without(s: Seq<Handle>, a: Set<u64>) -> Seq<Handle>
    decreases s.len(),
{
    if s.len() == 0 {
        s
    } else {
        let rest = without(s.drop_last(), a);
        if a.contains(s.last().0) {
            rest
        } else {
            rest.push(s.last())
        }
    }
}

/// A handle is kept by `without` exactly when it was there and its key is not removed.
pub proof fn lemma_without_contains(s: Seq<Handle>, a: Set<u64>, h: Handle)
    ensures
        without(s, a).contains(h) <==> (s.contains(h) && !a.contains(h.0)),
    decreases s.len(),
{
    if s.len() > 0 {
        lemma_without_contains(s.drop_last(), a, h);
        assert(s =~= s.drop_last().push(s.last()));
        if s.drop_last().contains(h) {
            let i = choose|i: int| 0 <= i < s.drop_last().len() && s.drop_last()[i] == h;
            assert(s[i] == h);
        }
        if s.contains(h) && h != s.last() {
            let i = choose|i: int| 0 <= i < s.len() && s[i] == h;
            assert(i != s.len() - 1);
            assert(s.drop_last()[i] == h);
        }
        let rest = without(s.drop_last(), a);
        if !a.contains(s.last().0) {
            assert(rest.push(s.last())[rest.len() as int] == s.last());
            if rest.contains(h) {
                let i = choose|i: int| 0 <= i < rest.len() && rest[i] == h;
                assert(rest.push(s.last())[i] == h);
            }
            if rest.push(s.last()).contains(h) && h != s.last() {
                let i = choose|i: int| 0 <= i < rest.len() + 1 && rest.push(s.last())[i] == h;
                assert(rest[i] == h);
            }
        }
    }
}

/// `without` keeps a sequence free of duplicates.
pub proof fn lemma_without_no_dup(s: Seq<Handle>, a: Set<u64>)
    requires
        s.no_duplicates(),
    ensures
        without(s, a).no_duplicates(),
    decreases s.len(),
{
    if s.len() > 0 {
        let d = s.drop_last();
        assert(d.no_duplicates());
        lemma_without_no_dup(d, a);
        if !a.contains(s.last().0) {
            lemma_without_contains(d, a, s.last());
            assert(!d.contains(s.last())) by {
                if d.contains(s.last()) {
                    let i = choose|i: int| 0 <= i < d.len() && d[i] == s.last();
                    assert(s[i] == s[s.len() - 1]);
                }
            }
            let rest = without(d, a);
            assert forall|i: int, j: int|
                0 <= i < rest.push(s.last()).len() && 0 <= j < rest.push(s.last()).len() && i != j
                implies rest.push(s.last())[i] != rest.push(s.last())[j] by {
                if i < rest.len() && j < rest.len() {
                } else if i < rest.len() {
                    assert(rest.contains(rest[i]));
                } else {
                    assert(rest.contains(rest[j]));
                }
            }
        }
    }
}

/// Removing nothing keeps the sequence.
pub proof fn lemma_without_id(s: Seq<Handle>, a: Set<u64>)
    requires
        forall|i: int| 0 <= i < s.len() ==> !a.contains(#[trigger] s[i].0),
    ensures
        without(s, a) == s,
    decreases s.len(),
{
    if s.len() > 0 {
        lemma_without_id(s.drop_last(), a);
        assert(s.drop_last().push(s.last()) =~= s);
    }
}

/// `without` distributes over concatenation.
pub proof fn lemma_without_add(s: Seq<Handle>, t: Seq<Handle>, a: Set<u64>)
    ensures
        without(s + t, a) == without(s, a) + without(t, a),
    decreases t.len(),
{
    if t.len() == 0 {
        assert(s + t =~= s);
        assert(without(s, a) + without(t, a) =~= without(s, a));
    } else {
        lemma_without_add(s, t.drop_last(), a);
        assert((s + t).drop_last() =~= s + t.drop_last());
        assert((s + t).last() == t.last());
        if !a.contains(t.last().0) {
            assert((without(s, a) + without(t.drop_last(), a)).push(t.last())
                =~= without(s, a) + without(t.drop_last(), a).push(t.last()));
        }
    }
}

/// Removing two sets one after the other removes their union.
pub proof fn lemma_without_without(s: Seq<Handle>, a: Set<u64>, b: Set<u64>)
    ensures
        without(without(s, a), b) == without(s, a + b),
    decreases s.len(),
{
    if s.len() > 0 {
        lemma_without_without(s.drop_last(), a, b);
        let rest = without(s.drop_last(), a);
        if !a.contains(s.last().0) {
            assert(rest.push(s.last()).drop_last() =~= rest);
        }
    }
}

/// Removing the set `a` is the same as removing `b` when they agree on `s`.
pub proof fn lemma_without_same(s: Seq<Handle>, a: Set<u64>, b: Set<u64>)
    requires
        forall|i: int| 0 <= i < s.len() ==> (a.contains(#[trigger] s[i].0) <==> b.contains(s[i].0)),
    ensures
        without(s, a) == without(s, b),
    decreases s.len(),
{
    if s.len() > 0 {
        assert forall|i: int| 0 <= i < s.drop_last().len() implies (a.contains(
            #[trigger] s.drop_last()[i].0,
        ) <==> b.contains(s.drop_last()[i].0)) by {
            assert(s.drop_last()[i] == s[i]);
        }
        lemma_without_same(s.drop_last(), a, b);
        assert(s.last() == s[s.len() - 1]);
    }
}

/// Removing the element at its index from a sequence without duplicates
/// removes every occurrence of its key.
pub proof fn lemma_remove_is_without(s: Seq<Handle>, i: int)
    requires
        s.no_duplicates(),
        0 <= i < s.len(),
    ensures
        s.remove(i) == without(s, set![s[i].0]),
{
    let x = s[i];
    let pre = s.subrange(0, i);
    let post = s.subrange(i + 1, s.len() as int);
    assert(s =~= pre + seq![x] + post);
    assert(s.remove(i) =~= pre + post);
    assert forall|j: int| 0 <= j < pre.len() implies !set![x.0].contains(#[trigger] pre[j].0) by {
        assert(pre[j] == s[j]);
    }
    assert forall|j: int| 0 <= j < post.len() implies !set![x.0].contains(#[trigger] post[j].0) by {
        assert(post[j] == s[i + 1 + j]);
    }
    lemma_without_id(pre, set![x.0]);
    lemma_without_id(post, set![x.0]);
    lemma_without_add(pre + seq![x], post, set![x.0]);
    lemma_without_add(pre, seq![x], set![x.0]);
    assert(seq![x].drop_last() =~= Seq::<Handle>::empty());
    assert(without(seq![x], set![x.0]) =~= Seq::<Handle>::empty()) by {
        reveal_with_fuel(without, 2);
    }
    assert(pre + Seq::<Handle>::empty() =~= pre);
}

/// A concatenation is free of duplicates exactly when both parts are and
/// they share no element.
pub proof fn lemma_no_dup_concat(a: Seq<Handle>, b: Seq<Handle>)
    ensures
        (a + b).no_duplicates() <==> (a.no_duplicates() && b.no_duplicates() && forall|h: Handle|
            a.contains(h) ==> !b.contains(h)),
{
    let c = a + b;
    if c.no_duplicates() {
        assert forall|i: int, j: int| 0 <= i < a.len() && 0 <= j < a.len() && i != j implies a[i]
            != a[j] by {
            assert(c[i] == a[i] && c[j] == a[j]);
        }
        assert forall|i: int, j: int| 0 <= i < b.len() && 0 <= j < b.len() && i != j implies b[i]
            != b[j] by {
            assert(c[a.len() + i] == b[i] && c[a.len() + j] == b[j]);
        }
        assert forall|h: Handle| a.contains(h) implies !b.contains(h) by {
            if b.contains(h) {
                let i = choose|i: int| 0 <= i < a.len() && a[i] == h;
                let j = choose|j: int| 0 <= j < b.len() && b[j] == h;
                assert(c[i] == c[a.len() + j]);
            }
        }
    }
    if a.no_duplicates() && b.no_duplicates() && forall|h: Handle| a.contains(h) ==> !b.contains(h) {
        assert forall|i: int, j: int| 0 <= i < c.len() && 0 <= j < c.len() && i != j implies c[i]
            != c[j] by {
            if i < a.len() && j >= a.len() {
                assert(a.contains(a[i]));
                assert(b[j - a.len()] == c[j]);
            } else if j < a.len() && i >= a.len() {
                assert(a.contains(a[j]));
                assert(b[i - a.len()] == c[i]);
            } else if i >= a.len() && j >= a.len() {
                assert(b[i - a.len()] == c[i] && b[j - a.len()] == c[j]);
            }
        }
    }
}

/// What a concatenation contains.
pub proof fn lemma_concat_contains(a: Seq<Handle>, b: Seq<Handle>, h: Handle)
    ensures
        (a + b).contains(h) <==> (a.contains(h) || b.contains(h)),
{
    if (a + b).contains(h) {
        let i = choose|i: int| 0 <= i < (a + b).len() && (a + b)[i] == h;
        if i < a.len() {
            assert(a[i] == h);
        } else {
            assert(b[i - a.len()] == h);
        }
    }
    if a.contains(h) {
        let i = choose|i: int| 0 <= i < a.len() && a[i] == h;
        assert((a + b)[i] == h);
    }
    if b.contains(h) {
        let i = choose|i: int| 0 <= i < b.len() && b[i] == h;
        assert((a + b)[a.len() + i] == h);
    }
}

} // verus!
