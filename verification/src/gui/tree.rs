use crate::gui::flags::{has_flag, UiFlags};
use vstd::prelude::*;
use vstd::set_lib::lemma_len_subset;

verus! {

/// What the world holds of each widget: action bits, parent key, hidden marker.
pub type WidgetTable = Map<u64, (u16, Option<u64>, bool)>;

/// The widget `n` parent steps above `h` (`h` itself for `n == 0`), if the
/// chain of parents reaches that far.
pub open spec fn up(t: WidgetTable, h: u64, n: nat) -> Option<u64>
    decreases n,
{
    if n == 0 {
        Some(h)
    } else {
        match up(t, h, (n - 1) as nat) {
            Some(x) => if t.contains_key(x) {
                t[x].1
            } else {
                None
            },
            None => None,
        }
    }
}

/// `r` ranks the widgets so that every parent is a widget of lower rank.
pub open spec fn ranked(t: WidgetTable, r: Map<u64, nat>) -> bool {
    forall|h: u64|
        #[trigger] t.contains_key(h) ==> r.contains_key(h) && (t[h].1.is_some() ==> t.contains_key(
            t[h].1.unwrap(),
        ) && r[t[h].1.unwrap()] < r[h])
}

/// Finitely many widgets, every parent is a widget, and no chain of parents
/// comes back to where it started.
pub open spec fn well_formed(t: WidgetTable) -> bool {
    &&& t.dom().finite()
    &&& exists|r: Map<u64, nat>| ranked(t, r)
}

/// Whether `h` is `c` or lies below it.
pub open spec fn desc(t: WidgetTable, h: u64, c: u64) -> bool {
    exists|n: nat| #[trigger] up(t, h, n) == Some(c)
}

/// `c` and every widget below it.
pub open spec fn subtree(t: WidgetTable, c: u64) -> Set<u64> {
    t.dom().filter(|h: u64| desc(t, h, c))
}

/// `ch` is a widget whose parent is `c` and that is not hidden.
pub open spec fn vis_child(t: WidgetTable, ch: u64, c: u64) -> bool {
    t.contains_key(ch) && t[ch].1 == Some(c) && !t[ch].2
}

/// `ch` is a widget whose parent is `c` and that is hidden.
pub open spec fn hid_child(t: WidgetTable, ch: u64, c: u64) -> bool {
    t.contains_key(ch) && t[ch].1 == Some(c) && t[ch].2
}

/// The widget `h` lets its children be shown and hidden with it.
pub open spec fn allows_children(t: WidgetTable, h: u64) -> bool {
    has_flag(t[h].0, UiFlags::AllowChildren)
}

/// `h` is reached from `c` within `k` steps down through visible children,
/// passing only widgets that allow children.
pub open spec fn reach(t: WidgetTable, h: u64, c: u64, k: nat) -> bool
    decreases k,
{
    if k == 0 {
        false
    } else {
        exists|ch: u64|
            #[trigger] vis_child(t, ch, c) && (h == ch || (allows_children(t, ch) && reach(
                t,
                h,
                ch,
                (k - 1) as nat,
            )))
    }
}

/// The widgets that showing or hiding the children of `c` reaches: its
/// visible children, and below each of them that allows children, the
/// widgets it reaches in turn.
pub open spec fn shown(t: WidgetTable, c: u64) -> Set<u64> {
    Set::new(|h: u64| exists|k: nat| #[trigger] reach(t, h, c, k))
}

pub proof fn lemma_up_parent(t: WidgetTable, h: u64, p: u64, n: nat)
    requires
        t.contains_key(h),
        t[h].1 == Some(p),
    ensures
        up(t, h, n + 1) == up(t, p, n),
    decreases n,
{
    if n > 0 {
        lemma_up_parent(t, h, p, (n - 1) as nat);
        assert(up(t, h, n + 1) == match up(t, h, n) {
            Some(x) => if t.contains_key(x) {
                t[x].1
            } else {
                None
            },
            None => None,
        });
    } else {
        assert(up(t, h, 1) == match up(t, h, 0) {
            Some(x) => if t.contains_key(x) {
                t[x].1
            } else {
                None
            },
            None => None,
        });
    }
}

pub proof fn lemma_up_add(t: WidgetTable, h: u64, a: nat, b: nat)
    ensures
        up(t, h, a + b) == (match up(t, h, a) {
            Some(x) => up(t, x, b),
            None => None,
        }),
    decreases b,
{
    if b > 0 {
        lemma_up_add(t, h, a, (b - 1) as nat);
        assert(up(t, h, a + b) == match up(t, h, (a + b - 1) as nat) {
            Some(x) => if t.contains_key(x) {
                t[x].1
            } else {
                None
            },
            None => None,
        });
        assert((a + b - 1) as nat == a + (b - 1) as nat);
        match up(t, h, a) {
            Some(y) => {
                assert(up(t, y, b) == match up(t, y, (b - 1) as nat) {
                    Some(x) => if t.contains_key(x) {
                        t[x].1
                    } else {
                        None
                    },
                    None => None,
                });
            },
            None => {},
        }
    }
}

pub proof fn lemma_up_rank(t: WidgetTable, r: Map<u64, nat>, h: u64, n: nat)
    requires
        ranked(t, r),
        t.contains_key(h),
        up(t, h, n).is_some(),
    ensures
        t.contains_key(up(t, h, n).unwrap()),
        r[up(t, h, n).unwrap()] + n <= r[h],
    decreases n,
{
    if n > 0 {
        assert(up(t, h, n) == match up(t, h, (n - 1) as nat) {
            Some(x) => if t.contains_key(x) {
                t[x].1
            } else {
                None
            },
            None => None,
        });
        lemma_up_rank(t, r, h, (n - 1) as nat);
    }
}

/// Below the rank of `h` the chain of parents has run out.
pub proof fn lemma_up_ends(t: WidgetTable, r: Map<u64, nat>, h: u64, n: nat)
    requires
        ranked(t, r),
        t.contains_key(h),
        n > r[h],
    ensures
        up(t, h, n).is_none(),
{
    if up(t, h, n).is_some() {
        lemma_up_rank(t, r, h, n);
    }
}

/// A chain in a smaller table runs the same way in a larger one.
pub proof fn lemma_up_submap(t1: WidgetTable, t2: WidgetTable, h: u64, n: nat)
    requires
        t2.submap_of(t1),
        up(t2, h, n).is_some(),
    ensures
        up(t1, h, n) == up(t2, h, n),
    decreases n,
{
    if n > 0 {
        assert(up(t2, h, n) == match up(t2, h, (n - 1) as nat) {
            Some(x) => if t2.contains_key(x) {
                t2[x].1
            } else {
                None
            },
            None => None,
        });
        lemma_up_submap(t1, t2, h, (n - 1) as nat);
        let x = up(t2, h, (n - 1) as nat).unwrap();
        assert(t1.contains_key(x) && t1[x] == t2[x]);
    }
}

/// Whatever `reach` finds lies strictly below `c`.
pub proof fn lemma_reach_below(t: WidgetTable, h: u64, c: u64, k: nat)
    requires
        reach(t, h, c, k),
    ensures
        t.contains_key(h),
        exists|n: nat| n >= 1 && #[trigger] up(t, h, n) == Some(c),
    decreases k,
{
    let ch = choose|ch: u64|
        #[trigger] vis_child(t, ch, c) && (h == ch || (allows_children(t, ch) && reach(
            t,
            h,
            ch,
            (k - 1) as nat,
        )));
    if h == ch {
        lemma_up_parent(t, ch, c, 0);
        assert(up(t, h, 1) == Some(c));
    } else {
        lemma_reach_below(t, h, ch, (k - 1) as nat);
        let n = choose|n: nat| n >= 1 && #[trigger] up(t, h, n) == Some(ch);
        lemma_up_add(t, h, n, 1);
        lemma_up_parent(t, ch, c, 0);
        assert(up(t, h, n + 1) == Some(c));
    }
}

/// One step of `shown`: its members are the visible children and what each
/// that allows children shows.
pub proof fn lemma_shown_unfold(t: WidgetTable, c: u64, h: u64)
    ensures
        shown(t, c).contains(h) <==> exists|ch: u64|
            #[trigger] vis_child(t, ch, c) && (h == ch || (allows_children(t, ch) && shown(
                t,
                ch,
            ).contains(h))),
{
    if shown(t, c).contains(h) {
        let k = choose|k: nat| #[trigger] reach(t, h, c, k);
        let ch = choose|ch: u64|
            #[trigger] vis_child(t, ch, c) && (h == ch || (allows_children(t, ch) && reach(
                t,
                h,
                ch,
                (k - 1) as nat,
            )));
        if h != ch {
            assert(shown(t, ch).contains(h));
        }
    }
    if exists|ch: u64|
        #[trigger] vis_child(t, ch, c) && (h == ch || (allows_children(t, ch) && shown(
            t,
            ch,
        ).contains(h))) {
        let ch = choose|ch: u64|
            #[trigger] vis_child(t, ch, c) && (h == ch || (allows_children(t, ch) && shown(
                t,
                ch,
            ).contains(h)));
        if h == ch {
            assert(reach(t, h, c, 1));
        } else {
            let k = choose|k: nat| #[trigger] reach(t, h, ch, k);
            assert(reach(t, h, c, k + 1));
        }
    }
}

/// Everything `shown` finds lies strictly below `c`.
pub proof fn lemma_shown_below(t: WidgetTable, c: u64, h: u64)
    requires
        shown(t, c).contains(h),
    ensures
        t.contains_key(h),
        exists|n: nat| n >= 1 && #[trigger] up(t, h, n) == Some(c),
{
    let k = choose|k: nat| #[trigger] reach(t, h, c, k);
    lemma_reach_below(t, h, c, k);
}

/// The subtree of a widget is finite and contains the widget.
pub proof fn lemma_subtree_basics(t: WidgetTable, c: u64)
    requires
        t.dom().finite(),
        t.contains_key(c),
    ensures
        subtree(t, c).finite(),
        subtree(t, c).contains(c),
{
    assert(up(t, c, 0) == Some(c));
    lemma_len_subset(subtree(t, c), t.dom());
}

/// The subtree of a child is strictly smaller than that of its parent.
pub proof fn lemma_subtree_child(t: WidgetTable, ch: u64, c: u64)
    requires
        well_formed(t),
        t.contains_key(ch),
        t[ch].1 == Some(c),
    ensures
        subtree(t, ch).subset_of(subtree(t, c)),
        subtree(t, ch).len() < subtree(t, c).len(),
        !subtree(t, ch).contains(c),
{
    let r = choose|r: Map<u64, nat>| ranked(t, r);
    assert(t.contains_key(c));
    assert forall|h: u64| subtree(t, ch).contains(h) implies subtree(t, c).contains(h) by {
        let n = choose|n: nat| #[trigger] up(t, h, n) == Some(ch);
        lemma_up_add(t, h, n, 1);
        lemma_up_parent(t, ch, c, 0);
        assert(up(t, h, n + 1) == Some(c));
    }
    if subtree(t, ch).contains(c) {
        let n = choose|n: nat| #[trigger] up(t, c, n) == Some(ch);
        lemma_up_rank(t, r, c, n);
    }
    lemma_subtree_basics(t, c);
    lemma_len_subset(subtree(t, ch), subtree(t, c).remove(c));
}

/// Every widget met on the way up from a member of `subtree(t, c)` to `c` is
/// itself in that subtree.
pub proof fn lemma_subtree_chain(t: WidgetTable, h: u64, c: u64, n: nat, m: nat)
    requires
        up(t, h, n) == Some(c),
        m <= n,
        t.contains_key(h),
        t.contains_key(c),
    ensures
        up(t, h, m).is_some(),
        t.contains_key(up(t, h, m).unwrap()),
        desc(t, up(t, h, m).unwrap(), c),
    decreases n - m,
{
    lemma_up_add(t, h, m, (n - m) as nat);
    assert(m + (n - m) as nat == n);
    let x = up(t, h, m);
    if x.is_none() {
        assert(false);
    }
    if m == n {
        assert(up(t, c, 0) == Some(c));
    } else {
        lemma_subtree_chain(t, h, c, n, m + 1);
        assert(up(t, h, m + 1) == match up(t, h, m) {
            Some(x) => if t.contains_key(x) {
                t[x].1
            } else {
                None
            },
            None => None,
        });
        assert(up(t, x.unwrap(), (n - m) as nat) == Some(c));
    }
}

/// Two different children of the same widget have disjoint subtrees.
pub proof fn lemma_sibling_subtrees(t: WidgetTable, a: u64, b: u64, c: u64, h: u64)
    requires
        well_formed(t),
        t.contains_key(a),
        t.contains_key(b),
        t[a].1 == Some(c),
        t[b].1 == Some(c),
        a != b,
        subtree(t, a).contains(h),
    ensures
        !subtree(t, b).contains(h),
{
    let r = choose|r: Map<u64, nat>| ranked(t, r);
    if subtree(t, b).contains(h) {
        let na = choose|n: nat| #[trigger] up(t, h, n) == Some(a);
        let nb = choose|n: nat| #[trigger] up(t, h, n) == Some(b);
        if na < nb {
            lemma_up_add(t, h, na, (nb - na) as nat);
            assert(na + (nb - na) as nat == nb);
            let d = (nb - na - 1) as nat;
            lemma_up_parent(t, a, c, d);
            assert(up(t, c, d) == Some(b));
            lemma_up_rank(t, r, c, d);
        } else if nb < na {
            lemma_up_add(t, h, nb, (na - nb) as nat);
            assert(nb + (na - nb) as nat == na);
            let d = (na - nb - 1) as nat;
            lemma_up_parent(t, b, c, d);
            assert(up(t, c, d) == Some(a));
            lemma_up_rank(t, r, c, d);
        }
    }
}

/// What `shown` finds lies in the subtree of `c` and is not `c` itself.
pub proof fn lemma_shown_in_subtree(t: WidgetTable, c: u64, h: u64)
    requires
        well_formed(t),
        shown(t, c).contains(h),
    ensures
        subtree(t, c).contains(h),
        h != c,
{
    let r = choose|r: Map<u64, nat>| ranked(t, r);
    lemma_shown_below(t, c, h);
    let n = choose|n: nat| n >= 1 && #[trigger] up(t, h, n) == Some(c);
    if h == c {
        lemma_up_rank(t, r, h, n);
    }
}

/// What a widget below `c` shows lies below `c` too.
pub proof fn lemma_shown_trans(t: WidgetTable, c: u64, x: u64, y: u64)
    requires
        well_formed(t),
        subtree(t, c).contains(x),
        shown(t, x).contains(y),
    ensures
        subtree(t, c).contains(y),
{
    lemma_shown_in_subtree(t, x, y);
    let n1 = choose|n: nat| #[trigger] up(t, y, n) == Some(x);
    let n2 = choose|n: nat| #[trigger] up(t, x, n) == Some(c);
    lemma_up_add(t, y, n1, n2);
    assert(up(t, y, n1 + n2) == Some(c));
    assert(desc(t, y, c));
}

/// No widget shows a widget that shows it back.
pub proof fn lemma_shown_acyclic(t: WidgetTable, x: u64, y: u64)
    requires
        well_formed(t),
        shown(t, x).contains(y),
    ensures
        !shown(t, y).contains(x),
{
    let r = choose|r: Map<u64, nat>| ranked(t, r);
    lemma_shown_below(t, x, y);
    let n = choose|n: nat| n >= 1 && #[trigger] up(t, y, n) == Some(x);
    lemma_up_rank(t, r, y, n);
    if shown(t, y).contains(x) {
        lemma_shown_below(t, y, x);
        let m = choose|m: nat| m >= 1 && #[trigger] up(t, x, m) == Some(y);
        lemma_up_rank(t, r, x, m);
    }
}

/// A chain in a smaller table runs the same way as in a larger one as long as
/// every widget it passes is still there.
pub proof fn lemma_up_keep(t1: WidgetTable, t2: WidgetTable, h: u64, n: nat)
    requires
        t2.submap_of(t1),
        forall|j: nat|
            j < n && (#[trigger] up(t1, h, j)).is_some() ==> t2.contains_key(up(t1, h, j).unwrap()),
    ensures
        up(t2, h, n) == up(t1, h, n),
    decreases n,
{
    if n > 0 {
        lemma_up_keep(t1, t2, h, (n - 1) as nat);
        assert(up(t2, h, n) == match up(t2, h, (n - 1) as nat) {
            Some(x) => if t2.contains_key(x) {
                t2[x].1
            } else {
                None
            },
            None => None,
        });
        assert(up(t1, h, n) == match up(t1, h, (n - 1) as nat) {
            Some(x) => if t1.contains_key(x) {
                t1[x].1
            } else {
                None
            },
            None => None,
        });
    }
}

/// `a` holds, with each widget, every widget whose parent it is.
pub open spec fn closed_below(t: WidgetTable, a: Set<u64>) -> bool {
    forall|h: u64|
        #[trigger] t.contains_key(h) && t[h].1.is_some() && a.contains(t[h].1.unwrap()) ==> a.contains(
            h,
        )
}

/// Taking away a set that holds, with each widget, all widgets below it
/// keeps the table well formed.
pub proof fn lemma_wf_remove(t: WidgetTable, a: Set<u64>)
    requires
        well_formed(t),
        closed_below(t, a),
    ensures
        well_formed(t.remove_keys(a)),
{
    let r = choose|r: Map<u64, nat>| ranked(t, r);
    let t2 = t.remove_keys(a);
    assert(t2.dom() =~= t.dom().difference(a));
    assert(ranked(t2, r));
}

/// A subtree holds, with each widget, all widgets below it.
pub proof fn lemma_subtree_closed(t: WidgetTable, c: u64)
    ensures
        closed_below(t, subtree(t, c)),
{
    assert forall|h: u64|
        #[trigger] t.contains_key(h) && t[h].1.is_some() && subtree(t, c).contains(
            t[h].1.unwrap(),
        ) implies subtree(t, c).contains(h) by {
        let p = t[h].1.unwrap();
        let n = choose|n: nat| #[trigger] up(t, p, n) == Some(c);
        lemma_up_parent(t, h, p, n);
        assert(up(t, h, n + 1) == Some(c));
    }
}

/// Taking away widgets outside the subtree of `ch` leaves that subtree as it was.
pub proof fn lemma_subtree_keep(t: WidgetTable, a: Set<u64>, ch: u64)
    requires
        t.contains_key(ch),
        forall|h: u64| subtree(t, ch).contains(h) ==> !a.contains(h),
    ensures
        subtree(t.remove_keys(a), ch) == subtree(t, ch),
{
    let t1 = t.remove_keys(a);
    assert(t1.submap_of(t));
    assert forall|h: u64| subtree(t1, ch).contains(h) implies subtree(t, ch).contains(h) by {
        let n = choose|n: nat| #[trigger] up(t1, h, n) == Some(ch);
        lemma_up_submap(t, t1, h, n);
    }
    assert forall|h: u64| subtree(t, ch).contains(h) implies subtree(t1, ch).contains(h) by {
        let n = choose|n: nat| #[trigger] up(t, h, n) == Some(ch);
        assert forall|j: nat| j < n && (#[trigger] up(t, h, j)).is_some() implies t1.contains_key(
            up(t, h, j).unwrap(),
        ) by {
            lemma_subtree_chain(t, h, ch, n, j);
        }
        lemma_up_keep(t, t1, h, n);
    }
    assert(subtree(t1, ch) =~= subtree(t, ch));
}

/// The subtree of `c` without `c` is made of the subtrees of its children.
pub proof fn lemma_subtree_split(t: WidgetTable, c: u64, h: u64)
    requires
        well_formed(t),
        t.contains_key(c),
    ensures
        (subtree(t, c).contains(h) && h != c) <==> exists|ch: u64|
            #[trigger] t.contains_key(ch) && t[ch].1 == Some(c) && subtree(t, ch).contains(h),
{
    if subtree(t, c).contains(h) && h != c {
        let n = choose|n: nat| #[trigger] up(t, h, n) == Some(c);
        assert(n != 0);
        lemma_subtree_chain(t, h, c, n, (n - 1) as nat);
        let x = up(t, h, (n - 1) as nat).unwrap();
        assert(up(t, h, n) == match up(t, h, (n - 1) as nat) {
            Some(y) => if t.contains_key(y) {
                t[y].1
            } else {
                None
            },
            None => None,
        });
        assert(t.contains_key(x) && t[x].1 == Some(c));
        assert(subtree(t, x).contains(h));
    }
    if exists|ch: u64| #[trigger] t.contains_key(ch) && t[ch].1 == Some(c) && subtree(t, ch).contains(h) {
        let ch = choose|ch: u64| #[trigger] t.contains_key(ch) && t[ch].1 == Some(c) && subtree(t, ch).contains(h);
        lemma_subtree_child(t, ch, c);
    }
}

/// Changing the action bits of a widget keeps the table well formed.
pub proof fn lemma_wf_bits(t: WidgetTable, h: u64, bits: u16)
    requires
        well_formed(t),
        t.contains_key(h),
    ensures
        well_formed(t.insert(h, (bits, t[h].1, t[h].2))),
        t.insert(h, (bits, t[h].1, t[h].2)).dom() == t.dom(),
{
    let r = choose|r: Map<u64, nat>| ranked(t, r);
    let t2 = t.insert(h, (bits, t[h].1, t[h].2));
    assert(t2.dom() =~= t.dom());
    assert(ranked(t2, r));
}

/// The parent of a widget is a widget.
pub proof fn lemma_parent_in(t: WidgetTable, h: u64)
    requires
        well_formed(t),
        t.contains_key(h),
        t[h].1.is_some(),
    ensures
        t.contains_key(t[h].1.unwrap()),
{
    let r = choose|r: Map<u64, nat>| ranked(t, r);
}

/// A new widget without parent keeps the table well formed, and nothing
/// lies below it.
pub proof fn lemma_wf_spawn(t: WidgetTable, h: u64, bits: u16)
    requires
        well_formed(t),
        !t.contains_key(h),
    ensures
        well_formed(t.insert(h, (bits, None, false))),
        forall|g: u64| #[trigger] t.insert(h, (bits, None, false)).contains_key(g) ==> t.insert(h, (bits, None, false))[g].1 != Some(h),
{
    let r = choose|r: Map<u64, nat>| ranked(t, r);
    let t2 = t.insert(h, (bits, None, false));
    let r2 = r.insert(h, 0);
    assert(t2.dom() =~= t.dom().insert(h));
    assert forall|g: u64| #[trigger] t2.contains_key(g) implies r2.contains_key(g) && (t2[g].1.is_some() ==> t2.contains_key(
            t2[g].1.unwrap(),
        ) && r2[t2[g].1.unwrap()] < r2[g]) by {
        if g != h {
            assert(t.contains_key(g));
            if t2[g].1.is_some() {
                assert(t2[g].1.unwrap() != h);
            }
        }
    }
    assert(ranked(t2, r2));
}

/// Giving a widget without children a parent keeps the table well formed.
pub proof fn lemma_wf_set_parent(t: WidgetTable, h: u64, p: u64)
    requires
        well_formed(t),
        t.contains_key(h),
        t.contains_key(p),
        p != h,
        forall|g: u64| #[trigger] t.contains_key(g) ==> t[g].1 != Some(h),
    ensures
        well_formed(t.insert(h, (t[h].0, Some(p), t[h].2))),
{
    let r = choose|r: Map<u64, nat>| ranked(t, r);
    let t2 = t.insert(h, (t[h].0, Some(p), t[h].2));
    let r2 = r.insert(h, r[p] + 1);
    assert(t2.dom() =~= t.dom());
    assert forall|g: u64| #[trigger] t2.contains_key(g) implies r2.contains_key(g) && (t2[g].1.is_some() ==> t2.contains_key(
            t2[g].1.unwrap(),
        ) && r2[t2[g].1.unwrap()] < r2[g]) by {
        if g != h {
            if t2[g].1.is_some() {
                assert(t[g].1.unwrap() != h);
            }
        }
    }
    assert(ranked(t2, r2));
}

/// Marking a widget hidden keeps the table well formed.
pub proof fn lemma_wf_hidden(t: WidgetTable, h: u64)
    requires
        well_formed(t),
        t.contains_key(h),
    ensures
        well_formed(t.insert(h, (t[h].0, t[h].1, true))),
{
    let r = choose|r: Map<u64, nat>| ranked(t, r);
    let t2 = t.insert(h, (t[h].0, t[h].1, true));
    assert(t2.dom() =~= t.dom());
    assert(ranked(t2, r));
}

/// A widget without children shows nothing.
pub proof fn lemma_shown_none(t: WidgetTable, c: u64)
    requires
        forall|g: u64| #[trigger] t.contains_key(g) ==> t[g].1 != Some(c),
    ensures
        shown(t, c) == Set::<u64>::empty(),
{
    assert forall|h: u64| !shown(t, c).contains(h) by {
        if shown(t, c).contains(h) {
            lemma_shown_unfold(t, c, h);
            let ch = choose|ch: u64| #[trigger] vis_child(t, ch, c) && (h == ch || (allows_children(t, ch) && shown(t, ch).contains(h)));
        }
    }
    assert(shown(t, c) =~= Set::<u64>::empty());
}

} // verus!
