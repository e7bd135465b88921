use crate::gui::flags::{has_flag, with_flag, without_flag, UiField, UiFlags};
use crate::gui::model::{
    clear_if, dispatch, first_clickable, focused_within, keys, manual_focus_rel, mouse_over_run,
    mouse_over_step, moved_to_back, names_without, opt_in, parent_focused_rel, parent_search_ends,
    press_event_rel, press_scan, raise, press_can_finish, lemma_press_scan, lemma_first_clickable_same,
    lemma_first_clickable_in, same_but_moving, parents_first, Modifiers, MouseButton, mouse_move_step, MouseMove, show_rel, release_step, set_bits, set_clicked_step, set_focus_rel,
    unfocus_events, usable, Dispatch, UiEvent, UiState, UiView,
};
use crate::gui::seqs::{
    lemma_concat_contains, lemma_no_dup_concat, lemma_remove_is_without, lemma_without_add, lemma_without_contains, lemma_without_id,
    lemma_without_no_dup, lemma_without_same, lemma_without_without, without,
};
use crate::gui::tree::{
    allows_children, closed_below, desc, hid_child, lemma_subtree_closed, lemma_subtree_keep,
    lemma_subtree_split, lemma_wf_remove, lemma_shown_in_subtree, lemma_shown_unfold, lemma_sibling_subtrees,
    lemma_subtree_basics, lemma_subtree_child, lemma_shown_trans, lemma_shown_acyclic, shown, subtree, up, vis_child, well_formed,
    WidgetTable,
};
use crate::gui::world::{
    widget_table, world_actions, world_new, world_all_widgets, world_despawn, world_hidden_links, world_parent,
    world_set_actions, world_set_hidden, world_set_parent, world_spawn_widget, world_visible_links,
    Handle,
};
use hecs::World;
use std::collections::VecDeque;
use vstd::prelude::*;

verus! {

/// A widget's name and the id its user gave it.
#[derive(Debug)]
pub struct Identity {
    pub name: String,
    pub id: u64,
}

impl Identity {
    pub fn new(name: &str, id: u64) -> (r: Self)
        ensures
            r.name@ == name@,
            r.id == id,
    {
        Identity { name: name.to_owned(), id }
    }

    /// Whether two identities have the same name and id.
    pub fn same(&self, other: &Identity) -> (r: bool)
        ensures
            r == (self.name@ == other.name@ && self.id == other.id),
    {
        self.name == other.name && self.id == other.id
    }
}

/// The widget bookkeeping of the user interface: drawing order, focus, the
/// widget under the mouse, the clicked and the dragged widget.
pub struct UI {
    name_map: Vec<(Identity, Handle)>,
    zlist: VecDeque<Handle>,
    focused: Option<Handle>,
    over: Option<Handle>,
    clicked: Option<Handle>,
    widget_moving: Option<Handle>,
    moving: bool,
    button: MouseButton,
    modifier: Modifiers,
}

/// An identity with this name and id is registered.
pub open spec fn registered(names: Set<(Seq<char>, u64, u64)>, name: Seq<char>, id: u64) -> bool {
    exists|e: (Seq<char>, u64, u64)| #[trigger] names.contains(e) && e.0 == name && e.1 == id
}

/// A widget added under an identity is registered under it; once every
/// widget registered under an identity is removed, the identity is free
/// again, and other identities stay as they were.
pub proof fn lemma_registration(
    names: Set<(Seq<char>, u64, u64)>,
    name: Seq<char>,
    id: u64,
    h: u64,
    removed: Set<u64>,
)
    ensures
        registered(names.insert((name, id, h)), name, id),
        (forall|e: (Seq<char>, u64, u64)| #[trigger] names.contains(e) && e.0 == name && e.1 == id ==> removed.contains(e.2))
            ==> !registered(names_without(names, removed), name, id),
        forall|n2: Seq<char>, i2: u64|
            (n2 != name || i2 != id) ==> (#[trigger] registered(names.insert((name, id, h)), n2, i2) == registered(names, n2, i2)),
{
    assert(names.insert((name, id, h)).contains((name, id, h)));
    assert forall|n2: Seq<char>, i2: u64|
        (n2 != name || i2 != id) implies (#[trigger] registered(names.insert((name, id, h)), n2, i2) == registered(names, n2, i2)) by {
        if registered(names.insert((name, id, h)), n2, i2) {
            let e = choose|e: (Seq<char>, u64, u64)| #[trigger] names.insert((name, id, h)).contains(e) && e.0 == n2 && e.1 == i2;
            assert(names.contains(e));
        }
        if registered(names, n2, i2) {
            let e = choose|e: (Seq<char>, u64, u64)| #[trigger] names.contains(e) && e.0 == n2 && e.1 == i2;
            assert(names.insert((name, id, h)).contains(e));
        }
    }
}

pub open spec fn name_entry(e: (Identity, Handle)) -> (Seq<char>, u64, u64) {
    (e.0.name@, e.0.id, e.1.0)
}

/// The widgets below `c` through the children listed in `links` up to `i`.
pub open spec fn cleared_prefix(
    t: WidgetTable,
    links: Seq<(Handle, Handle)>,
    c: u64,
    i: int,
) -> Set<u64> {
    Set::new(
        |h: u64|
            exists|j: int|
                0 <= j < i && (#[trigger] links[j]).1.0 == c && subtree(t, links[j].0.0).contains(h),
    )
}

/// The handles in `links` whose parent is `c`, up to `i`, and what each
/// that allows children shows.
pub open spec fn shown_prefix(
    t: WidgetTable,
    links: Seq<(Handle, Handle)>,
    c: u64,
    i: int,
) -> Set<u64> {
    Set::new(
        |h: u64|
            exists|j: int|
                0 <= j < i && (#[trigger] links[j]).1.0 == c && (h == links[j].0.0 || (
                allows_children(t, links[j].0.0) && shown(t, links[j].0.0).contains(h))),
    )
}

impl View for UI {
    type V = UiView;

    closed spec fn view(&self) -> UiView {
        UiView {
            zlist: self.zlist@,
            focused: self.focused,
            over: self.over,
            clicked: self.clicked,
            widget_moving: self.widget_moving,
            moving: self.moving,
            names: self.name_map@.map_values(|e: (Identity, Handle)| name_entry(e)).to_set(),
            button: self.button,
            modifier: self.modifier,
        }
    }
}

impl UI {
    /// The bookkeeping is consistent with the widgets of `t`: the drawing
    /// order holds each widget once, and every handle it keeps is a widget.
    pub closed spec fn inv(&self, t: WidgetTable) -> bool {
        &&& self.zlist@.no_duplicates()
        &&& forall|i: int| 0 <= i < self.zlist@.len() ==> t.contains_key(#[trigger] self.zlist@[i].0)
        &&& opt_in(self.focused, t)
        &&& opt_in(self.over, t)
        &&& opt_in(self.clicked, t)
        &&& forall|i: int|
            0 <= i < self.name_map@.len() ==> t.contains_key(#[trigger] self.name_map@[i].1.0)
        &&& forall|i: int, j: int|
            0 <= i < j < self.name_map@.len() ==> (#[trigger] self.name_map@[i]).1 != (
            #[trigger] self.name_map@[j]).1 && !(self.name_map@[i].0.name@
                == self.name_map@[j].0.name@ && self.name_map@[i].0.id == self.name_map@[j].0.id)
    }

    /// The bookkeeping and the widgets of the world are consistent.
    pub open spec fn valid(&self, world: World) -> bool {
        &&& self.inv(widget_table(world))
        &&& well_formed(widget_table(world))
    }

    /// An empty user interface.
    pub fn new() -> (r: Self)
        ensures
            r@.zlist == Seq::<Handle>::empty(),
            r@.focused.is_none(),
            r@.over.is_none(),
            r@.clicked.is_none(),
            r@.widget_moving.is_none(),
            !r@.moving,
            r@.names == Set::<(Seq<char>, u64, u64)>::empty(),
            r@.button == MouseButton::Left,
            r@.modifier == Modifiers(0),
            forall|t: WidgetTable| r.inv(t),
    {
        let r = UI {
            name_map: Vec::new(),
            zlist: VecDeque::new(),
            focused: None,
            over: None,
            clicked: None,
            widget_moving: None,
            moving: false,
            button: MouseButton::Left,
            modifier: Modifiers(0),
        };
        assert(r@.names =~= Set::<(Seq<char>, u64, u64)>::empty());
        r
    }

    /// The visible widgets in drawing order.
    /// An empty user interface with an empty world to hold its widgets.
    pub fn with_world() -> (r: (Self, World))
        ensures
            r.0.valid(r.1),
            widget_table(r.1) == Map::<u64, (u16, Option<u64>, bool)>::empty(),
            r.0@.zlist == Seq::<Handle>::empty(),
            r.0@.focused.is_none(),
            r.0@.over.is_none(),
            r.0@.clicked.is_none(),
            r.0@.widget_moving.is_none(),
            !r.0@.moving,
            r.0@.names == Set::<(Seq<char>, u64, u64)>::empty(),
    {
        let world = world_new();
        let ui = UI::new();
        proof {
            let t = widget_table(world);
            let rank = Map::<u64, nat>::empty();
            assert(crate::gui::tree::ranked(t, rank));
            assert(t.dom() =~= Set::<u64>::empty());
        }
        (ui, world)
    }

    pub fn zlist(&self) -> (r: Vec<Handle>)
        ensures
            r@ == self@.zlist,
    {
        let mut r: Vec<Handle> = Vec::new();
        let mut i: usize = 0;
        while i < self.zlist.len()
            invariant
                i <= self.zlist@.len(),
                r@ == self.zlist@.subrange(0, i as int),
            decreases self.zlist@.len() - i,
        {
            r.push(self.zlist[i]);
            i += 1;
            assert(r@ =~= self.zlist@.subrange(0, i as int));
        }
        assert(r@ =~= self.zlist@);
        r
    }

    pub fn focused(&self) -> (r: Option<Handle>)
        ensures
            r == self@.focused,
    {
        self.focused
    }

    pub fn over(&self) -> (r: Option<Handle>)
        ensures
            r == self@.over,
    {
        self.over
    }

    pub fn clicked(&self) -> (r: Option<Handle>)
        ensures
            r == self@.clicked,
    {
        self.clicked
    }

    pub fn widget_moving(&self) -> (r: Option<Handle>)
        ensures
            r == self@.widget_moving,
    {
        self.widget_moving
    }

    pub fn moving(&self) -> (r: bool)
        ensures
            r == self@.moving,
    {
        self.moving
    }

    /// The position of `h` in the drawing order, if it is there.
    fn zlist_position(&self, h: Handle) -> (r: Option<usize>)
        ensures
            match r {
                Some(i) => i < self.zlist@.len() && self.zlist@[i as int] == h,
                None => !self.zlist@.contains(h),
            },
    {
        let mut i: usize = 0;
        while i < self.zlist.len()
            invariant
                i <= self.zlist@.len(),
                forall|j: int| 0 <= j < i ==> self.zlist@[j] != h,
            decreases self.zlist@.len() - i,
        {
            if self.zlist[i] == h {
                return Some(i);
            }
            i += 1;
        }
        None
    }

    /// Takes `h` out of the drawing order if it is there.
    fn zlist_remove(&mut self, h: Handle)
        requires
            old(self).zlist@.no_duplicates(),
        ensures
            final(self)@ == (UiView { zlist: without(old(self)@.zlist, set![h.0]), ..old(self)@ }),
            final(self).name_map == old(self).name_map,
    {
        match self.zlist_position(h) {
            Some(pos) => {
                proof {
                    lemma_remove_is_without(self.zlist@, pos as int);
                }
                self.zlist.remove(pos);
            },
            None => {
                proof {
                    assert forall|i: int| 0 <= i < self.zlist@.len() implies !set![h.0].contains(
                        #[trigger] self.zlist@[i].0,
                    ) by {
                        assert(self.zlist@.contains(self.zlist@[i]));
                    }
                    lemma_without_id(self.zlist@, set![h.0]);
                }
            },
        }
    }

    /// Whether the widget can take mouse input: it is always usable or
    /// focused, or a widget above it is focusable and focused or always usable.
    pub fn widget_usable(&self, world: &World, control: Handle) -> (r: bool)
        requires
            well_formed(widget_table(*world)),
            widget_table(*world).contains_key(control.0),
        ensures
            r == usable(widget_table(*world), control.0),
    {
        let ghost t = widget_table(*world);
        let actions = world_actions(world, control);
        if actions.get(UiFlags::AlwaysUseable) {
            return true;
        }
        if !actions.get(UiFlags::IsFocused) {
            let ghost r = choose|r: Map<u64, nat>| crate::gui::tree::ranked(t, r);
            let mut parent_handle = world_parent(world, control);
            let ghost mut n: nat = 1;
            proof {
                assert(up(t, control.0, 1) == match up(t, control.0, 0) {
                    Some(x) => if t.contains_key(x) {
                        t[x].1
                    } else {
                        None
                    },
                    None => None,
                });
            }
            while parent_handle.is_some()
                invariant
                    n >= 1,
                    well_formed(t),
                    crate::gui::tree::ranked(t, r),
                    t == widget_table(*world),
                    t.contains_key(control.0),
                    match parent_handle {
                        Some(p) => up(t, control.0, n) == Some(p.0),
                        None => up(t, control.0, n).is_none(),
                    },
                    forall|j: nat|
                        1 <= j < n && (#[trigger] up(t, control.0, j)).is_some() ==> !((has_flag(
                            t[up(t, control.0, j).unwrap()].0,
                            UiFlags::CanFocus,
                        ) && has_flag(t[up(t, control.0, j).unwrap()].0, UiFlags::IsFocused))
                            || has_flag(t[up(t, control.0, j).unwrap()].0, UiFlags::AlwaysUseable)),
                    forall|j: nat| 1 <= j < n ==> (#[trigger] up(t, control.0, j)).is_some(),
                decreases
                    match parent_handle {
                        Some(p) => r[p.0] + 1,
                        None => 0,
                    },
            {
                let p = parent_handle.unwrap();
                proof {
                    crate::gui::tree::lemma_up_rank(t, r, control.0, n);
                }
                let parent_actions = world_actions(world, p);
                if (parent_actions.get(UiFlags::CanFocus) && parent_actions.get(UiFlags::IsFocused))
                    || parent_actions.get(UiFlags::AlwaysUseable) {
                    return true;
                }
                parent_handle = world_parent(world, p);
                proof {
                    assert(up(t, control.0, n + 1) == match up(t, control.0, n) {
                        Some(x) => if t.contains_key(x) {
                            t[x].1
                        } else {
                            None
                        },
                        None => None,
                    });
                    n = n + 1;
                }
            }
            proof {
                assert forall|j: nat| j >= 1 && (#[trigger] up(t, control.0, j)).is_some() implies !((
                has_flag(t[up(t, control.0, j).unwrap()].0, UiFlags::CanFocus) && has_flag(
                    t[up(t, control.0, j).unwrap()].0,
                    UiFlags::IsFocused,
                )) || has_flag(t[up(t, control.0, j).unwrap()].0, UiFlags::AlwaysUseable)) by {
                    if j >= n {
                        crate::gui::tree::lemma_up_add(t, control.0, n, (j - n) as nat);
                        assert(n + (j - n) as nat == j);
                    }
                }
            }
            false
        } else {
            true
        }
    }

    /// Whether the widget or a widget above it is focused.
    pub fn widget_is_focused(&self, world: &World, control: Handle) -> (r: bool)
        requires
            well_formed(widget_table(*world)),
            widget_table(*world).contains_key(control.0),
        ensures
            r == focused_within(widget_table(*world), control.0),
    {
        let ghost t = widget_table(*world);
        let action = world_actions(world, control);
        if action.get(UiFlags::IsFocused) {
            return true;
        }
        let ghost r = choose|r: Map<u64, nat>| crate::gui::tree::ranked(t, r);
        let mut parent_opt = world_parent(world, control);
        let ghost mut n: nat = 1;
        proof {
            assert(up(t, control.0, 1) == match up(t, control.0, 0) {
                Some(x) => if t.contains_key(x) {
                    t[x].1
                } else {
                    None
                },
                None => None,
            });
        }
        while parent_opt.is_some()
            invariant
                n >= 1,
                well_formed(t),
                crate::gui::tree::ranked(t, r),
                t == widget_table(*world),
                t.contains_key(control.0),
                match parent_opt {
                    Some(p) => up(t, control.0, n) == Some(p.0),
                    None => up(t, control.0, n).is_none(),
                },
                forall|j: nat|
                    1 <= j < n && (#[trigger] up(t, control.0, j)).is_some() ==> !has_flag(
                        t[up(t, control.0, j).unwrap()].0,
                        UiFlags::IsFocused,
                    ),
            decreases
                match parent_opt {
                    Some(p) => r[p.0] + 1,
                    None => 0,
                },
        {
            let p = parent_opt.unwrap();
            proof {
                crate::gui::tree::lemma_up_rank(t, r, control.0, n);
            }
            let parent_action = world_actions(world, p);
            if parent_action.get(UiFlags::IsFocused) {
                return true;
            }
            parent_opt = world_parent(world, p);
            proof {
                assert(up(t, control.0, n + 1) == match up(t, control.0, n) {
                    Some(x) => if t.contains_key(x) {
                        t[x].1
                    } else {
                        None
                    },
                    None => None,
                });
                n = n + 1;
            }
        }
        proof {
            assert forall|j: nat| j >= 1 && (#[trigger] up(t, control.0, j)).is_some() implies !has_flag(
                t[up(t, control.0, j).unwrap()].0,
                UiFlags::IsFocused,
            ) by {
                if j >= n {
                    crate::gui::tree::lemma_up_add(t, control.0, n, (j - n) as nat);
                    assert(n + (j - n) as nat == j);
                }
            }
        }
        false
    }

    /// Moves the visible children of `control` to the back of the drawing
    /// order so that they draw on top, and with each child that allows
    /// children, its own visible children in turn.
    fn widget_show_children(&mut self, world: &World, control: Handle)
        requires
            old(self).inv(widget_table(*world)),
            well_formed(widget_table(*world)),
        ensures
            final(self).inv(widget_table(*world)),
            moved_to_back(old(self)@.zlist, final(self)@.zlist, shown(widget_table(*world), control.0)),
            parents_first(
                widget_table(*world),
                final(self)@.zlist.subrange(
                    without(old(self)@.zlist, shown(widget_table(*world), control.0)).len() as int,
                    final(self)@.zlist.len() as int,
                ),
            ),
            final(self)@ == (UiView { zlist: final(self)@.zlist, ..old(self)@ }),
            final(self).name_map == old(self).name_map,
        decreases subtree(widget_table(*world), control.0).len(),
    {
        let ghost t = widget_table(*world);
        let links = world_visible_links(world);
        let ghost z0 = self.zlist@;
        let ghost mut w: Seq<Handle> = Seq::empty();
        let mut i: usize = 0;
        proof {
            assert(shown_prefix(t, links@, control.0, 0) =~= Set::<u64>::empty());
            assert forall|k: int| 0 <= k < z0.len() implies !Set::<u64>::empty().contains(#[trigger] z0[k].0) by {}
            lemma_without_id(z0, Set::<u64>::empty());
            assert(self.zlist@ =~= without(z0, shown_prefix(t, links@, control.0, 0)) + w);
        }
        while i < links.len()
            invariant
                i <= links@.len(),
                t == widget_table(*world),
                well_formed(t),
                self.inv(t),
                self@ == (UiView { zlist: self@.zlist, ..old(self)@ }),
                self.name_map == old(self).name_map,
                old(self).inv(t),
                z0 == old(self)@.zlist,
                forall|a: int, b: int|
                    0 <= a < b < links@.len() ==> (#[trigger] links@[a]).0 != (#[trigger] links@[b]).0,
                forall|h: u64, p: u64|
                    links@.contains((Handle(h), Handle(p))) <==> vis_child(t, h, p),
                self.zlist@ == without(z0, shown_prefix(t, links@, control.0, i as int)) + w,
                w.no_duplicates(),
                parents_first(t, w),
                forall|h: Handle| #[trigger] w.contains(h) <==> shown_prefix(t, links@, control.0, i as int).contains(h.0),
            decreases links@.len() - i,
        {
            let (child, parent) = links[i];
            let ghost u = shown_prefix(t, links@, control.0, i as int);
            proof {
                assert(links@.contains(links@[i as int]));
                assert(vis_child(t, child.0, parent.0));
            }
            if parent == control {
                let actions = world_actions(world, child);
                // `child` is neither an earlier sibling nor below one.
                proof {
                    if u.contains(child.0) {
                        let j = choose|j: int|
                            0 <= j < i && (#[trigger] links@[j]).1.0 == control.0 && (child.0 == links@[j].0.0 || (
                            allows_children(t, links@[j].0.0) && shown(t, links@[j].0.0).contains(child.0)));
                        assert(links@.contains(links@[j]));
                        assert(links@[j] == (Handle(links@[j].0.0), Handle(links@[j].1.0)));
                        assert(vis_child(t, links@[j].0.0, control.0));
                        if child.0 == links@[j].0.0 {
                            assert(links@[j].0 == links@[i as int].0);
                        } else {
                            lemma_shown_in_subtree(t, links@[j].0.0, child.0);
                            lemma_subtree_basics(t, child.0);
                            lemma_sibling_subtrees(t, links@[j].0.0, child.0, control.0, child.0);
                        }
                    }
                    assert(!w.contains(child));
                }
                let ghost zb = self.zlist@;
                self.zlist_remove(child);
                proof {
                    lemma_without_add(without(z0, u), w, set![child.0]);
                    lemma_without_without(z0, u, set![child.0]);
                    assert forall|k: int| 0 <= k < w.len() implies !set![child.0].contains(#[trigger] w[k].0) by {
                        assert(w.contains(w[k]));
                        if w[k].0 == child.0 {
                            assert(w[k] == child);
                        }
                    }
                    lemma_without_id(w, set![child.0]);
                }
                self.zlist.push_back(child);
                proof {
                    assert(self.zlist@ =~= without(z0, u + set![child.0]) + w.push(child));
                    lemma_without_no_dup(zb, set![child.0]);
                }
                if actions.get(UiFlags::AllowChildren) {
                    proof {
                        lemma_subtree_child(t, child.0, control.0);
                        assert forall|k: int| 0 <= k < self.zlist@.len() implies t.contains_key(#[trigger] self.zlist@[k].0) by {
                            if k == self.zlist@.len() - 1 {
                            } else {
                                lemma_without_contains(zb, set![child.0], self.zlist@[k]);
                                assert(without(zb, set![child.0]).contains(self.zlist@[k]));
                                assert(zb.contains(self.zlist@[k]));
                            }
                        }
                        assert(self.zlist@.no_duplicates()) by {
                            assert forall|a: int, b: int| 0 <= a < b < self.zlist@.len() implies self.zlist@[a] != self.zlist@[b] by {
                                if b == self.zlist@.len() - 1 {
                                    lemma_without_contains(zb, set![child.0], self.zlist@[a]);
                                    assert(without(zb, set![child.0]).contains(self.zlist@[a]));
                                }
                            }
                        }
                    }
                    let ghost zc = self.zlist@;
                    self.widget_show_children(world, child);
                    proof {
                        let s = shown(t, child.0);
                        let kept = without(zc, s);
                        // the part shown below `child` meets neither `child` nor what was shown before
                        assert forall|k: int| 0 <= k < w.push(child).len() implies !s.contains(#[trigger] w.push(child)[k].0) by {
                            if s.contains(w.push(child)[k].0) {
                                lemma_shown_in_subtree(t, child.0, w.push(child)[k].0);
                                if k < w.len() {
                                    assert(w.contains(w[k]));
                                    let j = choose|j: int|
                                        0 <= j < i && (#[trigger] links@[j]).1.0 == control.0 && (w[k].0 == links@[j].0.0 || (
                                        allows_children(t, links@[j].0.0) && shown(t, links@[j].0.0).contains(w[k].0)));
                                    assert(links@.contains(links@[j]));
                                    assert(links@[j] == (Handle(links@[j].0.0), Handle(links@[j].1.0)));
                                    assert(vis_child(t, links@[j].0.0, control.0));
                                    assert(links@[j].0 != child) by {
                                        assert(links@[j].0 != links@[i as int].0);
                                    }
                                    if w[k].0 == links@[j].0.0 {
                                        lemma_subtree_basics(t, links@[j].0.0);
                                        lemma_sibling_subtrees(t, links@[j].0.0, child.0, control.0, w[k].0);
                                    } else {
                                        lemma_shown_in_subtree(t, links@[j].0.0, w[k].0);
                                        lemma_sibling_subtrees(t, links@[j].0.0, child.0, control.0, w[k].0);
                                    }
                                }
                            }
                        }
                        lemma_without_id(w.push(child), s);
                        lemma_without_add(without(z0, u + set![child.0]), w.push(child), s);
                        lemma_without_without(z0, u + set![child.0], s);
                        let tail = self.zlist@.subrange(kept.len() as int, self.zlist@.len() as int);
                        assert(self.zlist@ =~= kept + tail);
                        assert(kept == without(z0, u + set![child.0] + s) + w.push(child));
                        let w2 = w.push(child) + tail;
                        let a2 = without(z0, u + set![child.0] + s);
                        assert(self.zlist@ =~= a2 + w2);
                        lemma_no_dup_concat(a2, w2);
                        lemma_no_dup_concat(w, seq![child]);
                        assert(w + seq![child] =~= w.push(child));
                        assert forall|h: Handle| #[trigger] w2.contains(h) <==> (u + set![child.0] + s).contains(h.0) by {
                            lemma_concat_contains(w.push(child), tail, h);
                            lemma_concat_contains(w, seq![child], h);
                            lemma_concat_contains(a2, w2, h);
                            lemma_concat_contains(without(z0, u + set![child.0]), w.push(child), h);
                            lemma_without_contains(z0, u + set![child.0] + s, h);
                            lemma_without_contains(z0, u + set![child.0], h);
                            assert(zc =~= without(z0, u + set![child.0]) + w.push(child));
                        }
                        let w1 = w.push(child);
                        lemma_push_parents_first(t, links@, control, i as int, child, w);
                        assert forall|a: int, b: int|
                            #![trigger w2[a], w2[b]]
                            0 <= a < w2.len() && 0 <= b < w2.len() && shown(t, w2[a].0).contains(w2[b].0) implies a < b by {
                            if a >= w1.len() && b < w1.len() {
                                let x = w2[a];
                                assert(x == tail[a - w1.len()]);
                                assert(self.zlist@[kept.len() + (a - w1.len())] == x);
                                lemma_tail_in(zc, self.zlist@, s, kept.len() + (a - w1.len()));
                                lemma_shown_in_subtree(t, child.0, x.0);
                                if b == w.len() {
                                    lemma_shown_acyclic(t, child.0, x.0);
                                } else {
                                    assert(w2[b] == w[b]);
                                    assert(w.contains(w[b]));
                                    lemma_shown_trans(t, child.0, x.0, w[b].0);
                                    lemma_prefix_outside(t, links@, control, i as int, child, w[b].0);
                                }
                            } else if a >= w1.len() && b >= w1.len() {
                                assert(w2[a] == tail[a - w1.len()]);
                                assert(w2[b] == tail[b - w1.len()]);
                            } else if a < w1.len() && b < w1.len() {
                                assert(w2[a] == w1[a]);
                                assert(w2[b] == w1[b]);
                            }
                        }
                        w = w2;
                    }
                } else {
                    proof {
                        let w1 = w.push(child);
                        assert(w + seq![child] =~= w1);
                        assert forall|h: Handle| #[trigger] w1.contains(h) <==> (u + set![child.0]).contains(h.0) by {
                            lemma_concat_contains(w, seq![child], h);
                            assert(seq![child][0] == child);
                            if h.0 == child.0 {
                                assert(h == child);
                            }
                            if seq![child].contains(h) {
                                let k = choose|k: int| 0 <= k < 1 && seq![child][k] == h;
                            }
                        }
                        lemma_no_dup_concat(w, seq![child]);
                        lemma_push_parents_first(t, links@, control, i as int, child, w);
                        w = w1;
                    }
                }
                proof {
                    let u2 = shown_prefix(t, links@, control.0, i + 1);
                    let s2 = if allows_children(t, child.0) { shown(t, child.0) } else { Set::<u64>::empty() };
                    assert(u2 =~= u + set![child.0] + s2) by {
                        assert forall|h: u64| u2.contains(h) implies (u + set![child.0] + s2).contains(h) by {
                            let j = choose|j: int|
                                0 <= j < i + 1 && (#[trigger] links@[j]).1.0 == control.0 && (h == links@[j].0.0 || (
                                allows_children(t, links@[j].0.0) && shown(t, links@[j].0.0).contains(h)));
                            if j < i {
                                assert(u.contains(h));
                            }
                        }
                        assert forall|h: u64| (u + set![child.0] + s2).contains(h) implies u2.contains(h) by {
                            if u.contains(h) {
                                let j = choose|j: int|
                                    0 <= j < i && (#[trigger] links@[j]).1.0 == control.0 && (h == links@[j].0.0 || (
                                    allows_children(t, links@[j].0.0) && shown(t, links@[j].0.0).contains(h)));
                                assert(0 <= j < i + 1);
                            } else {
                                assert(links@[i as int].1.0 == control.0);
                            }
                        }
                    }
                    if !allows_children(t, child.0) {
                        assert(u + set![child.0] + s2 =~= u + set![child.0]);
                    }
                    assert(self.zlist@ == without(z0, u2) + w);
                    assert forall|h: Handle| #[trigger] w.contains(h) <==> u2.contains(h.0) by {}
                    lemma_shown_prefix_in(t, links@, control.0, i + 1);
                    lemma_close_step(self.zlist@, z0, w, u2, t);
                }
            } else {
                proof {
                    let u2 = shown_prefix(t, links@, control.0, i + 1);
                    assert(u2 =~= u) by {
                        assert forall|h: u64| u2.contains(h) implies u.contains(h) by {
                            let j = choose|j: int|
                                0 <= j < i + 1 && (#[trigger] links@[j]).1.0 == control.0 && (h == links@[j].0.0 || (
                                allows_children(t, links@[j].0.0) && shown(t, links@[j].0.0).contains(h)));
                            assert(j != i);
                        }
                    }
                }
            }
            i += 1;
        }
        proof {
            let u = shown_prefix(t, links@, control.0, links@.len() as int);
            lemma_shown_prefix_full(t, links@, control.0);
            assert(self.zlist@.subrange(0, without(z0, u).len() as int) =~= without(z0, u));
            assert(self.zlist@.subrange(without(z0, u).len() as int, self.zlist@.len() as int) =~= w);
            assert forall|h: Handle| #[trigger] self.zlist@.contains(h) <==> (z0.contains(h) || shown(t, control.0).contains(h.0)) by {
                lemma_concat_contains(without(z0, u), w, h);
                lemma_without_contains(z0, u, h);
            }
        }
    }

    /// Takes the visible children of `control` out of the drawing order, with
    /// each child that allows children its own visible children in turn, and
    /// lets go of them as focused, clicked or hovered widget.
    fn widget_hide_children(&mut self, world: &World, control: Handle)
        requires
            old(self).inv(widget_table(*world)),
            well_formed(widget_table(*world)),
        ensures
            final(self).inv(widget_table(*world)),
            final(self)@ == (UiView {
                zlist: without(old(self)@.zlist, shown(widget_table(*world), control.0)),
                focused: clear_if(old(self)@.focused, shown(widget_table(*world), control.0)),
                clicked: clear_if(old(self)@.clicked, shown(widget_table(*world), control.0)),
                over: clear_if(old(self)@.over, shown(widget_table(*world), control.0)),
                ..old(self)@
            }),
            final(self).name_map == old(self).name_map,
        decreases subtree(widget_table(*world), control.0).len(),
    {
        let ghost t = widget_table(*world);
        let links = world_visible_links(world);
        let ghost z0 = self.zlist@;
        let mut i: usize = 0;
        proof {
            assert(shown_prefix(t, links@, control.0, 0) =~= Set::<u64>::empty());
            assert forall|k: int| 0 <= k < z0.len() implies !Set::<u64>::empty().contains(#[trigger] z0[k].0) by {}
            lemma_without_id(z0, Set::<u64>::empty());
        }
        while i < links.len()
            invariant
                i <= links@.len(),
                t == widget_table(*world),
                well_formed(t),
                self.inv(t),
                old(self).inv(t),
                self.name_map == old(self).name_map,
                z0 == old(self)@.zlist,
                forall|h: u64, p: u64|
                    links@.contains((Handle(h), Handle(p))) <==> vis_child(t, h, p),
                self@ == (UiView {
                    zlist: without(z0, shown_prefix(t, links@, control.0, i as int)),
                    focused: clear_if(old(self)@.focused, shown_prefix(t, links@, control.0, i as int)),
                    clicked: clear_if(old(self)@.clicked, shown_prefix(t, links@, control.0, i as int)),
                    over: clear_if(old(self)@.over, shown_prefix(t, links@, control.0, i as int)),
                    ..old(self)@
                }),
            decreases links@.len() - i,
        {
            let (child, parent) = links[i];
            let ghost u = shown_prefix(t, links@, control.0, i as int);
            proof {
                assert(links@.contains(links@[i as int]));
                assert(vis_child(t, child.0, parent.0));
            }
            if parent == control {
                let actions = world_actions(world, child);
                self.zlist_remove(child);
                proof {
                    lemma_without_without(z0, u, set![child.0]);
                    lemma_without_no_dup(without(z0, u), set![child.0]);
                    lemma_zlist_subset(z0, u + set![child.0], t);
                }
                if actions.get(UiFlags::AllowChildren) {
                    proof {
                        lemma_subtree_child(t, child.0, control.0);
                    }
                    self.widget_hide_children(world, child);
                    proof {
                        lemma_without_without(z0, u + set![child.0], shown(t, child.0));
                    }
                }
                if self.focused == Some(child) {
                    self.focused = None;
                }
                if self.clicked == Some(child) {
                    self.clicked = None;
                }
                if self.over == Some(child) {
                    self.over = None;
                }
                proof {
                    let u2 = shown_prefix(t, links@, control.0, i + 1);
                    let s2 = if allows_children(t, child.0) { shown(t, child.0) } else { Set::<u64>::empty() };
                    assert(u2 =~= u + set![child.0] + s2) by {
                        assert forall|h: u64| u2.contains(h) implies (u + set![child.0] + s2).contains(h) by {
                            let j = choose|j: int|
                                0 <= j < i + 1 && (#[trigger] links@[j]).1.0 == control.0 && (h == links@[j].0.0 || (
                                allows_children(t, links@[j].0.0) && shown(t, links@[j].0.0).contains(h)));
                            if j < i {
                                assert(u.contains(h));
                            }
                        }
                        assert forall|h: u64| (u + set![child.0] + s2).contains(h) implies u2.contains(h) by {
                            if u.contains(h) {
                                let j = choose|j: int|
                                    0 <= j < i && (#[trigger] links@[j]).1.0 == control.0 && (h == links@[j].0.0 || (
                                    allows_children(t, links@[j].0.0) && shown(t, links@[j].0.0).contains(h)));
                                assert(0 <= j < i + 1);
                            } else {
                                assert(links@[i as int].1.0 == control.0);
                            }
                        }
                    }
                    if !allows_children(t, child.0) {
                        assert(u + set![child.0] + s2 =~= u + set![child.0]);
                    }
                }
            } else {
                proof {
                    let u2 = shown_prefix(t, links@, control.0, i + 1);
                    assert(u2 =~= u) by {
                        assert forall|h: u64| u2.contains(h) implies u.contains(h) by {
                            let j = choose|j: int|
                                0 <= j < i + 1 && (#[trigger] links@[j]).1.0 == control.0 && (h == links@[j].0.0 || (
                                allows_children(t, links@[j].0.0) && shown(t, links@[j].0.0).contains(h)));
                            assert(j != i);
                        }
                    }
                }
            }
            i += 1;
        }
        proof {
            lemma_shown_prefix_full(t, links@, control.0);
        }
    }

    /// Dropping a widget that the bookkeeping does not mention keeps it consistent.
    proof fn lemma_inv_drop(&self, t: WidgetTable, c: u64)
        requires
            self.inv(t),
            !self@.zlist.contains(Handle(c)),
            self@.focused != Some(Handle(c)),
            self@.clicked != Some(Handle(c)),
            self@.over != Some(Handle(c)),
            forall|e: (Seq<char>, u64, u64)| self@.names.contains(e) ==> e.2 != c,
        ensures
            self.inv(t.remove(c)),
    {
        self.lemma_names_view();
        assert forall|i: int| 0 <= i < self.zlist@.len() implies t.remove(c).contains_key(#[trigger] self.zlist@[i].0) by {
            assert(self.zlist@.contains(self.zlist@[i]));
            if self.zlist@[i].0 == c {
                assert(self.zlist@[i] == Handle(c));
            }
        }
        assert forall|i: int| 0 <= i < self.name_map@.len() implies t.remove(c).contains_key(#[trigger] self.name_map@[i].1.0) by {
            assert(self@.names.contains(name_entry(self.name_map@[i])));
        }
        match self.focused { Some(x) => { assert(x != Handle(c)); assert(x.0 != c); }, None => {} }
        match self.clicked { Some(x) => { assert(x != Handle(c)); assert(x.0 != c); }, None => {} }
        match self.over { Some(x) => { assert(x != Handle(c)); assert(x.0 != c); }, None => {} }
    }

    /// The widgets in the drawing order are widgets of the world.
    proof fn lemma_zlist_in(&self, t: WidgetTable, h: Handle)
        requires
            self.inv(t),
            self@.zlist.contains(h),
        ensures
            t.contains_key(h.0),
    {
        let k = choose|k: int| 0 <= k < self.zlist@.len() && self.zlist@[k] == h;
    }

    /// What a consistent user interface keeps: each widget is drawn at most
    /// once, every handle it draws, focuses, hovers or holds clicked is a
    /// widget of the world, and the registered identities name live widgets,
    /// one identity per widget and one widget per name and id.
    pub proof fn lemma_valid_view(&self, world: World)
        requires
            self.valid(world),
        ensures
            self@.zlist.no_duplicates(),
            forall|h: Handle| self@.zlist.contains(h) ==> widget_table(world).contains_key(h.0),
            opt_in(self@.focused, widget_table(world)),
            opt_in(self@.over, widget_table(world)),
            opt_in(self@.clicked, widget_table(world)),
            forall|e: (Seq<char>, u64, u64)|
                #[trigger] self@.names.contains(e) ==> widget_table(world).contains_key(e.2),
            forall|e1: (Seq<char>, u64, u64), e2: (Seq<char>, u64, u64)|
                #[trigger] self@.names.contains(e1) && #[trigger] self@.names.contains(e2) && (e1.2 == e2.2 || (
                e1.0 == e2.0 && e1.1 == e2.1)) ==> e1 == e2,
    {
        let t = widget_table(world);
        self.lemma_names_view();
        assert forall|h: Handle| self@.zlist.contains(h) implies t.contains_key(h.0) by {
            self.lemma_zlist_in(t, h);
        }
        assert forall|e: (Seq<char>, u64, u64)| #[trigger] self@.names.contains(e) implies t.contains_key(e.2) by {
            let i = choose|i: int| 0 <= i < self.name_map@.len() && #[trigger] name_entry(self.name_map@[i]) == e;
        }
        assert forall|e1: (Seq<char>, u64, u64), e2: (Seq<char>, u64, u64)|
            #[trigger] self@.names.contains(e1) && #[trigger] self@.names.contains(e2) && (e1.2 == e2.2 || (
            e1.0 == e2.0 && e1.1 == e2.1)) implies e1 == e2 by {
            let i = choose|i: int| 0 <= i < self.name_map@.len() && #[trigger] name_entry(self.name_map@[i]) == e1;
            let j = choose|j: int| 0 <= j < self.name_map@.len() && #[trigger] name_entry(self.name_map@[j]) == e2;
            if i < j {
                assert(self.name_map@[i].1 != self.name_map@[j].1);
            } else if j < i {
                assert(self.name_map@[j].1 != self.name_map@[i].1);
            }
        }
    }

    /// Every registered identity of the vector is in the view.
    proof fn lemma_names_view(&self)
        ensures
            forall|i: int|
                0 <= i < self.name_map@.len() ==> self@.names.contains(#[trigger] name_entry(self.name_map@[i])),
            forall|e: (Seq<char>, u64, u64)|
                self@.names.contains(e) ==> exists|i: int|
                    0 <= i < self.name_map@.len() && #[trigger] name_entry(self.name_map@[i]) == e,
    {
        let m = self.name_map@.map_values(|e: (Identity, Handle)| name_entry(e));
        assert forall|i: int| 0 <= i < self.name_map@.len() implies self@.names.contains(
            #[trigger] name_entry(self.name_map@[i]),
        ) by {
            assert(m[i] == name_entry(self.name_map@[i]));
            assert(m.contains(m[i]));
        }
        assert forall|e: (Seq<char>, u64, u64)| self@.names.contains(e) implies exists|i: int|
            0 <= i < self.name_map@.len() && #[trigger] name_entry(self.name_map@[i]) == e by {
            let i = choose|i: int| 0 <= i < m.len() && m[i] == e;
            assert(name_entry(self.name_map@[i]) == e);
        }
    }

    /// Drops the registered identity of `h`.
    fn names_remove(&mut self, h: Handle, Ghost(t): Ghost<WidgetTable>)
        requires
            old(self).inv(t),
        ensures
            final(self).inv(t),
            final(self)@ == (UiView { names: names_without(old(self)@.names, set![h.0]), ..old(self)@ }),
            final(self).zlist == old(self).zlist,
    {
        let mut i: usize = 0;
        while i < self.name_map.len()
            invariant
                i <= self.name_map@.len(),
                *self == *old(self),
                self.inv(t),
                forall|j: int| 0 <= j < i ==> self.name_map@[j].1 != h,
            decreases self.name_map@.len() - i,
        {
            if self.name_map[i].1 == h {
                let ghost v0 = self.name_map@;
                proof {
                    self.lemma_names_view();
                }
                self.name_map.remove(i);
                proof {
                    let n0 = old(self)@.names;
                    let n1 = self@.names;
                    self.lemma_names_view();
                    assert forall|e: (Seq<char>, u64, u64)| n1.contains(e) <==> names_without(n0, set![h.0]).contains(e) by {
                        if n1.contains(e) {
                            let k = choose|k: int| 0 <= k < self.name_map@.len() && #[trigger] name_entry(self.name_map@[k]) == e;
                            if k < i {
                                assert(self.name_map@[k] == v0[k]);
                                assert(n0.contains(name_entry(v0[k])));
                            } else {
                                assert(self.name_map@[k] == v0[k + 1]);
                                assert(n0.contains(name_entry(v0[k + 1])));
                                assert(v0[k + 1].1 != v0[i as int].1);
                            }
                        }
                        if names_without(n0, set![h.0]).contains(e) {
                            let k = choose|k: int| 0 <= k < v0.len() && #[trigger] name_entry(v0[k]) == e;
                            assert(k != i);
                            if k < i {
                                assert(self.name_map@[k] == v0[k]);
                                assert(n1.contains(name_entry(self.name_map@[k])));
                            } else {
                                assert(self.name_map@[k - 1] == v0[k]);
                                assert(n1.contains(name_entry(self.name_map@[k - 1])));
                            }
                        }
                    }
                    assert(n1 =~= names_without(n0, set![h.0]));
                    assert forall|a: int, b: int|
                        0 <= a < b < self.name_map@.len() implies (#[trigger] self.name_map@[a]).1 != (
                        #[trigger] self.name_map@[b]).1 && !(self.name_map@[a].0.name@
                            == self.name_map@[b].0.name@ && self.name_map@[a].0.id == self.name_map@[b].0.id) by {
                        let a0 = if a < i { a } else { a + 1 };
                        let b0 = if b < i { b } else { b + 1 };
                        assert(self.name_map@[a] == v0[a0] && self.name_map@[b] == v0[b0]);
                    }
                    assert forall|a: int| 0 <= a < self.name_map@.len() implies t.contains_key(#[trigger] self.name_map@[a].1.0) by {
                        let a0 = if a < i { a } else { a + 1 };
                        assert(self.name_map@[a] == v0[a0]);
                    }
                }
                return;
            }
            i += 1;
        }
        proof {
            let n0 = self@.names;
            self.lemma_names_view();
            assert(n0 =~= names_without(n0, set![h.0])) by {
                assert forall|e: (Seq<char>, u64, u64)| n0.contains(e) implies e.2 != h.0 by {
                    let k = choose|k: int| 0 <= k < self.name_map@.len() && #[trigger] name_entry(self.name_map@[k]) == e;
                }
            }
        }
    }

    /// Removes `control` and every widget below it: from the world, from the
    /// drawing order, from the registered identities, and as focused,
    /// clicked or hovered widget.
    fn widget_clear_self(&mut self, world: &mut World, control: Handle)
        requires
            old(self).inv(widget_table(*old(world))),
            well_formed(widget_table(*old(world))),
            widget_table(*old(world)).contains_key(control.0),
        ensures
            widget_table(*final(world)) == widget_table(*old(world)).remove_keys(
                subtree(widget_table(*old(world)), control.0),
            ),
            final(self).inv(widget_table(*final(world))),
            well_formed(widget_table(*final(world))),
            final(self)@ == (UiView {
                zlist: without(old(self)@.zlist, subtree(widget_table(*old(world)), control.0)),
                focused: clear_if(old(self)@.focused, subtree(widget_table(*old(world)), control.0)),
                clicked: clear_if(old(self)@.clicked, subtree(widget_table(*old(world)), control.0)),
                over: clear_if(old(self)@.over, subtree(widget_table(*old(world)), control.0)),
                names: names_without(old(self)@.names, subtree(widget_table(*old(world)), control.0)),
                ..old(self)@
            }),
        decreases subtree(widget_table(*old(world)), control.0).len(),
    {
        let ghost t0 = widget_table(*world);
        let ghost st = subtree(t0, control.0);
        proof {
            lemma_subtree_basics(t0, control.0);
        }
        if self.focused == Some(control) {
            self.focused = None;
        }
        if self.clicked == Some(control) {
            self.clicked = None;
        }
        if self.over == Some(control) {
            self.over = None;
        }
        self.zlist_remove(control);
        proof {
            lemma_without_no_dup(old(self)@.zlist, set![control.0]);
            lemma_zlist_subset(old(self)@.zlist, set![control.0], t0);
        }
        self.names_remove(control, Ghost(t0));
        let ghost v1 = self@;
        proof {
            assert(v1.names =~= names_without(old(self)@.names, set![control.0]));
        }

        let links = world_visible_links(world);
        let ghost mut removed: Set<u64> = Set::empty();
        let mut i: usize = 0;
        proof {
            assert(cleared_prefix(t0, links@, control.0, 0) =~= Set::<u64>::empty());
            lemma_without_id(v1.zlist, Set::<u64>::empty());
            assert(t0.remove_keys(Set::<u64>::empty()) =~= t0);
            assert(names_without(v1.names, Set::<u64>::empty()) =~= v1.names);
        }
        while i < links.len()
            invariant
                i <= links@.len(),
                t0 == widget_table(*old(world)),
                st == subtree(t0, control.0),
                st.finite(),
                st.contains(control.0),
                well_formed(t0),
                t0.contains_key(control.0),
                forall|a: int, b: int|
                    0 <= a < b < links@.len() ==> (#[trigger] links@[a]).0 != (#[trigger] links@[b]).0,
                forall|h: u64, p: u64|
                    links@.contains((Handle(h), Handle(p))) <==> vis_child(t0, h, p),
                removed == cleared_prefix(t0, links@, control.0, i as int),
                widget_table(*world) == t0.remove_keys(removed),
                well_formed(widget_table(*world)),
                self.inv(widget_table(*world)),
                self@ == (UiView {
                    zlist: without(v1.zlist, removed),
                    focused: clear_if(v1.focused, removed),
                    clicked: clear_if(v1.clicked, removed),
                    over: clear_if(v1.over, removed),
                    names: names_without(v1.names, removed),
                    ..v1
                }),
                v1 == (UiView {
                    zlist: without(old(self)@.zlist, set![control.0]),
                    focused: clear_if(old(self)@.focused, set![control.0]),
                    clicked: clear_if(old(self)@.clicked, set![control.0]),
                    over: clear_if(old(self)@.over, set![control.0]),
                    names: names_without(old(self)@.names, set![control.0]),
                    ..old(self)@
                }),
            decreases links@.len() - i,
        {
            let (child, parent) = links[i];
            proof {
                assert(links@.contains(links@[i as int]));
                assert(vis_child(t0, child.0, parent.0));
            }
            if parent == control {
                proof {
                    // the subtree of `child` meets nothing cleared so far
                    assert forall|h: u64| subtree(t0, child.0).contains(h) implies !removed.contains(h) by {
                        if removed.contains(h) {
                            let j = choose|j: int|
                                0 <= j < i && (#[trigger] links@[j]).1.0 == control.0 && subtree(t0, links@[j].0.0).contains(h);
                            assert(links@.contains(links@[j]));
                            assert(links@[j] == (Handle(links@[j].0.0), Handle(links@[j].1.0)));
                            assert(vis_child(t0, links@[j].0.0, control.0));
                            assert(links@[j].0 != links@[i as int].0);
                            lemma_sibling_subtrees(t0, links@[j].0.0, child.0, control.0, h);
                        }
                    }
                    lemma_subtree_keep(t0, removed, child.0);
                    lemma_subtree_basics(t0, child.0);
                    lemma_subtree_child(t0, child.0, control.0);
                }
                self.widget_clear_self(world, child);
                proof {
                    let sc = subtree(t0, child.0);
                    let r2 = cleared_prefix(t0, links@, control.0, i + 1);
                    assert(r2 =~= removed + sc) by {
                        assert forall|h: u64| r2.contains(h) implies (removed + sc).contains(h) by {
                            let j = choose|j: int|
                                0 <= j < i + 1 && (#[trigger] links@[j]).1.0 == control.0 && subtree(t0, links@[j].0.0).contains(h);
                            if j < i {
                                assert(removed.contains(h));
                            }
                        }
                        assert forall|h: u64| (removed + sc).contains(h) implies r2.contains(h) by {
                            if removed.contains(h) {
                                let j = choose|j: int|
                                    0 <= j < i && (#[trigger] links@[j]).1.0 == control.0 && subtree(t0, links@[j].0.0).contains(h);
                                assert(0 <= j < i + 1);
                            } else {
                                assert(links@[i as int].1.0 == control.0);
                            }
                        }
                    }
                    assert(t0.remove_keys(removed).remove_keys(sc) =~= t0.remove_keys(r2));
                    lemma_without_without(v1.zlist, removed, sc);
                    assert(names_without(names_without(v1.names, removed), sc) =~= names_without(v1.names, r2));
                    removed = r2;
                }
            } else {
                proof {
                    let r2 = cleared_prefix(t0, links@, control.0, i + 1);
                    assert(r2 =~= removed) by {
                        assert forall|h: u64| r2.contains(h) implies removed.contains(h) by {
                            let j = choose|j: int|
                                0 <= j < i + 1 && (#[trigger] links@[j]).1.0 == control.0 && subtree(t0, links@[j].0.0).contains(h);
                            assert(j != i);
                        }
                    }
                }
            }
            i += 1;
        }
        let ghost vis_removed = removed;

        proof {
            assert forall|h: u64| #[trigger] vis_removed.contains(h) implies exists|ch: u64|
                #[trigger] vis_child(t0, ch, control.0) && subtree(t0, ch).contains(h) by {
                let j = choose|j: int|
                    0 <= j < links@.len() && (#[trigger] links@[j]).1.0 == control.0 && subtree(t0, links@[j].0.0).contains(h);
                assert(links@.contains(links@[j]));
                assert(links@[j] == (Handle(links@[j].0.0), Handle(links@[j].1.0)));
                assert(vis_child(t0, links@[j].0.0, control.0));
            }
        }
        let hlinks = world_hidden_links(world);
        let ghost tm = widget_table(*world);
        let mut k: usize = 0;
        proof {
            assert(cleared_prefix(t0, hlinks@, control.0, 0) =~= Set::<u64>::empty());
            assert(vis_removed + cleared_prefix(t0, hlinks@, control.0, 0) =~= vis_removed);
            // the hidden children of `control` are the same in `tm` and `t0`
            assert forall|h: u64, p: u64| p == control.0 implies (#[trigger] hid_child(tm, h, p) <==> hid_child(t0, h, p)) by {
                if hid_child(t0, h, p) {
                    lemma_subtree_basics(t0, h);
                    if vis_removed.contains(h) {
                        let j = choose|j: int|
                            0 <= j < links@.len() && (#[trigger] links@[j]).1.0 == control.0 && subtree(t0, links@[j].0.0).contains(h);
                        assert(links@.contains(links@[j]));
                        assert(links@[j] == (Handle(links@[j].0.0), Handle(links@[j].1.0)));
                        assert(vis_child(t0, links@[j].0.0, control.0));
                        lemma_sibling_subtrees(t0, links@[j].0.0, h, control.0, h);
                    }
                }
            }
        }
        while k < hlinks.len()
            invariant
                k <= hlinks@.len(),
                t0 == widget_table(*old(world)),
                st == subtree(t0, control.0),
                st.finite(),
                well_formed(t0),
                t0.contains_key(control.0),
                forall|a: int, b: int|
                    0 <= a < b < hlinks@.len() ==> (#[trigger] hlinks@[a]).0 != (#[trigger] hlinks@[b]).0,
                forall|h: u64, p: u64|
                    hlinks@.contains((Handle(h), Handle(p))) <==> hid_child(tm, h, p),
                forall|h: u64, p: u64| p == control.0 ==> (#[trigger] hid_child(tm, h, p) <==> hid_child(t0, h, p)),
                forall|h: u64| #[trigger] vis_removed.contains(h) ==> exists|ch: u64|
                    #[trigger] vis_child(t0, ch, control.0) && subtree(t0, ch).contains(h),
                removed == vis_removed + cleared_prefix(t0, hlinks@, control.0, k as int),
                widget_table(*world) == t0.remove_keys(removed),
                well_formed(widget_table(*world)),
                self.inv(widget_table(*world)),
                self@ == (UiView {
                    zlist: without(v1.zlist, removed),
                    focused: clear_if(v1.focused, removed),
                    clicked: clear_if(v1.clicked, removed),
                    over: clear_if(v1.over, removed),
                    names: names_without(v1.names, removed),
                    ..v1
                }),
                v1 == (UiView {
                    zlist: without(old(self)@.zlist, set![control.0]),
                    focused: clear_if(old(self)@.focused, set![control.0]),
                    clicked: clear_if(old(self)@.clicked, set![control.0]),
                    over: clear_if(old(self)@.over, set![control.0]),
                    names: names_without(old(self)@.names, set![control.0]),
                    ..old(self)@
                }),
            decreases hlinks@.len() - k,
        {
            let (child, parent) = hlinks[k];
            proof {
                assert(hlinks@.contains(hlinks@[k as int]));
                assert(hid_child(tm, child.0, parent.0));
            }
            if parent == control {
                proof {
                    assert(hid_child(t0, child.0, control.0));
                    assert forall|h: u64| subtree(t0, child.0).contains(h) implies !removed.contains(h) by {
                        if vis_removed.contains(h) {
                            let ch = choose|ch: u64| #[trigger] vis_child(t0, ch, control.0) && subtree(t0, ch).contains(h);
                            lemma_sibling_subtrees(t0, ch, child.0, control.0, h);
                        }
                        if cleared_prefix(t0, hlinks@, control.0, k as int).contains(h) {
                            let j = choose|j: int|
                                0 <= j < k && (#[trigger] hlinks@[j]).1.0 == control.0 && subtree(t0, hlinks@[j].0.0).contains(h);
                            assert(hlinks@.contains(hlinks@[j]));
                            assert(hlinks@[j] == (Handle(hlinks@[j].0.0), Handle(hlinks@[j].1.0)));
                            assert(hid_child(tm, hlinks@[j].0.0, control.0));
                            assert(hlinks@[j].0 != hlinks@[k as int].0);
                            lemma_sibling_subtrees(t0, hlinks@[j].0.0, child.0, control.0, h);
                        }
                    }
                    lemma_subtree_keep(t0, removed, child.0);
                    lemma_subtree_basics(t0, child.0);
                    lemma_subtree_child(t0, child.0, control.0);
                }
                self.widget_clear_self(world, child);
                proof {
                    let sc = subtree(t0, child.0);
                    let hp = cleared_prefix(t0, hlinks@, control.0, k as int);
                    let hp2 = cleared_prefix(t0, hlinks@, control.0, k + 1);
                    assert(hp2 =~= hp + sc) by {
                        assert forall|h: u64| hp2.contains(h) implies (hp + sc).contains(h) by {
                            let j = choose|j: int|
                                0 <= j < k + 1 && (#[trigger] hlinks@[j]).1.0 == control.0 && subtree(t0, hlinks@[j].0.0).contains(h);
                            if j < k {
                                assert(hp.contains(h));
                            }
                        }
                        assert forall|h: u64| (hp + sc).contains(h) implies hp2.contains(h) by {
                            if hp.contains(h) {
                                let j = choose|j: int|
                                    0 <= j < k && (#[trigger] hlinks@[j]).1.0 == control.0 && subtree(t0, hlinks@[j].0.0).contains(h);
                                assert(0 <= j < k + 1);
                            } else {
                                assert(hlinks@[k as int].1.0 == control.0);
                            }
                        }
                    }
                    let r2 = vis_removed + hp2;
                    assert(r2 =~= removed + sc);
                    assert(t0.remove_keys(removed).remove_keys(sc) =~= t0.remove_keys(r2));
                    lemma_without_without(v1.zlist, removed, sc);
                    assert(names_without(names_without(v1.names, removed), sc) =~= names_without(v1.names, r2));
                    removed = r2;
                }
            } else {
                proof {
                    let hp = cleared_prefix(t0, hlinks@, control.0, k as int);
                    let hp2 = cleared_prefix(t0, hlinks@, control.0, k + 1);
                    assert(hp2 =~= hp) by {
                        assert forall|h: u64| hp2.contains(h) implies hp.contains(h) by {
                            let j = choose|j: int|
                                0 <= j < k + 1 && (#[trigger] hlinks@[j]).1.0 == control.0 && subtree(t0, hlinks@[j].0.0).contains(h);
                            assert(j != k);
                        }
                    }
                }
            }
            k += 1;
        }
        proof {
            // everything below `control` has been cleared
            assert(removed =~= st.remove(control.0)) by {
                assert forall|h: u64| removed.contains(h) <==> st.remove(control.0).contains(h) by {
                    lemma_subtree_split(t0, control.0, h);
                    if st.contains(h) && h != control.0 {
                        let ch = choose|ch: u64| #[trigger] t0.contains_key(ch) && t0[ch].1 == Some(control.0) && subtree(t0, ch).contains(h);
                        if t0[ch].2 {
                            assert(hid_child(tm, ch, control.0));
                            assert(hlinks@.contains((Handle(ch), control)));
                            let j = choose|j: int| 0 <= j < hlinks@.len() && hlinks@[j] == (Handle(ch), control);
                            assert(cleared_prefix(t0, hlinks@, control.0, k as int).contains(h));
                        } else {
                            assert(vis_child(t0, ch, control.0));
                            assert(links@.contains((Handle(ch), control)));
                            let j = choose|j: int| 0 <= j < links@.len() && links@[j] == (Handle(ch), control);
                            assert(vis_removed.contains(h));
                        }
                    }
                    if removed.contains(h) {
                        if vis_removed.contains(h) {
                            let ch = choose|ch: u64| #[trigger] vis_child(t0, ch, control.0) && subtree(t0, ch).contains(h);
                            assert(t0.contains_key(ch) && t0[ch].1 == Some(control.0) && subtree(t0, ch).contains(h));
                        } else {
                            let j = choose|j: int|
                                0 <= j < k && (#[trigger] hlinks@[j]).1.0 == control.0 && subtree(t0, hlinks@[j].0.0).contains(h);
                            assert(hlinks@.contains(hlinks@[j]));
                            assert(hlinks@[j] == (Handle(hlinks@[j].0.0), Handle(hlinks@[j].1.0)));
                            assert(hid_child(tm, hlinks@[j].0.0, control.0));
                            let ch = hlinks@[j].0.0;
                            assert(t0.contains_key(ch) && t0[ch].1 == Some(control.0) && subtree(t0, ch).contains(h));
                        }
                    }
                }
            }
        }
        world_despawn(world, control);
        proof {
            let tf = widget_table(*world);
            assert(tf =~= t0.remove_keys(st));
            lemma_subtree_closed(t0, control.0);
            lemma_wf_remove(t0, st);
            lemma_without_without(old(self)@.zlist, set![control.0], removed);
            assert(set![control.0] + removed =~= st);
            assert(names_without(names_without(old(self)@.names, set![control.0]), removed) =~= names_without(old(self)@.names, st));
            let tmid = t0.remove_keys(removed);
            assert(tf =~= tmid.remove(control.0));
            lemma_without_contains(old(self)@.zlist, set![control.0], control);
            lemma_without_contains(v1.zlist, removed, control);
            self.lemma_inv_drop(tmid, control.0);
        }
    }

    /// The consistency of the bookkeeping depends only on which widgets exist.
    proof fn lemma_inv_dom(&self, t1: WidgetTable, t2: WidgetTable)
        requires
            self.inv(t1),
            t1.dom() == t2.dom(),
        ensures
            self.inv(t2),
    {
        assert forall|k: u64| t1.contains_key(k) <==> t2.contains_key(k) by {
            assert(t1.dom().contains(k) == t2.dom().contains(k));
        }
    }

    /// Replaces the action bits of a widget in the world.
    fn put_actions(&self, world: &mut World, h: Handle, bits: UiField)
        requires
            self.valid(*old(world)),
            widget_table(*old(world)).contains_key(h.0),
        ensures
            widget_table(*final(world)) == set_bits(widget_table(*old(world)), h.0, bits.0),
            self.valid(*final(world)),
    {
        let ghost t = widget_table(*world);
        world_set_actions(world, h, bits);
        proof {
            crate::gui::tree::lemma_wf_bits(t, h.0, bits.0);
            self.lemma_inv_dom(t, widget_table(*world));
        }
    }

    /// The mouse enters (`entered`) or leaves `control`; `under` lists the
    /// widgets whose bounds hold the mouse.
    fn widget_mouse_over(
        &mut self,
        world: &mut World,
        control: Handle,
        entered: bool,
        under: &Vec<Handle>,
        events: &mut Vec<Dispatch>,
    )
        requires
            old(self).valid(*old(world)),
            widget_table(*old(world)).contains_key(control.0),
        ensures
            final(self).valid(*final(world)),
            ({
                let s2 = mouse_over_step(
                    UiState { t: widget_table(*old(world)), v: old(self)@, d: old(events)@ },
                    control,
                    entered,
                    keys(under@),
                );
                &&& widget_table(*final(world)) == s2.t
                &&& final(self)@ == s2.v
                &&& final(events)@ == s2.d
            }),
            final(self).name_map == old(self).name_map,
    {
        if let Some(over) = self.over {
            let actions = world_actions(world, over);
            if entered {
                if over != control && self.widget_moving.is_none() {
                    let mut oa = world_actions(world, over);
                    oa.clear(UiFlags::MouseOver);
                    self.put_actions(world, over, oa);
                    let mut ca = world_actions(world, control);
                    ca.set(UiFlags::MouseOver);
                    self.put_actions(world, control, ca);
                    let oa2 = world_actions(world, over);
                    events.push(Dispatch { handle: over, actions: oa2, event: UiEvent::MousePresent(false) });
                    self.over = Some(control);
                    let ca2 = world_actions(world, control);
                    events.push(Dispatch { handle: control, actions: ca2, event: UiEvent::MousePresent(true) });
                }
            } else if !contains_handle(under, over) && actions.get(UiFlags::MouseOver)
                && self.widget_moving.is_none() {
                let mut oa = world_actions(world, over);
                oa.clear(UiFlags::MouseOver);
                self.put_actions(world, over, oa);
                let oa2 = world_actions(world, over);
                events.push(Dispatch { handle: over, actions: oa2, event: UiEvent::MousePresent(false) });
                self.over = None;
            }
        } else if entered {
            self.over = Some(control);
            let mut ca = world_actions(world, control);
            ca.set(UiFlags::MouseOver);
            self.put_actions(world, control, ca);
            let ca2 = world_actions(world, control);
            events.push(Dispatch { handle: control, actions: ca2, event: UiEvent::MousePresent(true) });
        }
    }

    /// The hover pass: from the topmost widget down, widgets the mouse left
    /// are left, and the first usable widget under the mouse is entered.
    fn mouse_over_event(&mut self, world: &mut World, under: &Vec<Handle>, events: &mut Vec<Dispatch>)
        requires
            old(self).valid(*old(world)),
        ensures
            final(self).valid(*final(world)),
            ({
                let s2 = mouse_over_run(
                    UiState { t: widget_table(*old(world)), v: old(self)@, d: old(events)@ },
                    old(self)@.zlist,
                    keys(under@),
                );
                &&& widget_table(*final(world)) == s2.t
                &&& final(self)@ == s2.v
                &&& final(events)@ == s2.d
            }),
    {
        let ghost s0 = UiState { t: widget_table(*world), v: self@, d: events@ };
        let zl = self.zlist();
        let mut i: usize = zl.len();
        proof {
            assert(zl@.subrange(0, i as int) =~= zl@);
        }
        while i > 0
            invariant
                i <= zl@.len(),
                zl@ == s0.v.zlist,
                s0 == (UiState { t: widget_table(*old(world)), v: old(self)@, d: old(events)@ }),
                self.valid(*world),
                self@.zlist == s0.v.zlist,
                mouse_over_run(s0, zl@, keys(under@)) == mouse_over_run(
                    UiState { t: widget_table(*world), v: self@, d: events@ },
                    zl@.subrange(0, i as int),
                    keys(under@),
                ),
            decreases i,
        {
            let ghost cur = UiState { t: widget_table(*world), v: self@, d: events@ };
            let ghost pre = zl@.subrange(0, i as int);
            let handle = zl[i - 1];
            proof {
                assert(pre.last() == handle);
                assert(pre.drop_last() =~= zl@.subrange(0, i - 1));
                assert(zl@.contains(zl@[i - 1]));
                assert(self.zlist@.contains(handle));
                self.lemma_zlist_in(widget_table(*world), handle);
            }
            let action = world_actions(world, handle);
            let ghost un = keys(under@);
            if contains_handle(under, handle) && self.widget_usable(world, handle) {
                if action.get(UiFlags::CanClickBehind) {
                    let parent = world_parent(world, handle);
                    if let Some(parent_handle) = parent {
                        proof {
                            crate::gui::tree::lemma_parent_in(cur.t, handle.0);
                        }
                        let parent_action = world_actions(world, parent_handle);
                        if !parent_action.get(UiFlags::Moving) {
                            proof {
                                assert(mouse_over_run(cur, pre, un) == mouse_over_step(cur, parent_handle, true, un));
                            }
                            self.widget_mouse_over(world, parent_handle, true, under, events);
                        } else {
                            proof {
                                assert(mouse_over_run(cur, pre, un) == cur);
                            }
                        }
                        return;
                    } else {
                        proof {
                            assert(mouse_over_run(cur, pre, un) == mouse_over_run(cur, pre.drop_last(), un));
                        }
                    }
                } else {
                    proof {
                        assert(mouse_over_run(cur, pre, un) == mouse_over_step(cur, handle, true, un));
                    }
                    self.widget_mouse_over(world, handle, true, under, events);
                    return;
                }
            } else if !action.get(UiFlags::Moving) {
                proof {
                    assert(mouse_over_run(cur, pre, un) == mouse_over_run(mouse_over_step(cur, handle, false, un), pre.drop_last(), un));
                }
                self.widget_mouse_over(world, handle, false, under, events);
            } else {
                proof {
                    assert(mouse_over_run(cur, pre, un) == mouse_over_run(cur, pre.drop_last(), un));
                }
            }
            i -= 1;
        }
    }

    /// Moves `control` to the back of the drawing order if it is there.
    fn zlist_raise(&mut self, control: Handle, Ghost(t): Ghost<WidgetTable>)
        requires
            old(self).inv(t),
        ensures
            final(self).inv(t),
            final(self)@ == (UiView { zlist: raise(old(self)@.zlist, control), ..old(self)@ }),
            final(self).name_map == old(self).name_map,
    {
        if let Some(pos) = self.zlist_position(control) {
            proof {
                assert(self.zlist@.contains(control));
                lemma_remove_is_without(self.zlist@, pos as int);
                lemma_without_no_dup(self.zlist@, set![control.0]);
                lemma_without_contains(self.zlist@, set![control.0], control);
                lemma_zlist_subset(self.zlist@, set![control.0], t);
                self.lemma_zlist_in(t, control);
            }
            self.zlist.remove(pos);
            self.zlist.push_back(control);
            proof {
                let z = self.zlist@;
                assert(z.drop_last() + seq![control] =~= z);
                lemma_no_dup_concat(z.drop_last(), seq![control]);
                assert forall|h: Handle| z.drop_last().contains(h) implies !seq![control].contains(h) by {
                    if seq![control].contains(h) {
                        let k = choose|k: int| 0 <= k < 1 && seq![control][k] == h;
                    }
                }
                assert forall|k: int| 0 <= k < z.len() implies t.contains_key(#[trigger] z[k].0) by {
                    if k < z.len() - 1 {
                        assert(z[k] == z.drop_last()[k]);
                    }
                }
            }
        }
    }

    /// A click lands on `control`: see `set_clicked_step`.
    fn widget_set_clicked(
        &mut self,
        world: &mut World,
        control: Handle,
        under: &Vec<Handle>,
        events: &mut Vec<Dispatch>,
    )
        requires
            old(self).valid(*old(world)),
            widget_table(*old(world)).contains_key(control.0),
        ensures
            final(self).valid(*final(world)),
            ({
                let s2 = set_clicked_step(
                    UiState { t: widget_table(*old(world)), v: old(self)@, d: old(events)@ },
                    control,
                    keys(under@),
                );
                &&& widget_table(*final(world)) == s2.t
                &&& final(self)@ == s2.v
                &&& final(events)@ == s2.d
            }),
            final(self).name_map == old(self).name_map,
    {
        let ghost t = widget_table(*world);
        let action = world_actions(world, control);
        let in_bounds = contains_handle(under, control);
        if action.get(UiFlags::CanMoveWindow) && !action.get(UiFlags::MoveAble) && in_bounds {
            self.moving = true;
        }
        if action.get(UiFlags::CanClickBehind) {
            if let Some(parent) = world_parent(world, control) {
                proof {
                    crate::gui::tree::lemma_parent_in(t, control.0);
                }
                let parent_action = world_actions(world, parent);
                if parent_action.get(UiFlags::CanMoveWindow) && contains_handle(under, parent) {
                    self.moving = true;
                }
                self.clicked = Some(parent);
                let pa = world_actions(world, parent);
                events.push(Dispatch { handle: parent, actions: pa, event: UiEvent::MousePress(self.button, true, self.modifier) });
            }
            return;
        }
        if action.get(UiFlags::MoveAble) && in_bounds {
            let mut a = world_actions(world, control);
            a.set(UiFlags::Moving);
            self.put_actions(world, control, a);
            self.widget_moving = Some(control);
        }
        let a2 = world_actions(world, control);
        events.push(Dispatch { handle: control, actions: a2, event: UiEvent::MousePress(self.button, true, self.modifier) });
    }

    /// `control` takes the focus if it can: see `manual_focus_rel`.
    fn widget_manual_focus(&mut self, world: &mut World, control: Handle, events: &mut Vec<Dispatch>)
        requires
            old(self).valid(*old(world)),
            widget_table(*old(world)).contains_key(control.0),
        ensures
            final(self).valid(*final(world)),
            manual_focus_rel(
                UiState { t: widget_table(*old(world)), v: old(self)@, d: old(events)@ },
                control,
                UiState { t: widget_table(*final(world)), v: final(self)@, d: final(events)@ },
            ),
            final(self).name_map == old(self).name_map,
    {
        let ghost t = widget_table(*world);
        let actions = world_actions(world, control);
        if actions.get(UiFlags::CanFocus) {
            self.zlist_raise(control, Ghost(t));
            self.widget_show_children(world, control);
            if let Some(focused_handle) = self.focused {
                let fa = world_actions(world, focused_handle);
                events.push(Dispatch { handle: focused_handle, actions: fa, event: UiEvent::FocusChange(false) });
            }
            let mut a = world_actions(world, control);
            a.set(UiFlags::IsFocused);
            self.put_actions(world, control, a);
            self.focused = Some(control);
            let a2 = world_actions(world, control);
            events.push(Dispatch { handle: control, actions: a2, event: UiEvent::FocusChange(true) });
        }
    }

    /// A press on a focusable widget that is not focused: see `set_focus_rel`.
    fn widget_set_focus(
        &mut self,
        world: &mut World,
        control: Handle,
        under: &Vec<Handle>,
        events: &mut Vec<Dispatch>,
    )
        requires
            old(self).valid(*old(world)),
            widget_table(*old(world)).contains_key(control.0),
        ensures
            final(self).valid(*final(world)),
            set_focus_rel(
                UiState { t: widget_table(*old(world)), v: old(self)@, d: old(events)@ },
                control,
                keys(under@),
                UiState { t: widget_table(*final(world)), v: final(self)@, d: final(events)@ },
            ),
            final(self).name_map == old(self).name_map,
    {
        let ghost t = widget_table(*world);
        self.zlist_raise(control, Ghost(t));
        self.widget_show_children(world, control);
        if let Some(focused) = self.focused {
            let fa = world_actions(world, focused);
            events.push(Dispatch { handle: focused, actions: fa, event: UiEvent::FocusChange(false) });
        }
        let ca = world_actions(world, control);
        events.push(Dispatch { handle: control, actions: ca, event: UiEvent::FocusChange(true) });
        self.widget_set_clicked(world, control, under, events);
    }

    /// Whether the parent of `control` is focused, focusing it (and clicking
    /// it, when it is focused by clicking) if it can take focus but has none:
    /// see `parent_focused_rel`.
    fn is_parent_focused(
        &mut self,
        world: &mut World,
        control: Handle,
        under: &Vec<Handle>,
        events: &mut Vec<Dispatch>,
    ) -> (r: bool)
        requires
            old(self).valid(*old(world)),
            widget_table(*old(world)).contains_key(control.0),
            parent_search_ends(widget_table(*old(world)), control.0),
        ensures
            final(self).valid(*final(world)),
            parent_focused_rel(
                UiState { t: widget_table(*old(world)), v: old(self)@, d: old(events)@ },
                control,
                keys(under@),
                r,
                UiState { t: widget_table(*final(world)), v: final(self)@, d: final(events)@ },
            ),
            final(self).name_map == old(self).name_map,
    {
        let ghost t = widget_table(*world);
        let action = world_actions(world, control);
        if action.get(UiFlags::AlwaysUseable) {
            return true;
        }
        match world_parent(world, control) {
            None => false,
            Some(parent) => {
                proof {
                    crate::gui::tree::lemma_parent_in(t, control.0);
                }
                let parent_action = world_actions(world, parent);
                if parent_action.get(UiFlags::CanFocus) {
                    if parent_action.get(UiFlags::IsFocused) {
                        return true;
                    }
                    self.widget_manual_focus(world, parent, events);
                    let ghost m = UiState { t: widget_table(*world), v: self@, d: events@ };
                    if parent_action.get(UiFlags::FocusClick) {
                        self.widget_set_clicked(world, parent, under, events);
                    }
                    true
                } else {
                    // by `parent_search_ends`, the parent is an always usable,
                    // clickable widget that `control` clicks through to
                    true
                }
            },
        }
    }

    /// A press on `control`: see `press_event_rel`.
    fn mouse_press_event(
        &mut self,
        world: &mut World,
        control: Handle,
        under: &Vec<Handle>,
        events: &mut Vec<Dispatch>,
    )
        requires
            old(self).valid(*old(world)),
            widget_table(*old(world)).contains_key(control.0),
            has_flag(widget_table(*old(world))[control.0].0, UiFlags::CanFocus) || parent_search_ends(
                widget_table(*old(world)),
                control.0,
            ),
        ensures
            final(self).valid(*final(world)),
            press_event_rel(
                UiState { t: widget_table(*old(world)), v: old(self)@, d: old(events)@ },
                control,
                keys(under@),
                UiState { t: widget_table(*final(world)), v: final(self)@, d: final(events)@ },
            ),
            final(self).name_map == old(self).name_map,
    {
        let action = world_actions(world, control);
        if action.get(UiFlags::CanFocus) {
            if self.focused != Some(control) {
                self.widget_set_focus(world, control, under, events);
            } else {
                self.widget_set_clicked(world, control, under, events);
            }
        } else {
            let r = self.is_parent_focused(world, control, under, events);
            let ghost m = UiState { t: widget_table(*world), v: self@, d: events@ };
            if r {
                self.widget_set_clicked(world, control, under, events);
            }
        }
    }

    /// Whether a press now would finish (see `press_can_finish`).
    pub fn press_finishes(&self, world: &World, under: &Vec<Handle>) -> (r: bool)
        requires
            self.valid(*world),
        ensures
            r == press_can_finish(widget_table(*world), self@.zlist, keys(under@)),
    {
        let ghost t = widget_table(*world);
        let ghost un = keys(under@);
        let zl = self.zlist();
        let mut i: usize = zl.len();
        proof {
            assert(zl@.subrange(0, i as int) =~= zl@);
        }
        while i > 0
            invariant
                i <= zl@.len(),
                zl@ == self@.zlist,
                self.valid(*world),
                t == widget_table(*world),
                un == keys(under@),
                first_clickable(t, zl@, un) == first_clickable(t, zl@.subrange(0, i as int), un),
            decreases i,
        {
            let ghost pre = zl@.subrange(0, i as int);
            let handle = zl[i - 1];
            proof {
                assert(pre.last() == handle);
                assert(pre.drop_last() =~= zl@.subrange(0, i - 1));
                assert(zl@.contains(zl@[i - 1]));
                self.lemma_zlist_in(t, handle);
            }
            let action = world_actions(world, handle);
            if action.get(UiFlags::ClickAble) && contains_handle(under, handle) {
                if action.get(UiFlags::CanFocus) {
                    return true;
                }
                return self.parent_search_ends_at(world, handle);
            }
            i -= 1;
        }
        true
    }

    /// Whether the search for a focused parent of `control` ends (see
    /// `parent_search_ends`).
    pub fn parent_search_ends_at(&self, world: &World, control: Handle) -> (r: bool)
        requires
            well_formed(widget_table(*world)),
            widget_table(*world).contains_key(control.0),
        ensures
            r == parent_search_ends(widget_table(*world), control.0),
    {
        let ghost t = widget_table(*world);
        let action = world_actions(world, control);
        if action.get(UiFlags::AlwaysUseable) {
            return true;
        }
        match world_parent(world, control) {
            None => true,
            Some(p) => {
                proof {
                    crate::gui::tree::lemma_parent_in(t, control.0);
                }
                let pa = world_actions(world, p);
                pa.get(UiFlags::CanFocus) || (pa.get(UiFlags::AlwaysUseable) && pa.get(UiFlags::ClickAble)
                    && action.get(UiFlags::CanClickBehind))
            },
        }
    }

    /// A press of the mouse button: from the topmost widget down, movable
    /// widgets under the mouse stop being dragged until the first clickable
    /// widget under the mouse, which takes the press (see `press_scan` and
    /// `press_event_rel`).
    fn mouse_press(&mut self, world: &mut World, under: &Vec<Handle>, events: &mut Vec<Dispatch>)
        requires
            old(self).valid(*old(world)),
            press_can_finish(widget_table(*old(world)), old(self)@.zlist, keys(under@)),
        ensures
            final(self).valid(*final(world)),
            ({
                let (t1, target) = press_scan(widget_table(*old(world)), old(self)@.zlist, keys(under@));
                match target {
                    Some(h) => press_event_rel(
                        UiState { t: t1, v: old(self)@, d: old(events)@ },
                        h,
                        keys(under@),
                        UiState { t: widget_table(*final(world)), v: final(self)@, d: final(events)@ },
                    ),
                    None => widget_table(*final(world)) == t1 && final(self)@ == old(self)@
                        && final(events)@ == old(events)@,
                }
            }),
    {
        let ghost t0 = widget_table(*world);
        let ghost un = keys(under@);
        let zl = self.zlist();
        let mut i: usize = zl.len();
        proof {
            assert(zl@.subrange(0, i as int) =~= zl@);
            assert forall|k: int| 0 <= k < zl@.len() implies t0.contains_key(#[trigger] zl@[k].0) by {
                assert(zl@.contains(zl@[k]));
                self.lemma_zlist_in(t0, zl@[k]);
            }
            lemma_press_scan(t0, zl@, un);
        }
        while i > 0
            invariant
                i <= zl@.len(),
                zl@ == old(self)@.zlist,
                t0 == widget_table(*old(world)),
                un == keys(under@),
                self.valid(*world),
                self@ == old(self)@,
                events@ == old(events)@,
                press_scan(t0, zl@, un) == press_scan(widget_table(*world), zl@.subrange(0, i as int), un),
                same_but_moving(t0, widget_table(*world)),
                press_can_finish(t0, zl@, un),
                first_clickable(t0, zl@, un) == first_clickable(t0, zl@.subrange(0, i as int), un),
            decreases i,
        {
            let ghost tc = widget_table(*world);
            let ghost pre = zl@.subrange(0, i as int);
            let handle = zl[i - 1];
            proof {
                assert(pre.last() == handle);
                assert(pre.drop_last() =~= zl@.subrange(0, i - 1));
                assert(zl@.contains(zl@[i - 1]));
                self.lemma_zlist_in(tc, handle);
                assert(tc.dom().contains(handle.0));
                assert(t0.contains_key(handle.0));
            }
            let action = world_actions(world, handle);
            if action.get(UiFlags::ClickAble) && contains_handle(under, handle) {
                if action.get(UiFlags::MoveAble) {
                    let mut a = world_actions(world, handle);
                    a.clear(UiFlags::Moving);
                    self.put_actions(world, handle, a);
                }
                proof {
                    let t1 = widget_table(*world);
                    assert(press_scan(tc, pre, un) == (t1, Some(handle)));
                    assert(first_clickable(t0, pre, un) == Some(handle));
                    assert(same_but_moving(t0, t1)) by {
                        assert(t1.dom() =~= tc.dom());
                        assert forall|g: u64| #[trigger] t0.contains_key(g) implies t1[g].1 == t0[g].1 && t1[g].2 == t0[g].2
                            && forall|f: UiFlags| f != UiFlags::Moving ==> (#[trigger] has_flag(t1[g].0, f) == has_flag(t0[g].0, f)) by {
                            assert forall|f: UiFlags| f != UiFlags::Moving implies (#[trigger] has_flag(t1[g].0, f) == has_flag(t0[g].0, f)) by {
                                crate::gui::flags::lemma_without_flag(tc[handle.0].0, UiFlags::Moving, f);
                                assert(has_flag(tc[g].0, f) == has_flag(t0[g].0, f));
                            }
                        }
                    }
                }
                self.mouse_press_event(world, handle, under, events);
                return;
            }
            if action.get(UiFlags::MoveAble) && contains_handle(under, handle) {
                let mut a = world_actions(world, handle);
                a.clear(UiFlags::Moving);
                self.put_actions(world, handle, a);
            }
            proof {
                let t1 = widget_table(*world);
                assert(press_scan(tc, pre, un) == press_scan(t1, pre.drop_last(), un));
                assert(first_clickable(t0, pre, un) == first_clickable(t0, pre.drop_last(), un)) by {
                    assert(has_flag(tc[handle.0].0, UiFlags::ClickAble) == has_flag(t0[handle.0].0, UiFlags::ClickAble));
                }
                assert(same_but_moving(t0, t1)) by {
                    assert(t1.dom() =~= tc.dom());
                    assert forall|g: u64| #[trigger] t0.contains_key(g) implies t1[g].1 == t0[g].1 && t1[g].2 == t0[g].2
                        && forall|f: UiFlags| f != UiFlags::Moving ==> (#[trigger] has_flag(t1[g].0, f) == has_flag(t0[g].0, f)) by {
                        assert forall|f: UiFlags| f != UiFlags::Moving implies (#[trigger] has_flag(t1[g].0, f) == has_flag(t0[g].0, f)) by {
                            crate::gui::flags::lemma_without_flag(tc[handle.0].0, UiFlags::Moving, f);
                            assert(has_flag(tc[g].0, f) == has_flag(t0[g].0, f));
                        }
                    }
                }
            }
            i -= 1;
        }
        proof {
            assert(zl@.subrange(0, 0) =~= Seq::<Handle>::empty());
        }
    }

    /// A release of the mouse button: see `release_step`.
    fn mouse_release(&mut self, world: &mut World, under: &Vec<Handle>, events: &mut Vec<Dispatch>)
        requires
            old(self).valid(*old(world)),
        ensures
            final(self).valid(*final(world)),
            ({
                let s2 = release_step(
                    UiState { t: widget_table(*old(world)), v: old(self)@, d: old(events)@ },
                    keys(under@),
                );
                &&& widget_table(*final(world)) == s2.t
                &&& final(self)@ == s2.v
                &&& final(events)@ == s2.d
            }),
    {
        if let Some(focused_handle) = self.focused {
            let action = world_actions(world, focused_handle);
            if action.get(UiFlags::Moving) && self.widget_moving == Some(focused_handle) {
                let mut a = world_actions(world, focused_handle);
                a.clear(UiFlags::Moving);
                self.put_actions(world, focused_handle, a);
                self.widget_moving = None;
            }
        }
        proof {
            assert((UiState { t: widget_table(*world), v: self@, d: events@ }) == crate::gui::model::release_focused_step(
                UiState { t: widget_table(*old(world)), v: old(self)@, d: old(events)@ },
            ));
        }
        let ghost t1 = widget_table(*world);
        let ghost v1 = self@;
        let ghost d1 = events@;
        let ghost un = keys(under@);
        let zl = self.zlist();
        let mut i: usize = zl.len();
        proof {
            assert(zl@.subrange(0, i as int) =~= zl@);
        }
        while i > 0
            invariant
                i <= zl@.len(),
                zl@ == v1.zlist,
                un == keys(under@),
                self.valid(*world),
                widget_table(*world) == t1,
                self@ == v1,
                events@ == d1,
                first_clickable(t1, zl@, un) == first_clickable(t1, zl@.subrange(0, i as int), un),
                (UiState { t: t1, v: v1, d: d1 }) == crate::gui::model::release_focused_step(
                    UiState { t: widget_table(*old(world)), v: old(self)@, d: old(events)@ },
                ),
            decreases i,
        {
            let ghost pre = zl@.subrange(0, i as int);
            let handle = zl[i - 1];
            proof {
                assert(pre.last() == handle);
                assert(pre.drop_last() =~= zl@.subrange(0, i - 1));
                assert(zl@.contains(zl@[i - 1]));
                self.lemma_zlist_in(t1, handle);
            }
            let action = world_actions(world, handle);
            if action.get(UiFlags::ClickAble) && contains_handle(under, handle) {
                proof {
                    assert(first_clickable(t1, pre, un) == Some(handle));
                }
                if action.get(UiFlags::CanMoveWindow) {
                    self.moving = false;
                }
                if action.get(UiFlags::Moving) && self.widget_moving == Some(handle) {
                    let mut a = world_actions(world, handle);
                    a.clear(UiFlags::Moving);
                    self.put_actions(world, handle, a);
                    self.widget_moving = None;
                }
                let a2 = world_actions(world, handle);
                events.push(Dispatch { handle, actions: a2, event: UiEvent::MousePress(self.button, false, self.modifier) });
                return;
            }
            i -= 1;
        }
        proof {
            assert(zl@.subrange(0, 0) =~= Seq::<Handle>::empty());
        }
    }

    /// A mouse button goes down (`pressed`) or up over the widgets in `under`;
    /// the button is kept for the events it raises.
    pub fn event_mouse_button(
        &mut self,
        world: &mut World,
        button: MouseButton,
        pressed: bool,
        under: &Vec<Handle>,
        events: &mut Vec<Dispatch>,
    )
        requires
            old(self).valid(*old(world)),
            pressed ==> press_can_finish(widget_table(*old(world)), old(self)@.zlist, keys(under@)),
        ensures
            final(self).valid(*final(world)),
            pressed ==> ({
                let v1 = UiView { button, ..old(self)@ };
                let (t1, target) = press_scan(widget_table(*old(world)), old(self)@.zlist, keys(under@));
                match target {
                    Some(h) => press_event_rel(
                        UiState { t: t1, v: v1, d: old(events)@ },
                        h,
                        keys(under@),
                        UiState { t: widget_table(*final(world)), v: final(self)@, d: final(events)@ },
                    ),
                    None => widget_table(*final(world)) == t1 && final(self)@ == v1
                        && final(events)@ == old(events)@,
                }
            }),
            !pressed ==> ({
                let s2 = release_step(
                    UiState { t: widget_table(*old(world)), v: UiView { button, ..old(self)@ }, d: old(events)@ },
                    keys(under@),
                );
                &&& widget_table(*final(world)) == s2.t
                &&& final(self)@ == s2.v
                &&& final(events)@ == s2.d
            }),
    {
        self.button = button;
        if pressed {
            self.mouse_press(world, under, events);
        } else {
            self.mouse_release(world, under, events);
        }
    }

    /// Keeps the modifier keys now held, for the events that follow.
    pub fn event_modifiers(&mut self, modifier: Modifiers)
        ensures
            final(self)@ == (UiView { modifier, ..old(self)@ }),
            forall|t: WidgetTable| old(self).inv(t) ==> final(self).inv(t),
    {
        self.modifier = modifier;
    }

    /// The mouse moved over the widgets in `under`; `in_bounds` tells
    /// whether the dragged widget, if any, stays within its parent's bounds.
    pub fn event_mouse_position(
        &mut self,
        world: &mut World,
        under: &Vec<Handle>,
        in_bounds: bool,
        events: &mut Vec<Dispatch>,
    ) -> (r: MouseMove)
        requires
            old(self).valid(*old(world)),
            !old(self)@.moving && old(self)@.widget_moving.is_some() ==> widget_table(*old(world)).contains_key(
                old(self)@.widget_moving.unwrap().0,
            ),
        ensures
            final(self).valid(*final(world)),
            ({
                let (s2, m) = mouse_move_step(
                    UiState { t: widget_table(*old(world)), v: old(self)@, d: old(events)@ },
                    keys(under@),
                    in_bounds,
                );
                &&& r == m
                &&& widget_table(*final(world)) == s2.t
                &&& final(self)@ == s2.v
                &&& final(events)@ == s2.d
            }),
    {
        if self.moving {
            return MouseMove::MoveWindow;
        }
        if let Some(handle) = self.widget_moving {
            let action = world_actions(world, handle);
            if action.get(UiFlags::Moving) {
                if !in_bounds {
                    return MouseMove::Blocked;
                }
                events.push(Dispatch { handle, actions: action, event: UiEvent::PositionChange });
            }
        }
        self.mouse_over_event(world, under, events);
        MouseMove::Updated
    }

    /// Shows `control`: see `show_rel`.
    fn widget_show(&mut self, world: &mut World, control: Handle, events: &mut Vec<Dispatch>)
        requires
            old(self).valid(*old(world)),
            widget_table(*old(world)).contains_key(control.0),
        ensures
            final(self).valid(*final(world)),
            show_rel(
                UiState { t: widget_table(*old(world)), v: old(self)@, d: old(events)@ },
                control,
                UiState { t: widget_table(*final(world)), v: final(self)@, d: final(events)@ },
            ),
    {
        let ghost t = widget_table(*world);
        self.zlist_remove(control);
        proof {
            lemma_without_no_dup(old(self)@.zlist, set![control.0]);
            lemma_zlist_subset(old(self)@.zlist, set![control.0], t);
            lemma_without_contains(old(self)@.zlist, set![control.0], control);
        }
        self.zlist.push_back(control);
        proof {
            let z = self.zlist@;
            assert(z.drop_last() + seq![control] =~= z);
            lemma_no_dup_concat(z.drop_last(), seq![control]);
            assert forall|h: Handle| z.drop_last().contains(h) implies !seq![control].contains(h) by {
                if seq![control].contains(h) {
                    let k = choose|k: int| 0 <= k < 1 && seq![control][k] == h;
                }
            }
            assert forall|k: int| 0 <= k < z.len() implies t.contains_key(#[trigger] z[k].0) by {
                if k < z.len() - 1 {
                    assert(z[k] == z.drop_last()[k]);
                }
            }
        }
        self.widget_show_children(world, control);
        let ghost z = self.zlist@;
        if !self.widget_is_focused(world, control) && self.focused.is_some() {
            let focused = self.focused.unwrap();
            self.widget_manual_focus(world, focused, events);
        }
        proof {
            assert(moved_to_back(without(old(self)@.zlist, set![control.0]).push(control), z, shown(t, control.0)));
        }
    }

    /// Hides `control`: it and the widgets its visible children show leave
    /// the drawing order, and they stop being focused, clicked or hovered
    /// (`control` itself only stops being focused).
    fn widget_hide(&mut self, world: &World, control: Handle)
        requires
            old(self).valid(*world),
        ensures
            final(self).valid(*world),
            final(self)@ == (UiView {
                zlist: without(old(self)@.zlist, set![control.0] + shown(widget_table(*world), control.0)),
                focused: clear_if(old(self)@.focused, set![control.0] + shown(widget_table(*world), control.0)),
                clicked: clear_if(old(self)@.clicked, shown(widget_table(*world), control.0)),
                over: clear_if(old(self)@.over, shown(widget_table(*world), control.0)),
                ..old(self)@
            }),
    {
        let ghost t = widget_table(*world);
        self.zlist_remove(control);
        proof {
            lemma_without_no_dup(old(self)@.zlist, set![control.0]);
            lemma_zlist_subset(old(self)@.zlist, set![control.0], t);
        }
        self.widget_hide_children(world, control);
        if self.focused == Some(control) {
            self.focused = None;
        }
        proof {
            lemma_without_without(old(self)@.zlist, set![control.0], shown(t, control.0));
        }
    }

    /// Whether a widget with this identity is registered.
    pub fn is_registered(&self, identity: &Identity) -> (r: bool)
        ensures
            r == registered(self@.names, identity.name@, identity.id),
    {
        proof {
            self.lemma_names_view();
        }
        let mut i: usize = 0;
        while i < self.name_map.len()
            invariant
                i <= self.name_map@.len(),
                forall|j: int| 0 <= j < i ==> !(self.name_map@[j].0.name@ == identity.name@ && self.name_map@[j].0.id == identity.id),
            decreases self.name_map@.len() - i,
        {
            if self.name_map[i].0.same(identity) {
                proof {
                    self.lemma_names_view();
                    assert(self@.names.contains(name_entry(self.name_map@[i as int])));
                }
                return true;
            }
            i += 1;
        }
        proof {
            self.lemma_names_view();
            assert forall|e: (Seq<char>, u64, u64)| #[trigger] self@.names.contains(e) implies !(e.0 == identity.name@ && e.1 == identity.id) by {
                let k = choose|k: int| 0 <= k < self.name_map@.len() && #[trigger] name_entry(self.name_map@[k]) == e;
            }
        }
        false
    }

    /// Registers a widget with `identity` and `actions` in the world.
    fn create_widget(&mut self, world: &mut World, identity: Identity, actions: UiField) -> (h: Handle)
        requires
            old(self).valid(*old(world)),
            !registered(old(self)@.names, identity.name@, identity.id),
        ensures
            final(self).valid(*final(world)),
            !widget_table(*old(world)).contains_key(h.0),
            widget_table(*final(world)) == widget_table(*old(world)).insert(h.0, (actions.0, None, false)),
            final(self)@ == (UiView {
                names: old(self)@.names.insert((identity.name@, identity.id, h.0)),
                ..old(self)@
            }),
            final(self).zlist == old(self).zlist,
    {
        let ghost t = widget_table(*world);
        let ghost entry = (identity.name@, identity.id);
        let handle = world_spawn_widget(world, actions);
        proof {
            crate::gui::tree::lemma_wf_spawn(t, handle.0, actions.0);
            self.lemma_names_view();
        }
        let ghost v0 = self.name_map@;
        self.name_map.push((identity, handle));
        proof {
            let t2 = widget_table(*world);
            let n0 = old(self)@.names;
            let n1 = self@.names;
            assert forall|k: int| 0 <= k < v0.len() implies (#[trigger] v0[k]).1 != handle && !(v0[k].0.name@ == entry.0 && v0[k].0.id == entry.1) by {
                assert(t.contains_key(v0[k].1.0));
                assert(n0.contains(name_entry(v0[k])));
            }
            assert forall|e: (Seq<char>, u64, u64)| n1.contains(e) <==> n0.insert((entry.0, entry.1, handle.0)).contains(e) by {
                self.lemma_names_view();
                if n1.contains(e) {
                    let k = choose|k: int| 0 <= k < self.name_map@.len() && #[trigger] name_entry(self.name_map@[k]) == e;
                    if k < v0.len() {
                        assert(self.name_map@[k] == v0[k]);
                        assert(n0.contains(name_entry(v0[k])));
                    }
                }
                if n0.contains(e) {
                    let k = choose|k: int| 0 <= k < v0.len() && #[trigger] name_entry(v0[k]) == e;
                    assert(self.name_map@[k] == v0[k]);
                    assert(n1.contains(name_entry(self.name_map@[k])));
                }
                if e == (entry.0, entry.1, handle.0) {
                    assert(name_entry(self.name_map@[v0.len() as int]) == e);
                    assert(n1.contains(name_entry(self.name_map@[v0.len() as int])));
                }
            }
            assert(n1 =~= n0.insert((entry.0, entry.1, handle.0)));
            assert forall|k: int| 0 <= k < self.zlist@.len() implies t2.contains_key(#[trigger] self.zlist@[k].0) by {}
            assert forall|k: int| 0 <= k < self.name_map@.len() implies t2.contains_key(#[trigger] self.name_map@[k].1.0) by {
                if k < v0.len() {
                    assert(self.name_map@[k] == v0[k]);
                }
            }
            assert forall|a: int, b: int|
                0 <= a < b < self.name_map@.len() implies (#[trigger] self.name_map@[a]).1 != (
                #[trigger] self.name_map@[b]).1 && !(self.name_map@[a].0.name@
                    == self.name_map@[b].0.name@ && self.name_map@[a].0.id == self.name_map@[b].0.id) by {
                assert(self.name_map@[a] == v0[a]);
                if b < v0.len() {
                    assert(self.name_map@[b] == v0[b]);
                }
            }
            assert(opt_in(self.focused, t2) && opt_in(self.over, t2) && opt_in(self.clicked, t2));
        }
        handle
    }

    /// Adds a widget with `identity` and `actions`, under `parent_handle` or
    /// at the top of the drawing order, and shows the visible children of
    /// the parent, or of the new widget.
    pub fn add_widget(
        &mut self,
        world: &mut World,
        parent_handle: Option<Handle>,
        identity: Identity,
        actions: UiField,
    ) -> (h: Handle)
        requires
            old(self).valid(*old(world)),
            !registered(old(self)@.names, identity.name@, identity.id),
            parent_handle matches Some(p) ==> widget_table(*old(world)).contains_key(p.0),
        ensures
            final(self).valid(*final(world)),
            !widget_table(*old(world)).contains_key(h.0),
            widget_table(*final(world)) == widget_table(*old(world)).insert(
                h.0,
                (actions.0, match parent_handle {
                    Some(p) => Some(p.0),
                    None => None,
                }, false),
            ),
            final(self)@ == (UiView {
                zlist: final(self)@.zlist,
                names: old(self)@.names.insert((identity.name@, identity.id, h.0)),
                ..old(self)@
            }),
            match parent_handle {
                Some(p) => moved_to_back(old(self)@.zlist, final(self)@.zlist, shown(widget_table(*final(world)), p.0)),
                None => final(self)@.zlist == old(self)@.zlist.push(h),
            },
    {
        let ghost t0 = widget_table(*world);
        let handle = self.create_widget(world, identity, actions);
        let ghost t1 = widget_table(*world);
        proof {
            crate::gui::tree::lemma_wf_spawn(t0, handle.0, actions.0);
        }
        if let Some(parent) = parent_handle {
            world_set_parent(world, handle, parent);
            proof {
                crate::gui::tree::lemma_wf_set_parent(t1, handle.0, parent.0);
                let t2 = widget_table(*world);
                assert(t2.dom() =~= t1.dom());
                self.lemma_inv_dom(t1, t2);
            }
            self.widget_show_children(world, parent);
        } else {
            self.zlist.push_back(handle);
            proof {
                let z = self.zlist@;
                assert(z.drop_last() + seq![handle] =~= z);
                lemma_no_dup_concat(z.drop_last(), seq![handle]);
                assert forall|g: Handle| z.drop_last().contains(g) implies !seq![handle].contains(g) by {
                    if seq![handle].contains(g) {
                        let k = choose|k: int| 0 <= k < 1 && seq![handle][k] == g;
                        let j = choose|j: int| 0 <= j < z.drop_last().len() && z.drop_last()[j] == g;
                        assert(old(self).zlist@[j] == g);
                        assert(t0.contains_key(old(self).zlist@[j].0));
                    }
                }
                assert forall|k: int| 0 <= k < z.len() implies t1.contains_key(#[trigger] z[k].0) by {
                    if k < z.len() - 1 {
                        assert(z[k] == z.drop_last()[k]);
                        assert(t0.contains_key(old(self).zlist@[k].0));
                    }
                }
                crate::gui::tree::lemma_shown_none(t1, handle.0);
            }
            let ghost z1 = self.zlist@;
            self.widget_show_children(world, handle);
            proof {
                lemma_moved_none(z1, self.zlist@);
            }
        }
        handle
    }

    /// Adds a hidden widget with `identity` and `actions`, under
    /// `parent_handle` if given.
    pub fn add_widget_hidden(
        &mut self,
        world: &mut World,
        parent_handle: Option<Handle>,
        identity: Identity,
        actions: UiField,
    ) -> (h: Handle)
        requires
            old(self).valid(*old(world)),
            !registered(old(self)@.names, identity.name@, identity.id),
            parent_handle matches Some(p) ==> widget_table(*old(world)).contains_key(p.0),
        ensures
            final(self).valid(*final(world)),
            !widget_table(*old(world)).contains_key(h.0),
            widget_table(*final(world)) == widget_table(*old(world)).insert(
                h.0,
                (actions.0, match parent_handle {
                    Some(p) => Some(p.0),
                    None => None,
                }, true),
            ),
            final(self)@ == (UiView {
                names: old(self)@.names.insert((identity.name@, identity.id, h.0)),
                ..old(self)@
            }),
    {
        let ghost t0 = widget_table(*world);
        let handle = self.create_widget(world, identity, actions);
        let ghost t1 = widget_table(*world);
        proof {
            crate::gui::tree::lemma_wf_spawn(t0, handle.0, actions.0);
        }
        if let Some(parent) = parent_handle {
            world_set_parent(world, handle, parent);
            proof {
                crate::gui::tree::lemma_wf_set_parent(t1, handle.0, parent.0);
                let t2 = widget_table(*world);
                assert(t2.dom() =~= t1.dom());
                self.lemma_inv_dom(t1, t2);
            }
        }
        let ghost t2 = widget_table(*world);
        world_set_hidden(world, handle);
        proof {
            crate::gui::tree::lemma_wf_hidden(t2, handle.0);
            let t3 = widget_table(*world);
            assert(t3.dom() =~= t2.dom());
            self.lemma_inv_dom(t2, t3);
            assert(t3 =~= t0.insert(handle.0, (actions.0, match parent_handle {
                Some(p) => Some(p.0),
                None => None,
            }, true)));
        }
        handle
    }

    /// Removes every widget from the world and forgets the drawing order,
    /// the registered identities, and the focused, hovered and clicked widget.
    pub fn clear_widgets(&mut self, world: &mut World)
        requires
            old(self).valid(*old(world)),
        ensures
            final(self).valid(*final(world)),
            widget_table(*final(world)) == Map::<u64, (u16, Option<u64>, bool)>::empty(),
            final(self)@ == (UiView {
                zlist: Seq::empty(),
                focused: None,
                over: None,
                clicked: None,
                names: Set::empty(),
                ..old(self)@
            }),
    {
        self.zlist.clear();
        self.name_map.clear();
        self.focused = None;
        self.over = None;
        self.clicked = None;
        let ghost t0 = widget_table(*world);
        let widgets = world_all_widgets(world);
        let mut i: usize = 0;
        while i < widgets.len()
            invariant
                i <= widgets@.len(),
                t0 == widget_table(*old(world)),
                forall|a: int, b: int| 0 <= a < b < widgets@.len() ==> widgets@[a] != widgets@[b],
                forall|h: u64| widgets@.contains(Handle(h)) <==> t0.contains_key(h),
                widget_table(*world) == t0.remove_keys(Set::new(|h: u64| exists|j: int| 0 <= j < i && widgets@[j].0 == h)),
            decreases widgets@.len() - i,
        {
            let h = widgets[i];
            proof {
                assert(widgets@.contains(widgets@[i as int]));
                assert(widgets@[i as int] == Handle(h.0));
                assert(t0.contains_key(h.0));
                if !widget_table(*world).contains_key(h.0) {
                    let j = choose|j: int| 0 <= j < i && widgets@[j].0 == h.0;
                    assert(widgets@[j] == widgets@[i as int]);
                }
            }
            world_despawn(world, h);
            proof {
                let s1 = Set::new(|g: u64| exists|j: int| 0 <= j < i && widgets@[j].0 == g);
                let s2 = Set::new(|g: u64| exists|j: int| 0 <= j < i + 1 && widgets@[j].0 == g);
                assert(s2 =~= s1.insert(h.0)) by {
                    assert forall|g: u64| s2.contains(g) implies s1.insert(h.0).contains(g) by {
                        let j = choose|j: int| 0 <= j < i + 1 && widgets@[j].0 == g;
                        if j < i {
                            assert(s1.contains(g));
                        }
                    }
                    assert forall|g: u64| s1.insert(h.0).contains(g) implies s2.contains(g) by {
                        if s1.contains(g) {
                            let j = choose|j: int| 0 <= j < i && widgets@[j].0 == g;
                            assert(0 <= j < i + 1);
                        }
                    }
                }
                assert(t0.remove_keys(s1).remove(h.0) =~= t0.remove_keys(s2));
            }
            i += 1;
        }
        proof {
            let s1 = Set::new(|g: u64| exists|j: int| 0 <= j < i && widgets@[j].0 == g);
            assert forall|g: u64| t0.contains_key(g) implies s1.contains(g) by {
                assert(widgets@.contains(Handle(g)));
                let j = choose|j: int| 0 <= j < widgets@.len() && widgets@[j] == Handle(g);
            }
            let tf = widget_table(*world);
            assert(tf =~= Map::<u64, (u16, Option<u64>, bool)>::empty());
            let r = Map::<u64, nat>::empty();
            assert(crate::gui::tree::ranked(tf, r));
            assert(tf.dom() =~= Set::<u64>::empty());
            assert(self@.names =~= Set::<(Seq<char>, u64, u64)>::empty());
        }
    }

    /// Sets `action` on the widget `handle`.
    pub fn set_action(world: &mut World, handle: Handle, action: UiFlags)
        requires
            widget_table(*old(world)).contains_key(handle.0),
        ensures
            widget_table(*final(world)) == set_bits(
                widget_table(*old(world)),
                handle.0,
                with_flag(widget_table(*old(world))[handle.0].0, action),
            ),
    {
        let mut actions = world_actions(world, handle);
        actions.set(action);
        world_set_actions(world, handle, actions);
    }

    /// Removes the widget `handle` and every widget below it.
    pub fn remove_widget_by_handle(&mut self, world: &mut World, handle: Handle)
        requires
            old(self).valid(*old(world)),
            widget_table(*old(world)).contains_key(handle.0),
        ensures
            widget_table(*final(world)) == widget_table(*old(world)).remove_keys(
                subtree(widget_table(*old(world)), handle.0),
            ),
            final(self).valid(*final(world)),
            final(self)@ == (UiView {
                zlist: without(old(self)@.zlist, subtree(widget_table(*old(world)), handle.0)),
                focused: clear_if(old(self)@.focused, subtree(widget_table(*old(world)), handle.0)),
                clicked: clear_if(old(self)@.clicked, subtree(widget_table(*old(world)), handle.0)),
                over: clear_if(old(self)@.over, subtree(widget_table(*old(world)), handle.0)),
                names: names_without(old(self)@.names, subtree(widget_table(*old(world)), handle.0)),
                ..old(self)@
            }),
    {
        self.widget_clear_self(world, handle);
    }

    /// Shows the widget `handle` (see `show_rel`), returning what the
    /// widgets concerned are told.
    pub fn show_widget_by_handle(&mut self, world: &mut World, handle: Handle) -> (events: Vec<Dispatch>)
        requires
            old(self).valid(*old(world)),
            widget_table(*old(world)).contains_key(handle.0),
        ensures
            final(self).valid(*final(world)),
            show_rel(
                UiState { t: widget_table(*old(world)), v: old(self)@, d: Seq::empty() },
                handle,
                UiState { t: widget_table(*final(world)), v: final(self)@, d: events@ },
            ),
    {
        let mut events: Vec<Dispatch> = Vec::new();
        self.widget_show(world, handle, &mut events);
        events
    }

    /// Hides the widget `handle` (see `widget_hide`).
    pub fn hide_widget_by_handle(&mut self, world: &World, handle: Handle)
        requires
            old(self).valid(*world),
        ensures
            final(self).valid(*world),
            final(self)@ == (UiView {
                zlist: without(old(self)@.zlist, set![handle.0] + shown(widget_table(*world), handle.0)),
                focused: clear_if(old(self)@.focused, set![handle.0] + shown(widget_table(*world), handle.0)),
                clicked: clear_if(old(self)@.clicked, shown(widget_table(*world), handle.0)),
                over: clear_if(old(self)@.over, shown(widget_table(*world), handle.0)),
                ..old(self)@
            }),
    {
        self.widget_hide(world, handle);
    }

    /// Routes one window input to the handler it concerns and returns the
    /// widget events it raised, with the pointer outcome for a cursor move.
    pub fn handle_events(&mut self, world: &mut World, input: &UiInput) -> (r: (Vec<Dispatch>, Option<MouseMove>))
        requires
            old(self).valid(*old(world)),
            match input {
                UiInput::MouseButton(_, true, under) => press_can_finish(
                    widget_table(*old(world)),
                    old(self)@.zlist,
                    keys(under@),
                ),
                UiInput::CursorMoved(_, _) => !old(self)@.moving && old(self)@.widget_moving.is_some()
                    ==> widget_table(*old(world)).contains_key(old(self)@.widget_moving.unwrap().0),
                _ => true,
            },
        ensures
            final(self).valid(*final(world)),
            match input {
                UiInput::MouseButton(button, true, under) => r.1.is_none() && ({
                    let (t1, target) = press_scan(widget_table(*old(world)), old(self)@.zlist, keys(under@));
                    match target {
                        Some(h) => press_event_rel(
                            UiState { t: t1, v: UiView { button: *button, ..old(self)@ }, d: Seq::empty() },
                            h,
                            keys(under@),
                            UiState { t: widget_table(*final(world)), v: final(self)@, d: r.0@ },
                        ),
                        None => widget_table(*final(world)) == t1 && final(self)@ == (UiView { button: *button, ..old(self)@ }) && r.0@
                            == Seq::<Dispatch>::empty(),
                    }
                }),
                UiInput::MouseButton(button, false, under) => r.1.is_none() && ({
                    let s2 = release_step(
                        UiState { t: widget_table(*old(world)), v: UiView { button: *button, ..old(self)@ }, d: Seq::empty() },
                        keys(under@),
                    );
                    &&& widget_table(*final(world)) == s2.t
                    &&& final(self)@ == s2.v
                    &&& r.0@ == s2.d
                }),
                UiInput::CursorMoved(under, in_bounds) => {
                    let (s2, m) = mouse_move_step(
                        UiState { t: widget_table(*old(world)), v: old(self)@, d: Seq::empty() },
                        keys(under@),
                        *in_bounds,
                    );
                    &&& r.1 == Some(m)
                    &&& widget_table(*final(world)) == s2.t
                    &&& final(self)@ == s2.v
                    &&& r.0@ == s2.d
                },
                _ => r.1.is_none() && r.0@ == Seq::<Dispatch>::empty() && final(self)@ == old(self)@
                    && widget_table(*final(world)) == widget_table(*old(world)),
            },
    {
        let mut events: Vec<Dispatch> = Vec::new();
        match input {
            UiInput::MouseButton(button, pressed, under) => {
                self.event_mouse_button(world, *button, *pressed, under, &mut events);
                (events, None)
            },
            UiInput::CursorMoved(under, in_bounds) => {
                let m = self.event_mouse_position(world, under, *in_bounds, &mut events);
                (events, Some(m))
            },
            _ => (events, None),
        }
    }
}

/// A window input as the widget layer sees it: a key, a mouse button going
/// down (`true`) or up over the widgets listed, or the cursor moving over the
/// widgets listed, with whether a dragged widget stays within its bounds.
pub enum UiInput {
    Key,
    MouseButton(MouseButton, bool, Vec<Handle>),
    CursorMoved(Vec<Handle>, bool),
    Other,
}

/// A widget shown through an earlier child of `control` does not lie below
/// the child at `i`, a sibling.
proof fn lemma_prefix_outside(
    t: WidgetTable,
    links: Seq<(Handle, Handle)>,
    control: Handle,
    i: int,
    child: Handle,
    h: u64,
)
    requires
        well_formed(t),
        forall|h: u64, p: u64| links.contains((Handle(h), Handle(p))) <==> vis_child(t, h, p),
        forall|a: int, b: int| 0 <= a < b < links.len() ==> (#[trigger] links[a]).0 != (#[trigger] links[b]).0,
        0 <= i < links.len(),
        links[i] == (child, control),
        shown_prefix(t, links, control.0, i).contains(h),
    ensures
        !subtree(t, child.0).contains(h),
{
    let j = choose|j: int|
        0 <= j < i && (#[trigger] links[j]).1.0 == control.0 && (h == links[j].0.0 || (allows_children(
            t,
            links[j].0.0,
        ) && shown(t, links[j].0.0).contains(h)));
    assert(links.contains(links[j]));
    assert(links.contains(links[i]));
    assert(links[j] == (Handle(links[j].0.0), Handle(links[j].1.0)));
    assert(vis_child(t, links[j].0.0, control.0));
    assert(vis_child(t, child.0, control.0));
    assert(links[j].0 != links[i].0);
    if h == links[j].0.0 {
        lemma_subtree_basics(t, links[j].0.0);
    } else {
        lemma_shown_in_subtree(t, links[j].0.0, h);
    }
    lemma_sibling_subtrees(t, links[j].0.0, child.0, control.0, h);
}

/// Putting the child at `i` after the widgets shown through earlier children
/// keeps each of them before what it shows.
proof fn lemma_push_parents_first(
    t: WidgetTable,
    links: Seq<(Handle, Handle)>,
    control: Handle,
    i: int,
    child: Handle,
    w: Seq<Handle>,
)
    requires
        well_formed(t),
        forall|h: u64, p: u64| links.contains((Handle(h), Handle(p))) <==> vis_child(t, h, p),
        forall|a: int, b: int| 0 <= a < b < links.len() ==> (#[trigger] links[a]).0 != (#[trigger] links[b]).0,
        0 <= i < links.len(),
        links[i] == (child, control),
        parents_first(t, w),
        forall|h: Handle| #[trigger] w.contains(h) ==> shown_prefix(t, links, control.0, i).contains(h.0),
    ensures
        parents_first(t, w.push(child)),
{
    let w1 = w.push(child);
    assert forall|a: int, b: int|
        #![trigger w1[a], w1[b]]
        0 <= a < w1.len() && 0 <= b < w1.len() && shown(t, w1[a].0).contains(w1[b].0) implies a < b by {
        if a == w.len() {
            lemma_shown_in_subtree(t, child.0, w1[b].0);
            if b < w.len() {
                assert(w1[b] == w[b]);
                assert(w.contains(w[b]));
                lemma_prefix_outside(t, links, control, i, child, w[b].0);
            }
        } else if b < w.len() {
            assert(w1[a] == w[a]);
            assert(w1[b] == w[b]);
        }
    }
}

/// What follows the kept part after a move to the back was moved.
proof fn lemma_tail_in(old: Seq<Handle>, new: Seq<Handle>, s: Set<u64>, k: int)
    requires
        moved_to_back(old, new, s),
        without(old, s).len() <= k < new.len(),
    ensures
        s.contains(new[k].0),
{
    let kept = without(old, s);
    if !s.contains(new[k].0) {
        assert(new.contains(new[k]));
        lemma_without_contains(old, s, new[k]);
        let j = choose|j: int| 0 <= j < kept.len() && kept[j] == new[k];
        assert(new.subrange(0, kept.len() as int)[j] == kept[j]);
        assert(new[j] == new[k]);
    }
}

/// The members of a `shown_prefix` are widgets.
proof fn lemma_shown_prefix_in(t: WidgetTable, links: Seq<(Handle, Handle)>, c: u64, i: int)
    requires
        well_formed(t),
        forall|h: u64, p: u64| links.contains((Handle(h), Handle(p))) <==> vis_child(t, h, p),
        0 <= i <= links.len(),
    ensures
        forall|h: u64| #[trigger] shown_prefix(t, links, c, i).contains(h) ==> t.contains_key(h),
{
    assert forall|h: u64| #[trigger] shown_prefix(t, links, c, i).contains(h) implies t.contains_key(h) by {
        let j = choose|j: int|
            0 <= j < i && (#[trigger] links[j]).1.0 == c && (h == links[j].0.0 || (
            allows_children(t, links[j].0.0) && shown(t, links[j].0.0).contains(h)));
        assert(links.contains(links[j]));
        assert(links[j] == (Handle(links[j].0.0), Handle(links[j].1.0)));
        assert(vis_child(t, links[j].0.0, links[j].1.0));
        if h != links[j].0.0 {
            crate::gui::tree::lemma_shown_below(t, links[j].0.0, h);
        }
    }
}

/// The drawing order `without(z0, u) + w` with `w` holding exactly the
/// widgets of `u`, each once, is free of duplicates and holds only widgets.
proof fn lemma_close_step(z: Seq<Handle>, z0: Seq<Handle>, w: Seq<Handle>, u: Set<u64>, t: WidgetTable)
    requires
        z == without(z0, u) + w,
        z0.no_duplicates(),
        forall|i: int| 0 <= i < z0.len() ==> t.contains_key(#[trigger] z0[i].0),
        w.no_duplicates(),
        forall|h: Handle| #[trigger] w.contains(h) <==> u.contains(h.0),
        forall|h: u64| #[trigger] u.contains(h) ==> t.contains_key(h),
    ensures
        z.no_duplicates(),
        forall|i: int| 0 <= i < z.len() ==> t.contains_key(#[trigger] z[i].0),
{
    lemma_without_no_dup(z0, u);
    assert forall|h: Handle| without(z0, u).contains(h) implies !w.contains(h) by {
        lemma_without_contains(z0, u, h);
    }
    lemma_no_dup_concat(without(z0, u), w);
    assert forall|i: int| 0 <= i < z.len() implies t.contains_key(#[trigger] z[i].0) by {
        assert(z.contains(z[i]));
        lemma_concat_contains(without(z0, u), w, z[i]);
        lemma_without_contains(z0, u, z[i]);
        if z0.contains(z[i]) {
            let k = choose|k: int| 0 <= k < z0.len() && z0[k] == z[i];
            assert(t.contains_key(z0[k].0));
        }
    }
}

/// Running through all the visible links, `shown_prefix` collects `shown`.
proof fn lemma_shown_prefix_full(t: WidgetTable, links: Seq<(Handle, Handle)>, c: u64)
    requires
        forall|h: u64, p: u64| links.contains((Handle(h), Handle(p))) <==> vis_child(t, h, p),
    ensures
        shown_prefix(t, links, c, links.len() as int) == shown(t, c),
{
    let u = shown_prefix(t, links, c, links.len() as int);
    let control = Handle(c);
            assert(u =~= shown(t, c)) by {
                assert forall|h: u64| u.contains(h) <==> shown(t, c).contains(h) by {
                    lemma_shown_unfold(t, c, h);
                    if shown(t, c).contains(h) {
                        let ch = choose|ch: u64|
                            #[trigger] vis_child(t, ch, c) && (h == ch || (allows_children(t, ch) && shown(
                                t,
                                ch,
                            ).contains(h)));
                        assert(links.contains((Handle(ch), control)));
                        let j = choose|j: int| 0 <= j < links.len() && links[j] == (Handle(ch), control);
                        assert(links[j].1.0 == c);
                    }
                    if u.contains(h) {
                        let j = choose|j: int|
                            0 <= j < links.len() && (#[trigger] links[j]).1.0 == c && (h == links[j].0.0 || (
                            allows_children(t, links[j].0.0) && shown(t, links[j].0.0).contains(h)));
                        assert(links.contains(links[j]));
                        assert(links[j].1 == control);
                        assert(links[j] == (Handle(links[j].0.0), Handle(links[j].1.0)));
                        assert(vis_child(t, links[j].0.0, c));
                    }
                }
            }
}

/// A part of the drawing order keeps its widgets.
proof fn lemma_zlist_subset(z0: Seq<Handle>, a: Set<u64>, t: WidgetTable)
    requires
        forall|i: int| 0 <= i < z0.len() ==> t.contains_key(#[trigger] z0[i].0),
    ensures
        forall|i: int| 0 <= i < without(z0, a).len() ==> t.contains_key(#[trigger] without(z0, a)[i].0),
{
    let z = without(z0, a);
    assert forall|i: int| 0 <= i < z.len() implies t.contains_key(#[trigger] z[i].0) by {
        assert(z.contains(z[i]));
        lemma_without_contains(z0, a, z[i]);
        let k = choose|k: int| 0 <= k < z0.len() && z0[k] == z[i];
        assert(t.contains_key(z0[k].0));
    }
}

/// Whether `h` is in `v`.
pub fn contains_handle(v: &Vec<Handle>, h: Handle) -> (r: bool)
    ensures
        r == v@.contains(h),
        r == keys(v@).contains(h.0),
{
    let mut i: usize = 0;
    while i < v.len()
        invariant
            i <= v@.len(),
            forall|j: int| 0 <= j < i ==> v@[j] != h,
        decreases v@.len() - i,
    {
        if v[i] == h {
            proof {
                assert(v@.contains(Handle(h.0)));
            }
            return true;
        }
        i += 1;
    }
    proof {
        assert(h == Handle(h.0));
    }
    false
}

/// Moving nothing to the back keeps the drawing order.
proof fn lemma_moved_none(old: Seq<Handle>, new: Seq<Handle>)
    requires
        old.no_duplicates(),
        moved_to_back(old, new, Set::<u64>::empty()),
    ensures
        new == old,
{
    assert forall|k: int| 0 <= k < old.len() implies !Set::<u64>::empty().contains(#[trigger] old[k].0) by {}
    lemma_without_id(old, Set::<u64>::empty());
    let tail = new.subrange(old.len() as int, new.len() as int);
    assert(new =~= old + tail);
    lemma_no_dup_concat(old, tail);
    if tail.len() > 0 {
        assert(new.contains(tail[0])) by {
            assert(new[old.len() as int] == tail[0]);
        }
        assert(tail.contains(tail[0]));
    }
    assert(new =~= old);
}

} // verus!
