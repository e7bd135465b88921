use crate::gui::flags::{has_flag, lemma_with_flag, lemma_without_flag, with_flag, without_flag, UiField, UiFlags};
use crate::gui::seqs::{lemma_without_contains, without};
use crate::gui::tree::{shown, up, WidgetTable};
use crate::gui::world::Handle;
use vstd::prelude::*;

verus! {

/// A mouse button.
#[derive(Clone, Copy, Debug, PartialEq, Eq, Structural)]
pub enum MouseButton {
    Left,
    Right,
    Middle,
    Back,
    Forward,
    Other(u16),
}

/// The modifier keys held, one bit per key as the window system gives them.
#[derive(Clone, Copy, Debug, PartialEq, Eq, Structural)]
pub struct Modifiers(pub u32);

/// What a widget is told through its control's event handler.
#[derive(Clone, Copy, Debug, PartialEq, Eq, Structural)]
pub enum UiEvent {
    /// The mouse entered (`true`) or left (`false`) the widget.
    MousePresent(bool),
    /// The widget gained (`true`) or lost (`false`) focus.
    FocusChange(bool),
    /// The mouse button was pressed (`true`) or released (`false`) on it,
    /// with the modifier keys held.
    MousePress(MouseButton, bool, Modifiers),
    /// The widget is being dragged.
    PositionChange,
}

/// An event to hand to the control of `handle`, with the widget's action
/// flags as they stood when the event arose.
#[derive(Clone, Copy, Debug, PartialEq, Eq, Structural)]
pub struct Dispatch {
    pub handle: Handle,
    pub actions: UiField,
    pub event: UiEvent,
}

/// The state of the user interface, as contracts see it.
pub struct UiView {
    /// Visible widgets in drawing order (last is on top).
    pub zlist: Seq<Handle>,
    pub focused: Option<Handle>,
    pub over: Option<Handle>,
    pub clicked: Option<Handle>,
    pub widget_moving: Option<Handle>,
    /// The window is being dragged.
    pub moving: bool,
    /// The registered identities: name, id and handle.
    pub names: Set<(Seq<char>, u64, u64)>,
    /// The mouse button of the last press or release.
    pub button: MouseButton,
    /// The modifier keys last reported.
    pub modifier: Modifiers,
}


pub open spec fn opt_in(h: Option<Handle>, t: WidgetTable) -> bool {
    match h {
        Some(x) => t.contains_key(x.0),
        None => true,
    }
}

/// The registered identities whose handles lie outside `a`.
pub open spec fn names_without(n: Set<(Seq<char>, u64, u64)>, a: Set<u64>) -> Set<(Seq<char>, u64, u64)> {
    n.filter(|e: (Seq<char>, u64, u64)| !a.contains(e.2))
}


/// `h`, unless it lies in `s`.
pub open spec fn clear_if(h: Option<Handle>, s: Set<u64>) -> Option<Handle> {
    match h {
        Some(x) => if s.contains(x.0) {
            None
        } else {
            h
        },
        None => None,
    }
}

/// Removing a set of widgets forgets them everywhere: no handle of the set
/// stays in the drawing order, in the focused, hovered or clicked slot, or
/// among the registered identities, and every other entry stays.
pub proof fn lemma_removal_forgets(v: UiView, a: Set<u64>)
    ensures
        forall|h: Handle|
            #[trigger] without(v.zlist, a).contains(h) <==> (v.zlist.contains(h) && !a.contains(h.0)),
        clear_if(v.focused, a) matches Some(f) ==> !a.contains(f.0) && v.focused == Some(f),
        clear_if(v.over, a) matches Some(o) ==> !a.contains(o.0) && v.over == Some(o),
        clear_if(v.clicked, a) matches Some(c) ==> !a.contains(c.0) && v.clicked == Some(c),
        forall|e: (Seq<char>, u64, u64)|
            #[trigger] names_without(v.names, a).contains(e) <==> (v.names.contains(e) && !a.contains(e.2)),
{
    assert forall|h: Handle| #[trigger] without(v.zlist, a).contains(h) <==> (v.zlist.contains(h) && !a.contains(h.0)) by {
        lemma_without_contains(v.zlist, a, h);
    }
}

/// `new` holds the widgets of `old` outside `s` first, in their order,
/// followed by the widgets of `s`, each once.
pub open spec fn moved_to_back(old: Seq<Handle>, new: Seq<Handle>, s: Set<u64>) -> bool {
    let kept = without(old, s);
    &&& kept.len() <= new.len()
    &&& new.subrange(0, kept.len() as int) == kept
    &&& new.no_duplicates()
    &&& forall|h: Handle| #[trigger] new.contains(h) <==> (old.contains(h) || s.contains(h.0))
}

/// Each widget of `s` comes before every widget of `s` that it shows.
pub open spec fn parents_first(t: WidgetTable, s: Seq<Handle>) -> bool {
    forall|a: int, b: int|
        #![trigger s[a], s[b]]
        0 <= a < s.len() && 0 <= b < s.len() && shown(t, s[a].0).contains(s[b].0) ==> a < b
}

/// The widget takes mouse input: it is always usable or focused, or a widget
/// above it is focusable and focused, or always usable.
pub open spec fn usable(t: WidgetTable, c: u64) -> bool {
    ||| has_flag(t[c].0, UiFlags::AlwaysUseable)
    ||| has_flag(t[c].0, UiFlags::IsFocused)
    ||| exists|n: nat|
        n >= 1 && (#[trigger] up(t, c, n)).is_some() && ((has_flag(
            t[up(t, c, n).unwrap()].0,
            UiFlags::CanFocus,
        ) && has_flag(t[up(t, c, n).unwrap()].0, UiFlags::IsFocused)) || has_flag(
            t[up(t, c, n).unwrap()].0,
            UiFlags::AlwaysUseable,
        ))
}

/// The widget or one above it is focused.
pub open spec fn focused_within(t: WidgetTable, c: u64) -> bool {
    ||| has_flag(t[c].0, UiFlags::IsFocused)
    ||| exists|n: nat|
        n >= 1 && (#[trigger] up(t, c, n)).is_some() && has_flag(
            t[up(t, c, n).unwrap()].0,
            UiFlags::IsFocused,
        )
}

/// The widgets of the world, the bookkeeping, and the events handed out so far.
pub struct UiState {
    pub t: WidgetTable,
    pub v: UiView,
    pub d: Seq<Dispatch>,
}

/// `t` with the action bits of `h` replaced by `bits`.
pub open spec fn set_bits(t: WidgetTable, h: u64, bits: u16) -> WidgetTable {
    t.insert(h, (bits, t[h].1, t[h].2))
}

pub open spec fn dispatch(h: Handle, bits: u16, event: UiEvent) -> Dispatch {
    Dispatch { handle: h, actions: UiField(bits), event }
}

/// `z` with `c` moved to the back, if it is there.
pub open spec fn raise(z: Seq<Handle>, c: Handle) -> Seq<Handle> {
    if z.contains(c) {
        without(z, set![c.0]).push(c)
    } else {
        z
    }
}

/// The mouse enters (`entered`) or leaves the widget `control`: the hovered
/// widget changes, its `MouseOver` flag follows, and the widgets concerned
/// are told. `under` holds the widgets whose bounds contain the mouse.
pub open spec fn mouse_over_step(s: UiState, control: Handle, entered: bool, under: Set<u64>) -> UiState {
    match s.v.over {
        Some(over) => if entered {
            if over != control && s.v.widget_moving.is_none() {
                let t1 = set_bits(s.t, over.0, without_flag(s.t[over.0].0, UiFlags::MouseOver));
                let t2 = set_bits(t1, control.0, with_flag(t1[control.0].0, UiFlags::MouseOver));
                UiState {
                    t: t2,
                    v: UiView { over: Some(control), ..s.v },
                    d: s.d.push(dispatch(over, t2[over.0].0, UiEvent::MousePresent(false))).push(
                        dispatch(control, t2[control.0].0, UiEvent::MousePresent(true)),
                    ),
                }
            } else {
                s
            }
        } else if !under.contains(over.0) && has_flag(s.t[over.0].0, UiFlags::MouseOver)
            && s.v.widget_moving.is_none() {
            let t1 = set_bits(s.t, over.0, without_flag(s.t[over.0].0, UiFlags::MouseOver));
            UiState {
                t: t1,
                v: UiView { over: None, ..s.v },
                d: s.d.push(dispatch(over, t1[over.0].0, UiEvent::MousePresent(false))),
            }
        } else {
            s
        },
        None => if entered {
            let t1 = set_bits(s.t, control.0, with_flag(s.t[control.0].0, UiFlags::MouseOver));
            UiState {
                t: t1,
                v: UiView { over: Some(control), ..s.v },
                d: s.d.push(dispatch(control, t1[control.0].0, UiEvent::MousePresent(true))),
            }
        } else {
            s
        },
    }
}

/// The hovered widget is the one widget carrying the `MouseOver` flag, and
/// no widget carries it while none is hovered.
pub open spec fn hover_consistent(t: WidgetTable, over: Option<Handle>) -> bool {
    match over {
        Some(o) => t.contains_key(o.0) && has_flag(t[o.0].0, UiFlags::MouseOver) && forall|h: u64|
            #[trigger] t.contains_key(h) && h != o.0 ==> !has_flag(t[h].0, UiFlags::MouseOver),
        None => forall|h: u64| #[trigger] t.contains_key(h) ==> !has_flag(t[h].0, UiFlags::MouseOver),
    }
}

/// Entering or leaving a widget keeps the hovered widget the only one
/// flagged `MouseOver`; and when nothing was hovered, entering `control`
/// makes it the hovered widget, flags it, and tells it once that the mouse
/// is present.
pub proof fn lemma_hover_step(s: UiState, control: Handle, entered: bool, under: Set<u64>)
    requires
        hover_consistent(s.t, s.v.over),
        s.t.contains_key(control.0),
    ensures
        hover_consistent(mouse_over_step(s, control, entered, under).t, mouse_over_step(s, control, entered, under).v.over),
        s.v.over.is_none() && entered ==> ({
            let s2 = mouse_over_step(s, control, entered, under);
            &&& s2.v.over == Some(control)
            &&& has_flag(s2.t[control.0].0, UiFlags::MouseOver)
            &&& s2.d == s.d.push(dispatch(control, s2.t[control.0].0, UiEvent::MousePresent(true)))
        }),
{
    let s2 = mouse_over_step(s, control, entered, under);
    let f = UiFlags::MouseOver;
    match s.v.over {
        Some(over) => {
            if entered {
                if over != control && s.v.widget_moving.is_none() {
                    let t1 = set_bits(s.t, over.0, without_flag(s.t[over.0].0, f));
                    lemma_without_flag(s.t[over.0].0, f, f);
                    lemma_with_flag(t1[control.0].0, f, f);
                    assert forall|h: u64| #[trigger] s2.t.contains_key(h) && h != control.0 implies !has_flag(s2.t[h].0, f) by {
                        if h != over.0 {
                            assert(s2.t[h] == s.t[h]);
                        }
                    }
                }
            } else if !under.contains(over.0) && has_flag(s.t[over.0].0, f) && s.v.widget_moving.is_none() {
                lemma_without_flag(s.t[over.0].0, f, f);
                assert forall|h: u64| #[trigger] s2.t.contains_key(h) implies !has_flag(s2.t[h].0, f) by {
                    if h != over.0 {
                        assert(s2.t[h] == s.t[h]);
                    }
                }
            }
        },
        None => {
            if entered {
                lemma_with_flag(s.t[control.0].0, f, f);
                assert forall|h: u64| #[trigger] s2.t.contains_key(h) && h != control.0 implies !has_flag(s2.t[h].0, f) by {
                    assert(s2.t[h] == s.t[h]);
                }
            }
        },
    }
}

/// The hover pass over the widgets `zl`, topmost (last) first: the first
/// usable widget under the mouse is entered (or, if it clicks through to a
/// parent, that parent, unless the parent is being dragged), and each widget
/// passed before it that is neither under the mouse and usable nor being
/// dragged is left.
pub open spec fn mouse_over_run(s: UiState, zl: Seq<Handle>, under: Set<u64>) -> UiState
    decreases zl.len(),
{
    if zl.len() == 0 {
        s
    } else {
        let h = zl.last();
        let a = s.t[h.0].0;
        if under.contains(h.0) && usable(s.t, h.0) {
            if has_flag(a, UiFlags::CanClickBehind) {
                match s.t[h.0].1 {
                    Some(p) => if !has_flag(s.t[p].0, UiFlags::Moving) {
                        mouse_over_step(s, Handle(p), true, under)
                    } else {
                        s
                    },
                    None => mouse_over_run(s, zl.drop_last(), under),
                }
            } else {
                mouse_over_step(s, h, true, under)
            }
        } else if !has_flag(a, UiFlags::Moving) {
            mouse_over_run(mouse_over_step(s, h, false, under), zl.drop_last(), under)
        } else {
            mouse_over_run(s, zl.drop_last(), under)
        }
    }
}

/// A click lands on `control`: the window starts to move if the widget moves
/// the window, a click-through widget hands the click to its parent, and a
/// movable widget under the mouse starts to be dragged.
pub open spec fn set_clicked_step(s: UiState, control: Handle, under: Set<u64>) -> UiState {
    let a = s.t[control.0].0;
    let in_bounds = under.contains(control.0);
    let moving = if has_flag(a, UiFlags::CanMoveWindow) && !has_flag(a, UiFlags::MoveAble)
        && in_bounds {
        true
    } else {
        s.v.moving
    };
    if has_flag(a, UiFlags::CanClickBehind) {
        match s.t[control.0].1 {
            Some(p) => {
                let pa = s.t[p].0;
                let moving2 = if has_flag(pa, UiFlags::CanMoveWindow) && under.contains(p) {
                    true
                } else {
                    moving
                };
                UiState {
                    t: s.t,
                    v: UiView { moving: moving2, clicked: Some(Handle(p)), ..s.v },
                    d: s.d.push(dispatch(Handle(p), pa, UiEvent::MousePress(s.v.button, true, s.v.modifier))),
                }
            },
            None => UiState { v: UiView { moving, ..s.v }, ..s },
        }
    } else {
        let drag = has_flag(a, UiFlags::MoveAble) && in_bounds;
        let t2 = if drag {
            set_bits(s.t, control.0, with_flag(a, UiFlags::Moving))
        } else {
            s.t
        };
        UiState {
            t: t2,
            v: UiView {
                moving,
                widget_moving: if drag {
                    Some(control)
                } else {
                    s.v.widget_moving
                },
                ..s.v
            },
            d: s.d.push(dispatch(control, t2[control.0].0, UiEvent::MousePress(s.v.button, true, s.v.modifier))),
        }
    }
}

/// The events telling the focused widget, if any, that it lost focus.
pub open spec fn unfocus_events(s: UiState) -> Seq<Dispatch> {
    match s.v.focused {
        Some(f) => s.d.push(dispatch(f, s.t[f.0].0, UiEvent::FocusChange(false))),
        None => s.d,
    }
}

/// `control` takes the focus if it can: it is raised with its visible
/// children, marked focused, and the old and new focused widgets are told.
pub open spec fn manual_focus_rel(s: UiState, control: Handle, s2: UiState) -> bool {
    if !has_flag(s.t[control.0].0, UiFlags::CanFocus) {
        s2 == s
    } else {
        let t2 = set_bits(s.t, control.0, with_flag(s.t[control.0].0, UiFlags::IsFocused));
        &&& moved_to_back(raise(s.v.zlist, control), s2.v.zlist, shown(s.t, control.0))
        &&& s2.t == t2
        &&& s2.v == (UiView { zlist: s2.v.zlist, focused: Some(control), ..s.v })
        &&& s2.d == unfocus_events(s).push(
            dispatch(control, t2[control.0].0, UiEvent::FocusChange(true)),
        )
    }
}

/// A press on a focusable widget that is not the focused one: it is raised
/// with its visible children, the old and new focused widgets are told, and
/// the click lands on it.
pub open spec fn set_focus_rel(s: UiState, control: Handle, under: Set<u64>, s2: UiState) -> bool {
    let mid = UiState {
        t: s.t,
        v: UiView { zlist: s2.v.zlist, ..s.v },
        d: unfocus_events(s).push(dispatch(control, s.t[control.0].0, UiEvent::FocusChange(true))),
    };
    &&& moved_to_back(raise(s.v.zlist, control), s2.v.zlist, shown(s.t, control.0))
    &&& s2 == set_clicked_step(mid, control, under)
}

/// The search for a focusable parent finishes: the widget is always usable,
/// has no parent, its parent can take focus, or its parent is an always
/// usable, clickable widget that it clicks through to.
pub open spec fn parent_search_ends(t: WidgetTable, c: u64) -> bool {
    let a = t[c].0;
    ||| has_flag(a, UiFlags::AlwaysUseable)
    ||| t[c].1.is_none()
    ||| has_flag(t[t[c].1.unwrap()].0, UiFlags::CanFocus)
    ||| (has_flag(t[t[c].1.unwrap()].0, UiFlags::AlwaysUseable) && has_flag(
        t[t[c].1.unwrap()].0,
        UiFlags::ClickAble,
    ) && has_flag(a, UiFlags::CanClickBehind))
}

/// What `is_parent_focused` answers and does: an unfocused focusable parent
/// takes the focus (and the click, when it is focused by clicking).
pub open spec fn parent_focused_rel(s: UiState, c: Handle, under: Set<u64>, r: bool, s2: UiState) -> bool {
    let a = s.t[c.0].0;
    if has_flag(a, UiFlags::AlwaysUseable) {
        r && s2 == s
    } else {
        match s.t[c.0].1 {
            None => !r && s2 == s,
            Some(p) => {
                let pa = s.t[p].0;
                if has_flag(pa, UiFlags::CanFocus) {
                    if has_flag(pa, UiFlags::IsFocused) {
                        r && s2 == s
                    } else {
                        r && if has_flag(pa, UiFlags::FocusClick) {
                            exists|m: UiState|
                                manual_focus_rel(s, Handle(p), m) && s2 == set_clicked_step(m, Handle(p), under)
                        } else {
                            manual_focus_rel(s, Handle(p), s2)
                        }
                    }
                } else {
                    r && s2 == s
                }
            },
        }
    }
}

/// A press on `control`: a focusable widget takes the focus (or the click,
/// if it already has it); another widget takes the click when its parent is
/// focused or focusable.
pub open spec fn press_event_rel(s: UiState, c: Handle, under: Set<u64>, s2: UiState) -> bool {
    let a = s.t[c.0].0;
    if has_flag(a, UiFlags::CanFocus) {
        if s.v.focused != Some(c) {
            set_focus_rel(s, c, under, s2)
        } else {
            s2 == set_clicked_step(s, c, under)
        }
    } else {
        exists|r: bool, m: UiState|
            parent_focused_rel(s, c, under, r, m) && s2 == (if r {
                set_clicked_step(m, c, under)
            } else {
                m
            })
    }
}

/// The press pass over `zl`, topmost (last) first: movable widgets under the
/// mouse stop being dragged, up to the first clickable widget under the
/// mouse, which is returned.
pub open spec fn press_scan(t: WidgetTable, zl: Seq<Handle>, under: Set<u64>) -> (WidgetTable, Option<Handle>)
    decreases zl.len(),
{
    if zl.len() == 0 {
        (t, None)
    } else {
        let h = zl.last();
        let a = t[h.0].0;
        let t1 = if has_flag(a, UiFlags::MoveAble) && under.contains(h.0) {
            set_bits(t, h.0, without_flag(a, UiFlags::Moving))
        } else {
            t
        };
        if has_flag(a, UiFlags::ClickAble) && under.contains(h.0) {
            (t1, Some(h))
        } else {
            press_scan(t1, zl.drop_last(), under)
        }
    }
}

/// The topmost clickable widget of `zl` under the mouse.
pub open spec fn first_clickable(t: WidgetTable, zl: Seq<Handle>, under: Set<u64>) -> Option<Handle>
    decreases zl.len(),
{
    if zl.len() == 0 {
        None
    } else if has_flag(t[zl.last().0].0, UiFlags::ClickAble) && under.contains(zl.last().0) {
        Some(zl.last())
    } else {
        first_clickable(t, zl.drop_last(), under)
    }
}

/// A release of the mouse button: the focused widget stops being dragged,
/// and the topmost clickable widget under the mouse stops moving the window
/// or being dragged, and is told of the release.
pub open spec fn release_step(s: UiState, under: Set<u64>) -> UiState {
    let s1 = release_focused_step(s);
    match first_clickable(s1.t, s1.v.zlist, under) {
        None => s1,
        Some(h) => {
            let a = s1.t[h.0].0;
            let moving = if has_flag(a, UiFlags::CanMoveWindow) {
                false
            } else {
                s1.v.moving
            };
            let stop = has_flag(a, UiFlags::Moving) && s1.v.widget_moving == Some(h);
            let t2 = if stop {
                set_bits(s1.t, h.0, without_flag(a, UiFlags::Moving))
            } else {
                s1.t
            };
            UiState {
                t: t2,
                v: UiView {
                    moving,
                    widget_moving: if stop {
                        None
                    } else {
                        s1.v.widget_moving
                    },
                    ..s1.v
                },
                d: s1.d.push(dispatch(h, t2[h.0].0, UiEvent::MousePress(s.v.button, false, s.v.modifier))),
            }
        },
    }
}

/// On a release, the focused widget stops being dragged if it was.
pub open spec fn release_focused_step(s: UiState) -> UiState {
    match s.v.focused {
        Some(f) => if has_flag(s.t[f.0].0, UiFlags::Moving) && s.v.widget_moving == Some(f) {
            UiState {
                t: set_bits(s.t, f.0, without_flag(s.t[f.0].0, UiFlags::Moving)),
                v: UiView { widget_moving: None, ..s.v },
                ..s
            }
        } else {
            s
        },
        None => s,
    }
}

/// The keys of the handles in `s`.
pub open spec fn keys(s: Seq<Handle>) -> Set<u64> {
    Set::new(|k: u64| s.contains(Handle(k)))
}

/// Whether a press over `zl` finishes: the topmost clickable widget under
/// the mouse, if any, can take focus or its search for a focused parent ends.
pub open spec fn press_can_finish(t: WidgetTable, zl: Seq<Handle>, under: Set<u64>) -> bool {
    match first_clickable(t, zl, under) {
        Some(h) => has_flag(t[h.0].0, UiFlags::CanFocus) || parent_search_ends(t, h.0),
        None => true,
    }
}

/// `t2` has the widgets of `t` with the same parents, hidden markers and
/// flags, but for `Moving`.
pub open spec fn same_but_moving(t: WidgetTable, t2: WidgetTable) -> bool {
    &&& t2.dom() == t.dom()
    &&& forall|h: u64|
        #[trigger] t.contains_key(h) ==> t2[h].1 == t[h].1 && t2[h].2 == t[h].2 && forall|f: UiFlags|
            f != UiFlags::Moving ==> (#[trigger] has_flag(t2[h].0, f) == has_flag(t[h].0, f))
}

/// The press pass only clears `Moving` flags, and picks the topmost
/// clickable widget under the mouse.
pub proof fn lemma_press_scan(t: WidgetTable, zl: Seq<Handle>, under: Set<u64>)
    requires
        forall|i: int| 0 <= i < zl.len() ==> t.contains_key(#[trigger] zl[i].0),
    ensures
        press_scan(t, zl, under).1 == first_clickable(t, zl, under),
        same_but_moving(t, press_scan(t, zl, under).0),
    decreases zl.len(),
{
    if zl.len() > 0 {
        let h = zl.last();
        let a = t[h.0].0;
        assert(t.contains_key(zl[zl.len() - 1].0));
        let t1 = if has_flag(a, UiFlags::MoveAble) && under.contains(h.0) {
            set_bits(t, h.0, without_flag(a, UiFlags::Moving))
        } else {
            t
        };
        assert(t1.dom() =~= t.dom());
        assert forall|g: u64| #[trigger] t.contains_key(g) implies t1[g].1 == t[g].1 && t1[g].2 == t[g].2 && forall|f: UiFlags|
            f != UiFlags::Moving ==> (#[trigger] has_flag(t1[g].0, f) == has_flag(t[g].0, f)) by {
            assert forall|f: UiFlags| f != UiFlags::Moving implies (#[trigger] has_flag(t1[g].0, f) == has_flag(t[g].0, f)) by {
                lemma_without_flag(a, UiFlags::Moving, f);
            }
        }
        if !(has_flag(a, UiFlags::ClickAble) && under.contains(h.0)) {
            let rest = zl.drop_last();
            assert forall|i: int| 0 <= i < rest.len() implies t1.contains_key(#[trigger] rest[i].0) by {
                assert(rest[i] == zl[i]);
            }
            lemma_press_scan(t1, rest, under);
            lemma_first_clickable_same(t, t1, rest, under);
        }
    }
}

/// Changes beyond `Moving` flags do not change the topmost clickable widget.
pub proof fn lemma_first_clickable_same(t: WidgetTable, t2: WidgetTable, zl: Seq<Handle>, under: Set<u64>)
    requires
        same_but_moving(t, t2),
        forall|i: int| 0 <= i < zl.len() ==> t.contains_key(#[trigger] zl[i].0),
    ensures
        first_clickable(t2, zl, under) == first_clickable(t, zl, under),
    decreases zl.len(),
{
    if zl.len() > 0 {
        assert(t.contains_key(zl[zl.len() - 1].0));
        assert(has_flag(t2[zl.last().0].0, UiFlags::ClickAble) == has_flag(t[zl.last().0].0, UiFlags::ClickAble));
        let rest = zl.drop_last();
        assert forall|i: int| 0 <= i < rest.len() implies t.contains_key(#[trigger] rest[i].0) by {
            assert(rest[i] == zl[i]);
        }
        lemma_first_clickable_same(t, t2, rest, under);
    }
}

/// Whether the topmost clickable widget under the mouse is in `zl`.
pub proof fn lemma_first_clickable_in(t: WidgetTable, zl: Seq<Handle>, under: Set<u64>)
    ensures
        first_clickable(t, zl, under) matches Some(h) ==> zl.contains(h),
    decreases zl.len(),
{
    if zl.len() > 0 {
        lemma_first_clickable_in(t, zl.drop_last(), under);
        if first_clickable(t, zl.drop_last(), under).is_some() {
            let h = first_clickable(t, zl.drop_last(), under).unwrap();
            if zl.drop_last().contains(h) {
                let k = choose|k: int| 0 <= k < zl.drop_last().len() && zl.drop_last()[k] == h;
                assert(zl[k] == h);
            }
        }
        assert(zl[zl.len() - 1] == zl.last());
    }
}

/// How the mouse moved: the window is being dragged, a dragged widget would
/// leave its bounds, or the pointer position was taken.
#[derive(Clone, Copy, Debug, PartialEq, Eq, Structural)]
pub enum MouseMove {
    MoveWindow,
    Blocked,
    Updated,
}

/// The mouse moves: the window follows if it is being dragged; otherwise a
/// dragged widget is told of its move (unless the move would take it out of
/// its bounds, `in_bounds`), and the hover pass runs.
pub open spec fn mouse_move_step(s: UiState, under: Set<u64>, in_bounds: bool) -> (UiState, MouseMove) {
    if s.v.moving {
        (s, MouseMove::MoveWindow)
    } else {
        match s.v.widget_moving {
            Some(h) => if has_flag(s.t[h.0].0, UiFlags::Moving) {
                if !in_bounds {
                    (s, MouseMove::Blocked)
                } else {
                    let s1 = UiState {
                        d: s.d.push(dispatch(h, s.t[h.0].0, UiEvent::PositionChange)),
                        ..s
                    };
                    (mouse_over_run(s1, s1.v.zlist, under), MouseMove::Updated)
                }
            } else {
                (mouse_over_run(s, s.v.zlist, under), MouseMove::Updated)
            },
            None => (mouse_over_run(s, s.v.zlist, under), MouseMove::Updated),
        }
    }
}

/// `control` is shown: it goes to the back of the drawing order with its
/// visible children, and if neither it nor a widget above it is focused,
/// the focused widget takes the focus again (see `manual_focus_rel`).
pub open spec fn show_rel(s: UiState, control: Handle, s2: UiState) -> bool {
    exists|z: Seq<Handle>|
        #[trigger] moved_to_back(without(s.v.zlist, set![control.0]).push(control), z, shown(s.t, control.0))
            && ({
            let mid = UiState { v: UiView { zlist: z, ..s.v }, ..s };
            if !focused_within(s.t, control.0) && s.v.focused.is_some() {
                manual_focus_rel(mid, s.v.focused.unwrap(), s2)
            } else {
                s2 == mid
            }
        })
}


/// A press on a focusable widget that already holds the focus clicks it
/// again: exactly one more event, the press itself, addressed to that widget;
/// the focus and the drawing order stay; and a movable widget under the mouse
/// starts being dragged.
pub proof fn lemma_press_on_focused(s: UiState, c: Handle, under: Set<u64>, s2: UiState)
    requires
        s.t.contains_key(c.0),
        has_flag(s.t[c.0].0, UiFlags::CanFocus),
        !has_flag(s.t[c.0].0, UiFlags::CanClickBehind),
        s.v.focused == Some(c),
        press_event_rel(s, c, under, s2),
    ensures
        s2.d.len() == s.d.len() + 1,
        s2.d.subrange(0, s.d.len() as int) == s.d,
        s2.d.last().handle == c,
        s2.d.last().event == UiEvent::MousePress(s.v.button, true, s.v.modifier),
        s2.v.focused == Some(c),
        s2.v.zlist == s.v.zlist,
        has_flag(s.t[c.0].0, UiFlags::MoveAble) && under.contains(c.0) ==> s2.v.widget_moving == Some(c)
            && has_flag(s2.t[c.0].0, UiFlags::Moving),
{
    lemma_with_flag(s.t[c.0].0, UiFlags::Moving, UiFlags::Moving);
    assert(s2.d.subrange(0, s.d.len() as int) =~= s.d);
}

/// The mouse moving from one hovered widget `a` onto another widget `b`,
/// with nothing dragged, tells `a` that the mouse left it and then `b` that
/// the mouse entered it, in that order and nothing else; `b` becomes the
/// hovered widget and carries `MouseOver`, `a` no longer does.
pub proof fn lemma_hover_moves_on(s: UiState, a: Handle, b: Handle, under: Set<u64>)
    requires
        s.v.over == Some(a),
        a != b,
        s.v.widget_moving.is_none(),
        s.t.contains_key(a.0),
        s.t.contains_key(b.0),
    ensures
        ({
            let s2 = mouse_over_step(s, b, true, under);
            &&& s2.v.over == Some(b)
            &&& s2.d.len() == s.d.len() + 2
            &&& s2.d.subrange(0, s.d.len() as int) == s.d
            &&& s2.d[s.d.len() as int].handle == a
            &&& s2.d[s.d.len() as int].event == UiEvent::MousePresent(false)
            &&& s2.d[s.d.len() as int + 1].handle == b
            &&& s2.d[s.d.len() as int + 1].event == UiEvent::MousePresent(true)
            &&& !has_flag(s2.t[a.0].0, UiFlags::MouseOver)
            &&& has_flag(s2.t[b.0].0, UiFlags::MouseOver)
        }),
{
    let s2 = mouse_over_step(s, b, true, under);
    let t1 = set_bits(s.t, a.0, without_flag(s.t[a.0].0, UiFlags::MouseOver));
    lemma_without_flag(s.t[a.0].0, UiFlags::MouseOver, UiFlags::MouseOver);
    lemma_with_flag(t1[b.0].0, UiFlags::MouseOver, UiFlags::MouseOver);
    assert(s2.d.subrange(0, s.d.len() as int) =~= s.d);
}

/// Whenever a hover step changes the hovered widget, the widget that stops
/// being hovered is told that the mouse left it, and the widget that starts
/// being hovered is told that the mouse entered it; a step that keeps the
/// hovered widget tells no one anything.
pub proof fn lemma_hover_changes_told(s: UiState, control: Handle, entered: bool, under: Set<u64>)
    ensures
        ({
            let s2 = mouse_over_step(s, control, entered, under);
            &&& s.d.len() <= s2.d.len()
            &&& s2.d.subrange(0, s.d.len() as int) == s.d
            &&& (forall|o: Handle| s.v.over == Some(o) && s2.v.over != Some(o) ==> exists|i: int|
                s.d.len() <= i < s2.d.len() && #[trigger] s2.d[i].handle == o && s2.d[i].event
                    == UiEvent::MousePresent(false))
            &&& (forall|n: Handle| s2.v.over == Some(n) && s.v.over != Some(n) ==> exists|i: int|
                s.d.len() <= i < s2.d.len() && #[trigger] s2.d[i].handle == n && s2.d[i].event
                    == UiEvent::MousePresent(true))
            &&& (s2.v.over == s.v.over ==> s2.d == s.d)
        }),
{
    let s2 = mouse_over_step(s, control, entered, under);
    assert(s2.d.subrange(0, s.d.len() as int) =~= s.d);
    match s.v.over {
        Some(o) => {
            if s2.v.over != Some(o) {
                let i = s.d.len() as int;
                assert(s2.d[i].handle == o);
                if entered {
                    let j = s.d.len() as int + 1;
                    assert(s2.d[j].handle == control);
                }
            }
        },
        None => {
            if entered {
                let i = s.d.len() as int;
                assert(s2.d[i].handle == control);
            }
        },
    }
}

/// A release whose topmost clickable widget under the mouse moves the
/// window ends the window drag, and that widget is told of the release, as
/// the last event.
pub proof fn lemma_release_ends_window_drag(s: UiState, under: Set<u64>, h: Handle)
    requires
        forall|i: int| 0 <= i < s.v.zlist.len() ==> s.t.contains_key(#[trigger] s.v.zlist[i].0),
        s.v.focused matches Some(f) ==> s.t.contains_key(f.0),
        first_clickable(s.t, s.v.zlist, under) == Some(h),
        has_flag(s.t[h.0].0, UiFlags::CanMoveWindow),
    ensures
        !release_step(s, under).v.moving,
        release_step(s, under).d.len() == s.d.len() + 1,
        release_step(s, under).d.last().handle == h,
        release_step(s, under).d.last().event == UiEvent::MousePress(s.v.button, false, s.v.modifier),
{
    let s1 = release_focused_step(s);
    assert(same_but_moving(s.t, s1.t)) by {
        match s.v.focused {
            Some(f) => {
                if has_flag(s.t[f.0].0, UiFlags::Moving) && s.v.widget_moving == Some(f) {
                    assert(s1.t.dom() =~= s.t.dom());
                    assert forall|g: u64| #[trigger] s.t.contains_key(g) implies s1.t[g].1 == s.t[g].1 && s1.t[g].2
                        == s.t[g].2 && forall|fl: UiFlags|
                        fl != UiFlags::Moving ==> (#[trigger] has_flag(s1.t[g].0, fl) == has_flag(s.t[g].0, fl)) by {
                        assert forall|fl: UiFlags| fl != UiFlags::Moving implies (#[trigger] has_flag(
                            s1.t[g].0,
                            fl,
                        ) == has_flag(s.t[g].0, fl)) by {
                            lemma_without_flag(s.t[f.0].0, UiFlags::Moving, fl);
                        }
                    }
                } else {
                    assert(s1.t.dom() =~= s.t.dom());
                }
            },
            None => {
                assert(s1.t.dom() =~= s.t.dom());
            },
        }
    }
    lemma_first_clickable_same(s.t, s1.t, s.v.zlist, under);
    lemma_first_clickable_in(s.t, s.v.zlist, under);
    let k = choose|k: int| 0 <= k < s.v.zlist.len() && s.v.zlist[k] == h;
    assert(s.t.contains_key(s.v.zlist[k].0));
    assert(has_flag(s1.t[h.0].0, UiFlags::CanMoveWindow));
}

/// A press on a focusable widget that does not hold the focus: the
/// focused widget, if any, is told it lost the focus, then the pressed widget
/// that it gained it, then the press itself, in that order and nothing else;
/// a pressed widget in the drawing order stays in it, raised behind what
/// it does not show.
pub proof fn lemma_press_takes_focus(s: UiState, c: Handle, under: Set<u64>, s2: UiState)
    requires
        s.t.contains_key(c.0),
        has_flag(s.t[c.0].0, UiFlags::CanFocus),
        !has_flag(s.t[c.0].0, UiFlags::CanClickBehind),
        s.v.focused != Some(c),
        press_event_rel(s, c, under, s2),
    ensures
        s2.d.len() == s.d.len() + (if s.v.focused.is_some() { 3int } else { 2int }),
        s2.d.subrange(0, s.d.len() as int) == s.d,
        s.v.focused matches Some(f) ==> s2.d[s.d.len() as int].handle == f && s2.d[s.d.len() as int].event
            == UiEvent::FocusChange(false),
        s2.d[s2.d.len() - 2].handle == c,
        s2.d[s2.d.len() - 2].event == UiEvent::FocusChange(true),
        s2.d.last().handle == c,
        s2.d.last().event == UiEvent::MousePress(s.v.button, true, s.v.modifier),
        s.v.zlist.contains(c) ==> s2.v.zlist.contains(c),
{
    assert(s2.d.subrange(0, s.d.len() as int) =~= s.d);
    if s.v.zlist.contains(c) {
        let r = raise(s.v.zlist, c);
        assert(r.last() == c);
        assert(r.contains(r[r.len() - 1]));
    }
}

/// The hover pass only adds events after those already handed out.
pub proof fn lemma_over_run_extends(s: UiState, zl: Seq<Handle>, under: Set<u64>)
    ensures
        s.d.len() <= mouse_over_run(s, zl, under).d.len(),
        mouse_over_run(s, zl, under).d.subrange(0, s.d.len() as int) == s.d,
    decreases zl.len(),
{
    if zl.len() > 0 {
        let h = zl.last();
        let a = s.t[h.0].0;
        if under.contains(h.0) && usable(s.t, h.0) {
            if has_flag(a, UiFlags::CanClickBehind) {
                match s.t[h.0].1 {
                    Some(p) => {
                        lemma_hover_changes_told(s, Handle(p), true, under);
                    },
                    None => {
                        lemma_over_run_extends(s, zl.drop_last(), under);
                    },
                }
            } else {
                lemma_hover_changes_told(s, h, true, under);
            }
        } else if !has_flag(a, UiFlags::Moving) {
            let s1 = mouse_over_step(s, h, false, under);
            lemma_hover_changes_told(s, h, false, under);
            lemma_over_run_extends(s1, zl.drop_last(), under);
            let r = mouse_over_run(s1, zl.drop_last(), under);
            assert(r.d.subrange(0, s.d.len() as int) =~= r.d.subrange(0, s1.d.len() as int).subrange(0, s.d.len() as int));
        } else {
            lemma_over_run_extends(s, zl.drop_last(), under);
        }
    }
}

/// A mouse move: while the window is dragged it follows the mouse and
/// nothing else happens; a dragged widget that would leave its bounds stops
/// the move and nothing happens; otherwise the pointer position is taken,
/// and a dragged widget is told first that it moves.
pub proof fn lemma_mouse_move(s: UiState, under: Set<u64>, in_bounds: bool)
    ensures
        ({
            let (s2, m) = mouse_move_step(s, under, in_bounds);
            &&& (m == MouseMove::MoveWindow) == s.v.moving
            &&& m == MouseMove::MoveWindow ==> s2 == s
            &&& (m == MouseMove::Blocked) == (!s.v.moving && s.v.widget_moving is Some && has_flag(
                s.t[s.v.widget_moving.unwrap().0].0,
                UiFlags::Moving,
            ) && !in_bounds)
            &&& m == MouseMove::Blocked ==> s2 == s
            &&& s2.d.subrange(0, s.d.len() as int) == s.d
            &&& (m == MouseMove::Updated && s.v.widget_moving is Some && has_flag(
                s.t[s.v.widget_moving.unwrap().0].0,
                UiFlags::Moving,
            )) ==> s2.d.len() > s.d.len() && s2.d[s.d.len() as int].handle == s.v.widget_moving.unwrap()
                && s2.d[s.d.len() as int].event == UiEvent::PositionChange
        }),
{
    let (s2, m) = mouse_move_step(s, under, in_bounds);
    if !s.v.moving {
        match s.v.widget_moving {
            Some(h) => {
                if has_flag(s.t[h.0].0, UiFlags::Moving) {
                    if in_bounds {
                        let s1 = UiState { d: s.d.push(dispatch(h, s.t[h.0].0, UiEvent::PositionChange)), ..s };
                        lemma_over_run_extends(s1, s1.v.zlist, under);
                        assert(s2.d.subrange(0, s1.d.len() as int) == s1.d);
                        assert(s2.d[s.d.len() as int] == s2.d.subrange(0, s1.d.len() as int)[s.d.len() as int]);
                        assert(s2.d.subrange(0, s.d.len() as int) =~= s1.d.subrange(0, s.d.len() as int));
                        assert(s1.d.subrange(0, s.d.len() as int) =~= s.d);
                    } else {
                        assert(s2.d.subrange(0, s.d.len() as int) =~= s.d);
                    }
                } else {
                    lemma_over_run_extends(s, s.v.zlist, under);
                }
            },
            None => {
                lemma_over_run_extends(s, s.v.zlist, under);
            },
        }
    } else {
        assert(s2.d.subrange(0, s.d.len() as int) =~= s.d);
    }
}

} // verus!
