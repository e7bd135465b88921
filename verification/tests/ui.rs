use ascending_demo::gui::model::{Dispatch, Modifiers, MouseButton, MouseMove, UiEvent};
use ascending_demo::gui::ui::{contains_handle, Identity, UiInput, UI};
use ascending_demo::gui::world::Handle;
use ascending_demo::gui::{UiField, UiFlags};
use hecs::World;

fn bits(flags: &[UiFlags]) -> UiField {
    let mut f = UiField::new(0);
    for flag in flags {
        f.set(*flag);
    }
    f
}

#[test]
fn new_ui_is_empty() {
    let ui = UI::new();
    assert!(ui.zlist().is_empty());
    assert_eq!(ui.focused(), None);
    assert_eq!(ui.over(), None);
    assert_eq!(ui.clicked(), None);
    assert_eq!(ui.widget_moving(), None);
    assert!(!ui.moving());
}

#[test]
fn add_root_widget_goes_on_top() {
    let mut world = World::new();
    let mut ui = UI::new();
    let a = ui.add_widget(&mut world, None, Identity::new("a", 1), bits(&[UiFlags::ClickAble]));
    let b = ui.add_widget(&mut world, None, Identity::new("b", 2), bits(&[]));
    assert_eq!(ui.zlist(), vec![a, b]);
    assert!(ui.is_registered(&Identity::new("a", 1)));
    assert!(ui.is_registered(&Identity::new("b", 2)));
    assert!(!ui.is_registered(&Identity::new("a", 2)));
    assert!(!ui.is_registered(&Identity::new("c", 1)));
    assert_eq!(world.len(), 2);
}

#[test]
fn child_is_shown_after_parent() {
    let mut world = World::new();
    let mut ui = UI::new();
    let p = ui.add_widget(&mut world, None, Identity::new("panel", 1), bits(&[]));
    let c = ui.add_widget(&mut world, Some(p), Identity::new("child", 1), bits(&[UiFlags::ClickAble]));
    assert_eq!(ui.zlist(), vec![p, c]);
}

#[test]
fn hidden_child_stays_out_until_shown() {
    let mut world = World::new();
    let mut ui = UI::new();
    let p = ui.add_widget(&mut world, None, Identity::new("panel", 1), bits(&[]));
    let h = ui.add_widget_hidden(&mut world, Some(p), Identity::new("hidden", 1), bits(&[]));
    assert_eq!(ui.zlist(), vec![p]);
    assert!(ui.is_registered(&Identity::new("hidden", 1)));
    let events = ui.show_widget_by_handle(&mut world, h);
    assert!(events.is_empty());
    assert!(contains_handle(&ui.zlist(), h));
    assert!(contains_handle(&ui.zlist(), p));
}

#[test]
fn hiding_a_parent_hides_its_children() {
    let mut world = World::new();
    let mut ui = UI::new();
    let p = ui.add_widget(&mut world, None, Identity::new("panel", 1), bits(&[]));
    let _c = ui.add_widget(&mut world, Some(p), Identity::new("child", 1), bits(&[]));
    let other = ui.add_widget(&mut world, None, Identity::new("other", 1), bits(&[]));
    ui.hide_widget_by_handle(&world, p);
    assert_eq!(ui.zlist(), vec![other]);
    assert_eq!(world.len(), 3);
}

#[test]
fn removing_a_parent_removes_its_subtree() {
    let mut world = World::new();
    let mut ui = UI::new();
    let p = ui.add_widget(&mut world, None, Identity::new("panel", 1), bits(&[]));
    let c = ui.add_widget(&mut world, Some(p), Identity::new("child", 1), bits(&[]));
    let _g = ui.add_widget(&mut world, Some(c), Identity::new("grandchild", 1), bits(&[]));
    let other = ui.add_widget(&mut world, None, Identity::new("other", 1), bits(&[]));
    ui.remove_widget_by_handle(&mut world, p);
    assert_eq!(ui.zlist(), vec![other]);
    assert_eq!(world.len(), 1);
    assert!(!ui.is_registered(&Identity::new("panel", 1)));
    assert!(!ui.is_registered(&Identity::new("child", 1)));
    assert!(!ui.is_registered(&Identity::new("grandchild", 1)));
    assert!(ui.is_registered(&Identity::new("other", 1)));
}

#[test]
fn clear_widgets_forgets_everything() {
    let mut world = World::new();
    let mut ui = UI::new();
    let p = ui.add_widget(&mut world, None, Identity::new("panel", 1), bits(&[]));
    let _c = ui.add_widget(&mut world, Some(p), Identity::new("child", 1), bits(&[]));
    ui.clear_widgets(&mut world);
    assert!(ui.zlist().is_empty());
    assert_eq!(world.len(), 0);
    assert!(!ui.is_registered(&Identity::new("panel", 1)));
}

#[test]
fn set_action_sets_the_flag() {
    let mut world = World::new();
    let mut ui = UI::new();
    let a = ui.add_widget(&mut world, None, Identity::new("a", 1), bits(&[]));
    UI::set_action(&mut world, a, UiFlags::Checked);
    let v = world.get::<&ascending_demo::gui::world::Actions>(hecs::Entity::from_bits(a.get_key()).unwrap()).unwrap().0;
    assert!(v.get(UiFlags::Checked));
    assert!(!v.get(UiFlags::ClickAble));
}

#[test]
fn press_and_release_on_a_focusable_button() {
    let mut world = World::new();
    let mut ui = UI::new();
    let flags = bits(&[UiFlags::ClickAble, UiFlags::CanFocus]);
    let a = ui.add_widget(&mut world, None, Identity::new("button", 1), flags);
    let mut events: Vec<Dispatch> = Vec::new();
    ui.event_mouse_button(&mut world, MouseButton::Left, true, &vec![a], &mut events);
    assert!(events.len() >= 2);
    assert_eq!(events[0].handle, a);
    assert_eq!(events[0].event, UiEvent::FocusChange(true));
    assert_eq!(events[events.len() - 1].handle, a);
    assert_eq!(events[events.len() - 1].event, UiEvent::MousePress(MouseButton::Left, true, Modifiers(0)));
    let mut released: Vec<Dispatch> = Vec::new();
    ui.event_mouse_button(&mut world, MouseButton::Left, false, &vec![a], &mut released);
    assert_eq!(released.len(), 1);
    assert_eq!(released[0].handle, a);
    assert_eq!(released[0].event, UiEvent::MousePress(MouseButton::Left, false, Modifiers(0)));
}

#[test]
fn press_outside_every_widget_does_nothing() {
    let mut world = World::new();
    let mut ui = UI::new();
    let _a = ui.add_widget(&mut world, None, Identity::new("button", 1), bits(&[UiFlags::ClickAble]));
    let before = ui.zlist();
    let mut events: Vec<Dispatch> = Vec::new();
    ui.event_mouse_button(&mut world, MouseButton::Left, true, &vec![], &mut events);
    assert!(events.is_empty());
    assert_eq!(ui.zlist(), before);
    assert_eq!(ui.focused(), None);
}

#[test]
fn hovering_a_widget_tells_it_once() {
    let mut world = World::new();
    let mut ui = UI::new();
    let a = ui.add_widget(
        &mut world,
        None,
        Identity::new("button", 1),
        bits(&[UiFlags::ClickAble, UiFlags::AlwaysUseable]),
    );
    let (events, moved) = ui.handle_events(&mut world, &UiInput::CursorMoved(vec![a], true));
    assert_eq!(moved, Some(MouseMove::Updated));
    assert_eq!(ui.over(), Some(a));
    assert!(events.iter().any(|d| d.handle == a && d.event == UiEvent::MousePresent(true)));
    let (again, _) = ui.handle_events(&mut world, &UiInput::CursorMoved(vec![a], true));
    assert!(!again.iter().any(|d| d.event == UiEvent::MousePresent(true)));
    let (left, _) = ui.handle_events(&mut world, &UiInput::CursorMoved(vec![], true));
    assert_eq!(ui.over(), None);
    assert!(left.iter().any(|d| d.handle == a && d.event == UiEvent::MousePresent(false)));
}

#[test]
fn hovering_an_unusable_widget_does_nothing() {
    let mut world = World::new();
    let mut ui = UI::new();
    let a = ui.add_widget(&mut world, None, Identity::new("button", 1), bits(&[UiFlags::ClickAble]));
    let (events, moved) = ui.handle_events(&mut world, &UiInput::CursorMoved(vec![a], true));
    assert_eq!(moved, Some(MouseMove::Updated));
    assert_eq!(ui.over(), None);
    assert!(events.is_empty());
}

#[test]
fn other_inputs_change_nothing() {
    let mut world = World::new();
    let mut ui = UI::new();
    let a = ui.add_widget(&mut world, None, Identity::new("button", 1), bits(&[UiFlags::ClickAble]));
    let (events, moved) = ui.handle_events(&mut world, &UiInput::Key);
    assert!(events.is_empty());
    assert_eq!(moved, None);
    let (events, moved) = ui.handle_events(&mut world, &UiInput::Other);
    assert!(events.is_empty());
    assert_eq!(moved, None);
    assert_eq!(ui.zlist(), vec![a]);
}

#[test]
fn widget_usable_and_focus_queries() {
    let mut world = World::new();
    let mut ui = UI::new();
    let a = ui.add_widget(&mut world, None, Identity::new("always", 1), bits(&[UiFlags::AlwaysUseable]));
    let b = ui.add_widget(&mut world, None, Identity::new("plain", 1), bits(&[]));
    assert!(ui.widget_usable(&world, a));
    assert!(!ui.widget_usable(&world, b));
    assert!(!ui.widget_is_focused(&world, b));
}

#[test]
fn handle_key_is_the_entity_bits() {
    let h = Handle(42);
    assert_eq!(h.get_key(), 42);
}

#[test]
fn pressing_a_child_focuses_its_parent() {
    let mut world = World::new();
    let mut ui = UI::new();
    let p = ui.add_widget(&mut world, None, Identity::new("window", 1), bits(&[UiFlags::CanFocus]));
    let c = ui.add_widget(&mut world, Some(p), Identity::new("button", 1), bits(&[UiFlags::ClickAble]));
    assert!(ui.press_finishes(&world, &vec![c]));
    let (events, moved) = ui.handle_events(&mut world, &UiInput::MouseButton(MouseButton::Left, true, vec![c]));
    assert_eq!(moved, None);
    assert_eq!(
        events,
        vec![
            Dispatch { handle: p, actions: bits(&[UiFlags::CanFocus, UiFlags::IsFocused]), event: UiEvent::FocusChange(true) },
            Dispatch { handle: c, actions: bits(&[UiFlags::ClickAble]), event: UiEvent::MousePress(MouseButton::Left, true, Modifiers(0)) },
        ]
    );
    assert_eq!(ui.focused(), Some(p));
    assert_eq!(ui.zlist(), vec![p, c]);
    assert!(ui.widget_is_focused(&world, c));
    assert!(ui.widget_usable(&world, c));
}

#[test]
fn dragging_a_movable_widget() {
    let mut world = World::new();
    let mut ui = UI::new();
    let a = ui.add_widget(
        &mut world,
        None,
        Identity::new("panel", 1),
        bits(&[UiFlags::ClickAble, UiFlags::CanFocus, UiFlags::MoveAble]),
    );
    let mut events: Vec<Dispatch> = Vec::new();
    ui.event_mouse_button(&mut world, MouseButton::Left, true, &vec![a], &mut events);
    assert_eq!(ui.widget_moving(), Some(a));
    let (moved_events, moved) = ui.handle_events(&mut world, &UiInput::CursorMoved(vec![a], true));
    assert_eq!(moved, Some(MouseMove::Updated));
    assert!(moved_events.iter().any(|d| d.handle == a && d.event == UiEvent::PositionChange));
    let (_, blocked) = ui.handle_events(&mut world, &UiInput::CursorMoved(vec![a], false));
    assert_eq!(blocked, Some(MouseMove::Blocked));
}

#[test]
fn with_world_starts_empty() {
    let (mut ui, mut world) = UI::with_world();
    assert_eq!(world.len(), 0);
    assert!(ui.zlist().is_empty());
    let a = ui.add_widget(&mut world, None, Identity::new("a", 1), bits(&[]));
    assert_eq!(ui.zlist(), vec![a]);
}

#[test]
fn press_events_carry_button_and_modifiers() {
    let mut world = World::new();
    let mut ui = UI::new();
    let a = ui.add_widget(&mut world, None, Identity::new("b", 1), bits(&[UiFlags::ClickAble, UiFlags::CanFocus]));
    ui.event_modifiers(Modifiers(4));
    let (events, _) = ui.handle_events(&mut world, &UiInput::MouseButton(MouseButton::Right, true, vec![a]));
    assert_eq!(events.last().unwrap().event, UiEvent::MousePress(MouseButton::Right, true, Modifiers(4)));
    let (events, _) = ui.handle_events(&mut world, &UiInput::MouseButton(MouseButton::Other(7), false, vec![a]));
    assert_eq!(events.last().unwrap().event, UiEvent::MousePress(MouseButton::Other(7), false, Modifiers(4)));
}

#[test]
fn shown_children_follow_their_parents() {
    let mut world = World::new();
    let mut ui = UI::new();
    let p = ui.add_widget(&mut world, None, Identity::new("p", 1), bits(&[UiFlags::AllowChildren]));
    let c = ui.add_widget(&mut world, Some(p), Identity::new("c", 1), bits(&[UiFlags::AllowChildren]));
    let g = ui.add_widget(&mut world, Some(c), Identity::new("g", 1), bits(&[]));
    let q = ui.add_widget(&mut world, None, Identity::new("q", 1), bits(&[]));
    assert_eq!(ui.zlist(), vec![p, c, g, q]);
    let events = ui.show_widget_by_handle(&mut world, p);
    assert!(events.is_empty());
    assert_eq!(ui.zlist(), vec![q, p, c, g]);
}
