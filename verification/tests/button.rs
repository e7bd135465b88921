use ascending_demo::gui::button::{Button, ButtonColors, ButtonEvent, Color};
use ascending_demo::gui::ui::Identity;
use ascending_demo::gui::{UiField, UiFlags};

fn over_field() -> UiField {
    let mut f = UiField::new(0);
    f.set(UiFlags::MouseOver);
    f
}

#[test]
fn new_button_colours() {
    let b = Button::new(Identity::new("ok", 3));
    assert_eq!(b.color, Color::rgba(20, 20, 20, 255));
    assert_eq!(b.over_color, Color::rgba(40, 40, 40, 255));
    assert_eq!(b.clicked_color, Color::rgba(60, 60, 60, 255));
    assert_eq!(b.border_color, Color::rgba(0, 0, 0, 255));
    assert_eq!(b.get_id().id, 3);
    assert_eq!(b.get_id().name, "ok");
    assert_eq!(b.default_actions(), vec![UiFlags::ClickAble]);
}

#[test]
fn hover_switches_colours() {
    let b = Button::new(Identity::new("ok", 3));
    let r = b.event(UiField::new(0), ButtonEvent::MousePresent(true));
    assert_eq!(r.colors, Some(ButtonColors { fill: b.over_color, border: b.border_over_color }));
    assert!(!r.pressed);
    let r = b.event(UiField::new(0), ButtonEvent::MousePresent(false));
    assert_eq!(r.colors, Some(ButtonColors { fill: b.color, border: b.border_color }));
}

#[test]
fn left_press_over_sends_the_message() {
    let b = Button::new(Identity::new("ok", 3));
    let r = b.event(over_field(), ButtonEvent::MousePress { left: true, pressed: true });
    assert!(r.pressed);
    assert_eq!(r.colors, Some(ButtonColors { fill: b.clicked_color, border: b.border_clicked_color }));
    let r = b.event(over_field(), ButtonEvent::MousePress { left: true, pressed: false });
    assert!(!r.pressed);
    assert_eq!(r.colors, Some(ButtonColors { fill: b.over_color, border: b.border_over_color }));
}

#[test]
fn left_press_elsewhere_restores_colours() {
    let b = Button::new(Identity::new("ok", 3));
    let r = b.event(UiField::new(0), ButtonEvent::MousePress { left: true, pressed: true });
    assert!(!r.pressed);
    assert_eq!(r.colors, Some(ButtonColors { fill: b.color, border: b.border_color }));
}

#[test]
fn other_buttons_and_events_are_ignored() {
    let b = Button::new(Identity::new("ok", 3));
    let r = b.event(over_field(), ButtonEvent::MousePress { left: false, pressed: true });
    assert_eq!(r.colors, None);
    assert!(!r.pressed);
    let r = b.event(over_field(), ButtonEvent::Other);
    assert_eq!(r.colors, None);
    assert!(!r.pressed);
}
