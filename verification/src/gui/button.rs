use crate::gui::flags::{has_flag, UiField, UiFlags};
use crate::gui::ui::Identity;
use vstd::prelude::*;

verus! {

/// A colour as red, green, blue and alpha bytes.
#[derive(Clone, Copy, Debug, PartialEq, Eq, Structural)]
pub struct Color {
    pub r: u8,
    pub g: u8,
    pub b: u8,
    pub a: u8,
}

impl Color {
    pub fn rgba(r: u8, g: u8, b: u8, a: u8) -> (c: Color)
        ensures
            c == (Color { r, g, b, a }),
    {
        Color { r, g, b, a }
    }
}

/// What a button is told of: whether the mouse is over it, or a mouse
/// button (`left` or another) going down or up.
#[derive(Clone, Copy, Debug, PartialEq, Eq, Structural)]
pub enum ButtonEvent {
    MousePresent(bool),
    MousePress { left: bool, pressed: bool },
    Other,
}

/// A fill colour and a border colour.
#[derive(Clone, Copy, Debug, PartialEq, Eq, Structural)]
pub struct ButtonColors {
    pub fill: Color,
    pub border: Color,
}

/// How a button answers an event: the fill and border colours it takes, if
/// they change, and whether its press message is sent.
#[derive(Clone, Copy, Debug, PartialEq, Eq, Structural)]
pub struct ButtonReaction {
    pub colors: Option<ButtonColors>,
    pub pressed: bool,
}

/// A clickable button: its identity and the colours of its states.
pub struct Button {
    pub identity: Identity,
    pub over_color: Color,
    pub clicked_color: Color,
    pub color: Color,
    pub border_over_color: Color,
    pub border_clicked_color: Color,
    pub border_color: Color,
}

/// The answer of a button with these colours to `event`, given its action bits.
pub open spec fn button_reaction(b: Button, actions: u16, event: ButtonEvent) -> ButtonReaction {
    match event {
        ButtonEvent::MousePresent(is_over) => ButtonReaction {
            colors: Some(
                if is_over {
                    ButtonColors { fill: b.over_color, border: b.border_over_color }
                } else {
                    ButtonColors { fill: b.color, border: b.border_color }
                },
            ),
            pressed: false,
        },
        ButtonEvent::MousePress { left, pressed } => if !left {
            ButtonReaction { colors: None, pressed: false }
        } else if !has_flag(actions, UiFlags::MouseOver) {
            ButtonReaction { colors: Some(ButtonColors { fill: b.color, border: b.border_color }), pressed: false }
        } else if pressed {
            ButtonReaction { colors: Some(ButtonColors { fill: b.clicked_color, border: b.border_clicked_color }), pressed: true }
        } else {
            ButtonReaction { colors: Some(ButtonColors { fill: b.over_color, border: b.border_over_color }), pressed: false }
        },
        ButtonEvent::Other => ButtonReaction { colors: None, pressed: false },
    }
}

/// A button sends its message only on a left press while the mouse is over
/// it, and then shows its clicked colours; releasing there brings back the
/// colours it shows while hovered; the mouse leaving it, or a left button
/// away from it, brings back its normal colours; other buttons and events
/// change nothing.
pub proof fn lemma_button_cycle(b: Button, actions: u16, event: ButtonEvent)
    ensures
        button_reaction(b, actions, event).pressed == (event == ButtonEvent::MousePress { left: true, pressed: true }
            && has_flag(actions, UiFlags::MouseOver)),
        button_reaction(b, actions, event).pressed ==> button_reaction(b, actions, event).colors == Some(
            ButtonColors { fill: b.clicked_color, border: b.border_clicked_color },
        ),
        has_flag(actions, UiFlags::MouseOver) ==> button_reaction(
            b,
            actions,
            ButtonEvent::MousePress { left: true, pressed: false },
        ).colors == button_reaction(b, actions, ButtonEvent::MousePresent(true)).colors,
        !has_flag(actions, UiFlags::MouseOver) ==> button_reaction(
            b,
            actions,
            ButtonEvent::MousePress { left: true, pressed: event matches ButtonEvent::MousePress { pressed, .. } && pressed },
        ).colors == button_reaction(b, actions, ButtonEvent::MousePresent(false)).colors,
        (event matches ButtonEvent::MousePress { left, .. } && !left) || event == ButtonEvent::Other ==> button_reaction(
            b,
            actions,
            event,
        ).colors.is_none(),
        button_reaction(b, actions, ButtonEvent::MousePresent(false)).colors == Some(
            ButtonColors { fill: b.color, border: b.border_color },
        ),
{
}

impl Button {
    /// A button with the default dark colours and black borders.
    pub fn new(identity: Identity) -> (r: Button)
        ensures
            r.identity == identity,
            r.color == (Color { r: 20, g: 20, b: 20, a: 255 }),
            r.over_color == (Color { r: 40, g: 40, b: 40, a: 255 }),
            r.clicked_color == (Color { r: 60, g: 60, b: 60, a: 255 }),
            r.border_color == (Color { r: 0, g: 0, b: 0, a: 255 }),
            r.border_over_color == (Color { r: 0, g: 0, b: 0, a: 255 }),
            r.border_clicked_color == (Color { r: 0, g: 0, b: 0, a: 255 }),
    {
        Button {
            identity,
            over_color: Color::rgba(40, 40, 40, 255),
            clicked_color: Color::rgba(60, 60, 60, 255),
            color: Color::rgba(20, 20, 20, 255),
            border_over_color: Color::rgba(0, 0, 0, 255),
            border_clicked_color: Color::rgba(0, 0, 0, 255),
            border_color: Color::rgba(0, 0, 0, 255),
        }
    }

    pub fn get_id(&self) -> (r: &Identity)
        ensures
            *r == self.identity,
    {
        &self.identity
    }

    /// The actions a button starts with.
    pub fn default_actions(&self) -> (r: Vec<UiFlags>)
        ensures
            r@ == seq![UiFlags::ClickAble],
    {
        vec![UiFlags::ClickAble]
    }

    /// The hover colours while the mouse is over the button, the normal ones
    /// otherwise; a left press over it shows the clicked colours and sends
    /// its message, a left release over it goes back to the hover colours,
    /// and a left button anywhere else restores the normal colours.
    pub fn event(&self, actions: UiField, event: ButtonEvent) -> (r: ButtonReaction)
        ensures
            r == button_reaction(*self, actions.0, event),
    {
        match event {
            ButtonEvent::MousePresent(is_over) => {
                let colors = if is_over {
                    ButtonColors { fill: self.over_color, border: self.border_over_color }
                } else {
                    ButtonColors { fill: self.color, border: self.border_color }
                };
                ButtonReaction { colors: Some(colors), pressed: false }
            },
            ButtonEvent::MousePress { left, pressed } => {
                if !left {
                    return ButtonReaction { colors: None, pressed: false };
                }
                let mouse_over = actions.get(UiFlags::MouseOver);
                if mouse_over {
                    if pressed {
                        ButtonReaction {
                            colors: Some(ButtonColors { fill: self.clicked_color, border: self.border_clicked_color }),
                            pressed: true,
                        }
                    } else {
                        ButtonReaction {
                            colors: Some(ButtonColors { fill: self.over_color, border: self.border_over_color }),
                            pressed: false,
                        }
                    }
                } else {
                    ButtonReaction { colors: Some(ButtonColors { fill: self.color, border: self.border_color }), pressed: false }
                }
            },
            ButtonEvent::Other => ButtonReaction { colors: None, pressed: false },
        }
    }
}

} // verus!
