use ascending_demo::gui::{UiField, UiFlags};

#[test]
fn set_then_get_is_true() {
    let mut f = UiField::new(0);
    f.set(UiFlags::ClickAble);
    assert!(f.get(UiFlags::ClickAble));
    assert_eq!(f.0, 1 << 13);
}

#[test]
fn clear_then_get_is_false() {
    let mut f = UiField::new(0xffff);
    f.clear(UiFlags::Moving);
    assert!(!f.get(UiFlags::Moving));
    assert_eq!(f.0, 0xffff & !(1 << 4));
}

#[test]
fn setting_one_flag_leaves_the_others() {
    let mut f = UiField::new(0);
    f.set(UiFlags::CanFocus);
    f.set(UiFlags::IsFocused);
    f.clear(UiFlags::CanFocus);
    assert!(f.get(UiFlags::IsFocused));
    assert!(!f.get(UiFlags::CanFocus));
    assert!(!f.get(UiFlags::MouseOver));
    assert_eq!(f.0, 1);
}

#[test]
fn flag_positions() {
    assert_eq!(UiFlags::IsFocused.index(), 0);
    assert_eq!(UiFlags::CanMoveWindow.index(), 11);
    assert_eq!(UiFlags::ClickAble.index(), 13);
    assert_eq!(UiFlags::AllowChildren.index(), 14);
}
