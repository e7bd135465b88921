use vstd::prelude::*;

verus! {

/// The flags a widget carries in its action field.
#[derive(Clone, Copy, Debug, PartialEq, Eq, Structural)]
pub enum UiFlags {
    IsFocused,
    CanFocus,
    MouseOver,
    MoveAble,
    Moving,
    CanClickBehind,
    AlwaysUseable,
    Minimized,
    Checked,
    FocusClick,
    IsPassword,
    CanMoveWindow,
    Clicked,
    ClickAble,
    AllowChildren,
}

impl UiFlags {
    /// The bit position of the flag inside a `UiField`.
    pub open spec fn spec_index(self) -> u16 {
        match self {
            UiFlags::IsFocused => 0,
            UiFlags::CanFocus => 1,
            UiFlags::MouseOver => 2,
            UiFlags::MoveAble => 3,
            UiFlags::Moving => 4,
            UiFlags::CanClickBehind => 5,
            UiFlags::AlwaysUseable => 6,
            UiFlags::Minimized => 7,
            UiFlags::Checked => 8,
            UiFlags::FocusClick => 9,
            UiFlags::IsPassword => 10,
            UiFlags::CanMoveWindow => 11,
            UiFlags::Clicked => 12,
            UiFlags::ClickAble => 13,
            UiFlags::AllowChildren => 14,
        }
    }

    #[verifier::when_used_as_spec(spec_index)]
    pub fn index(self) -> (r: u16)
        ensures
            r == self.spec_index(),
            r < 16,
    {
        match self {
            UiFlags::IsFocused => 0,
            UiFlags::CanFocus => 1,
            UiFlags::MouseOver => 2,
            UiFlags::MoveAble => 3,
            UiFlags::Moving => 4,
            UiFlags::CanClickBehind => 5,
            UiFlags::AlwaysUseable => 6,
            UiFlags::Minimized => 7,
            UiFlags::Checked => 8,
            UiFlags::FocusClick => 9,
            UiFlags::IsPassword => 10,
            UiFlags::CanMoveWindow => 11,
            UiFlags::Clicked => 12,
            UiFlags::ClickAble => 13,
            UiFlags::AllowChildren => 14,
        }
    }
}

/// Whether bit `i` of `bits` is set.
pub open spec fn bit_set(bits: u16, i: u16) -> bool {
    (bits >> i) & 1u16 == 1u16
}

/// Whether `flag` is set in the raw field `bits`.
pub open spec fn has_flag(bits: u16, flag: UiFlags) -> bool {
    bit_set(bits, flag.spec_index())
}

/// `bits` with the bit of `flag` set.
pub open spec fn with_flag(bits: u16, flag: UiFlags) -> u16 {
    bits | (1u16 << flag.spec_index())
}

/// `bits` with the bit of `flag` cleared.
pub open spec fn without_flag(bits: u16, flag: UiFlags) -> u16 {
    bits & !(1u16 << flag.spec_index())
}

/// Setting bit `i` makes it set and leaves every other bit as it was.
pub proof fn lemma_set_bit(bits: u16, i: u16, j: u16)
    requires
        i < 16,
        j < 16,
    ensures
        bit_set(bits | (1u16 << i), j) == (i == j || bit_set(bits, j)),
{
    assert(bit_set(bits | (1u16 << i), j) == (i == j || bit_set(bits, j))) by (bit_vector)
        requires
            i < 16,
            j < 16,
    ;
}

/// Clearing bit `i` makes it unset and leaves every other bit as it was.
pub proof fn lemma_clear_bit(bits: u16, i: u16, j: u16)
    requires
        i < 16,
        j < 16,
    ensures
        bit_set(bits & !(1u16 << i), j) == (i != j && bit_set(bits, j)),
{
    assert(bit_set(bits & !(1u16 << i), j) == (i != j && bit_set(bits, j))) by (bit_vector)
        requires
            i < 16,
            j < 16,
    ;
}

/// Setting a flag sets it and leaves every other flag as it was.
pub proof fn lemma_with_flag(bits: u16, flag: UiFlags, other: UiFlags)
    ensures
        has_flag(with_flag(bits, flag), other) == (flag == other || has_flag(bits, other)),
{
    lemma_set_bit(bits, flag.spec_index(), other.spec_index());
}

/// Clearing a flag clears it and leaves every other flag as it was.
pub proof fn lemma_without_flag(bits: u16, flag: UiFlags, other: UiFlags)
    ensures
        has_flag(without_flag(bits, flag), other) == (flag != other && has_flag(bits, other)),
{
    lemma_clear_bit(bits, flag.spec_index(), other.spec_index());
}

/// The set of action flags of a widget, one bit per `UiFlags` variant.
#[derive(Clone, Copy, Debug, PartialEq, Eq, Structural)]
pub struct UiField(pub u16);

impl UiField {
    pub open spec fn has(self, flag: UiFlags) -> bool {
        has_flag(self.0, flag)
    }

    /// A field with the given raw bits.
    pub fn new(bits: u16) -> (r: Self)
        ensures
            r.0 == bits,
    {
        UiField(bits)
    }

    /// Whether `flag` is set.
    pub fn get(&self, flag: UiFlags) -> (r: bool)
        ensures
            r == self.has(flag),
    {
        let i = flag.index();
        (self.0 >> i) & 1u16 == 1u16
    }

    /// Sets `flag`.
    pub fn set(&mut self, flag: UiFlags)
        ensures
            final(self).0 == with_flag(old(self).0, flag),
    {
        let i = flag.index();
        self.0 = self.0 | (1u16 << i);
    }

    /// Clears `flag`.
    pub fn clear(&mut self, flag: UiFlags)
        ensures
            final(self).0 == without_flag(old(self).0, flag),
    {
        let i = flag.index();
        self.0 = self.0 & !(1u16 << i);
    }
}

} // verus!
