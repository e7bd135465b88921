use vstd::prelude::*;

verus! {

/// The bind group layout of the camera uniform.
#[derive(Clone, Copy, Debug, Hash, PartialEq, Eq, Structural)]
pub struct CameraLayout;

/// The bind group layout of the text colour uniform.
#[derive(Clone, Copy, Debug, Hash, PartialEq, Eq, Structural)]
pub struct TextColoredLayout;

/// The bind group layout of the map tile textures.
#[derive(Clone, Copy, Debug, Hash, PartialEq, Eq, Structural)]
pub struct MapLayout;

/// The bind group layout of the screen size uniform.
#[derive(Clone, Copy, Debug, Hash, PartialEq, Eq, Structural)]
pub struct ScreenLayout;

/// The bind group layout of the time uniform.
#[derive(Clone, Copy, Debug, Hash, PartialEq, Eq, Structural)]
pub struct TimeLayout;

/// Which texture array a glyph uses.
#[derive(Clone, Copy, Debug, PartialEq, Eq, Structural)]
pub struct TextColoredUniform {
    pub colored: u32,
}

/// The size of the view area, for drawing the interface without a camera.
#[derive(Clone, Copy, Debug, PartialEq, Eq, Structural)]
pub struct ScreenUniform {
    pub width: u32,
    pub height: u32,
}

/// Taking `next` when `last` was written: the size kept, and whether it is
/// to be written.
pub open spec fn screen_updated(last: ScreenUniform, next: ScreenUniform) -> (ScreenUniform, bool) {
    (next, last != next)
}

/// Taking the same screen size twice writes it at most once: the second
/// update finds nothing to write.
pub proof fn lemma_screen_update_settles(last: ScreenUniform, next: ScreenUniform)
    ensures
        ({
            let (s1, _) = screen_updated(last, next);
            let (s2, w2) = screen_updated(s1, next);
            &&& !w2
            &&& s2 == s1
        }),
{
}

/// The screen size last written to the GPU.
pub struct ScreenGroup {
    pub screen_size: ScreenUniform,
}

impl ScreenGroup {
    /// A group whose buffer starts with `screen_size`.
    pub fn new(screen_size: ScreenUniform) -> (r: Self)
        ensures
            r.screen_size == screen_size,
    {
        ScreenGroup { screen_size }
    }

    /// Takes a new screen size; `true` says it differs from the last one and
    /// is to be written.
    pub fn update(&mut self, screen_size: ScreenUniform) -> (write: bool)
        ensures
            (final(self).screen_size, write) == screen_updated(old(self).screen_size, screen_size),
    {
        if self.screen_size != screen_size {
            self.screen_size = screen_size;
            true
        } else {
            false
        }
    }
}

/// How the ends of an outline are drawn.
#[derive(Clone, Copy, Debug, PartialEq, Eq, Structural)]
pub enum CapStyle {
    Butt,
    Round,
    Square,
}

/// How the corners of an outline are drawn.
#[derive(Clone, Copy, Debug, PartialEq, Eq, Structural)]
pub enum JoinStyle {
    Bevel,
    Miter,
    Round,
}

/// What a texture group holds: images or font glyphs.
#[derive(Clone, Copy, Debug, PartialEq, Eq, Structural)]
pub enum GroupType {
    Textures,
    Fonts,
}

impl Default for GroupType {
    fn default() -> (r: Self)
        ensures
            r == GroupType::Textures,
    {
        GroupType::Textures
    }
}

impl GroupType {
    /// The name of the group's sampler.
    pub fn sampler_label(self) -> (r: &'static str)
        ensures
            self == GroupType::Textures ==> r@ == "Texture_sampler"@,
            self == GroupType::Fonts ==> r@ == "Font_Texture_sampler"@,
    {
        match self {
            GroupType::Textures => "Texture_sampler",
            GroupType::Fonts => "Font_Texture_sampler",
        }
    }

    /// The name of the group's bind group.
    pub fn bind_group_label(self) -> (r: &'static str)
        ensures
            self == GroupType::Textures ==> r@ == "Texture Bind Group"@,
            self == GroupType::Fonts ==> r@ == "Font Texture Bind Group"@,
    {
        match self {
            GroupType::Textures => "Texture Bind Group",
            GroupType::Fonts => "Font Texture Bind Group",
        }
    }
}

} // verus!
