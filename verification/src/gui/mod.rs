use vstd::prelude::*;

pub mod flags;
pub mod world;
pub mod seqs;
pub mod tree;
pub mod model;
pub mod ui;
pub mod button;

pub use flags::{UiField, UiFlags};

verus! {

} // verus!
