use vstd::prelude::*;

use crate::interaction::Interaction;

verus! {

/// Defines the physical properties of some [Primitive](crate::primitive::Primitive),
/// determining how light interacts with the object. No shading model uses
/// it yet: a hit is colored by a constant.
pub trait Material {
    fn interact(&self, interaction: &Interaction);
}

} // verus!
