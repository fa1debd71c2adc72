//! Paint styles of the generated solids and the shared materials they use.

use vstd::prelude::*;

verus! {

#[derive(Clone, Copy, PartialEq, Eq, Hash, Debug, Structural)]
pub enum PaintStyle {
    BhopPlatform,
    SurfRamp,
}

#[derive(Clone, Copy, PartialEq, Eq, Hash, Debug, Structural)]
pub enum MaterialKey {
    BhopPlatform,
    SurfRamp,
}

/// Each paint style has its own shared material.
pub fn material_key_for_paint(paint: PaintStyle) -> (key: MaterialKey)
    ensures
        key == match paint {
            PaintStyle::BhopPlatform => MaterialKey::BhopPlatform,
            PaintStyle::SurfRamp => MaterialKey::SurfRamp,
        },
{
    match paint {
        PaintStyle::BhopPlatform => MaterialKey::BhopPlatform,
        PaintStyle::SurfRamp => MaterialKey::SurfRamp,
    }
}

} // verus!
