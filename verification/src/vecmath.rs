//! The opaque 3D position capability consumed by the mesh builders.
//!
//! Positions are `glam::Vec3` values.  The topology built by this crate never
//! inspects a coordinate: positions are created here, carried through the
//! meshes, and handed back to the caller for rendering.

use vstd::prelude::*;

verus! {

#[verifier::external_type_specification]
#[verifier::external_body]
pub struct ExVec3(glam::Vec3);

/// Relies on glam's `Vec3` unit axes, `length` and `normalize`: the
/// `index`-th vertex position of the regular icosahedron, one corner of the
/// three orthogonal golden-ratio rectangles, normalized to unit length.
/// `t` is the golden ratio `(1 + sqrt 5) / 2`; it is obtained through glam
/// values (`sqrt 5` is the length of `(1, 2, 0)`) because verified code in
/// this crate keeps no floating-point text of its own.
#[verifier::external_body]
pub(crate) fn base_position(index: usize) -> (p: glam::Vec3)
    requires
        index < 12,
{
    let x = glam::Vec3::X;
    let y = glam::Vec3::Y;
    let z = glam::Vec3::Z;
    let t = (x.x + (x + y + y).length()) / (x.x + x.x);
    let corners = [
        y * t - x, y * t + x, -(y * t) - x, -(y * t) + x,
        z * t - y, z * t + y, -(z * t) - y, -(z * t) + y,
        x * t - z, x * t + z, -(x * t) - z, -(x * t) + z,
    ];
    corners[index].normalize()
}

/// Relies on glam's `Vec3` addition and `normalize`: the unit-length vector
/// along the sum of the two endpoint positions, i.e. the normalized midpoint
/// of an edge of the unit sphere.
#[verifier::external_body]
pub(crate) fn midpoint_position(a: glam::Vec3, b: glam::Vec3) -> (p: glam::Vec3) {
    (a + b).normalize()
}

/// Relies on `glam::Vec3` being `Copy`: a copy of the vector.
#[verifier::external_body]
fn copy_position(v: &glam::Vec3) -> (p: glam::Vec3) {
    *v
}

impl crate::IcosphereVertex for glam::Vec3 {
    fn position(&self) -> (p: glam::Vec3) {
        copy_position(self)
    }

    fn from_position(position: glam::Vec3, binning_depth: usize) -> (v: Self) {
        let _ = binning_depth;
        position
    }
}

} // verus!
