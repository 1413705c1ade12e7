//! Poses: a translation, a rotation and a scale along the rotated axes.
//!
//! The numbers inside a pose are nalgebra's. They are carried through as they
//! are, and every operation on them is one call into nalgebra or
//! nalgebra-glm whose result is given a name here. What a pose operation
//! returns is then stated exactly, over those names.

use core::ops::{Mul, MulAssign};
use nalgebra_glm::{Mat3, Mat4, Quat, Vec1, Vec3};
use vstd::prelude::*;
use vstd::std_specs::convert::FromSpecImpl;
use vstd::std_specs::ops::MulSpecImpl;

verus! {

#[verifier::external_type_specification]
#[verifier::external_body]
#[verifier::reject_recursive_types(T)]
#[verifier::reject_recursive_types(R)]
#[verifier::reject_recursive_types(C)]
#[verifier::reject_recursive_types(S)]
pub struct ExMatrix<T, R, C, S>(nalgebra::Matrix<T, R, C, S>);

#[verifier::external_type_specification]
#[verifier::external_body]
#[verifier::reject_recursive_types(T)]
pub struct ExQuaternion<T>(nalgebra::Quaternion<T>);

#[verifier::external_type_specification]
#[verifier::external_body]
#[verifier::reject_recursive_types(T)]
pub struct ExArrayStorage<T, const R: usize, const C: usize>(nalgebra::ArrayStorage<T, R, C>);

#[verifier::external_type_specification]
#[verifier::external_body]
pub struct ExConst<const R: usize>(nalgebra::Const<R>);

/// The vector `v` turned by the rotation `q`, as `nalgebra_glm::quat_rotate_vec3` computes it.
pub uninterp spec fn rotated(q: Quat, v: Vec3) -> Vec3;

/// The sum of two vectors, as nalgebra adds them.
pub uninterp spec fn vec_sum(a: Vec3, b: Vec3) -> Vec3;

/// The vector of the products of matching components, as nalgebra's `component_mul` computes it.
pub uninterp spec fn scaled(a: Vec3, b: Vec3) -> Vec3;

/// The vector with every component negated, as nalgebra negates it.
pub uninterp spec fn negated(v: Vec3) -> Vec3;

/// The vector of the reciprocals of the components of `v`.
pub uninterp spec fn reciprocal(v: Vec3) -> Vec3;

/// The product `a * b` of two quaternions, as nalgebra multiplies them.
pub uninterp spec fn quat_product(a: Quat, b: Quat) -> Quat;

/// The inverse of a quaternion, as `nalgebra_glm::quat_inverse` computes it.
pub uninterp spec fn quat_inverted(q: Quat) -> Quat;

/// The quaternion with every component negated, as nalgebra negates it.
pub uninterp spec fn quat_negated(q: Quat) -> Quat;

/// The inner product of two quaternions, as `nalgebra_glm::quat_dot` computes
/// it, in a vector of one component.
pub uninterp spec fn quat_dot_of(a: Quat, b: Quat) -> Vec1;

/// Whether the one component of `v` is below zero, as `nalgebra_glm::less_than` finds it.
pub uninterp spec fn below_zero(v: Vec1) -> bool;

/// The quotient `num / den` in nalgebra's numbers, in a vector of one
/// component: both converted, then divided by nalgebra's `unscale`.
pub uninterp spec fn scalar_of(num: int, den: int) -> Vec1;

/// The vector `a * (1 - t) + b * t`, as `nalgebra_glm::lerp` computes it.
pub uninterp spec fn lerped(a: Vec3, b: Vec3, t: Vec1) -> Vec3;

/// `r` is what `nalgebra_glm::quat_slerp` gives for `a`, `b` and the weight in
/// `t`. This holds of every result of the call; it does not say that two
/// calls on the same arguments give the same result.
pub uninterp spec fn slerp_gives(a: Quat, b: Quat, t: Vec1, r: Quat) -> bool;

/// The normalized linear blend of two rotations, as `nalgebra_glm::quat_fast_mix` computes it.
pub uninterp spec fn quat_mixed(a: Quat, b: Quat, t: Vec1) -> Quat;

/// The vector with the whole numbers `x`, `y`, `z` as its components.
pub uninterp spec fn whole_vec(x: int, y: int, z: int) -> Vec3;

/// The quaternion with the whole numbers `x`, `y`, `z` as its vector part and `w` as its scalar part.
pub uninterp spec fn whole_quat(x: int, y: int, z: int, w: int) -> Quat;

/// The matrix of the rotation `q`, as `nalgebra_glm::quat_to_mat4` computes it.
pub uninterp spec fn rotation_matrix(q: Quat) -> Mat4;

/// The matrix that moves by `v`, as `nalgebra_glm::translation` builds it.
pub uninterp spec fn translation_matrix(v: Vec3) -> Mat4;

/// The matrix `m` with the upper three entries of its last column replaced
/// by the components of `v`.
pub uninterp spec fn with_translation(m: Mat4, v: Vec3) -> Mat4;

/// The matrix `m` with a scale by `v` put behind it, as `nalgebra_glm::scale` computes it.
pub uninterp spec fn scaled_matrix(m: Mat4, v: Vec3) -> Mat4;

/// The upper three entries of the last column of `m`.
pub uninterp spec fn translation_part(m: Mat4) -> Vec3;

/// The upper left three by three part of `m`, as `nalgebra_glm::mat4_to_mat3` takes it.
pub uninterp spec fn linear_part(m: Mat4) -> Mat3;

/// Column `i` of `m`, as `nalgebra_glm::column` takes it.
pub uninterp spec fn column_of(m: Mat3, i: int) -> Vec3;

/// The lengths of three vectors, as `nalgebra_glm::length` computes them, as
/// the components of one vector.
pub uninterp spec fn lengths_of(x: Vec3, y: Vec3, z: Vec3) -> Vec3;

/// The matrix `m` with every entry of each column divided by the component
/// of `v` that goes with the column, as nalgebra's `component_div` divides.
pub uninterp spec fn columns_over(m: Mat3, v: Vec3) -> Mat3;

/// The rotation of a rotation matrix as a quaternion, as `nalgebra_glm::mat3_to_quat` computes it.
pub uninterp spec fn quat_of_matrix(m: Mat3) -> Quat;

/// `nalgebra_glm::quat_to_mat4`. The result is a function of the argument.
#[verifier::external_body]
fn quat_matrix(q: &Quat) -> (r: Mat4)
    ensures
        r == rotation_matrix(*q),
{
    nalgebra_glm::quat_to_mat4(q)
}

/// `nalgebra_glm::translation`. The result is a function of the argument.
#[verifier::external_body]
fn move_matrix(v: &Vec3) -> (r: Mat4)
    ensures
        r == translation_matrix(*v),
{
    nalgebra_glm::translation(v)
}

/// nalgebra's indexed assignment, on the upper three entries of the last
/// column. The matrix after is a function of the matrix before and the vector.
#[verifier::external_body]
fn set_translation(m: &mut Mat4, v: &Vec3)
    ensures
        *final(m) == with_translation(*old(m), *v),
{
    m[(0, 3)] = v.x;
    m[(1, 3)] = v.y;
    m[(2, 3)] = v.z;
}

/// `nalgebra_glm::scale`. The result is a function of the two arguments.
#[verifier::external_body]
fn scale_matrix(m: &Mat4, v: &Vec3) -> (r: Mat4)
    ensures
        r == scaled_matrix(*m, *v),
{
    nalgebra_glm::scale(m, v)
}

/// `nalgebra_glm::column` for the last column, cut to three components by
/// `nalgebra_glm::vec4_to_vec3`. The result is a function of the argument.
#[verifier::external_body]
fn last_column(m: &Mat4) -> (r: Vec3)
    ensures
        r == translation_part(*m),
{
    nalgebra_glm::vec4_to_vec3(&nalgebra_glm::column(m, 3))
}

/// `nalgebra_glm::mat4_to_mat3`. The result is a function of the argument.
#[verifier::external_body]
fn upper_left(m: &Mat4) -> (r: Mat3)
    ensures
        r == linear_part(*m),
{
    nalgebra_glm::mat4_to_mat3(m)
}

/// `nalgebra_glm::column` on a matrix of three columns, which has no column
/// beyond the third. The result is a function of the two arguments.
#[verifier::external_body]
pub(crate) fn column(m: &Mat3, i: usize) -> (r: Vec3)
    requires
        i < 3,
    ensures
        r == column_of(*m, i as int),
{
    nalgebra_glm::column(m, i)
}

/// `nalgebra_glm::length` of each of three vectors, put together by
/// `nalgebra_glm::vec3`. The result is a function of the three arguments.
#[verifier::external_body]
pub(crate) fn lengths(x: &Vec3, y: &Vec3, z: &Vec3) -> (r: Vec3)
    ensures
        r == lengths_of(*x, *y, *z),
{
    nalgebra_glm::vec3(nalgebra_glm::length(x), nalgebra_glm::length(y), nalgebra_glm::length(z))
}

/// nalgebra's `component_div` by the matrix whose rows are all `v`: each
/// column divided by its component of `v`, without bound where that is
/// zero. The result is a function of the two arguments.
#[verifier::external_body]
pub(crate) fn divide_columns(m: &Mat3, v: &Vec3) -> (r: Mat3)
    ensures
        r == columns_over(*m, *v),
{
    m.component_div(&Mat3::from_rows(&[v.transpose(), v.transpose(), v.transpose()]))
}

/// `nalgebra_glm::mat3_to_quat`. The result is a function of the argument.
#[verifier::external_body]
fn matrix_quat(m: &Mat3) -> (r: Quat)
    ensures
        r == quat_of_matrix(*m),
{
    nalgebra_glm::mat3_to_quat(m)
}

/// `nalgebra_glm::vec3` on three whole numbers converted to nalgebra's
/// numbers. The result is a function of the three.
#[verifier::external_body]
fn vec3_of(x: i16, y: i16, z: i16) -> (r: Vec3)
    ensures
        r == whole_vec(x as int, y as int, z as int),
{
    nalgebra_glm::vec3(x.into(), y.into(), z.into())
}

/// `nalgebra_glm::quat` on four whole numbers converted to nalgebra's
/// numbers. The result is a function of the four.
#[verifier::external_body]
fn quat_of(x: i16, y: i16, z: i16, w: i16) -> (r: Quat)
    ensures
        r == whole_quat(x as int, y as int, z as int, w as int),
{
    nalgebra_glm::quat(x.into(), y.into(), z.into(), w.into())
}

/// nalgebra's `unscale` on a vector of one component: the numerator divided
/// by the denominator, both converted to nalgebra's numbers first. A zero
/// denominator gives an infinite quotient, or none, and no error. The result
/// is a function of the two.
#[verifier::external_body]
fn scalar(num: i128, den: i128) -> (r: Vec1)
    ensures
        r == scalar_of(num as int, den as int),
{
    nalgebra_glm::vec1(num as _).unscale(den as _)
}

/// `nalgebra_glm::lerp` with the one component of `t` as the weight of `b`.
/// The result is a function of the three arguments.
#[verifier::external_body]
fn lerp_vec(a: &Vec3, b: &Vec3, t: &Vec1) -> (r: Vec3)
    ensures
        r == lerped(*a, *b, *t),
{
    nalgebra_glm::lerp(a, b, t.x)
}

/// `nalgebra_glm::quat_slerp` with the one component of `t` as the weight of
/// `b`: the two quaternions are normalized and blended along the arc
/// between them. The result rests on the platform's sine and arc cosine, so
/// all that is claimed of it is that it is what the call gave for these
/// arguments. nalgebra gives up only where it finds the sine of the angle
/// between the two near zero while they differ, which cannot happen once it
/// has, as it does first, turned the second onto the side of the first.
#[verifier::external_body]
fn slerp_quat(a: &Quat, b: &Quat, t: &Vec1) -> (r: Quat)
    ensures
        slerp_gives(*a, *b, *t, r),
{
    nalgebra_glm::quat_slerp(a, b, t.x)
}

/// `nalgebra_glm::quat_fast_mix` with the one component of `t` as the weight
/// of `b`. The result is a function of the three arguments.
#[verifier::external_body]
fn mix_quat(a: &Quat, b: &Quat, t: &Vec1) -> (r: Quat)
    ensures
        r == quat_mixed(*a, *b, *t),
{
    nalgebra_glm::quat_fast_mix(a, b, t.x)
}

/// nalgebra's unary `-` on a quaternion. The result is a function of the argument.
#[verifier::external_body]
fn negate_quat(q: &Quat) -> (r: Quat)
    ensures
        r == quat_negated(*q),
{
    -q
}

/// `nalgebra_glm::quat_dot`, its result put in a vector of one component.
/// The result is a function of the two arguments.
#[verifier::external_body]
fn dot_quat(a: &Quat, b: &Quat) -> (r: Vec1)
    ensures
        r == quat_dot_of(*a, *b),
{
    nalgebra_glm::vec1(nalgebra_glm::quat_dot(a, b))
}

/// `nalgebra_glm::less_than` against the zero vector. The result is a
/// function of the argument.
#[verifier::external_body]
fn is_below_zero(v: &Vec1) -> (r: bool)
    ensures
        r == below_zero(*v),
{
    nalgebra_glm::less_than(v, &Vec1::zeros()).x
}

/// `nalgebra_glm::quat_rotate_vec3`: the vector turned by the quaternion
/// taken as a rotation. The result is a function of the two arguments.
#[verifier::external_body]
fn rotate(q: &Quat, v: &Vec3) -> (r: Vec3)
    ensures
        r == rotated(*q, *v),
{
    nalgebra_glm::quat_rotate_vec3(q, v)
}

/// nalgebra's `+` on two vectors. The result is a function of the two arguments.
#[verifier::external_body]
fn add_vec(a: &Vec3, b: &Vec3) -> (r: Vec3)
    ensures
        r == vec_sum(*a, *b),
{
    a + b
}

/// nalgebra's `component_mul`: the products of matching components. The
/// result is a function of the two arguments.
#[verifier::external_body]
fn scale_vec(a: &Vec3, b: &Vec3) -> (r: Vec3)
    ensures
        r == scaled(*a, *b),
{
    a.component_mul(b)
}

/// nalgebra's unary `-` on a vector. The result is a function of the argument.
#[verifier::external_body]
fn negate_vec(v: &Vec3) -> (r: Vec3)
    ensures
        r == negated(*v),
{
    -v
}

/// nalgebra's `map` with its `ComplexField::recip`: one over each component,
/// infinite where the component is zero. The result is a function of the
/// argument.
#[verifier::external_body]
fn recip_vec(v: &Vec3) -> (r: Vec3)
    ensures
        r == reciprocal(*v),
{
    v.map(nalgebra::ComplexField::recip)
}

/// nalgebra's `*` on two quaternions. The result is a function of the two arguments.
#[verifier::external_body]
fn multiply_quat(a: &Quat, b: &Quat) -> (r: Quat)
    ensures
        r == quat_product(*a, *b),
{
    a * b
}

/// `nalgebra_glm::quat_inverse`: the inverse of the quaternion, zero where it
/// has none. The result is a function of the argument.
#[verifier::external_body]
fn invert_quat(q: &Quat) -> (r: Quat)
    ensures
        r == quat_inverted(*q),
{
    nalgebra_glm::quat_inverse(q)
}

/// A weight between two poses, as a fraction of two whole numbers.
///
/// A denominator of zero stands for a weight beyond all bounds, with the sign
/// of the numerator.
#[derive(Copy, Clone, Debug)]
pub struct Factor {
    pub num: i128,
    pub den: i128,
}

impl Factor {
    /// The weight that is all of the first pose.
    pub open spec fn none() -> Factor {
        Factor { num: 0, den: 1 }
    }

    /// The weight that is all of the second pose.
    pub open spec fn all() -> Factor {
        Factor { num: 1, den: 1 }
    }

    /// The fraction lies between zero and one, both included.
    pub open spec fn in_unit_range(self) -> bool {
        ||| self.den > 0 && 0 <= self.num <= self.den
        ||| self.den < 0 && self.den <= self.num <= 0
    }

    /// The weight brought into the range from zero to one: below zero it
    /// becomes zero, above one it becomes one. A fraction of zero by zero
    /// becomes one.
    pub open spec fn clamped(self) -> Factor {
        if self.den == 0 {
            if self.num < 0 {
                Factor::none()
            } else {
                Factor::all()
            }
        } else if self.den > 0 {
            if self.num <= 0 {
                Factor::none()
            } else if self.num >= self.den {
                Factor::all()
            } else {
                self
            }
        } else {
            if self.num >= 0 {
                Factor::none()
            } else if self.num <= self.den {
                Factor::all()
            } else {
                self
            }
        }
    }

    pub fn new(num: i128, den: i128) -> (r: Factor)
        ensures
            r == (Factor { num, den }),
    {
        Factor { num, den }
    }

    /// The weight brought into the range from zero to one.
    pub fn clamp(self) -> (r: Factor)
        ensures
            r == self.clamped(),
            r.in_unit_range(),
            self.in_unit_range() && self.num != 0 && self.num != self.den ==> r == self,
    {
        if self.den == 0 {
            if self.num < 0 {
                Factor { num: 0, den: 1 }
            } else {
                Factor { num: 1, den: 1 }
            }
        } else if self.den > 0 {
            if self.num <= 0 {
                Factor { num: 0, den: 1 }
            } else if self.num >= self.den {
                Factor { num: 1, den: 1 }
            } else {
                self
            }
        } else {
            if self.num >= 0 {
                Factor { num: 0, den: 1 }
            } else if self.num <= self.den {
                Factor { num: 1, den: 1 }
            } else {
                self
            }
        }
    }

    /// The weight in nalgebra's numbers.
    pub open spec fn scalar(self) -> Vec1 {
        scalar_of(self.num as int, self.den as int)
    }
}

/// Clamping a weight twice is clamping it once, and a weight outside the
/// range gives the same as the end of the range that it lies beyond.
pub proof fn lemma_clamped_is_clamped(f: Factor)
    ensures
        f.clamped().clamped() == f.clamped(),
        f.clamped().in_unit_range(),
{
}

/// A rigid placement with a scale: scale first, then rotate, then translate.
#[derive(Copy, Clone, Debug)]
pub struct Pose {
    pub translation: Vec3,
    pub rotation: Quat,
    pub scale: Vec3,
}

impl Pose {
    /// The pose that does `inner` first and then `self`.
    ///
    /// The inner translation is turned by the outer rotation and moved by the
    /// outer translation; the rotations multiply, outer on the left; the
    /// scales multiply component by component.
    pub open spec fn composed(self, inner: Pose) -> Pose {
        Pose {
            translation: vec_sum(rotated(self.rotation, inner.translation), self.translation),
            rotation: quat_product(self.rotation, inner.rotation),
            scale: scaled(self.scale, inner.scale),
        }
    }

    /// The pose that undoes `self`: the inverse rotation, the translation
    /// turned back by it and negated, and one over each scale.
    pub open spec fn inverted(self) -> Pose {
        Pose {
            translation: negated(rotated(quat_inverted(self.rotation), self.translation)),
            rotation: quat_inverted(self.rotation),
            scale: reciprocal(self.scale),
        }
    }

    /// `self` lies between `a` and `b` at the weight `f` of `b`, the weight
    /// clamped to the range from zero to one: its translation and its scale
    /// are blended linearly. Its rotation is left open.
    pub open spec fn is_blend_of(self, a: Pose, b: Pose, f: Factor) -> bool {
        &&& self.translation == lerped(a.translation, b.translation, f.clamped().scalar())
        &&& self.scale == lerped(a.scale, b.scale, f.clamped().scalar())
    }

    /// `self` lies between `a` and `b` at the weight `f` of `b`, the weight
    /// clamped to the range from zero to one: its translation and its scale
    /// are blended linearly, and its rotation is what the blend along the
    /// shorter arc gave.
    pub open spec fn is_interp_of(self, a: Pose, b: Pose, f: Factor) -> bool {
        &&& self.is_blend_of(a, b, f)
        &&& slerp_gives(
            arc_start(a.rotation, b.rotation),
            b.rotation,
            f.clamped().scalar(),
            self.rotation,
        )
    }

    /// The pose at rest: no translation, no rotation, a scale of one.
    pub open spec fn identity() -> Pose {
        Pose {
            translation: whole_vec(0, 0, 0),
            rotation: whole_quat(0, 0, 0, 1),
            scale: whole_vec(1, 1, 1),
        }
    }

    /// The point `point` scaled, then rotated, then translated by `self`.
    pub open spec fn moved(self, point: Vec3) -> Vec3 {
        vec_sum(rotated(self.rotation, scaled(point, self.scale)), self.translation)
    }

    pub fn pose_identity() -> (r: Pose)
        ensures
            r == Pose::identity(),
    {
        Pose { translation: vec3_of(0, 0, 0), rotation: quat_of(0, 0, 0, 1), scale: vec3_of(1, 1, 1) }
    }

    pub fn only_trans(translation: Vec3) -> (r: Pose)
        ensures
            r == (Pose { translation, ..Pose::identity() }),
    {
        Pose { translation, rotation: quat_of(0, 0, 0, 1), scale: vec3_of(1, 1, 1) }
    }

    pub fn only_scale(scale: Vec3) -> (r: Pose)
        ensures
            r == (Pose { scale, ..Pose::identity() }),
    {
        Pose { translation: vec3_of(0, 0, 0), rotation: quat_of(0, 0, 0, 1), scale }
    }

    pub fn only_rot(rotation: Quat) -> (r: Pose)
        ensures
            r == (Pose { rotation, ..Pose::identity() }),
    {
        Pose { translation: vec3_of(0, 0, 0), rotation, scale: vec3_of(1, 1, 1) }
    }

    pub fn without_trans(rotation: Quat, scale: Vec3) -> (r: Pose)
        ensures
            r == (Pose { rotation, scale, ..Pose::identity() }),
    {
        Pose { translation: vec3_of(0, 0, 0), rotation, scale }
    }

    pub fn without_rot(translation: Vec3, scale: Vec3) -> (r: Pose)
        ensures
            r == (Pose { translation, scale, ..Pose::identity() }),
    {
        Pose { translation, rotation: quat_of(0, 0, 0, 1), scale }
    }

    pub fn without_scale(translation: Vec3, rotation: Quat) -> (r: Pose)
        ensures
            r == (Pose { translation, rotation, ..Pose::identity() }),
    {
        Pose { translation, rotation, scale: vec3_of(1, 1, 1) }
    }

    /// Puts `rotation` in front of the rotation of the pose.
    pub fn add_rotation(&mut self, rotation: Quat)
        ensures
            *final(self) == (Pose {
                rotation: quat_product(rotation, old(self).rotation),
                ..*old(self)
            }),
    {
        self.rotation = multiply_quat(&rotation, &self.rotation);
    }

    /// Moves the pose by `translation`.
    pub fn add_translation(&mut self, translation: Vec3)
        ensures
            *final(self) == (Pose {
                translation: vec_sum(old(self).translation, translation),
                ..*old(self)
            }),
    {
        self.translation = add_vec(&self.translation, &translation);
    }

    /// Where the pose takes a point: scaled, then rotated, then translated.
    pub fn transform_point(&self, point: Vec3) -> (r: Vec3)
        ensures
            r == self.moved(point),
    {
        let point = scale_vec(&point, &self.scale);
        let point = rotate(&self.rotation, &point);
        add_vec(&point, &self.translation)
    }

    /// The matrix of the pose: translation, rotation and scale in one, the
    /// scale applied first.
    pub open spec fn as_matrix(self) -> Mat4 {
        scaled_matrix(with_translation(rotation_matrix(self.rotation), self.translation), self.scale)
    }

    /// The pose of a matrix that scales, rotates and translates without
    /// shear. Its last column gives the translation, the lengths of the
    /// columns of its upper left part give the scale, and those columns
    /// divided by their lengths give the rotation.
    pub open spec fn of_matrix(m: Mat4) -> Pose {
        let part = linear_part(m);
        let scale = lengths_of(column_of(part, 0), column_of(part, 1), column_of(part, 2));
        Pose {
            translation: translation_part(m),
            rotation: quat_of_matrix(columns_over(part, scale)),
            scale,
        }
    }

    pub fn rotation_mat(&self) -> (r: Mat4)
        ensures
            r == rotation_matrix(self.rotation),
    {
        quat_matrix(&self.rotation)
    }

    pub fn translation_mat(&self) -> (r: Mat4)
        ensures
            r == translation_matrix(self.translation),
    {
        move_matrix(&self.translation)
    }

    /// Writes the translation into the last column of `m`.
    pub fn add_translation_to_mat(&self, m: &mut Mat4)
        ensures
            *final(m) == with_translation(*old(m), self.translation),
    {
        set_translation(m, &self.translation);
    }

    /// The matrix in the form of translation, then rotation, then scale.
    pub fn matrix(&self) -> (r: Mat4)
        ensures
            r == self.as_matrix(),
    {
        let mut rotation = self.rotation_mat();
        self.add_translation_to_mat(&mut rotation);
        scale_matrix(&rotation, &self.scale)
    }

    /// The pose of a matrix, taken to scale, rotate and translate without shear.
    pub fn from_matrix(m: &Mat4) -> (r: Pose)
        ensures
            r == Pose::of_matrix(*m),
    {
        let translation = last_column(m);
        let scale_rot = upper_left(m);
        let (scale, rot) = crate::math::separate_rot_scale(&scale_rot);
        let rotation = matrix_quat(&rot);
        Pose { translation, rotation, scale }
    }

    /// The pose that does `inner` first and then `self`; `self * inner` is
    /// the same.
    pub fn compose(&self, inner: &Pose) -> (r: Pose)
        ensures
            r == self.composed(*inner),
    {
        let translation = add_vec(&rotate(&self.rotation, &inner.translation), &self.translation);
        let rotation = multiply_quat(&self.rotation, &inner.rotation);
        let scale = scale_vec(&self.scale, &inner.scale);
        Pose { translation, rotation, scale }
    }

    /// The inverse of the pose. A scale of zero along an axis gives an
    /// infinite scale there, not an error.
    pub fn inverse(&self) -> (r: Pose)
        ensures
            r == self.inverted(),
    {
        let rotation = invert_quat(&self.rotation);
        let translation = negate_vec(&rotate(&rotation, &self.translation));
        let scale = recip_vec(&self.scale);
        Pose { translation, rotation, scale }
    }
}

impl MulSpecImpl<Pose> for Pose {
    open spec fn obeys_mul_spec() -> bool {
        true
    }

    open spec fn mul_req(self, rhs: Pose) -> bool {
        true
    }

    open spec fn mul_spec(self, rhs: Pose) -> Pose {
        self.composed(rhs)
    }
}

impl Mul<Pose> for Pose {
    type Output = Pose;

    /// `self * rhs` is the pose that does `rhs` first and then `self`.
    fn mul(self, rhs: Pose) -> (r: Pose) {
        self.compose(&rhs)
    }
}

impl<'a> Mul<&'a Pose> for Pose {
    type Output = Pose;

    fn mul(self, rhs: &'a Pose) -> (r: Pose) {
        self.compose(rhs)
    }
}

impl<'a> MulSpecImpl<&'a Pose> for Pose {
    open spec fn obeys_mul_spec() -> bool {
        true
    }

    open spec fn mul_req(self, rhs: &'a Pose) -> bool {
        true
    }

    open spec fn mul_spec(self, rhs: &'a Pose) -> Pose {
        self.composed(*rhs)
    }
}

impl<'a> Mul<Pose> for &'a Pose {
    type Output = Pose;

    fn mul(self, rhs: Pose) -> (r: Pose) {
        self.compose(&rhs)
    }
}

impl<'a> MulSpecImpl<Pose> for &'a Pose {
    open spec fn obeys_mul_spec() -> bool {
        true
    }

    open spec fn mul_req(self, rhs: Pose) -> bool {
        true
    }

    open spec fn mul_spec(self, rhs: Pose) -> Pose {
        self.composed(rhs)
    }
}

impl<'a, 'b> Mul<&'a Pose> for &'b Pose {
    type Output = Pose;

    fn mul(self, rhs: &'a Pose) -> (r: Pose) {
        self.compose(rhs)
    }
}

impl<'a, 'b> MulSpecImpl<&'a Pose> for &'b Pose {
    open spec fn obeys_mul_spec() -> bool {
        true
    }

    open spec fn mul_req(self, rhs: &'a Pose) -> bool {
        true
    }

    open spec fn mul_spec(self, rhs: &'a Pose) -> Pose {
        self.composed(*rhs)
    }
}

impl MulAssign<Pose> for Pose {
    /// Puts `rhs` behind the pose: `rhs` is done first.
    fn mul_assign(&mut self, rhs: Pose)
        ensures
            *final(self) == old(self).composed(rhs),
    {
        *self = self.compose(&rhs);
    }
}

impl<'a> MulAssign<&'a Pose> for Pose {
    /// Puts `rhs` behind the pose: `rhs` is done first.
    fn mul_assign(&mut self, rhs: &'a Pose)
        ensures
            *final(self) == old(self).composed(*rhs),
    {
        *self = self.compose(rhs);
    }
}

impl From<Mat4> for Pose {
    /// The pose of a matrix: see `Pose::from_matrix`.
    fn from(mat: Mat4) -> (r: Pose) {
        Pose::from_matrix(&mat)
    }
}

impl FromSpecImpl<Mat4> for Pose {
    open spec fn obeys_from_spec() -> bool {
        true
    }

    open spec fn from_spec(mat: Mat4) -> Pose {
        Pose::of_matrix(mat)
    }
}

impl From<Pose> for Mat4 {
    /// The matrix of a pose: see `Pose::matrix`.
    fn from(pose: Pose) -> (r: Mat4) {
        pose.matrix()
    }
}

impl FromSpecImpl<Pose> for Mat4 {
    open spec fn obeys_from_spec() -> bool {
        true
    }

    open spec fn from_spec(pose: Pose) -> Mat4 {
        pose.as_matrix()
    }
}

/// The rotation from which the shorter arc to `b` starts: `a`, or `a`
/// negated, which is the same rotation, where the two point apart.
pub open spec fn arc_start(a: Quat, b: Quat) -> Quat {
    if below_zero(quat_dot_of(a, b)) {
        quat_negated(a)
    } else {
        a
    }
}

/// The rotation part way from `a` to `b`, along the shorter of the two arcs
/// between them: where the two point apart, `a` is negated first, which is
/// the same rotation. The weight is taken as it is, not clamped.
pub(crate) fn rotation_interp(a: &Quat, b: &Quat, f: Factor) -> (r: Quat)
    ensures
        slerp_gives(arc_start(*a, *b), *b, f.scalar(), r),
{
    let t = scalar(f.num, f.den);
    if is_below_zero(&dot_quat(a, b)) {
        slerp_quat(&negate_quat(a), b, &t)
    } else {
        slerp_quat(a, b, &t)
    }
}

/// The pose from `a` to `b` at the weight `f` of `b`, with `rotation` for
/// its rotation.
pub fn blend_with_rotation(a: &Pose, b: &Pose, f: Factor, rotation: Quat) -> (r: Pose)
    ensures
        r.is_blend_of(*a, *b, f),
        r.rotation == rotation,
{
    let f = f.clamp();
    let t = scalar(f.num, f.den);
    Pose {
        translation: lerp_vec(&a.translation, &b.translation, &t),
        rotation,
        scale: lerp_vec(&a.scale, &b.scale, &t),
    }
}

/// The rotation that the fast blend gives a pose between `a` and `b`: the
/// normalized linear blend along the shorter arc, at the clamped weight.
pub open spec fn fast_rotation(a: Pose, b: Pose, f: Factor) -> Quat {
    if below_zero(quat_dot_of(a.rotation, b.rotation)) {
        quat_mixed(quat_negated(a.rotation), b.rotation, f.clamped().scalar())
    } else {
        quat_mixed(a.rotation, b.rotation, f.clamped().scalar())
    }
}

/// Blends in the form `a * (1 - f) + b * f`, the weight clamped to the range
/// from zero to one, the rotation blended linearly and normalized.
pub fn pose_interp_fast(a: &Pose, b: &Pose, f: Factor) -> (r: Pose)
    ensures
        r.is_blend_of(*a, *b, f),
        r.rotation == fast_rotation(*a, *b, f),
{
    let clamped = f.clamp();
    proof {
        lemma_clamped_is_clamped(f);
    }
    let t = scalar(clamped.num, clamped.den);
    let rotation = if is_below_zero(&dot_quat(&a.rotation, &b.rotation)) {
        mix_quat(&negate_quat(&a.rotation), &b.rotation, &t)
    } else {
        mix_quat(&a.rotation, &b.rotation, &t)
    };
    blend_with_rotation(a, b, f, rotation)
}

/// Blends in the form `a * (1 - f) + b * f`, the weight clamped to the range
/// from zero to one, the rotation blended along the shorter arc.
pub fn pose_interp(a: &Pose, b: &Pose, f: Factor) -> (r: Pose)
    ensures
        r.is_interp_of(*a, *b, f),
{
    let rotation = rotation_interp(&a.rotation, &b.rotation, f.clamp());
    blend_with_rotation(a, b, f, rotation)
}

/// Writes into `to` the blends of the poses of `a` and `b`, place by place,
/// all at the weight `val`.
pub fn interpolate_poses(a: &[Pose], b: &[Pose], to: &mut Vec<Pose>, val: Factor)
    requires
        a@.len() == b@.len(),
        a@.len() == old(to)@.len(),
    ensures
        final(to)@.len() == a@.len(),
        forall|i: int| 0 <= i < a@.len() ==> (#[trigger] final(to)@[i]).is_interp_of(a@[i], b@[i], val),
{
    let mut i: usize = 0;
    while i < a.len()
        invariant
            a@.len() == b@.len(),
            a@.len() == to@.len(),
            i <= a@.len(),
            forall|k: int| 0 <= k < i ==> (#[trigger] to@[k]).is_interp_of(a@[k], b@[k], val),
        decreases a@.len() - i,
    {
        to.set(i, pose_interp(&a[i], &b[i], val));
        i += 1;
    }
}

/// Writes into `to` the blends of the poses of `a` and `b`, place by place,
/// each at its own weight.
pub fn weighted_pose_interp(a: &[Pose], b: &[Pose], to: &mut Vec<Pose>, interp_factors: &[Factor])
    requires
        a@.len() == b@.len(),
        a@.len() == old(to)@.len(),
        a@.len() == interp_factors@.len(),
    ensures
        final(to)@.len() == a@.len(),
        forall|i: int|
            0 <= i < a@.len() ==> (#[trigger] final(to)@[i]).is_interp_of(
                a@[i],
                b@[i],
                interp_factors@[i],
            ),
{
    let mut i: usize = 0;
    while i < a.len()
        invariant
            a@.len() == b@.len(),
            a@.len() == to@.len(),
            a@.len() == interp_factors@.len(),
            i <= a@.len(),
            forall|k: int|
                0 <= k < i ==> (#[trigger] to@[k]).is_interp_of(a@[k], b@[k], interp_factors@[k]),
        decreases a@.len() - i,
    {
        to.set(i, pose_interp(&a[i], &b[i], interp_factors[i]));
        i += 1;
    }
}

/// Copies the poses of `a` into `to`.
pub fn write_poses(a: &[Pose], to: &mut Vec<Pose>)
    requires
        a@.len() == old(to)@.len(),
    ensures
        final(to)@ == a@,
{
    let mut i: usize = 0;
    while i < to.len()
        invariant
            a@.len() == to@.len(),
            i <= a@.len(),
            forall|k: int| 0 <= k < i ==> to@[k] == a@[k],
        decreases a@.len() - i,
    {
        to.set(i, a[i]);
        i += 1;
    }
    assert(to@ =~= a@);
}

/// Replaces every pose by itself composed onto `base`: the pose that does
/// `base` first.
pub fn apply_base_pose(base: Pose, poses: &mut Vec<Pose>)
    ensures
        final(poses)@.len() == old(poses)@.len(),
        forall|i: int|
            0 <= i < old(poses)@.len() ==> #[trigger] final(poses)@[i] == old(poses)@[i].composed(base),
{
    let mut i: usize = 0;
    while i < poses.len()
        invariant
            poses@.len() == old(poses)@.len(),
            i <= poses@.len(),
            forall|k: int| 0 <= k < i ==> #[trigger] poses@[k] == old(poses)@[k].composed(base),
            forall|k: int| i <= k < poses@.len() ==> poses@[k] == old(poses)@[k],
        decreases poses@.len() - i,
    {
        let pose = poses[i].compose(&base);
        poses.set(i, pose);
        i += 1;
    }
}

} // verus!
