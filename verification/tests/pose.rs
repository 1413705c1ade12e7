use nalgebra_glm as glm;
use nalgebra_glm::{Mat4, Quat, Vec3};
use skeletal_animation::math::separate_rot_scale;
use skeletal_animation::pose::{
    apply_base_pose, blend_with_rotation, interpolate_poses, pose_interp, pose_interp_fast,
    weighted_pose_interp, write_poses, Factor, Pose,
};

fn rotation_interp(a: &Quat, b: &Quat, f: Factor) -> Quat {
    pose_interp(&Pose::only_rot(*a), &Pose::only_rot(*b), f).rotation
}

fn close(a: f32, b: f32) -> bool {
    (a - b).abs() <= 1.0e-5
}

fn close_vec(a: &Vec3, b: &Vec3) -> bool {
    close(a.x, b.x) && close(a.y, b.y) && close(a.z, b.z)
}

fn close_quat(a: &Quat, b: &Quat) -> bool {
    close(a.coords.x, b.coords.x)
        && close(a.coords.y, b.coords.y)
        && close(a.coords.z, b.coords.z)
        && close(a.coords.w, b.coords.w)
}

fn close_pose(a: &Pose, b: &Pose) -> bool {
    close_vec(&a.translation, &b.translation)
        && close_quat(&a.rotation, &b.rotation)
        && close_vec(&a.scale, &b.scale)
}

fn turn(angle: f32, x: f32, y: f32, z: f32) -> Quat {
    glm::quat_angle_axis(angle, &glm::vec3(x, y, z))
}

fn sample_pose() -> Pose {
    Pose {
        translation: glm::vec3(1.0, -2.0, 3.0),
        rotation: turn(0.7, 0.0, 0.0, 1.0),
        scale: glm::vec3(2.0, 0.5, 4.0),
    }
}

fn other_pose() -> Pose {
    Pose {
        translation: glm::vec3(-3.0, 4.0, 0.5),
        rotation: turn(-1.1, 0.0, 1.0, 0.0),
        scale: glm::vec3(1.0, 3.0, 0.25),
    }
}

#[test]
fn translation() {
    let mut mat: Mat4 = glm::identity();
    mat[(1, 1)] = 2.0;
    let translation = Vec3::new(1.0, 1.0, 1.0);
    let mat = glm::translate(&mat, &translation);

    let mut expected: Mat4 = glm::identity();
    expected[(1, 1)] = 2.0;
    expected[(0, 3)] = 1.0;
    expected[(1, 3)] = 2.0;
    expected[(2, 3)] = 1.0;
    println!("expected = ");
    println!("{}", expected);
    println!("mat = ");
    println!("{}", mat);
    assert!(expected == mat);
}

#[test]
fn scale() {
    let mut mat: Mat4 = glm::identity();
    mat[(1, 3)] = 1.0;
    let vec = Vec3::new(1.0, 2.0, 1.0);
    let mat = glm::scale(&mat, &vec);

    let mut expected: Mat4 = glm::identity();
    expected[(1, 1)] = 2.0;
    expected[(1, 3)] = 1.0;
    println!("expected = ");
    println!("{}", expected);
    println!("mat = ");
    println!("{}", mat);
    assert!(expected == mat);
}

#[test]
fn separate_rot_and_scale() {
    let qpi: f32 = glm::quarter_pi();
    let actual_rot = glm::rotate_x(&glm::identity(), qpi);
    let e_scale = Vec3::new(1.0, 2.0, 1.0);
    let e_rot = glm::mat4_to_mat3(&actual_rot);
    let mat = glm::scale(&actual_rot, &e_scale);

    let (scale, rotation) = separate_rot_scale(&glm::mat4_to_mat3(&mat));
    println!("rotation = ");
    println!("{}", rotation);
    println!("scale = {:?}", scale);

    println!("expected rotation = ");
    println!("{}", e_rot);
    for row in 0..3 {
        for col in 0..3 {
            assert!((e_rot[(row, col)] - rotation[(row, col)]).abs() <= glm::epsilon());
        }
    }
    assert!((scale.x - e_scale.x).abs() <= glm::epsilon());
    assert!((scale.y - e_scale.y).abs() <= glm::epsilon());
    assert!((scale.z - e_scale.z).abs() <= glm::epsilon());
}

#[test]
fn identity_pose_is_at_rest() {
    let identity = Pose::pose_identity();
    assert_eq!(identity.translation, glm::vec3(0.0, 0.0, 0.0));
    assert_eq!(identity.rotation, glm::quat_identity());
    assert_eq!(identity.scale, glm::vec3(1.0, 1.0, 1.0));
}

#[test]
fn builders_fill_in_the_rest_pose() {
    let t = glm::vec3(1.0, 2.0, 3.0);
    let r = turn(0.3, 1.0, 0.0, 0.0);
    let s = glm::vec3(4.0, 5.0, 6.0);
    let zero = glm::vec3(0.0, 0.0, 0.0);
    let one = glm::vec3(1.0, 1.0, 1.0);
    let rest: Quat = glm::quat_identity();

    let p = Pose::only_trans(t);
    assert_eq!((p.translation, p.rotation, p.scale), (t, rest, one));
    let p = Pose::only_scale(s);
    assert_eq!((p.translation, p.rotation, p.scale), (zero, rest, s));
    let p = Pose::only_rot(r);
    assert_eq!((p.translation, p.rotation, p.scale), (zero, r, one));
    let p = Pose::without_trans(r, s);
    assert_eq!((p.translation, p.rotation, p.scale), (zero, r, s));
    let p = Pose::without_rot(t, s);
    assert_eq!((p.translation, p.rotation, p.scale), (t, rest, s));
    let p = Pose::without_scale(t, r);
    assert_eq!((p.translation, p.rotation, p.scale), (t, r, one));
}

#[test]
fn composing_with_the_identity_changes_nothing() {
    let identity = Pose::pose_identity();
    for p in [sample_pose(), other_pose()] {
        assert!(close_pose(&(p * identity), &p));
        assert!(close_pose(&(identity * p), &p));
        assert!(close_pose(&p.compose(&identity), &p));
    }
}

#[test]
fn composition_does_the_inner_pose_first() {
    let quarter = turn(std::f32::consts::FRAC_PI_2, 0.0, 0.0, 1.0);
    let outer = Pose {
        translation: glm::vec3(10.0, 0.0, 0.0),
        rotation: quarter,
        scale: glm::vec3(2.0, 3.0, 4.0),
    };
    let inner = Pose {
        translation: glm::vec3(1.0, 0.0, 0.0),
        rotation: quarter,
        scale: glm::vec3(5.0, 6.0, 7.0),
    };
    let both = outer * inner;
    // The inner translation is turned a quarter about z, then moved by the outer one.
    assert!(close_vec(&both.translation, &glm::vec3(10.0, 1.0, 0.0)));
    assert!(close_quat(&both.rotation, &turn(std::f32::consts::PI, 0.0, 0.0, 1.0)));
    assert!(close_vec(&both.scale, &glm::vec3(10.0, 18.0, 28.0)));
    // Composition is not commutative.
    let swapped = inner * outer;
    assert!(close_vec(&swapped.translation, &glm::vec3(1.0, 10.0, 0.0)));
}

#[test]
fn products_of_references_and_in_place_agree() {
    let a = sample_pose();
    let b = other_pose();
    let product = a * b;
    for other in [a * &b, &a * b, &a * &b] {
        assert_eq!(other.translation, product.translation);
        assert_eq!(other.rotation, product.rotation);
        assert_eq!(other.scale, product.scale);
    }
    let mut in_place = a;
    in_place *= b;
    assert_eq!(in_place.translation, product.translation);
    let mut by_reference = a;
    by_reference *= &b;
    assert_eq!(by_reference.rotation, product.rotation);
    assert_eq!(by_reference.scale, product.scale);
    assert!(product.translation != a.translation);
}

#[test]
fn composition_is_associative() {
    let a = sample_pose();
    let b = other_pose();
    let c = Pose::without_scale(glm::vec3(0.5, 0.5, -1.0), turn(2.0, 1.0, 0.0, 0.0));
    let left = (a * b) * c;
    let right = a * (b * c);
    assert!(close_vec(&left.translation, &right.translation));
    assert!(close_quat(&left.rotation, &right.rotation));
    assert!(close_vec(&left.scale, &right.scale));
}

#[test]
fn inverse_turns_back_and_divides_the_scale() {
    let quarter = turn(std::f32::consts::FRAC_PI_2, 0.0, 0.0, 1.0);
    let pose = Pose {
        translation: glm::vec3(1.0, 0.0, 0.0),
        rotation: quarter,
        scale: glm::vec3(2.0, 4.0, 0.5),
    };
    let inverse = pose.inverse();
    assert!(close_quat(&inverse.rotation, &turn(-std::f32::consts::FRAC_PI_2, 0.0, 0.0, 1.0)));
    assert!(close_vec(&inverse.translation, &glm::vec3(0.0, 1.0, 0.0)));
    assert!(close_vec(&inverse.scale, &glm::vec3(0.5, 0.25, 2.0)));

    let rigid = Pose::without_scale(glm::vec3(3.0, -1.0, 2.0), turn(0.9, 1.0, 0.0, 0.0));
    assert!(close_pose(&(rigid * rigid.inverse()), &Pose::pose_identity()));
    assert!(close_pose(&(rigid.inverse() * rigid), &Pose::pose_identity()));
}

#[test]
fn inverse_of_a_zero_scale_is_infinite() {
    let pose = Pose::only_scale(glm::vec3(0.0, 1.0, 2.0));
    let inverse = pose.inverse();
    assert!(inverse.scale.x.is_infinite());
    assert_eq!(inverse.scale.y, 1.0);
    assert_eq!(inverse.scale.z, 0.5);
}

#[test]
fn transform_point_scales_then_turns_then_moves() {
    let pose = Pose {
        translation: glm::vec3(10.0, 20.0, 30.0),
        rotation: turn(std::f32::consts::FRAC_PI_2, 0.0, 0.0, 1.0),
        scale: glm::vec3(2.0, 3.0, 4.0),
    };
    let moved = pose.transform_point(glm::vec3(1.0, 1.0, 1.0));
    assert!(close_vec(&moved, &glm::vec3(7.0, 22.0, 34.0)));
}

#[test]
fn add_rotation_and_translation_change_one_part() {
    let mut pose = sample_pose();
    let quarter = turn(std::f32::consts::FRAC_PI_2, 0.0, 0.0, 1.0);
    pose.add_rotation(quarter);
    assert!(close_quat(&pose.rotation, &(quarter * sample_pose().rotation)));
    assert_eq!(pose.translation, sample_pose().translation);
    assert_eq!(pose.scale, sample_pose().scale);
    pose.add_translation(glm::vec3(1.0, 1.0, 1.0));
    assert!(close_vec(&pose.translation, &glm::vec3(2.0, -1.0, 4.0)));
    assert_eq!(pose.scale, sample_pose().scale);
}

#[test]
fn factor_is_clamped_to_the_unit_range() {
    let as_pair = |f: Factor| (f.num, f.den);
    assert_eq!(as_pair(Factor::new(1, 4).clamp()), (1, 4));
    assert_eq!(as_pair(Factor::new(0, 4).clamp()), (0, 1));
    assert_eq!(as_pair(Factor::new(4, 4).clamp()), (1, 1));
    assert_eq!(as_pair(Factor::new(5, 4).clamp()), (1, 1));
    assert_eq!(as_pair(Factor::new(-1, 4).clamp()), (0, 1));
    assert_eq!(as_pair(Factor::new(-1, -4).clamp()), (-1, -4));
    assert_eq!(as_pair(Factor::new(1, -4).clamp()), (0, 1));
    assert_eq!(as_pair(Factor::new(-5, -4).clamp()), (1, 1));
    assert_eq!(as_pair(Factor::new(3, 0).clamp()), (1, 1));
    assert_eq!(as_pair(Factor::new(0, 0).clamp()), (1, 1));
    assert_eq!(as_pair(Factor::new(-3, 0).clamp()), (0, 1));
    assert_eq!(as_pair(Factor::new(i128::MIN + 1, i128::MIN).clamp()), (i128::MIN + 1, i128::MIN));
}

#[test]
fn interp_gives_the_ends_at_zero_and_one() {
    let a = sample_pose();
    let b = other_pose();
    assert!(close_pose(&pose_interp(&a, &b, Factor::new(0, 1)), &a));
    assert!(close_pose(&pose_interp(&a, &b, Factor::new(1, 1)), &b));
    assert!(close_pose(&pose_interp_fast(&a, &b, Factor::new(0, 1)), &a));
    assert!(close_pose(&pose_interp_fast(&a, &b, Factor::new(1, 1)), &b));
}

#[test]
fn interp_clamps_the_weight() {
    let a = sample_pose();
    let b = other_pose();
    for (outside, end) in [(Factor::new(-7, 2), &a), (Factor::new(9, 2), &b), (Factor::new(1, 0), &b)] {
        assert!(close_pose(&pose_interp(&a, &b, outside), end));
        assert!(close_pose(&pose_interp_fast(&a, &b, outside), end));
    }
    let low = pose_interp(&a, &b, Factor::new(-7, 2));
    let zero = pose_interp(&a, &b, Factor::new(0, 1));
    assert_eq!(low.translation, zero.translation);
    assert_eq!(low.scale, zero.scale);
}

#[test]
fn interp_blends_half_way() {
    let a = Pose {
        translation: glm::vec3(0.0, 2.0, -4.0),
        rotation: glm::quat_identity(),
        scale: glm::vec3(1.0, 1.0, 1.0),
    };
    let b = Pose {
        translation: glm::vec3(4.0, 0.0, 4.0),
        rotation: turn(1.0, 0.0, 1.0, 0.0),
        scale: glm::vec3(3.0, 1.0, 5.0),
    };
    let half = pose_interp(&a, &b, Factor::new(500, 1000));
    assert!(close_vec(&half.translation, &glm::vec3(2.0, 1.0, 0.0)));
    assert!(close_vec(&half.scale, &glm::vec3(2.0, 1.0, 3.0)));
    assert!(close_quat(&half.rotation, &turn(0.5, 0.0, 1.0, 0.0)));

    let quarter = pose_interp(&a, &b, Factor::new(-1, -4));
    assert!(close_vec(&quarter.translation, &glm::vec3(1.0, 1.5, -2.0)));
    assert!(close_quat(&quarter.rotation, &turn(0.25, 0.0, 1.0, 0.0)));

    let fast = pose_interp_fast(&a, &b, Factor::new(1, 2));
    assert!(close_vec(&fast.translation, &glm::vec3(2.0, 1.0, 0.0)));
    assert!(close_vec(&fast.scale, &glm::vec3(2.0, 1.0, 3.0)));
    // Half way, the normalized linear blend lies on the arc.
    assert!(close_quat(&fast.rotation, &turn(0.5, 0.0, 1.0, 0.0)));
}

#[test]
fn rotations_blend_along_the_shorter_arc() {
    let a = turn(0.2, 0.0, 0.0, 1.0);
    let b = turn(0.6, 0.0, 0.0, 1.0);
    let expected = turn(0.4, 0.0, 0.0, 1.0);
    let direct = rotation_interp(&a, &b, Factor::new(1, 2));
    assert!(close_quat(&direct, &expected));
    // The negated quaternion is the same rotation, reached the long way round.
    let flipped = rotation_interp(&(-a), &b, Factor::new(1, 2));
    assert!(close_quat(&flipped, &expected) || close_quat(&(-flipped), &expected));
    let poses = (Pose::only_rot(-a), Pose::only_rot(b));
    let blend = pose_interp(&poses.0, &poses.1, Factor::new(1, 2));
    assert!(close_quat(&blend.rotation, &expected) || close_quat(&(-blend.rotation), &expected));
    let fast = pose_interp_fast(&poses.0, &poses.1, Factor::new(1, 2));
    assert!(close_quat(&fast.rotation, &expected) || close_quat(&(-fast.rotation), &expected));
}

#[test]
fn rotations_blend_whatever_the_ends_are() {
    let q = turn(0.9, 0.0, 1.0, 0.0);
    let right = turn(std::f32::consts::PI, 1.0, 0.0, 0.0);
    let rest: Quat = glm::quat_identity();
    let zero = glm::quat(0.0, 0.0, 0.0, 0.0);
    let huge = glm::quat(0.0, 0.0, 0.0, f32::MAX);
    let none = glm::quat(f32::NAN, 0.0, 0.0, 1.0);
    let weights = [Factor::new(0, 1), Factor::new(1, 3), Factor::new(1, 1), Factor::new(7, 0), Factor::new(0, 0)];
    for a in [q, -q, right, rest, zero, huge, none] {
        for b in [q, -q, right, -right, rest, zero, huge, none] {
            for weight in weights {
                let r = rotation_interp(&a, &b, weight);
                let fast = pose_interp_fast(&Pose::only_rot(a), &Pose::only_rot(b), weight);
                assert!(r.coords.len() == 4 && fast.rotation.coords.len() == 4);
            }
        }
    }
    // The same rotation at both ends is kept.
    assert!(close_quat(&rotation_interp(&q, &q, Factor::new(1, 3)), &q));
    let opposite = rotation_interp(&q, &(-q), Factor::new(1, 3));
    assert!(close_quat(&opposite, &q) || close_quat(&opposite, &(-q)));
}

#[test]
fn blend_with_rotation_keeps_the_rotation_given() {
    let a = sample_pose();
    let b = other_pose();
    let rotation = turn(2.5, 1.0, 0.0, 0.0);
    let blend = blend_with_rotation(&a, &b, Factor::new(3, 4), rotation);
    assert_eq!(blend.rotation, rotation);
    assert!(close_vec(&blend.translation, &glm::vec3(-2.0, 2.5, 1.125)));
    assert!(close_vec(&blend.scale, &glm::vec3(1.25, 2.375, 1.1875)));
}

#[test]
fn pose_lists_are_blended_place_by_place() {
    let a = vec![sample_pose(), other_pose()];
    let b = vec![other_pose(), sample_pose()];
    let mut to = vec![Pose::pose_identity(); 2];
    interpolate_poses(&a, &b, &mut to, Factor::new(1, 1));
    assert!(close_pose(&to[0], &b[0]));
    assert!(close_pose(&to[1], &b[1]));

    weighted_pose_interp(&a, &b, &mut to, &[Factor::new(0, 1), Factor::new(1, 1)]);
    assert!(close_pose(&to[0], &a[0]));
    assert!(close_pose(&to[1], &b[1]));

    write_poses(&b, &mut to);
    assert_eq!(to[0].translation, b[0].translation);
    assert_eq!(to[1].rotation, b[1].rotation);

    let base = Pose::only_trans(glm::vec3(1.0, 0.0, 0.0));
    apply_base_pose(base, &mut to);
    assert!(close_pose(&to[0], &(b[0] * base)));
    assert!(close_pose(&to[1], &(b[1] * base)));
}

#[test]
fn matrix_puts_translation_rotation_and_scale_together() {
    let pose = Pose {
        translation: glm::vec3(1.0, 2.0, 3.0),
        rotation: turn(std::f32::consts::FRAC_PI_2, 0.0, 0.0, 1.0),
        scale: glm::vec3(2.0, 3.0, 4.0),
    };
    let matrix = pose.matrix();
    let expected = [
        [0.0, -3.0, 0.0, 1.0],
        [2.0, 0.0, 0.0, 2.0],
        [0.0, 0.0, 4.0, 3.0],
        [0.0, 0.0, 0.0, 1.0],
    ];
    for row in 0..4 {
        for col in 0..4 {
            assert!(close(matrix[(row, col)], expected[row][col]), "{} {}", row, col);
        }
    }
    let moved = matrix * glm::vec4(1.0, 1.0, 1.0, 1.0);
    let point = pose.transform_point(glm::vec3(1.0, 1.0, 1.0));
    assert!(close_vec(&glm::vec4_to_vec3(&moved), &point));

    let translation = pose.translation_mat();
    assert_eq!(translation, glm::translation(&pose.translation));
    assert_eq!(translation[(1, 3)], 2.0);
    let rotation = pose.rotation_mat();
    assert!(close(rotation[(1, 0)], 1.0) && close(rotation[(0, 1)], -1.0));
    let mut target: Mat4 = glm::identity();
    pose.add_translation_to_mat(&mut target);
    assert_eq!(target, translation);

    let converted: Mat4 = pose.into();
    assert_eq!(converted, matrix);
}

#[test]
fn from_matrix_recovers_the_pose() {
    for pose in [sample_pose(), other_pose(), Pose::pose_identity()] {
        let back = Pose::from_matrix(&pose.matrix());
        assert!(close_pose(&back, &pose));
        let converted = Pose::from(pose.matrix());
        assert!(close_pose(&converted, &pose));
    }
}
