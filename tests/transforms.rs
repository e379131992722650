use immense::transforms::coalesce;
use immense::{ColorTransform, Replicate, Transform, TransformArgument};
use std::collections::HashSet;

type Offset = (f32, f32, f32);

fn add(a: Offset, b: Offset) -> Offset {
    (a.0 + b.0, a.1 + b.1, a.2 + b.2)
}

fn steps(a: (i64, i64), b: (i64, i64)) -> (i64, i64) {
    (a.0 + b.0, a.1 + b.1)
}

fn many<T>(arg: TransformArgument<T>) -> Vec<T> {
    match arg {
        TransformArgument::Many(ts) => ts,
        TransformArgument::Single(_) => panic!("expected many branches"),
    }
}

#[test]
fn replicate_stacks_from_one_not_zero() {
    let r = Replicate::n(3, TransformArgument::Single((0.0, 1.0, 0.0)));
    let branches = many(r.into_argument(&add));
    assert_eq!(branches, vec![(0.0, 1.0, 0.0), (0.0, 2.0, 0.0), (0.0, 3.0, 0.0)]);
}

#[test]
fn replicate_each_source_in_turn() {
    let r = Replicate::n(2, TransformArgument::Many(vec![(1, 0), (0, 5)]));
    let branches = many(r.into_argument(&steps));
    assert_eq!(branches, vec![(1, 0), (2, 0), (0, 5), (0, 10)]);
}

#[test]
fn replicate_zero_times_is_empty() {
    let r = Replicate::n(0, TransformArgument::Single((1, 1)));
    assert!(many(r.into_argument(&steps)).is_empty());
}

#[test]
fn cross_of_two_36_replications_has_1296_distinct_branches() {
    let around_z = Replicate::n(36, TransformArgument::Single((10, 0))).into_argument(&steps);
    let around_y = Replicate::n(36, TransformArgument::Single((0, 10))).into_argument(&steps);
    let all = many(TransformArgument::from_branchings(&vec![around_z, around_y], &steps));
    assert_eq!(all.len(), 1296);
    let distinct: HashSet<(i64, i64)> = all.iter().cloned().collect();
    assert_eq!(distinct.len(), 1296);
    assert_eq!(all[0], (10, 10));
    assert_eq!(all[1], (10, 20));
    assert_eq!(all[36], (20, 10));
    assert_eq!(all[1295], (360, 360));
}

#[test]
fn an_empty_branching_empties_the_product() {
    let none = Replicate::n(0, TransformArgument::Single((1, 0))).into_argument(&steps);
    let three = Replicate::n(3, TransformArgument::Single((0, 1))).into_argument(&steps);
    let all = many(TransformArgument::from_branchings(&vec![none, three], &steps));
    assert!(all.is_empty());
    let two = TransformArgument::Many(vec![(1, 0), (2, 0)]);
    let empty = TransformArgument::Many(vec![]);
    assert!(many(TransformArgument::from_branchings(&vec![two, empty], &steps)).is_empty());
}

#[test]
fn no_branching_gives_no_branch() {
    assert!(many(TransformArgument::<(i64, i64)>::from_branchings(&vec![], &steps)).is_empty());
    let one = TransformArgument::Many(vec![(1, 0), (2, 0)]);
    assert_eq!(many(TransformArgument::from_branchings(&vec![one], &steps)), vec![(1, 0), (2, 0)]);
}

#[test]
fn stages_vary_the_first_slowest() {
    let first = TransformArgument::Many(vec![(100, 0), (200, 0)]);
    let second = TransformArgument::Single((0, 1));
    let third = TransformArgument::Many(vec![(0, 10), (0, 20)]);
    let all = many(TransformArgument::from_stages(&vec![first, second, third], (0, 0), &steps));
    assert_eq!(all, vec![(100, 11), (100, 21), (200, 11), (200, 21)]);
}

#[test]
fn no_stage_is_the_identity_alone() {
    let all = many(TransformArgument::from_stages(&vec![], (0, 0), &steps));
    assert_eq!(all, vec![(0, 0)]);
}

#[test]
fn chain_folds_in_order() {
    // A non-commutative composition shows the order: the outer one is the left operand.
    let concat = |a: (i64, i64), b: (i64, i64)| (a.0 * 10 + b.0, a.1 + b.1);
    let chain = vec![(1, 1), (2, 1), (3, 1)];
    match TransformArgument::from_chain(&chain, (0, 0), &concat) {
        TransformArgument::Single(t) => assert_eq!(t, (123, 3)),
        TransformArgument::Many(_) => panic!("expected one branch"),
    }
    assert_eq!(coalesce(Some((9, 0)), &chain, (0, 0), &concat), (9123, 3));
}

#[test]
fn single_argument_has_one_branch() {
    assert_eq!(TransformArgument::Single((4, 4)).into_vec(), vec![(4, 4)]);
    assert!(TransformArgument::<(i64, i64)>::from_option(None).into_vec().is_empty());
    assert_eq!(TransformArgument::from_option(Some((1, 2))).into_vec(), vec![(1, 2)]);
}

type Hsv = (f32, f32, f32);

fn blend(c: Hsv, d: Hsv) -> Hsv {
    (c.0 + d.0, c.1 * d.1, c.2 * d.2)
}

#[test]
fn descendant_override_beats_ancestor_delta() {
    let red: Hsv = (0.0, 1.0, 1.0);
    let ancestor = ColorTransform::Delta((10.0, 1.0, 1.0));
    let composed = ancestor.cons(ColorTransform::Override(red), &blend);
    assert!(matches!(composed, ColorTransform::Override(c) if c == red));
    assert_eq!(composed.color((200.0, 0.5, 0.5), &blend), red);
}

#[test]
fn deltas_add_hue_and_multiply_saturation_and_value() {
    let a = ColorTransform::Delta((10.0, 0.5, 1.0));
    let b = ColorTransform::Delta((20.0, 0.5, 0.25));
    match a.cons(b, &blend) {
        ColorTransform::Delta(d) => assert_eq!(d, (30.0, 0.25, 0.25)),
        ColorTransform::Override(_) => panic!("expected a delta"),
    }
    let over = ColorTransform::Override((100.0, 0.8, 1.0));
    match over.cons(b, &blend) {
        ColorTransform::Override(c) => assert_eq!(c, (120.0, 0.4, 0.25)),
        ColorTransform::Delta(_) => panic!("expected an override"),
    }
}

#[test]
fn transform_composes_both_parts() {
    let matmul = |a: i64, b: i64| a * 10 + b;
    let outer = Transform::new(1, ColorTransform::Delta((30.0, 1.0, 1.0)));
    let inner = Transform::new(2, ColorTransform::Delta((15.0, 0.5, 1.0)));
    let both = outer.cons(inner, &matmul, &blend);
    assert_eq!(both.spatial, 12);
    assert_eq!(both.get_color((0.0, 1.0, 1.0), &blend), (45.0, 0.5, 1.0));
    let plain = Transform::new(0, ColorTransform::Delta((0.0, 1.0, 1.0)));
    assert_eq!(plain.get_color((0.0, 1.0, 1.0), &blend), (0.0, 1.0, 1.0));
}
