//! Colour operators: an override that replaces the inherited colour, or a delta that
//! adjusts it.
use vstd::prelude::*;

verus! {

/// What a transform does to colour: set it outright, or adjust the colour it inherits.
///
/// The payload of either is a colour value; `blend(c, d)` applies the adjustment `d` to
/// `c` (in HSV terms: hue added, saturation and value multiplied).
#[derive(Clone, Copy, Debug)]
pub enum ColorTransform<C> {
    /// An absolute colour that replaces whatever the ancestors set.
    Override(C),
    /// A relative adjustment of the inherited colour.
    Delta(C),
}

/// `blend` can be called on any colour and adjustment.
pub open spec fn blend_total<C, B: Fn(C, C) -> C>(blend: B) -> bool {
    forall|c: C, d: C| #[trigger] blend.requires((c, d))
}

/// `r` is what `blend` may return for colour `c` adjusted by `d`.
pub open spec fn blends<C, B: Fn(C, C) -> C>(blend: B, c: C, d: C, r: C) -> bool {
    blend.ensures((c, d), r)
}

/// `r` is `outer` composed around `inner`: an inner override wins outright; an inner
/// adjustment is applied to the outer colour or adjustment, keeping the outer's kind.
pub open spec fn color_composes<C, B: Fn(C, C) -> C>(
    blend: B,
    outer: ColorTransform<C>,
    inner: ColorTransform<C>,
    r: ColorTransform<C>,
) -> bool {
    match inner {
        ColorTransform::Override(c) => r == ColorTransform::Override(c),
        ColorTransform::Delta(d) => match (outer, r) {
            (ColorTransform::Override(c), ColorTransform::Override(x)) => blends(blend, c, d, x),
            (ColorTransform::Delta(a), ColorTransform::Delta(x)) => blends(blend, a, d, x),
            _ => false,
        },
    }
}

/// `r` is the colour that `op` gives when applied to `base`.
pub open spec fn resolves<C, B: Fn(C, C) -> C>(
    blend: B,
    base: C,
    op: ColorTransform<C>,
    r: C,
) -> bool {
    match op {
        ColorTransform::Override(c) => r == c,
        ColorTransform::Delta(d) => blends(blend, base, d, r),
    }
}

impl<C: Copy> ColorTransform<C> {
    /// This operator composed around `other`, which stands nearer the leaf.
    pub fn cons<B: Fn(C, C) -> C>(self, other: Self, blend: &B) -> (r: Self)
        requires
            blend_total(*blend),
        ensures
            color_composes(*blend, self, other, r),
    {
        match (self, other) {
            (_, ColorTransform::Override(color)) => ColorTransform::Override(color),
            (ColorTransform::Override(color), ColorTransform::Delta(delta)) => {
                ColorTransform::Override(blend(color, delta))
            },
            (ColorTransform::Delta(a), ColorTransform::Delta(b)) => ColorTransform::Delta(
                blend(a, b),
            ),
        }
    }

    /// The absolute colour this operator gives: an override's own colour, or `base` with
    /// the adjustment applied.
    pub fn color<B: Fn(C, C) -> C>(self, base: C, blend: &B) -> (r: C)
        requires
            blend_total(*blend),
        ensures
            resolves(*blend, base, self, r),
    {
        match self {
            ColorTransform::Override(color) => color,
            ColorTransform::Delta(delta) => blend(base, delta),
        }
    }
}

/// An override below any ancestor operator decides the colour alone: the composed
/// operator is that override, and it resolves to exactly its colour on any base.
pub proof fn lemma_override_wins<C, B: Fn(C, C) -> C>(
    blend: B,
    ancestor: ColorTransform<C>,
    color: C,
    composed: ColorTransform<C>,
    base: C,
    resolved: C,
)
    requires
        color_composes(blend, ancestor, ColorTransform::Override(color), composed),
        resolves(blend, base, composed, resolved),
    ensures
        composed == ColorTransform::Override(color),
        resolved == color,
{
}

} // verus!

verus! {

/// `blend` gives one result for each colour and adjustment, and applying two adjustments in
/// turn equals applying their blend.
pub open spec fn blend_associative<C, B: Fn(C, C) -> C>(blend: B) -> bool {
    &&& forall|c: C, d: C, r1: C, r2: C|
        #[trigger] blends(blend, c, d, r1) && #[trigger] blends(blend, c, d, r2) ==> r1 == r2
    &&& forall|a: C, b: C, c: C, ab: C, bc: C, l: C, r: C|
        #[trigger] blends(blend, a, b, ab) && #[trigger] blends(blend, ab, c, l)
            && #[trigger] blends(blend, b, c, bc) && #[trigger] blends(blend, a, bc, r) ==> l == r
}

/// Composing colour operators is associative whenever the adjustment is.
pub proof fn lemma_color_compose_associative<C, B: Fn(C, C) -> C>(
    blend: B,
    a: ColorTransform<C>,
    b: ColorTransform<C>,
    c: ColorTransform<C>,
    ab: ColorTransform<C>,
    left: ColorTransform<C>,
    bc: ColorTransform<C>,
    right: ColorTransform<C>,
)
    requires
        blend_associative(blend),
        color_composes(blend, a, b, ab),
        color_composes(blend, ab, c, left),
        color_composes(blend, b, c, bc),
        color_composes(blend, a, bc, right),
    ensures
        left == right,
{
    match (a, b, c, ab, bc, left, right) {
        (
            ColorTransform::Override(x),
            ColorTransform::Delta(y),
            ColorTransform::Delta(z),
            ColorTransform::Override(xy),
            ColorTransform::Delta(yz),
            ColorTransform::Override(l),
            ColorTransform::Override(r),
        ) => {
            assert(blends(blend, x, y, xy) && blends(blend, xy, z, l) && blends(blend, y, z, yz)
                && blends(blend, x, yz, r));
        },
        (
            ColorTransform::Delta(x),
            ColorTransform::Delta(y),
            ColorTransform::Delta(z),
            ColorTransform::Delta(xy),
            ColorTransform::Delta(yz),
            ColorTransform::Delta(l),
            ColorTransform::Delta(r),
        ) => {
            assert(blends(blend, x, y, xy) && blends(blend, xy, z, l) && blends(blend, y, z, yz)
                && blends(blend, x, yz, r));
        },
        (_, ColorTransform::Override(y), ColorTransform::Delta(z), _, ColorTransform::Override(yz), _, _) => {
            assert(ab == ColorTransform::Override(y));
            match (left, right) {
                (ColorTransform::Override(l), ColorTransform::Override(r)) => {
                    assert(blends(blend, y, z, l) && blends(blend, y, z, r));
                },
                _ => {},
            }
        },
        _ => {},
    }
}

} // verus!
