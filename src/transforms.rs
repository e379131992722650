//! Transform sets: the branches one invocation fans out into, built by replication,
//! chaining and cross products. Composition is a caller's function `compose(outer, inner)`:
//! `inner` applies to a point first, `outer` second.
use vstd::prelude::*;

use crate::color::{
    blend_associative, blend_total, color_composes, lemma_color_compose_associative, resolves,
    ColorTransform,
};

verus! {

/// The transforms that one `push` invokes a child with.
pub enum TransformArgument<T> {
    /// One invocation, under one transform.
    Single(T),
    /// One invocation per transform, in order.
    Many(Vec<T>),
}

impl<T: Copy> TransformArgument<T> {
    /// The branches of this argument, in order.
    pub open spec fn branches(&self) -> Seq<T> {
        match self {
            TransformArgument::Single(t) => seq![*t],
            TransformArgument::Many(ts) => ts@,
        }
    }

    /// The branches of this argument as a vector: one for `Single`, all of them for `Many`.
    pub fn into_vec(self) -> (r: Vec<T>)
        ensures
            r@ == self.branches(),
    {
        match self {
            TransformArgument::Single(t) => {
                let mut v: Vec<T> = Vec::new();
                v.push(t);
                v
            },
            TransformArgument::Many(ts) => ts,
        }
    }

    /// No transform stands for no branch: `push` then invokes its child once, untransformed.
    pub fn from_option(t: Option<T>) -> (r: Self)
        ensures
            match t {
                Some(x) => r == TransformArgument::Single(x),
                None => r is Many && r.branches().len() == 0,
            },
    {
        match t {
            Some(x) => TransformArgument::Single(x),
            None => TransformArgument::Many(Vec::new()),
        }
    }
}

/// `r` is what `compose` may return for `outer` applied around `inner`.
pub open spec fn composes<T, F: Fn(T, T) -> T>(compose: F, outer: T, inner: T, r: T) -> bool {
    compose.ensures((outer, inner), r)
}

/// `compose` can be called on any two transforms.
pub open spec fn total<T, F: Fn(T, T) -> T>(compose: F) -> bool {
    forall|a: T, b: T| #[trigger] compose.requires((a, b))
}

/// `r` is the cross product of `parents` and `children`: parent-major order, each entry
/// the parent composed around the child.
pub open spec fn is_cross<T, F: Fn(T, T) -> T>(
    compose: F,
    parents: Seq<T>,
    children: Seq<T>,
    r: Seq<T>,
) -> bool {
    &&& r.len() == parents.len() * children.len()
    &&& forall|i: int, j: int|
        0 <= i < parents.len() && 0 <= j < children.len() ==> #[trigger] composes(
            compose,
            parents[i],
            children[j],
            r[i * children.len() + j],
        )
}

proof fn lemma_row_index(a: int, b: int, rows: int, width: int)
    requires
        0 <= a < rows,
        0 <= b < width,
    ensures
        0 <= a * width + b < rows * width,
        a * width + b < (a + 1) * width,
{
    lemma_next_row(a, width);
    assert(0 <= a * width + b < rows * width) by (nonlinear_arith)
        requires
            0 <= a < rows,
            0 <= b < width,
    ;
}

proof fn lemma_next_row(a: int, width: int)
    ensures
        (a + 1) * width == a * width + width,
{
    assert((a + 1) * width == a * width + width) by (nonlinear_arith);
}

/// Entry `k` of a cross product composes parent `k / w` around child `k % w`, where `w`
/// is the number of children.
pub proof fn lemma_cross_at<T, F: Fn(T, T) -> T>(
    compose: F,
    parents: Seq<T>,
    children: Seq<T>,
    r: Seq<T>,
    k: int,
)
    requires
        is_cross(compose, parents, children, r),
        0 <= k < r.len(),
    ensures
        children.len() > 0,
        0 <= k / (children.len() as int) < parents.len(),
        composes(
            compose,
            parents[k / (children.len() as int)],
            children[k % (children.len() as int)],
            r[k],
        ),
{
    let w = children.len() as int;
    if w == 0 {
        assert(r.len() == parents.len() * 0);
        assert(false);
    }
    let i = k / w;
    let j = k % w;
    vstd::arithmetic::div_mod::lemma_fundamental_div_mod(k, w);
    vstd::arithmetic::div_mod::lemma_mod_pos_bound(k, w);
    assert(0 <= i) by {
        vstd::arithmetic::div_mod::lemma_div_pos_is_pos(k, w);
    }
    assert(i < parents.len()) by {
        if i >= parents.len() {
            assert(i * w >= parents.len() * w) by (nonlinear_arith)
                requires
                    i >= parents.len(),
                    w > 0,
            ;
        }
    }
    assert(k == i * w + j) by (nonlinear_arith)
        requires
            k == w * i + j,
    ;
    assert(composes(compose, parents[i], children[j], r[i * w + j]));
}

/// Multiplicatively branches transforms: every parent composed around every child.
pub fn cross<T: Copy, F: Fn(T, T) -> T>(parents: &Vec<T>, children: &Vec<T>, compose: &F) -> (r:
    Vec<T>)
    requires
        total(*compose),
        parents.len() * children.len() <= usize::MAX,
    ensures
        is_cross(*compose, parents@, children@, r@),
{
    let mut emitted: Vec<T> = Vec::new();
    let mut i: usize = 0;
    while i < parents.len()
        invariant
            total(*compose),
            i <= parents.len(),
            emitted.len() == i * children.len(),
            forall|a: int, b: int|
                0 <= a < i && 0 <= b < children.len() ==> #[trigger] composes(
                    *compose,
                    parents[a],
                    children[b],
                    emitted@[a * children.len() + b],
                ),
        decreases parents.len() - i,
    {
        let mut j: usize = 0;
        while j < children.len()
            invariant
                total(*compose),
                i < parents.len(),
                j <= children.len(),
                emitted.len() == i * children.len() + j,
                forall|a: int, b: int|
                    0 <= a < i && 0 <= b < children.len() ==> #[trigger] composes(
                        *compose,
                        parents[a],
                        children[b],
                        emitted@[a * children.len() + b],
                    ),
                forall|b: int|
                    0 <= b < j ==> #[trigger] composes(
                        *compose,
                        parents[i as int],
                        children[b],
                        emitted@[i * children.len() + b],
                    ),
            decreases children.len() - j,
        {
            let c = compose(parents[i], children[j]);
            let ghost before = emitted@;
            emitted.push(c);
            proof {
                assert forall|a: int, b: int|
                    0 <= a < i && 0 <= b < children.len() implies #[trigger] composes(
                        *compose,
                        parents[a],
                        children[b],
                        emitted@[a * children.len() + b],
                    ) by {
                    lemma_row_index(a, b, i as int, children.len() as int);
                    assert(emitted@[a * children.len() + b] == before[a * children.len() + b]);
                }
            }
            j += 1;
        }
        proof {
            lemma_next_row(i as int, children.len() as int);
            assert forall|a: int, b: int|
                0 <= a < i + 1 && 0 <= b < children.len() implies #[trigger] composes(
                    *compose,
                    parents[a],
                    children[b],
                    emitted@[a * children.len() + b],
                ) by {
                if a == i {
                } else {
                    lemma_row_index(a, b, i as int, children.len() as int);
                }
            }
        }
        i += 1;
    }
    emitted
}

} // verus!

verus! {

/// `r` holds `t` applied 1, 2, ..., `r.len()` times: `r[0]` is `t`, and each later entry is
/// the one before composed around another `t`.
pub open spec fn is_powers<T, F: Fn(T, T) -> T>(compose: F, t: T, r: Seq<T>) -> bool {
    &&& r.len() > 0 ==> r[0] == t
    &&& forall|k: int| 0 < k < r.len() ==> #[trigger] composes(compose, r[k - 1], t, r[k])
}

/// `r` holds, for each source transform in turn, its `n` powers (see `is_powers`).
pub open spec fn is_replication<T, F: Fn(T, T) -> T>(
    compose: F,
    sources: Seq<T>,
    n: nat,
    r: Seq<T>,
) -> bool {
    &&& r.len() == sources.len() * n
    &&& forall|a: int|
        0 <= a < sources.len() ==> #[trigger] is_powers(
            compose,
            sources[a],
            r.subrange(a * n, a * n + n),
        )
}

/// Replicates a transform (or each of several) `n` times.
pub struct Replicate<T> {
    pub n: usize,
    pub source: TransformArgument<T>,
}

impl<T: Copy> Replicate<T> {
    /// `n` branches of `source`, the k-th applying it k times.
    pub fn n(n: usize, source: TransformArgument<T>) -> (r: Self)
        ensures
            r.n == n,
            r.source == source,
    {
        Replicate { n, source }
    }

    /// The branches: for each source transform, itself stacked 1 through `n` times.
    pub fn into_argument<F: Fn(T, T) -> T>(self, compose: &F) -> (r: TransformArgument<T>)
        requires
            total(*compose),
            self.source.branches().len() * self.n <= usize::MAX,
        ensures
            r is Many,
            self.source is Single ==> r.branches().len() == self.n,
            is_replication(*compose, self.source.branches(), self.n as nat, r.branches()),
    {
        let n = self.n;
        let sources = self.source.into_vec();
        assert(1 * n == n);
        TransformArgument::Many(replicate_each(&sources, n, compose))
    }
}

fn replicate_each<T: Copy, F: Fn(T, T) -> T>(sources: &Vec<T>, n: usize, compose: &F) -> (r: Vec<T>)
    requires
        total(*compose),
        sources.len() * n <= usize::MAX,
    ensures
        is_replication(*compose, sources@, n as nat, r@),
{
    let mut emitted: Vec<T> = Vec::new();
    let mut a: usize = 0;
    while a < sources.len()
        invariant
            total(*compose),
            sources.len() * n <= usize::MAX,
            a <= sources.len(),
            emitted.len() == a * n,
            forall|b: int|
                0 <= b < a ==> #[trigger] is_powers(
                    *compose,
                    sources[b],
                    emitted@.subrange(b * n, b * n + n),
                ),
        decreases sources.len() - a,
    {
        let t = sources[a];
        let ghost start = emitted.len();
        proof {
            lemma_next_row(a as int, n as int);
            assert((a + 1) * n <= sources.len() * n) by (nonlinear_arith)
                requires
                    a < sources.len(),
            ;
        }
        let mut k: usize = 0;
        let mut power = t;
        while k < n
            invariant
                total(*compose),
                a < sources.len(),
                t == sources[a as int],
                start == a * n,
                (a + 1) * n <= usize::MAX,
                (a + 1) * n == a * n + n,
                k <= n,
                emitted.len() == start + k,
                k > 0 ==> emitted@[start + k - 1] == power,
                k == 0 ==> power == t,
                is_powers(*compose, t, emitted@.subrange(start as int, start + k)),
                forall|b: int|
                    0 <= b < a ==> #[trigger] is_powers(
                        *compose,
                        sources[b],
                        emitted@.subrange(b * n, b * n + n),
                    ),
            decreases n - k,
        {
            let ghost before = emitted@;
            let ghost old_power = power;
            if k > 0 {
                power = compose(power, t);
            }
            emitted.push(power);
            proof {
                assert forall|b: int| 0 <= b < a implies #[trigger] is_powers(
                    *compose,
                    sources[b],
                    emitted@.subrange(b * n, b * n + n),
                ) by {
                    lemma_row_index(b, 0, a as int, n as int);
                    lemma_next_row(b, n as int);
                    assert(b * n + n <= a * n) by (nonlinear_arith)
                        requires
                            b < a,
                    ;
                    assert(emitted@.subrange(b * n, b * n + n) =~= before.subrange(
                        b * n,
                        b * n + n,
                    ));
                }
                let cur = emitted@.subrange(start as int, start + k + 1);
                let prev = before.subrange(start as int, start + k);
                assert(cur[0] == t);
                assert forall|j: int| 0 < j < cur.len() implies #[trigger] composes(
                    *compose,
                    cur[j - 1],
                    t,
                    cur[j],
                ) by {
                    if j < k {
                        assert(cur[j] == prev[j]);
                        if j > 0 {
                            assert(cur[j - 1] == prev[j - 1]);
                            assert(composes(*compose, prev[j - 1], t, prev[j]));
                        }
                    } else if j > 0 {
                        assert(cur[j - 1] == before[start + k - 1]);
                        assert(cur[j - 1] == old_power);
                        assert(composes(*compose, old_power, t, power));
                    }
                }
            }
            k += 1;
        }
        assert(emitted@.subrange(a * n, a * n + n) =~= emitted@.subrange(
            start as int,
            start + n,
        ));
        a += 1;
    }
    emitted
}

} // verus!

verus! {

/// `steps` walks a chain: it starts at `init`, and each step composes the one before
/// around the next transform of `ts`.
pub open spec fn is_chain_steps<T, F: Fn(T, T) -> T>(
    compose: F,
    init: T,
    ts: Seq<T>,
    steps: Seq<T>,
) -> bool {
    &&& steps.len() == ts.len() + 1
    &&& steps[0] == init
    &&& forall|k: int|
        0 <= k < ts.len() ==> #[trigger] composes(compose, steps[k], ts[k], steps[k + 1])
}

/// `r` is `init` with the transforms of `ts` applied inside it one after another.
pub open spec fn is_chain<T, F: Fn(T, T) -> T>(compose: F, init: T, ts: Seq<T>, r: T) -> bool {
    exists|steps: Seq<T>| #[trigger]
        is_chain_steps(compose, init, ts, steps) && r == steps.last()
}

/// Folds a sequence of transforms into one, starting from `default` or else `identity`.
pub fn coalesce<T: Copy, F: Fn(T, T) -> T>(
    default: Option<T>,
    source: &Vec<T>,
    identity: T,
    compose: &F,
) -> (r: T)
    requires
        total(*compose),
    ensures
        is_chain(
            *compose,
            match default {
                Some(d) => d,
                None => identity,
            },
            source@,
            r,
        ),
{
    let mut acc = match default {
        Some(d) => d,
        None => identity,
    };
    let ghost mut steps: Seq<T> = seq![acc];
    let mut i: usize = 0;
    while i < source.len()
        invariant
            total(*compose),
            i <= source.len(),
            is_chain_steps(*compose, steps[0], source@.take(i as int), steps),
            steps[0] == (match default {
                Some(d) => d,
                None => identity,
            }),
            acc == steps.last(),
        decreases source.len() - i,
    {
        let ghost old_steps = steps;
        acc = compose(acc, source[i]);
        proof {
            steps = steps.push(acc);
            assert forall|k: int| 0 <= k < i + 1 implies #[trigger] composes(
                *compose,
                steps[k],
                source@.take(i + 1)[k],
                steps[k + 1],
            ) by {
                if k < i {
                    assert(source@.take(i + 1)[k] == source@.take(i as int)[k]);
                    assert(composes(*compose, old_steps[k], source@.take(i as int)[k], old_steps[k + 1]));
                }
            }
        }
        i += 1;
    }
    assert(source@.take(i as int) =~= source@);
    assert(is_chain_steps(*compose, steps[0], source@, steps));
    acc
}

impl<T: Copy> TransformArgument<T> {
    /// A sequence of transforms applied one inside the other, as one branch.
    pub fn from_chain<F: Fn(T, T) -> T>(ts: &Vec<T>, identity: T, compose: &F) -> (r: Self)
        requires
            total(*compose),
        ensures
            r matches TransformArgument::Single(t) && is_chain(*compose, identity, ts@, t),
    {
        TransformArgument::Single(coalesce(None, ts, identity, compose))
    }
}

} // verus!

verus! {

/// The branch lists of a sequence of stages.
pub open spec fn stage_branches<T: Copy>(args: Seq<TransformArgument<T>>) -> Seq<Seq<T>> {
    args.map_values(|a: TransformArgument<T>| a.branches())
}

/// The number of combinations of one branch from each stage.
pub open spec fn combinations<T>(stages: Seq<Seq<T>>) -> nat
    decreases stages.len(),
{
    if stages.len() == 0 {
        1
    } else {
        combinations(stages.drop_last()) * stages.last().len()
    }
}

/// `levels` builds a product stage by stage: it starts with `identity` alone, and each
/// level is the one before crossed with the next stage.
pub open spec fn is_product_levels<T, F: Fn(T, T) -> T>(
    compose: F,
    identity: T,
    stages: Seq<Seq<T>>,
    levels: Seq<Seq<T>>,
) -> bool {
    &&& levels.len() == stages.len() + 1
    &&& levels[0] == seq![identity]
    &&& forall|k: int|
        0 <= k < stages.len() ==> #[trigger] is_cross(compose, levels[k], stages[k], levels[k + 1])
}

/// `r` is the product of the stages in order: every combination of one branch from each
/// stage, composed outermost-first, the first stage varying slowest.
pub open spec fn is_product<T, F: Fn(T, T) -> T>(
    compose: F,
    identity: T,
    stages: Seq<Seq<T>>,
    r: Seq<T>,
) -> bool {
    exists|levels: Seq<Seq<T>>| #[trigger]
        is_product_levels(compose, identity, stages, levels) && r == levels.last()
}

proof fn lemma_levels_len<T, F: Fn(T, T) -> T>(
    compose: F,
    identity: T,
    stages: Seq<Seq<T>>,
    levels: Seq<Seq<T>>,
    k: int,
)
    requires
        is_product_levels(compose, identity, stages, levels),
        0 <= k <= stages.len(),
    ensures
        levels[k].len() == combinations(stages.take(k)),
    decreases k,
{
    if k > 0 {
        lemma_levels_len(compose, identity, stages, levels, k - 1);
        assert(stages.take(k).drop_last() =~= stages.take(k - 1));
        let j = k - 1;
        assert(is_cross(compose, levels[j], stages[j], levels[j + 1]));
        assert(stages.take(k).last() == stages[j]);
    }
}

/// A product of stages has one entry per combination of branches.
pub proof fn lemma_product_len<T, F: Fn(T, T) -> T>(
    compose: F,
    identity: T,
    stages: Seq<Seq<T>>,
    r: Seq<T>,
)
    requires
        is_product(compose, identity, stages, r),
    ensures
        r.len() == combinations(stages),
{
    let levels = choose|levels: Seq<Seq<T>>|
        #[trigger] is_product_levels(compose, identity, stages, levels) && r == levels.last();
    lemma_levels_len(compose, identity, stages, levels, stages.len() as int);
    assert(stages.take(stages.len() as int) =~= stages);
}

impl<T: Copy> TransformArgument<T> {
    /// Applies the stages one inside the other: every combination of one branch from each
    /// stage, the first stage varying slowest.
    pub fn from_stages<F: Fn(T, T) -> T>(
        args: &Vec<TransformArgument<T>>,
        identity: T,
        compose: &F,
    ) -> (r: Self)
        requires
            total(*compose),
            forall|k: int|
                0 <= k <= args.len() ==> #[trigger] combinations(
                    stage_branches(args@).take(k),
                ) <= usize::MAX,
        ensures
            r is Many,
            is_product(*compose, identity, stage_branches(args@), r.branches()),
            r.branches().len() == combinations(stage_branches(args@)),
    {
        let ghost stages = stage_branches(args@);
        let mut emitted: Vec<T> = Vec::new();
        emitted.push(identity);
        let ghost mut levels: Seq<Seq<T>> = seq![emitted@];
        let mut i: usize = 0;
        while i < args.len()
            invariant
                total(*compose),
                stages == stage_branches(args@),
                i <= args.len(),
                forall|k: int|
                    0 <= k <= args.len() ==> #[trigger] combinations(
                        stage_branches(args@).take(k),
                    ) <= usize::MAX,
                is_product_levels(*compose, identity, stages.take(i as int), levels),
                emitted@ == levels.last(),
            decreases args.len() - i,
        {
            proof {
                lemma_levels_len(*compose, identity, stages.take(i as int), levels, i as int);
                assert(stages.take(i as int).take(i as int) =~= stages.take(i as int));
                assert(stages.take(i + 1).drop_last() =~= stages.take(i as int));
                assert(stages[i as int] == args@[i as int].branches());
                assert(combinations(stages.take(i + 1)) <= usize::MAX);
            }
            let next = match &args[i] {
                TransformArgument::Single(t) => {
                    let mut one: Vec<T> = Vec::new();
                    one.push(*t);
                    assert(one@ =~= args@[i as int].branches());
                    cross(&emitted, &one, compose)
                },
                TransformArgument::Many(ts) => cross(&emitted, ts, compose),
            };
            proof {
                let old_levels = levels;
                levels = levels.push(next@);
                assert forall|k: int| 0 <= k < i + 1 implies #[trigger] is_cross(
                    *compose,
                    levels[k],
                    stages.take(i + 1)[k],
                    levels[k + 1],
                ) by {
                    if k < i {
                        assert(stages.take(i + 1)[k] == stages.take(i as int)[k]);
                        assert(is_cross(*compose, old_levels[k], stages.take(i as int)[k], old_levels[k + 1]));
                    }
                }
            }
            emitted = next;
            i += 1;
        }
        assert(stages.take(args.len() as int) =~= stages);
        proof {
            lemma_product_len(*compose, identity, stages, emitted@);
        }
        TransformArgument::Many(emitted)
    }
}

} // verus!

verus! {

/// The number of branches that `from_branchings` makes of the stages: none for no stage,
/// else the product of the stage sizes.
pub open spec fn branch_count<T>(stages: Seq<Seq<T>>) -> nat {
    if stages.len() == 0 {
        0
    } else {
        combinations(stages)
    }
}

/// `levels` builds a branching stage by stage: it starts empty, the first stage stands
/// alone, and each later stage is crossed with the level before.
pub open spec fn is_branching_levels<T, F: Fn(T, T) -> T>(
    compose: F,
    stages: Seq<Seq<T>>,
    levels: Seq<Seq<T>>,
) -> bool {
    &&& levels.len() == stages.len() + 1
    &&& levels[0].len() == 0
    &&& stages.len() > 0 ==> levels[1] == stages[0]
    &&& forall|k: int|
        1 <= k < stages.len() ==> #[trigger] is_cross(compose, levels[k], stages[k], levels[k + 1])
}

/// `r` is the branching of the stages (see `is_branching_levels`).
pub open spec fn is_branching<T, F: Fn(T, T) -> T>(
    compose: F,
    stages: Seq<Seq<T>>,
    r: Seq<T>,
) -> bool {
    exists|levels: Seq<Seq<T>>| #[trigger]
        is_branching_levels(compose, stages, levels) && r == levels.last()
}

proof fn lemma_branching_len<T, F: Fn(T, T) -> T>(
    compose: F,
    stages: Seq<Seq<T>>,
    levels: Seq<Seq<T>>,
    k: int,
)
    requires
        is_branching_levels(compose, stages, levels),
        0 <= k <= stages.len(),
    ensures
        levels[k].len() == branch_count(stages.take(k)),
    decreases k,
{
    if k == 1 {
        assert(stages.take(1).drop_last() =~= Seq::<Seq<T>>::empty());
        assert(stages.take(1).last() == stages[0]);
        assert(combinations(Seq::<Seq<T>>::empty()) == 1);
        assert(combinations(stages.take(1)) == 1 * stages[0].len());
    } else if k > 1 {
        lemma_branching_len(compose, stages, levels, k - 1);
        assert(stages.take(k).drop_last() =~= stages.take(k - 1));
        let j = k - 1;
        assert(is_cross(compose, levels[j], stages[j], levels[j + 1]));
        assert(stages.take(k).last() == stages[j]);
        assert(stages.take(k - 1).len() > 0);
        assert(branch_count(stages.take(k - 1)) == combinations(stages.take(k - 1)));
        assert(combinations(stages.take(k)) == combinations(stages.take(k - 1)) * stages[j].len());
    }
}

impl<T: Copy> TransformArgument<T> {
    /// Multiplies independent branchings (the results of several `Replicate`s): every
    /// combination of one branch from each stage, the first varying slowest. A stage with
    /// no branch leaves none; no stage at all gives none either.
    pub fn from_branchings<F: Fn(T, T) -> T>(args: &Vec<TransformArgument<T>>, compose: &F) -> (r:
        Self)
        requires
            total(*compose),
            forall|k: int|
                0 <= k <= args.len() ==> #[trigger] branch_count(
                    stage_branches(args@).take(k),
                ) <= usize::MAX,
        ensures
            r is Many,
            is_branching(*compose, stage_branches(args@), r.branches()),
            r.branches().len() == branch_count(stage_branches(args@)),
            args.len() > 0 ==> r.branches().len() == combinations(stage_branches(args@)),
    {
        let ghost stages = stage_branches(args@);
        let mut emitted: Vec<T> = Vec::new();
        let ghost mut levels: Seq<Seq<T>> = seq![emitted@];
        let mut i: usize = 0;
        while i < args.len()
            invariant
                total(*compose),
                stages == stage_branches(args@),
                i <= args.len(),
                forall|k: int|
                    0 <= k <= args.len() ==> #[trigger] branch_count(
                        stage_branches(args@).take(k),
                    ) <= usize::MAX,
                is_branching_levels(*compose, stages.take(i as int), levels),
                emitted@ == levels.last(),
            decreases args.len() - i,
        {
            proof {
                lemma_branching_len(*compose, stages.take(i as int), levels, i as int);
                assert(stages.take(i as int).take(i as int) =~= stages.take(i as int));
                assert(stages.take(i + 1).drop_last() =~= stages.take(i as int));
                assert(stages[i as int] == args@[i as int].branches());
                assert(branch_count(stages.take(i + 1)) <= usize::MAX);
            }
            let mut stage: Vec<T> = Vec::new();
            match &args[i] {
                TransformArgument::Single(t) => {
                    stage.push(*t);
                },
                TransformArgument::Many(ts) => {
                    let mut j: usize = 0;
                    while j < ts.len()
                        invariant
                            j <= ts.len(),
                            stage@ == ts@.take(j as int),
                        decreases ts.len() - j,
                    {
                        stage.push(ts[j]);
                        j += 1;
                        assert(stage@ =~= ts@.take(j as int));
                    }
                    assert(ts@.take(j as int) =~= ts@);
                },
            }
            assert(stage@ =~= args@[i as int].branches());
            let next = if i == 0 {
                stage
            } else {
                cross(&emitted, &stage, compose)
            };
            proof {
                let old_levels = levels;
                levels = levels.push(next@);
                assert forall|k: int| 1 <= k < i + 1 implies #[trigger] is_cross(
                    *compose,
                    levels[k],
                    stages.take(i + 1)[k],
                    levels[k + 1],
                ) by {
                    if k < i {
                        assert(stages.take(i + 1)[k] == stages.take(i as int)[k]);
                        assert(is_cross(*compose, old_levels[k], stages.take(i as int)[k], old_levels[k + 1]));
                    }
                }
            }
            emitted = next;
            i += 1;
        }
        assert(stages.take(args.len() as int) =~= stages);
        proof {
            lemma_branching_len(*compose, stages, levels, args.len() as int);
        }
        TransformArgument::Many(emitted)
    }
}

} // verus!

verus! {

/// A transform: a spatial map (a homogeneous matrix `S`) and a colour operator over colours
/// `C`. Composition multiplies the matrices (the inner one applies to a point first) and
/// composes the colour operators.
#[derive(Clone, Copy, Debug)]
pub struct Transform<S, C> {
    pub spatial: S,
    pub color: ColorTransform<C>,
}

/// `r` is `outer` composed around `inner`, with `matmul` the matrix product and `blend` the
/// colour adjustment.
pub open spec fn transform_composes<S, C, M: Fn(S, S) -> S, B: Fn(C, C) -> C>(
    matmul: M,
    blend: B,
    outer: Transform<S, C>,
    inner: Transform<S, C>,
    r: Transform<S, C>,
) -> bool {
    &&& matmul.ensures((outer.spatial, inner.spatial), r.spatial)
    &&& color_composes(blend, outer.color, inner.color, r.color)
}

impl<S: Copy, C: Copy> Transform<S, C> {
    /// A transform from its two parts.
    pub fn new(spatial: S, color: ColorTransform<C>) -> (r: Self)
        ensures
            r.spatial == spatial,
            r.color == color,
    {
        Transform { spatial, color }
    }

    /// This transform composed around `other`, which stands nearer the leaf.
    pub fn cons<M: Fn(S, S) -> S, B: Fn(C, C) -> C>(self, other: Self, matmul: &M, blend: &B) -> (r:
        Self)
        requires
            forall|a: S, b: S| #[trigger] matmul.requires((a, b)),
            blend_total(*blend),
        ensures
            transform_composes(*matmul, *blend, self, other, r),
    {
        Transform { spatial: matmul(self.spatial, other.spatial), color: self.color.cons(other.color, blend) }
    }

    /// The absolute colour this transform gives: its colour operator applied below an
    /// override of `base`.
    pub fn get_color<B: Fn(C, C) -> C>(self, base: C, blend: &B) -> (r: C)
        requires
            blend_total(*blend),
        ensures
            exists|op: ColorTransform<C>|
                color_composes(*blend, ColorTransform::Override(base), self.color, op)
                    && #[trigger] resolves(*blend, base, op, r),
    {
        let op = ColorTransform::Override(base).cons(self.color, blend);
        let r = op.color(base, blend);
        assert(resolves(*blend, base, op, r));
        r
    }
}

} // verus!

verus! {

/// Branch `k` of a replication is the source applied `k + 1` times: the source with `k`
/// more copies of it composed inside, one after another.
pub proof fn lemma_power_is_chain<T, F: Fn(T, T) -> T>(compose: F, t: T, r: Seq<T>, k: int)
    requires
        is_powers(compose, t, r),
        0 <= k < r.len(),
    ensures
        is_chain(compose, t, Seq::new(k as nat, |i: int| t), r[k]),
{
    let copies = Seq::new(k as nat, |i: int| t);
    let steps = r.take(k + 1);
    assert forall|i: int| 0 <= i < copies.len() implies #[trigger] composes(
        compose,
        steps[i],
        copies[i],
        steps[i + 1],
    ) by {
        let j = i + 1;
        assert(composes(compose, r[j - 1], t, r[j]));
    }
    assert(is_chain_steps(compose, t, copies, steps));
}

/// Two branchings together give one branch per pair of their branches.
pub proof fn lemma_two_stage_count<T>(first: Seq<T>, second: Seq<T>)
    ensures
        branch_count(seq![first, second]) == first.len() * second.len(),
{
    let stages = seq![first, second];
    assert(stages.drop_last() =~= seq![first]);
    assert(stages.drop_last().drop_last() =~= Seq::<Seq<T>>::empty());
    assert(combinations(Seq::<Seq<T>>::empty()) == 1);
    assert(combinations(seq![first]) == first.len());
    assert(stages.last() == second);
}

/// `matmul` gives one result for each pair of matrices, and is associative.
pub open spec fn matmul_associative<S, M: Fn(S, S) -> S>(matmul: M) -> bool {
    &&& forall|a: S, b: S, r1: S, r2: S|
        #[trigger] matmul.ensures((a, b), r1) && #[trigger] matmul.ensures((a, b), r2) ==> r1
            == r2
    &&& forall|a: S, b: S, c: S, ab: S, bc: S, l: S, r: S|
        #[trigger] matmul.ensures((a, b), ab) && #[trigger] matmul.ensures((ab, c), l)
            && #[trigger] matmul.ensures((b, c), bc) && #[trigger] matmul.ensures((a, bc), r)
            ==> l == r
}

/// Composing transforms is associative whenever the matrix product and the colour
/// adjustment are: `(a . b) . c` and `a . (b . c)` are the same transform.
pub proof fn lemma_compose_associative<S, C, M: Fn(S, S) -> S, B: Fn(C, C) -> C>(
    matmul: M,
    blend: B,
    a: Transform<S, C>,
    b: Transform<S, C>,
    c: Transform<S, C>,
    ab: Transform<S, C>,
    left: Transform<S, C>,
    bc: Transform<S, C>,
    right: Transform<S, C>,
)
    requires
        matmul_associative(matmul),
        blend_associative(blend),
        transform_composes(matmul, blend, a, b, ab),
        transform_composes(matmul, blend, ab, c, left),
        transform_composes(matmul, blend, b, c, bc),
        transform_composes(matmul, blend, a, bc, right),
    ensures
        left == right,
{
    lemma_color_compose_associative(blend, a.color, b.color, c.color, ab.color, left.color, bc.color, right.color);
    assert(matmul.ensures((a.spatial, b.spatial), ab.spatial) && matmul.ensures(
        (ab.spatial, c.spatial),
        left.spatial,
    ) && matmul.ensures((b.spatial, c.spatial), bc.spatial) && matmul.ensures(
        (a.spatial, bc.spatial),
        right.spatial,
    ));
}

} // verus!
