//! Rules, and the worklist engine that expands them into placed meshes.
use vstd::prelude::*;

use crate::mesh::{apply_total, is_moved, move_points, Mesh, OutputMeshSource, PrimitiveMesh, Primitives};
use crate::transforms::{composes, total, TransformArgument};
use std::rc::Rc;

verus! {

/// A value that expands to a rule each time the engine reaches it. The result is not kept:
/// every visit asks again, so an expansion may differ from the last (a random choice, a
/// depth counter carried in the value).
pub trait ToRule<T, V>: Sized {
    /// `r` is a rule this value may expand to. An implementation whose expansion is known
    /// states it here; by default any rule may come.
    open spec fn produces(&self, r: Rule<T, V, Self>) -> bool {
        true
    }

    fn to_rule(&self) -> (r: Rule<T, V, Self>)
        ensures
            self.produces(r),
    ;
}

/// What an invocation places: a mesh, a fixed rule, or a producer of rules.
pub enum Node<T, V, P> {
    Mesh(OutputMeshSource<V>),
    Rule(Rc<Rule<T, V, P>>),
    Producer(Rc<P>),
}

impl<T, V, P> Node<T, V, P> {
    /// Another handle to the same child; nothing behind it is copied.
    pub fn share(&self) -> (r: Self)
        ensures
            r == *self,
    {
        match self {
            Node::Mesh(m) => Node::Mesh(m.share()),
            Node::Rule(r) => Node::Rule(Rc::clone(r)),
            Node::Producer(p) => Node::Producer(Rc::clone(p)),
        }
    }
}

/// One entry of a rule: a child, placed under an optional local transform.
pub struct Invocation<T, V, P> {
    pub transform: Option<T>,
    pub child: Node<T, V, P>,
}

/// A composition of subrules to expand until meshes are generated.
pub struct Rule<T, V, P> {
    invocations: Vec<Invocation<T, V, P>>,
}

impl<T, V, P> View for Rule<T, V, P> {
    type V = Seq<Invocation<T, V, P>>;

    closed spec fn view(&self) -> Seq<Invocation<T, V, P>> {
        self.invocations@
    }
}

/// The invocations that `push` appends for one child: one per branch, each under its
/// branch transform, or a single untransformed one where there is no branch.
pub open spec fn pushed<T, V, P>(branches: Seq<T>, child: Node<T, V, P>) -> Seq<
    Invocation<T, V, P>,
> {
    if branches.len() == 0 {
        seq![Invocation { transform: None, child }]
    } else {
        branches.map_values(|t: T| Invocation { transform: Some(t), child })
    }
}

impl<T: Copy, V, P> Rule<T, V, P> {
    /// A rule with no subrules.
    pub fn new() -> (r: Self)
        ensures
            r@ == Seq::<Invocation<T, V, P>>::empty(),
    {
        Rule { invocations: Vec::new() }
    }

    /// A rule that places one built-in mesh, untransformed.
    pub fn primitive(mesh: PrimitiveMesh) -> (r: Self)
        ensures
            r@ == seq![
                Invocation::<T, V, P> {
                    transform: None,
                    child: Node::Mesh(OutputMeshSource::Primitive(mesh)),
                },
            ],
    {
        let mut invocations: Vec<Invocation<T, V, P>> = Vec::new();
        invocations.push(
            Invocation { transform: None, child: Node::Mesh(OutputMeshSource::Primitive(mesh)) },
        );
        Rule { invocations }
    }

    /// A rule that places one caller-made mesh, untransformed.
    pub fn mesh(mesh: Rc<Mesh<V>>) -> (r: Self)
        ensures
            r@ == seq![
                Invocation::<T, V, P> {
                    transform: None,
                    child: Node::Mesh(OutputMeshSource::Dynamic(mesh)),
                },
            ],
    {
        let mut invocations: Vec<Invocation<T, V, P>> = Vec::new();
        invocations.push(
            Invocation { transform: None, child: Node::Mesh(OutputMeshSource::Dynamic(mesh)) },
        );
        Rule { invocations }
    }

    /// Adds a child, invoked once per branch of `transforms` (once, untransformed, if there
    /// is none). Every new invocation refers to the same child.
    pub fn push(self, transforms: TransformArgument<T>, child: Node<T, V, P>) -> (r: Self)
        ensures
            r@ == self@ + pushed(transforms.branches(), child),
    {
        let mut invocations = self.invocations;
        match transforms {
            TransformArgument::Single(t) => {
                invocations.push(Invocation { transform: Some(t), child });
            },
            TransformArgument::Many(ts) => {
                if ts.len() == 0 {
                    invocations.push(Invocation { transform: None, child });
                } else {
                    let ghost start = invocations@;
                    let mut i: usize = 0;
                    while i < ts.len()
                        invariant
                            i <= ts.len(),
                            invocations@ == start + ts@.take(i as int).map_values(
                                |t: T| Invocation { transform: Some(t), child },
                            ),
                        decreases ts.len() - i,
                    {
                        invocations.push(Invocation { transform: Some(ts[i]), child: child.share() });
                        i += 1;
                        assert(invocations@ =~= start + ts@.take(i as int).map_values(
                            |t: T| Invocation { transform: Some(t), child },
                        ));
                    }
                    assert(ts@.take(i as int) =~= ts@);
                }
            },
        }
        Rule { invocations }
    }
}

} // verus!

verus! {

/// A placed mesh: the transform accumulated from the root to this leaf (none where no
/// invocation on the path had one), and the shared mesh it places.
pub struct OutputMesh<T, V> {
    pub transform: Option<T>,
    pub source: OutputMeshSource<V>,
}

/// What one step of the engine did.
pub enum Step<T, V> {
    /// It reached a mesh.
    Mesh(OutputMesh<T, V>),
    /// It expanded a rule or a producer into the worklist.
    Expanded,
    /// The worklist was empty: the expansion is over.
    Done,
}

/// The transform of a child placed with `local` under an accumulated `parent`: the two
/// composed, or whichever of them there is.
pub open spec fn accumulates<T, F: Fn(T, T) -> T>(
    compose: F,
    parent: Option<T>,
    local: Option<T>,
    r: Option<T>,
) -> bool {
    match (parent, local) {
        (None, None) => r is None,
        (Some(p), None) => r == Some(p),
        (None, Some(c)) => r == Some(c),
        (Some(p), Some(c)) => r matches Some(x) && composes(compose, p, c, x),
    }
}

/// `entries` are the invocations of a rule placed under `parent`: the same children, in
/// the same order, each under its transform accumulated onto `parent`.
pub open spec fn is_expansion<T, V, P, F: Fn(T, T) -> T>(
    compose: F,
    parent: Option<T>,
    invocations: Seq<Invocation<T, V, P>>,
    entries: Seq<Invocation<T, V, P>>,
) -> bool {
    &&& entries.len() == invocations.len()
    &&& forall|i: int|
        0 <= i < entries.len() ==> #[trigger] entries[i].child == invocations[i].child
            && accumulates(compose, parent, invocations[i].transform, entries[i].transform)
}

/// One transition of the engine, from worklist `w` to worklist `next`, with result `r`:
/// with nothing pending it is done; else the last entry is popped, and a mesh is handed
/// back, or the invocations of a rule (a fixed one, or one that the producer gave) are
/// pushed, accumulated onto the popped entry's transform.
pub open spec fn is_step<T, V, P: ToRule<T, V>, F: Fn(T, T) -> T>(
    compose: F,
    w: Seq<Invocation<T, V, P>>,
    r: Step<T, V>,
    next: Seq<Invocation<T, V, P>>,
) -> bool {
    let rest = w.len() - 1;
    if w.len() == 0 {
        r is Done && next == w
    } else {
        match w.last().child {
            Node::Mesh(m) => r == Step::Mesh(OutputMesh { transform: w.last().transform, source: m })
                && next == w.drop_last(),
            Node::Rule(rule) => r is Expanded && next.take(rest) == w.drop_last() && is_expansion(
                compose,
                w.last().transform,
                rule@,
                next.skip(rest),
            ),
            Node::Producer(p) => r is Expanded && next.take(rest) == w.drop_last() && exists|
                rule: Rule<T, V, P>,
            |
                #[trigger] (*p).produces(rule) && is_expansion(
                    compose,
                    w.last().transform,
                    rule@,
                    next.skip(rest),
                ),
        }
    }
}

/// `ws` is a run of expanding steps: each worklist is the one before expanded once.
pub open spec fn is_expanding_run<T, V, P: ToRule<T, V>, F: Fn(T, T) -> T>(
    compose: F,
    ws: Seq<Seq<Invocation<T, V, P>>>,
) -> bool {
    &&& ws.len() >= 1
    &&& forall|k: int|
        0 <= k < ws.len() - 1 ==> #[trigger] is_step(compose, ws[k], Step::Expanded, ws[k + 1])
}

/// The expansion of a rule: a worklist of pending invocations, each carrying the transform
/// accumulated from the root. It is a stack, so the last pending entry is expanded first.
pub struct MeshIter<T, V, P> {
    rules: Vec<Invocation<T, V, P>>,
}

impl<T, V, P> View for MeshIter<T, V, P> {
    type V = Seq<Invocation<T, V, P>>;

    closed spec fn view(&self) -> Seq<Invocation<T, V, P>> {
        self.rules@
    }
}

impl<T: Copy, V, P> Rule<T, V, P> {
    /// Starts expanding this rule: a worklist that holds the rule alone, untransformed.
    /// Nothing is expanded until the engine is stepped.
    pub fn generate(self) -> (r: MeshIter<T, V, P>)
        ensures
            r@.len() == 1,
            r@[0].transform is None,
            r@[0].child matches Node::Rule(root) && *root == self,
    {
        let mut rules: Vec<Invocation<T, V, P>> = Vec::new();
        rules.push(Invocation { transform: None, child: Node::Rule(Rc::new(self)) });
        MeshIter { rules }
    }
}

impl<T, V, P> MeshIter<T, V, P> {
    /// The number of pending entries.
    pub fn pending(&self) -> (r: usize)
        ensures
            r == self@.len(),
    {
        self.rules.len()
    }
}

impl<T: Copy, V, P: ToRule<T, V>> MeshIter<T, V, P> {
    /// Pushes the invocations of `rule`, in order, each accumulated onto `parent`.
    pub fn expand<F: Fn(T, T) -> T>(&mut self, parent: Option<T>, rule: &Rule<T, V, P>, compose: &F)
        requires
            total(*compose),
        ensures
            final(self)@.len() == old(self)@.len() + rule@.len(),
            final(self)@.take(old(self)@.len() as int) == old(self)@,
            is_expansion(*compose, parent, rule@, final(self)@.skip(old(self)@.len() as int)),
    {
        let ghost start = self.rules@;
        let mut i: usize = 0;
        while i < rule.invocations.len()
            invariant
                total(*compose),
                i <= rule.invocations.len(),
                self.rules@.len() == start.len() + i,
                self.rules@.take(start.len() as int) == start,
                is_expansion(
                    *compose,
                    parent,
                    rule@.take(i as int),
                    self.rules@.skip(start.len() as int),
                ),
            decreases rule.invocations.len() - i,
        {
            let local = rule.invocations[i].transform;
            let transform = match (parent, local) {
                (None, None) => None,
                (Some(p), None) => Some(p),
                (None, Some(c)) => Some(c),
                (Some(p), Some(c)) => Some(compose(p, c)),
            };
            let ghost before = self.rules@;
            self.rules.push(Invocation { transform, child: rule.invocations[i].child.share() });
            proof {
                assert(self.rules@.take(start.len() as int) =~= before.take(start.len() as int));
                let entries = self.rules@.skip(start.len() as int);
                let invs = rule@.take(i + 1);
                assert forall|j: int| 0 <= j < entries.len() implies #[trigger] entries[j].child
                    == invs[j].child && accumulates(
                    *compose,
                    parent,
                    invs[j].transform,
                    entries[j].transform,
                ) by {
                    if j < i {
                        assert(entries[j] == before.skip(start.len() as int)[j]);
                        assert(invs[j] == rule@.take(i as int)[j]);
                    }
                }
            }
            i += 1;
        }
        assert(rule@.take(i as int) =~= rule@);
    }

    /// One transition of the engine: pops the last pending entry and either hands back the
    /// mesh it places, or pushes the invocations of the rule it stands for (a producer is
    /// asked for that rule afresh). Each step does work bounded by one rule, so any finite
    /// prefix of an infinite expansion can be taken.
    pub fn step<F: Fn(T, T) -> T>(&mut self, compose: &F) -> (r: Step<T, V>)
        requires
            total(*compose),
        ensures
            is_step(*compose, old(self)@, r, final(self)@),
    {
        match self.rules.pop() {
            None => Step::Done,
            Some(entry) => {
                let Invocation { transform, child } = entry;
                match child {
                    Node::Mesh(source) => Step::Mesh(OutputMesh { transform, source }),
                    Node::Rule(rule) => {
                        self.expand(transform, &*rule, compose);
                        Step::Expanded
                    },
                    Node::Producer(producer) => {
                        let rule = producer.to_rule();
                        self.expand(transform, &rule, compose);
                        Step::Expanded
                    },
                }
            },
        }
    }
    /// Steps until a mesh is reached or nothing is pending, taking at most `fuel` steps:
    /// the pull of a lazy expansion. `Expanded` means the fuel ran out first, with entries
    /// still pending; the walk then resumes where it stopped.
    pub fn pull<F: Fn(T, T) -> T>(&mut self, compose: &F, fuel: usize) -> (r: Step<T, V>)
        requires
            total(*compose),
        ensures
            exists|ws: Seq<Seq<Invocation<T, V, P>>>|
                #[trigger] is_expanding_run(*compose, ws) && ws[0] == old(self)@ && match r {
                    Step::Expanded => ws.len() - 1 == fuel && final(self)@ == ws.last(),
                    _ => ws.len() - 1 < fuel && is_step(*compose, ws.last(), r, final(self)@),
                },
    {
        let ghost mut ws: Seq<Seq<Invocation<T, V, P>>> = seq![self.rules@];
        let mut used: usize = 0;
        while used < fuel
            invariant
                total(*compose),
                used <= fuel,
                is_expanding_run(*compose, ws),
                ws.len() == used + 1,
                ws[0] == old(self)@,
                ws.last() == self@,
            decreases fuel - used,
        {
            let r = self.step(compose);
            match r {
                Step::Expanded => {
                    proof {
                        let old_ws = ws;
                        ws = ws.push(self.rules@);
                        assert forall|k: int| 0 <= k < ws.len() - 1 implies #[trigger] is_step(
                            *compose,
                            ws[k],
                            Step::Expanded,
                            ws[k + 1],
                        ) by {
                            if k < ws.len() - 2 {
                                assert(is_step(*compose, old_ws[k], Step::Expanded, old_ws[k + 1]));
                            }
                        }
                    }
                    used += 1;
                },
                _ => {
                    assert(is_step(*compose, ws.last(), r, self@));
                    return r;
                },
            }
        }
        Step::Expanded
    }
}

} // verus!

verus! {

impl<T: Copy, V: Copy> OutputMesh<T, V> {
    /// The geometry this output places.
    pub fn mesh<'a>(&'a self, table: &'a Primitives<V>) -> (r: &'a Mesh<V>)
        ensures
            *r == self.source.spec_mesh(*table),
    {
        self.source.mesh(table)
    }

    /// The mesh's vertices under the accumulated transform, computed here and not stored.
    pub fn vertices<A: Fn(T, V) -> V>(&self, table: &Primitives<V>, apply: &A) -> (r: Vec<V>)
        requires
            apply_total(*apply),
        ensures
            is_moved(*apply, self.transform, self.source.spec_mesh(*table).vertices@, r@),
    {
        move_points(self.transform, &self.mesh(table).vertices, apply)
    }

    /// The mesh's normals under the accumulated transform, where the mesh has normals.
    pub fn normals<A: Fn(T, V) -> V>(&self, table: &Primitives<V>, apply: &A) -> (r: Option<
        Vec<V>,
    >)
        requires
            apply_total(*apply),
        ensures
            match self.source.spec_mesh(*table).normals {
                None => r is None,
                Some(ns) => r matches Some(out) && is_moved(
                    *apply,
                    self.transform,
                    ns@,
                    out@,
                ),
            },
    {
        match &self.mesh(table).normals {
            None => None,
            Some(ns) => Some(move_points(self.transform, ns, apply)),
        }
    }

    /// The mesh's faces, unchanged: 1-based indices into this output's own vertices, which
    /// an exporter offsets past the vertices written before.
    pub fn faces<'a>(&'a self, table: &'a Primitives<V>) -> (r: &'a Vec<Vec<usize>>)
        ensures
            *r == self.source.spec_mesh(*table).faces,
    {
        &self.mesh(table).faces
    }
}

} // verus!
