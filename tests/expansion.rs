use immense::{
    Mesh, MeshIter, Node, OutputMesh, OutputMeshSource, PrimitiveMesh, Primitives, Rule, Step,
    ToRule, TransformArgument,
};
use std::cell::Cell;
use std::rc::Rc;

type Offset = (f32, f32, f32);
type Vertex = (f32, f32, f32);

fn add(a: Offset, b: Offset) -> Offset {
    (a.0 + b.0, a.1 + b.1, a.2 + b.2)
}

struct Fixed;

impl ToRule<Offset, Vertex> for Fixed {
    fn to_rule(&self) -> Rule<Offset, Vertex, Fixed> {
        Rule::new()
    }
}

fn unit_cube() -> Rc<Mesh<Vertex>> {
    Mesh::from(
        vec![
            (-0.5, 0.5, 0.5),
            (-0.5, -0.5, 0.5),
            (0.5, -0.5, 0.5),
            (0.5, 0.5, 0.5),
            (-0.5, 0.5, -0.5),
            (-0.5, -0.5, -0.5),
            (0.5, -0.5, -0.5),
            (0.5, 0.5, -0.5),
        ],
        None,
        vec![
            vec![1, 2, 3, 4],
            vec![8, 7, 6, 5],
            vec![4, 3, 7, 8],
            vec![5, 1, 4, 8],
            vec![5, 6, 2, 1],
            vec![2, 6, 7, 3],
        ],
    )
}

fn table() -> Primitives<Vertex> {
    Primitives {
        cube: unit_cube(),
        icosphere: Mesh::from(vec![(0.0, 0.0, 0.5)], Some(vec![(0.0, 0.0, 1.0)]), vec![]),
    }
}

fn drain<P: ToRule<Offset, Vertex>>(mut iter: MeshIter<Offset, Vertex, P>) -> Vec<OutputMesh<Offset, Vertex>> {
    let mut out = vec![];
    loop {
        match iter.step(&add) {
            Step::Mesh(m) => out.push(m),
            Step::Expanded => {}
            Step::Done => return out,
        }
    }
}

#[test]
fn three_translated_cubes_share_their_faces() {
    let cube = unit_cube();
    let rule: Rule<Offset, Vertex, Fixed> = Rule::new().push(
        TransformArgument::Many(vec![(0.0, 0.0, 0.0), (1.0, 0.0, 0.0), (2.0, 0.0, 0.0)]),
        Node::Mesh(OutputMeshSource::Dynamic(cube.clone())),
    );
    let table = table();
    let out = drain(rule.generate());
    assert_eq!(out.len(), 3);
    let mut shifts: Vec<f32> = vec![];
    for m in &out {
        let t = m.transform.expect("each placement is translated");
        shifts.push(t.0);
        let vertices = m.vertices(&table, &add);
        let expected: Vec<Vertex> = cube.vertices.iter().map(|v| add(t, *v)).collect();
        assert_eq!(vertices, expected);
        assert_eq!(m.faces(&table), &cube.faces);
        assert!(m.normals(&table, &add).is_none());
    }
    // The worklist is a stack: the last invocation pushed is expanded first.
    assert_eq!(shifts, vec![2.0, 1.0, 0.0]);
    assert_eq!(out[2].vertices(&table, &add)[0], (-0.5, 0.5, 0.5));
    assert_eq!(out[0].vertices(&table, &add)[0], (1.5, 0.5, 0.5));
}

#[test]
fn a_thousand_placements_share_one_mesh() {
    let cube = unit_cube();
    let shifts: Vec<Offset> = (0..1000).map(|i| (i as f32, 0.0, 0.0)).collect();
    let rule: Rule<Offset, Vertex, Fixed> =
        Rule::new().push(TransformArgument::Many(shifts), Node::Mesh(OutputMeshSource::Dynamic(cube.clone())));
    let out = drain(rule.generate());
    assert_eq!(out.len(), 1000);
    for m in &out {
        match &m.source {
            OutputMeshSource::Dynamic(mesh) => assert!(Rc::ptr_eq(mesh, &cube)),
            OutputMeshSource::Primitive(_) => panic!("expected the shared mesh"),
        }
    }
    assert_eq!(Rc::strong_count(&cube), 1001);
    let mut xs: Vec<i64> = out.iter().map(|m| m.transform.unwrap().0 as i64).collect();
    xs.sort();
    assert_eq!(xs, (0..1000).collect::<Vec<i64>>());
}

#[test]
fn nested_rules_accumulate_root_to_leaf() {
    let inner: Rule<Offset, Vertex, Fixed> = Rule::new().push(
        TransformArgument::Single((0.0, 1.0, 0.0)),
        Node::Mesh(OutputMeshSource::Primitive(PrimitiveMesh::Cube)),
    );
    let outer: Rule<Offset, Vertex, Fixed> =
        Rule::new().push(TransformArgument::Single((5.0, 0.0, 0.0)), Node::Rule(Rc::new(inner)));
    let out = drain(outer.generate());
    assert_eq!(out.len(), 1);
    assert_eq!(out[0].transform, Some((5.0, 1.0, 0.0)));
    let table = table();
    assert_eq!(out[0].mesh(&table).vertices.len(), 8);
}

#[test]
fn an_empty_branch_set_places_the_child_once_untransformed() {
    let rule: Rule<Offset, Vertex, Fixed> = Rule::new().push(
        TransformArgument::Many(vec![]),
        Node::Mesh(OutputMeshSource::Primitive(PrimitiveMesh::IcoSphere)),
    );
    let out = drain(rule.generate());
    assert_eq!(out.len(), 1);
    assert!(out[0].transform.is_none());
    let table = table();
    assert_eq!(out[0].vertices(&table, &add), vec![(0.0, 0.0, 0.5)]);
    assert_eq!(out[0].normals(&table, &add), Some(vec![(0.0, 0.0, 1.0)]));
}

#[test]
fn primitive_and_mesh_rules_place_one_mesh() {
    let p: Rule<Offset, Vertex, Fixed> = Rule::primitive(PrimitiveMesh::Cube);
    let out = drain(p.generate());
    assert_eq!(out.len(), 1);
    assert!(matches!(out[0].source, OutputMeshSource::Primitive(PrimitiveMesh::Cube)));
    let m: Rule<Offset, Vertex, Fixed> = Rule::mesh(unit_cube());
    assert_eq!(drain(m.generate()).len(), 1);
    assert!(drain(Rule::<Offset, Vertex, Fixed>::new().generate()).is_empty());
}

/// A tower without end: another tower one unit up, and a cube. The cube is listed last, so
/// the stack reaches it before the next storey.
struct Tower {
    cube: Rc<Mesh<Vertex>>,
}

impl ToRule<Offset, Vertex> for Tower {
    fn to_rule(&self) -> Rule<Offset, Vertex, Tower> {
        Rule::new()
            .push(
                TransformArgument::Single((0.0, 1.0, 0.0)),
                Node::Producer(Rc::new(Tower { cube: self.cube.clone() })),
            )
            .push(TransformArgument::Many(vec![]), Node::Mesh(OutputMeshSource::Dynamic(self.cube.clone())))
    }
}

#[test]
fn an_endless_producer_yields_any_prefix() {
    let tower: Rule<Offset, Vertex, Tower> = Rule::new().push(
        TransformArgument::Many(vec![]),
        Node::Producer(Rc::new(Tower { cube: unit_cube() })),
    );
    let mut iter = tower.generate();
    let mut heights: Vec<f32> = vec![];
    let mut steps = 0;
    while heights.len() < 100 {
        match iter.step(&add) {
            Step::Mesh(m) => heights.push(m.transform.map(|t| t.1).unwrap_or(0.0)),
            Step::Expanded => {}
            Step::Done => panic!("an endless tower ran out"),
        }
        steps += 1;
        assert!(steps < 1000);
        assert!(iter.pending() <= 2);
    }
    assert_eq!(heights[0], 0.0);
    assert_eq!(heights[99], 99.0);
}

/// Counts how often it is expanded.
struct Counting {
    calls: Rc<Cell<usize>>,
}

impl ToRule<Offset, Vertex> for Counting {
    fn to_rule(&self) -> Rule<Offset, Vertex, Counting> {
        self.calls.set(self.calls.get() + 1);
        Rule::primitive(PrimitiveMesh::Cube)
    }
}

/// Recurses forever and never reaches a mesh.
struct Spin;

impl ToRule<Offset, Vertex> for Spin {
    fn to_rule(&self) -> Rule<Offset, Vertex, Spin> {
        Rule::new().push(TransformArgument::Single((1.0, 0.0, 0.0)), Node::Producer(Rc::new(Spin)))
    }
}

#[test]
fn pull_stops_when_its_fuel_runs_out() {
    let spin: Rule<Offset, Vertex, Spin> =
        Rule::new().push(TransformArgument::Many(vec![]), Node::Producer(Rc::new(Spin)));
    let mut iter = spin.generate();
    assert!(matches!(iter.pull(&add, 50), Step::Expanded));
    assert_eq!(iter.pending(), 1);
    assert!(matches!(iter.pull(&add, 0), Step::Expanded));
}

#[test]
fn pull_reaches_the_next_mesh_or_the_end() {
    let inner: Rule<Offset, Vertex, Fixed> = Rule::primitive(PrimitiveMesh::Cube);
    let rule: Rule<Offset, Vertex, Fixed> = Rule::new()
        .push(TransformArgument::Single((0.0, 0.0, 3.0)), Node::Rule(Rc::new(inner)))
        .push(TransformArgument::Many(vec![]), Node::Rule(Rc::new(Rule::new())));
    let mut iter = rule.generate();
    match iter.pull(&add, 10) {
        Step::Mesh(m) => assert_eq!(m.transform, Some((0.0, 0.0, 3.0))),
        _ => panic!("expected the cube"),
    }
    assert!(matches!(iter.pull(&add, 10), Step::Done));
    assert!(matches!(iter.pull(&add, 10), Step::Done));
}

#[test]
fn a_producer_is_asked_again_on_every_visit() {
    let calls = Rc::new(Cell::new(0));
    let rule: Rule<Offset, Vertex, Counting> = Rule::new().push(
        TransformArgument::Many(vec![(0.0, 0.0, 0.0), (0.0, 0.0, 1.0), (0.0, 0.0, 2.0)]),
        Node::Producer(Rc::new(Counting { calls: calls.clone() })),
    );
    let out = drain(rule.generate());
    assert_eq!(out.len(), 3);
    assert_eq!(calls.get(), 3);
}
