use converter::annotation::{AnnotationMap, Label};
use converter::drawing::{process_scene, Drawing};
use converter::error::ConversionError;
use converter::path::Segment;
use converter::point::{Coordinate, FullUPoint, Point};
use converter::scene::{Node, NodeKind};
use converter::RESOLUTION;

fn point(x: f32, y: f32) -> Point {
    Point::new(
        Coordinate::from_binary32(x.to_bits()).unwrap(),
        Coordinate::from_binary32(y.to_bits()).unwrap(),
    )
}

fn tagged(x: u64, y: u64, segment: u64) -> FullUPoint {
    FullUPoint { x, y, segment }
}

fn path(points: &[(f32, f32)]) -> Node {
    let mut segments = Vec::new();
    for (i, (x, y)) in points.iter().enumerate() {
        if i == 0 {
            segments.push(Segment::MoveTo(point(*x, *y)));
        } else {
            segments.push(Segment::LineTo(point(*x, *y)));
        }
    }
    Node::leaf(NodeKind::Path(segments))
}

fn text(runs: &[&str]) -> Node {
    Node::leaf(NodeKind::Text(runs.iter().map(|r| r.to_string()).collect()))
}

fn group(children: Vec<Node>) -> Node {
    Node::new(NodeKind::Other, children)
}

#[test]
fn scene_converts_to_points_and_annotations() {
    let root = group(vec![
        path(&[(0.0, 0.0), (10.0, 0.0), (10.0, 0.0), (10.4, 0.3)]),
        text(&["#1:\n", "Difficulty: Hard\n", "Other: Property"]),
    ]);
    let drawing = process_scene(&root, RESOLUTION).unwrap();
    assert_eq!(
        drawing.segments,
        vec![tagged(0, 0, 0), tagged(10, 0, 1), tagged(10, 0, 2), tagged(10, 0, 3)]
    );
    assert_eq!(drawing.meta.get(Label::Difficulty), Some(&"Hard".to_string()));
    assert_eq!(drawing.meta.get(Label::Name), None);
}

#[test]
fn scene_without_a_path_is_an_error() {
    let root = group(vec![text(&["Name: a"]), group(vec![]), Node::leaf(NodeKind::Other)]);
    assert_eq!(process_scene(&root, RESOLUTION), Err(ConversionError::NoPathFound));
    assert_eq!(
        process_scene(&Node::leaf(NodeKind::Other), RESOLUTION),
        Err(ConversionError::NoPathFound)
    );
}

#[test]
fn only_the_first_path_in_document_order_is_used() {
    let root = group(vec![
        group(vec![group(vec![]), group(vec![path(&[(1.0, 1.0), (2.0, 2.0)])])]),
        path(&[(7.0, 7.0)]),
        group(vec![path(&[(9.0, 9.0)])]),
    ]);
    let drawing = process_scene(&root, RESOLUTION).unwrap();
    assert_eq!(drawing.segments, vec![tagged(1, 1, 0), tagged(2, 2, 1)]);
    assert_eq!(root.find_path().map(|s| s.len()), Some(2));
}

#[test]
fn a_node_comes_before_its_children() {
    let inner = path(&[(5.0, 5.0)]);
    let root = Node::new(
        NodeKind::Path(vec![Segment::MoveTo(point(3.0, 3.0))]),
        vec![inner],
    );
    let drawing = process_scene(&root, RESOLUTION).unwrap();
    assert_eq!(drawing.segments, vec![tagged(3, 3, 0)]);
    let texts = Node::new(
        NodeKind::Text(vec!["Name: outer".to_string()]),
        vec![text(&["Name: inner"])],
    );
    let mut map = AnnotationMap::new();
    texts.read_annotations(&mut map);
    assert_eq!(map.get(Label::Name), Some(&"inner".to_string()));
}

#[test]
fn annotations_follow_document_order() {
    let root = group(vec![
        text(&["Name: first", "Difficulty: 1"]),
        group(vec![text(&["Name: second"]), path(&[(0.0, 0.0)])]),
        text(&["Difficulty: 2", "Name:", "Name: "]),
    ]);
    let drawing = process_scene(&root, RESOLUTION).unwrap();
    assert_eq!(drawing.meta.get(Label::Name), Some(&"second".to_string()));
    assert_eq!(drawing.meta.get(Label::Difficulty), Some(&"2".to_string()));
}

#[test]
fn bad_text_runs_do_not_fail_the_document() {
    let root = group(vec![text(&["Name:", "Unknown: X", ":", "no colon"]), path(&[(4.0, 2.0)])]);
    let drawing = process_scene(&root, RESOLUTION).unwrap();
    assert_eq!(drawing, Drawing::new(vec![tagged(4, 2, 0)], AnnotationMap::new()));
}

#[test]
fn a_point_off_the_grid_fails_the_document() {
    let root = group(vec![text(&["Name: a"]), path(&[(4.0, 2.0), (4.0, -2.0)])]);
    assert_eq!(process_scene(&root, RESOLUTION), Err(ConversionError::QuantizationDomainError));
}

#[test]
fn later_paths_are_not_looked_at() {
    let root = group(vec![path(&[(4.0, 2.0)]), path(&[(4.0, -2.0)])]);
    assert_eq!(process_scene(&root, RESOLUTION).unwrap().segments, vec![tagged(4, 2, 0)]);
}

#[test]
fn curves_in_a_scene_are_sampled_and_compacted() {
    let curve = Node::leaf(NodeKind::Path(vec![
        Segment::MoveTo(point(0.0, 0.0)),
        Segment::QuadTo(point(10.0, 10.0), point(20.0, 0.0)),
    ]));
    let drawing = process_scene(&group(vec![curve]), RESOLUTION).unwrap();
    assert_eq!(drawing.segments.len(), 10);
    assert_eq!(drawing.segments[0], tagged(0, 0, 0));
    assert_eq!(drawing.segments[5], tagged(10, 5, 5));
}

#[test]
fn documents_are_converted_independently() {
    let good = group(vec![path(&[(1.0, 2.0)]), text(&["Name: a"])]);
    let bad = group(vec![text(&["Name: b"])]);
    let before = process_scene(&good, RESOLUTION);
    assert_eq!(process_scene(&bad, RESOLUTION), Err(ConversionError::NoPathFound));
    assert_eq!(process_scene(&good, RESOLUTION), before);
}

#[test]
fn drawing_holds_what_it_is_given() {
    let mut meta = AnnotationMap::new();
    meta.insert(Label::Name, "n".to_string());
    let drawing = Drawing::new(vec![tagged(1, 2, 3)], meta.clone());
    assert_eq!(drawing.segments, vec![tagged(1, 2, 3)]);
    assert_eq!(drawing.meta, meta);
}
