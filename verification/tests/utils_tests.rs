use ez3d::utils::max;
use ez3d::utils::min;
use ez3d::utils::PolygonCollection;
use ez3d::utils::Triangle;

type Point = (i32, i32, i32);

fn square() -> Vec<Point> {
    vec![(0, 0, 0), (1, 0, 0), (1, 1, 0), (0, 1, 0)]
}

#[test]
fn min_and_max_of_integers() {
    assert_eq!(min(3, 5), 3);
    assert_eq!(min(5, 3), 3);
    assert_eq!(min(4, 4), 4);
    assert_eq!(max(3, 5), 5);
    assert_eq!(max(5, 3), 5);
    assert_eq!(max(4usize, 4usize), 4);
    assert_eq!(min(-1i64, 0i64), -1);
}

#[test]
fn min_and_max_of_floats() {
    assert_eq!(min(1.5, 2.5), 1.5);
    assert_eq!(min(2.5, 1.5), 1.5);
    assert_eq!(max(1.5, 2.5), 2.5);
    assert_eq!(max(2.5, 1.5), 2.5);
    assert_eq!(max(0.0, -0.25), 0.0);
    assert_eq!(min(f64::NEG_INFINITY, 0.0), f64::NEG_INFINITY);
}

#[test]
fn min_and_max_return_the_second_when_unordered() {
    assert_eq!(min(f64::NAN, 1.0), 1.0);
    assert!(min(1.0, f64::NAN).is_nan());
    assert_eq!(max(f64::NAN, 1.0), 1.0);
    assert!(max(1.0, f64::NAN).is_nan());
}

#[test]
fn collection_hands_out_its_triangles_in_order() {
    let mut mesh = PolygonCollection::new(square(), vec![0, 1, 2, 0, 2, 3]).unwrap();
    assert_eq!(mesh.len(), 2);
    assert_eq!(mesh.next(), Some(Triangle { v0: (0, 0, 0), v1: (1, 0, 0), v2: (1, 1, 0) }));
    assert_eq!(mesh.len(), 2);
    assert_eq!(mesh.next(), Some(Triangle { v0: (0, 0, 0), v1: (1, 1, 0), v2: (0, 1, 0) }));
    assert_eq!(mesh.next(), None);
    assert_eq!(mesh.next(), None);
    assert_eq!(mesh.len(), 2);
}

#[test]
fn collection_holds_vertices_of_any_type() {
    let verts = vec![[0.5f64, 0.0, -1.0], [1.5, 0.0, -1.0], [0.5, 2.0, -1.0]];
    let mut mesh = PolygonCollection::new(verts, vec![2, 1, 0]).unwrap();
    let t = mesh.next().unwrap();
    assert_eq!(t.v0, [0.5, 2.0, -1.0]);
    assert_eq!(t.v1, [1.5, 0.0, -1.0]);
    assert_eq!(t.v2, [0.5, 0.0, -1.0]);
    assert!(mesh.next().is_none());
}

#[test]
fn empty_collection_has_no_triangle() {
    let mut mesh = PolygonCollection::<Point>::new(Vec::new(), Vec::new()).unwrap();
    assert_eq!(mesh.len(), 0);
    assert_eq!(mesh.next(), None);
    let mut unused = PolygonCollection::new(square(), Vec::new()).unwrap();
    assert_eq!(unused.len(), 0);
    assert_eq!(unused.next(), None);
}

#[test]
fn collection_refuses_an_index_beyond_the_table() {
    assert!(PolygonCollection::new(square(), vec![0, 1, 4]).is_none());
    assert!(PolygonCollection::<Point>::new(Vec::new(), vec![0, 0, 0]).is_none());
    assert!(PolygonCollection::new(square(), vec![3, 3, 3]).is_some());
}

#[test]
fn collection_refuses_an_incomplete_triangle() {
    assert!(PolygonCollection::new(square(), vec![0, 1]).is_none());
    assert!(PolygonCollection::new(square(), vec![0, 1, 2, 3]).is_none());
}

#[test]
fn collection_can_be_started_over() {
    let mut mesh = PolygonCollection::new(square(), vec![0, 1, 2, 0, 2, 3]).unwrap();
    let first = mesh.next();
    let second = mesh.next();
    assert_eq!(mesh.next(), None);
    mesh.restart();
    assert_eq!(mesh.next(), first);
    mesh.restart();
    assert_eq!(mesh.next(), first);
    assert_eq!(mesh.next(), second);
    assert_eq!(mesh.next(), None);
}
