use std::cell::Cell;

use ez3d::render::depth_key;
use ez3d::render::RenderTarget;

const FAR: u64 = 1000;

fn fresh() -> RenderTarget {
    RenderTarget::new(4, 3, FAR).unwrap()
}

fn key(depth: f64) -> u64 {
    depth_key(depth.to_bits())
}

// a layer that covers the pixels with x >= 1 at the given depth
fn right_part(depth: u64) -> impl Fn(usize, usize) -> Option<u64> {
    move |x, _| if x >= 1 { Some(depth) } else { None }
}

// a layer that covers the pixels with y >= 1 at the given depth
fn lower_part(depth: u64) -> impl Fn(usize, usize) -> Option<u64> {
    move |_, y| if y >= 1 { Some(depth) } else { None }
}

#[test]
fn fresh_target_is_white_and_far() {
    let t = RenderTarget::new(3, 2, 77).unwrap();
    assert_eq!(t.width, 3);
    assert_eq!(t.height, 2);
    assert_eq!(t.frame_buffer, vec![(255, 255, 255); 6]);
    assert_eq!(t.depth_buffer, vec![77; 6]);
}

#[test]
fn no_target_for_an_empty_image() {
    assert!(RenderTarget::new(0, 4, FAR).is_none());
    assert!(RenderTarget::new(4, 0, FAR).is_none());
    assert!(RenderTarget::new(0, 0, FAR).is_none());
}

#[test]
fn no_target_beyond_what_can_be_indexed() {
    assert!(RenderTarget::new(usize::MAX, 2, FAR).is_none());
    assert!(RenderTarget::new(2, usize::MAX, FAR).is_none());
}

#[test]
fn empty_mesh_leaves_the_frame_as_it_began() {
    let mut mesh = ez3d::utils::PolygonCollection::<(i32, i32, i32)>::new(Vec::new(), Vec::new()).unwrap();
    let mut t = fresh();
    while let Some(_) = mesh.next() {
        t.rasterize((0, 4, 0, 3), |_, _| Some(1), |_, _, _| 0);
    }
    assert_eq!(t.frame_buffer, vec![(255, 255, 255); 12]);
    assert_eq!(t.depth_buffer, vec![FAR; 12]);
}

#[test]
fn covered_pixels_take_depth_and_grey() {
    let mut t = fresh();
    t.rasterize((0, 4, 0, 3), right_part(500), |x, y, z| (x + 10 * y) as u8 + (z / 100) as u8);
    for y in 0..3 {
        for x in 0..4 {
            let i = y * 4 + x;
            if x >= 1 {
                let c = (x + 10 * y + 5) as u8;
                assert_eq!(t.depth_buffer[i], 500);
                assert_eq!(t.frame_buffer[i], (c, c, c));
            } else {
                assert_eq!(t.depth_buffer[i], FAR);
                assert_eq!(t.frame_buffer[i], (255, 255, 255));
            }
        }
    }
}

#[test]
fn pixels_outside_the_range_are_not_touched() {
    let mut t = fresh();
    t.rasterize((1, 3, 1, 2), |_, _| Some(5), |_, _, _| 9);
    for y in 0..3 {
        for x in 0..4 {
            let inside = 1 <= x && x < 3 && y == 1;
            assert_eq!(t.depth_buffer[y * 4 + x], if inside { 5 } else { FAR });
            assert_eq!(t.frame_buffer[y * 4 + x], if inside { (9, 9, 9) } else { (255, 255, 255) });
        }
    }
}

#[test]
fn only_pixels_of_the_range_are_asked() {
    let asked = Cell::new(0);
    let mut t = fresh();
    t.rasterize(
        (1, 3, 0, 3),
        |x, y| {
            assert!(1 <= x && x < 3 && y < 3);
            asked.set(asked.get() + 1);
            None
        },
        |_, _, _| 0,
    );
    assert_eq!(asked.get(), 6);
    assert_eq!(t.depth_buffer, vec![FAR; 12]);
}

#[test]
fn empty_range_changes_nothing() {
    let mut t = fresh();
    t.rasterize((3, 3, 0, 3), |_, _| Some(1), |_, _, _| 0);
    t.rasterize((3, 1, 0, 3), |_, _| Some(1), |_, _, _| 0);
    t.rasterize((0, 4, 2, 2), |_, _| Some(1), |_, _, _| 0);
    assert_eq!(t.frame_buffer, fresh().frame_buffer);
    assert_eq!(t.depth_buffer, fresh().depth_buffer);
}

#[test]
fn depth_test_is_strict() {
    let mut t = fresh();
    t.rasterize((0, 4, 0, 3), |_, _| Some(FAR), |_, _, _| 1);
    assert_eq!(t.frame_buffer, fresh().frame_buffer);
    t.rasterize((0, 4, 0, 3), |_, _| Some(FAR + 1), |_, _, _| 1);
    assert_eq!(t.frame_buffer, fresh().frame_buffer);
    assert_eq!(t.depth_buffer, fresh().depth_buffer);
    t.rasterize((0, 4, 0, 3), |_, _| Some(FAR - 1), |_, _, _| 1);
    assert_eq!(t.frame_buffer, vec![(1, 1, 1); 12]);
    assert_eq!(t.depth_buffer, vec![FAR - 1; 12]);
}

#[test]
fn shading_is_asked_only_where_the_depth_test_is_passed() {
    let shaded = Cell::new(0);
    let mut t = fresh();
    t.rasterize((0, 4, 0, 3), right_part(500), |_, _, _| 1);
    t.rasterize(
        (0, 4, 0, 3),
        lower_part(700),
        |x, y, z| {
            assert!(x == 0 && y >= 1 && z == 700);
            shaded.set(shaded.get() + 1);
            2
        },
    );
    assert_eq!(shaded.get(), 2);
}

#[test]
fn nearer_triangle_drawn_second_wins() {
    let mut t = fresh();
    t.rasterize((0, 4, 0, 3), lower_part(700), |_, _, _| 70);
    t.rasterize((0, 4, 0, 3), right_part(500), |_, _, _| 50);
    for y in 0..3 {
        for x in 0..4 {
            let i = y * 4 + x;
            if x >= 1 {
                assert_eq!((t.depth_buffer[i], t.frame_buffer[i]), (500, (50, 50, 50)));
            } else if y >= 1 {
                assert_eq!((t.depth_buffer[i], t.frame_buffer[i]), (700, (70, 70, 70)));
            } else {
                assert_eq!((t.depth_buffer[i], t.frame_buffer[i]), (FAR, (255, 255, 255)));
            }
        }
    }
}

#[test]
fn depth_buffer_does_not_depend_on_the_order() {
    let layers: [(u64, u8); 3] = [(700, 70), (500, 50), (600, 60)];
    let orders = [[0, 1, 2], [0, 2, 1], [1, 0, 2], [1, 2, 0], [2, 0, 1], [2, 1, 0]];
    let mut seen: Vec<(Vec<u64>, Vec<(u8, u8, u8)>)> = Vec::new();
    for order in orders {
        let mut t = fresh();
        for k in order {
            let (depth, grey) = layers[k];
            if k == 0 {
                t.rasterize((0, 4, 0, 3), lower_part(depth), |_, _, _| grey);
            } else if k == 1 {
                t.rasterize((0, 4, 0, 3), right_part(depth), |_, _, _| grey);
            } else {
                t.rasterize((0, 3, 0, 2), |_, _| Some(depth), |_, _, _| grey);
            }
        }
        seen.push((t.depth_buffer, t.frame_buffer));
    }
    for s in &seen {
        assert_eq!(s, &seen[0]);
    }
    assert_eq!(seen[0].0, vec![600, 500, 500, 500, 600, 500, 500, 500, 700, 500, 500, 500]);
}

#[test]
fn keys_order_as_the_depths_do() {
    let depths = [
        f64::NEG_INFINITY,
        -1.0e300,
        -2.0,
        -1.0,
        -1.0e-300,
        -f64::MIN_POSITIVE / 4.0,
        0.0,
        f64::MIN_POSITIVE / 4.0,
        1.0e-300,
        0.5,
        1.0,
        1.0 + f64::EPSILON,
        2.0,
        3.0,
        3.0 + 1.0 / 4294967296.0,
        1000.0,
        1.0e300,
        f64::INFINITY,
    ];
    for a in depths {
        for b in depths {
            assert_eq!(key(a) < key(b), a < b);
            assert_eq!(key(a) == key(b), a == b);
        }
    }
}

#[test]
fn key_of_minus_zero_is_just_below_the_key_of_zero() {
    assert_eq!(key(0.0), 0x8000_0000_0000_0000);
    assert_eq!(key(-0.0), 0x7fff_ffff_ffff_ffff);
    assert_eq!(key(f64::INFINITY), 0xfff0_0000_0000_0000);
    assert_eq!(key(f64::NEG_INFINITY), 0x000f_ffff_ffff_ffff);
    assert_eq!(key(1.0), 0xbff0_0000_0000_0000);
    assert_eq!(depth_key(0xffff_ffff_ffff_ffff), 0);
    assert_eq!(depth_key(0x7fff_ffff_ffff_ffff), 0xffff_ffff_ffff_ffff);
}

#[test]
fn nearer_depth_wins_by_its_key() {
    let mut t = RenderTarget::new(2, 1, key(1000.0)).unwrap();
    t.rasterize((0, 2, 0, 1), |_, _| Some(key(3.0 + 1.0 / 4294967296.0)), |_, _, _| 30);
    t.rasterize((0, 1, 0, 1), |_, _| Some(key(3.0)), |_, _, _| 20);
    t.rasterize((0, 2, 0, 1), |_, _| Some(key(1000.5)), |_, _, _| 10);
    assert_eq!(t.frame_buffer, vec![(20, 20, 20), (30, 30, 30)]);
    assert_eq!(t.depth_buffer, vec![key(3.0), key(3.0 + 1.0 / 4294967296.0)]);
}
