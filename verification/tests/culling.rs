use crustcrab::culling::{cull_chunks, draw_lists};

type Coords = (i32, i32, i32);

fn faces() -> (Vec<Coords>, Vec<usize>) {
    (
        vec![(1, 0, 0), (-1, 0, 0), (0, 1, 0), (0, -1, 0), (0, 0, 1), (0, 0, -1)],
        vec![1, 0, 3, 2, 5, 4],
    )
}

fn within(c: Coords, o: Coords, r: i32) -> bool {
    (c.0 - o.0).abs() <= r && (c.1 - o.1).abs() <= r && (c.2 - o.2).abs() <= r
}

#[test]
fn cull_open_chunks_reach_the_whole_area() {
    let (deltas, opposite) = faces();
    let origin = (3, -2, 5);
    let visible = cull_chunks(origin, &deltas, &opposite, |c| within(c, origin, 1), |_, _, _| true);
    assert_eq!(visible.len(), 27);
    assert_eq!(visible[0], origin);
    assert_eq!(&visible[1..7], &[(4, -2, 5), (2, -2, 5), (3, -1, 5), (3, -3, 5), (3, -2, 6), (3, -2, 4)]);
    for (i, a) in visible.iter().enumerate() {
        assert!(within(*a, origin, 1));
        assert!(!visible[i + 1..].contains(a));
    }
}

#[test]
fn cull_closed_chunks_stop_the_walk() {
    let (deltas, opposite) = faces();
    let origin = (0, 0, 0);
    let visible = cull_chunks(origin, &deltas, &opposite, |c| within(c, origin, 3), |_, _, _| false);
    assert_eq!(visible.len(), 7);
    assert!(visible[1..].iter().all(|c| c.0.abs() + c.1.abs() + c.2.abs() == 1));
}

#[test]
fn cull_outside_view_leaves_only_the_origin() {
    let (deltas, opposite) = faces();
    let visible = cull_chunks((1, 1, 1), &deltas, &opposite, |_| false, |_, _, _| true);
    assert_eq!(visible, vec![(1, 1, 1)]);
}

#[test]
fn cull_light_passes_only_straight_through() {
    let (deltas, opposite) = faces();
    let origin = (0, 0, 0);
    // light leaves a chunk only through the face opposite the one it came in by
    let straight = |_: Coords, entry: usize, exit: usize| entry == opposite_of(exit);
    let visible = cull_chunks(origin, &deltas, &opposite, |c| within(c, origin, 2), straight);
    assert_eq!(visible.len(), 13);
    assert!(visible[1..].iter().all(|c| [c.0, c.1, c.2].iter().filter(|&&x| x != 0).count() == 1));
}

fn opposite_of(side: usize) -> usize {
    side ^ 1
}

#[test]
fn draw_lists_split_by_mesh_parts() {
    let visible = vec![(0, 0, 0), (1, 0, 0), (2, 0, 0), (3, 0, 0)];
    let parts = vec![Some((true, false)), None, Some((true, true)), Some((false, true))];
    let (opaque, transparent) = draw_lists(&visible, &parts);
    assert_eq!(opaque, vec![(0, 0, 0), (2, 0, 0)]);
    assert_eq!(transparent, vec![(2, 0, 0), (3, 0, 0)]);
}
