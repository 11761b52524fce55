use crustcrab::block_vertex::BlockVertex;
use crustcrab::clouds::{cloud_radius, instances};
use crustcrab::post_processor::{mip_chain, PostProcessor};
use crustcrab::sphere::Sphere;

#[test]
fn sphere_indices_two_stacks() {
    let indices = Sphere::new(4, 2).indices();
    assert_eq!(
        indices,
        vec![
            1, 5, 6, 2, 6, 7, 3, 7, 8, 4, 8, 9, //
            5, 10, 6, 6, 11, 7, 7, 12, 8, 8, 13, 9,
        ]
    );
}

#[test]
fn sphere_indices_middle_stack_has_both_triangles() {
    let indices = Sphere::new(1, 3).indices();
    // stack 0: lower triangle only; stack 1: both; stack 2: upper only
    assert_eq!(indices, vec![1, 2, 3, 2, 4, 3, 3, 4, 5, 4, 6, 5]);
    assert_eq!(indices.len(), 6 * 1 * (3 - 1));
}

#[test]
fn sphere_indices_degenerate() {
    assert!(Sphere::new(8, 1).indices().is_empty());
    assert!(Sphere::new(0, 5).indices().is_empty());
    assert!(Sphere::new(5, 0).indices().is_empty());
}

#[test]
fn sphere_indices_count_and_range() {
    let (sectors, stacks) = (32u16, 16u16);
    let sphere = Sphere::new(sectors, stacks);
    let indices = sphere.indices();
    assert_eq!(indices.len(), 6 * 32 * 15);
    let vertex_count = (stacks as usize + 1) * (sectors as usize + 1);
    assert!(indices.iter().all(|&i| (i as usize) < vertex_count));
    // the last vertex of the last stack closes no triangle
    assert_eq!(*indices.iter().max().unwrap() as usize, vertex_count - 2);
}

#[test]
fn block_vertex_round_trip() {
    let v = BlockVertex::new((3, 7, 31), 200, (5, 9), 2, 3, 0x123_4567);
    assert_eq!(v.coords(), (3, 7, 31));
    assert_eq!(v.side_shade(), 2);
    assert_eq!(v.ao(), 3);
    assert_eq!(v.light(), 0x123_4567 | (9 << 27));
    assert_eq!(v.data[0] >> 15 & 0xff, 200);
    assert_eq!(v.data[0] >> 27, 5);
}

#[test]
fn block_vertex_fields_cut_to_width() {
    let v = BlockVertex::new((40, 33, 64), 255, (63, 33), 5, 6, u32::MAX);
    assert_eq!(v.coords(), (8, 1, 0));
    assert_eq!(v.side_shade(), 1);
    assert_eq!(v.ao(), 2);
    assert_eq!(v.light(), 0x7ff_ffff | (1 << 27));
    assert_eq!(v.data[0] >> 27, 31);
}

#[test]
fn block_vertex_exact_words() {
    let v = BlockVertex::new((1, 2, 3), 4, (5, 6), 1, 2, 7);
    let w0 = 1 | (2 << 5) | (3 << 10) | (4 << 15) | (1 << 23) | (2 << 25) | (5 << 27);
    let w1 = 7 | (6 << 27);
    assert_eq!(v.data, [w0, w1]);
}

#[test]
fn cloud_instances_small_radii() {
    assert_eq!(instances(0), vec![(0, 0)]);
    assert_eq!(instances(1), vec![(-1, 0), (0, -1), (0, 0), (0, 1), (1, 0)]);
    assert!(instances(-3).is_empty());
}

#[test]
fn cloud_instances_within_disk() {
    let r = 7;
    let clouds = instances(r);
    assert!(clouds.iter().all(|&(dx, dz)| dx * dx + dz * dz <= r * r));
    let expected = (-r..=r)
        .flat_map(|dx| (-r..=r).map(move |dz| (dx, dz)))
        .filter(|&(dx, dz)| dx * dx + dz * dz <= r * r)
        .count();
    assert_eq!(clouds.len(), expected);
    assert_eq!(clouds.len(), 149);
}

#[test]
fn cloud_radius_divides_and_truncates() {
    assert_eq!(cloud_radius(512, 16), 32);
    assert_eq!(cloud_radius(500, 16), 31);
    assert_eq!(cloud_radius(u64::MAX, 1), -1);
}

#[test]
fn post_processor_ping_pong() {
    let mut p = PostProcessor::new();
    assert_eq!((p.main_index(), p.secondary_index()), (0, 1));
    p.swap();
    assert_eq!((p.main_index(), p.secondary_index()), (1, 0));
    p.swap();
    assert_eq!((p.main_index(), p.secondary_index()), (0, 1));
}

#[test]
fn mip_chain_pairs() {
    assert_eq!(mip_chain(4), vec![(0, 1), (1, 2), (2, 3)]);
    assert!(mip_chain(1).is_empty());
    assert!(mip_chain(0).is_empty());
}

#[test]
fn sphere_triangles_are_not_degenerate() {
    let indices = Sphere::new(5, 4).indices();
    assert_eq!(indices.len() % 3, 0);
    for t in indices.chunks(3) {
        assert!(t[0] != t[1] && t[1] != t[2] && t[0] != t[2]);
    }
}
