use crustcrab::ordering::{
    back_to_front_indices, descending_order, distance_squared, faces_back_to_front, far_to_near,
    total_order_key,
};

fn key(x: f64) -> i64 {
    total_order_key(x.to_bits())
}

#[test]
fn total_order_key_values() {
    assert_eq!(key(0.0), 0);
    assert_eq!(key(-0.0), -1);
    assert_eq!(key(1.0), 0x3ff0_0000_0000_0000);
    assert_eq!(key(-1.0), -0x3ff0_0000_0000_0001);
}

#[test]
fn total_order_key_matches_total_cmp() {
    let values = [
        f64::NEG_INFINITY,
        -2.5,
        -1.0,
        -0.0,
        0.0,
        1e-300,
        1.0,
        3.75,
        f64::INFINITY,
        f64::NAN,
        -f64::NAN,
    ];
    for a in values {
        for b in values {
            assert_eq!(key(a).cmp(&key(b)), a.total_cmp(&b), "{a} vs {b}");
        }
    }
}

#[test]
fn descending_order_sorts_indices() {
    assert_eq!(descending_order(&vec![3, 1, 2]), vec![0, 2, 1]);
    assert!(descending_order(&vec![]).is_empty());
    let order = descending_order(&vec![5, 5, 9, -1]);
    assert_eq!(order[0], 2);
    assert_eq!(order[3], 3);
    let mut sorted = order.clone();
    sorted.sort();
    assert_eq!(sorted, vec![0, 1, 2, 3]);
}

#[test]
fn distance_squared_extremes() {
    assert_eq!(distance_squared((1, 2, 3), (4, 6, 3)), 25);
    let far = distance_squared((i32::MIN, i32::MIN, i32::MIN), (i32::MAX, i32::MAX, i32::MAX));
    assert_eq!(far, 3 * (u32::MAX as i128) * (u32::MAX as i128));
}

#[test]
fn far_to_near_orders_chunks() {
    let chunks = vec![(0, 0, 1), (3, 0, 0), (0, -2, 0), (0, 0, 0)];
    assert_eq!(
        far_to_near(&chunks, (0, 0, 0)),
        vec![(3, 0, 0), (0, -2, 0), (0, 0, 1), (0, 0, 0)]
    );
}

#[test]
fn back_to_front_indices_blocks_of_six() {
    assert_eq!(
        back_to_front_indices(&vec![1, 5]),
        vec![6, 7, 8, 9, 10, 11, 0, 1, 2, 3, 4, 5]
    );
    assert!(back_to_front_indices(&vec![]).is_empty());
}

#[test]
fn faces_back_to_front_regroups_vertices() {
    let vertices: Vec<u32> = (0..13).collect();
    let out = faces_back_to_front(&vertices, &vec![-4, 10]);
    assert_eq!(out, vec![6, 7, 8, 9, 10, 11, 0, 1, 2, 3, 4, 5]);
}
