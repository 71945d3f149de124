use fiberslice::hitbox::{check_hit, HitNode};

fn leaf(hit: Option<u32>) -> HitNode {
    HitNode { hit, inner: Vec::new() }
}

fn group(hit: Option<u32>, inner: Vec<HitNode>) -> HitNode {
    HitNode { hit, inner }
}

#[test]
fn nearest_leaf_is_found() {
    let roots = vec![leaf(Some(5)), leaf(Some(2)), leaf(None)];
    assert_eq!(check_hit(&roots), Some(vec![1]));
}

#[test]
fn no_hit_gives_none() {
    assert_eq!(check_hit(&Vec::new()), None);
    let roots = vec![leaf(None), group(None, vec![leaf(Some(1))])];
    assert_eq!(check_hit(&roots), None);
    let roots = vec![group(Some(1), vec![leaf(None), leaf(None)])];
    assert_eq!(check_hit(&roots), None);
}

#[test]
fn search_goes_into_the_nearest_group() {
    let roots = vec![
        group(Some(3), vec![leaf(Some(9)), leaf(Some(4))]),
        group(Some(6), vec![leaf(Some(1))]),
    ];
    assert_eq!(check_hit(&roots), Some(vec![0, 1]));
}

#[test]
fn far_group_is_searched_when_the_near_one_is_empty() {
    let roots = vec![
        group(Some(1), vec![leaf(None)]),
        group(Some(7), vec![group(Some(8), vec![leaf(Some(2))])]),
    ];
    assert_eq!(check_hit(&roots), Some(vec![1, 0, 0]));
}

#[test]
fn group_farther_than_a_leaf_is_not_entered() {
    let roots = vec![
        group(Some(10), vec![leaf(Some(0))]),
        leaf(Some(5)),
    ];
    assert_eq!(check_hit(&roots), Some(vec![1]));
}
