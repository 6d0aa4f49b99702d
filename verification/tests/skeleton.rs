use aetherpose::skeleton::hierarchy::{children_of, humanoid_hierarchy, parent_chain, parent_of};

#[test]
fn humanoid_hierarchy_lists_bones_after_their_parents() {
    let t = humanoid_hierarchy();
    assert_eq!(t.len(), 19);
    for (k, (id, parent)) in t.iter().enumerate() {
        if let Some(p) = parent {
            assert!(t[..k].iter().any(|(q, _)| q == p), "bone {} before its parent", id);
        }
        assert!(t[k + 1..].iter().all(|(q, _)| q != id));
    }
}

#[test]
fn walks_to_the_root_visit_each_parent_in_turn() {
    let t = humanoid_hierarchy();
    assert_eq!(parent_chain(&t, 33), vec![33, 32, 31, 30, 3, 2, 1, 0]);
    assert_eq!(parent_chain(&t, 22), vec![22, 21, 20, 0]);
    assert_eq!(parent_chain(&t, 0), vec![0]);
    assert_eq!(parent_chain(&t, 99), Vec::<u8>::new());
}

#[test]
fn parents_and_children_agree() {
    let t = humanoid_hierarchy();
    assert_eq!(parent_of(&t, 11), Some(Some(10)));
    assert_eq!(parent_of(&t, 0), Some(None));
    assert_eq!(parent_of(&t, 5), None);
    assert_eq!(children_of(&t, 0), vec![1, 10, 20]);
    assert_eq!(children_of(&t, 3), vec![4, 30, 40]);
    assert!(children_of(&t, 43).is_empty());
}

#[test]
fn walk_stops_on_a_cycle_after_as_many_bones_as_the_hierarchy_has() {
    let t = vec![(1u8, Some(2u8)), (2u8, Some(1u8))];
    assert_eq!(parent_chain(&t, 1), vec![1, 2]);
}
