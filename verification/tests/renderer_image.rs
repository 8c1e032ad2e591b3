use veloterm::renderer::image_renderer::{split_placements_by_z, Placement};

#[test]
fn split_placements_empty() {
    let placements: Vec<&Placement> = vec![];
    let (under, over) = split_placements_by_z(&placements);
    assert!(under.is_empty());
    assert!(over.is_empty());
}

#[test]
fn split_placements_by_z_index() {
    let p1 = Placement { z_index: -1, placement_id: 1, ..Default::default() };
    let p2 = Placement { z_index: 0, placement_id: 2, ..Default::default() };
    let p3 = Placement { z_index: 5, placement_id: 3, ..Default::default() };
    let placements: Vec<&Placement> = vec![&p1, &p2, &p3];
    let (under, over) = split_placements_by_z(&placements);
    assert_eq!(under.len(), 1, "z<0 goes under text");
    assert_eq!(under[0].z_index, -1);
    assert_eq!(over.len(), 2, "z>=0 goes over text");
}

#[test]
fn split_placements_z_zero_goes_over() {
    let p = Placement { z_index: 0, ..Default::default() };
    let placements: Vec<&Placement> = vec![&p];
    let (under, over) = split_placements_by_z(&placements);
    assert!(under.is_empty());
    assert_eq!(over.len(), 1);
}

#[test]
fn split_placements_keeps_order_within_each_layer() {
    let a = Placement { z_index: 3, placement_id: 1, ..Default::default() };
    let b = Placement { z_index: -2, placement_id: 2, ..Default::default() };
    let c = Placement { z_index: 0, placement_id: 3, ..Default::default() };
    let d = Placement { z_index: -7, placement_id: 4, ..Default::default() };
    let placements: Vec<&Placement> = vec![&a, &b, &c, &d];
    let (under, over) = split_placements_by_z(&placements);
    let under_ids: Vec<u32> = under.iter().map(|p| p.placement_id).collect();
    let over_ids: Vec<u32> = over.iter().map(|p| p.placement_id).collect();
    assert_eq!(under_ids, vec![2, 4]);
    assert_eq!(over_ids, vec![1, 3]);
    assert_eq!(under.len() + over.len(), placements.len());
}
