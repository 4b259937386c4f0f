use falling_sand_contact::{
    moore_neighborhood, place_burst, ContactBurst, GridPos, ParticleTypeId, SpawnParticleSignal,
};

fn burst(count: u8) -> ContactBurst {
    ContactBurst { particle: ParticleTypeId::from_raw(6), count }
}

fn positions(spawn: &[SpawnParticleSignal]) -> Vec<GridPos> {
    spawn.iter().map(|s| {
        assert_eq!(s.positions.len(), 1);
        assert!(!s.overwrite_existing);
        assert_eq!(s.particle_type, ParticleTypeId::from_raw(6));
        s.positions[0]
    }).collect()
}

#[test]
fn moore_neighborhood_lists_the_eight_cells_row_by_row() {
    let cells = moore_neighborhood(GridPos::new(10, 20));
    assert_eq!(
        cells,
        vec![
            GridPos::new(9, 19),
            GridPos::new(10, 19),
            GridPos::new(11, 19),
            GridPos::new(9, 20),
            GridPos::new(11, 20),
            GridPos::new(9, 21),
            GridPos::new(10, 21),
            GridPos::new(11, 21),
        ]
    );
}

#[test]
fn burst_fills_first_empty_cells_in_order_up_to_count() {
    let order = moore_neighborhood(GridPos::new(0, 0));
    let empty = vec![false, true, true, false, true, true, false, true];
    let mut spawn = Vec::new();
    place_burst(burst(3), &order, &empty, &mut spawn);
    assert_eq!(positions(&spawn), vec![order[1], order[2], order[4]]);
}

#[test]
fn burst_is_capped_by_empty_cells() {
    let order = moore_neighborhood(GridPos::new(0, 0));
    let empty = vec![false, false, true, false, false, false, true, false];
    let mut spawn = Vec::new();
    place_burst(burst(8), &order, &empty, &mut spawn);
    assert_eq!(positions(&spawn), vec![order[2], order[6]]);
}

#[test]
fn burst_of_zero_spawns_nothing() {
    let order = moore_neighborhood(GridPos::new(0, 0));
    let empty = vec![true; 8];
    let mut spawn = Vec::new();
    place_burst(burst(0), &order, &empty, &mut spawn);
    assert!(spawn.is_empty());
}

#[test]
fn large_burst_is_capped_at_eight() {
    let order = moore_neighborhood(GridPos::new(-4, 7));
    let empty = vec![true; 8];
    let mut spawn = Vec::new();
    place_burst(burst(200), &order, &empty, &mut spawn);
    assert_eq!(positions(&spawn), order);
}

#[test]
fn burst_follows_the_given_order_and_appends() {
    let mut order = moore_neighborhood(GridPos::new(0, 0));
    order.reverse();
    let empty = vec![true; 8];
    let mut spawn = vec![SpawnParticleSignal::new(ParticleTypeId::from_raw(6), GridPos::new(50, 50))];
    place_burst(burst(2), &order, &empty, &mut spawn);
    assert_eq!(
        positions(&spawn),
        vec![GridPos::new(50, 50), GridPos::new(1, 1), GridPos::new(0, 1)]
    );
}
