use universe::atom::{Atom, Block, Neutrons, Nucleus, Protons};
use universe::builder::{calculate_charge, mutate_blocks_with_new_particles, Blocks, FieldCharge};

fn block_with(id: u32, electrons: u32, protons: u32, neutrons: u32) -> Block {
    Block {
        id,
        x: 0,
        y: 0,
        z: id,
        charge: 0,
        atom: Atom {
            electrons,
            nucleus: Nucleus { protons: Protons::new(protons), neutrons: Neutrons::new(neutrons) },
        },
    }
}

#[test]
fn it_can_begin() {
    let mut universe: Vec<Block> = vec![];

    Blocks::initialize_universe(5, &mut universe);

    assert_eq!(universe.len(), 125);

    assert_eq!(universe[0].x, 0);
    assert_eq!(universe[0].y, 0);
    assert_eq!(universe[0].z, 0);

    assert_eq!(universe[20].x, 0);
    assert_eq!(universe[20].y, 4);
    assert_eq!(universe[20].z, 0);
}

#[test]
fn it_can_infer_the_charge_of_an_atom() {
    let mut universe: Vec<Block> = vec![];

    let mut neturon: [u64; 1] = [0];
    let mut proton: [u64; 1] = [0];
    let mut electron: [u64; 1] = [0];

    let mut generated_universe: Vec<Block> = Blocks::initialize_universe(5, &mut universe);
    Blocks::tick(5, &mut generated_universe);
    Blocks::particles(&mut generated_universe, &mut neturon, &mut proton, &mut electron);
    Blocks::atom_charge(&mut generated_universe);

    assert_eq!(generated_universe.len(), 125);
}

#[test]
fn it_can_sense_the_field() {
    let mut universe: Vec<Block> = vec![];

    let mut neturon: [u64; 1] = [0];
    let mut proton: [u64; 1] = [0];
    let mut electron: [u64; 1] = [0];

    universe = Blocks::initialize_universe(2, &mut universe);
    Blocks::particles(&mut universe, &mut neturon, &mut proton, &mut electron);

    assert_eq!(universe.len(), 8);
    assert_eq!(neturon.len(), 1);
    assert_eq!(proton.len(), 1);
    assert_eq!(electron.len(), 1);
}

#[test]
fn build_gives_a_cube_in_construction_order() {
    let mut universe: Vec<Block> = vec![];
    let copy = Blocks::initialize_universe(3, &mut universe);
    assert_eq!(universe.len(), 27);
    assert_eq!(copy, universe);
    let mut i: u32 = 0;
    for x in 0..3u32 {
        for y in 0..3u32 {
            for z in 0..3u32 {
                let b = universe[i as usize];
                assert_eq!(b.id, i);
                assert_eq!((b.x, b.y, b.z), (x, y, z));
                assert_eq!(b.id, x * 9 + y * 3 + z);
                assert_eq!(b.charge, 0);
                assert_eq!(b.atom.electrons, 0);
                assert_eq!(b.atom.nucleus.protons.count, 0);
                assert_eq!(b.atom.nucleus.neutrons.count, 0);
                i += 1;
            }
        }
    }
}

#[test]
fn build_appends_after_existing_cells() {
    let mut universe: Vec<Block> = vec![block_with(99, 1, 2, 3)];
    let copy = Blocks::initialize_universe(2, &mut universe);
    assert_eq!(universe.len(), 9);
    assert_eq!(copy.len(), 9);
    assert_eq!(universe[0].id, 99);
    assert_eq!(universe[1].id, 0);
    assert_eq!(universe[8].id, 7);
    assert_eq!((universe[8].x, universe[8].y, universe[8].z), (1, 1, 1));
}

#[test]
fn tick_resamples_every_cell_into_range() {
    let mut universe: Vec<Block> = vec![];
    let mut grid = Blocks::initialize_universe(4, &mut universe);
    let before = grid.clone();
    let ticked = Blocks::tick(4, &mut grid);
    assert_eq!(grid, before);
    assert_eq!(ticked.len(), 64);
    for (i, b) in ticked.iter().enumerate() {
        assert_eq!(b.id, before[i].id);
        assert_eq!((b.x, b.y, b.z), (before[i].x, before[i].y, before[i].z));
        assert_eq!(b.charge, before[i].charge);
        assert!(b.atom.electrons < 118);
        assert!(b.atom.nucleus.protons.count < 118);
        assert!(b.atom.nucleus.neutrons.count < 118);
    }
}

#[test]
fn tick_leaves_stale_charge_until_classified() {
    let mut grid = vec![block_with(0, 0, 0, 0), block_with(1, 0, 0, 0)];
    grid[0].charge = 1;
    grid[1].charge = -1;
    let ticked = Blocks::tick(1, &mut grid);
    assert_eq!(ticked[0].charge, 1);
    assert_eq!(ticked[1].charge, -1);
}

#[test]
fn tick_on_empty_grid() {
    let mut grid: Vec<Block> = vec![];
    let ticked = Blocks::tick(0, &mut grid);
    assert!(ticked.is_empty());
}

#[test]
fn particles_sum_each_kind() {
    let mut grid = vec![block_with(0, 1, 10, 100), block_with(1, 2, 20, 200), block_with(2, 3, 30, 300)];
    let mut n: [u64; 1] = [0];
    let mut p: [u64; 1] = [0];
    let mut e: [u64; 1] = [0];
    Blocks::particles(&mut grid, &mut n, &mut p, &mut e);
    assert_eq!(n, [600]);
    assert_eq!(p, [60]);
    assert_eq!(e, [6]);
    assert_eq!(grid[1].atom.electrons, 2);
}

#[test]
fn particles_do_not_overflow_u32() {
    let mut grid = vec![block_with(0, u32::MAX, u32::MAX, 1), block_with(1, u32::MAX, 1, 1)];
    let mut n: [u64; 1] = [0];
    let mut p: [u64; 1] = [0];
    let mut e: [u64; 1] = [0];
    Blocks::particles(&mut grid, &mut n, &mut p, &mut e);
    assert_eq!(e, [2 * u32::MAX as u64]);
    assert_eq!(p, [u32::MAX as u64 + 1]);
    assert_eq!(n, [2]);
}

#[test]
fn particles_agree_with_chunked_sums() {
    let mut universe: Vec<Block> = vec![];
    let mut built = Blocks::initialize_universe(3, &mut universe);
    let mut grid = Blocks::tick(3, &mut built);
    let mut n: [u64; 1] = [0];
    let mut p: [u64; 1] = [0];
    let mut e: [u64; 1] = [0];
    Blocks::particles(&mut grid, &mut n, &mut p, &mut e);
    let sequential: u64 = grid.iter().map(|b| b.atom.electrons as u64).sum();
    let chunked: u64 = grid
        .chunks(4)
        .rev()
        .map(|c| c.iter().map(|b| b.atom.electrons as u64).sum::<u64>())
        .sum();
    assert_eq!(e[0], sequential);
    assert_eq!(e[0], chunked);
    assert_eq!(p[0], grid.iter().map(|b| b.atom.nucleus.protons.count as u64).sum::<u64>());
    assert_eq!(n[0], grid.iter().map(|b| b.atom.nucleus.neutrons.count as u64).sum::<u64>());
}

#[test]
fn calculate_charge_covers_each_branch() {
    let mut balanced = block_with(0, 5, 5, 9);
    calculate_charge(&mut balanced);
    assert_eq!(balanced.charge, 0);

    let mut cation = block_with(1, 4, 5, 9);
    calculate_charge(&mut cation);
    assert_eq!(cation.charge, 1);

    let mut anion = block_with(2, 6, 5, 9);
    calculate_charge(&mut anion);
    assert_eq!(anion.charge, -1);
    assert_eq!(anion.atom.nucleus.neutrons.count, 9);
    assert_eq!(anion.id, 2);
}

#[test]
fn calculate_charge_is_idempotent() {
    let mut b = block_with(3, 10, 117, 0);
    b.charge = -1;
    calculate_charge(&mut b);
    let once = b;
    calculate_charge(&mut b);
    assert_eq!(b, once);
    assert_eq!(b.charge, 1);
}

#[test]
fn atom_charge_recomputes_every_cell() {
    let mut grid = vec![block_with(0, 1, 1, 0), block_with(1, 0, 3, 0), block_with(2, 7, 2, 0)];
    grid[0].charge = 1;
    Blocks::atom_charge(&mut grid);
    let charges: Vec<i32> = grid.iter().map(|b| b.charge).collect();
    assert_eq!(charges, vec![0, 1, -1]);
}

#[test]
fn mutate_keeps_identity_and_draws_in_range() {
    let mut rng = rand::thread_rng();
    let mut b = block_with(42, 500, 600, 700);
    b.x = 3;
    b.y = 4;
    b.charge = -1;
    mutate_blocks_with_new_particles(&mut rng, &mut b);
    assert_eq!((b.id, b.x, b.y, b.z, b.charge), (42, 3, 4, 42, -1));
    assert!(b.atom.electrons < 118);
    assert!(b.atom.nucleus.protons.count < 118);
    assert!(b.atom.nucleus.neutrons.count < 118);
}

#[test]
fn field_classification_around_expected() {
    for n in [1u32, 2, 5] {
        let expected = (n as u64).pow(3);
        assert_eq!(Blocks::charge_of_field(expected, expected, n), FieldCharge::Neutral);
        assert_eq!(Blocks::charge_of_field(expected + 1, expected, n), FieldCharge::Cationic);
        assert_eq!(Blocks::charge_of_field(expected - 1, expected, n), FieldCharge::Anionic);
    }
}

#[test]
fn field_classification_catch_all() {
    assert_eq!(Blocks::charge_of_field(8, 9, 2), FieldCharge::Anionic);
    assert_eq!(Blocks::charge_of_field(20, 20, 2), FieldCharge::Anionic);
    assert_eq!(Blocks::charge_of_field(20, 19, 2), FieldCharge::Cationic);
    assert_eq!(Blocks::charge_of_field(0, 0, 1), FieldCharge::Anionic);
    assert_eq!(Blocks::charge_of_field(u64::MAX, 0, u32::MAX), FieldCharge::Anionic);
}

#[test]
fn end_to_end_side_two() {
    let mut universe: Vec<Block> = vec![];
    let mut grid = Blocks::initialize_universe(2, &mut universe);
    assert_eq!(grid.len(), 8);
    let mut ticked = Blocks::tick(2, &mut grid);
    assert_eq!(ticked.len(), 8);
    for b in &ticked {
        assert!(b.atom.electrons < 118);
        assert!(b.atom.nucleus.protons.count < 118);
        assert!(b.atom.nucleus.neutrons.count < 118);
    }
    let mut n: [u64; 1] = [0];
    let mut p: [u64; 1] = [0];
    let mut e: [u64; 1] = [0];
    Blocks::particles(&mut ticked, &mut n, &mut p, &mut e);
    assert!(n[0] <= 8 * 117);
    assert!(p[0] <= 8 * 117);
    assert!(e[0] <= 8 * 117);
}

#[test]
fn end_to_end_empty() {
    let mut universe: Vec<Block> = vec![];
    let mut grid = Blocks::initialize_universe(0, &mut universe);
    assert_eq!(grid.len(), 0);
    let mut n: [u64; 1] = [7];
    let mut p: [u64; 1] = [7];
    let mut e: [u64; 1] = [7];
    Blocks::particles(&mut grid, &mut n, &mut p, &mut e);
    assert_eq!((n[0], p[0], e[0]), (0, 0, 0));
    assert_eq!(Blocks::charge_of_field(0, 0, 0), FieldCharge::Neutral);
}
