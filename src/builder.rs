//! Building the grid, advancing it by one tick, summing its particles and
//! classifying its charge.

use vstd::prelude::*;
use crate::atom::{Atom, Block, Neutrons, Nucleus, Particle, Protons, PARTICLE_BOUND};
use crate::sampling::{draw_below, par_resample, par_total};

verus! {

/// The operations on a grid of cells.
pub struct Blocks {}

/// Number of cells in a cube of side `n`.
pub open spec fn cube(n: int) -> int {
    n * n * n
}

/// Position, in construction order, of the cell at `(x, y, z)` in a cube of
/// side `n`: x is the outer coordinate, z the inner one.
pub open spec fn flat_index(n: int, x: int, y: int, z: int) -> int {
    x * n * n + y * n + z
}

/// The cell that construction places at `(x, y, z)` with identifier `id`.
pub open spec fn fresh_block(id: int, x: int, y: int, z: int) -> Block {
    Block {
        id: id as u32,
        x: x as u32,
        y: y as u32,
        z: z as u32,
        charge: 0,
        atom: Atom {
            electrons: 0,
            nucleus: Nucleus { protons: Protons { count: 0 }, neutrons: Neutrons { count: 0 } },
        },
    }
}

/// `cells` is a freshly built cube of side `n`: `n^3` cells at rest, whose
/// identifiers count up from 0, laid out x, then y, then z.
pub open spec fn is_universe(cells: Seq<Block>, n: int) -> bool {
    &&& cells.len() == cube(n)
    &&& forall|i: int|
        0 <= i < cells.len() ==> {
            &&& #[trigger] cells[i].id == i
            &&& cells[i].x < n
            &&& cells[i].y < n
            &&& cells[i].z < n
            &&& cells[i].charge == 0
            &&& cells[i].atom == fresh_block(0, 0, 0, 0).atom
        }
    &&& forall|x: int, y: int, z: int|
        0 <= x < n && 0 <= y < n && 0 <= z < n ==> #[trigger] cells[flat_index(n, x, y, z)]
            == fresh_block(flat_index(n, x, y, z), x, y, z)
}

/// Grid-wide number of particles of one kind, summed cell by cell in order.
pub open spec fn total(cells: Seq<Block>, kind: Particle) -> nat
    decreases cells.len(),
{
    if cells.len() == 0 {
        0
    } else {
        total(cells.drop_last(), kind) + cells.last().count_of(kind) as nat
    }
}

/// Total of one kind of particle reduced chunk by chunk: each run of `chunk`
/// cells is summed on its own and the partial sums are then added.
pub open spec fn chunked_total(cells: Seq<Block>, chunk: int, kind: Particle) -> nat
    decreases cells.len(),
{
    if chunk <= 0 || cells.len() <= chunk {
        total(cells, kind)
    } else {
        total(cells.subrange(0, chunk), kind) + chunked_total(
            cells.subrange(chunk, cells.len() as int),
            chunk,
            kind,
        )
    }
}

/// Splitting the grid at any point, summing both parts and adding the two
/// partial sums gives the sequential total.
pub proof fn lemma_total_split(cells: Seq<Block>, k: int, kind: Particle)
    requires
        0 <= k <= cells.len(),
    ensures
        total(cells, kind) == total(cells.subrange(0, k), kind) + total(
            cells.subrange(k, cells.len() as int),
            kind,
        ),
    decreases cells.len(),
{
    if k == cells.len() {
        assert(cells.subrange(0, k) =~= cells);
        assert(cells.subrange(k, cells.len() as int) =~= Seq::<Block>::empty());
    } else {
        let front = cells.drop_last();
        lemma_total_split(front, k, kind);
        assert(front.subrange(0, k) =~= cells.subrange(0, k));
        let back = cells.subrange(k, cells.len() as int);
        assert(back.drop_last() =~= front.subrange(k, front.len() as int));
        assert(back.last() == cells.last());
    }
}

/// The order in which two partial sums are combined does not matter.
pub proof fn lemma_total_commutes(a: Seq<Block>, b: Seq<Block>, kind: Particle)
    ensures
        total(a + b, kind) == total(b + a, kind),
        total(a + b, kind) == total(a, kind) + total(b, kind),
{
    lemma_total_split(a + b, a.len() as int, kind);
    assert((a + b).subrange(0, a.len() as int) =~= a);
    assert((a + b).subrange(a.len() as int, (a + b).len() as int) =~= b);
    lemma_total_split(b + a, b.len() as int, kind);
    assert((b + a).subrange(0, b.len() as int) =~= b);
    assert((b + a).subrange(b.len() as int, (b + a).len() as int) =~= a);
}

/// A reduction over chunks of any positive size yields the sequential total.
pub proof fn lemma_chunked_total(cells: Seq<Block>, chunk: int, kind: Particle)
    requires
        0 < chunk,
    ensures
        chunked_total(cells, chunk, kind) == total(cells, kind),
    decreases cells.len(),
{
    if cells.len() > chunk {
        lemma_total_split(cells, chunk, kind);
        lemma_chunked_total(cells.subrange(chunk, cells.len() as int), chunk, kind);
    }
}

/// When every count is one the generator may produce, a total is at most
/// `PARTICLE_BOUND - 1` per cell.
pub proof fn lemma_total_bounded(cells: Seq<Block>, kind: Particle)
    requires
        forall|i: int| 0 <= i < cells.len() ==> #[trigger] cells[i].count_of(kind) < PARTICLE_BOUND,
    ensures
        total(cells, kind) <= (PARTICLE_BOUND - 1) * cells.len(),
    decreases cells.len(),
{
    if cells.len() > 0 {
        let front = cells.drop_last();
        assert forall|i: int| 0 <= i < front.len() implies #[trigger] front[i].count_of(kind)
            < PARTICLE_BOUND by {
            assert(front[i] == cells[i]);
        }
        lemma_total_bounded(front, kind);
        assert(cells[cells.len() - 1].count_of(kind) < PARTICLE_BOUND);
    }
}

/// After a tick every total is at most `PARTICLE_BOUND - 1` per cell,
/// whatever the grid held before.
pub proof fn lemma_ticked_totals_bounded(before: Seq<Block>, after: Seq<Block>, kind: Particle)
    requires
        after.len() == before.len(),
        forall|i: int| 0 <= i < after.len() ==> #[trigger] after[i].resampled_from(before[i]),
    ensures
        total(after, kind) <= (PARTICLE_BOUND - 1) * after.len(),
{
    assert forall|i: int| 0 <= i < after.len() implies #[trigger] after[i].count_of(kind)
        < PARTICLE_BOUND by {
        assert(after[i].resampled_from(before[i]));
    }
    lemma_total_bounded(after, kind);
}

/// In a freshly built cube the identifiers are unique and run from 0 up to
/// the number of cells, in construction order.
pub proof fn lemma_universe_ids(cells: Seq<Block>, n: int)
    requires
        is_universe(cells, n),
    ensures
        forall|i: int, j: int|
            0 <= i < cells.len() && 0 <= j < cells.len() && i != j ==> #[trigger] cells[i].id
                != #[trigger] cells[j].id,
        forall|i: int| 0 <= i < cells.len() ==> #[trigger] cells[i].id == i,
        cells.len() > 0 ==> cells[0].id == 0 && cells[cells.len() - 1].id == cube(n) - 1,
{
    assert forall|i: int, j: int|
        0 <= i < cells.len() && 0 <= j < cells.len() && i != j implies #[trigger] cells[i].id
            != #[trigger] cells[j].id by {
        assert(cells[i].id == i);
        assert(cells[j].id == j);
    }
    if cells.len() > 0 {
        assert(cells[0].id == 0);
        assert(cells[cells.len() - 1].id == cells.len() - 1);
    }
}

/// Net charge category of the whole grid.
#[derive(Clone, Copy, Debug, PartialEq, Eq, Structural)]
pub enum FieldCharge {
    Neutral,
    Cationic,
    Anionic,
}

/// Category of a grid of side `side` whose totals are `protons` and
/// `electrons`; each cell counts one at rest. The last branch takes every case
/// that the first two leave.
pub open spec fn field_rule(protons: int, electrons: int, side: int) -> FieldCharge {
    let expected = cube(side);
    if protons == expected && electrons == expected {
        FieldCharge::Neutral
    } else if protons > expected && electrons < protons {
        FieldCharge::Cationic
    } else {
        FieldCharge::Anionic
    }
}

/// Cells at `(x, y, z)` that come before `(cx, cy, cz)` in construction order.
pub open spec fn built_before(x: int, y: int, z: int, cx: int, cy: int, cz: int) -> bool {
    x < cx || (x == cx && y < cy) || (x == cx && y == cy && z < cz)
}

proof fn lemma_index_order(n: int, x: int, y: int, z: int, cx: int, cy: int, cz: int)
    requires
        0 <= x < n,
        0 <= y < n,
        0 <= z < n,
        0 <= cx,
        0 <= cy <= n,
        0 <= cz <= n,
        built_before(x, y, z, cx, cy, cz),
    ensures
        0 <= flat_index(n, x, y, z) < flat_index(n, cx, cy, cz),
{
    assert(0 <= y * n + z < n * n) by (nonlinear_arith)
        requires
            0 <= y < n,
            0 <= z < n,
    ;
    assert(0 <= x * n * n) by (nonlinear_arith)
        requires
            0 <= x,
            0 <= n,
    ;
    if x < cx {
        assert(x * n * n + n * n <= cx * n * n) by (nonlinear_arith)
            requires
                x < cx,
                0 <= n,
        ;
        assert(0 <= cy * n + cz) by (nonlinear_arith)
            requires
                0 <= cy,
                0 <= cz,
                0 <= n,
        ;
    } else if y < cy {
        assert(y * n + n <= cy * n) by (nonlinear_arith)
            requires
                y < cy,
                0 <= n,
        ;
    }
}

impl Blocks {
    /// Appends to `uni` the cells of a cube of side `parsed_size`, in x, y, z
    /// order with identifiers counting up from 0, all at rest, and returns a
    /// copy of the whole of `uni`.
    pub fn initialize_universe(parsed_size: u32, uni: &mut Vec<Block>) -> (r: Vec<Block>)
        requires
            cube(parsed_size as int) <= u32::MAX,
        ensures
            final(uni)@.len() == old(uni)@.len() + cube(parsed_size as int),
            final(uni)@.subrange(0, old(uni)@.len() as int) == old(uni)@,
            is_universe(
                final(uni)@.subrange(old(uni)@.len() as int, final(uni)@.len() as int),
                parsed_size as int,
            ),
            r@ == final(uni)@,
    {
        let ghost base = uni@.len();
        let ghost n = parsed_size as int;
        let mut id: u32 = 0;
        let mut x: u32 = 0;
        while x < parsed_size
            invariant
                n == parsed_size,
                cube(n) <= u32::MAX,
                x <= n,
                base == old(uni)@.len(),
                uni@.subrange(0, base as int) == old(uni)@,
                id == x * n * n,
                uni@.len() == base + id,
                forall|cx: int, cy: int, cz: int|
                    0 <= cx < n && 0 <= cy < n && 0 <= cz < n && built_before(cx, cy, cz, x as int, 0, 0)
                        ==> #[trigger] uni@[base + flat_index(n, cx, cy, cz)] == fresh_block(
                        flat_index(n, cx, cy, cz),
                        cx,
                        cy,
                        cz,
                    ),
            decreases parsed_size - x,
        {
            assert((x + 1) * n * n <= n * n * n) by (nonlinear_arith)
                requires
                    x < n,
                    0 <= n,
            ;
            let mut y: u32 = 0;
            while y < parsed_size
                invariant
                    n == parsed_size,
                    cube(n) <= u32::MAX,
                    x < n,
                    y <= n,
                    (x + 1) * n * n <= n * n * n,
                    base == old(uni)@.len(),
                    uni@.subrange(0, base as int) == old(uni)@,
                    id == x * n * n + y * n,
                    uni@.len() == base + id,
                    forall|cx: int, cy: int, cz: int|
                        0 <= cx < n && 0 <= cy < n && 0 <= cz < n && built_before(cx, cy, cz, x as int, y as int, 0)
                            ==> #[trigger] uni@[base + flat_index(n, cx, cy, cz)] == fresh_block(
                            flat_index(n, cx, cy, cz),
                            cx,
                            cy,
                            cz,
                        ),
                decreases parsed_size - y,
            {
                assert(x * n * n + (y + 1) * n <= (x + 1) * n * n) by (nonlinear_arith)
                    requires
                        y < n,
                        0 <= n,
                ;
                let mut z: u32 = 0;
                while z < parsed_size
                    invariant
                        n == parsed_size,
                        cube(n) <= u32::MAX,
                        x < n,
                        y < n,
                        z <= n,
                        x * n * n + (y + 1) * n <= n * n * n,
                        base == old(uni)@.len(),
                        uni@.subrange(0, base as int) == old(uni)@,
                        id == x * n * n + y * n + z,
                        uni@.len() == base + id,
                        forall|cx: int, cy: int, cz: int|
                            0 <= cx < n && 0 <= cy < n && 0 <= cz < n && built_before(
                                cx,
                                cy,
                                cz,
                                x as int,
                                y as int,
                                z as int,
                            ) ==> #[trigger] uni@[base + flat_index(n, cx, cy, cz)] == fresh_block(
                                flat_index(n, cx, cy, cz),
                                cx,
                                cy,
                                cz,
                            ),
                    decreases parsed_size - z,
                {
                    let generated_protons = Protons::new(0);
                    let generated_neutrons = Neutrons::new(0);
                    uni.push(
                        Block {
                            id,
                            x,
                            y,
                            z,
                            charge: 0,
                            atom: Atom {
                                electrons: 0,
                                nucleus: Nucleus {
                                    protons: generated_protons,
                                    neutrons: generated_neutrons,
                                },
                            },
                        },
                    );
                    assert forall|cx: int, cy: int, cz: int|
                        0 <= cx < n && 0 <= cy < n && 0 <= cz < n && built_before(
                            cx,
                            cy,
                            cz,
                            x as int,
                            y as int,
                            z + 1,
                        ) implies #[trigger] uni@[base + flat_index(n, cx, cy, cz)] == fresh_block(
                        flat_index(n, cx, cy, cz),
                        cx,
                        cy,
                        cz,
                    ) by {
                        if built_before(cx, cy, cz, x as int, y as int, z as int) {
                            lemma_index_order(n, cx, cy, cz, x as int, y as int, z as int);
                        }
                    }
                    assert(uni@.subrange(0, base as int) =~= old(uni)@);
                    assert(id + 1 <= x * n * n + (y + 1) * n) by (nonlinear_arith)
                        requires
                            id == x * n * n + y * n + z,
                            z < n,
                    ;
                    id = id + 1;
                    z = z + 1;
                }
                assert(id == x * n * n + (y + 1) * n) by (nonlinear_arith)
                    requires
                        id == x * n * n + y * n + n,
                ;
                y = y + 1;
            }
            assert(id == (x + 1) * n * n) by (nonlinear_arith)
                requires
                    id == x * n * n + n * n,
            ;
            x = x + 1;
        }
        let ghost built = uni@.subrange(base as int, uni@.len() as int);
        assert forall|i: int| 0 <= i < built.len() implies {
            &&& #[trigger] built[i].id == i
            &&& built[i].x < n
            &&& built[i].y < n
            &&& built[i].z < n
            &&& built[i].charge == 0
            &&& built[i].atom == fresh_block(0, 0, 0, 0).atom
        } by {
            lemma_coordinates_of(n, i);
            let cx = i / (n * n);
            let cy = (i / n) % n;
            let cz = i % n;
            assert(uni@[base + flat_index(n, cx, cy, cz)] == fresh_block(flat_index(n, cx, cy, cz), cx, cy, cz));
        }
        assert forall|cx: int, cy: int, cz: int|
            0 <= cx < n && 0 <= cy < n && 0 <= cz < n implies #[trigger] built[flat_index(n, cx, cy, cz)]
                == fresh_block(flat_index(n, cx, cy, cz), cx, cy, cz) by {
            lemma_index_order(n, cx, cy, cz, n, 0, 0);
            assert(uni@[base + flat_index(n, cx, cy, cz)] == fresh_block(flat_index(n, cx, cy, cz), cx, cy, cz));
        }
        uni.clone()
    }

    /// Returns a copy of `universe` in which every cell's particle counts are
    /// drawn anew, chunk by chunk of `parsed_size` cells in parallel; charges
    /// are left as they were. `universe` itself is unchanged.
    pub fn tick(parsed_size: u32, universe: &mut Vec<Block>) -> (r: Vec<Block>)
        requires
            parsed_size > 0 || old(universe)@.len() == 0,
        ensures
            *final(universe) == *old(universe),
            r@.len() == old(universe)@.len(),
            forall|i: int|
                0 <= i < r@.len() ==> #[trigger] r@[i].resampled_from(old(universe)@[i]),
    {
        let mut uni_copy = universe.clone();
        assert(uni_copy@ =~= universe@);
        if uni_copy.len() > 0 {
            par_resample(&mut uni_copy, parsed_size as usize);
        }
        uni_copy
    }

    /// Writes into each array the grid-wide total of one kind of particle.
    /// The grid is left unchanged.
    pub fn particles(
        universe: &mut Vec<Block>,
        neutron: &mut [u64; 1],
        proton: &mut [u64; 1],
        electron: &mut [u64; 1],
    )
        requires
            total(old(universe)@, Particle::Neutron) <= u64::MAX,
            total(old(universe)@, Particle::Proton) <= u64::MAX,
            total(old(universe)@, Particle::Electron) <= u64::MAX,
        ensures
            *final(universe) == *old(universe),
            final(neutron)@ == seq![total(old(universe)@, Particle::Neutron) as u64],
            final(proton)@ == seq![total(old(universe)@, Particle::Proton) as u64],
            final(electron)@ == seq![total(old(universe)@, Particle::Electron) as u64],
    {
        neutron[0] = par_total(universe, Particle::Neutron);
        proton[0] = par_total(universe, Particle::Proton);
        electron[0] = par_total(universe, Particle::Electron);
        assert(neutron@ =~= seq![total(universe@, Particle::Neutron) as u64]);
        assert(proton@ =~= seq![total(universe@, Particle::Proton) as u64]);
        assert(electron@ =~= seq![total(universe@, Particle::Electron) as u64]);
    }

    /// Classifies the whole grid of side `u` by its proton and electron totals.
    pub fn charge_of_field(proton: u64, electron: u64, u: u32) -> (r: FieldCharge)
        ensures
            r == field_rule(proton as int, electron as int, u as int),
    {
        let side = u as u128;
        assert(side * side <= u32::MAX * u32::MAX) by (nonlinear_arith)
            requires
                side <= u32::MAX,
        ;
        assert(side * side * side <= u32::MAX * u32::MAX * u32::MAX) by (nonlinear_arith)
            requires
                side <= u32::MAX,
                side * side <= u32::MAX * u32::MAX,
        ;
        let size: u128 = side * side * side;
        let p = proton as u128;
        let e = electron as u128;
        if p == size && e == size {
            FieldCharge::Neutral
        } else if p > size && e < p {
            FieldCharge::Cationic
        } else {
            FieldCharge::Anionic
        }
    }

    /// Recomputes the charge of every cell from its particle counts.
    pub fn atom_charge(universe: &mut Vec<Block>)
        ensures
            final(universe)@.len() == old(universe)@.len(),
            forall|i: int|
                0 <= i < old(universe)@.len() ==> #[trigger] final(universe)@[i]
                    == old(universe)@[i].recharged(),
    {
        let len = universe.len();
        let mut i: usize = 0;
        while i < len
            invariant
                len == old(universe)@.len(),
                universe@.len() == len,
                i <= len,
                forall|j: int| 0 <= j < i ==> #[trigger] universe@[j] == old(universe)@[j].recharged(),
                forall|j: int| i <= j < len ==> #[trigger] universe@[j] == old(universe)@[j],
            decreases len - i,
        {
            calculate_charge(&mut universe[i]);
            i = i + 1;
        }
    }
}

/// Draws all three particle counts of `block` anew, each below
/// `PARTICLE_BOUND`; identity, coordinates and charge are kept.
pub fn mutate_blocks_with_new_particles(rng: &mut rand::rngs::ThreadRng, block: &mut Block)
    ensures
        final(block).resampled_from(*old(block)),
{
    let electrons = draw_below(rng, PARTICLE_BOUND);
    let protons = draw_below(rng, PARTICLE_BOUND);
    let neutrons = draw_below(rng, PARTICLE_BOUND);
    block.atom.electrons = electrons;
    block.atom.nucleus.protons = Protons::new(protons);
    block.atom.nucleus.neutrons = Neutrons::new(neutrons);
}

/// Resamples the cells of one chunk in order, with the chunk's own generator.
pub(crate) fn resample_chunk(rng: &mut rand::rngs::ThreadRng, blocks: &mut [Block])
    ensures
        final(blocks)@.len() == old(blocks)@.len(),
        forall|i: int|
            0 <= i < old(blocks)@.len() ==> #[trigger] final(blocks)@[i].resampled_from(old(blocks)@[i]),
{
    let len = blocks.len();
    let mut i: usize = 0;
    while i < len
        invariant
            len == old(blocks)@.len(),
            blocks@.len() == len,
            i <= len,
            forall|j: int| 0 <= j < i ==> #[trigger] blocks@[j].resampled_from(old(blocks)@[j]),
            forall|j: int| i <= j < len ==> #[trigger] blocks@[j] == old(blocks)@[j],
        decreases len - i,
    {
        let mut block = blocks[i];
        mutate_blocks_with_new_particles(rng, &mut block);
        blocks[i] = block;
        i = i + 1;
    }
}

/// Sets the charge of `block` from its particle counts: 0 when protons and
/// electrons balance, 1 when protons outnumber electrons, -1 otherwise.
pub fn calculate_charge(block: &mut Block)
    ensures
        *final(block) == old(block).recharged(),
{
    if block.atom.nucleus.protons.count == block.atom.electrons {
        block.charge = 0;
    } else if block.atom.nucleus.protons.count > block.atom.electrons {
        block.charge = 1;
    } else {
        block.charge = -1;
    }
}

/// Every position below `n^3` is the flat index of the coordinates that
/// division by `n` gives back.
proof fn lemma_coordinates_of(n: int, i: int)
    requires
        0 <= i < n * n * n,
    ensures
        0 <= i / (n * n) < n,
        0 <= (i / n) % n < n,
        0 <= i % n < n,
        flat_index(n, i / (n * n), (i / n) % n, i % n) == i,
{
    assert(n > 0) by (nonlinear_arith)
        requires
            0 <= i < n * n * n,
    ;
    assert(n * n > 0) by (nonlinear_arith)
        requires
            n > 0,
    ;
    let q = i / n;
    vstd::arithmetic::div_mod::lemma_fundamental_div_mod(i, n);
    vstd::arithmetic::div_mod::lemma_fundamental_div_mod(q, n);
    vstd::arithmetic::div_mod::lemma_div_denominator(i, n, n);
    assert(i / (n * n) == q / n);
    vstd::arithmetic::div_mod::lemma_mod_bound(i, n);
    vstd::arithmetic::div_mod::lemma_mod_bound(q, n);
    assert(0 <= q < n * n) by (nonlinear_arith)
        requires
            0 <= i < n * n * n,
            q == i / n,
            n > 0,
    ;
    vstd::arithmetic::div_mod::lemma_div_pos_is_pos(q, n);
    vstd::arithmetic::div_mod::lemma_multiply_divide_lt(q, n, n);
    assert(i == (q / n) * n * n + (q % n) * n + i % n) by (nonlinear_arith)
        requires
            i == n * q + i % n,
            q == n * (q / n) + q % n,
    ;
}

} // verus!
