//! The simulation: a lattice of particles, the probability with which a
//! particle changes its direction, and the operations on them.
use crate::chance::{
    generate_other_direction, generate_random_direction, happens, local_generator, Probability,
};
use crate::direction::VertexState;
use crate::grid::{
    all_empty, all_occupied, count_occupied, is_square, lemma_sum_cells_equal, occupancy, put,
    rows, same_occupancy, Grid,
};
use crate::movement::{advance, lemma_moved_conserves, moved};
use crate::shell::{indexes_in_distance, shell, UnsupportedDistance, MAX_DISTANCE};
use crate::statistic::{
    count_pairs, count_particles, distribution, lemma_distribution_is_a_fraction, Ratio,
};
use vstd::prelude::*;

verus! {

/// Why a simulation cannot be set up.
#[derive(PartialEq, Eq, Structural, Clone, Copy, Debug)]
pub enum ConfigError {
    /// The probability of a change of direction is no fraction between 0 and 1.
    AlfaOutOfRange,
    /// The side of the lattice is zero, or the lattice has more cells than can
    /// be addressed.
    SizeOutOfRange,
    /// The number of particles is negative or larger than the number of cells.
    ParticleCountOutOfRange,
    /// The lines of the lattice are not all as long as the lattice is wide.
    NotSquare,
}

/// A lattice gas on a periodic square lattice.
pub struct System {
    particles: Vec<Vec<VertexState>>,
    alfa: Probability,
    size: usize,
}

/// Whether a lattice of side `size` can be held: it has at least one cell and
/// no more cells than can be addressed.
pub open spec fn size_fits(size: usize) -> bool {
    1 <= size && size * size <= usize::MAX
}

/// The fault in the parameters of a new simulation, if there is one. The
/// probability is looked at first, then the size, then the number of
/// particles.
pub open spec fn config_fault(alfa: Probability, size: usize, particle_count: i32) -> Option<
    ConfigError,
> {
    if !alfa.valid() {
        Some(ConfigError::AlfaOutOfRange)
    } else if !size_fits(size) {
        Some(ConfigError::SizeOutOfRange)
    } else if particle_count < 0 || particle_count > size * size {
        Some(ConfigError::ParticleCountOutOfRange)
    } else {
        None
    }
}

/// The fault in a given lattice, if there is one. The probability is looked at
/// first, then the size, then the shape.
pub open spec fn lattice_fault(alfa: Probability, grid: Grid) -> Option<ConfigError> {
    if !alfa.valid() {
        Some(ConfigError::AlfaOutOfRange)
    } else if grid.len() == 0 || grid.len() * grid.len() > usize::MAX {
        Some(ConfigError::SizeOutOfRange)
    } else if !is_square(grid, grid.len()) {
        Some(ConfigError::NotSquare)
    } else {
        None
    }
}

/// Grids with particles in the same cells hold equally many.
pub proof fn lemma_same_occupancy_same_count(a: Grid, b: Grid)
    requires
        is_square(a, a.len()),
        same_occupancy(a, b),
    ensures
        count_occupied(a) == count_occupied(b),
{
    assert forall|x: int, y: int| 0 <= x < a.len() && 0 <= y < a.len() implies #[trigger] occupancy(
        a,
    )(x, y) == occupancy(b)(x, y) by {
        assert(a[x][y].occupied() == b[x][y].occupied());
    }
    lemma_sum_cells_equal(occupancy(a), occupancy(b), a.len(), a.len());
}

/// Whether the side fits: computes `size_fits`.
fn side_fits(size: usize) -> (r: bool)
    ensures
        r == size_fits(size),
{
    size >= 1 && size.checked_mul(size).is_some()
}

impl System {
    /// The lattice: `self@[x][y]` is the state of cell `(x, y)`.
    pub closed spec fn view(&self) -> Grid {
        rows(self.particles)
    }

    /// The probability with which a particle changes its direction in a step.
    pub closed spec fn alfa(&self) -> Probability {
        self.alfa
    }

    /// The side of the lattice.
    pub closed spec fn side(&self) -> usize {
        self.size
    }

    /// What holds of every simulation that the constructors hand out and that
    /// the operations keep: the lattice is a square of a side that fits, and
    /// the probability is a fraction between 0 and 1.
    pub open spec fn well_formed(&self) -> bool {
        &&& size_fits(self.side())
        &&& is_square(self@, self.side() as nat)
        &&& self.alfa().valid()
    }

    /// Sets up a simulation on a lattice of side `size`. Each cell gets a
    /// particle with probability `particle_count / size^2`, independently of
    /// the others, and each particle one of the four directions; so the
    /// lattice holds about `particle_count` particles, not exactly as many.
    pub fn new(alfa: Probability, size: usize, particle_count: i32) -> (r: Result<
        System,
        ConfigError,
    >)
        ensures
            match r {
                Ok(system) => {
                    &&& config_fault(alfa, size, particle_count) is None
                    &&& system.well_formed()
                    &&& system.side() == size
                    &&& system.alfa() == alfa
                    &&& particle_count == 0 ==> all_empty(system@)
                    &&& particle_count == size * size ==> all_occupied(system@)
                },
                Err(e) => config_fault(alfa, size, particle_count) == Some(e),
            },
    {
        if !alfa.is_valid() {
            return Err(ConfigError::AlfaOutOfRange);
        }
        if !side_fits(size) {
            return Err(ConfigError::SizeOutOfRange);
        }
        let cells: usize = size * size;
        assert(cells >= 1) by (nonlinear_arith)
            requires
                cells == size * size,
                size >= 1,
        ;
        if particle_count < 0 || particle_count as u64 > cells as u64 {
            return Err(ConfigError::ParticleCountOutOfRange);
        }
        let density = Probability { numerator: particle_count as u64, denominator: cells as u64 };
        let mut rng = local_generator();
        let mut particles: Vec<Vec<VertexState>> = Vec::new();
        let mut x: usize = 0;
        while x < size
            invariant
                x <= size,
                density.valid(),
                particles@.len() == x,
                forall|a: int| 0 <= a < x ==> (#[trigger] particles@[a])@.len() == size,
                density.never() ==> forall|a: int, b: int|
                    0 <= a < x && 0 <= b < size ==> !(#[trigger] particles@[a]@[b]).occupied(),
                density.certain() ==> forall|a: int, b: int|
                    0 <= a < x && 0 <= b < size ==> (#[trigger] particles@[a]@[b]).occupied(),
            decreases size - x,
        {
            let mut line: Vec<VertexState> = Vec::new();
            let mut y: usize = 0;
            while y < size
                invariant
                    y <= size,
                    density.valid(),
                    line@.len() == y,
                    density.never() ==> forall|b: int|
                        0 <= b < y ==> !(#[trigger] line@[b]).occupied(),
                    density.certain() ==> forall|b: int|
                        0 <= b < y ==> (#[trigger] line@[b]).occupied(),
                decreases size - y,
            {
                let state = if happens(&mut rng, density) {
                    generate_random_direction(&mut rng)
                } else {
                    VertexState::Empty
                };
                line.push(state);
                y += 1;
            }
            particles.push(line);
            x += 1;
        }
        Ok(System { alfa, particles, size })
    }

    /// Sets up a simulation on the given lattice, `particles[x][y]` being the
    /// state of cell `(x, y)`.
    pub fn from_particles(alfa: Probability, particles: Vec<Vec<VertexState>>) -> (r: Result<
        System,
        ConfigError,
    >)
        ensures
            match r {
                Ok(system) => {
                    &&& lattice_fault(alfa, rows(particles)) is None
                    &&& system.well_formed()
                    &&& system@ == rows(particles)
                    &&& system.alfa() == alfa
                },
                Err(e) => lattice_fault(alfa, rows(particles)) == Some(e),
            },
    {
        if !alfa.is_valid() {
            return Err(ConfigError::AlfaOutOfRange);
        }
        let size = particles.len();
        if !side_fits(size) {
            return Err(ConfigError::SizeOutOfRange);
        }
        let mut x: usize = 0;
        while x < size
            invariant
                x <= size,
                size == particles@.len(),
                alfa.valid(),
                size_fits(size),
                forall|a: int| 0 <= a < x ==> (#[trigger] particles@[a])@.len() == size,
            decreases size - x,
        {
            if particles[x].len() != size {
                assert(rows(particles)[x as int].len() != size);
                return Err(ConfigError::NotSquare);
            }
            x += 1;
        }
        Ok(System { alfa, particles, size })
    }

    /// The lattice as it is.
    pub fn get_particles(&self) -> (r: &Vec<Vec<VertexState>>)
        ensures
            rows(*r) == self@,
    {
        &self.particles
    }

    /// The number of particles on the lattice.
    pub fn particle_count(&self) -> (r: usize)
        requires
            self.well_formed(),
        ensures
            r == count_occupied(self@),
    {
        count_particles(&self.particles)
    }

    /// Gives each particle, with the probability of the simulation, a new
    /// direction other than the one it has. Empty cells stay empty.
    fn change_directions(&mut self)
        requires
            old(self).well_formed(),
        ensures
            final(self).well_formed(),
            final(self).side() == old(self).side(),
            final(self).alfa() == old(self).alfa(),
            same_occupancy(old(self)@, final(self)@),
            old(self).alfa().never() ==> final(self)@ == old(self)@,
            old(self).alfa().certain() ==> forall|x: int, y: int|
                0 <= x < old(self).side() && 0 <= y < old(self).side() && (#[trigger] old(
                    self,
                )@[x][y]).occupied() ==> final(self)@[x][y] != old(self)@[x][y],
    {
        let mut rng = local_generator();
        let size = self.size;
        let mut x: usize = 0;
        while x < size
            invariant
                x <= size,
                size == self.size,
                self.well_formed(),
                self.alfa == old(self).alfa,
                same_occupancy(old(self)@, self@),
                self.alfa.never() ==> self@ == old(self)@,
                forall|a: int, b: int|
                    x <= a < size && 0 <= b < size ==> (#[trigger] self@[a][b]) == old(
                        self,
                    )@[a][b],
                self.alfa.certain() ==> forall|a: int, b: int|
                    0 <= a < x && 0 <= b < size && (#[trigger] old(self)@[a][b]).occupied()
                        ==> self@[a][b] != old(self)@[a][b],
            decreases size - x,
        {
            let mut y: usize = 0;
            while y < size
                invariant
                    x < size,
                    y <= size,
                    size == self.size,
                    self.well_formed(),
                    self.alfa == old(self).alfa,
                    same_occupancy(old(self)@, self@),
                    self.alfa.never() ==> self@ == old(self)@,
                    forall|a: int, b: int|
                        x < a < size && 0 <= b < size ==> (#[trigger] self@[a][b]) == old(
                            self,
                        )@[a][b],
                    forall|b: int|
                        y <= b < size ==> (#[trigger] self@[x as int][b]) == old(
                            self,
                        )@[x as int][b],
                    self.alfa.certain() ==> forall|a: int, b: int|
                        (0 <= a < x && 0 <= b < size || a == x && 0 <= b < y) && (#[trigger] old(
                            self,
                        )@[a][b]).occupied() ==> self@[a][b] != old(self)@[a][b],
                decreases size - y,
            {
                assert(self@[x as int].len() == size);
                let current = self.particles[x][y];
                if current.is_occupied() && happens(&mut rng, self.alfa) {
                    let ghost before = self@;
                    let turned = generate_other_direction(&mut rng, current);
                    self.particles[x][y] = turned;
                    assert(self@ =~= put(before, x as int, y as int, turned));
                }
                y += 1;
            }
            x += 1;
        }
    }

    /// Advances the simulation by one step: every particle moves one cell
    /// along its direction unless the cell ahead is taken, then each particle
    /// changes its direction with the probability of the simulation.
    pub fn step(&mut self)
        requires
            old(self).well_formed(),
        ensures
            final(self).well_formed(),
            final(self).side() == old(self).side(),
            final(self).alfa() == old(self).alfa(),
            same_occupancy(moved(old(self)@), final(self)@),
            count_occupied(final(self)@) == count_occupied(old(self)@),
            old(self).alfa().never() ==> final(self)@ == moved(old(self)@),
            old(self).alfa().certain() ==> forall|x: int, y: int|
                0 <= x < old(self).side() && 0 <= y < old(self).side() && (#[trigger] moved(
                    old(self)@,
                )[x][y]).occupied() ==> final(self)@[x][y] != moved(old(self)@)[x][y],
    {
        proof {
            lemma_moved_conserves(self@);
        }
        advance(&mut self.particles);
        self.change_directions();
        proof {
            lemma_same_occupancy_same_count(moved(old(self)@), self@);
        }
    }

    /// The pair-correlation statistic at the given lattice distance: of the
    /// cells in the shell at that distance around a particle, the fraction
    /// that hold a particle, taken over all particles. A lattice without
    /// particles has the statistic zero. Only the distances 0 to 3 are
    /// supported.
    pub fn calculate_distribution_function(&self, distance: u32) -> (r: Result<
        Ratio,
        UnsupportedDistance,
    >)
        requires
            self.well_formed(),
        ensures
            match r {
                Ok(ratio) => {
                    &&& distance <= MAX_DISTANCE
                    &&& (ratio.numerator as int, ratio.denominator as int) == distribution(
                        self@,
                        distance,
                    )
                    &&& ratio.numerator <= ratio.denominator
                    &&& 0 < ratio.denominator
                },
                Err(e) => distance > MAX_DISTANCE && e.distance == distance,
            },
    {
        let offsets = match indexes_in_distance(distance) {
            Ok(offsets) => offsets,
            Err(e) => {
                return Err(e);
            },
        };
        let particles = self.particle_count();
        if particles == 0 {
            return Ok(Ratio { numerator: 0, denominator: 1 });
        }
        let pairs = count_pairs(&self.particles, &offsets);
        proof {
            lemma_distribution_is_a_fraction(self@, distance);
            assert(offsets@.len() * particles <= 12 * usize::MAX) by (nonlinear_arith)
                requires
                    offsets@.len() <= 12,
                    particles <= usize::MAX,
            ;
        }
        let slots: u128 = (offsets.len() as u128) * (particles as u128);
        Ok(Ratio { numerator: pairs, denominator: slots })
    }
}

} // verus!
