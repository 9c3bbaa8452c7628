//! Dense row-major square matrix of pair energies.
//!
//! Energies are fixed-point integers: the caller picks a scale when it fills
//! the matrix, and every entry is that scale times the physical pair energy.
use vstd::prelude::*;

verus! {

/// Bound on the magnitude of a single pair energy, so that row sums and the
/// total stay far from overflow for any system of at most
/// [`crate::MAX_SITES`] sites.
pub const ENERGY_LIMIT: i64 = 0x1_0000_0000;

/// `MAX_SITES * ENERGY_LIMIT`: no row energy can pass this.
pub const ROW_ENERGY_LIMIT: i64 = 0x1000_0000_0000;

/// `MAX_SITES * ROW_ENERGY_LIMIT`: no unhalved total can pass this.
pub const TOTAL_ENERGY_LIMIT: i64 = 0x100_0000_0000_0000;

#[derive(Clone)]
#[verifier::ext_equal]
pub struct Matrix {
    pub memory: Vec<i64>,
    pub size: usize,
}

impl Matrix {
    /// The entry in row `i`, column `j`, as a mathematical integer.
    pub open spec fn at(self, i: int, j: int) -> int {
        self.memory@[i * self.size + j] as int
    }

    pub open spec fn spec_size(self) -> nat {
        self.size as nat
    }

    /// Shape alone: square storage of bounded side.
    pub open spec fn wf_shape(self) -> bool {
        &&& self.memory@.len() == self.size * self.size
        &&& self.size <= crate::MAX_SITES
    }

    /// A well-formed pair-energy matrix: square, bounded entries, symmetric,
    /// zero diagonal.
    pub open spec fn wf(self) -> bool {
        &&& self.wf_shape()
        &&& forall|i: int, j: int|
            0 <= i < self.size && 0 <= j < self.size ==> -ENERGY_LIMIT <= #[trigger] self.at(i, j)
                <= ENERGY_LIMIT
        &&& forall|i: int, j: int|
            0 <= i < self.size && 0 <= j < self.size ==> #[trigger] self.at(i, j) == self.at(j, i)
        &&& forall|i: int| 0 <= i < self.size ==> #[trigger] self.at(i, i) == 0
    }

    pub fn new(size: usize) -> (r: Self)
        requires
            size <= crate::MAX_SITES,
        ensures
            r.wf(),
            r.spec_size() == size,
            forall|i: int, j: int| 0 <= i < size && 0 <= j < size ==> #[trigger] r.at(i, j) == 0,
    {
        proof {
            lemma_square_bound(size as int);
        }
        let mut memory: Vec<i64> = Vec::new();
        let total: usize = size * size;
        let mut k: usize = 0;
        while k < total
            invariant
                memory@.len() == k,
                k <= total,
                total == size * size,
                forall|t: int| 0 <= t < k ==> memory@[t] == 0i64,
            decreases total - k,
        {
            memory.push(0i64);
            k += 1;
        }
        let r = Self { memory, size };
        proof {
            assert forall|i: int, j: int| 0 <= i < size && 0 <= j < size implies #[trigger] r.at(
                i,
                j,
            ) == 0 by {
                lemma_index_in_range(size as int, i, j);
            }
        }
        r
    }

    /// The number of rows (and columns).
    pub fn size(&self) -> (r: usize)
        ensures
            r == self.spec_size(),
    {
        self.size
    }

    pub fn get(&self, row: usize, col: usize) -> (r: i64)
        requires
            self.wf_shape(),
            row < self.spec_size(),
            col < self.spec_size(),
        ensures
            r as int == self.at(row as int, col as int),
    {
        proof {
            lemma_index_in_range(self.size as int, row as int, col as int);
            lemma_square_bound(self.size as int);
        }
        self.memory[row * self.size + col]
    }

    pub fn set(&mut self, row: usize, col: usize, value: i64)
        requires
            old(self).wf_shape(),
            row < old(self).spec_size(),
            col < old(self).spec_size(),
        ensures
            final(self).wf_shape(),
            final(self).spec_size() == old(self).spec_size(),
            final(self).at(row as int, col as int) == value as int,
            forall|i: int, j: int|
                0 <= i < final(self).spec_size() && 0 <= j < final(self).spec_size() && !(i == row
                    && j == col) ==> #[trigger] final(self).at(i, j) == old(self).at(i, j),
    {
        proof {
            lemma_index_in_range(self.size as int, row as int, col as int);
            lemma_square_bound(self.size as int);
        }
        let index: usize = row * self.size + col;
        self.memory[index] = value;
        proof {
            assert forall|i: int, j: int|
                0 <= i < self.spec_size() && 0 <= j < self.spec_size() && !(i == row && j == col)
                    implies #[trigger] self.at(i, j) == old(self).at(i, j) by {
                lemma_index_injective(self.size as int, i, j, row as int, col as int);
                lemma_index_in_range(self.size as int, i, j);
            }
        }
    }

    /// A fresh matrix with the same entries; unlike `clone`, its contract
    /// carries the equality into proofs.
    pub fn duplicate(&self) -> (r: Self)
        ensures
            r.memory@ == self.memory@,
            r.size == self.size,
    {
        let memory = self.memory.clone();
        proof {
            assert(memory@ =~= self.memory@);
        }
        Self { memory, size: self.size }
    }

    /// One full row, as a fresh vector.
    pub fn row(&self, row: usize) -> (r: Vec<i64>)
        requires
            self.wf_shape(),
            row < self.spec_size(),
        ensures
            r@.len() == self.spec_size(),
            forall|j: int| 0 <= j < self.spec_size() ==> #[trigger] r@[j] as int == self.at(row as int, j),
    {
        let mut r: Vec<i64> = Vec::new();
        let mut j: usize = 0;
        while j < self.size
            invariant
                j <= self.size,
                r@.len() == j,
                self.wf_shape(),
                row < self.size,
                forall|t: int| 0 <= t < j ==> #[trigger] r@[t] as int == self.at(row as int, t),
            decreases self.size - j,
        {
            r.push(self.get(row, j));
            j += 1;
        }
        r
    }
}

/// Row-major indexing stays within a `size * size` buffer.
proof fn lemma_index_in_range(size: int, i: int, j: int)
    requires
        0 <= i < size,
        0 <= j < size,
    ensures
        0 <= i * size + j < size * size,
{
    assert(i * size + j < size * size) by (nonlinear_arith)
        requires
            0 <= i < size,
            0 <= j < size,
    ;
    assert(0 <= i * size) by (nonlinear_arith)
        requires
            0 <= i,
            0 <= size,
    ;
}

/// A square of side at most `MAX_SITES` has fewer than `usize::MAX` cells.
proof fn lemma_square_bound(size: int)
    requires
        0 <= size <= crate::MAX_SITES,
    ensures
        size * size <= 0x1000000,
{
    assert(size * size <= 0x1000000) by (nonlinear_arith)
        requires
            0 <= size <= 4096,
    ;
}

/// Row-major indexing is injective on a square of side `size`.
proof fn lemma_index_injective(size: int, i: int, j: int, x: int, y: int)
    requires
        0 <= i < size,
        0 <= j < size,
        0 <= x < size,
        0 <= y < size,
        !(i == x && j == y),
    ensures
        i * size + j != x * size + y,
{
    assert(i * size + j != x * size + y) by (nonlinear_arith)
        requires
            0 <= i < size,
            0 <= j < size,
            0 <= x < size,
            0 <= y < size,
            !(i == x && j == y),
    ;
}

} // verus!
