//! Matrices of binary32 patterns, row by row.

use vstd::prelude::*;

verus! {

/// A matrix; every row has `cols` numbers.
#[derive(Debug)]
pub struct Matrix {
    pub cols: usize,
    pub rows: Vec<Vec<u32>>,
}

/// The rows of a matrix.
pub open spec fn row_views(rows: Seq<Vec<u32>>) -> Seq<Seq<u32>> {
    Seq::new(rows.len(), |i: int| rows[i]@)
}

impl View for Matrix {
    type V = Seq<Seq<u32>>;

    open spec fn view(&self) -> Seq<Seq<u32>> {
        row_views(self.rows@)
    }
}

/// Row `i` of numbers that are taken row by row.
pub open spec fn chunk(data: Seq<u32>, cols: usize, i: int) -> Seq<u32> {
    data.subrange(i * cols, i * cols + cols)
}

impl Matrix {
    /// Whether every row has the right length.
    pub open spec fn well_formed(&self) -> bool {
        forall|i: int| 0 <= i < self.rows@.len() ==> (#[trigger] self.rows@[i])@.len() == self.cols
    }

    /// A matrix without rows.
    pub fn empty(cols: usize) -> (m: Self)
        ensures
            m.well_formed(),
            m.cols == cols,
            m@ == Seq::<Seq<u32>>::empty(),
    {
        let m: Matrix = Matrix { cols, rows: Vec::new() };
        assert(m@ =~= Seq::<Seq<u32>>::empty());
        m
    }

    /// Takes numbers row by row; `None` where they do not fill whole rows.
    pub fn from_numbers(data: &Vec<u32>, cols: usize) -> (r: Option<Self>)
        requires
            cols > 0,
        ensures
            match r {
                Some(m) => data@.len() % cols as nat == 0 && m.well_formed() && m.cols == cols
                    && m@ == Seq::new(
                    data@.len() / cols as nat,
                    |i: int| chunk(data@, cols, i),
                ),
                None => data@.len() % cols as nat != 0,
            },
    {
        if data.len() % cols != 0 {
            return None;
        }
        let n: usize = data.len() / cols;
        let ghost want = Seq::new(
            data@.len() / cols as nat,
            |i: int| chunk(data@, cols, i),
        );
        proof {
            vstd::arithmetic::div_mod::lemma_fundamental_div_mod(data@.len() as int, cols as int);
            assert(n * cols == data@.len()) by (nonlinear_arith)
                requires
                    data@.len() == cols * n + data@.len() as int % cols as int,
                    data@.len() as int % cols as int == 0,
            ;
        }
        let mut rows: Vec<Vec<u32>> = Vec::new();
        let mut i: usize = 0;
        let mut at: usize = 0;
        assert(0 * cols == 0) by (nonlinear_arith);
        while i < n
            invariant
                cols > 0,
                i <= n,
                n == want.len(),
                at == i * cols,
                n * cols == data.len(),
                want == Seq::new(
                    data@.len() / cols as nat,
                    |i: int| chunk(data@, cols, i),
                ),
                row_views(rows@) == want.take(i as int),
                forall|k: int| 0 <= k < rows@.len() ==> (#[trigger] rows@[k])@.len() == cols,
            decreases n - i,
        {
            assert((i + 1) * cols == i * cols + cols && (i + 1) * cols <= n * cols)
                by (nonlinear_arith)
                requires
                    i + 1 <= n,
                    cols >= 0,
            ;
            let mut row: Vec<u32> = Vec::new();
            let mut j: usize = 0;
            while j < cols
                invariant
                    j <= cols,
                    at + cols <= data.len(),
                    row@ == data@.subrange(at as int, at + j),
                decreases cols - j,
            {
                row.push(data[at + j]);
                j = j + 1;
                assert(row@ =~= data@.subrange(at as int, at + j));
            }
            let ghost old_views = row_views(rows@);
            rows.push(row);
            assert(row_views(rows@) =~= old_views.push(row@));
            assert(row@ == chunk(data@, cols, i as int));
            i = i + 1;
            at = at + cols;
            assert(row_views(rows@) =~= want.take(i as int));
        }
        assert(want.take(i as int) =~= want);
        Some(Matrix { cols, rows })
    }

    /// The number of rows.
    pub fn num_rows(&self) -> (n: usize)
        ensures
            n == self@.len(),
    {
        self.rows.len()
    }

    /// Appends a row.
    pub fn push_row(&mut self, row: Vec<u32>)
        requires
            old(self).well_formed(),
            row@.len() == old(self).cols,
        ensures
            final(self).well_formed(),
            final(self).cols == old(self).cols,
            final(self)@ == old(self)@.push(row@),
    {
        let ghost before = self.rows@;
        self.rows.push(row);
        assert forall|i: int| 0 <= i < self.rows@.len() implies (#[trigger] self.rows@[i])@.len()
            == self.cols by {
            if i < before.len() {
                assert(self.rows@[i] == before[i]);
            }
        }
        assert(self@ =~= row_views(before).push(row@));
    }

    /// A copy of the matrix.
    pub fn copied(&self) -> (m: Self)
        requires
            self.well_formed(),
        ensures
            m.well_formed(),
            m.cols == self.cols,
            m@ == self@,
    {
        let mut m: Matrix = Matrix::empty(self.cols);
        let mut i: usize = 0;
        while i < self.rows.len()
            invariant
                self.well_formed(),
                i <= self.rows@.len(),
                m.well_formed(),
                m.cols == self.cols,
                m@ == self@.take(i as int),
            decreases self.rows@.len() - i,
        {
            let mut row: Vec<u32> = Vec::new();
            let mut j: usize = 0;
            while j < self.rows[i].len()
                invariant
                    i < self.rows@.len(),
                    j <= self.rows@[i as int]@.len(),
                    row@ == self.rows@[i as int]@.take(j as int),
                decreases self.rows@[i as int]@.len() - j,
            {
                row.push(self.rows[i][j]);
                j = j + 1;
                assert(row@ =~= self.rows@[i as int]@.take(j as int));
            }
            assert(row@ =~= self.rows@[i as int]@);
            m.push_row(row);
            i = i + 1;
            assert(m@ =~= self@.take(i as int));
        }
        assert(self@.take(i as int) =~= self@);
        m
    }

    /// Appends the rows of another matrix.
    pub fn append(&mut self, other: Matrix)
        requires
            old(self).well_formed(),
            other.well_formed(),
            other.cols == old(self).cols,
        ensures
            final(self).well_formed(),
            final(self).cols == old(self).cols,
            final(self)@ == old(self)@ + other@,
    {
        let ghost before = self.rows@;
        let mut more: Vec<Vec<u32>> = other.rows;
        let ghost added = more@;
        self.rows.append(&mut more);
        assert(self.rows@ =~= before + added);
        assert forall|i: int| 0 <= i < self.rows@.len() implies (#[trigger] self.rows@[i])@.len()
            == self.cols by {
            if i < before.len() {
                assert(self.rows@[i] == before[i]);
            } else {
                assert(self.rows@[i] == added[i - before.len()]);
            }
        }
        assert(self@ =~= row_views(before) + row_views(added));
    }

    /// Takes the first `n` rows away.
    pub fn split_front(&mut self, n: usize) -> (front: Matrix)
        requires
            old(self).well_formed(),
            n <= old(self)@.len(),
        ensures
            final(self).well_formed(),
            front.well_formed(),
            final(self).cols == old(self).cols,
            front.cols == old(self).cols,
            front@ == old(self)@.take(n as int),
            final(self)@ == old(self)@.skip(n as int),
    {
        let ghost before = self.rows@;
        let back: Vec<Vec<u32>> = self.rows.split_off(n);
        assert(back@ =~= before.skip(n as int));
        let mut front: Vec<Vec<u32>> = back;
        std::mem::swap(&mut front, &mut self.rows);
        let m: Matrix = Matrix { cols: self.cols, rows: front };
        proof {
            assert(m.rows@ =~= before.take(n as int));
            assert forall|i: int| 0 <= i < m.rows@.len() implies (#[trigger] m.rows@[i])@.len()
                == m.cols by {
                assert(m.rows@[i] == before[i]);
            }
            assert forall|i: int| 0 <= i < self.rows@.len() implies (
            #[trigger] self.rows@[i])@.len() == self.cols by {
                assert(self.rows@[i] == before[n + i]);
            }
            assert(m@ =~= row_views(before).take(n as int));
            assert(self@ =~= row_views(before).skip(n as int));
        }
        m
    }
}

/// A matrix is its rows, and a row its numbers.
pub proof fn matrix_contents(m: Matrix, i: int, j: int)
    ensures
        m@.len() == m.rows@.len(),
        0 <= i < m.rows@.len() ==> m@[i].len() == m.rows@[i]@.len(),
        0 <= i < m.rows@.len() && 0 <= j < m.rows@[i]@.len() ==> m@[i][j] == m.rows@[i]@[j],
{
}

/// Numbers that are taken row by row stay as they stand: number `j` of row `i`
/// is number `i * cols + j` of all.
pub proof fn rows_hold_the_numbers(data: Seq<u32>, cols: usize, i: int, j: int)
    requires
        0 <= i,
        0 <= j < cols,
        i * cols + cols <= data.len(),
    ensures
        chunk(data, cols, i).len() == cols,
        chunk(data, cols, i)[j] == data[i * cols + j],
{
    assert(0 <= i * cols) by (nonlinear_arith)
        requires
            0 <= i,
    ;
}

} // verus!
