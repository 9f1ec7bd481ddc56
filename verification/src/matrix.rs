//! A small row-major matrix of elements.
//!
//! The operators of [`BlsElement`] are partial, so no general numeric matrix
//! fits: this container only stores and hands out entries, and the products
//! are written where they are used.

use crate::bls_elements::{views, BlsElement, Element};
use crate::Error;
use vstd::prelude::*;

verus! {

/// The model of a matrix: its shape and its entries, row after row.
pub struct MatrixView {
    pub rows: nat,
    pub cols: nat,
    pub entries: Seq<Element>,
}

impl MatrixView {
    /// There is one entry for each place.
    pub open spec fn wf(self) -> bool {
        self.entries.len() == self.rows * self.cols
    }

    /// The entry in row `i` and column `j`.
    pub open spec fn at(self, i: int, j: int) -> Element {
        self.entries[i * self.cols + j]
    }

    pub open spec fn row(self, i: int) -> Seq<Element> {
        Seq::new(self.cols, |j: int| self.at(i, j))
    }

    pub open spec fn column(self, j: int) -> Seq<Element> {
        Seq::new(self.rows, |i: int| self.at(i, j))
    }
}

/// A matrix of elements, stored row after row.
#[derive(Debug, PartialEq)]
pub struct Matrix {
    rows: usize,
    cols: usize,
    data: Vec<BlsElement>,
}

impl View for Matrix {
    type V = MatrixView;

    closed spec fn view(&self) -> MatrixView {
        MatrixView { rows: self.rows as nat, cols: self.cols as nat, entries: views(self.data@) }
    }
}

/// The place of an entry in the row-major order lies within the matrix.
pub proof fn lemma_place_in_bounds(rows: int, cols: int, i: int, j: int)
    requires
        0 <= i < rows,
        0 <= j < cols,
    ensures
        0 <= i * cols + j < rows * cols,
{
    assert(i * cols + j < rows * cols) by (nonlinear_arith)
        requires
            0 <= i < rows,
            0 <= j < cols,
    ;
    assert(0 <= i * cols) by (nonlinear_arith)
        requires
            0 <= i,
            0 <= cols,
    ;
}

impl Matrix {
    #[verifier::type_invariant]
    spec fn inv(self) -> bool {
        self.data.len() == self.rows * self.cols
    }

    /// The matrix of the given shape whose rows are read off `data` one after
    /// the other, or `DimensionMismatch` where `data` has not one element for
    /// each place.
    pub fn from_row_slice(rows: usize, cols: usize, data: Vec<BlsElement>) -> (out: Result<
        Matrix,
        Error,
    >)
        ensures
            match out {
                Ok(m) => m@ == (MatrixView {
                    rows: rows as nat,
                    cols: cols as nat,
                    entries: views(data@),
                }) && m@.wf(),
                Err(e) => e == Error::DimensionMismatch && data.len() != rows * cols,
            },
    {
        match rows.checked_mul(cols) {
            Some(size) => {
                if size == data.len() {
                    Ok(Matrix { rows, cols, data })
                } else {
                    Err(Error::DimensionMismatch)
                }
            },
            None => Err(Error::DimensionMismatch),
        }
    }

    pub fn nrows(&self) -> (out: usize)
        ensures
            out == self@.rows,
            self@.wf(),
    {
        proof {
            use_type_invariant(self);
        }
        self.rows
    }

    pub fn ncols(&self) -> (out: usize)
        ensures
            out == self@.cols,
            self@.wf(),
    {
        proof {
            use_type_invariant(self);
        }
        self.cols
    }

    /// The entry in row `i` and column `j`.
    pub fn get(&self, i: usize, j: usize) -> (out: BlsElement)
        requires
            i < self@.rows,
            j < self@.cols,
        ensures
            out@ == self@.at(i as int, j as int),
            self@.wf(),
    {
        proof {
            use_type_invariant(self);
            lemma_place_in_bounds(self.rows as int, self.cols as int, i as int, j as int);
        }
        self.data[i * self.cols + j]
    }

    /// The entries of row `i`, from the left.
    pub fn row(&self, i: usize) -> (out: Vec<BlsElement>)
        requires
            i < self@.rows,
        ensures
            views(out@) == self@.row(i as int),
    {
        let mut out: Vec<BlsElement> = Vec::new();
        let mut j: usize = 0;
        while j < self.cols
            invariant
                j <= self.cols,
                i < self.rows,
                out.len() == j,
                forall|k: int| 0 <= k < j ==> (#[trigger] out[k])@ == self@.at(i as int, k),
            decreases self.cols - j,
        {
            let e = self.get(i, j);
            out.push(e);
            j += 1;
        }
        assert(views(out@) =~= self@.row(i as int));
        out
    }

    /// The entries of column `j`, from the top.
    pub fn column(&self, j: usize) -> (out: Vec<BlsElement>)
        requires
            j < self@.cols,
        ensures
            views(out@) == self@.column(j as int),
    {
        let mut out: Vec<BlsElement> = Vec::new();
        let mut i: usize = 0;
        while i < self.rows
            invariant
                i <= self.rows,
                j < self.cols,
                out.len() == i,
                forall|k: int| 0 <= k < i ==> (#[trigger] out[k])@ == self@.at(k, j as int),
            decreases self.rows - i,
        {
            let e = self.get(i, j);
            out.push(e);
            i += 1;
        }
        assert(views(out@) =~= self@.column(j as int));
        out
    }
}

} // verus!
