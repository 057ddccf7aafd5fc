//! The style table: one fixed-length vector per style id.

use vstd::prelude::*;
use crate::error::Error;
use crate::trusted::{cell_index, matrix_rows, shape_fits};

verus! {

/// A list of rows as plain sequences.
pub open spec fn rows_model<T>(data: Seq<Vec<T>>) -> Seq<Seq<T>> {
    Seq::new(data.len(), |i: int| data[i]@)
}

/// The rows are `n_styles` in number and each `style_dim` long.
pub open spec fn well_shaped<T>(n_styles: int, style_dim: int, rows: Seq<Seq<T>>) -> bool {
    &&& rows.len() == n_styles
    &&& forall|i: int| 0 <= i < rows.len() ==> (#[trigger] rows[i]).len() == style_dim
}

/// The rows of a flat tensor with the declared shape and order, where the
/// shape is two-dimensional and fits the buffer.
pub open spec fn tensor_rows<T>(shape: Seq<u64>, fortran: bool, data: Seq<T>) -> Option<
    Seq<Seq<T>>,
> {
    if shape.len() == 2 && shape_fits(shape[0] as int, shape[1] as int, data.len() as int) {
        Some(
            Seq::new(
                shape[0] as nat,
                |i: int|
                    Seq::new(
                        shape[1] as nat,
                        |j: int| data[cell_index(shape[0] as int, shape[1] as int, fortran, i, j)],
                    ),
            ),
        )
    } else {
        None
    }
}

/// The style vectors of one voice, in row-major layout: row `i` is the
/// vector of style id `i`.
pub struct StyleTable<T> {
    n_styles: usize,
    style_dim: usize,
    data: Vec<Vec<T>>,
}

impl<T> View for StyleTable<T> {
    type V = Seq<Seq<T>>;

    closed spec fn view(&self) -> Seq<Seq<T>> {
        rows_model(self.data@)
    }
}

impl<T> StyleTable<T> {
    #[verifier::type_invariant]
    spec fn shaped(self) -> bool {
        well_shaped(self.n_styles as int, self.style_dim as int, rows_model(self.data@))
    }

    /// The declared shape: the number of styles, and the length of a vector.
    pub closed spec fn shape(self) -> (int, int) {
        (self.n_styles as int, self.style_dim as int)
    }

    /// Builds a table from a declared shape and rows, which must agree.
    pub fn new(n_styles: usize, style_dim: usize, data: Vec<Vec<T>>) -> (r: Result<Self, Error>)
        ensures
            well_shaped(n_styles as int, style_dim as int, rows_model(data@)) ==> (r matches Ok(t)
                && t@ == rows_model(data@) && t.shape() == (n_styles as int, style_dim as int)),
            !well_shaped(n_styles as int, style_dim as int, rows_model(data@)) ==> r == Err::<
                Self,
                Error,
            >(Error::ShapeMismatch),
            r matches Ok(t) ==> well_shaped(t.shape().0, t.shape().1, t@),
    {
        if data.len() != n_styles {
            return Err(Error::ShapeMismatch);
        }
        let mut i: usize = 0;
        while i < data.len()
            invariant
                i <= data@.len(),
                data@.len() == n_styles,
                forall|k: int| 0 <= k < i ==> (#[trigger] rows_model(data@)[k]).len() == style_dim,
            decreases data@.len() - i,
        {
            if data[i].len() != style_dim {
                assert(rows_model(data@)[i as int].len() != style_dim);
                return Err(Error::ShapeMismatch);
            }
            i += 1;
        }
        Ok(StyleTable { n_styles, style_dim, data })
    }

    /// The number of styles.
    pub fn n_styles(&self) -> (r: usize)
        ensures
            r == self.shape().0,
    {
        self.n_styles
    }

    /// The length of every style vector.
    pub fn style_dim(&self) -> (r: usize)
        ensures
            r == self.shape().1,
    {
        self.style_dim
    }

    /// The rows, in style-id order: as many as the shape declares, each of
    /// the declared length.
    pub fn data(&self) -> (r: &Vec<Vec<T>>)
        ensures
            rows_model(r@) == self@,
            well_shaped(self.shape().0, self.shape().1, self@),
    {
        proof {
            use_type_invariant(self);
        }
        &self.data
    }

    /// The vector of style `style_id`, which must index a row.
    pub fn get(&self, style_id: i32) -> (r: Result<&Vec<T>, Error>)
        ensures
            0 <= style_id < self.shape().0 ==> (r matches Ok(v) && v@ == self@[style_id as int]),
            !(0 <= style_id < self.shape().0) ==> r == Err::<&Vec<T>, Error>(
                Error::StyleOutOfRange,
            ),
    {
        proof {
            use_type_invariant(self);
        }
        if style_id < 0 {
            return Err(Error::StyleOutOfRange);
        }
        let row = style_id as usize;
        if row >= self.n_styles {
            return Err(Error::StyleOutOfRange);
        }
        Ok(&self.data[row])
    }
}

impl<T: Copy> StyleTable<T> {
    /// Builds a table from a flat tensor with its declared shape and order.
    /// The shape must be two-dimensional and fit the buffer; elements stored
    /// column by column are rearranged into rows.
    pub fn from_tensor(shape: &[u64], fortran: bool, data: Vec<T>) -> (r: Result<Self, Error>)
        ensures
            match tensor_rows(shape@, fortran, data@) {
                Some(rows) => r matches Ok(t) && t@ == rows && t.shape() == (
                    shape@[0] as int,
                    shape@[1] as int,
                ),
                None => r == Err::<Self, Error>(Error::ShapeMismatch),
            },
            r matches Ok(t) ==> well_shaped(t.shape().0, t.shape().1, t@),
    {
        if shape.len() != 2 {
            return Err(Error::ShapeMismatch);
        }
        let declared_rows = shape[0];
        let declared_cols = shape[1];
        if declared_rows > usize::MAX as u64 || declared_cols > usize::MAX as u64 {
            proof {
                lemma_wide_shape_never_fits(declared_rows as int, declared_cols as int, data@.len() as int);
            }
            return Err(Error::ShapeMismatch);
        }
        let n_styles = declared_rows as usize;
        let style_dim = declared_cols as usize;
        match matrix_rows(n_styles, style_dim, fortran, data) {
            None => Err(Error::ShapeMismatch),
            Some(rows) => {
                proof {
                    let expected = tensor_rows(shape@, fortran, data@).unwrap();
                    assert forall|i: int| 0 <= i < n_styles implies #[trigger] rows_model(rows@)[i]
                        =~= expected[i] by {
                        assert(rows@[i]@.len() == style_dim);
                        assert forall|j: int| 0 <= j < style_dim implies rows@[i]@[j]
                            == expected[i][j] by {}
                    }
                    assert(rows_model(rows@) =~= expected);
                }
                Ok(StyleTable { n_styles, style_dim, data: rows })
            },
        }
    }
}

/// A shape with a side beyond the address space fits no buffer.
proof fn lemma_wide_shape_never_fits(rows: int, cols: int, len: int)
    requires
        rows >= 0,
        cols >= 0,
        rows > usize::MAX || cols > usize::MAX,
    ensures
        !shape_fits(rows, cols, len),
{
    let a = if rows == 0 { 1 } else { rows };
    let b = if cols == 0 { 1 } else { cols };
    assert(a * b > isize::MAX) by (nonlinear_arith)
        requires
            a >= 1,
            b >= 1,
            a > isize::MAX || b > isize::MAX,
    ;
}

} // verus!
