//! The style table of a voice: one row of numbers for each style, the
//! neutral style first. The numbers are held as the bit patterns of 32-bit
//! floats; this module chooses rows and does no arithmetic on them. What
//! blends two rows at a weight is the caller's, and is asked only for a
//! style that is not the neutral one.

use vstd::prelude::*;
use crate::error::Error;

verus! {

/// A style table as it is read: its shape, rows and columns, and its rows.
pub struct Data {
    pub shape: [usize; 2],
    pub data: Vec<Vec<u32>>,
}

/// A style table: `rows` rows of `cols` numbers each, row after row.
pub struct StyleTable {
    rows: usize,
    cols: usize,
    data: Vec<u32>,
}

/// All numbers of the first `n` of `rows`, row after row.
pub open spec fn flattened_upto(rows: Seq<Vec<u32>>, n: int) -> Seq<u32>
    decreases n,
{
    if n <= 0 {
        Seq::empty()
    } else {
        flattened_upto(rows, n - 1) + rows[n - 1]@
    }
}

/// All numbers of `rows`, row after row.
pub open spec fn flattened(rows: Seq<Vec<u32>>) -> Seq<u32> {
    flattened_upto(rows, rows.len() as int)
}

impl StyleTable {
    /// The number of styles.
    pub closed spec fn rows(&self) -> nat {
        self.rows as nat
    }

    /// The width of a style vector.
    pub closed spec fn cols(&self) -> nat {
        self.cols as nat
    }

    /// All numbers of the table, row after row.
    pub closed spec fn numbers(&self) -> Seq<u32> {
        self.data@
    }

    /// A table holds as many numbers as its shape says.
    #[verifier::type_invariant]
    closed spec fn wf(&self) -> bool {
        self.data@.len() == self.rows * self.cols
    }

    /// Row `i` of the table.
    pub open spec fn row(&self, i: int) -> Seq<u32> {
        self.numbers().subrange(i * self.cols(), (i + 1) * self.cols())
    }

    /// The number of styles.
    pub fn style_count(&self) -> (n: usize)
        ensures
            n == self.rows(),
    {
        self.rows
    }

    /// The width of a style vector.
    pub fn width(&self) -> (n: usize)
        ensures
            n == self.cols(),
    {
        self.cols
    }

    /// The neutral row and the row of style `style_id`. The style vector
    /// of weight `w` is the neutral row plus `w` times what the style row
    /// has more; for the neutral style the two rows are one row.
    pub fn style_rows(&self, style_id: i32) -> (r: Result<(Vec<u32>, Vec<u32>), Error>)
        ensures
            match r {
                Ok((mean, style)) => 0 <= style_id < self.rows() && mean@ == self.row(0) && style@
                    == self.row(style_id as int) && mean.len() == self.cols() && style.len()
                    == self.cols() && (style_id == 0 ==> mean@ == style@),
                Err(e) => !(0 <= style_id < self.rows()) && (e matches Error::ValueError(message)
                    && message@ == no_such_style()),
            },
    {
        if style_id < 0 || self.rows <= style_id as usize {
            return Err(Error::ValueError("Style id out of range".to_owned()));
        }
        let id = style_id as usize;
        proof {
            use_type_invariant(self);
            lemma_row_bounds(self.rows as int, self.cols as int, 0);
            lemma_row_bounds(self.rows as int, self.cols as int, id as int);
        }
        let mean = self.copy_row(0);
        let style = self.copy_row(id);
        Ok((mean, style))
    }

    fn copy_row(&self, i: usize) -> (out: Vec<u32>)
        requires
            i < self.rows,
            (i + 1) * self.cols <= self.data@.len(),
        ensures
            out@ == self.row(i as int),
            out.len() == self.cols(),
    {
        let ghost ii = i as int;
        let ghost cc = self.cols as int;
        assert(ii * cc + cc == (ii + 1) * cc && 0 <= ii * cc) by (nonlinear_arith)
            requires
                0 <= ii,
                0 <= cc,
        ;
        let count = self.data.len();
        assert(i * self.cols <= count);
        let start = i * self.cols;
        let mut out: Vec<u32> = Vec::new();
        let mut k: usize = 0;
        while k < self.cols
            invariant
                k <= self.cols,
                start + self.cols <= self.data@.len() == count,
                out@ == self.data@.subrange(start as int, start + k),
            decreases self.cols - k,
        {
            out.push(self.data[start + k]);
            k += 1;
            assert(out@ =~= self.data@.subrange(start as int, start + k));
        }
        out
    }
}

proof fn lemma_row_bounds(rows: int, cols: int, i: int)
    requires
        0 <= i < rows,
        0 <= cols,
    ensures
        0 <= i * cols,
        (i + 1) * cols <= rows * cols,
{
    assert(0 <= i * cols && (i + 1) * cols <= rows * cols) by (nonlinear_arith)
        requires
            0 <= i < rows,
            0 <= cols,
    ;
}

/// The message of the error for a style that a table does not have.
pub open spec fn no_such_style() -> Seq<char> {
    "Style id out of range"@
}

/// Whether `vector` is what `blend` gave for the rows `mean` and `style`
/// at the weight `weight`.
pub open spec fn blended<W, B: FnOnce(&Vec<u32>, &Vec<u32>, W) -> Vec<u32>>(
    blend: B,
    mean: Vec<u32>,
    style: Vec<u32>,
    weight: W,
    vector: Vec<u32>,
) -> bool {
    call_ensures(blend, (&mean, &style, weight), vector)
}

/// Whether `r` is the style vector of the style `style_id` of `table` at
/// the weight `weight`. A style that the table does not have is a value
/// error. The vector of the neutral style is the neutral row as it is,
/// whatever the weight. The vector of any other style is what `blend` gave
/// for the neutral row, the row of the style and the weight.
pub open spec fn style_vector_of<W, B: FnOnce(&Vec<u32>, &Vec<u32>, W) -> Vec<u32>>(
    blend: B,
    table: StyleTable,
    style_id: i32,
    weight: W,
    r: Result<Vec<u32>, Error>,
) -> bool {
    match r {
        Ok(vector) => 0 <= style_id < table.rows() && if style_id == 0 {
            vector@ == table.row(0)
        } else {
            exists|mean: Vec<u32>, style: Vec<u32>|
                mean@ == table.row(0) && style@ == table.row(style_id as int) && #[trigger] blended(
                    blend,
                    mean,
                    style,
                    weight,
                    vector,
                )
        },
        Err(e) => !(0 <= style_id < table.rows()) && (e matches Error::ValueError(message)
            && message@ == no_such_style()),
    }
}

/// The style vector of the style `style_id` at the weight `weight`: the
/// neutral row moved towards the row of the style as far as the weight
/// says, which is what `blend` computes. For the neutral style nothing is
/// computed: its vector is the neutral row itself, bit for bit, whatever
/// the weight is.
pub fn get_style_vector<W, B: FnOnce(&Vec<u32>, &Vec<u32>, W) -> Vec<u32>>(
    style_vectors: &StyleTable,
    style_id: i32,
    weight: W,
    blend: B,
) -> (r: Result<Vec<u32>, Error>)
    requires
        forall|mean: &Vec<u32>, style: &Vec<u32>, w: W| call_requires(blend, (mean, style, w)),
    ensures
        style_vector_of(blend, *style_vectors, style_id, weight, r),
{
    let (mean, style) = match style_vectors.style_rows(style_id) {
        Ok(rows) => rows,
        Err(e) => {
            return Err(e);
        },
    };
    if style_id == 0 {
        return Ok(mean);
    }
    let vector = blend(&mean, &style, weight);
    assert(blended(blend, mean, style, weight, vector));
    let r = Ok(vector);
    assert(r matches Ok(v) && v == vector);
    r
}

/// The style vector of the neutral style is the neutral row, whatever the
/// weight is and whatever blends the rows of the other styles.
pub proof fn lemma_neutral_vector_is_neutral_row<W, B: FnOnce(&Vec<u32>, &Vec<u32>, W) -> Vec<u32>>(
    blend: B,
    table: StyleTable,
    weight: W,
    r: Result<Vec<u32>, Error>,
)
    requires
        table.rows() > 0,
        style_vector_of(blend, table, 0, weight, r),
    ensures
        r matches Ok(vector) && vector@ == table.row(0),
{
}

/// Whether the rows of `data` hold, all in all, as many numbers as its
/// shape says.
pub open spec fn fits_shape(data: Data) -> bool {
    flattened(data.data@).len() == data.shape@[0] * data.shape@[1]
}

/// Whether `table` is the style table that `data` describes: it has the
/// shape of `data` and its numbers, row after row.
pub open spec fn describes(data: Data, table: StyleTable) -> bool {
    &&& table.rows() == data.shape@[0]
    &&& table.cols() == data.shape@[1]
    &&& table.numbers() == flattened(data.data@)
}

/// The style table that `data` describes. There is one where the rows of
/// `data` hold, all in all, as many numbers as its shape says.
pub fn load_style(data: &Data) -> (r: Result<StyleTable, Error>)
    ensures
        match r {
            Ok(table) => fits_shape(*data) && describes(*data, table),
            Err(e) => !fits_shape(*data) && e is ModelLoadError,
        },
{
    let rows = data.shape[0];
    let cols = data.shape[1];
    let mut flat: Vec<u32> = Vec::new();
    let mut i: usize = 0;
    while i < data.data.len()
        invariant
            i <= data.data.len(),
            flat@ == flattened_upto(data.data@, i as int),
        decreases data.data.len() - i,
    {
        let row = &data.data[i];
        let ghost before = flat@;
        let mut k: usize = 0;
        assert(before + row@.take(0) =~= before);
        while k < row.len()
            invariant
                k <= row.len(),
                flat@ == before + row@.take(k as int),
            decreases row.len() - k,
        {
            flat.push(row[k]);
            k += 1;
            assert(flat@ =~= before + row@.take(k as int));
        }
        assert(row@.take(row@.len() as int) == row@);
        i += 1;
    }
    assert(flat@ == flattened(data.data@));
    let product = rows.checked_mul(cols);
    let count = flat.len();
    let fits = match product {
        Some(size) => {
            assert(size == rows * cols);
            size == count
        },
        None => {
            assert(rows * cols > usize::MAX);
            false
        },
    };
    assert(fits == (flat@.len() == rows * cols));
    if !fits {
        return Err(Error::ModelLoadError("Style table does not fit its shape".to_owned()));
    }
    Ok(StyleTable { rows, cols, data: flat })
}

} // verus!
