//! The feature matrix: one row per post, every row of the same width, the
//! columns in one fixed order.

use vstd::prelude::*;
use crate::reddit::{ProcessedPostFeatures, ProcessedPostView};

verus! {

/// The number of leading columns that hold one value each.
pub const SCALAR_COLUMNS: usize = 5;

/// The row of one post: author popularity, downvotes, upvotes, score and text
/// length, then the word counts, the symbol counts and the pattern flags.
pub open spec fn row_of(p: ProcessedPostView) -> Seq<u64> {
    seq![p.author_popularity, p.downs, p.ups, p.score, p.post_len] + p.word_freq + p.symbol_freq
        + p.regex_matches
}

/// The rows of a batch, in batch order.
pub open spec fn rows_of(posts: Seq<ProcessedPostFeatures>) -> Seq<Seq<u64>> {
    Seq::new(posts.len(), |i: int| row_of(posts[i]@))
}

/// The column count that a batch declares: the row width of its last post.
pub open spec fn declared_width(posts: Seq<ProcessedPostFeatures>) -> nat
    recommends
        posts.len() > 0,
{
    row_of(posts.last()@).len()
}

/// The first row whose width differs from the declared one, if `at` is it.
pub open spec fn first_misfit(posts: Seq<ProcessedPostFeatures>, at: int) -> bool {
    &&& 0 <= at < posts.len()
    &&& row_of(posts[at]@).len() != declared_width(posts)
    &&& forall|k: int| 0 <= k < at ==> (#[trigger] row_of(posts[k]@)).len() == declared_width(posts)
}

/// Every row has the declared width.
pub open spec fn all_rows_fit(posts: Seq<ProcessedPostFeatures>) -> bool {
    forall|k: int| 0 <= k < posts.len() ==> (#[trigger] row_of(posts[k]@)).len() == declared_width(
        posts,
    )
}

/// Why a batch cannot be laid out as a matrix.
#[derive(Debug, Clone, Copy, PartialEq, Eq, Structural)]
pub enum MatrixError {
    /// The batch is empty, so no width is declared.
    NoPosts,
    /// The declared width does not fit the machine's index type.
    TooWide,
    /// The row of this post does not have the declared width.
    RowLength { row: usize },
}

/// A rectangular matrix of features, stored row after row.
#[derive(Debug)]
pub struct FeatureMatrix {
    rows: usize,
    cols: usize,
    cells: Vec<u64>,
}

proof fn lemma_row_within(r: int, rows: int, cols: int)
    requires
        0 <= r < rows,
        0 <= cols,
    ensures
        0 <= r * cols,
        r * cols + cols <= rows * cols,
{
    assert(0 <= r * cols) by (nonlinear_arith)
        requires
            0 <= r,
            0 <= cols,
    ;
    assert(r * cols + cols <= rows * cols) by (nonlinear_arith)
        requires
            r + 1 <= rows,
            0 <= cols,
    ;
}

impl FeatureMatrix {
    #[verifier::type_invariant]
    spec fn stored_whole(&self) -> bool {
        self.cells@.len() == self.rows * self.cols
    }

    /// The width of every row.
    pub closed spec fn width(&self) -> nat {
        self.cols as nat
    }

    /// The number of rows.
    pub fn rows(&self) -> (n: usize)
        ensures
            n == self@.len(),
    {
        self.rows
    }

    /// The number of columns.
    pub fn cols(&self) -> (n: usize)
        ensures
            n == self.width(),
    {
        self.cols
    }

    /// The cell in row `r`, column `c`.
    pub fn get(&self, r: usize, c: usize) -> (cell: u64)
        requires
            r < self@.len(),
            c < self.width(),
        ensures
            cell == self@[r as int][c as int],
    {
        proof {
            use_type_invariant(self);
            lemma_row_within(r as int, self.rows as int, self.cols as int);
            assert(self.cells@.len() == self.cells.len());
            assert(r * self.cols + self.cols <= usize::MAX);
        }
        self.cells[r * self.cols + c]
    }

    /// All cells, row after row.
    pub fn cells(&self) -> (all: &Vec<u64>)
        ensures
            all@.len() == self@.len() * self.width(),
            forall|r: int, c: int|
                0 <= r < self@.len() && 0 <= c < self.width() ==> self@[r][c] == #[trigger] all@[r
                    * self.width() + c],
    {
        proof {
            use_type_invariant(self);
        }
        &self.cells
    }

    /// Every row is as wide as the matrix.
    pub proof fn lemma_rectangular(&self)
        ensures
            forall|r: int| 0 <= r < self@.len() ==> (#[trigger] self@[r]).len() == self.width(),
    {
    }
}

impl View for FeatureMatrix {
    type V = Seq<Seq<u64>>;

    closed spec fn view(&self) -> Seq<Seq<u64>> {
        Seq::new(
            self.rows as nat,
            |r: int| Seq::new(self.cols as nat, |c: int| self.cells@[r * self.cols + c]),
        )
    }
}

/// The width of one post's row, where it fits the index type.
fn row_width(p: &ProcessedPostFeatures) -> (w: Option<usize>)
    ensures
        match w {
            Some(n) => n == row_of(p@).len(),
            None => row_of(p@).len() > usize::MAX,
        },
{
    let a = SCALAR_COLUMNS.checked_add(p.word_freq.len());
    let b = match a {
        Some(x) => x.checked_add(p.symbol_freq.len()),
        None => None,
    };
    match b {
        Some(x) => x.checked_add(p.regex_matches.len()),
        None => None,
    }
}

/// Appends `values` to `cells`.
fn append_block(cells: &mut Vec<u64>, values: &Vec<u64>)
    ensures
        final(cells)@ == old(cells)@ + values@,
{
    let mut k: usize = 0;
    while k < values.len()
        invariant
            k <= values@.len(),
            cells@ == old(cells)@ + values@.take(k as int),
        decreases values@.len() - k,
    {
        cells.push(values[k]);
        k = k + 1;
        assert(values@.take(k as int) == values@.take(k - 1).push(values@[k - 1]));
    }
    assert(values@.take(k as int) == values@);
}

/// Lays a batch out as a matrix, one row per post in batch order.
///
/// The width is declared up front by the last post.  A batch whose rows do not
/// all have that width is refused, and the error names the first such row.
pub fn construct_matrix(post_features: &[ProcessedPostFeatures]) -> (built: Result<
    FeatureMatrix,
    MatrixError,
>)
    ensures
        match built {
            Ok(m) => {
                &&& post_features@.len() > 0
                &&& all_rows_fit(post_features@)
                &&& m@ == rows_of(post_features@)
                &&& m.width() == declared_width(post_features@)
            },
            Err(MatrixError::NoPosts) => post_features@.len() == 0,
            Err(MatrixError::TooWide) => {
                &&& post_features@.len() > 0
                &&& declared_width(post_features@) > usize::MAX
            },
            Err(MatrixError::RowLength { row }) => {
                &&& declared_width(post_features@) <= usize::MAX
                &&& first_misfit(post_features@, row as int)
            },
        },
{
    let n = post_features.len();
    if n == 0 {
        return Err(MatrixError::NoPosts);
    }
    let cols = match row_width(&post_features[n - 1]) {
        Some(c) => c,
        None => {
            return Err(MatrixError::TooWide);
        },
    };
    let mut cells: Vec<u64> = Vec::new();
    let mut i: usize = 0;
    while i < n
        invariant
            n == post_features@.len(),
            0 < n,
            i <= n,
            cols == declared_width(post_features@),
            cells@.len() == i * cols,
            forall|k: int|
                0 <= k < i ==> (#[trigger] row_of(post_features@[k]@)).len() == cols,
            forall|k: int|
                0 <= k < i ==> cells@.subrange(k * cols, k * cols + cols) == #[trigger] row_of(
                    post_features@[k]@,
                ),
        decreases n - i,
    {
        let p = &post_features[i];
        let fits = match row_width(p) {
            Some(w) => w == cols,
            None => false,
        };
        if !fits {
            return Err(MatrixError::RowLength { row: i });
        }
        let ghost before = cells@;
        cells.push(p.author_popularity);
        cells.push(p.downs);
        cells.push(p.ups);
        cells.push(p.score);
        cells.push(p.post_len);
        append_block(&mut cells, &p.word_freq);
        append_block(&mut cells, &p.symbol_freq);
        append_block(&mut cells, &p.regex_matches);
        proof {
            let row = row_of(p@);
            assert(cells@ == before + row);
            assert(i * cols + cols == (i + 1) * cols) by (nonlinear_arith);
            assert forall|k: int| 0 <= k < i + 1 implies cells@.subrange(k * cols, k * cols + cols)
                == #[trigger] row_of(post_features@[k]@) by {
                lemma_row_within(k, i + 1, cols as int);
                if k < i {
                    lemma_row_within(k, i as int, cols as int);
                    assert(cells@.subrange(k * cols, k * cols + cols) == before.subrange(
                        k * cols,
                        k * cols + cols,
                    ));
                } else {
                    assert(cells@.subrange(k * cols, k * cols + cols) == row);
                }
            }
        }
        i = i + 1;
    }
    assert(cells@.len() == n * cols);
    let m = FeatureMatrix { rows: n, cols, cells };
    proof {
        assert forall|r: int| 0 <= r < n implies #[trigger] m@[r] =~= rows_of(
            post_features@,
        )[r] by {
            let row = row_of(post_features@[r]@);
            assert(cells@.subrange(r * cols, r * cols + cols) == row);
            lemma_row_within(r, n as int, cols as int);
            assert forall|c: int| 0 <= c < cols implies m@[r][c] == row[c] by {
                assert(cells@.subrange(r * cols, r * cols + cols)[c] == cells@[r * cols + c]);
            }
        }
        assert(m@ =~= rows_of(post_features@));
    }
    Ok(m)
}

} // verus!
