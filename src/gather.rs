//! Gathering per-row escape-time results into a tile in canonical pixel order.
use vstd::prelude::*;
use vstd::arithmetic::div_mod::{lemma_fundamental_div_mod, lemma_fundamental_div_mod_converse};
use vstd::set_lib::{lemma_int_range, lemma_subset_equality, set_int_range};
use crate::viewport::{TileError, TileSpecification};

verus! {

/// The iteration counts of one scanline, tagged with the row they belong to.
pub struct Line {
    pub row: i32,
    pub counts: Vec<u32>,
}

/// A row result fits a tile: its row lies on the tile, it holds one count per
/// column, and no count exceeds the iteration budget.
pub open spec fn line_fits(spec: TileSpecification, max_iterations: u32, line: Line) -> bool {
    &&& 0 <= line.row < spec.pixel_height
    &&& line.counts@.len() == spec.pixel_width
    &&& forall|x: int| 0 <= x < line.counts@.len() ==> line.counts@[x] <= max_iterations
}

/// The row results are exactly one fitting line per row of the tile, in any order.
pub open spec fn lines_complete(spec: TileSpecification, max_iterations: u32, lines: Seq<Line>) -> bool {
    &&& lines.len() == spec.pixel_height
    &&& forall|k: int| 0 <= k < lines.len() ==> line_fits(spec, max_iterations, #[trigger] lines[k])
    &&& forall|j: int, k: int|
        0 <= j < lines.len() && 0 <= k < lines.len() && j != k ==> #[trigger] lines[j].row
            != #[trigger] lines[k].row
}

/// The counts carried by the line for row `y`.
pub open spec fn row_counts(lines: Seq<Line>, y: int) -> Seq<u32> {
    lines[choose|k: int| 0 <= k < lines.len() && lines[k].row == y].counts@
}

/// The tile's counts in canonical order: entry `y * width + x` is the count of
/// pixel column `x` in row `y`.
pub open spec fn assembled(spec: TileSpecification, lines: Seq<Line>) -> Seq<u32> {
    Seq::new(
        spec.pixel_count() as nat,
        |i: int| row_counts(lines, i / spec.pixel_width as int)[i % spec.pixel_width as int],
    )
}

/// Abstract content of a tile.
pub struct TileView {
    pub specification: TileSpecification,
    pub max_iterations: u32,
    pub counts: Seq<u32>,
}

impl TileView {
    /// One count per pixel of a valid specification, none above the budget.
    pub open spec fn wf(&self) -> bool {
        &&& self.specification.wf()
        &&& self.counts.len() == self.specification.pixel_count()
        &&& forall|i: int| 0 <= i < self.counts.len() ==> self.counts[i] <= self.max_iterations
    }
}

/// A fully computed grid of escape-time counts for one specification.
/// Immutable once built.
pub struct Tile {
    specification: TileSpecification,
    max_iterations: u32,
    counts: Vec<u32>,
}

impl View for Tile {
    type V = TileView;

    closed spec fn view(&self) -> TileView {
        TileView {
            specification: self.specification,
            max_iterations: self.max_iterations,
            counts: self.counts@,
        }
    }
}

impl Tile {
    #[verifier::type_invariant]
    spec fn inv(&self) -> bool {
        self@.wf()
    }

    /// The specification the counts were computed for.
    pub fn specification(&self) -> (r: TileSpecification)
        ensures
            r == self@.specification,
            self@.wf(),
    {
        proof {
            use_type_invariant(self);
        }
        self.specification
    }

    /// The iteration budget the counts were computed with.
    pub fn max_iterations(&self) -> (r: u32)
        ensures
            r == self@.max_iterations,
            self@.wf(),
    {
        proof {
            use_type_invariant(self);
        }
        self.max_iterations
    }

    /// The counts, row by row.
    pub fn counts(&self) -> (r: &Vec<u32>)
        ensures
            r@ == self@.counts,
            self@.wf(),
    {
        proof {
            use_type_invariant(self);
        }
        &self.counts
    }
}

/// A sequence of `n` distinct integers, all in `[0, n)`, takes every value of `[0, n)`.
pub proof fn lemma_distinct_fills_range(s: Seq<int>, n: int, v: int)
    requires
        s.len() == n,
        s.no_duplicates(),
        forall|i: int| 0 <= i < s.len() ==> 0 <= #[trigger] s[i] < n,
        0 <= v < n,
    ensures
        exists|i: int| 0 <= i < s.len() && s[i] == v,
{
    s.unique_seq_to_set();
    let range = set_int_range(0, n);
    lemma_int_range(0, n);
    assert(s.to_set().subset_of(range)) by {
        assert forall|r: int| s.to_set().contains(r) implies range.contains(r) by {
            let k = choose|k: int| 0 <= k < s.len() && s[k] == r;
            assert(0 <= s[k] < n);
        }
    }
    lemma_subset_equality(s.to_set(), range);
    assert(range.contains(v));
    assert(s.to_set().contains(v));
}

/// When the lines are complete, every row of the tile is carried by one of them.
pub proof fn lemma_complete_covers_rows(
    spec: TileSpecification,
    max_iterations: u32,
    lines: Seq<Line>,
    y: int,
)
    requires
        lines_complete(spec, max_iterations, lines),
        0 <= y < spec.pixel_height,
    ensures
        exists|k: int| 0 <= k < lines.len() && lines[k].row == y,
{
    let rows = lines.map_values(|l: Line| l.row as int);
    assert(rows.no_duplicates()) by {
        assert forall|j: int, k: int| 0 <= j < rows.len() && 0 <= k < rows.len() && j != k implies rows[j]
            != rows[k] by {
            assert(lines[j].row != lines[k].row);
        }
    }
    assert forall|i: int| 0 <= i < rows.len() implies 0 <= #[trigger] rows[i] < spec.pixel_height by {
        assert(line_fits(spec, max_iterations, lines[i]));
    }
    lemma_distinct_fills_range(rows, spec.pixel_height as int, y);
    let k = choose|k: int| 0 <= k < rows.len() && rows[k] == y;
    assert(lines[k].row == y);
}

/// With complete lines, the counts of row `y` are those of any line that carries row `y`.
pub proof fn lemma_row_counts_of_line(
    spec: TileSpecification,
    max_iterations: u32,
    lines: Seq<Line>,
    j: int,
)
    requires
        lines_complete(spec, max_iterations, lines),
        0 <= j < lines.len(),
    ensures
        row_counts(lines, lines[j].row as int) == lines[j].counts@,
{
    let y = lines[j].row as int;
    assert(0 <= j < lines.len() && lines[j].row == y);
    let k = choose|k: int| 0 <= k < lines.len() && lines[k].row == y;
    if k != j {
        assert(lines[j].row != lines[k].row);
    }
}

/// Pixel column and row of the entry at `index` of a tile's counts.
pub fn pixel_of_index(spec: TileSpecification, index: usize) -> (r: (i32, i32))
    requires
        spec.wf(),
        index < spec.pixel_count(),
    ensures
        0 <= r.0 < spec.pixel_width,
        0 <= r.1 < spec.pixel_height,
        r.1 * spec.pixel_width + r.0 == index,
{
    let w = spec.pixel_width as usize;
    let x = index % w;
    let y = index / w;
    proof {
        lemma_fundamental_div_mod(index as int, w as int);
        let h = spec.pixel_height as int;
        assert(y < h) by (nonlinear_arith)
            requires
                index == w * y + x,
                0 <= x < w,
                index < w * h,
        ;
        assert(index == y * w + x) by (nonlinear_arith)
            requires
                index == w * y + x,
        ;
    }
    (x as i32, y as i32)
}

/// The order in which row results arrive does not matter: a reordering of
/// the lines is complete exactly when the lines are, and then both assemble
/// into the same counts.
pub proof fn lemma_arrival_order_irrelevant(
    spec: TileSpecification,
    max_iterations: u32,
    lines: Seq<Line>,
    reordered: Seq<Line>,
    perm: Seq<int>,
)
    requires
        spec.wf(),
        perm.len() == lines.len(),
        reordered.len() == lines.len(),
        forall|i: int|
            0 <= i < perm.len() ==> 0 <= #[trigger] perm[i] < lines.len() && reordered[i]
                == lines[perm[i]],
        perm.no_duplicates(),
    ensures
        lines_complete(spec, max_iterations, reordered) == lines_complete(
            spec,
            max_iterations,
            lines,
        ),
        lines_complete(spec, max_iterations, lines) ==> assembled(spec, reordered) == assembled(
            spec,
            lines,
        ),
{
    let n = lines.len() as int;
    if lines_complete(spec, max_iterations, lines) {
        assert forall|k: int| 0 <= k < n implies line_fits(
            spec,
            max_iterations,
            #[trigger] reordered[k],
        ) by {
            assert(line_fits(spec, max_iterations, lines[perm[k]]));
        }
        assert forall|j: int, k: int| 0 <= j < n && 0 <= k < n && j != k implies #[trigger] reordered[j].row
            != #[trigger] reordered[k].row by {
            assert(perm[j] != perm[k]);
        }
        assert(lines_complete(spec, max_iterations, reordered));
    }
    if lines_complete(spec, max_iterations, reordered) {
        assert forall|k: int| 0 <= k < n implies line_fits(
            spec,
            max_iterations,
            #[trigger] lines[k],
        ) by {
            lemma_distinct_fills_range(perm, n, k);
            let i = choose|i: int| 0 <= i < perm.len() && perm[i] == k;
            assert(line_fits(spec, max_iterations, reordered[i]));
        }
        assert forall|j: int, k: int| 0 <= j < n && 0 <= k < n && j != k implies #[trigger] lines[j].row
            != #[trigger] lines[k].row by {
            lemma_distinct_fills_range(perm, n, j);
            lemma_distinct_fills_range(perm, n, k);
            let a = choose|i: int| 0 <= i < perm.len() && perm[i] == j;
            let b = choose|i: int| 0 <= i < perm.len() && perm[i] == k;
            assert(reordered[a].row != reordered[b].row);
        }
        assert(lines_complete(spec, max_iterations, lines));
    }
    if lines_complete(spec, max_iterations, lines) {
        let w = spec.pixel_width as int;
        let h = spec.pixel_height as int;
        assert forall|i: int| 0 <= i < spec.pixel_count() implies #[trigger] assembled(spec, reordered)[i]
            == assembled(spec, lines)[i] by {
            let y = i / w;
            lemma_fundamental_div_mod(i, w);
            assert(0 <= y < h) by (nonlinear_arith)
                requires
                    i == w * y + i % w,
                    0 <= i % w < w,
                    0 <= i < w * h,
            ;
            lemma_complete_covers_rows(spec, max_iterations, lines, y);
            let k = choose|k: int| 0 <= k < lines.len() && lines[k].row == y;
            lemma_distinct_fills_range(perm, n, k);
            let a = choose|a: int| 0 <= a < perm.len() && perm[a] == k;
            lemma_row_counts_of_line(spec, max_iterations, lines, k);
            lemma_row_counts_of_line(spec, max_iterations, reordered, a);
        }
        assert(assembled(spec, reordered) =~= assembled(spec, lines));
    }
}

/// Reassembles the row results of a tile, received in any order, into the
/// tile's canonical `(y, x)` order. Fails as a whole when the specification is
/// invalid or when the results are not exactly one fitting line per row.
pub fn assemble(spec: TileSpecification, max_iterations: u32, lines: &Vec<Line>) -> (r: Result<
    Tile,
    TileError,
>)
    ensures
        !spec.wf() ==> r == Err::<Tile, TileError>(TileError::InvalidTileSpecification),
        spec.wf() && !lines_complete(spec, max_iterations, lines@) ==> r == Err::<Tile, TileError>(
            TileError::RowComputationFault,
        ),
        spec.wf() && lines_complete(spec, max_iterations, lines@) ==> r is Ok && r->Ok_0@ == (
        TileView { specification: spec, max_iterations, counts: assembled(spec, lines@) }),
        r is Ok ==> r->Ok_0@.wf(),
{
    if !spec.is_valid() {
        return Err(TileError::InvalidTileSpecification);
    }
    let h = spec.pixel_height as usize;
    let w = spec.pixel_width as usize;
    if lines.len() != h {
        return Err(TileError::RowComputationFault);
    }
    let mut slots: Vec<Option<usize>> = Vec::new();
    let mut y: usize = 0;
    while y < h
        invariant
            y <= h,
            slots@.len() == y,
            forall|j: int| 0 <= j < y ==> slots@[j].is_none(),
        decreases h - y,
    {
        slots.push(None);
        y = y + 1;
    }
    let mut k: usize = 0;
    while k < lines.len()
        invariant
            spec.wf(),
            h == spec.pixel_height,
            w == spec.pixel_width,
            lines@.len() == h,
            slots@.len() == h,
            k <= h,
            forall|r: int|
                0 <= r < h && (#[trigger] slots@[r]).is_some() ==> 0 <= slots@[r].unwrap() < k
                    && lines@[slots@[r].unwrap() as int].row == r,
            forall|j: int|
                0 <= j < k ==> line_fits(spec, max_iterations, #[trigger] lines@[j]) && slots@[lines@[j].row as int]
                    == Some(j as usize),
        decreases h - k,
    {
        let line = &lines[k];
        if line.row < 0 || line.row >= spec.pixel_height || line.counts.len() != w {
            proof {
                assert(!line_fits(spec, max_iterations, lines@[k as int]));
            }
            return Err(TileError::RowComputationFault);
        }
        let mut x: usize = 0;
        while x < w
            invariant
                spec.wf(),
                w == spec.pixel_width,
                k < lines@.len(),
                *line == lines@[k as int],
                x <= w,
                w == line.counts@.len(),
                forall|i: int| 0 <= i < x ==> line.counts@[i] <= max_iterations,
            decreases w - x,
        {
            if line.counts[x] > max_iterations {
                proof {
                    assert(!line_fits(spec, max_iterations, lines@[k as int]));
                }
                return Err(TileError::RowComputationFault);
            }
            x = x + 1;
        }
        let row = line.row as usize;
        match slots[row] {
            Some(j) => {
                proof {
                    assert(lines@[j as int].row == lines@[k as int].row);
                }
                return Err(TileError::RowComputationFault);
            },
            None => {
                slots.set(row, Some(k));
            },
        }
        k = k + 1;
    }
    proof {
        assert forall|j: int, k: int|
            0 <= j < lines@.len() && 0 <= k < lines@.len() && j != k implies #[trigger] lines@[j].row
            != #[trigger] lines@[k].row by {
            assert(line_fits(spec, max_iterations, lines@[j]));
            assert(line_fits(spec, max_iterations, lines@[k]));
        }
        assert(lines_complete(spec, max_iterations, lines@));
    }
    let mut counts: Vec<u32> = Vec::new();
    let mut y: usize = 0;
    while y < h
        invariant
            spec.wf(),
            h == spec.pixel_height,
            w == spec.pixel_width,
            lines@.len() == h,
            slots@.len() == h,
            lines_complete(spec, max_iterations, lines@),
            forall|j: int|
                0 <= j < h ==> slots@[(#[trigger] lines@[j]).row as int] == Some(j as usize),
            y <= h,
            counts@.len() == y * w,
            forall|i: int| 0 <= i < counts@.len() ==> counts@[i] == assembled(spec, lines@)[i],
            forall|i: int| 0 <= i < counts@.len() ==> counts@[i] <= max_iterations,
        decreases h - y,
    {
        proof {
            lemma_complete_covers_rows(spec, max_iterations, lines@, y as int);
        }
        let j = match slots[y] {
            Some(j) => j,
            None => {
                proof {
                    let k = choose|k: int| 0 <= k < lines@.len() && lines@[k].row == y;
                    assert(slots@[lines@[k].row as int] == Some(k as usize));
                }
                return Err(TileError::RowComputationFault);
            },
        };
        proof {
            let k = choose|k: int| 0 <= k < lines@.len() && lines@[k].row == y;
            assert(slots@[lines@[k].row as int] == Some(k as usize));
            assert(j == k);
            lemma_row_counts_of_line(spec, max_iterations, lines@, j as int);
            assert(line_fits(spec, max_iterations, lines@[j as int]));
        }
        let line = &lines[j];
        let mut x: usize = 0;
        while x < w
            invariant
                spec.wf(),
                w == spec.pixel_width,
                h == spec.pixel_height,
                y < h,
                x <= w,
                line.counts@.len() == w,
                row_counts(lines@, y as int) == line.counts@,
                forall|i: int| 0 <= i < line.counts@.len() ==> line.counts@[i] <= max_iterations,
                counts@.len() == y * w + x,
                forall|i: int| 0 <= i < counts@.len() ==> counts@[i] == assembled(spec, lines@)[i],
                forall|i: int| 0 <= i < counts@.len() ==> counts@[i] <= max_iterations,
            decreases w - x,
        {
            proof {
                let i = y * w + x;
                lemma_fundamental_div_mod_converse(i as int, w as int, y as int, x as int);
                assert(y * w + x < w * h) by (nonlinear_arith)
                    requires
                        y < h,
                        x < w,
                ;
            }
            counts.push(line.counts[x]);
            x = x + 1;
        }
        proof {
            assert((y + 1) * w == y * w + w) by (nonlinear_arith);
        }
        y = y + 1;
    }
    proof {
        assert(counts@ =~= assembled(spec, lines@)) by {
            assert(h * w == w * h) by (nonlinear_arith);
        }
    }
    Ok(Tile { specification: spec, max_iterations, counts })
}

} // verus!
