//! Columns and chunks of rows.
use crate::error::RwError;
use crate::shared::share;
use crate::types::{copy_datum, Datum};
use std::sync::Arc;
use vstd::prelude::*;

verus! {

/// A column of values, cheap to hand on.
#[derive(Debug, PartialEq, Eq)]
pub struct Column {
    pub array: Arc<Vec<Datum>>,
}

impl View for Column {
    type V = Seq<Datum>;

    open spec fn view(&self) -> Seq<Datum> {
        self.array@
    }
}

impl Column {
    pub fn new(values: Vec<Datum>) -> (r: Self)
        ensures
            r@ == values@,
    {
        Column { array: Arc::new(values) }
    }

    pub fn len(&self) -> (r: usize)
        ensures
            r == self@.len(),
    {
        self.array.len()
    }

    /// The same column once more.
    pub fn share(&self) -> (r: Self)
        ensures
            r == *self,
    {
        Column { array: share(&self.array) }
    }
}

/// The same columns once more.
pub fn share_all(columns: &Vec<Column>) -> (r: Vec<Column>)
    ensures
        r@ == columns@,
{
    let mut shared: Vec<Column> = Vec::new();
    for i in 0..columns.len()
        invariant
            shared@ == columns@.take(i as int),
    {
        shared.push(columns[i].share());
        assert(columns@.take(i + 1) == columns@.take(i as int).push(columns@[i as int]));
    }
    assert(columns@.take(columns@.len() as int) == columns@);
    shared
}

/// The entries of `rows` whose flag in `visible` is set, in order.
pub open spec fn visible_part<T>(rows: Seq<T>, visible: Seq<bool>) -> Seq<T>
    decreases rows.len(),
{
    if rows.len() == 0 || visible.len() == 0 {
        Seq::empty()
    } else {
        let before = visible_part(rows.drop_last(), visible.drop_last());
        if visible.last() {
            before.push(rows.last())
        } else {
            before
        }
    }
}

/// A batch of rows, stored by column.
///
/// A row may be hidden: then its flag in `visibility` is not set. Without `visibility` every row
/// is visible. A chunk may have rows and yet no columns.
#[derive(Debug, PartialEq, Eq)]
pub struct DataChunk {
    pub columns: Vec<Column>,
    pub visibility: Option<Vec<bool>>,
    /// The number of rows, hidden ones included.
    pub capacity: usize,
}

impl DataChunk {
    /// Every column has one value for each visibility flag.
    pub open spec fn matches_visibility(self) -> bool {
        self.visibility matches Some(visible) ==> forall|c: int|
            0 <= c < self.columns@.len() ==> #[trigger] self.columns@[c]@.len() == visible@.len()
    }

    /// `self` holds the visible rows of `chunk`, in order, and hides none.
    pub open spec fn is_compaction_of(self, chunk: DataChunk) -> bool {
        match chunk.visibility {
            None => self == chunk,
            Some(visible) => {
                &&& self.visibility is None
                &&& self.capacity == visible_part(visible@, visible@).len()
                &&& self.columns@.len() == chunk.columns@.len()
                &&& forall|c: int|
                    0 <= c < chunk.columns@.len() ==> #[trigger] self.columns@[c]@ == visible_part(
                        chunk.columns@[c]@,
                        visible@,
                    )
            },
        }
    }

    /// Every column has one value for each row.
    pub open spec fn is_full(self) -> bool {
        forall|c: int|
            0 <= c < self.columns@.len() ==> #[trigger] self.columns@[c]@.len() == self.capacity
    }

    /// `self` is made of exactly these columns and hides no row.
    pub open spec fn consists_of(self, columns: Seq<Column>) -> bool {
        &&& self.columns@ == columns
        &&& self.visibility is None
        &&& self.capacity == (if columns.len() == 0 {
            0
        } else {
            columns[0]@.len()
        })
    }

    /// A chunk of the given columns with all rows visible.
    ///
    /// The number of rows is the length of the first column.
    pub fn of_columns(columns: Vec<Column>) -> (r: Self)
        ensures
            r.consists_of(columns@),
    {
        let capacity: usize = if columns.len() == 0 {
            0
        } else {
            columns[0].len()
        };
        DataChunk { columns, visibility: None, capacity }
    }

    /// A chunk of rows without any column.
    pub fn new_dummy(capacity: usize) -> (r: Self)
        ensures
            r.columns@ == Seq::<Column>::empty(),
            r.visibility is None,
            r.capacity == capacity,
    {
        DataChunk { columns: Vec::new(), visibility: None, capacity }
    }

    /// A chunk of the given columns, which must be there and must agree in length.
    pub fn try_from(columns: Vec<Column>) -> (r: Result<Self, RwError>)
        ensures
            match r {
                Ok(chunk) => columns@.len() > 0 && same_length(columns@) && chunk.consists_of(
                    columns@,
                ),
                Err(e) => if columns@.len() == 0 {
                    e is NoColumns
                } else {
                    e is UnequalColumns && !same_length(columns@)
                },
            },
    {
        if columns.len() == 0 {
            return Err(RwError::NoColumns);
        }
        let len: usize = columns[0].len();
        for i in 1..columns.len()
            invariant
                columns@.len() > 0,
                len == columns@[0]@.len(),
                forall|c: int| 0 <= c < i ==> #[trigger] columns@[c]@.len() == len,
        {
            if columns[i].len() != len {
                return Err(RwError::UnequalColumns);
            }
        }
        Ok(DataChunk::of_columns(columns))
    }

    /// The number of columns.
    pub fn dimension(&self) -> (r: usize)
        ensures
            r == self.columns@.len(),
    {
        self.columns.len()
    }

    pub fn column_at(&self, idx: usize) -> (r: &Column)
        requires
            idx < self.columns@.len(),
        ensures
            *r == self.columns@[idx as int],
    {
        &self.columns[idx]
    }

    /// Drops the hidden rows.
    ///
    /// This fails where a column does not have one value for each visibility flag.
    pub fn compact(self) -> (r: Result<Self, RwError>)
        ensures
            match r {
                Ok(chunk) => self.matches_visibility() && chunk.is_compaction_of(self),
                Err(e) => e is UnequalColumns && !self.matches_visibility(),
            },
    {
        let visible: &Vec<bool> = match &self.visibility {
            None => {
                return Ok(self);
            },
            Some(visible) => visible,
        };
        let mut columns: Vec<Column> = Vec::new();
        for c in 0..self.columns.len()
            invariant
                self.visibility == Some(*visible),
                columns@.len() == c,
                forall|d: int|
                    0 <= d < c ==> #[trigger] self.columns@[d]@.len() == visible@.len(),
                forall|d: int|
                    0 <= d < c ==> #[trigger] columns@[d]@ == visible_part(
                        self.columns@[d]@,
                        visible@,
                    ),
        {
            let column = &self.columns[c];
            if column.len() != visible.len() {
                return Err(RwError::UnequalColumns);
            }
            columns.push(compact_column(column, visible));
        }
        let capacity: usize = count_visible(visible);
        Ok(DataChunk { columns, visibility: None, capacity })
    }
}

/// The number of flags that are set before position `p`.
pub open spec fn rank(visible: Seq<bool>, p: int) -> int {
    visible_part(visible.take(p), visible.take(p)).len() as int
}

impl DataChunk {
    /// There is a row `p`, and it is not hidden.
    pub open spec fn is_visible(self, p: int) -> bool {
        match self.visibility {
            None => 0 <= p < self.capacity,
            Some(visible) => 0 <= p < visible@.len() && visible@[p],
        }
    }

    /// The position of row `p` once the hidden rows are dropped.
    pub open spec fn position(self, p: int) -> int {
        match self.visibility {
            None => p,
            Some(visible) => rank(visible@, p),
        }
    }
}

proof fn lemma_visible_part<T>(rows: Seq<T>, visible: Seq<bool>, p: int)
    requires
        rows.len() == visible.len(),
    ensures
        visible_part(rows, visible).len() == visible_part(visible, visible).len(),
        0 <= p < visible.len() && visible[p] ==> {
            &&& rank(visible, p) < visible_part(rows, visible).len()
            &&& visible_part(rows, visible)[rank(visible, p)] == rows[p]
        },
    decreases rows.len(),
{
    if rows.len() > 0 {
        let last = visible.len() - 1;
        lemma_visible_part(rows.drop_last(), visible.drop_last(), p);
        if 0 <= p < last {
            assert(visible.drop_last().take(p) == visible.take(p));
        } else {
            assert(visible.take(last) == visible.drop_last());
        }
    }
}

proof fn lemma_rank_increases(visible: Seq<bool>, p: int, q: int)
    requires
        0 <= p < q <= visible.len(),
    ensures
        rank(visible, p) + (if visible[p] { 1int } else { 0 }) <= rank(visible, q),
    decreases q,
{
    assert(visible.take(q).drop_last() == visible.take(q - 1));
    if p < q - 1 {
        lemma_rank_increases(visible, p, q - 1);
    }
}

proof fn lemma_rank_reaches(visible: Seq<bool>, q: int, r: int) -> (p: int)
    requires
        0 <= q <= visible.len(),
        0 <= r < rank(visible, q),
    ensures
        0 <= p < q,
        visible[p],
        rank(visible, p) == r,
    decreases q,
{
    assert(visible.take(q).drop_last() == visible.take(q - 1));
    if r < rank(visible, q - 1) {
        lemma_rank_reaches(visible, q - 1, r)
    } else {
        q - 1
    }
}

/// Dropping the hidden rows keeps every other row, with all its values.
pub proof fn law_compaction_keeps_visible_rows(chunk: DataChunk, compacted: DataChunk, p: int)
    requires
        chunk.matches_visibility(),
        compacted.is_compaction_of(chunk),
        chunk.is_visible(p),
    ensures
        0 <= chunk.position(p) < compacted.capacity,
        compacted.columns@.len() == chunk.columns@.len(),
        forall|c: int|
            0 <= c < chunk.columns@.len() ==> (#[trigger] compacted.columns@[c])@[chunk.position(p)]
                == chunk.columns@[c]@[p],
{
    if let Some(visible) = chunk.visibility {
        lemma_visible_part(visible@, visible@, p);
        assert forall|c: int| 0 <= c < chunk.columns@.len() implies (
        #[trigger] compacted.columns@[c])@[chunk.position(p)] == chunk.columns@[c]@[p] by {
            lemma_visible_part(chunk.columns@[c]@, visible@, p);
        }
    }
}

/// Dropping the hidden rows of a chunk with one value per row and column leaves such a chunk.
pub proof fn law_compaction_is_full(chunk: DataChunk, compacted: DataChunk)
    requires
        chunk.is_full(),
        chunk.matches_visibility(),
        compacted.is_compaction_of(chunk),
    ensures
        compacted.is_full(),
{
    if let Some(visible) = chunk.visibility {
        assert forall|c: int| 0 <= c < compacted.columns@.len() implies (
        #[trigger] compacted.columns@[c]@).len() == compacted.capacity by {
            lemma_visible_part(chunk.columns@[c]@, visible@, 0);
        }
    }
}

/// Dropping the hidden rows leaves no row but the visible ones.
pub proof fn law_compaction_adds_no_rows(chunk: DataChunk, compacted: DataChunk, r: int)
    requires
        compacted.is_compaction_of(chunk),
        0 <= r < compacted.capacity,
    ensures
        exists|p: int| #[trigger] chunk.is_visible(p) && chunk.position(p) == r,
{
    match chunk.visibility {
        None => {
            assert(chunk.is_visible(r));
        },
        Some(visible) => {
            assert(visible@.take(visible@.len() as int) == visible@);
            let p = lemma_rank_reaches(visible@, visible@.len() as int, r);
            assert(chunk.is_visible(p));
        },
    }
}

/// Dropping the hidden rows keeps the order of the others.
pub proof fn law_compaction_keeps_order(chunk: DataChunk, p: int, q: int)
    requires
        chunk.is_visible(p),
        chunk.is_visible(q),
        p < q,
    ensures
        chunk.position(p) < chunk.position(q),
{
    if let Some(visible) = chunk.visibility {
        lemma_rank_increases(visible@, p, q);
    }
}

/// `rows` lists the rows of `chunk` that are not hidden, in ascending order, and row `r` of
/// `compacted` has the values of row `rows[r]`.
pub open spec fn picks_rows(chunk: DataChunk, compacted: DataChunk, rows: Seq<int>) -> bool {
    &&& forall|q: int, r: int|
        0 <= q < r < rows.len() ==> #[trigger] rows[q] < #[trigger] rows[r]
    &&& forall|p: int| #[trigger]
        rows.contains(p) <==> match chunk.visibility {
            None => 0 <= p < chunk.capacity,
            Some(visible) => 0 <= p < visible@.len() && visible@[p],
        }
    &&& forall|c: int, r: int|
        0 <= c < chunk.columns@.len() && 0 <= r < rows.len() ==> (
        #[trigger] compacted.columns@[c]).array@[r] == chunk.columns@[c].array@[#[trigger] rows[r]]
}

/// Compaction gives the rows that are not hidden, all of them, each once, in their order, and
/// nothing else.
pub proof fn law_compaction_picks_the_visible_rows(chunk: DataChunk, compacted: DataChunk)
    requires
        chunk.matches_visibility(),
        compacted.is_compaction_of(chunk),
    ensures
        compacted.visibility is None,
        compacted.columns@.len() == chunk.columns@.len(),
        chunk.visibility is Some ==> forall|c: int|
            0 <= c < chunk.columns@.len() ==> (#[trigger] compacted.columns@[c]).array@.len()
                == compacted.capacity,
        chunk.visibility is None ==> forall|c: int|
            0 <= c < chunk.columns@.len() ==> (#[trigger] compacted.columns@[c]).array@.len()
                == chunk.columns@[c].array@.len(),
        exists|rows: Seq<int>| #[trigger]
            picks_rows(chunk, compacted, rows) && rows.len() == compacted.capacity,
{
    let rows = Seq::new(
        compacted.capacity as nat,
        |r: int| choose|p: int| #[trigger] chunk.is_visible(p) && chunk.position(p) == r,
    );
    assert forall|r: int| 0 <= r < rows.len() implies chunk.is_visible(#[trigger] rows[r])
        && chunk.position(rows[r]) == r by {
        law_compaction_adds_no_rows(chunk, compacted, r);
    }
    assert forall|q: int, r: int| 0 <= q < r < rows.len() implies #[trigger] rows[q]
        < #[trigger] rows[r] by {
        if rows[r] < rows[q] {
            law_compaction_keeps_order(chunk, rows[r], rows[q]);
        }
    }
    assert forall|p: int| #[trigger] rows.contains(p) <==> chunk.is_visible(p) by {
        if chunk.is_visible(p) {
            law_compaction_keeps_visible_rows(chunk, compacted, p);
            let r = chunk.position(p);
            if rows[r] < p {
                law_compaction_keeps_order(chunk, rows[r], p);
            } else if p < rows[r] {
                law_compaction_keeps_order(chunk, p, rows[r]);
            }
            assert(rows[r] == p);
        }
    }
    assert forall|c: int, r: int| 0 <= c < chunk.columns@.len() && 0 <= r < rows.len() implies (
    #[trigger] compacted.columns@[c]).array@[r] == chunk.columns@[c].array@[#[trigger] rows[r]] by {
        law_compaction_keeps_visible_rows(chunk, compacted, rows[r]);
        assert(compacted.columns@[c]@[r] == chunk.columns@[c]@[rows[r]]);
    }
    if let Some(visible) = chunk.visibility {
        assert forall|c: int| 0 <= c < chunk.columns@.len() implies (
        #[trigger] compacted.columns@[c]).array@.len() == compacted.capacity by {
            assert(compacted.columns@[c]@ == visible_part(chunk.columns@[c]@, visible@));
            lemma_visible_part(chunk.columns@[c]@, visible@, 0);
        }
    }
    assert(picks_rows(chunk, compacted, rows));
}

/// A chunk can be compacted exactly if each of its columns has as many values as there are
/// visibility flags, where there are flags. Columns make a chunk exactly if they agree in length,
/// and that chunk has these columns, as many rows as they have values, and hides none.
pub proof fn law_chunks_and_columns(chunk: DataChunk, columns: Seq<Column>)
    ensures
        chunk.matches_visibility() <==> (chunk.visibility is Some ==> forall|c: int|
            0 <= c < chunk.columns@.len() ==> (#[trigger] chunk.columns@[c]).array@.len()
                == chunk.visibility->Some_0@.len()),
        same_length(columns) <==> forall|a: int, b: int|
            0 <= a < columns.len() && 0 <= b < columns.len() ==> (
            #[trigger] columns[a]).array@.len() == (#[trigger] columns[b]).array@.len(),
        chunk.consists_of(columns) ==> chunk.columns@ == columns && chunk.visibility is None,
        chunk.consists_of(columns) && columns.len() > 0 ==> chunk.capacity
            == columns[0].array@.len(),
        chunk.consists_of(columns) && columns.len() == 0 ==> chunk.capacity == 0,
        chunk.is_full() <==> forall|c: int|
            0 <= c < chunk.columns@.len() ==> (#[trigger] chunk.columns@[c]).array@.len()
                == chunk.capacity,
{
    if chunk.matches_visibility() && chunk.visibility is Some {
        assert forall|c: int| 0 <= c < chunk.columns@.len() implies (
        #[trigger] chunk.columns@[c]).array@.len() == chunk.visibility->Some_0@.len() by {
            assert(chunk.columns@[c]@.len() == chunk.visibility->Some_0@.len());
        }
    }
    if same_length(columns) {
        assert forall|a: int, b: int| 0 <= a < columns.len() && 0 <= b < columns.len() implies (
        #[trigger] columns[a]).array@.len() == (#[trigger] columns[b]).array@.len() by {
            assert(columns[a]@.len() == columns[0]@.len());
            assert(columns[b]@.len() == columns[0]@.len());
        }
    }
    if chunk.is_full() {
        assert forall|c: int| 0 <= c < chunk.columns@.len() implies (
        #[trigger] chunk.columns@[c]).array@.len() == chunk.capacity by {
            assert(chunk.columns@[c]@.len() == chunk.capacity);
        }
    }
}

/// All columns have the length of the first one.
pub open spec fn same_length(columns: Seq<Column>) -> bool {
    forall|c: int| 0 <= c < columns.len() ==> #[trigger] columns[c]@.len() == columns[0]@.len()
}

/// The values of `column` whose flag is set.
fn compact_column(column: &Column, visible: &Vec<bool>) -> (r: Column)
    requires
        column@.len() == visible@.len(),
    ensures
        r@ == visible_part(column@, visible@),
{
    let mut values: Vec<Datum> = Vec::new();
    for i in 0..visible.len()
        invariant
            column@.len() == visible@.len(),
            values@ == visible_part(column@.take(i as int), visible@.take(i as int)),
    {
        proof {
            assert(column@.take(i + 1).drop_last() == column@.take(i as int));
            assert(visible@.take(i + 1).drop_last() == visible@.take(i as int));
        }
        if visible[i] {
            values.push(copy_datum(&column.array[i]));
        }
    }
    assert(column@.take(column@.len() as int) == column@);
    assert(visible@.take(visible@.len() as int) == visible@);
    Column::new(values)
}

/// The number of flags that are set.
fn count_visible(visible: &Vec<bool>) -> (r: usize)
    ensures
        r == visible_part(visible@, visible@).len(),
{
    let mut count: usize = 0;
    for i in 0..visible.len()
        invariant
            count <= i,
            count == visible_part(visible@.take(i as int), visible@.take(i as int)).len(),
    {
        assert(visible@.take(i + 1).drop_last() == visible@.take(i as int));
        if visible[i] {
            count = count + 1;
        }
    }
    assert(visible@.take(visible@.len() as int) == visible@);
    count
}

} // verus!
