use vstd::prelude::*;

use crate::error::{DbError, DbErrorView};
use crate::value::view_row;
pub use crate::database::{Database, ExecutionResult};
pub use crate::value::{Value, ValueView};

verus! {

/// The schema of one column, with its constraints.
#[derive(Debug, Clone)]
pub struct Column {
    pub name: String,
    pub data_type: String,
    pub is_primary: bool,
    pub is_unique: bool,
}

/// The mathematical content of a [`Column`].
pub struct ColumnView {
    pub name: Seq<char>,
    pub data_type: Seq<char>,
    pub is_primary: bool,
    pub is_unique: bool,
}

impl ColumnView {
    /// Whether the column carries a uniqueness index.
    pub open spec fn indexed(self) -> bool {
        self.is_primary || self.is_unique
    }
}

impl View for Column {
    type V = ColumnView;

    open spec fn view(&self) -> ColumnView {
        ColumnView {
            name: self.name@,
            data_type: self.data_type@,
            is_primary: self.is_primary,
            is_unique: self.is_unique,
        }
    }
}

/// The mathematical content of a [`Table`]: everything but its index, which
/// is derived from the rows.
pub struct TableView {
    pub name: Seq<char>,
    pub columns: Seq<ColumnView>,
    pub rows: Seq<Seq<ValueView>>,
}

pub open spec fn view_columns(cols: Seq<Column>) -> Seq<ColumnView> {
    cols.map_values(|c: Column| c@)
}

pub open spec fn view_rows(rows: Seq<Vec<Value>>) -> Seq<Seq<ValueView>> {
    rows.map_values(|r: Vec<Value>| view_row(r@))
}

/// The distinct values found at position `i` across the rows.
pub open spec fn column_values(rows: Seq<Seq<ValueView>>, i: int) -> Set<ValueView> {
    Set::new(|v: ValueView| exists|r: int| 0 <= r < rows.len() && rows[r][i] == v)
}

/// The set of values held by one slot of a table's index.
pub open spec fn index_values(slot: Option<Vec<Value>>) -> Set<ValueView> {
    match slot {
        Some(v) => Set::new(|x: ValueView| exists|j: int| 0 <= j < v@.len() && v@[j]@ == x),
        None => Set::empty(),
    }
}

/// Whether the value at position `i` of `row` breaks a uniqueness constraint of `t`.
pub open spec fn conflicts(t: TableView, row: Seq<ValueView>, i: int) -> bool {
    t.columns[i].indexed() && column_values(t.rows, i).contains(row[i])
}

/// The first position below `n` at which `row` conflicts with `t`, or -1.
pub open spec fn first_conflict(t: TableView, row: Seq<ValueView>, n: int) -> int
    decreases n,
{
    if n <= 0 {
        -1
    } else {
        let k = first_conflict(t, row, n - 1);
        if k >= 0 {
            k
        } else if conflicts(t, row, n - 1) {
            n - 1
        } else {
            -1
        }
    }
}

/// Outcome of inserting `row` into `t`: the result and the table afterwards.
pub open spec fn insert_spec(t: TableView, row: Seq<ValueView>) -> (
    Result<(), DbErrorView>,
    TableView,
) {
    if row.len() != t.columns.len() {
        (Err(DbErrorView::ParseError("Columns count mismatch"@)), t)
    } else {
        let k = first_conflict(t, row, row.len() as int);
        if k >= 0 {
            (Err(DbErrorView::UniqueViolation(t.columns[k].name)), t)
        } else {
            (Ok(()), TableView { name: t.name, columns: t.columns, rows: t.rows.push(row) })
        }
    }
}

pub open spec fn unit_result_view(r: Result<(), DbError>) -> Result<(), DbErrorView> {
    match r {
        Ok(_) => Ok(()),
        Err(e) => Err(e@),
    }
}

/// A named table: columns, rows in insertion order, and a uniqueness index
/// holding, for each primary or unique column, the values present there.
#[derive(Debug, Clone)]
pub struct Table {
    pub name: String,
    pub columns: Vec<Column>,
    pub rows: Vec<Vec<Value>>,
    pub indexes: Vec<Option<Vec<Value>>>,
}

impl View for Table {
    type V = TableView;

    open spec fn view(&self) -> TableView {
        TableView {
            name: self.name@,
            columns: view_columns(self.columns@),
            rows: view_rows(self.rows@),
        }
    }
}

proof fn lemma_column_values_push(rows: Seq<Seq<ValueView>>, row: Seq<ValueView>, i: int)
    ensures
        column_values(rows.push(row), i) == column_values(rows, i).insert(row[i]),
{
    let a = column_values(rows.push(row), i);
    let b = column_values(rows, i).insert(row[i]);
    assert forall|v: ValueView| a.contains(v) implies b.contains(v) by {
        let r = choose|r: int| 0 <= r < rows.len() + 1 && rows.push(row)[r][i] == v;
        if r < rows.len() {
            assert(rows[r][i] == v);
        }
    }
    assert forall|v: ValueView| b.contains(v) implies a.contains(v) by {
        if v == row[i] {
            assert(rows.push(row)[rows.len() as int][i] == v);
        } else {
            let r = choose|r: int| 0 <= r < rows.len() && rows[r][i] == v;
            assert(rows.push(row)[r][i] == v);
        }
    }
    assert(a =~= b);
}

proof fn lemma_index_values_push(v: Vec<Value>, w: Vec<Value>, x: Value)
    requires
        w@ == v@.push(x),
    ensures
        index_values(Some(w)) == index_values(Some(v)).insert(x@),
{
    let a = index_values(Some(w));
    let b = index_values(Some(v)).insert(x@);
    assert forall|y: ValueView| a.contains(y) implies b.contains(y) by {
        let j = choose|j: int| 0 <= j < w@.len() && w@[j]@ == y;
        if j < v@.len() {
            assert(v@[j]@ == y);
        }
    }
    assert forall|y: ValueView| b.contains(y) implies a.contains(y) by {
        if y == x@ {
            assert(w@[v@.len() as int]@ == y);
        } else {
            let j = choose|j: int| 0 <= j < v@.len() && v@[j]@ == y;
            assert(w@[j]@ == y);
        }
    }
    assert(a =~= b);
}

/// An index with an empty slot for each primary or unique column and no slot
/// for the others.
fn empty_indexes(columns: &Vec<Column>) -> (r: Vec<Option<Vec<Value>>>)
    ensures
        r@.len() == columns@.len(),
        forall|j: int| 0 <= j < r@.len() ==> ((#[trigger] r@[j]) is Some <==> columns@[j]@.indexed()),
        forall|j: int| 0 <= j < r@.len() ==> index_values(#[trigger] r@[j]) == Set::<ValueView>::empty(),
{
    let mut indexes: Vec<Option<Vec<Value>>> = Vec::new();
    let mut i: usize = 0;
    while i < columns.len()
        invariant
            i <= columns@.len(),
            indexes@.len() == i,
            forall|j: int|
                0 <= j < i ==> ((#[trigger] indexes@[j]) is Some <==> columns@[j]@.indexed()),
            forall|j: int| 0 <= j < i ==> index_values(#[trigger] indexes@[j]) == Set::<ValueView>::empty(),
        decreases columns@.len() - i,
    {
        if columns[i].is_primary || columns[i].is_unique {
            let empty: Vec<Value> = Vec::new();
            indexes.push(Some(empty));
            assert(index_values(indexes@[i as int]) =~= Set::<ValueView>::empty());
        } else {
            indexes.push(None);
        }
        i = i + 1;
    }
    indexes
}

/// Whether `v` occurs in an index slot.
fn slot_contains(slot: &Vec<Value>, v: &Value) -> (r: bool)
    ensures
        r == index_values(Some(*slot)).contains(v@),
{
    let mut j: usize = 0;
    while j < slot.len()
        invariant
            j <= slot@.len(),
            forall|k: int| 0 <= k < j ==> slot@[k]@ != v@,
        decreases slot@.len() - j,
    {
        if slot[j] == *v {
            return true;
        }
        j = j + 1;
    }
    false
}

/// Adds `x` to slot `i` of an index if that slot is kept.
fn add_to_slot(indexes: &mut Vec<Option<Vec<Value>>>, i: usize, x: Value)
    requires
        i < old(indexes)@.len(),
    ensures
        final(indexes)@.len() == old(indexes)@.len(),
        forall|j: int| 0 <= j < old(indexes)@.len() && j != i ==> final(indexes)@[j] == old(indexes)@[j],
        final(indexes)@[i as int] is Some <==> old(indexes)@[i as int] is Some,
        old(indexes)@[i as int] is Some ==> index_values(final(indexes)@[i as int]) == index_values(
            old(indexes)@[i as int],
        ).insert(x@),
        old(indexes)@[i as int] is None ==> final(indexes)@[i as int] is None,
{
    if indexes[i].is_some() {
        let mut slot: Option<Vec<Value>> = None;
        indexes.set_and_swap(i, &mut slot);
        if let Some(mut v) = slot {
            let ghost v0 = v;
            v.push(x);
            proof {
                lemma_index_values_push(v0, v, v@.last());
            }
            indexes.set(i, Some(v));
        }
    }
}

/// The first conflict below `m` stays the first below any larger bound.
proof fn lemma_first_conflict_stable(t: TableView, row: Seq<ValueView>, m: int, n: int)
    requires
        0 <= m <= n,
        first_conflict(t, row, m) >= 0,
    ensures
        first_conflict(t, row, n) == first_conflict(t, row, m),
    decreases n - m,
{
    if n > m {
        lemma_first_conflict_stable(t, row, m, n - 1);
    }
}

/// Two rows that agree on a primary or unique column: once the first has gone
/// in, the second is refused with `UniqueViolation`, and the table keeps its
/// rows and, being well formed, its index.
pub proof fn lemma_duplicate_rejected(t: TableView, a: Seq<ValueView>, b: Seq<ValueView>, i: int)
    requires
        0 <= i < t.columns.len(),
        t.columns[i].indexed(),
        a.len() == t.columns.len(),
        b.len() == t.columns.len(),
        a[i] == b[i],
        insert_spec(t, a).0 is Ok,
    ensures
        ({
            let t1 = insert_spec(t, a).1;
            let (r2, t2) = insert_spec(t1, b);
            &&& r2 is Err
            &&& r2->Err_0 is UniqueViolation
            &&& t2 == t1
            &&& t2.rows.len() == t.rows.len() + 1
            &&& forall|x: Table, y: Table|
                x.wf() && y.wf() && x@ == t1 && y@ == t2 ==> forall|k: int|
                    0 <= k < x.columns@.len() ==> #[trigger] x.index_set(k) == y.index_set(k)
        }),
{
    let t1 = insert_spec(t, a).1;
    assert(t1.rows[t.rows.len() as int] == a);
    assert(column_values(t1.rows, i).contains(b[i]));
    assert(conflicts(t1, b, i));
    lemma_first_conflict_found(t1, b, i, b.len() as int);
    let t2 = insert_spec(t1, b).1;
    assert forall|x: Table, y: Table| x.wf() && y.wf() && x@ == t1 && y@ == t2 implies forall|k: int|
        0 <= k < x.columns@.len() ==> #[trigger] x.index_set(k) == y.index_set(k) by {
        lemma_index_determined(&x, &y);
    }
}

/// A conflict below `n` makes `first_conflict` find one.
proof fn lemma_first_conflict_found(t: TableView, row: Seq<ValueView>, i: int, n: int)
    requires
        0 <= i < n,
        conflicts(t, row, i),
    ensures
        0 <= first_conflict(t, row, n) <= i,
        conflicts(t, row, first_conflict(t, row, n)),
    decreases n,
{
    if n - 1 > i {
        lemma_first_conflict_found(t, row, i, n - 1);
    } else {
        lemma_first_conflict_range(t, row, n - 1);
    }
}

proof fn lemma_first_conflict_range(t: TableView, row: Seq<ValueView>, n: int)
    ensures
        -1 <= first_conflict(t, row, n) < if n > 0 { n } else { 0 },
        first_conflict(t, row, n) >= 0 ==> conflicts(t, row, first_conflict(t, row, n)),
    decreases n,
{
    if n > 0 {
        lemma_first_conflict_range(t, row, n - 1);
    }
}

/// The index is a function of the rows: two well-formed tables with the same
/// columns and rows hold the same index, whether it was rebuilt from the rows
/// or kept up to date insert by insert. Since `insert_row` decides on the
/// columns and rows alone and keeps the table well formed, every later
/// sequence of inserts is accepted or refused alike on both.
pub proof fn lemma_index_determined(a: &Table, b: &Table)
    requires
        a.wf(),
        b.wf(),
        a@ == b@,
    ensures
        forall|i: int| 0 <= i < a.columns@.len() ==> #[trigger] a.index_set(i) == b.index_set(i),
{
    assert forall|i: int| 0 <= i < a.columns@.len() implies #[trigger] a.index_set(i) == b.index_set(i) by {
        assert(a@.columns.len() == a.columns@.len());
        assert(b@.columns.len() == b.columns@.len());
        assert(a@.columns[i] == a.columns@[i]@);
        assert(b@.columns[i] == b.columns@[i]@);
        if !a.columns@[i]@.indexed() {
            assert(a.index_set(i) =~= Set::<ValueView>::empty());
            assert(b.index_set(i) =~= Set::<ValueView>::empty());
        }
    }
}

impl Table {
    /// The values the index holds for position `i`.
    pub open spec fn index_set(&self, i: int) -> Set<ValueView> {
        index_values(self.indexes@[i])
    }

    /// Rows match the columns in length, and the index holds, for each
    /// primary or unique column and for no other, exactly the values present
    /// in that column.
    pub open spec fn wf(&self) -> bool {
        &&& self.indexes@.len() == self.columns@.len()
        &&& forall|r: int|
            0 <= r < self.rows@.len() ==> (#[trigger] self.rows@[r])@.len() == self.columns@.len()
        &&& forall|i: int|
            0 <= i < self.columns@.len() ==> ((#[trigger] self.indexes@[i]) is Some
                <==> self.columns@[i]@.indexed())
        &&& forall|i: int|
            0 <= i < self.columns@.len() && self.columns@[i]@.indexed() ==> #[trigger] self.index_set(i)
                == column_values(self@.rows, i)
    }

    /// A new empty table with an empty index for every primary or unique column.
    pub fn new(name: String, columns: Vec<Column>) -> (r: Table)
        ensures
            r.wf(),
            r@ == (TableView { name: name@, columns: view_columns(columns@), rows: Seq::empty() }),
    {
        let indexes = empty_indexes(&columns);
        let r = Table { name, columns, rows: Vec::new(), indexes };
        assert(r@.rows =~= Seq::<Seq<ValueView>>::empty());
        assert forall|i: int| 0 <= i < r.columns@.len() && r.columns@[i]@.indexed() implies #[trigger] r.index_set(i)
            == column_values(r@.rows, i) by {
            assert(column_values(r@.rows, i) =~= Set::<ValueView>::empty());
        }
        r
    }

    /// Appends `row` if it has one value per column and breaks no primary or
    /// unique constraint; otherwise leaves the table unchanged. Every
    /// constraint is checked before anything is changed.
    pub fn insert_row(&mut self, row: Vec<Value>) -> (r: Result<(), DbError>)
        requires
            old(self).wf(),
        ensures
            final(self).wf(),
            (unit_result_view(r), final(self)@) == insert_spec(old(self)@, view_row(row@)),
    {
        let ghost rv = view_row(row@);
        let n = self.columns.len();
        if row.len() != n {
            return Err(DbError::ParseError(String::from_str("Columns count mismatch")));
        }
        let mut i: usize = 0;
        while i < n
            invariant
                self.wf(),
                n == self.columns@.len(),
                n == row@.len(),
                rv == view_row(row@),
                i <= n,
                first_conflict(self@, rv, i as int) == -1,
            decreases n - i,
        {
            assert(rv[i as int] == row@[i as int]@);
            assert(self.index_set(i as int) == index_values(self.indexes@[i as int]));
            if let Some(slot) = &self.indexes[i] {
                if slot_contains(slot, &row[i]) {
                    assert(conflicts(self@, rv, i as int));
                    assert(first_conflict(self@, rv, i + 1) == i);
                    proof {
                        lemma_first_conflict_stable(self@, rv, i + 1, n as int);
                    }
                    return Err(DbError::UniqueViolation(self.columns[i].name.clone()));
                }
            }
            assert(!conflicts(self@, rv, i as int));
            i = i + 1;
        }
        let ghost before = *self;
        i = 0;
        while i < n
            invariant
                before.wf(),
                n == before.columns@.len(),
                n == row@.len(),
                rv == view_row(row@),
                i <= n,
                self.name == before.name,
                self.columns == before.columns,
                self.rows == before.rows,
                self.indexes@.len() == n,
                forall|j: int| i <= j < n ==> self.indexes@[j] == before.indexes@[j],
                forall|j: int|
                    0 <= j < i ==> ((#[trigger] self.indexes@[j]) is Some <==> before.columns@[j]@.indexed()),
                forall|j: int|
                    0 <= j < i && before.columns@[j]@.indexed() ==> #[trigger] self.index_set(j)
                        == before.index_set(j).insert(rv[j]),
            decreases n - i,
        {
            assert(rv[i as int] == row@[i as int]@);
            assert(self.indexes@[i as int] == before.indexes@[i as int]);
            assert(before.indexes@[i as int] is Some <==> before.columns@[i as int]@.indexed());
            assert(before.index_set(i as int) == index_values(before.indexes@[i as int]));
            let ghost pre = *self;
            add_to_slot(&mut self.indexes, i, row[i].cloned());
            assert forall|j: int|
                0 <= j < i + 1 && before.columns@[j]@.indexed() implies #[trigger] self.index_set(j)
                == before.index_set(j).insert(rv[j]) by {
                if j < i {
                    assert(pre.index_set(j) == before.index_set(j).insert(rv[j]));
                    assert(self.indexes@[j] == pre.indexes@[j]);
                }
            }
            i = i + 1;
        }
        let ghost rows0 = self@.rows;
        let ghost done = *self;
        self.rows.push(row);
        proof {
            assert(self@.rows =~= rows0.push(rv));
            assert forall|j: int| 0 <= j < n && self.columns@[j]@.indexed() implies #[trigger] self.index_set(j)
                == column_values(self@.rows, j) by {
                lemma_column_values_push(rows0, rv, j);
                assert(done.index_set(j) == before.index_set(j).insert(rv[j]));
                assert(self.indexes == done.indexes);
                assert(rows0 == before@.rows);
                assert(before.index_set(j) == column_values(before@.rows, j));
            }
            assert forall|r: int| 0 <= r < self.rows@.len() implies (#[trigger] self.rows@[r])@.len()
                == self.columns@.len() by {
                if r < rows0.len() {
                    assert(self.rows@[r] == before.rows@[r]);
                }
            }
        }
        Ok(())
    }

    /// Recomputes the index from the rows alone.
    pub fn rebuild_indexes(&mut self)
        requires
            forall|r: int|
                0 <= r < old(self).rows@.len() ==> (#[trigger] old(self).rows@[r])@.len()
                    == old(self).columns@.len(),
        ensures
            final(self).wf(),
            final(self)@ == old(self)@,
    {
        let n = self.columns.len();
        self.indexes = empty_indexes(&self.columns);
        let ghost all = self@.rows;
        assert forall|k: int| 0 <= k < all.len() implies (#[trigger] all[k]).len() == n by {
            assert(all[k] == view_row(self.rows@[k]@));
            assert(self.rows@[k]@.len() == n);
        }
        let mut r: usize = 0;
        while r < self.rows.len()
            invariant
                n == self.columns@.len(),
                all == self@.rows,
                self.rows == old(self).rows,
                self.columns == old(self).columns,
                self.name == old(self).name,
                r <= all.len(),
                self.indexes@.len() == n,
                forall|k: int| 0 <= k < all.len() ==> (#[trigger] all[k]).len() == n,
                forall|j: int|
                    0 <= j < n ==> ((#[trigger] self.indexes@[j]) is Some <==> self.columns@[j]@.indexed()),
                forall|j: int|
                    0 <= j < n && self.columns@[j]@.indexed() ==> #[trigger] self.index_set(j)
                        == column_values(all.take(r as int), j),
            decreases all.len() - r,
        {
            assert(all.take(r + 1) =~= all.take(r as int).push(all[r as int]));
            assert(all[r as int] == view_row(self.rows@[r as int]@));
            let ghost mid = self.indexes@;
            assert forall|j: int|
                0 <= j < n && self.columns@[j]@.indexed() implies index_values(mid[j])
                == column_values(all.take(r as int), j) by {
                assert(self.index_set(j) == column_values(all.take(r as int), j));
            }
            let mut i: usize = 0;
            while i < n
                invariant
                    n == self.columns@.len(),
                    all == self@.rows,
                    self.rows == old(self).rows,
                    self.columns == old(self).columns,
                    self.name == old(self).name,
                    all.take(r + 1) == all.take(r as int).push(all[r as int]),
                    mid.len() == n,
                    r < all.len(),
                    i <= n,
                    all[r as int] == view_row(self.rows@[r as int]@),
                    all[r as int].len() == n,
                    self.indexes@.len() == n,
                    forall|j: int| i <= j < n ==> self.indexes@[j] == mid[j],
                    forall|j: int|
                        0 <= j < n ==> ((#[trigger] self.indexes@[j]) is Some <==> self.columns@[j]@.indexed()),
                    forall|j: int|
                        0 <= j < n && self.columns@[j]@.indexed() ==> index_values(mid[j])
                            == column_values(all.take(r as int), j),
                    forall|j: int|
                        0 <= j < i && self.columns@[j]@.indexed() ==> #[trigger] self.index_set(j)
                            == column_values(all.take(r + 1), j),
                decreases n - i,
            {
                proof {
                    lemma_column_values_push(all.take(r as int), all[r as int], i as int);
                }
                assert(self.rows@[r as int]@[i as int]@ == all[r as int][i as int]);
                let ghost pre = *self;
                add_to_slot(&mut self.indexes, i, self.rows[r][i].cloned());
                assert forall|j: int|
                    0 <= j < i + 1 && self.columns@[j]@.indexed() implies #[trigger] self.index_set(j)
                    == column_values(all.take(r + 1), j) by {
                    if j < i {
                        assert(pre.index_set(j) == column_values(all.take(r + 1), j));
                        assert(self.indexes@[j] == pre.indexes@[j]);
                    }
                }
                i = i + 1;
            }
            r = r + 1;
        }
        assert(all.take(all.len() as int) =~= all);
    }
}

} // verus!
