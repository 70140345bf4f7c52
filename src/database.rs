use vstd::prelude::*;

use crate::engine::{
    insert_spec, unit_result_view, view_columns, view_rows, Column, ColumnView, Table, TableView,
};
use crate::text::str_eq;
use crate::error::{DbError, DbErrorView};
use crate::parser::{to_columns, view_strings, JoinDefinition, JoinView, Statement, StatementView};
use crate::value::{clone_row, view_row, Value, ValueView};

verus! {

/// The tables of a database, each under its own name.
#[derive(Debug, Clone)]
pub struct Database {
    pub tables: Vec<Table>,
}

/// What a statement returns: a message, or headers with rows.
#[derive(Debug)]
pub enum ExecutionResult {
    Message(String),
    Data { headers: Vec<String>, rows: Vec<Vec<Value>> },
}

/// The mathematical content of an [`ExecutionResult`].
pub enum ResultView {
    Message(Seq<char>),
    Data { headers: Seq<Seq<char>>, rows: Seq<Seq<ValueView>> },
}


impl View for ExecutionResult {
    type V = ResultView;

    open spec fn view(&self) -> ResultView {
        match self {
            ExecutionResult::Message(m) => ResultView::Message(m@),
            ExecutionResult::Data { headers, rows } => ResultView::Data {
                headers: view_strings(headers@),
                rows: view_rows(rows@),
            },
        }
    }
}

/// The tables of a list, keyed by name; a later table hides an earlier one
/// of the same name.
pub open spec fn tables_map(ts: Seq<Table>) -> Map<Seq<char>, TableView>
    decreases ts.len(),
{
    if ts.len() == 0 {
        Map::empty()
    } else {
        tables_map(ts.drop_last()).insert(ts.last().name@, ts.last()@)
    }
}

pub open spec fn names_unique(ts: Seq<Table>) -> bool {
    forall|i: int, j: int| 0 <= i < j < ts.len() ==> ts[i].name@ != ts[j].name@
}

impl View for Database {
    type V = Map<Seq<char>, TableView>;

    open spec fn view(&self) -> Map<Seq<char>, TableView> {
        tables_map(self.tables@)
    }
}

/// Outcome of creating table `name` with `cols` in `db`.
pub open spec fn create_spec(db: Map<Seq<char>, TableView>, name: Seq<char>, cols: Seq<ColumnView>) -> (
    Result<(), DbErrorView>,
    Map<Seq<char>, TableView>,
) {
    if db.contains_key(name) {
        (Err(DbErrorView::TableAlreadyExists(name)), db)
    } else {
        (Ok(()), db.insert(name, TableView { name, columns: cols, rows: Seq::empty() }))
    }
}


pub open spec fn column_names(cols: Seq<ColumnView>) -> Seq<Seq<char>> {
    cols.map_values(|c: ColumnView| c.name)
}

/// The first position of `n` in `names`, or -1.
pub open spec fn first_index(names: Seq<Seq<char>>, n: Seq<char>) -> int
    decreases names.len(),
{
    if names.len() == 0 {
        -1
    } else {
        let k = first_index(names.drop_last(), n);
        if k >= 0 {
            k
        } else if names.last() == n {
            names.len() - 1
        } else {
            -1
        }
    }
}

/// The first position below `m` of a requested name that no column carries, or -1.
pub open spec fn first_missing(names: Seq<Seq<char>>, req: Seq<Seq<char>>, m: int) -> int
    decreases m,
{
    if m <= 0 {
        -1
    } else {
        let k = first_missing(names, req, m - 1);
        if k >= 0 {
            k
        } else if first_index(names, req[m - 1]) < 0 {
            m - 1
        } else {
            -1
        }
    }
}

/// The values of `row` under the requested column names.
pub open spec fn project(row: Seq<ValueView>, names: Seq<Seq<char>>, req: Seq<Seq<char>>) -> Seq<ValueView> {
    req.map_values(|c: Seq<char>| row[first_index(names, c)])
}

/// The rows of `right` that match `l` on the join columns, each appended to `l`,
/// in the order of `right`.
pub open spec fn matches_of(l: Seq<ValueView>, right: Seq<Seq<ValueView>>, li: int, ri: int) -> Seq<Seq<ValueView>>
    decreases right.len(),
{
    if right.len() == 0 {
        Seq::empty()
    } else {
        let rest = matches_of(l, right.drop_last(), li, ri);
        if l[li] == right.last()[ri] {
            rest.push(l + right.last())
        } else {
            rest
        }
    }
}

/// The nested-loop equi-join of two row lists.
pub open spec fn join_rows(left: Seq<Seq<ValueView>>, right: Seq<Seq<ValueView>>, li: int, ri: int) -> Seq<Seq<ValueView>>
    decreases left.len(),
{
    if left.len() == 0 {
        Seq::empty()
    } else {
        join_rows(left.drop_last(), right, li, ri) + matches_of(left.last(), right, li, ri)
    }
}

/// The column names of `t`, each prefixed by the table name and a dot.
pub open spec fn qualified(t: TableView) -> Seq<Seq<char>> {
    t.columns.map_values(|c: ColumnView| t.name + "."@ + c.name)
}

/// What a `SELECT` returns.
pub open spec fn select_spec(
    db: Map<Seq<char>, TableView>,
    table: Seq<char>,
    cols: Seq<Seq<char>>,
    join: Option<JoinView>,
) -> Result<ResultView, DbErrorView> {
    if !db.contains_key(table) {
        Err(DbErrorView::TableNotFound(table))
    } else {
        let t = db[table];
        let names = column_names(t.columns);
        match join {
            None => if cols.contains("*"@) {
                Ok(ResultView::Data { headers: names, rows: t.rows })
            } else {
                let k = first_missing(names, cols, cols.len() as int);
                if k >= 0 {
                    Err(DbErrorView::ColumnNotFound(cols[k]))
                } else {
                    Ok(
                        ResultView::Data {
                            headers: cols,
                            rows: t.rows.map_values(|r: Seq<ValueView>| project(r, names, cols)),
                        },
                    )
                }
            },
            Some(j) => if !db.contains_key(j.table_name) {
                Err(DbErrorView::TableNotFound(j.table_name))
            } else {
                let u = db[j.table_name];
                let li = first_index(names, j.left_column);
                let ri = first_index(column_names(u.columns), j.right_column);
                if li < 0 {
                    Err(DbErrorView::ColumnNotFound(j.left_column))
                } else if ri < 0 {
                    Err(DbErrorView::ColumnNotFound(j.right_column))
                } else {
                    Ok(
                        ResultView::Data {
                            headers: qualified(t) + qualified(u),
                            rows: join_rows(t.rows, u.rows, li, ri),
                        },
                    )
                }
            },
        }
    }
}

/// What executing a statement returns, and the database afterwards.
pub open spec fn execute_spec(db: Map<Seq<char>, TableView>, st: StatementView) -> (
    Result<ResultView, DbErrorView>,
    Map<Seq<char>, TableView>,
) {
    match st {
        StatementView::CreateTable { name, columns } => {
            let (r, m) = create_spec(db, name, columns);
            match r {
                Ok(_) => (Ok(ResultView::Message("Table '"@ + name + "' created"@)), m),
                Err(e) => (Err(e), m),
            }
        },
        StatementView::Insert { table_name, values } => if !db.contains_key(table_name) {
            (Err(DbErrorView::TableNotFound(table_name)), db)
        } else {
            let (r, t) = insert_spec(db[table_name], values);
            match r {
                Ok(_) => (Ok(ResultView::Message("1 row inserted."@)), db.insert(table_name, t)),
                Err(e) => (Err(e), db),
            }
        },
        StatementView::Select { table_name, columns, join } => (
            select_spec(db, table_name, columns, join),
            db,
        ),
    }
}

pub open spec fn result_view(r: Result<ExecutionResult, DbError>) -> Result<ResultView, DbErrorView> {
    match r {
        Ok(x) => Ok(x@),
        Err(e) => Err(e@),
    }
}

pub open spec fn join_view(j: Option<JoinDefinition>) -> Option<JoinView> {
    match j {
        Some(d) => Some(d@),
        None => None,
    }
}

proof fn lemma_first_index_range(names: Seq<Seq<char>>, n: Seq<char>)
    ensures
        -1 <= first_index(names, n) < names.len(),
        first_index(names, n) >= 0 ==> names[first_index(names, n)] == n,
    decreases names.len(),
{
    if names.len() > 0 {
        lemma_first_index_range(names.drop_last(), n);
    }
}

proof fn lemma_first_index_prefix(names: Seq<Seq<char>>, n: Seq<char>, m: int, m2: int)
    requires
        0 <= m <= m2 <= names.len(),
        first_index(names.take(m), n) >= 0,
    ensures
        first_index(names.take(m2), n) == first_index(names.take(m), n),
    decreases m2 - m,
{
    if m2 > m {
        lemma_first_index_prefix(names, n, m, m2 - 1);
        assert(names.take(m2).drop_last() =~= names.take(m2 - 1));
    }
}

proof fn lemma_first_missing_stable(names: Seq<Seq<char>>, req: Seq<Seq<char>>, m: int, m2: int)
    requires
        0 <= m <= m2,
        first_missing(names, req, m) >= 0,
    ensures
        first_missing(names, req, m2) == first_missing(names, req, m),
    decreases m2 - m,
{
    if m2 > m {
        lemma_first_missing_stable(names, req, m, m2 - 1);
    }
}

/// The position of the first column called `name`, if any.
fn column_position(columns: &Vec<Column>, name: &str) -> (r: Option<usize>)
    ensures
        match r {
            Some(i) => i < columns@.len() && i as int == first_index(
                column_names(view_columns(columns@)),
                name@,
            ),
            None => first_index(column_names(view_columns(columns@)), name@) == -1,
        },
{
    let ghost names = column_names(view_columns(columns@));
    let mut i: usize = 0;
    while i < columns.len()
        invariant
            names == column_names(view_columns(columns@)),
            names.len() == columns@.len(),
            i <= columns@.len(),
            first_index(names.take(i as int), name@) == -1,
        decreases columns@.len() - i,
    {
        assert(names.take(i + 1).drop_last() =~= names.take(i as int));
        if str_eq(columns[i].name.as_str(), name) {
            proof {
                lemma_first_index_prefix(names, name@, i + 1, names.len() as int);
                assert(names.take(names.len() as int) =~= names);
            }
            return Some(i);
        }
        i = i + 1;
    }
    assert(names.take(names.len() as int) =~= names);
    None
}

/// Whether the wildcard `*` is among the requested names.
fn has_wildcard(cols: &Vec<String>) -> (r: bool)
    ensures
        r == view_strings(cols@).contains("*"@),
{
    let mut i: usize = 0;
    while i < cols.len()
        invariant
            i <= cols@.len(),
            forall|j: int| 0 <= j < i ==> cols@[j]@ != "*"@,
        decreases cols@.len() - i,
    {
        if str_eq(cols[i].as_str(), "*") {
            assert(view_strings(cols@)[i as int] == "*"@);
            return true;
        }
        i = i + 1;
    }
    assert(!view_strings(cols@).contains("*"@)) by {
        assert forall|j: int| 0 <= j < cols@.len() implies view_strings(cols@)[j] != "*"@ by {
            assert(view_strings(cols@)[j] == cols@[j]@);
        }
    }
    false
}

/// The concatenation of two rows.
fn concat_rows(a: &Vec<Value>, b: &Vec<Value>) -> (r: Vec<Value>)
    ensures
        view_row(r@) == view_row(a@) + view_row(b@),
{
    let mut out = clone_row(a);
    let mut k: usize = 0;
    while k < b.len()
        invariant
            k <= b@.len(),
            view_row(out@) == view_row(a@) + view_row(b@.take(k as int)),
        decreases b@.len() - k,
    {
        let ghost before = out@;
        out.push(b[k].cloned());
        assert(b@.take(k + 1) =~= b@.take(k as int).push(b@[k as int]));
        assert(view_row(out@) =~= view_row(before).push(b@[k as int]@));
        assert(view_row(b@.take(k + 1)) =~= view_row(b@.take(k as int)).push(b@[k as int]@));
        assert(view_row(out@) =~= view_row(a@) + view_row(b@.take(k + 1)));
        k = k + 1;
    }
    assert(b@.take(b@.len() as int) =~= b@);
    out
}

/// The column names of `t`, each prefixed by the table name and a dot.
fn qualified_names(t: &Table) -> (r: Vec<String>)
    ensures
        view_strings(r@) == qualified(t@),
{
    let mut out: Vec<String> = Vec::new();
    let mut i: usize = 0;
    while i < t.columns.len()
        invariant
            i <= t.columns@.len(),
            view_strings(out@) == qualified(t@).take(i as int),
        decreases t.columns@.len() - i,
    {
        let h = t.name.clone().concat(".").concat(t.columns[i].name.as_str());
        let ghost before = out@;
        out.push(h);
        assert(view_strings(out@) =~= view_strings(before).push(h@));
        assert(qualified(t@)[i as int] == t.name@ + "."@ + t.columns@[i as int].name@);
        assert(qualified(t@).take(i + 1) =~= qualified(t@).take(i as int).push(h@));
        i = i + 1;
    }
    assert(qualified(t@).take(t.columns@.len() as int) =~= qualified(t@));
    out
}

/// The names of the columns of `t`.
fn plain_names(t: &Table) -> (r: Vec<String>)
    ensures
        view_strings(r@) == column_names(t@.columns),
{
    let mut out: Vec<String> = Vec::new();
    let mut i: usize = 0;
    while i < t.columns.len()
        invariant
            i <= t.columns@.len(),
            view_strings(out@) == column_names(t@.columns).take(i as int),
        decreases t.columns@.len() - i,
    {
        let h = t.columns[i].name.clone();
        let ghost before = out@;
        out.push(h);
        assert(view_strings(out@) =~= view_strings(before).push(h@));
        assert(column_names(t@.columns).take(i + 1) =~= column_names(t@.columns).take(i as int).push(h@));
        i = i + 1;
    }
    assert(column_names(t@.columns).take(t.columns@.len() as int) =~= column_names(t@.columns));
    out
}

/// A copy of a list of strings.
fn clone_strings(v: &Vec<String>) -> (r: Vec<String>)
    ensures
        view_strings(r@) == view_strings(v@),
{
    let mut out: Vec<String> = Vec::new();
    let mut i: usize = 0;
    while i < v.len()
        invariant
            i <= v@.len(),
            view_strings(out@) == view_strings(v@).take(i as int),
        decreases v@.len() - i,
    {
        let ghost before = out@;
        out.push(v[i].clone());
        assert(view_strings(out@) =~= view_strings(before).push(v@[i as int]@));
        assert(view_strings(v@).take(i + 1) =~= view_strings(v@).take(i as int).push(v@[i as int]@));
        i = i + 1;
    }
    assert(view_strings(v@).take(v@.len() as int) =~= view_strings(v@));
    out
}

/// Copies of all rows of a table.
fn all_rows(t: &Table) -> (r: Vec<Vec<Value>>)
    ensures
        view_rows(r@) == t@.rows,
{
    let mut out: Vec<Vec<Value>> = Vec::new();
    let mut i: usize = 0;
    while i < t.rows.len()
        invariant
            i <= t.rows@.len(),
            view_rows(out@) == t@.rows.take(i as int),
        decreases t.rows@.len() - i,
    {
        let c = clone_row(&t.rows[i]);
        let ghost before = out@;
        out.push(c);
        assert(view_rows(out@) =~= view_rows(before).push(view_row(c@)));
        assert(t@.rows.take(i + 1) =~= t@.rows.take(i as int).push(t@.rows[i as int]));
        i = i + 1;
    }
    assert(t@.rows.take(t.rows@.len() as int) =~= t@.rows);
    out
}

/// Each row of `t` cut down to the positions in `idx`, in that order.
fn project_rows(t: &Table, idx: &Vec<usize>) -> (r: Vec<Vec<Value>>)
    requires
        t.wf(),
        forall|j: int| 0 <= j < idx@.len() ==> idx@[j] < t.columns@.len(),
    ensures
        view_rows(r@) == t@.rows.map_values(
            |row: Seq<ValueView>| idx@.map_values(|i: usize| row[i as int]),
        ),
{
    let ghost want = t@.rows.map_values(
        |row: Seq<ValueView>| idx@.map_values(|i: usize| row[i as int]),
    );
    let mut out: Vec<Vec<Value>> = Vec::new();
    let mut r: usize = 0;
    while r < t.rows.len()
        invariant
            t.wf(),
            forall|j: int| 0 <= j < idx@.len() ==> idx@[j] < t.columns@.len(),
            want == t@.rows.map_values(
                |row: Seq<ValueView>| idx@.map_values(|i: usize| row[i as int]),
            ),
            r <= t.rows@.len(),
            view_rows(out@) == want.take(r as int),
        decreases t.rows@.len() - r,
    {
        let row = &t.rows[r];
        let ghost rv = t@.rows[r as int];
        assert(rv == view_row(row@));
        assert(row@.len() == t.columns@.len());
        let mut cur: Vec<Value> = Vec::new();
        let mut k: usize = 0;
        while k < idx.len()
            invariant
                forall|j: int| 0 <= j < idx@.len() ==> idx@[j] < row@.len(),
                rv == view_row(row@),
                k <= idx@.len(),
                view_row(cur@) == idx@.take(k as int).map_values(|i: usize| rv[i as int]),
            decreases idx@.len() - k,
        {
            let ghost before = cur@;
            cur.push(row[idx[k]].cloned());
            assert(view_row(cur@) =~= view_row(before).push(rv[idx@[k as int] as int]));
            assert(idx@.take(k + 1) =~= idx@.take(k as int).push(idx@[k as int]));
            assert(idx@.take(k + 1).map_values(|i: usize| rv[i as int]) =~= idx@.take(k as int).map_values(
                |i: usize| rv[i as int],
            ).push(rv[idx@[k as int] as int]));
            k = k + 1;
        }
        assert(idx@.take(idx@.len() as int) =~= idx@);
        let ghost before = out@;
        out.push(cur);
        assert(view_rows(out@) =~= view_rows(before).push(view_row(cur@)));
        assert(want.take(r + 1) =~= want.take(r as int).push(want[r as int]));
        r = r + 1;
    }
    assert(want.take(t.rows@.len() as int) =~= want);
    out
}

/// The nested-loop equi-join of the rows of `a` and `b` on positions `li` and `ri`.
fn join_tables(a: &Table, b: &Table, li: usize, ri: usize) -> (r: Vec<Vec<Value>>)
    requires
        a.wf(),
        b.wf(),
        li < a.columns@.len(),
        ri < b.columns@.len(),
    ensures
        view_rows(r@) == join_rows(a@.rows, b@.rows, li as int, ri as int),
{
    let ghost left = a@.rows;
    let ghost right = b@.rows;
    let mut out: Vec<Vec<Value>> = Vec::new();
    let mut l: usize = 0;
    while l < a.rows.len()
        invariant
            a.wf(),
            b.wf(),
            li < a.columns@.len(),
            ri < b.columns@.len(),
            left == a@.rows,
            right == b@.rows,
            l <= left.len(),
            view_rows(out@) == join_rows(left.take(l as int), right, li as int, ri as int),
        decreases left.len() - l,
    {
        let lrow = &a.rows[l];
        assert(left[l as int] == view_row(lrow@));
        assert(lrow@.len() == a.columns@.len());
        let ghost base = out@;
        let mut m: usize = 0;
        while m < b.rows.len()
            invariant
                b.wf(),
                ri < b.columns@.len(),
                li < lrow@.len(),
                right == b@.rows,
                left[l as int] == view_row(lrow@),
                m <= right.len(),
                view_rows(out@) == view_rows(base) + matches_of(
                    left[l as int],
                    right.take(m as int),
                    li as int,
                    ri as int,
                ),
            decreases right.len() - m,
        {
            let rrow = &b.rows[m];
            assert(right[m as int] == view_row(rrow@));
            assert(rrow@.len() == b.columns@.len());
            assert(right.take(m + 1).drop_last() =~= right.take(m as int));
            assert(right.take(m + 1).last() == right[m as int]);
            if lrow[li] == rrow[ri] {
                let c = concat_rows(lrow, rrow);
                let ghost before = out@;
                out.push(c);
                assert(view_rows(out@) =~= view_rows(before).push(view_row(c@)));
            }
            m = m + 1;
        }
        assert(right.take(right.len() as int) =~= right);
        assert(left.take(l + 1).drop_last() =~= left.take(l as int));
        assert(left.take(l + 1).last() == left[l as int]);
        l = l + 1;
    }
    assert(left.take(left.len() as int) =~= left);
    out
}

/// Creating a table under a name that is already taken fails with
/// `TableAlreadyExists` and leaves the database, and so the first table,
/// as it was, whatever the two column lists.
pub proof fn lemma_create_twice(
    db: Map<Seq<char>, TableView>,
    name: Seq<char>,
    first: Seq<ColumnView>,
    second: Seq<ColumnView>,
)
    ensures
        ({
            let (r1, m1) = create_spec(db, name, first);
            let (r2, m2) = create_spec(m1, name, second);
            &&& r2 == Err::<(), DbErrorView>(DbErrorView::TableAlreadyExists(name))
            &&& m2 == m1
            &&& m1[name] == (if db.contains_key(name) {
                db[name]
            } else {
                TableView { name, columns: first, rows: Seq::empty() }
            })
        }),
{
}

proof fn lemma_tables_map(ts: Seq<Table>)
    requires
        names_unique(ts),
    ensures
        forall|n: Seq<char>|
            tables_map(ts).contains_key(n) <==> exists|i: int| 0 <= i < ts.len() && ts[i].name@ == n,
        forall|i: int| 0 <= i < ts.len() ==> tables_map(ts)[#[trigger] ts[i].name@] == ts[i]@,
    decreases ts.len(),
{
    if ts.len() > 0 {
        let p = ts.drop_last();
        lemma_tables_map(p);
        assert(tables_map(ts) == tables_map(p).insert(ts.last().name@, ts.last()@));
        assert forall|n: Seq<char>|
            tables_map(ts).contains_key(n) implies exists|i: int| 0 <= i < ts.len() && ts[i].name@ == n by {
            if n != ts.last().name@ {
                assert(tables_map(p).contains_key(n));
                let i = choose|i: int| 0 <= i < p.len() && p[i].name@ == n;
                assert(ts[i] == p[i]);
            } else {
                assert(ts[ts.len() - 1].name@ == n);
            }
        }
        assert forall|n: Seq<char>|
            (exists|i: int| 0 <= i < ts.len() && ts[i].name@ == n) implies tables_map(ts).contains_key(n) by {
            let i = choose|i: int| 0 <= i < ts.len() && ts[i].name@ == n;
            if i < p.len() {
                assert(p[i] == ts[i]);
            }
        }
        assert forall|i: int| 0 <= i < ts.len() implies tables_map(ts)[#[trigger] ts[i].name@] == ts[i]@ by {
            if i < p.len() {
                assert(p[i] == ts[i]);
                assert(ts[i].name@ != ts.last().name@);
            }
        }
    }
}

proof fn lemma_tables_map_update(ts: Seq<Table>, i: int, t: Table)
    requires
        names_unique(ts),
        0 <= i < ts.len(),
        t.name@ == ts[i].name@,
    ensures
        tables_map(ts.update(i, t)) == tables_map(ts).insert(t.name@, t@),
    decreases ts.len(),
{
    let u = ts.update(i, t);
    if i == ts.len() - 1 {
        assert(u.drop_last() =~= ts.drop_last());
        assert(tables_map(u) =~= tables_map(ts).insert(t.name@, t@));
    } else {
        let p = ts.drop_last();
        lemma_tables_map_update(p, i, t);
        assert(u.drop_last() =~= p.update(i, t));
        assert(ts.last().name@ != t.name@);
        assert(tables_map(u) =~= tables_map(ts).insert(t.name@, t@));
    }
}

impl Database {
    /// Every table is well formed and no two share a name.
    pub open spec fn wf(&self) -> bool {
        &&& forall|i: int| 0 <= i < self.tables@.len() ==> (#[trigger] self.tables@[i]).wf()
        &&& names_unique(self.tables@)
    }

    /// An empty database.
    pub fn new() -> (r: Database)
        ensures
            r.wf(),
            r@ == Map::<Seq<char>, TableView>::empty(),
    {
        Database { tables: Vec::new() }
    }

    /// The position of the table called `name`, if there is one.
    fn find(&self, name: &str) -> (r: Option<usize>)
        requires
            self.wf(),
        ensures
            r is Some <==> self@.contains_key(name@),
            r matches Some(i) ==> i < self.tables@.len() && self.tables@[i as int].name@ == name@
                && self@[name@] == self.tables@[i as int]@,
    {
        let mut i: usize = 0;
        while i < self.tables.len()
            invariant
                self.wf(),
                i <= self.tables@.len(),
                forall|j: int| 0 <= j < i ==> self.tables@[j].name@ != name@,
            decreases self.tables@.len() - i,
        {
            if str_eq(self.tables[i].name.as_str(), name) {
                proof {
                    lemma_tables_map(self.tables@);
                }
                return Some(i);
            }
            i = i + 1;
        }
        proof {
            lemma_tables_map(self.tables@);
        }
        None
    }

    /// Creates an empty table called `name`, unless a table of that name exists.
    pub fn create_table(&mut self, name: String, columns: Vec<Column>) -> (r: Result<(), DbError>)
        requires
            old(self).wf(),
        ensures
            final(self).wf(),
            (unit_result_view(r), final(self)@) == create_spec(old(self)@, name@, view_columns(columns@)),
    {
        if self.find(name.as_str()).is_some() {
            return Err(DbError::TableAlreadyExists(name));
        }
        let table = Table::new(name.clone(), columns);
        proof {
            lemma_tables_map(self.tables@);
        }
        let ghost ts = self.tables@;
        self.tables.push(table);
        proof {
            assert(self.tables@.drop_last() =~= ts);
            assert(tables_map(self.tables@) =~= tables_map(ts).insert(name@, table@));
        }
        Ok(())
    }

    /// The table called `name`.
    pub fn get_table(&self, name: String) -> (r: Result<&Table, DbError>)
        requires
            self.wf(),
        ensures
            match r {
                Ok(t) => self@.contains_key(name@) && t@ == self@[name@] && t.wf(),
                Err(e) => !self@.contains_key(name@) && e@ == DbErrorView::TableNotFound(name@),
            },
    {
        match self.find(name.as_str()) {
            Some(i) => Ok(&self.tables[i]),
            None => Err(DbError::TableNotFound(name)),
        }
    }

    /// Runs a `SELECT`: a projection of one table, or the inner join of two.
    pub fn handle_select(
        &self,
        table_name: String,
        columns: Vec<String>,
        join: Option<JoinDefinition>,
    ) -> (r: Result<ExecutionResult, DbError>)
        requires
            self.wf(),
        ensures
            result_view(r) == select_spec(self@, table_name@, view_strings(columns@), join_view(join)),
    {
        let ghost tn = table_name@;
        let table = match self.get_table(table_name) {
            Ok(t) => t,
            Err(e) => return Err(e),
        };
        let ghost names = column_names(table@.columns);
        let ghost cols = view_strings(columns@);
        let ghost db = self@;
        let ghost jv = join_view(join);
        match join {
            None => {
                if has_wildcard(&columns) {
                    let headers = plain_names(table);
                    let rows = all_rows(table);
                    return Ok(ExecutionResult::Data { headers, rows });
                }
                let mut idx: Vec<usize> = Vec::new();
                let mut k: usize = 0;
                while k < columns.len()
                    invariant
                        names == column_names(table@.columns),
                        names.len() == table.columns@.len(),
                        cols == view_strings(columns@),
                        !cols.contains("*"@),
                        db.contains_key(tn),
                        db == self@,
                        jv is None,
                        jv == join_view(join),
                        tn == table_name@,
                        table@ == db[tn],
                        k <= columns@.len(),
                        idx@.len() == k,
                        forall|j: int|
                            0 <= j < k ==> (#[trigger] idx@[j]) < table.columns@.len() && idx@[j] as int
                                == first_index(names, cols[j]),
                        first_missing(names, cols, k as int) == -1,
                    decreases columns@.len() - k,
                {
                    assert(cols[k as int] == columns@[k as int]@);
                    assert(table@.columns == view_columns(table.columns@));
                    match column_position(&table.columns, columns[k].as_str()) {
                        Some(p) => {
                            let ghost before = idx@;
                            idx.push(p);
                            assert forall|j: int|
                                0 <= j < k + 1 implies (#[trigger] idx@[j]) < table.columns@.len() && idx@[j] as int
                                    == first_index(names, cols[j]) by {
                                if j < k {
                                    assert(idx@[j] == before[j]);
                                }
                            }
                        },
                        None => {
                            assert(first_missing(names, cols, k + 1) == k);
                            proof {
                                lemma_first_missing_stable(names, cols, k + 1, cols.len() as int);
                                assert(select_spec(db, tn, cols, None) == Err::<ResultView, DbErrorView>(
                                    DbErrorView::ColumnNotFound(cols[k as int]),
                                ));
                            }
                            return Err(DbError::ColumnNotFound(columns[k].clone()));
                        },
                    }
                    k = k + 1;
                }
                let rows = project_rows(table, &idx);
                proof {
                    let a = table@.rows.map_values(
                        |row: Seq<ValueView>| idx@.map_values(|i: usize| row[i as int]),
                    );
                    let b = table@.rows.map_values(|row: Seq<ValueView>| project(row, names, cols));
                    assert forall|r: int| 0 <= r < a.len() implies a[r] == b[r] by {
                        assert(a[r] =~= b[r]);
                    }
                    assert(a =~= b);
                }
                let headers = clone_strings(&columns);
                Ok(ExecutionResult::Data { headers, rows })
            },
            Some(jd) => {
                let right = match self.get_table(jd.table_name) {
                    Ok(t) => t,
                    Err(e) => return Err(e),
                };
                let li = match column_position(&table.columns, jd.left_column.as_str()) {
                    Some(p) => p,
                    None => return Err(DbError::ColumnNotFound(jd.left_column)),
                };
                let ri = match column_position(&right.columns, jd.right_column.as_str()) {
                    Some(p) => p,
                    None => return Err(DbError::ColumnNotFound(jd.right_column)),
                };
                let mut headers = qualified_names(table);
                let mut tail = qualified_names(right);
                let ghost h0 = headers@;
                let ghost t0 = tail@;
                headers.append(&mut tail);
                assert(view_strings(headers@) =~= view_strings(h0) + view_strings(t0));
                let rows = join_tables(table, right, li, ri);
                Ok(ExecutionResult::Data { headers, rows })
            },
        }
    }

    /// Runs one statement against the database. A failed statement leaves
    /// the database unchanged.
    pub fn execute(&mut self, statement: Statement) -> (r: Result<ExecutionResult, DbError>)
        requires
            old(self).wf(),
        ensures
            final(self).wf(),
            (result_view(r), final(self)@) == execute_spec(old(self)@, statement@),
    {
        match statement {
            Statement::CreateTable { name, columns } => {
                let cols = to_columns(&columns);
                let msg = String::from_str("Table '").concat(name.as_str()).concat("' created");
                match self.create_table(name, cols) {
                    Ok(()) => Ok(ExecutionResult::Message(msg)),
                    Err(e) => Err(e),
                }
            },
            Statement::Insert { table_name, values } => {
                let i = match self.find(table_name.as_str()) {
                    Some(i) => i,
                    None => return Err(DbError::TableNotFound(table_name)),
                };
                let ghost ts = self.tables@;
                let ghost vals = view_row(values@);
                let res = self.tables[i].insert_row(values);
                proof {
                    let t = self.tables@[i as int];
                    assert(self.tables@ == ts.update(i as int, t));
                    assert forall|j: int| 0 <= j < self.tables@.len() implies (
                    #[trigger] self.tables@[j]).wf() by {
                        if j != i {
                            assert(self.tables@[j] == ts[j]);
                        }
                    }
                    assert(names_unique(self.tables@)) by {
                        assert forall|a: int, b: int|
                            0 <= a < b < self.tables@.len() implies self.tables@[a].name@
                            != self.tables@[b].name@ by {
                            assert(a == i ==> self.tables@[a].name@ == ts[a].name@);
                            assert(b == i ==> self.tables@[b].name@ == ts[b].name@);
                        }
                    }
                    lemma_tables_map_update(ts, i as int, t);
                    assert(tables_map(ts).insert(t.name@, t@) =~= tables_map(ts).insert(
                        table_name@,
                        insert_spec(tables_map(ts)[table_name@], vals).1,
                    ));
                    if res is Err {
                        assert(tables_map(ts).insert(t.name@, t@) =~= tables_map(ts));
                    }
                }
                match res {
                    Ok(()) => Ok(ExecutionResult::Message(String::from_str("1 row inserted."))),
                    Err(e) => Err(e),
                }
            },
            Statement::Select { table_name, columns, join } => self.handle_select(
                table_name,
                columns,
                join,
            ),
        }
    }
}

} // verus!
