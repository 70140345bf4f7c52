use vstd::prelude::*;

verus! {

/// A typed unit of stored data.
#[derive(Debug, Clone, Hash)]
pub enum Value {
    Integer(i32),
    Text(String),
    Null,
}

/// The mathematical content of a [`Value`].
pub enum ValueView {
    Integer(i32),
    Text(Seq<char>),
    Null,
}

impl View for Value {
    type V = ValueView;

    open spec fn view(&self) -> ValueView {
        match self {
            Value::Integer(n) => ValueView::Integer(*n),
            Value::Text(s) => ValueView::Text(s@),
            Value::Null => ValueView::Null,
        }
    }
}

impl Value {
    /// A copy of this value.
    pub fn cloned(&self) -> (r: Value)
        ensures
            r@ == self@,
    {
        match self {
            Value::Integer(n) => Value::Integer(*n),
            Value::Text(s) => Value::Text(s.clone()),
            Value::Null => Value::Null,
        }
    }
}

impl PartialEq for Value {
    fn eq(&self, other: &Value) -> (r: bool) {
        match (self, other) {
            (Value::Integer(a), Value::Integer(b)) => *a == *b,
            (Value::Text(a), Value::Text(b)) => a.eq(b),
            (Value::Null, Value::Null) => true,
            _ => false,
        }
    }
}

impl vstd::std_specs::cmp::PartialEqSpecImpl for Value {
    open spec fn obeys_eq_spec() -> bool {
        true
    }

    open spec fn eq_spec(&self, other: &Value) -> bool {
        self@ == other@
    }
}

impl Eq for Value {}

/// Copies a row of values.
pub fn clone_row(row: &Vec<Value>) -> (r: Vec<Value>)
    ensures
        view_row(r@) == view_row(row@),
{
    let mut out: Vec<Value> = Vec::new();
    let mut i: usize = 0;
    while i < row.len()
        invariant
            i <= row@.len(),
            view_row(out@) == view_row(row@.take(i as int)),
        decreases row@.len() - i,
    {
        out.push(row[i].cloned());
        assert(row@.take(i + 1) == row@.take(i as int).push(row@[i as int]));
        assert(view_row(row@.take(i + 1)) =~= view_row(row@.take(i as int)).push(row@[i as int]@));
        assert(view_row(out@) =~= view_row(row@.take(i + 1)));
        i = i + 1;
    }
    assert(row@.take(row@.len() as int) == row@);
    out
}

/// The values of a row, seen through their views.
pub open spec fn view_row(row: Seq<Value>) -> Seq<ValueView> {
    row.map_values(|v: Value| v@)
}

} // verus!
