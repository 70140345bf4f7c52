use vstd::prelude::*;

use crate::engine::{view_columns, Column, ColumnView};
use crate::text::{i32_literal, is_space, parse_i32, space_char, str_eq, upper_of, uppercase};
use crate::value::{view_row, Value, ValueView};

verus! {

/// A parsed statement.
#[derive(Debug)]
pub enum Statement {
    CreateTable { name: String, columns: Vec<ColumnDefinition> },
    Insert { table_name: String, values: Vec<Value> },
    Select { table_name: String, columns: Vec<String>, join: Option<JoinDefinition> },
}

/// A column as declared in `CREATE TABLE`.
#[derive(Debug)]
pub struct ColumnDefinition {
    pub name: String,
    pub data_type: String,
    pub is_primary: bool,
    pub is_unique: bool,
}

/// The join clause of a `SELECT`: the other table and the two columns compared.
#[derive(Debug)]
pub struct JoinDefinition {
    pub table_name: String,
    pub left_column: String,
    pub right_column: String,
}

/// The mathematical content of a [`JoinDefinition`].
pub struct JoinView {
    pub table_name: Seq<char>,
    pub left_column: Seq<char>,
    pub right_column: Seq<char>,
}

/// The mathematical content of a [`Statement`].
pub enum StatementView {
    CreateTable { name: Seq<char>, columns: Seq<ColumnView> },
    Insert { table_name: Seq<char>, values: Seq<ValueView> },
    Select { table_name: Seq<char>, columns: Seq<Seq<char>>, join: Option<JoinView> },
}

impl View for ColumnDefinition {
    type V = ColumnView;

    open spec fn view(&self) -> ColumnView {
        ColumnView {
            name: self.name@,
            data_type: self.data_type@,
            is_primary: self.is_primary,
            is_unique: self.is_unique,
        }
    }
}

impl View for JoinDefinition {
    type V = JoinView;

    open spec fn view(&self) -> JoinView {
        JoinView {
            table_name: self.table_name@,
            left_column: self.left_column@,
            right_column: self.right_column@,
        }
    }
}

pub open spec fn view_definitions(cols: Seq<ColumnDefinition>) -> Seq<ColumnView> {
    cols.map_values(|c: ColumnDefinition| c@)
}

pub open spec fn view_strings(s: Seq<String>) -> Seq<Seq<char>> {
    s.map_values(|t: String| t@)
}

impl View for Statement {
    type V = StatementView;

    open spec fn view(&self) -> StatementView {
        match self {
            Statement::CreateTable { name, columns } => StatementView::CreateTable {
                name: name@,
                columns: view_definitions(columns@),
            },
            Statement::Insert { table_name, values } => StatementView::Insert {
                table_name: table_name@,
                values: view_row(values@),
            },
            Statement::Select { table_name, columns, join } => StatementView::Select {
                table_name: table_name@,
                columns: view_strings(columns@),
                join: match join {
                    Some(j) => Some(j@),
                    None => None,
                },
            },
        }
    }
}


/// Characters that always stand as tokens of their own.
pub open spec fn is_delim(c: char) -> bool {
    c == '(' || c == ')' || c == ','
}

/// `done` with the pending token `cur` appended, if there is one.
pub open spec fn flush(done: Seq<Seq<char>>, cur: Seq<char>) -> Seq<Seq<char>> {
    if cur.len() > 0 {
        done.push(cur)
    } else {
        done
    }
}

/// The finished tokens and the pending token after reading the first `n`
/// characters of `s`.
pub open spec fn scan(s: Seq<char>, n: int) -> (Seq<Seq<char>>, Seq<char>)
    decreases n,
{
    if n <= 0 {
        (Seq::empty(), Seq::empty())
    } else {
        let (done, cur) = scan(s, n - 1);
        let c = s[n - 1];
        if is_delim(c) {
            (flush(done, cur).push(seq![c]), Seq::empty())
        } else if space_char(c) {
            (flush(done, cur), Seq::empty())
        } else {
            (done, cur.push(c))
        }
    }
}

/// The tokens of `s`: runs of characters separated by whitespace, with each
/// parenthesis and comma a token of its own.
pub open spec fn tokens_of(s: Seq<char>) -> Seq<Seq<char>> {
    let (done, cur) = scan(s, s.len() as int);
    flush(done, cur)
}

/// Splits statement text into tokens.
pub fn tokenize(input: &str) -> (r: Vec<String>)
    ensures
        view_strings(r@) == tokens_of(input@),
{
    let n = input.unicode_len();
    let mut out: Vec<String> = Vec::new();
    let mut start: usize = 0;
    let mut i: usize = 0;
    while i < n
        invariant
            n == input@.len(),
            start <= i <= n,
            scan(input@, i as int) == (view_strings(out@), input@.subrange(start as int, i as int)),
        decreases n - i,
    {
        let c = input.get_char(i);
        let ghost cur = input@.subrange(start as int, i as int);
        let ghost prev = out@;
        assert(input@.subrange(start as int, i + 1) =~= cur.push(c));
        if c == '(' || c == ')' || c == ',' {
            if start < i {
                out.push(input.substring_char(start, i).to_owned());
            }
            assert(view_strings(out@) =~= flush(view_strings(prev), cur));
            let ghost mid = out@;
            out.push(input.substring_char(i, i + 1).to_owned());
            assert(input@.subrange(i as int, i + 1) =~= seq![c]);
            assert(view_strings(out@) =~= view_strings(mid).push(seq![c]));
            start = i + 1;
        } else if is_space(c) {
            if start < i {
                out.push(input.substring_char(start, i).to_owned());
            }
            assert(view_strings(out@) =~= flush(view_strings(prev), cur));
            start = i + 1;
        }
        i = i + 1;
    }
    let ghost prev = out@;
    if start < n {
        out.push(input.substring_char(start, n).to_owned());
    }
    assert(view_strings(out@) =~= flush(view_strings(prev), input@.subrange(start as int, n as int)));
    out
}


/// Whether the upper-cased token `u[p]` is the keyword `kw`.
fn word_is(u: &Vec<String>, p: usize, kw: &str) -> (r: bool)
    requires
        p < u@.len(),
    ensures
        r == (u@[p as int]@ == kw@),
{
    str_eq(u[p].as_str(), kw)
}

/// Whether `toks[p]` exists and is exactly `lit`.
fn token_is(toks: &Vec<String>, p: usize, lit: &str) -> (r: bool)
    ensures
        r == (p < toks@.len() && toks@[p as int]@ == lit@),
{
    p < toks.len() && str_eq(toks[p].as_str(), lit)
}

/// `tok` without one pair of surrounding single quotes, if it has them.
pub open spec fn unquote(tok: Seq<char>) -> Seq<char> {
    if tok.len() >= 2 && tok[0] == '\'' && tok.last() == '\'' {
        tok.subrange(1, tok.len() - 1)
    } else {
        tok
    }
}

/// The value a token of `INSERT` stands for.
pub open spec fn value_of(tok: Seq<char>) -> ValueView {
    match i32_literal(tok) {
        Some(n) => ValueView::Integer(n),
        None => ValueView::Text(unquote(tok)),
    }
}

/// The column definitions of `CREATE TABLE` read from position `p` on, after
/// `acc`; `cur` is a column whose modifiers are still being read. `u` holds
/// the tokens of `t` upper-cased. The list must end with `)`.
pub open spec fn column_defs(
    t: Seq<Seq<char>>,
    u: Seq<Seq<char>>,
    p: int,
    acc: Seq<ColumnView>,
    cur: Option<ColumnView>,
) -> Result<
    Seq<ColumnView>,
    Seq<char>,
>
    decreases t.len() - p, (if cur is Some { 1int } else { 0int }),
{
    if p < 0 {
        Ok(acc)
    } else {
        match cur {
            Some(c) => if p >= t.len() {
                Err("Expected ')'"@)
            } else if u[p] == "PRIMARY"@ {
                column_defs(t, u, p + 1, acc, Some(ColumnView { is_primary: true, ..c }))
            } else if u[p] == "UNIQUE"@ {
                column_defs(t, u, p + 1, acc, Some(ColumnView { is_unique: true, ..c }))
            } else if t[p] == ","@ || t[p] == ")"@ {
                column_defs(t, u, p, acc.push(c), None)
            } else {
                column_defs(t, u, p + 1, acc, Some(c))
            },
            None => if p >= t.len() {
                Err("Expected ')'"@)
            } else if t[p] == ")"@ {
                Ok(acc)
            } else if t[p] == ","@ {
                column_defs(t, u, p + 1, acc, None)
            } else if p + 1 >= t.len() {
                Err("Expected column type"@)
            } else {
                column_defs(
                    t,
                    u,
                    p + 2,
                    acc,
                    Some(
                        ColumnView {
                            name: t[p],
                            data_type: u[p + 1],
                            is_primary: false,
                            is_unique: false,
                        },
                    ),
                )
            },
        }
    }
}

/// The values of `INSERT` read from position `p` on, after `acc`.
pub open spec fn insert_values(t: Seq<Seq<char>>, p: int, acc: Seq<ValueView>) -> Seq<ValueView>
    decreases t.len() - p,
{
    if p < 0 || p >= t.len() || t[p] == ")"@ {
        acc
    } else if t[p] == ","@ {
        insert_values(t, p + 1, acc)
    } else {
        insert_values(t, p + 1, acc.push(value_of(t[p])))
    }
}

/// The column list of `SELECT` read from position `p` on, after `acc`, and the
/// position after `FROM`. `u` holds the tokens of `t` upper-cased.
pub open spec fn select_list(t: Seq<Seq<char>>, u: Seq<Seq<char>>, p: int, acc: Seq<Seq<char>>) -> (
    Seq<Seq<char>>,
    int,
)
    decreases t.len() - p,
{
    if p < 0 || p >= t.len() {
        (acc, p)
    } else if u[p] == "FROM"@ {
        (acc, p + 1)
    } else if t[p] == ","@ {
        select_list(t, u, p + 1, acc)
    } else {
        select_list(t, u, p + 1, acc.push(t[p]))
    }
}

pub open spec fn parse_create_spec(t: Seq<Seq<char>>, u: Seq<Seq<char>>) -> Result<StatementView, Seq<char>> {
    if t.len() < 2 || u[1] != "TABLE"@ {
        Err("Expected TABLE after CREATE"@)
    } else if t.len() < 3 {
        Err("Expected table name"@)
    } else if t.len() < 4 || t[3] != "("@ {
        Err("Expected '('"@)
    } else {
        match column_defs(t, u, 4, Seq::empty(), None) {
            Ok(cols) => Ok(StatementView::CreateTable { name: t[2], columns: cols }),
            Err(e) => Err(e),
        }
    }
}

pub open spec fn parse_insert_spec(t: Seq<Seq<char>>, u: Seq<Seq<char>>) -> Result<StatementView, Seq<char>> {
    if t.len() < 2 || u[1] != "INTO"@ {
        Err("Expected INTO after CREATE"@)
    } else if t.len() < 3 {
        Err("Expected table name"@)
    } else if t.len() < 4 || u[3] != "VALUES"@ {
        Err("Expected VALUES after INTO"@)
    } else if t.len() < 5 || t[4] != "("@ {
        Err("Expected '('"@)
    } else {
        Ok(StatementView::Insert { table_name: t[2], values: insert_values(t, 5, Seq::empty()) })
    }
}

pub open spec fn parse_select_spec(t: Seq<Seq<char>>, u: Seq<Seq<char>>) -> Result<StatementView, Seq<char>> {
    let (cols, q) = select_list(t, u, 1, Seq::empty());
    if q >= t.len() {
        Err("Expected table name"@)
    } else if q + 1 >= t.len() {
        Ok(StatementView::Select { table_name: t[q], columns: cols, join: None })
    } else if q + 2 >= t.len() {
        Err("Expected join table"@)
    } else if q + 4 >= t.len() {
        Err("Expected left col"@)
    } else if q + 6 >= t.len() {
        Err("Expected right col"@)
    } else {
        Ok(
            StatementView::Select {
                table_name: t[q],
                columns: cols,
                join: Some(JoinView { table_name: t[q + 2], left_column: t[q + 4], right_column: t[q + 6] }),
            },
        )
    }
}

/// The statement a token sequence `t` stands for, or the syntax error, given
/// its tokens upper-cased in `u`; keywords are matched in `u`.
pub open spec fn parse_upper_spec(t: Seq<Seq<char>>, u: Seq<Seq<char>>) -> Result<StatementView, Seq<char>> {
    if t.len() == 0 {
        Err("Empty query"@)
    } else {
        let c = u[0];
        if c == "CREATE"@ {
            parse_create_spec(t, u)
        } else if c == "INSERT"@ {
            parse_insert_spec(t, u)
        } else if c == "SELECT"@ {
            parse_select_spec(t, u)
        } else {
            Err("Unknown command: "@ + c)
        }
    }
}

/// Each token upper-cased.
pub open spec fn upper_all(t: Seq<Seq<char>>) -> Seq<Seq<char>> {
    t.map_values(|s: Seq<char>| upper_of(s))
}

/// The statement a token sequence stands for, or the syntax error.
pub open spec fn parse_spec(t: Seq<Seq<char>>) -> Result<StatementView, Seq<char>> {
    parse_upper_spec(t, upper_all(t))
}

pub open spec fn parse_result_view(r: Result<Statement, String>) -> Result<StatementView, Seq<char>> {
    match r {
        Ok(s) => Ok(s@),
        Err(e) => Err(e@),
    }
}

pub open spec fn view_cur(c: Option<ColumnDefinition>) -> Option<ColumnView> {
    match c {
        Some(d) => Some(d@),
        None => None,
    }
}

fn parse_create(t: &Vec<String>, u: &Vec<String>) -> (r: Result<Statement, String>)
    requires
        u@.len() == t@.len(),
    ensures
        parse_result_view(r) == parse_create_spec(view_strings(t@), view_strings(u@)),
{
    let ghost tv = view_strings(t@);
    let ghost uv = view_strings(u@);
    if t.len() < 2 || !word_is(u, 1, "TABLE") {
        return Err(String::from_str("Expected TABLE after CREATE"));
    }
    if t.len() < 3 {
        return Err(String::from_str("Expected table name"));
    }
    if !token_is(t, 3, "(") {
        return Err(String::from_str("Expected '('"));
    }
    let name = t[2].clone();
    let mut cols: Vec<ColumnDefinition> = Vec::new();
    let mut cur: Option<ColumnDefinition> = None;
    let mut p: usize = 4;
    assert(view_definitions(cols@) =~= Seq::<ColumnView>::empty());
    loop
        invariant_except_break
            column_defs(tv, uv, 4, Seq::empty(), None) == column_defs(
                tv,
                uv,
                p as int,
                view_definitions(cols@),
                view_cur(cur),
            ),
        invariant
            tv == view_strings(t@),
            uv == view_strings(u@),
            u@.len() == t@.len(),
            4 <= p <= t@.len(),
            uv[1] == "TABLE"@,
            tv[3] == "("@,
            name@ == tv[2],
        ensures
            column_defs(tv, uv, 4, Seq::empty(), None) == Ok::<Seq<ColumnView>, Seq<char>>(
                view_definitions(cols@),
            ),
        decreases t@.len() - p, (if cur is Some { 1int } else { 0int }),
    {
        let ghost acc = view_definitions(cols@);
        match cur {
            Some(mut c) => {
                if p >= t.len() {
                    return Err(String::from_str("Expected ')'"));
                } else if word_is(u, p, "PRIMARY") {
                    c.is_primary = true;
                    cur = Some(c);
                    p = p + 1;
                } else if word_is(u, p, "UNIQUE") {
                    c.is_unique = true;
                    cur = Some(c);
                    p = p + 1;
                } else if token_is(t, p, ",") || token_is(t, p, ")") {
                    cols.push(c);
                    assert(view_definitions(cols@) =~= acc.push(c@));
                    cur = None;
                } else {
                    cur = Some(c);
                    p = p + 1;
                }
            },
            None => {
                if p >= t.len() {
                    return Err(String::from_str("Expected ')'"));
                } else if token_is(t, p, ")") {
                    break;
                } else if token_is(t, p, ",") {
                    p = p + 1;
                } else if p + 1 >= t.len() {
                    return Err(String::from_str("Expected column type"));
                } else {
                    cur = Some(
                        ColumnDefinition {
                            name: t[p].clone(),
                            data_type: u[p + 1].clone(),
                            is_primary: false,
                            is_unique: false,
                        },
                    );
                    p = p + 2;
                }
            },
        }
    }
    Ok(Statement::CreateTable { name, columns: cols })
}

fn parse_insert(t: &Vec<String>, u: &Vec<String>) -> (r: Result<Statement, String>)
    requires
        u@.len() == t@.len(),
    ensures
        parse_result_view(r) == parse_insert_spec(view_strings(t@), view_strings(u@)),
{
    let ghost tv = view_strings(t@);
    if t.len() < 2 || !word_is(u, 1, "INTO") {
        return Err(String::from_str("Expected INTO after CREATE"));
    }
    if t.len() < 3 {
        return Err(String::from_str("Expected table name"));
    }
    if t.len() < 4 || !word_is(u, 3, "VALUES") {
        return Err(String::from_str("Expected VALUES after INTO"));
    }
    if !token_is(t, 4, "(") {
        return Err(String::from_str("Expected '('"));
    }
    let name = t[2].clone();
    let mut values: Vec<Value> = Vec::new();
    let mut p: usize = 5;
    assert(view_row(values@) =~= Seq::<ValueView>::empty());
    while p < t.len() && !token_is(t, p, ")")
        invariant
            tv == view_strings(t@),
            5 <= p <= t@.len(),
            insert_values(tv, 5, Seq::empty()) == insert_values(tv, p as int, view_row(values@)),
        decreases t@.len() - p,
    {
        if !token_is(t, p, ",") {
            let ghost acc = view_row(values@);
            let v = token_value(&t[p]);
            values.push(v);
            assert(view_row(values@) =~= acc.push(value_of(tv[p as int])));
        }
        p = p + 1;
    }
    Ok(Statement::Insert { table_name: name, values })
}

/// The value a token of `INSERT` stands for.
fn token_value(tok: &String) -> (r: Value)
    ensures
        r@ == value_of(tok@),
{
    match parse_i32(tok.as_str()) {
        Some(n) => Value::Integer(n),
        None => {
            let n = tok.as_str().unicode_len();
            if n >= 2 && tok.as_str().get_char(0) == '\'' && tok.as_str().get_char(n - 1) == '\'' {
                Value::Text(tok.as_str().substring_char(1, n - 1).to_owned())
            } else {
                Value::Text(tok.clone())
            }
        },
    }
}

fn parse_select(t: &Vec<String>, u: &Vec<String>) -> (r: Result<Statement, String>)
    requires
        t@.len() >= 1,
        u@.len() == t@.len(),
    ensures
        parse_result_view(r) == parse_select_spec(view_strings(t@), view_strings(u@)),
{
    let ghost tv = view_strings(t@);
    let ghost uv = view_strings(u@);
    let mut cols: Vec<String> = Vec::new();
    let mut p: usize = 1;
    assert(view_strings(cols@) =~= Seq::<Seq<char>>::empty());
    loop
        invariant_except_break
            select_list(tv, uv, 1, Seq::empty()) == select_list(tv, uv, p as int, view_strings(cols@)),
        invariant
            tv == view_strings(t@),
            uv == view_strings(u@),
            u@.len() == t@.len(),
            1 <= p <= t@.len(),
        ensures
            select_list(tv, uv, 1, Seq::empty()) == (view_strings(cols@), p as int),
        decreases t@.len() - p,
    {
        let ghost acc = view_strings(cols@);
        if p >= t.len() {
            break;
        }
        if word_is(u, p, "FROM") {
            p = p + 1;
            break;
        }
        if !token_is(t, p, ",") {
            cols.push(t[p].clone());
            assert(view_strings(cols@) =~= acc.push(tv[p as int]));
        }
        p = p + 1;
    }
    if p >= t.len() {
        return Err(String::from_str("Expected table name"));
    }
    let table_name = t[p].clone();
    if p + 1 >= t.len() {
        return Ok(Statement::Select { table_name, columns: cols, join: None });
    }
    if p + 2 >= t.len() {
        return Err(String::from_str("Expected join table"));
    }
    if t.len() - p <= 4 {
        return Err(String::from_str("Expected left col"));
    }
    if t.len() - p <= 6 {
        return Err(String::from_str("Expected right col"));
    }
    let join = JoinDefinition {
        table_name: t[p + 2].clone(),
        left_column: t[p + 4].clone(),
        right_column: t[p + 6].clone(),
    };
    Ok(Statement::Select { table_name, columns: cols, join: Some(join) })
}

/// Parses a token sequence `t` into a statement, given each token
/// upper-cased in `upper`; keywords are matched there.
pub fn parse_with_upper(t: &Vec<String>, upper: &Vec<String>) -> (r: Result<Statement, String>)
    requires
        upper@.len() == t@.len(),
    ensures
        parse_result_view(r) == parse_upper_spec(view_strings(t@), view_strings(upper@)),
{
    if t.len() == 0 {
        return Err(String::from_str("Empty query"));
    }
    let command = &upper[0];
    if str_eq(command.as_str(), "CREATE") {
        parse_create(t, upper)
    } else if str_eq(command.as_str(), "INSERT") {
        parse_insert(t, upper)
    } else if str_eq(command.as_str(), "SELECT") {
        parse_select(t, upper)
    } else {
        Err(String::from_str("Unknown command: ").concat(command.as_str()))
    }
}

/// Each token upper-cased.
fn upper_tokens(t: &Vec<String>) -> (r: Vec<String>)
    ensures
        view_strings(r@) == upper_all(view_strings(t@)),
        r@.len() == t@.len(),
{
    let mut out: Vec<String> = Vec::new();
    let mut i: usize = 0;
    while i < t.len()
        invariant
            i <= t@.len(),
            view_strings(out@) == upper_all(view_strings(t@)).take(i as int),
            out@.len() == i,
        decreases t@.len() - i,
    {
        let w = uppercase(t[i].as_str());
        let ghost before = out@;
        out.push(w);
        assert(view_strings(out@) =~= view_strings(before).push(w@));
        assert(upper_all(view_strings(t@)).take(i + 1) =~= upper_all(view_strings(t@)).take(i as int).push(
            w@,
        ));
        i = i + 1;
    }
    assert(upper_all(view_strings(t@)).take(t@.len() as int) =~= upper_all(view_strings(t@)));
    out
}

/// Parses a token sequence into a statement.
pub fn parse_tokens(t: &Vec<String>) -> (r: Result<Statement, String>)
    ensures
        parse_result_view(r) == parse_spec(view_strings(t@)),
{
    let upper = upper_tokens(t);
    parse_with_upper(t, &upper)
}

/// Parses statement text into a statement.
pub fn parse(input: &str) -> (r: Result<Statement, String>)
    ensures
        parse_result_view(r) == parse_spec(tokens_of(input@)),
{
    let tokens = tokenize(input);
    parse_tokens(&tokens)
}

/// Turns column definitions into table columns, field by field.
pub fn to_columns(defs: &Vec<ColumnDefinition>) -> (r: Vec<Column>)
    ensures
        view_columns(r@) == view_definitions(defs@),
{
    let mut out: Vec<Column> = Vec::new();
    let mut i: usize = 0;
    while i < defs.len()
        invariant
            i <= defs@.len(),
            view_columns(out@) == view_definitions(defs@.take(i as int)),
        decreases defs@.len() - i,
    {
        let d = &defs[i];
        out.push(
            Column {
                name: d.name.clone(),
                data_type: d.data_type.clone(),
                is_primary: d.is_primary,
                is_unique: d.is_unique,
            },
        );
        assert(defs@.take(i + 1) == defs@.take(i as int).push(defs@[i as int]));
        assert(view_definitions(defs@.take(i + 1)) =~= view_definitions(defs@.take(i as int)).push(
            defs@[i as int]@,
        ));
        assert(view_columns(out@) =~= view_definitions(defs@.take(i + 1)));
        i = i + 1;
    }
    assert(defs@.take(defs@.len() as int) == defs@);
    out
}

} // verus!
