//! The row sink: the rows become the statements that create a table and
//! fill it. The statements are text; running them is left to the caller.

use vstd::prelude::*;
use vstd::string::StringSliceAdditionalSpecFns;
use crate::filters::{trim, trimmed};
use crate::row::{pairs_map, sorted_keys, Pair, Row};
use crate::text::{copy, lex_less};

verus! {

/// The byte of a single quote, which SQL doubles inside a text.
pub const QUOTE: u8 = 39;

/// A text with each single quote doubled.
pub open spec fn escaped(s: Seq<u8>) -> Seq<u8>
    decreases s.len(),
{
    if s.len() == 0 {
        Seq::empty()
    } else if s.last() == QUOTE {
        escaped(s.drop_last()) + seq![QUOTE, QUOTE]
    } else {
        escaped(s.drop_last()).push(s.last())
    }
}

/// Doubles each single quote of a text.
pub fn esc(src: &[u8]) -> (r: Vec<u8>)
    ensures
        r@ == escaped(src@),
{
    let mut out: Vec<u8> = Vec::new();
    let mut i: usize = 0;
    assert(src@.take(0) =~= Seq::<u8>::empty());
    while i < src.len()
        invariant
            i <= src.len(),
            out@ == escaped(src@.take(i as int)),
        decreases src.len() - i,
    {
        let b = src[i];
        proof {
            let longer = src@.take(i + 1);
            assert(longer.drop_last() =~= src@.take(i as int));
            assert(longer.last() == b);
        }
        if b == QUOTE {
            let ghost before = out@;
            out.push(QUOTE);
            out.push(QUOTE);
            assert(out@ =~= before + seq![QUOTE, QUOTE]);
        } else {
            out.push(b);
        }
        i += 1;
    }
    assert(src@.take(src@.len() as int) =~= src@);
    out
}

/// A text as SQL writes it: between single quotes, its own single quotes
/// doubled.
pub open spec fn quoted_value(s: Seq<u8>) -> Seq<u8> {
    seq![QUOTE] + escaped(s) + seq![QUOTE]
}

/// The texts, with `sep` between each two of them.
pub open spec fn joined(parts: Seq<Seq<u8>>, sep: Seq<u8>) -> Seq<u8>
    decreases parts.len(),
{
    if parts.len() == 0 {
        Seq::empty()
    } else if parts.len() == 1 {
        parts[0]
    } else {
        joined(parts.drop_last(), sep) + sep + parts.last()
    }
}

/// The texts of a list, in order.
pub open spec fn texts(v: Seq<Vec<u8>>) -> Seq<Seq<u8>> {
    Seq::new(v.len(), |i: int| v[i]@)
}

/// Puts `sep` between each two of the texts.
pub fn join(parts: &Vec<Vec<u8>>, sep: &[u8]) -> (r: Vec<u8>)
    ensures
        r@ == joined(texts(parts@), sep@),
{
    let mut out: Vec<u8> = Vec::new();
    let mut i: usize = 0;
    assert(texts(parts@).take(0) =~= Seq::<Seq<u8>>::empty());
    while i < parts.len()
        invariant
            i <= parts@.len(),
            out@ == joined(texts(parts@).take(i as int), sep@),
        decreases parts@.len() - i,
    {
        proof {
            let longer = texts(parts@).take(i + 1);
            assert(longer.drop_last() =~= texts(parts@).take(i as int));
            assert(longer.last() == parts@[i as int]@);
        }
        if i > 0 {
            out.extend_from_slice(sep);
        }
        out.extend_from_slice(parts[i].as_slice());
        proof {
            if i == 0 {
                assert(out@ =~= parts@[0]@);
            }
        }
        i += 1;
    }
    assert(texts(parts@).take(parts@.len() as int) =~= texts(parts@));
    out
}

/// The value of a column in a row: what the row binds to the name of the
/// column, or the empty text.
pub open spec fn cell(row: Map<Seq<u8>, Seq<u8>>, column: Seq<u8>) -> Seq<u8> {
    if row.dom().contains(column) {
        row[column]
    } else {
        Seq::empty()
    }
}

/// The columns as the statement that creates a table names them: each
/// without the whitespace at its ends, and with the type `TEXT`.
pub open spec fn column_defs(columns: Seq<Seq<u8>>) -> Seq<Seq<u8>> {
    Seq::new(columns.len(), |i: int| trimmed(columns[i]) + " TEXT".spec_bytes())
}

/// The values of a row as the statement that fills a table writes them, in
/// the order of the columns.
pub open spec fn row_values(columns: Seq<Seq<u8>>, row: Map<Seq<u8>, Seq<u8>>) -> Seq<Seq<u8>> {
    Seq::new(columns.len(), |i: int| quoted_value(cell(row, columns[i])))
}

/// The name of the table where none is given.
pub open spec fn default_table() -> Seq<u8> {
    "main".spec_bytes()
}

/// The statement that creates the table: its columns are those given, of
/// type `TEXT`, and after them the column of the time, where one is asked
/// for.
pub open spec fn create_text(
    table: Seq<u8>,
    columns: Seq<Seq<u8>>,
    timestamp: Option<Seq<u8>>,
) -> Seq<u8> {
    "CREATE TABLE ".spec_bytes() + table + " (".spec_bytes() + joined(
        column_defs(columns),
        ",".spec_bytes(),
    ) + (match timestamp {
        Some(t) => ", ".spec_bytes() + t + " timestamp".spec_bytes(),
        None => Seq::empty(),
    }) + ");".spec_bytes()
}

/// The statement that puts a row into the table: the values of the
/// columns in their order, and after them the time, where one is given.
pub open spec fn insert_text(
    table: Seq<u8>,
    columns: Seq<Seq<u8>>,
    row: Map<Seq<u8>, Seq<u8>>,
    stamp: Option<Seq<u8>>,
) -> Seq<u8> {
    "INSERT INTO ".spec_bytes() + table + " VALUES (".spec_bytes() + joined(
        row_values(columns, row),
        ",".spec_bytes(),
    ) + (match stamp {
        Some(s) => ", '".spec_bytes() + s + "'".spec_bytes(),
        None => Seq::empty(),
    }) + ")".spec_bytes()
}

/// The view of a text that may be missing.
pub open spec fn text_option(a: Option<Vec<u8>>) -> Option<Seq<u8>> {
    match a {
        Some(x) => Some(x@),
        None => None,
    }
}

/// The table that the rows go to: its name, its columns, and the name of
/// the column that holds the time at which a row was put in, if any.
#[derive(Debug, Clone, PartialEq, Eq)]
pub struct Glue {
    pub table_name: Option<Vec<u8>>,
    pub timestamp: Option<Vec<u8>>,
    pub columns: Vec<Vec<u8>>,
}

/// The time that goes into a statement that puts a row into a table: the
/// time `now` where the table has a time column, and none where it has not.
pub open spec fn stamp_for(timestamp: Option<Seq<u8>>, now: Seq<u8>) -> Option<Seq<u8>> {
    if timestamp is Some {
        Some(now)
    } else {
        None
    }
}

impl Glue {
    /// The name of the table: `main` where none was given.
    pub open spec fn spec_table_name(&self) -> Seq<u8> {
        match self.table_name {
            Some(name) => name@,
            None => default_table(),
        }
    }

    /// A sink without table name, time column and columns.
    pub fn new() -> (g: Glue)
        ensures
            g.table_name is None,
            g.timestamp is None,
            g.columns@.len() == 0,
    {
        Glue { table_name: None, timestamp: None, columns: Vec::new() }
    }

    /// The name of the table.
    pub fn table_name(&self) -> (r: Vec<u8>)
        ensures
            r@ == self.spec_table_name(),
    {
        match &self.table_name {
            Some(name) => copy(name.as_slice()),
            None => copy("main".as_bytes()),
        }
    }

    /// A text as SQL writes it.
    pub fn sql_value(s: &[u8]) -> (r: Vec<u8>)
        ensures
            r@ == quoted_value(s@),
    {
        let mut out: Vec<u8> = Vec::new();
        out.push(QUOTE);
        let inner = esc(s);
        out.extend_from_slice(inner.as_slice());
        out.push(QUOTE);
        assert(out@ =~= quoted_value(s@));
        out
    }

    /// Takes the name of the table, its columns and the name of the time
    /// column, and gives the statement that creates the table.
    pub fn create_table(
        &mut self,
        table_name: Option<Vec<u8>>,
        columns: Vec<Vec<u8>>,
        timestamp: Option<Vec<u8>>,
    ) -> (sql: Vec<u8>)
        ensures
            final(self).table_name == table_name,
            final(self).columns == columns,
            final(self).timestamp == timestamp,
            sql@ == create_text(
                final(self).spec_table_name(),
                texts(columns@),
                text_option(timestamp),
            ),
    {
        self.table_name = table_name;
        self.timestamp = timestamp;
        self.columns = columns;
        let mut defs: Vec<Vec<u8>> = Vec::new();
        let mut i: usize = 0;
        while i < self.columns.len()
            invariant
                i <= self.columns@.len(),
                texts(defs@) == column_defs(texts(self.columns@)).take(i as int),
            decreases self.columns@.len() - i,
        {
            let mut def = copy(trim(self.columns[i].as_slice()));
            def.extend_from_slice(" TEXT".as_bytes());
            let ghost before = texts(defs@);
            let ghost this = def@;
            assert(texts(self.columns@)[i as int] == self.columns@[i as int]@);
            assert(this == column_defs(texts(self.columns@))[i as int]);
            defs.push(def);
            assert(texts(defs@) =~= before.push(this));
            assert(column_defs(texts(self.columns@)).take(i + 1) =~= column_defs(
                texts(self.columns@),
            ).take(i as int).push(this));
            i += 1;
        }
        assert(column_defs(texts(self.columns@)).take(self.columns@.len() as int)
            =~= column_defs(texts(self.columns@)));
        let mut sql = copy("CREATE TABLE ".as_bytes());
        let name = self.table_name();
        sql.extend_from_slice(name.as_slice());
        sql.extend_from_slice(" (".as_bytes());
        let list = join(&defs, ",".as_bytes());
        sql.extend_from_slice(list.as_slice());
        match &self.timestamp {
            Some(t) => {
                sql.extend_from_slice(", ".as_bytes());
                sql.extend_from_slice(t.as_slice());
                sql.extend_from_slice(" timestamp".as_bytes());
            },
            None => {},
        }
        sql.extend_from_slice(");".as_bytes());
        assert(sql@ =~= create_text(
            self.spec_table_name(),
            texts(self.columns@),
            text_option(self.timestamp),
        ));
        sql
    }

    /// Gives the statement that puts a row into the table, with `stamp` as
    /// the time where one is given.
    pub fn insert_at(&self, row: &Row, stamp: Option<&[u8]>) -> (sql: Vec<u8>)
        ensures
            sql@ == insert_text(
                self.spec_table_name(),
                texts(self.columns@),
                row@,
                crate::combinator::option_name(stamp),
            ),
    {
        let mut values: Vec<Vec<u8>> = Vec::new();
        let mut i: usize = 0;
        while i < self.columns.len()
            invariant
                i <= self.columns@.len(),
                texts(values@) == row_values(texts(self.columns@), row@).take(i as int),
            decreases self.columns@.len() - i,
        {
            let value = match row.get(self.columns[i].as_slice()) {
                Some(v) => Glue::sql_value(v.as_slice()),
                None => {
                    let none: Vec<u8> = Vec::new();
                    Glue::sql_value(none.as_slice())
                },
            };
            let ghost before = texts(values@);
            let ghost this = value@;
            values.push(value);
            assert(texts(values@) =~= before.push(this));
            assert(row_values(texts(self.columns@), row@).take(i + 1) =~= row_values(
                texts(self.columns@),
                row@,
            ).take(i as int).push(this));
            i += 1;
        }
        assert(row_values(texts(self.columns@), row@).take(self.columns@.len() as int)
            =~= row_values(texts(self.columns@), row@));
        let mut sql = copy("INSERT INTO ".as_bytes());
        let name = self.table_name();
        sql.extend_from_slice(name.as_slice());
        sql.extend_from_slice(" VALUES (".as_bytes());
        let list = join(&values, ",".as_bytes());
        sql.extend_from_slice(list.as_slice());
        match stamp {
            Some(s) => {
                sql.extend_from_slice(", '".as_bytes());
                sql.extend_from_slice(s);
                sql.extend_from_slice("'".as_bytes());
            },
            None => {},
        }
        sql.extend_from_slice(")".as_bytes());
        assert(sql@ =~= insert_text(
            self.spec_table_name(),
            texts(self.columns@),
            row@,
            crate::combinator::option_name(stamp),
        ));
        sql
    }

    /// Gives the statement that puts a row into the table. `now` is the
    /// time of now as the caller has read it from the clock, written as
    /// text; it is put into the time column where the table has one.
    pub fn insert(&self, row: &Row, now: &[u8]) -> (sql: Vec<u8>)
        ensures
            sql@ == insert_text(
                self.spec_table_name(),
                texts(self.columns@),
                row@,
                stamp_for(text_option(self.timestamp), now@),
            ),
    {
        if self.timestamp.is_none() {
            self.insert_at(row, None)
        } else {
            self.insert_at(row, Some(now))
        }
    }
}

/// The names grow strictly from each to the next.
pub open spec fn strictly_sorted(names: Seq<Seq<u8>>) -> bool {
    forall|i: int, j: int|
        #![trigger names[i], names[j]]
        0 <= i < j < names.len() ==> lex_less(names[i], names[j])
}

/// The names that any of the rows binds.
pub open spec fn all_keys(rows: Seq<Map<Seq<u8>, Seq<u8>>>) -> Set<Seq<u8>> {
    Set::new(|k: Seq<u8>| exists|i: int| 0 <= i < rows.len() && (#[trigger] rows[i]).dom().contains(k))
}

/// The statements create the table for the rows and put the rows into it,
/// in their order. The columns are the names that any of the rows binds,
/// each once, in the order of byte strings. Where the table has a time
/// column, each row is put in with the time `now`.
pub open spec fn flushes(
    statements: Seq<Seq<u8>>,
    rows: Seq<Map<Seq<u8>, Seq<u8>>>,
    table: Seq<u8>,
    columns: Seq<Seq<u8>>,
    timestamp: Option<Seq<u8>>,
    now: Seq<u8>,
) -> bool {
    &&& strictly_sorted(columns)
    &&& columns.to_set() == all_keys(rows)
    &&& statements.len() == rows.len() + 1
    &&& statements[0] == create_text(table, columns, timestamp)
    &&& forall|i: int|
        0 <= i < rows.len() ==> #[trigger] statements[i + 1] == insert_text(
            table,
            columns,
            rows[i],
            stamp_for(timestamp, now),
        )
}

impl Glue {
    /// Gives the statements that create the table for the rows and put the
    /// rows into it. `now` is the time of now as the caller has read it
    /// from the clock, written as text.
    pub fn flush(
        &mut self,
        rows: &Vec<Row>,
        table_name: Option<Vec<u8>>,
        timestamp: Option<Vec<u8>>,
        now: &[u8],
    ) -> (statements: Vec<Vec<u8>>)
        ensures
            final(self).table_name == table_name,
            final(self).timestamp == timestamp,
            flushes(
                texts(statements@),
                crate::evaluator::rows_view(rows@),
                final(self).spec_table_name(),
                texts(final(self).columns@),
                text_option(timestamp),
                now@,
            ),
    {
        let columns = columns_of(rows);
        let mut statements: Vec<Vec<u8>> = Vec::new();
        let create = self.create_table(table_name, columns, timestamp);
        statements.push(create);
        let ghost maps = crate::evaluator::rows_view(rows@);
        let mut i: usize = 0;
        while i < rows.len()
            invariant
                i <= rows@.len(),
                maps == crate::evaluator::rows_view(rows@),
                statements@.len() == i + 1,
                texts(statements@)[0] == create_text(
                    self.spec_table_name(),
                    texts(self.columns@),
                    text_option(self.timestamp),
                ),
                forall|k: int|
                    0 <= k < i ==> #[trigger] texts(statements@)[k + 1] == insert_text(
                        self.spec_table_name(),
                        texts(self.columns@),
                        maps[k],
                        stamp_for(text_option(self.timestamp), now@),
                    ),
            decreases rows@.len() - i,
        {
            let ghost before = texts(statements@);
            let sql = self.insert(&rows[i], now);
            let ghost this = sql@;
            statements.push(sql);
            proof {
                assert(texts(statements@) =~= before.push(this));
                assert(maps[i as int] == rows@[i as int]@);
                assert forall|k: int| 0 <= k < i + 1 implies #[trigger] texts(statements@)[k + 1]
                    == insert_text(
                    self.spec_table_name(),
                    texts(self.columns@),
                    maps[k],
                    stamp_for(text_option(self.timestamp), now@),
                ) by {
                    if k < i {
                        assert(texts(statements@)[k + 1] == before[k + 1]);
                    }
                }
            }
            i += 1;
        }
        statements
    }
}

/// The columns of a table that can hold the rows: the names that any of
/// the rows binds, each once, in the order of byte strings.
pub fn columns_of(rows: &Vec<Row>) -> (columns: Vec<Vec<u8>>)
    ensures
        strictly_sorted(texts(columns@)),
        texts(columns@).to_set() == all_keys(crate::evaluator::rows_view(rows@)),
{
    let ghost maps = crate::evaluator::rows_view(rows@);
    let mut seen = Row::new();
    let mut i: usize = 0;
    assert(seen@.dom() =~= all_keys(maps.take(0)));
    while i < rows.len()
        invariant
            i <= rows@.len(),
            maps == crate::evaluator::rows_view(rows@),
            seen@.dom() == all_keys(maps.take(i as int)),
        decreases rows@.len() - i,
    {
        let row = &rows[i];
        let count = row.len();
        let ghost start = seen@.dom();
        let mut j: usize = 0;
        proof {
            crate::row::lemma_pairs_map_empty();
            assert(row.pairs().take(0) =~= Seq::<Pair>::empty());
            assert(start.union(Map::<Seq<u8>, Seq<u8>>::empty().dom()) =~= start);
        }
        while j < count
            invariant
                j <= count,
                count == row.pairs().len(),
                sorted_keys(row.pairs()),
                seen@.dom() == start.union(pairs_map(row.pairs().take(j as int)).dom()),
            decreases count - j,
        {
            let key = copy(row.key(j).as_slice());
            proof {
                crate::row::lemma_take_push(row.pairs(), j as int);
                assert(start.union(pairs_map(row.pairs().take(j as int)).dom()).insert(key@)
                    =~= start.union(pairs_map(row.pairs().take(j + 1)).dom()));
            }
            seen.insert(key, Vec::new());
            j += 1;
        }
        proof {
            assert(row.pairs().take(count as int) =~= row.pairs());
            assert(maps[i as int] == row@);
            assert forall|k: Seq<u8>| start.union(row@.dom()).contains(k) <==> all_keys(
                maps.take(i + 1),
            ).contains(k) by {
                if start.contains(k) {
                    let w = choose|w: int|
                        0 <= w < maps.take(i as int).len() && (#[trigger] maps.take(
                            i as int,
                        )[w]).dom().contains(k);
                    assert(maps.take(i + 1)[w].dom().contains(k));
                }
                if row@.dom().contains(k) {
                    assert(maps.take(i + 1)[i as int].dom().contains(k));
                }
                if all_keys(maps.take(i + 1)).contains(k) {
                    let w = choose|w: int|
                        0 <= w < maps.take(i + 1).len() && (#[trigger] maps.take(
                            i + 1,
                        )[w]).dom().contains(k);
                    if w < i {
                        assert(maps.take(i as int)[w].dom().contains(k));
                    }
                }
            }
            assert(start.union(row@.dom()) =~= all_keys(maps.take(i + 1)));
        }
        i += 1;
    }
    assert(maps.take(rows@.len() as int) =~= maps);
    let mut columns: Vec<Vec<u8>> = Vec::new();
    let total = seen.len();
    let mut k: usize = 0;
    assert(texts(columns@) =~= seen.keys().take(0));
    while k < total
        invariant
            k <= total,
            total == seen.pairs().len(),
            texts(columns@) == seen.keys().take(k as int),
        decreases total - k,
    {
        let ghost before = texts(columns@);
        let name = copy(seen.key(k).as_slice());
        let ghost this = name@;
        columns.push(name);
        assert(texts(columns@) =~= before.push(this));
        assert(seen.keys().take(k + 1) =~= seen.keys().take(k as int).push(this));
        k += 1;
    }
    proof {
        assert(seen.keys().take(total as int) =~= seen.keys());
        crate::row::lemma_keys_are_domain(seen.pairs());
        assert forall|a: int, b: int| 0 <= a < b < seen.keys().len() implies lex_less(
            #[trigger] seen.keys()[a],
            #[trigger] seen.keys()[b],
        ) by {
            assert(lex_less(seen.pairs()[a].0, seen.pairs()[b].0));
        }
    }
    columns
}

} // verus!
