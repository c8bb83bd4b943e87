//! The joined schema: the ordered table descriptors of a query's FROM/JOIN
//! clause, and the session context that exposes the current database name.
//! Declaration order is load-bearing: it breaks ties during resolution.

use vstd::prelude::*;
use vstd::string::StringExecFns;

verus! {

/// Model of one column: its short name and whether that short name collides
/// with a column of another table in the same joined schema.
pub struct ColumnV {
    pub name: Seq<char>,
    pub ambiguous: bool,
}

/// Model of one table: its qualifying name parts and its ordered columns.
pub struct TableV {
    pub parts: Seq<Seq<char>>,
    pub cols: Seq<ColumnV>,
}

/// One column of a joined table, flagged when its short name collides with a
/// column of the same short name on another table of the join.
pub struct ColumnDesc {
    pub short_name: String,
    pub is_ambiguity: bool,
}

impl View for ColumnDesc {
    type V = ColumnV;

    open spec fn view(&self) -> ColumnV {
        ColumnV { name: self.short_name@, ambiguous: self.is_ambiguity }
    }
}

/// One table participating in the join: its qualifying name parts (one part
/// for an aliased table, two for `db.table`) and its ordered columns.
pub struct JoinedTableDesc {
    pub name_parts: Vec<String>,
    pub columns_desc: Vec<ColumnDesc>,
}

impl View for JoinedTableDesc {
    type V = TableV;

    open spec fn view(&self) -> TableV {
        TableV {
            parts: views_of_strings(self.name_parts@),
            cols: self.columns_desc@.map_values(|c: ColumnDesc| c@),
        }
    }
}

/// The ordered table descriptors of one query, in FROM/JOIN declaration order.
pub struct JoinedSchema {
    pub tables_desc: Vec<JoinedTableDesc>,
}

impl View for JoinedSchema {
    type V = Seq<TableV>;

    open spec fn view(&self) -> Seq<TableV> {
        self.tables_desc@.map_values(|t: JoinedTableDesc| t@)
    }
}

/// The views of a sequence of strings.
pub open spec fn views_of_strings(s: Seq<String>) -> Seq<Seq<char>> {
    s.map_values(|x: String| x@)
}

/// Name parts joined with dots: the qualifier rendering of a table.
pub open spec fn join_parts(parts: Seq<Seq<char>>) -> Seq<char>
    decreases parts.len(),
{
    if parts.len() == 0 {
        Seq::empty()
    } else if parts.len() == 1 {
        parts[0]
    } else {
        join_parts(parts.drop_last()) + "."@ + parts.last()
    }
}

/// The qualified rendering `"<parts dot-joined>.<name>"` of a column.
pub open spec fn qualified_name(parts: Seq<Seq<char>>, name: Seq<char>) -> Seq<char> {
    join_parts(parts) + "."@ + name
}

/// Joins name parts with dots, as `join_parts` describes.
pub fn join_name_parts(parts: &Vec<String>) -> (r: String)
    ensures
        r@ == join_parts(views_of_strings(parts@)),
{
    let ghost views = views_of_strings(parts@);
    if parts.len() == 0 {
        return String::new();
    }
    let mut acc = parts[0].clone();
    assert(views.take(1) =~= seq![views[0]]);
    let mut i: usize = 1;
    while i < parts.len()
        invariant
            1 <= i <= parts.len(),
            views == views_of_strings(parts@),
            acc@ == join_parts(views.take(i as int)),
        decreases parts.len() - i,
    {
        acc.append(".");
        acc.append(parts[i].as_str());
        proof {
            assert(views.take(i + 1).drop_last() =~= views.take(i as int));
            assert(views.take(i + 1).last() == views[i as int]);
        }
        i += 1;
    }
    assert(views.take(parts.len() as int) =~= views);
    acc
}

/// Whether some table of the schema has a column with this bare short name.
pub open spec fn spec_contains_column(tables: Seq<TableV>, name: Seq<char>) -> bool {
    exists|i: int, j: int|
        0 <= i < tables.len() && 0 <= j < tables[i].cols.len() && tables[i].cols[j].name == name
}

impl JoinedTableDesc {
    /// The table's qualifying name parts, in order.
    pub fn get_name_parts(&self) -> (r: &Vec<String>)
        ensures
            views_of_strings(r@) == self@.parts,
    {
        &self.name_parts
    }

    /// The table's column descriptors, in declared order.
    pub fn get_columns_desc(&self) -> (r: &Vec<ColumnDesc>)
        ensures
            r@.map_values(|c: ColumnDesc| c@) == self@.cols,
    {
        &self.columns_desc
    }

    /// Whether this table has a column with the given short name.
    pub fn has_column(&self, name: &String) -> (r: bool)
        ensures
            r == exists|j: int| 0 <= j < self@.cols.len() && self@.cols[j].name == name@,
    {
        let n = self.columns_desc.len();
        let mut j: usize = 0;
        while j < n
            invariant
                n == self.columns_desc.len(),
                j <= n,
                forall|b: int| 0 <= b < j ==> self@.cols[b].name != name@,
            decreases n - j,
        {
            if self.columns_desc[j].short_name.eq(name) {
                assert(self@.cols[j as int].name == name@);
                return true;
            }
            j += 1;
        }
        false
    }
}

impl JoinedSchema {
    /// The schema's table descriptors, in FROM/JOIN declaration order.
    pub fn get_tables_desc(&self) -> (r: &Vec<JoinedTableDesc>)
        ensures
            r@.map_values(|t: JoinedTableDesc| t@) == self@,
    {
        &self.tables_desc
    }

    /// Whether a bare column name is present in any table of the schema.
    pub fn contains_column(&self, name: &String) -> (r: bool)
        ensures
            r == spec_contains_column(self@, name@),
    {
        let n = self.tables_desc.len();
        let mut i: usize = 0;
        while i < n
            invariant
                n == self.tables_desc.len(),
                i <= n,
                forall|a: int, b: int|
                    0 <= a < i && 0 <= b < self@[a].cols.len() ==> self@[a].cols[b].name != name@,
            decreases n - i,
        {
            if self.tables_desc[i].has_column(name) {
                assert(self@[i as int] == self.tables_desc@[i as int]@);
                return true;
            }
            assert(self@[i as int] == self.tables_desc@[i as int]@);
            i += 1;
        }
        false
    }
}

/// The session context consumed by resolution: the current database name.
pub struct QueryContext {
    pub current_database: String,
}

impl View for QueryContext {
    type V = Seq<char>;

    open spec fn view(&self) -> Seq<char> {
        self.current_database@
    }
}

impl QueryContext {
    /// A context with the given current database.
    pub fn create(current_database: String) -> (r: QueryContext)
        ensures
            r@ == current_database@,
    {
        QueryContext { current_database }
    }

    /// The session's current database name.
    pub fn get_current_database(&self) -> (r: String)
        ensures
            r@ == self@,
    {
        self.current_database.clone()
    }
}

} // verus!
