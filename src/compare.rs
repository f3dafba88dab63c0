use vstd::prelude::*;

use crate::schema::{
    column_name_list, column_names, find_column, find_index, index_name_list, index_names,
    find_schema, lemma_find_column_some, lemma_find_schema_name, lemma_find_index_some, lookup_column, lookup_index,
    lookup_schema, opt_view, Column, Index, TableSchema,
};
use crate::text::{
    copy_strs, lemma_lex_asymmetric, lemma_lex_irreflexive, lex_lt, select_by_presence, sorted_as, sorted_distinct, strictly_sorted, strs, strs_equal,
};

verus! {

/// How one column present on both sides differs; a field is `Some` only where it differs.
#[derive(Clone, Debug, PartialEq, Eq)]
pub struct ColumnDiff {
    pub name: String,
    pub data_type: Option<(String, String)>,
    pub nullable: Option<(bool, bool)>,
    pub default: Option<(Option<String>, Option<String>)>,
}

/// How one index present on both sides differs; a field is `Some` only where it differs.
#[derive(Clone, Debug, PartialEq, Eq)]
pub struct IndexDiff {
    pub name: String,
    pub columns: Option<(Vec<String>, Vec<String>)>,
    pub uniqueness: Option<(bool, bool)>,
}

/// The differences found in one table present in both snapshots.
#[derive(Clone, Debug, PartialEq, Eq)]
pub struct TableDiff {
    pub name: String,
    pub columns_only_a: Vec<String>,
    pub columns_only_b: Vec<String>,
    pub column_diffs: Vec<ColumnDiff>,
    pub indexes_only_a: Vec<String>,
    pub indexes_only_b: Vec<String>,
    pub index_diffs: Vec<IndexDiff>,
}

pub open spec fn columns_differ(a: Column, b: Column) -> bool {
    a@.data_type != b@.data_type || a.is_nullable != b.is_nullable || a@.default != b@.default
}

/// `d` reports exactly the fields in which `a` and `b` differ, with both values.
pub open spec fn is_column_delta(a: Column, b: Column, d: ColumnDiff) -> bool {
    &&& d.name@ == a.name@
    &&& match d.data_type {
        Some((x, y)) => a@.data_type != b@.data_type && x@ == a@.data_type && y@ == b@.data_type,
        None => a@.data_type == b@.data_type,
    }
    &&& d.nullable == (if a.is_nullable != b.is_nullable {
        Some((a.is_nullable, b.is_nullable))
    } else {
        None
    })
    &&& match d.default {
        Some((x, y)) => a@.default != b@.default && opt_view(x) == a@.default && opt_view(y)
            == b@.default,
        None => a@.default == b@.default,
    }
}

pub open spec fn indexes_differ(a: Index, b: Index) -> bool {
    strs(a.columns@) != strs(b.columns@) || a.is_unique != b.is_unique
}

/// `d` reports exactly the fields in which `a` and `b` differ, with both values.
pub open spec fn is_index_delta(a: Index, b: Index, d: IndexDiff) -> bool {
    &&& d.name@ == a.name@
    &&& match d.columns {
        Some((x, y)) => strs(a.columns@) != strs(b.columns@) && x@ == a.columns@ && y@
            == b.columns@,
        None => strs(a.columns@) == strs(b.columns@),
    }
    &&& d.uniqueness == (if a.is_unique != b.is_unique {
        Some((a.is_unique, b.is_unique))
    } else {
        None
    })
}

pub open spec fn column_set(t: TableSchema) -> Set<Seq<char>> {
    column_names(t.columns@).to_set()
}

pub open spec fn index_set(t: TableSchema) -> Set<Seq<char>> {
    index_names(t.indexes@).to_set()
}

/// Names of the columns on both sides whose first occurrences differ.
pub open spec fn changed_columns(a: TableSchema, b: TableSchema) -> Set<Seq<char>> {
    column_set(a).filter(
        |n: Seq<char>|
            column_set(b).contains(n) && columns_differ(
                find_column(a.columns@, n)->0,
                find_column(b.columns@, n)->0,
            ),
    )
}

/// Names of the indexes on both sides whose first occurrences differ.
pub open spec fn changed_indexes(a: TableSchema, b: TableSchema) -> Set<Seq<char>> {
    index_set(a).filter(
        |n: Seq<char>|
            index_set(b).contains(n) && indexes_differ(
                find_index(a.indexes@, n)->0,
                find_index(b.indexes@, n)->0,
            ),
    )
}

pub open spec fn column_diff_names(ds: Seq<ColumnDiff>) -> Seq<Seq<char>> {
    ds.map_values(|d: ColumnDiff| d.name@)
}

pub open spec fn index_diff_names(ds: Seq<IndexDiff>) -> Seq<Seq<char>> {
    ds.map_values(|d: IndexDiff| d.name@)
}

/// `d` is the comparison of table `a` with table `b`: names present on one side
/// only, and a field-by-field entry for each shared name that differs, all in
/// code point order of their names.
pub open spec fn is_table_delta(a: TableSchema, b: TableSchema, d: TableDiff) -> bool {
    &&& d.name@ == a.name@
    &&& sorted_as(strs(d.columns_only_a@), column_set(a).difference(column_set(b)))
    &&& sorted_as(strs(d.columns_only_b@), column_set(b).difference(column_set(a)))
    &&& sorted_as(column_diff_names(d.column_diffs@), changed_columns(a, b))
    &&& forall|k: int|
        0 <= k < d.column_diffs@.len() ==> is_column_delta(
            find_column(a.columns@, #[trigger] d.column_diffs@[k].name@)->0,
            find_column(b.columns@, d.column_diffs@[k].name@)->0,
            d.column_diffs@[k],
        )
    &&& sorted_as(strs(d.indexes_only_a@), index_set(a).difference(index_set(b)))
    &&& sorted_as(strs(d.indexes_only_b@), index_set(b).difference(index_set(a)))
    &&& sorted_as(index_diff_names(d.index_diffs@), changed_indexes(a, b))
    &&& forall|k: int|
        0 <= k < d.index_diffs@.len() ==> is_index_delta(
            find_index(a.indexes@, #[trigger] d.index_diffs@[k].name@)->0,
            find_index(b.indexes@, d.index_diffs@[k].name@)->0,
            d.index_diffs@[k],
        )
}

/// The two tables differ in some column or index.
pub open spec fn tables_differ(a: TableSchema, b: TableSchema) -> bool {
    column_set(a) != column_set(b) || changed_columns(a, b) != Set::<Seq<char>>::empty()
        || index_set(a) != index_set(b) || changed_indexes(a, b) != Set::<Seq<char>>::empty()
}

impl TableDiff {
    pub open spec fn has_no_entries(&self) -> bool {
        &&& self.columns_only_a@.len() == 0
        &&& self.columns_only_b@.len() == 0
        &&& self.column_diffs@.len() == 0
        &&& self.indexes_only_a@.len() == 0
        &&& self.indexes_only_b@.len() == 0
        &&& self.index_diffs@.len() == 0
    }

    /// Whether every list of differences is empty.
    pub fn is_empty(&self) -> (r: bool)
        ensures
            r == self.has_no_entries(),
    {
        self.columns_only_a.len() == 0 && self.columns_only_b.len() == 0
            && self.column_diffs.len() == 0 && self.indexes_only_a.len() == 0
            && self.indexes_only_b.len() == 0 && self.index_diffs.len() == 0
    }
}

fn copy_opt_str(o: &Option<String>) -> (r: Option<String>)
    ensures
        opt_view(r) == opt_view(*o),
{
    match o {
        Some(s) => Some(s.clone()),
        None => None,
    }
}

fn opt_str_eq(a: &Option<String>, b: &Option<String>) -> (r: bool)
    ensures
        r == (opt_view(*a) == opt_view(*b)),
{
    match (a, b) {
        (Some(x), Some(y)) => *x == *y,
        (None, None) => true,
        _ => false,
    }
}

/// Compares the three fields of two columns independently.
pub fn diff_column(a: &Column, b: &Column) -> (r: Option<ColumnDiff>)
    ensures
        match r {
            Some(d) => columns_differ(*a, *b) && is_column_delta(*a, *b, d),
            None => !columns_differ(*a, *b),
        },
{
    let data_type = if a.data_type != b.data_type {
        Some((a.data_type.clone(), b.data_type.clone()))
    } else {
        None
    };
    let nullable = if a.is_nullable != b.is_nullable {
        Some((a.is_nullable, b.is_nullable))
    } else {
        None
    };
    let default = if !opt_str_eq(&a.default, &b.default) {
        Some((copy_opt_str(&a.default), copy_opt_str(&b.default)))
    } else {
        None
    };
    if data_type.is_none() && nullable.is_none() && default.is_none() {
        None
    } else {
        Some(ColumnDiff { name: a.name.clone(), data_type, nullable, default })
    }
}

/// Compares the column sequence and the uniqueness of two indexes independently.
pub fn diff_index(a: &Index, b: &Index) -> (r: Option<IndexDiff>)
    ensures
        match r {
            Some(d) => indexes_differ(*a, *b) && is_index_delta(*a, *b, d),
            None => !indexes_differ(*a, *b),
        },
{
    let columns = if !strs_equal(&a.columns, &b.columns) {
        Some((copy_strs(&a.columns), copy_strs(&b.columns)))
    } else {
        None
    };
    let uniqueness = if a.is_unique != b.is_unique {
        Some((a.is_unique, b.is_unique))
    } else {
        None
    };
    if columns.is_none() && uniqueness.is_none() {
        None
    } else {
        Some(IndexDiff { name: a.name.clone(), columns, uniqueness })
    }
}

fn shared_column_diffs(a: &TableSchema, b: &TableSchema, shared: &Vec<String>) -> (r: Vec<
    ColumnDiff,
>)
    requires
        strictly_sorted(strs(shared@)),
        strs(shared@).to_set() == column_set(*a).intersect(column_set(*b)),
    ensures
        sorted_as(column_diff_names(r@), changed_columns(*a, *b)),
        forall|k: int|
            0 <= k < r@.len() ==> is_column_delta(
                find_column(a.columns@, #[trigger] r@[k].name@)->0,
                find_column(b.columns@, r@[k].name@)->0,
                r@[k],
            ),
{
    let ghost sh = strs(shared@);
    let ghost p = |n: Seq<char>|
        columns_differ(find_column(a.columns@, n)->0, find_column(b.columns@, n)->0);
    let mut r: Vec<ColumnDiff> = Vec::new();
    let mut i: usize = 0;
    while i < shared.len()
        invariant
            i <= shared@.len(),
            sh == strs(shared@),
            strictly_sorted(sh),
            sh.to_set() == column_set(*a).intersect(column_set(*b)),
            p == (|n: Seq<char>|
                columns_differ(find_column(a.columns@, n)->0, find_column(b.columns@, n)->0)),
            strictly_sorted(column_diff_names(r@)),
            forall|k: int, j: int|
                0 <= k < r@.len() && i <= j < sh.len() ==> lex_lt(
                    #[trigger] column_diff_names(r@)[k],
                    #[trigger] sh[j],
                ),
            column_diff_names(r@).to_set() == sh.subrange(0, i as int).to_set().filter(p),
            forall|k: int|
                0 <= k < r@.len() ==> is_column_delta(
                    find_column(a.columns@, #[trigger] r@[k].name@)->0,
                    find_column(b.columns@, r@[k].name@)->0,
                    r@[k],
                ),
        decreases shared@.len() - i,
    {
        let ghost r0 = r@;
        let ghost x = sh[i as int];
        proof {
            assert(sh.to_set().contains(x));
            lemma_find_column_some(a.columns@, x);
            lemma_find_column_some(b.columns@, x);
        }
        let ca = lookup_column(&a.columns, &shared[i]);
        let cb = lookup_column(&b.columns, &shared[i]);
        match (ca, cb) {
            (Some(ca), Some(cb)) => {
                match diff_column(ca, cb) {
                    Some(d) => {
                        r.push(d);
                        assert(column_diff_names(r@) =~= column_diff_names(r0).push(x));
                        proof {
                            column_diff_names(r0).lemma_push_to_set_commute(x);
                        }
                    },
                    None => {},
                }
            },
            _ => {},
        }
        assert(sh.subrange(0, i + 1) =~= sh.subrange(0, i as int).push(x));
        proof {
            sh.subrange(0, i as int).lemma_push_to_set_commute(x);
        }
        assert(column_diff_names(r@).to_set() =~= sh.subrange(0, i + 1).to_set().filter(p));
        i = i + 1;
    }
    assert(sh.subrange(0, sh.len() as int) =~= sh);
    assert(sh.to_set().filter(p) =~= changed_columns(*a, *b));
    r
}

fn shared_index_diffs(a: &TableSchema, b: &TableSchema, shared: &Vec<String>) -> (r: Vec<
    IndexDiff,
>)
    requires
        strictly_sorted(strs(shared@)),
        strs(shared@).to_set() == index_set(*a).intersect(index_set(*b)),
    ensures
        sorted_as(index_diff_names(r@), changed_indexes(*a, *b)),
        forall|k: int|
            0 <= k < r@.len() ==> is_index_delta(
                find_index(a.indexes@, #[trigger] r@[k].name@)->0,
                find_index(b.indexes@, r@[k].name@)->0,
                r@[k],
            ),
{
    let ghost sh = strs(shared@);
    let ghost p = |n: Seq<char>|
        indexes_differ(find_index(a.indexes@, n)->0, find_index(b.indexes@, n)->0);
    let mut r: Vec<IndexDiff> = Vec::new();
    let mut i: usize = 0;
    while i < shared.len()
        invariant
            i <= shared@.len(),
            sh == strs(shared@),
            strictly_sorted(sh),
            sh.to_set() == index_set(*a).intersect(index_set(*b)),
            p == (|n: Seq<char>|
                indexes_differ(find_index(a.indexes@, n)->0, find_index(b.indexes@, n)->0)),
            strictly_sorted(index_diff_names(r@)),
            forall|k: int, j: int|
                0 <= k < r@.len() && i <= j < sh.len() ==> lex_lt(
                    #[trigger] index_diff_names(r@)[k],
                    #[trigger] sh[j],
                ),
            index_diff_names(r@).to_set() == sh.subrange(0, i as int).to_set().filter(p),
            forall|k: int|
                0 <= k < r@.len() ==> is_index_delta(
                    find_index(a.indexes@, #[trigger] r@[k].name@)->0,
                    find_index(b.indexes@, r@[k].name@)->0,
                    r@[k],
                ),
        decreases shared@.len() - i,
    {
        let ghost r0 = r@;
        let ghost x = sh[i as int];
        proof {
            assert(sh.to_set().contains(x));
            lemma_find_index_some(a.indexes@, x);
            lemma_find_index_some(b.indexes@, x);
        }
        let ia = lookup_index(&a.indexes, &shared[i]);
        let ib = lookup_index(&b.indexes, &shared[i]);
        match (ia, ib) {
            (Some(ia), Some(ib)) => {
                match diff_index(ia, ib) {
                    Some(d) => {
                        r.push(d);
                        assert(index_diff_names(r@) =~= index_diff_names(r0).push(x));
                        proof {
                            index_diff_names(r0).lemma_push_to_set_commute(x);
                        }
                    },
                    None => {},
                }
            },
            _ => {},
        }
        assert(sh.subrange(0, i + 1) =~= sh.subrange(0, i as int).push(x));
        proof {
            sh.subrange(0, i as int).lemma_push_to_set_commute(x);
        }
        assert(index_diff_names(r@).to_set() =~= sh.subrange(0, i + 1).to_set().filter(p));
        i = i + 1;
    }
    assert(sh.subrange(0, sh.len() as int) =~= sh);
    assert(sh.to_set().filter(p) =~= changed_indexes(*a, *b));
    r
}

/// Compares two captures of the same table: columns and indexes by name.
pub fn diff_tables(a: &TableSchema, b: &TableSchema) -> (r: TableDiff)
    ensures
        is_table_delta(*a, *b, r),
{
    let ca = sorted_distinct(&column_name_list(&a.columns));
    let cb = sorted_distinct(&column_name_list(&b.columns));
    let columns_only_a = select_by_presence(&ca, &cb, false);
    let columns_only_b = select_by_presence(&cb, &ca, false);
    let shared_columns = select_by_presence(&ca, &cb, true);
    assert(strs(columns_only_a@).to_set() =~= column_set(*a).difference(column_set(*b)));
    assert(strs(columns_only_b@).to_set() =~= column_set(*b).difference(column_set(*a)));
    assert(strs(shared_columns@).to_set() =~= column_set(*a).intersect(column_set(*b)));
    let column_diffs = shared_column_diffs(a, b, &shared_columns);
    let ia = sorted_distinct(&index_name_list(&a.indexes));
    let ib = sorted_distinct(&index_name_list(&b.indexes));
    let indexes_only_a = select_by_presence(&ia, &ib, false);
    let indexes_only_b = select_by_presence(&ib, &ia, false);
    let shared_indexes = select_by_presence(&ia, &ib, true);
    assert(strs(indexes_only_a@).to_set() =~= index_set(*a).difference(index_set(*b)));
    assert(strs(indexes_only_b@).to_set() =~= index_set(*b).difference(index_set(*a)));
    assert(strs(shared_indexes@).to_set() =~= index_set(*a).intersect(index_set(*b)));
    let index_diffs = shared_index_diffs(a, b, &shared_indexes);
    TableDiff {
        name: a.name.clone(),
        columns_only_a,
        columns_only_b,
        column_diffs,
        indexes_only_a,
        indexes_only_b,
        index_diffs,
    }
}

/// One environment's snapshot: its manifest, and the table documents loaded from it.
#[derive(Clone, Debug)]
pub struct Snapshot {
    pub env: String,
    pub tables: Vec<String>,
    pub schemas: Vec<TableSchema>,
}

/// Why a comparison could not be made.
#[derive(Clone, Debug, PartialEq, Eq)]
pub enum SnapshotError {
    /// The manifest of the environment is absent or unreadable.
    MissingSnapshot { env: String },
    /// A table listed in the manifest has no document, or a malformed one.
    CorruptSnapshot { env: String, table: String },
}

/// The structural difference of two snapshots.
#[derive(Clone, Debug, PartialEq, Eq)]
pub struct DiffResult {
    pub only_a: Vec<String>,
    pub only_b: Vec<String>,
    pub tables: Vec<TableDiff>,
}

pub open spec fn table_set(s: Snapshot) -> Set<Seq<char>> {
    strs(s.tables@).to_set()
}

pub open spec fn common_tables(a: Snapshot, b: Snapshot) -> Set<Seq<char>> {
    table_set(a).intersect(table_set(b))
}

/// The snapshot holds a well-formed document for table `t`.
pub open spec fn loadable(s: Snapshot, t: Seq<char>) -> bool {
    match find_schema(s.schemas@, t) {
        Some(x) => x.well_formed(),
        None => false,
    }
}

pub open spec fn table_diff_names(ds: Seq<TableDiff>) -> Seq<Seq<char>> {
    ds.map_values(|d: TableDiff| d.name@)
}

/// Tables of both snapshots whose documents differ.
pub open spec fn changed_tables(a: Snapshot, b: Snapshot) -> Set<Seq<char>> {
    common_tables(a, b).filter(
        |t: Seq<char>|
            tables_differ(find_schema(a.schemas@, t)->0, find_schema(b.schemas@, t)->0),
    )
}

/// `d` is the comparison of snapshot `a` with snapshot `b`.
pub open spec fn is_diff_result(a: Snapshot, b: Snapshot, d: DiffResult) -> bool {
    &&& sorted_as(strs(d.only_a@), table_set(a).difference(table_set(b)))
    &&& sorted_as(strs(d.only_b@), table_set(b).difference(table_set(a)))
    &&& sorted_as(table_diff_names(d.tables@), changed_tables(a, b))
    &&& forall|k: int|
        0 <= k < d.tables@.len() ==> is_table_delta(
            find_schema(a.schemas@, #[trigger] d.tables@[k].name@)->0,
            find_schema(b.schemas@, d.tables@[k].name@)->0,
            d.tables@[k],
        )
}

pub proof fn lemma_sorted_as_empty(s: Seq<Seq<char>>, set: Set<Seq<char>>)
    requires
        sorted_as(s, set),
    ensures
        s.len() == 0 <==> set == Set::<Seq<char>>::empty(),
{
    if s.len() == 0 {
        assert(s.to_set() =~= Set::<Seq<char>>::empty());
    } else {
        assert(set.contains(s[0]));
    }
}

/// A table comparison has no entries exactly when the tables do not differ.
pub proof fn lemma_delta_empty(a: TableSchema, b: TableSchema, d: TableDiff)
    requires
        is_table_delta(a, b, d),
    ensures
        d.has_no_entries() <==> !tables_differ(a, b),
{
    lemma_sorted_as_empty(strs(d.columns_only_a@), column_set(a).difference(column_set(b)));
    lemma_sorted_as_empty(strs(d.columns_only_b@), column_set(b).difference(column_set(a)));
    lemma_sorted_as_empty(column_diff_names(d.column_diffs@), changed_columns(a, b));
    lemma_sorted_as_empty(strs(d.indexes_only_a@), index_set(a).difference(index_set(b)));
    lemma_sorted_as_empty(strs(d.indexes_only_b@), index_set(b).difference(index_set(a)));
    lemma_sorted_as_empty(index_diff_names(d.index_diffs@), changed_indexes(a, b));
    let e = Set::<Seq<char>>::empty();
    if column_set(a).difference(column_set(b)) == e && column_set(b).difference(column_set(a))
        == e {
        assert(column_set(a) =~= column_set(b)) by {
            assert forall|x: Seq<char>| column_set(a).contains(x) implies column_set(b).contains(
                x,
            ) by {
                assert(!column_set(a).difference(column_set(b)).contains(x));
            }
            assert forall|x: Seq<char>| column_set(b).contains(x) implies column_set(a).contains(
                x,
            ) by {
                assert(!column_set(b).difference(column_set(a)).contains(x));
            }
        }
    }
    if column_set(a) == column_set(b) {
        assert(column_set(a).difference(column_set(b)) =~= e);
    }
    if index_set(a).difference(index_set(b)) == e && index_set(b).difference(index_set(a)) == e {
        assert(index_set(a) =~= index_set(b)) by {
            assert forall|x: Seq<char>| index_set(a).contains(x) implies index_set(b).contains(
                x,
            ) by {
                assert(!index_set(a).difference(index_set(b)).contains(x));
            }
            assert forall|x: Seq<char>| index_set(b).contains(x) implies index_set(a).contains(
                x,
            ) by {
                assert(!index_set(b).difference(index_set(a)).contains(x));
            }
        }
    }
    if index_set(a) == index_set(b) {
        assert(index_set(a).difference(index_set(b)) =~= e);
    }
    if d.has_no_entries() {
        assert(d.columns_only_b@.len() == 0);
        assert(strs(d.columns_only_b@).len() == 0);
    }
}

/// Compares snapshot `a` with snapshot `b`: the tables present in only one of
/// them, then each table present in both, in code point order of table names.
pub fn compare(a: &Snapshot, b: &Snapshot) -> (r: Result<DiffResult, SnapshotError>)
    ensures
        r is Ok <==> forall|t: Seq<char>| #[trigger]
            common_tables(*a, *b).contains(t) ==> loadable(*a, t) && loadable(*b, t),
        match r {
            Ok(d) => is_diff_result(*a, *b, d),
            Err(SnapshotError::CorruptSnapshot { env, table }) => {
                &&& common_tables(*a, *b).contains(table@)
                &&& forall|t: Seq<char>|
                    #![trigger common_tables(*a, *b).contains(t), lex_lt(t, table@)]
                    common_tables(*a, *b).contains(t) && lex_lt(t, table@) ==> loadable(*a, t)
                        && loadable(*b, t)
                &&& if !loadable(*a, table@) {
                    env@ == a.env@
                } else {
                    env@ == b.env@ && !loadable(*b, table@)
                }
            },
            Err(SnapshotError::MissingSnapshot { .. }) => false,
        },
{
    let ta = sorted_distinct(&a.tables);
    let tb = sorted_distinct(&b.tables);
    let only_a = select_by_presence(&ta, &tb, false);
    let only_b = select_by_presence(&tb, &ta, false);
    let shared = select_by_presence(&ta, &tb, true);
    assert(strs(only_a@).to_set() =~= table_set(*a).difference(table_set(*b)));
    assert(strs(only_b@).to_set() =~= table_set(*b).difference(table_set(*a)));
    assert(strs(shared@).to_set() =~= common_tables(*a, *b));
    let ghost sh = strs(shared@);
    let ghost p = |t: Seq<char>|
        tables_differ(find_schema(a.schemas@, t)->0, find_schema(b.schemas@, t)->0);
    let mut tables: Vec<TableDiff> = Vec::new();
    let mut i: usize = 0;
    while i < shared.len()
        invariant
            i <= shared@.len(),
            sh == strs(shared@),
            strictly_sorted(sh),
            sh.to_set() == common_tables(*a, *b),
            p == (|t: Seq<char>|
                tables_differ(find_schema(a.schemas@, t)->0, find_schema(b.schemas@, t)->0)),
            forall|j: int| 0 <= j < i ==> loadable(*a, #[trigger] sh[j]) && loadable(*b, sh[j]),
            strictly_sorted(table_diff_names(tables@)),
            forall|k: int, j: int|
                0 <= k < tables@.len() && i <= j < sh.len() ==> lex_lt(
                    #[trigger] table_diff_names(tables@)[k],
                    #[trigger] sh[j],
                ),
            table_diff_names(tables@).to_set() == sh.subrange(0, i as int).to_set().filter(p),
            forall|k: int|
                0 <= k < tables@.len() ==> is_table_delta(
                    find_schema(a.schemas@, #[trigger] tables@[k].name@)->0,
                    find_schema(b.schemas@, tables@[k].name@)->0,
                    tables@[k],
                ),
        decreases shared@.len() - i,
    {
        let ghost t0 = tables@;
        let ghost x = sh[i as int];
        assert(sh.to_set().contains(x));
        assert forall|t: Seq<char>|
            #![trigger common_tables(*a, *b).contains(t), lex_lt(t, x)]
            common_tables(*a, *b).contains(t) && lex_lt(t, x) implies loadable(*a, t) && loadable(
                *b,
                t,
            ) by {
            assert(sh.to_set().contains(t));
            let j = choose|j: int| 0 <= j < sh.len() && sh[j] == t;
            if j == i {
                lemma_lex_irreflexive(x);
            } else if j > i {
                assert(lex_lt(sh[i as int], sh[j]));
                lemma_lex_asymmetric(x, t);
            }
        }
        let sa = match lookup_schema(&a.schemas, &shared[i]) {
            Some(s) => s,
            None => {
                return Err(
                    SnapshotError::CorruptSnapshot { env: a.env.clone(), table: shared[i].clone() },
                );
            },
        };
        if !sa.is_well_formed() {
            return Err(
                SnapshotError::CorruptSnapshot { env: a.env.clone(), table: shared[i].clone() },
            );
        }
        let sb = match lookup_schema(&b.schemas, &shared[i]) {
            Some(s) => s,
            None => {
                return Err(
                    SnapshotError::CorruptSnapshot { env: b.env.clone(), table: shared[i].clone() },
                );
            },
        };
        if !sb.is_well_formed() {
            return Err(
                SnapshotError::CorruptSnapshot { env: b.env.clone(), table: shared[i].clone() },
            );
        }
        let d = diff_tables(sa, sb);
        proof {
            lemma_find_schema_name(a.schemas@, x);
            lemma_delta_empty(*sa, *sb, d);
        }
        if !d.is_empty() {
            tables.push(d);
            assert(table_diff_names(tables@) =~= table_diff_names(t0).push(x));
            proof {
                table_diff_names(t0).lemma_push_to_set_commute(x);
            }
        }
        assert(sh.subrange(0, i + 1) =~= sh.subrange(0, i as int).push(x));
        proof {
            sh.subrange(0, i as int).lemma_push_to_set_commute(x);
        }
        assert(table_diff_names(tables@).to_set() =~= sh.subrange(0, i + 1).to_set().filter(p));
        i = i + 1;
    }
    assert(sh.subrange(0, sh.len() as int) =~= sh);
    assert(sh.to_set().filter(p) =~= changed_tables(*a, *b));
    assert forall|t: Seq<char>| #[trigger]
        common_tables(*a, *b).contains(t) implies loadable(*a, t) && loadable(*b, t) by {
        assert(sh.to_set().contains(t));
        let j = choose|j: int| 0 <= j < sh.len() && sh[j] == t;
    }
    Ok(DiffResult { only_a, only_b, tables })
}

} // verus!
