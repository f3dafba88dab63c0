use vstd::prelude::*;

use crate::text::{all_distinct, distinct, sorted_as, sorted_distinct, strs};

verus! {

/// One column of a table.
#[derive(Clone, Debug)]
pub struct Column {
    pub name: String,
    pub data_type: String,
    pub is_nullable: bool,
    pub default: Option<String>,
}

/// One secondary index of a table; the order of `columns` is significant.
#[derive(Clone, Debug)]
pub struct Index {
    pub name: String,
    pub columns: Vec<String>,
    pub is_unique: bool,
}

/// The captured structure of one table.
#[derive(Clone, Debug)]
pub struct TableSchema {
    pub name: String,
    pub columns: Vec<Column>,
    pub primary_key: Vec<String>,
    pub indexes: Vec<Index>,
}

/// The view of an optional string.
pub open spec fn opt_view(o: Option<String>) -> Option<Seq<char>> {
    match o {
        Some(s) => Some(s@),
        None => None,
    }
}

pub open spec fn column_names(cols: Seq<Column>) -> Seq<Seq<char>> {
    cols.map_values(|c: Column| c@.name)
}

pub open spec fn index_names(ixs: Seq<Index>) -> Seq<Seq<char>> {
    ixs.map_values(|i: Index| i.name@)
}

/// The first column named `n`.
pub open spec fn find_column(cols: Seq<Column>, n: Seq<char>) -> Option<Column>
    decreases cols.len(),
{
    if cols.len() == 0 {
        None
    } else if cols[0].name@ == n {
        Some(cols[0])
    } else {
        find_column(cols.drop_first(), n)
    }
}

/// The first index named `n`.
pub open spec fn find_index(ixs: Seq<Index>, n: Seq<char>) -> Option<Index>
    decreases ixs.len(),
{
    if ixs.len() == 0 {
        None
    } else if ixs[0].name@ == n {
        Some(ixs[0])
    } else {
        find_index(ixs.drop_first(), n)
    }
}

/// A plain view of a column, for contracts.
pub struct ColumnView {
    pub name: Seq<char>,
    pub data_type: Seq<char>,
    pub is_nullable: bool,
    pub default: Option<Seq<char>>,
}

impl View for Column {
    type V = ColumnView;

    open spec fn view(&self) -> ColumnView {
        ColumnView {
            name: self.name@,
            data_type: self.data_type@,
            is_nullable: self.is_nullable,
            default: opt_view(self.default),
        }
    }
}

impl TableSchema {
    /// Column names are pairwise distinct, and so are index names.
    pub open spec fn well_formed(&self) -> bool {
        distinct(column_names(self.columns@)) && distinct(index_names(self.indexes@))
    }

    /// Whether the table obeys the uniqueness of column and index names.
    pub fn is_well_formed(&self) -> (r: bool)
        ensures
            r == self.well_formed(),
    {
        let cn = column_name_list(&self.columns);
        let inames = index_name_list(&self.indexes);
        all_distinct(&cn) && all_distinct(&inames)
    }
}

/// The names of the columns, in order.
pub fn column_name_list(cols: &Vec<Column>) -> (r: Vec<String>)
    ensures
        strs(r@) == column_names(cols@),
{
    let mut r: Vec<String> = Vec::new();
    let mut i: usize = 0;
    while i < cols.len()
        invariant
            i <= cols@.len(),
            strs(r@) == column_names(cols@.subrange(0, i as int)),
        decreases cols@.len() - i,
    {
        let ghost r0 = r@;
        r.push(cols[i].name.clone());
        assert(strs(r@) =~= strs(r0).push(cols@[i as int].name@));
        assert(column_names(cols@.subrange(0, i + 1)) =~= column_names(cols@.subrange(0, i as int)).push(
            cols@[i as int].name@,
        ));
        i = i + 1;
    }
    assert(cols@.subrange(0, cols@.len() as int) =~= cols@);
    r
}

/// The names of the indexes, in order.
pub fn index_name_list(ixs: &Vec<Index>) -> (r: Vec<String>)
    ensures
        strs(r@) == index_names(ixs@),
{
    let mut r: Vec<String> = Vec::new();
    let mut i: usize = 0;
    while i < ixs.len()
        invariant
            i <= ixs@.len(),
            strs(r@) == index_names(ixs@.subrange(0, i as int)),
        decreases ixs@.len() - i,
    {
        let ghost r0 = r@;
        r.push(ixs[i].name.clone());
        assert(strs(r@) =~= strs(r0).push(ixs@[i as int].name@));
        assert(index_names(ixs@.subrange(0, i + 1)) =~= index_names(ixs@.subrange(0, i as int)).push(
            ixs@[i as int].name@,
        ));
        i = i + 1;
    }
    assert(ixs@.subrange(0, ixs@.len() as int) =~= ixs@);
    r
}

pub proof fn lemma_find_column_some(cols: Seq<Column>, n: Seq<char>)
    ensures
        find_column(cols, n) is Some <==> column_names(cols).contains(n),
        find_column(cols, n) is Some ==> cols.contains(find_column(cols, n)->0)
            && find_column(cols, n)->0.name@ == n,
    decreases cols.len(),
{
    if cols.len() > 0 {
        lemma_find_column_some(cols.drop_first(), n);
        let t = cols.drop_first();
        if column_names(cols).contains(n) && cols[0].name@ != n {
            let k = choose|k: int| 0 <= k < cols.len() && column_names(cols)[k] == n;
            assert(column_names(t)[k - 1] == n);
        }
        if column_names(t).contains(n) {
            let k = choose|k: int| 0 <= k < t.len() && column_names(t)[k] == n;
            assert(column_names(cols)[k + 1] == n);
        }
        if find_column(t, n) is Some {
            let k = choose|k: int| 0 <= k < t.len() && t[k] == find_column(t, n)->0;
            assert(cols[k + 1] == t[k]);
        }
        assert(column_names(cols)[0] == cols[0].name@);
    }
}

pub proof fn lemma_find_index_some(ixs: Seq<Index>, n: Seq<char>)
    ensures
        find_index(ixs, n) is Some <==> index_names(ixs).contains(n),
        find_index(ixs, n) is Some ==> find_index(ixs, n)->0.name@ == n,
    decreases ixs.len(),
{
    if ixs.len() > 0 {
        lemma_find_index_some(ixs.drop_first(), n);
        let t = ixs.drop_first();
        if index_names(ixs).contains(n) && ixs[0].name@ != n {
            let k = choose|k: int| 0 <= k < ixs.len() && index_names(ixs)[k] == n;
            assert(index_names(t)[k - 1] == n);
        }
        if index_names(t).contains(n) {
            let k = choose|k: int| 0 <= k < t.len() && index_names(t)[k] == n;
            assert(index_names(ixs)[k + 1] == n);
        }
        assert(index_names(ixs)[0] == ixs[0].name@);
    }
}

/// The first column of `cols` named `n`.
pub fn lookup_column<'a>(cols: &'a Vec<Column>, n: &String) -> (r: Option<&'a Column>)
    ensures
        match r {
            Some(c) => find_column(cols@, n@) == Some(*c),
            None => find_column(cols@, n@) is None,
        },
{
    let mut i: usize = 0;
    assert(cols@.skip(0) =~= cols@);
    while i < cols.len()
        invariant
            i <= cols@.len(),
            find_column(cols@, n@) == find_column(cols@.skip(i as int), n@),
        decreases cols@.len() - i,
    {
        if cols[i].name == *n {
            return Some(&cols[i]);
        }
        assert(cols@.skip(i as int).drop_first() =~= cols@.skip(i + 1));
        i = i + 1;
    }
    None
}

/// The first index of `ixs` named `n`.
pub fn lookup_index<'a>(ixs: &'a Vec<Index>, n: &String) -> (r: Option<&'a Index>)
    ensures
        match r {
            Some(x) => find_index(ixs@, n@) == Some(*x),
            None => find_index(ixs@, n@) is None,
        },
{
    let mut i: usize = 0;
    assert(ixs@.skip(0) =~= ixs@);
    while i < ixs.len()
        invariant
            i <= ixs@.len(),
            find_index(ixs@, n@) == find_index(ixs@.skip(i as int), n@),
        decreases ixs@.len() - i,
    {
        if ixs[i].name == *n {
            return Some(&ixs[i]);
        }
        assert(ixs@.skip(i as int).drop_first() =~= ixs@.skip(i + 1));
        i = i + 1;
    }
    None
}

/// The first table document named `n`.
pub open spec fn find_schema(ts: Seq<TableSchema>, n: Seq<char>) -> Option<TableSchema>
    decreases ts.len(),
{
    if ts.len() == 0 {
        None
    } else if ts[0].name@ == n {
        Some(ts[0])
    } else {
        find_schema(ts.drop_first(), n)
    }
}

pub proof fn lemma_find_schema_name(ts: Seq<TableSchema>, n: Seq<char>)
    ensures
        find_schema(ts, n) is Some ==> find_schema(ts, n)->0.name@ == n,
    decreases ts.len(),
{
    if ts.len() > 0 {
        lemma_find_schema_name(ts.drop_first(), n);
    }
}

/// The first table document of `ts` named `n`.
pub fn lookup_schema<'a>(ts: &'a Vec<TableSchema>, n: &String) -> (r: Option<&'a TableSchema>)
    ensures
        match r {
            Some(t) => find_schema(ts@, n@) == Some(*t),
            None => find_schema(ts@, n@) is None,
        },
{
    let mut i: usize = 0;
    assert(ts@.skip(0) =~= ts@);
    while i < ts.len()
        invariant
            i <= ts@.len(),
            find_schema(ts@, n@) == find_schema(ts@.skip(i as int), n@),
        decreases ts@.len() - i,
    {
        if ts[i].name == *n {
            return Some(&ts[i]);
        }
        assert(ts@.skip(i as int).drop_first() =~= ts@.skip(i + 1));
        i = i + 1;
    }
    None
}

/// The index names of metadata rows `(index, column, non_unique)`.
pub open spec fn row_names(rows: Seq<(String, String, u8)>) -> Seq<Seq<char>> {
    rows.map_values(|r: (String, String, u8)| r.0@)
}

/// The columns of index `n`, in the order of its rows.
pub open spec fn index_columns(rows: Seq<(String, String, u8)>, n: Seq<char>) -> Seq<Seq<char>>
    decreases rows.len(),
{
    if rows.len() == 0 {
        Seq::empty()
    } else if rows.last().0@ == n {
        index_columns(rows.drop_last(), n).push(rows.last().1@)
    } else {
        index_columns(rows.drop_last(), n)
    }
}

/// The non-unique flag of the first row of index `n`.
pub open spec fn first_flag(rows: Seq<(String, String, u8)>, n: Seq<char>) -> Option<u8>
    decreases rows.len(),
{
    if rows.len() == 0 {
        None
    } else {
        match first_flag(rows.drop_last(), n) {
            Some(f) => Some(f),
            None => if rows.last().0@ == n {
                Some(rows.last().2)
            } else {
                None
            },
        }
    }
}

/// A column from one metadata row; the nullability column reads `YES` or `NO`.
pub fn column_from_row(
    name: String,
    data_type: String,
    nullable: String,
    default: Option<String>,
) -> (r: Column)
    ensures
        r.name == name,
        r.data_type == data_type,
        r.is_nullable == (nullable@ == "YES"@),
        r.default == default,
{
    let yes = String::from_str("YES");
    Column { name, data_type, is_nullable: nullable == yes, default }
}

/// The index named `n` gathered from metadata rows: its columns in row order,
/// unique when the first of its rows says so.
fn gather_index(rows: &Vec<(String, String, u8)>, n: &String) -> (r: Index)
    ensures
        r.name@ == n@,
        strs(r.columns@) == index_columns(rows@, n@),
        first_flag(rows@, n@) is Some ==> r.is_unique == (first_flag(rows@, n@)->0 == 0),
{
    let mut columns: Vec<String> = Vec::new();
    let mut found = false;
    let mut is_unique = false;
    let mut i: usize = 0;
    while i < rows.len()
        invariant
            i <= rows@.len(),
            strs(columns@) == index_columns(rows@.subrange(0, i as int), n@),
            found == first_flag(rows@.subrange(0, i as int), n@) is Some,
            found ==> is_unique == (first_flag(rows@.subrange(0, i as int), n@)->0 == 0),
        decreases rows@.len() - i,
    {
        let ghost c0 = strs(columns@);
        assert(rows@.subrange(0, i + 1).drop_last() =~= rows@.subrange(0, i as int));
        if rows[i].0 == *n {
            columns.push(rows[i].1.clone());
            assert(strs(columns@) =~= c0.push(rows@[i as int].1@));
            if !found {
                is_unique = rows[i].2 == 0;
                found = true;
            }
        }
        i = i + 1;
    }
    assert(rows@.subrange(0, rows@.len() as int) =~= rows@);
    Index { name: n.clone(), columns, is_unique }
}

/// The indexes described by metadata rows `(index, column, non_unique)`, one per
/// index name, in code point order of names.
pub fn indexes_from_rows(rows: &Vec<(String, String, u8)>) -> (r: Vec<Index>)
    ensures
        sorted_as(index_names(r@), row_names(rows@).to_set()),
        forall|k: int|
            0 <= k < r@.len() ==> strs(#[trigger] r@[k].columns@) == index_columns(
                rows@,
                r@[k].name@,
            ) && r@[k].is_unique == (first_flag(rows@, r@[k].name@) == Some(0u8)),
{
    let mut names: Vec<String> = Vec::new();
    let mut i: usize = 0;
    while i < rows.len()
        invariant
            i <= rows@.len(),
            strs(names@) == row_names(rows@.subrange(0, i as int)),
        decreases rows@.len() - i,
    {
        let ghost n0 = strs(names@);
        names.push(rows[i].0.clone());
        assert(strs(names@) =~= n0.push(rows@[i as int].0@));
        assert(row_names(rows@.subrange(0, i + 1)) =~= row_names(rows@.subrange(0, i as int)).push(
            rows@[i as int].0@,
        ));
        i = i + 1;
    }
    assert(rows@.subrange(0, rows@.len() as int) =~= rows@);
    let sorted = sorted_distinct(&names);
    let ghost sn = strs(sorted@);
    let mut r: Vec<Index> = Vec::new();
    let mut j: usize = 0;
    while j < sorted.len()
        invariant
            j <= sorted@.len(),
            sn == strs(sorted@),
            sn.to_set() == row_names(rows@).to_set(),
            index_names(r@) == sn.subrange(0, j as int),
            forall|k: int|
                0 <= k < r@.len() ==> strs(#[trigger] r@[k].columns@) == index_columns(
                    rows@,
                    r@[k].name@,
                ) && r@[k].is_unique == (first_flag(rows@, r@[k].name@) == Some(0u8)),
        decreases sorted@.len() - j,
    {
        proof {
            assert(sn.to_set().contains(sn[j as int]));
            lemma_first_flag_some(rows@, sn[j as int]);
        }
        let ix = gather_index(rows, &sorted[j]);
        let ghost r0 = r@;
        r.push(ix);
        assert(index_names(r@) =~= index_names(r0).push(sn[j as int]));
        assert(sn.subrange(0, j + 1) =~= sn.subrange(0, j as int).push(sn[j as int]));
        assert(r@[j as int] == ix);
        assert forall|k: int| 0 <= k < r@.len() implies strs(#[trigger] r@[k].columns@)
            == index_columns(rows@, r@[k].name@) && r@[k].is_unique == (first_flag(
            rows@,
            r@[k].name@,
        ) == Some(0u8)) by {
            if k < j {
                assert(r@[k] == r0[k]);
            } else {
                assert(ix.name@ == sn[j as int]);
            }
        }
        j = j + 1;
    }
    assert(sn.subrange(0, sn.len() as int) =~= sn);
    r
}

proof fn lemma_first_flag_some(rows: Seq<(String, String, u8)>, n: Seq<char>)
    requires
        row_names(rows).contains(n),
    ensures
        first_flag(rows, n) is Some,
    decreases rows.len(),
{
    let k = choose|k: int| 0 <= k < rows.len() && row_names(rows)[k] == n;
    if rows.last().0@ != n {
        assert(k < rows.len() - 1);
        assert(row_names(rows.drop_last())[k] == n);
        lemma_first_flag_some(rows.drop_last(), n);
    }
}

} // verus!
