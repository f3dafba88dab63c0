use vstd::prelude::*;

use crate::compare::{
    changed_columns, changed_indexes, changed_tables, column_diff_names, columns_differ,
    common_tables, index_diff_names, indexes_differ, is_column_delta, is_diff_result,
    is_index_delta, is_table_delta, lemma_sorted_as_empty, table_diff_names, table_set,
    tables_differ, ColumnDiff, DiffResult, IndexDiff, Snapshot, TableDiff,
};
use crate::render::{
    column_line, column_parts, index_parts, console_text, index_line, report_text, table_lines, tables_console, tables_html,
};
use crate::schema::{find_column, find_index, find_schema, Column, Index, TableSchema};
use crate::text::{lemma_sorted_unique, strs};

verus! {

/// The tables present only in A, those present in both, and those present only
/// in B are pairwise disjoint and together make up the tables of A and B.
pub proof fn law_table_partition(a: Snapshot, b: Snapshot, d: DiffResult)
    requires
        is_diff_result(a, b, d),
    ensures
        strs(d.only_a@).to_set() + common_tables(a, b) + strs(d.only_b@).to_set() == table_set(a)
            + table_set(b),
        strs(d.only_a@).to_set().disjoint(common_tables(a, b)),
        strs(d.only_b@).to_set().disjoint(common_tables(a, b)),
        strs(d.only_a@).to_set().disjoint(strs(d.only_b@).to_set()),
{
    assert(strs(d.only_a@).to_set() + common_tables(a, b) + strs(d.only_b@).to_set() =~= table_set(
        a,
    ) + table_set(b));
}

/// Swapping the two snapshots swaps the two lists of tables present on one side only.
pub proof fn law_swap_sides(a: Snapshot, b: Snapshot, ab: DiffResult, ba: DiffResult)
    requires
        is_diff_result(a, b, ab),
        is_diff_result(b, a, ba),
    ensures
        strs(ab.only_a@) == strs(ba.only_b@),
        strs(ab.only_b@) == strs(ba.only_a@),
{
    lemma_sorted_unique(strs(ab.only_a@), strs(ba.only_b@));
    lemma_sorted_unique(strs(ab.only_b@), strs(ba.only_a@));
}

/// A comparison of two snapshots is determined by them: the one-sided table lists
/// and the names of the differing tables come out the same in any two results.
pub proof fn law_result_determined(a: Snapshot, b: Snapshot, d1: DiffResult, d2: DiffResult)
    requires
        is_diff_result(a, b, d1),
        is_diff_result(a, b, d2),
    ensures
        strs(d1.only_a@) == strs(d2.only_a@),
        strs(d1.only_b@) == strs(d2.only_b@),
        table_diff_names(d1.tables@) == table_diff_names(d2.tables@),
{
    lemma_sorted_unique(strs(d1.only_a@), strs(d2.only_a@));
    lemma_sorted_unique(strs(d1.only_b@), strs(d2.only_b@));
    lemma_sorted_unique(table_diff_names(d1.tables@), table_diff_names(d2.tables@));
}

/// A table never differs from itself.
pub proof fn law_table_equals_itself(t: TableSchema)
    ensures
        !tables_differ(t, t),
{
    assert(changed_columns(t, t) =~= Set::<Seq<char>>::empty());
    assert(changed_indexes(t, t) =~= Set::<Seq<char>>::empty());
}

/// Comparing a snapshot with an identical copy of it reports no table on one
/// side only and no table difference.
pub proof fn law_identical_no_diff(a: Snapshot, b: Snapshot, d: DiffResult)
    requires
        a.tables@ == b.tables@,
        a.schemas@ == b.schemas@,
        is_diff_result(a, b, d),
    ensures
        d.only_a@.len() == 0,
        d.only_b@.len() == 0,
        d.tables@.len() == 0,
{
    let e = Set::<Seq<char>>::empty();
    assert(table_set(a).difference(table_set(b)) =~= e);
    assert(table_set(b).difference(table_set(a)) =~= e);
    assert forall|t: Seq<char>| !#[trigger] changed_tables(a, b).contains(t) by {
        if common_tables(a, b).contains(t) {
            law_table_equals_itself(find_schema(a.schemas@, t)->0);
        }
    }
    assert(changed_tables(a, b) =~= e);
    lemma_sorted_as_empty(strs(d.only_a@), table_set(a).difference(table_set(b)));
    lemma_sorted_as_empty(strs(d.only_b@), table_set(b).difference(table_set(a)));
    lemma_sorted_as_empty(table_diff_names(d.tables@), changed_tables(a, b));
}

/// A column that differs only in its default is reported with the default alone.
pub proof fn law_default_only(a: Column, b: Column, d: ColumnDiff)
    requires
        a.data_type@ == b.data_type@,
        a.is_nullable == b.is_nullable,
        a@.default != b@.default,
        is_column_delta(a, b, d),
    ensures
        columns_differ(a, b),
        d.data_type is None,
        d.nullable is None,
        d.default is Some,
{
}

/// Two indexes of the same name and uniqueness over the same two columns in
/// opposite orders are reported as differing in their columns, and only there.
pub proof fn law_index_order(a: Index, b: Index, d: IndexDiff, x: Seq<char>, y: Seq<char>)
    requires
        x != y,
        strs(a.columns@) == seq![x, y],
        strs(b.columns@) == seq![y, x],
        a.is_unique == b.is_unique,
        is_index_delta(a, b, d),
    ensures
        indexes_differ(a, b),
        d.columns is Some,
        d.uniqueness is None,
{
    assert(strs(a.columns@)[0] != strs(b.columns@)[0]);
}

proof fn lemma_table_lines_determined(
    a: TableSchema,
    b: TableSchema,
    d1: TableDiff,
    d2: TableDiff,
    env_a: Seq<char>,
    env_b: Seq<char>,
)
    requires
        is_table_delta(a, b, d1),
        is_table_delta(a, b, d2),
    ensures
        d1.name@ == d2.name@,
        table_lines(env_a, env_b, d1) == table_lines(env_a, env_b, d2),
{
    lemma_sorted_unique(strs(d1.columns_only_a@), strs(d2.columns_only_a@));
    lemma_sorted_unique(strs(d1.columns_only_b@), strs(d2.columns_only_b@));
    lemma_sorted_unique(strs(d1.indexes_only_a@), strs(d2.indexes_only_a@));
    lemma_sorted_unique(strs(d1.indexes_only_b@), strs(d2.indexes_only_b@));
    lemma_sorted_unique(column_diff_names(d1.column_diffs@), column_diff_names(d2.column_diffs@));
    lemma_sorted_unique(index_diff_names(d1.index_diffs@), index_diff_names(d2.index_diffs@));
    assert(d1.column_diffs@.len() == column_diff_names(d1.column_diffs@).len());
    assert(d2.column_diffs@.len() == column_diff_names(d2.column_diffs@).len());
    assert(d1.index_diffs@.len() == index_diff_names(d1.index_diffs@).len());
    assert(d2.index_diffs@.len() == index_diff_names(d2.index_diffs@).len());
    let c1 = d1.column_diffs@.map_values(|c: ColumnDiff| column_line(c));
    let c2 = d2.column_diffs@.map_values(|c: ColumnDiff| column_line(c));
    assert(c1 =~= c2) by {
        assert forall|k: int| 0 <= k < c1.len() implies c1[k] == c2[k] by {
            assert(column_diff_names(d1.column_diffs@)[k] == column_diff_names(d2.column_diffs@)[k]);
            let n = d1.column_diffs@[k].name@;
            assert(d2.column_diffs@[k].name@ == n);
            assert(is_column_delta(
                find_column(a.columns@, n)->0,
                find_column(b.columns@, n)->0,
                d1.column_diffs@[k],
            ));
            assert(is_column_delta(
                find_column(a.columns@, n)->0,
                find_column(b.columns@, n)->0,
                d2.column_diffs@[k],
            ));
            assert(column_parts(d1.column_diffs@[k]) =~= column_parts(d2.column_diffs@[k]));
        }
    }
    let i1 = d1.index_diffs@.map_values(|x: IndexDiff| index_line(x));
    let i2 = d2.index_diffs@.map_values(|x: IndexDiff| index_line(x));
    assert(i1 =~= i2) by {
        assert forall|k: int| 0 <= k < i1.len() implies i1[k] == i2[k] by {
            assert(index_diff_names(d1.index_diffs@)[k] == index_diff_names(d2.index_diffs@)[k]);
            let n = d1.index_diffs@[k].name@;
            assert(d2.index_diffs@[k].name@ == n);
            assert(is_index_delta(
                find_index(a.indexes@, n)->0,
                find_index(b.indexes@, n)->0,
                d1.index_diffs@[k],
            ));
            assert(is_index_delta(
                find_index(a.indexes@, n)->0,
                find_index(b.indexes@, n)->0,
                d2.index_diffs@[k],
            ));
            assert(index_parts(d1.index_diffs@[k]) =~= index_parts(d2.index_diffs@[k]));
        }
    }
}

proof fn lemma_tables_rendering_determined(
    a: Snapshot,
    b: Snapshot,
    t1: Seq<TableDiff>,
    t2: Seq<TableDiff>,
    env_a: Seq<char>,
    env_b: Seq<char>,
)
    requires
        table_diff_names(t1) == table_diff_names(t2),
        forall|k: int|
            0 <= k < t1.len() ==> is_table_delta(
                find_schema(a.schemas@, #[trigger] t1[k].name@)->0,
                find_schema(b.schemas@, t1[k].name@)->0,
                t1[k],
            ),
        forall|k: int|
            0 <= k < t2.len() ==> is_table_delta(
                find_schema(a.schemas@, #[trigger] t2[k].name@)->0,
                find_schema(b.schemas@, t2[k].name@)->0,
                t2[k],
            ),
    ensures
        tables_console(env_a, env_b, t1) == tables_console(env_a, env_b, t2),
        tables_html(env_a, env_b, t1) == tables_html(env_a, env_b, t2),
    decreases t1.len(),
{
    assert(t1.len() == table_diff_names(t1).len());
    assert(t2.len() == table_diff_names(t2).len());
    if t1.len() > 0 {
        let n = t1.len() - 1;
        assert(table_diff_names(t1.drop_last()) =~= table_diff_names(t2.drop_last())) by {
            assert forall|k: int| 0 <= k < n implies table_diff_names(t1.drop_last())[k]
                == table_diff_names(t2.drop_last())[k] by {
                assert(table_diff_names(t1)[k] == table_diff_names(t2)[k]);
            }
        }
        assert forall|k: int| 0 <= k < t1.drop_last().len() implies is_table_delta(
            find_schema(a.schemas@, #[trigger] t1.drop_last()[k].name@)->0,
            find_schema(b.schemas@, t1.drop_last()[k].name@)->0,
            t1.drop_last()[k],
        ) by {
            assert(t1.drop_last()[k] == t1[k]);
        }
        assert forall|k: int| 0 <= k < t2.drop_last().len() implies is_table_delta(
            find_schema(a.schemas@, #[trigger] t2.drop_last()[k].name@)->0,
            find_schema(b.schemas@, t2.drop_last()[k].name@)->0,
            t2.drop_last()[k],
        ) by {
            assert(t2.drop_last()[k] == t2[k]);
        }
        lemma_tables_rendering_determined(a, b, t1.drop_last(), t2.drop_last(), env_a, env_b);
        assert(table_diff_names(t1)[n] == table_diff_names(t2)[n]);
        let x = t1[n].name@;
        assert(is_table_delta(find_schema(a.schemas@, x)->0, find_schema(b.schemas@, x)->0, t1[n]));
        assert(is_table_delta(find_schema(a.schemas@, x)->0, find_schema(b.schemas@, x)->0, t2[n]));
        lemma_table_lines_determined(
            find_schema(a.schemas@, x)->0,
            find_schema(b.schemas@, x)->0,
            t1[n],
            t2[n],
            env_a,
            env_b,
        );
    }
}

/// The console lines and the report document of a comparison are determined by
/// the two snapshots and the two environment names: any two results render alike.
pub proof fn law_rendering_determined(
    a: Snapshot,
    b: Snapshot,
    d1: DiffResult,
    d2: DiffResult,
    env_a: Seq<char>,
    env_b: Seq<char>,
)
    requires
        is_diff_result(a, b, d1),
        is_diff_result(a, b, d2),
    ensures
        console_text(env_a, env_b, d1) == console_text(env_a, env_b, d2),
        report_text(env_a, env_b, d1) == report_text(env_a, env_b, d2),
{
    law_result_determined(a, b, d1, d2);
    lemma_tables_rendering_determined(a, b, d1.tables@, d2.tables@, env_a, env_b);
}

} // verus!
