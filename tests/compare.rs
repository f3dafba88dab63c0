use schemr::compare::{compare, diff_column, diff_index, diff_tables, Snapshot, SnapshotError};
use schemr::render::{console_lines, escape_text, report_document, HtmlSection};
use schemr::schema::{Column, Index, TableSchema};

fn s(x: &str) -> String {
    x.to_string()
}

fn col(name: &str, ty: &str, nullable: bool, default: Option<&str>) -> Column {
    Column {
        name: s(name),
        data_type: s(ty),
        is_nullable: nullable,
        default: default.map(|d| d.to_string()),
    }
}

fn idx(name: &str, cols: &[&str], unique: bool) -> Index {
    Index { name: s(name), columns: cols.iter().map(|c| c.to_string()).collect(), is_unique: unique }
}

fn table(name: &str, columns: Vec<Column>, indexes: Vec<Index>) -> TableSchema {
    TableSchema { name: s(name), columns, primary_key: vec![s("id")], indexes }
}

fn users() -> TableSchema {
    table(
        "users",
        vec![col("id", "int(11)", false, None), col("email", "varchar(255)", true, Some(""))],
        vec![idx("email_idx", &["email"], true)],
    )
}

fn snap(env: &str, tables: &[&str], schemas: Vec<TableSchema>) -> Snapshot {
    Snapshot { env: s(env), tables: tables.iter().map(|t| t.to_string()).collect(), schemas }
}

#[test]
fn tables_on_one_side_only_are_summarized() {
    let orders = table("orders", vec![col("id", "int", false, None)], vec![]);
    let invoices = table("invoices", vec![col("id", "int", false, None)], vec![]);
    let qa = snap("qa", &["users", "orders"], vec![users(), orders]);
    let prod = snap("prod", &["users", "invoices"], vec![users(), invoices]);
    let d = compare(&qa, &prod).unwrap();
    assert_eq!(d.only_a, vec![s("orders")]);
    assert_eq!(d.only_b, vec![s("invoices")]);
    assert!(d.tables.is_empty());
    let lines = console_lines(&s("qa"), &s("prod"), &d);
    assert_eq!(
        lines,
        vec![
            s("Comparing 'qa' vs 'prod'..."),
            s("Only in qa: [\"orders\"]"),
            s("Only in prod: [\"invoices\"]"),
        ]
    );
}

#[test]
fn only_the_data_type_is_reported() {
    let a = table("accounts", vec![col("status", "varchar(10)", false, None)], vec![]);
    let b = table("accounts", vec![col("status", "varchar(20)", false, None)], vec![]);
    let d = compare(&snap("a", &["accounts"], vec![a]), &snap("b", &["accounts"], vec![b])).unwrap();
    assert_eq!(d.tables.len(), 1);
    let t = &d.tables[0];
    assert_eq!(t.column_diffs.len(), 1);
    let c = &t.column_diffs[0];
    assert_eq!(c.name, "status");
    assert_eq!(c.data_type, Some((s("varchar(10)"), s("varchar(20)"))));
    assert_eq!(c.nullable, None);
    assert_eq!(c.default, None);
    let lines = console_lines(&s("a"), &s("b"), &d);
    assert_eq!(
        lines,
        vec![
            s("Comparing 'a' vs 'b'..."),
            s(""),
            s("Comparing table: accounts"),
            s("Column differences:"),
            s("  Column 'status': type varchar(10) vs varchar(20)"),
        ]
    );
}

#[test]
fn swapping_sides_swaps_one_sided_tables() {
    let a = snap("a", &["t3", "t1", "t2"], vec![table("t2", vec![], vec![])]);
    let b = snap("b", &["t2", "t4"], vec![table("t2", vec![], vec![])]);
    let ab = compare(&a, &b).unwrap();
    let ba = compare(&b, &a).unwrap();
    assert_eq!(ab.only_a, vec![s("t1"), s("t3")]);
    assert_eq!(ab.only_b, vec![s("t4")]);
    assert_eq!(ab.only_a, ba.only_b);
    assert_eq!(ab.only_b, ba.only_a);
}

#[test]
fn identical_snapshots_have_no_difference() {
    let orders = table("orders", vec![col("id", "int", false, None)], vec![idx("i", &["id"], false)]);
    let a = snap("qa", &["users", "orders"], vec![users(), orders.clone()]);
    let b = snap("qa2", &["users", "orders"], vec![users(), orders]);
    let d = compare(&a, &b).unwrap();
    assert!(d.only_a.is_empty());
    assert!(d.only_b.is_empty());
    assert!(d.tables.is_empty());
}

#[test]
fn a_changed_default_is_reported_alone() {
    let a = col("note", "text", true, None);
    let b = col("note", "text", true, Some(""));
    let d = diff_column(&a, &b).unwrap();
    assert_eq!(d.data_type, None);
    assert_eq!(d.nullable, None);
    assert_eq!(d.default, Some((None, Some(s("")))));
    assert!(diff_column(&a, &a.clone()).is_none());
}

#[test]
fn index_column_order_matters() {
    let a = idx("ab", &["a", "b"], false);
    let b = idx("ab", &["b", "a"], false);
    let d = diff_index(&a, &b).unwrap();
    assert_eq!(d.columns, Some((vec![s("a"), s("b")], vec![s("b"), s("a")])));
    assert_eq!(d.uniqueness, None);
    let c = idx("ab", &["a", "b"], true);
    let e = diff_index(&a, &c).unwrap();
    assert_eq!(e.columns, None);
    assert_eq!(e.uniqueness, Some((false, true)));
}

#[test]
fn repeated_runs_render_the_same() {
    let a = table(
        "t",
        vec![col("x", "int", false, None), col("y", "int", true, None)],
        vec![idx("k", &["x"], true)],
    );
    let b = table("t", vec![col("x", "bigint", true, Some("0")), col("z", "int", true, None)], vec![]);
    let sa = snap("a", &["t", "u"], vec![a]);
    let sb = snap("b", &["t"], vec![b]);
    let d1 = compare(&sa, &sb).unwrap();
    let d2 = compare(&sa, &sb).unwrap();
    assert_eq!(d1, d2);
    assert_eq!(console_lines(&s("a"), &s("b"), &d1), console_lines(&s("a"), &s("b"), &d2));
    assert_eq!(report_document(&s("a"), &s("b"), &d1), report_document(&s("a"), &s("b"), &d2));
}

#[test]
fn table_sections_list_every_kind_of_difference() {
    let a = table(
        "t",
        vec![col("x", "int", false, None), col("y", "int", true, None)],
        vec![idx("k", &["x"], true), idx("m", &["x", "y"], false)],
    );
    let b = table(
        "t",
        vec![col("x", "bigint", true, Some("0")), col("z", "int", true, None)],
        vec![idx("m", &["y", "x"], true), idx("n", &["z"], false)],
    );
    let d = diff_tables(&a, &b);
    assert_eq!(d.columns_only_a, vec![s("y")]);
    assert_eq!(d.columns_only_b, vec![s("z")]);
    assert_eq!(d.indexes_only_a, vec![s("k")]);
    assert_eq!(d.indexes_only_b, vec![s("n")]);
    let lines = console_lines(
        &s("a"),
        &s("b"),
        &compare(&snap("a", &["t"], vec![a]), &snap("b", &["t"], vec![b])).unwrap(),
    );
    assert_eq!(
        lines,
        vec![
            s("Comparing 'a' vs 'b'..."),
            s(""),
            s("Comparing table: t"),
            s("Column differences:"),
            s("  Only in a: [\"y\"]"),
            s("  Only in b: [\"z\"]"),
            s("  Column 'x': type int vs bigint, nullable false vs true, default None vs Some(\"0\")"),
            s("Index differences:"),
            s("  Only in a: [\"k\"]"),
            s("  Only in b: [\"n\"]"),
            s("  Index 'm': columns [\"x\", \"y\"] vs [\"y\", \"x\"], uniqueness false vs true"),
        ]
    );
}

#[test]
fn tables_come_in_code_point_order() {
    let mk = |n: &str, t: &str| table(n, vec![col("c", t, false, None)], vec![]);
    let a = snap("a", &["b", "a", "B"], vec![mk("b", "x"), mk("a", "x"), mk("B", "x")]);
    let b = snap("b", &["a", "b", "B", "a"], vec![mk("a", "y"), mk("b", "y"), mk("B", "y")]);
    let d = compare(&a, &b).unwrap();
    let names: Vec<String> = d.tables.iter().map(|t| t.name.clone()).collect();
    assert_eq!(names, vec![s("B"), s("a"), s("b")]);
}

#[test]
fn a_missing_table_document_is_corrupt() {
    let a = snap("qa", &["users"], vec![]);
    let b = snap("prod", &["users"], vec![users()]);
    assert_eq!(
        compare(&a, &b),
        Err(SnapshotError::CorruptSnapshot { env: s("qa"), table: s("users") })
    );
    let c = snap("prod", &["users"], vec![]);
    let e = snap("qa", &["users"], vec![users()]);
    assert_eq!(
        compare(&e, &c),
        Err(SnapshotError::CorruptSnapshot { env: s("prod"), table: s("users") })
    );
}

#[test]
fn duplicate_column_names_are_corrupt() {
    let bad = table("users", vec![col("id", "int", false, None), col("id", "int", false, None)], vec![]);
    let a = snap("qa", &["users"], vec![users()]);
    let b = snap("prod", &["users"], vec![bad]);
    assert_eq!(
        compare(&a, &b),
        Err(SnapshotError::CorruptSnapshot { env: s("prod"), table: s("users") })
    );
    let dup_idx = table("users", vec![], vec![idx("i", &["a"], false), idx("i", &["b"], false)]);
    assert!(!dup_idx.is_well_formed());
    assert!(users().is_well_formed());
}

#[test]
fn a_table_on_one_side_only_is_never_loaded() {
    let a = snap("qa", &["users", "ghost"], vec![users()]);
    let b = snap("prod", &["users"], vec![users()]);
    let d = compare(&a, &b).unwrap();
    assert_eq!(d.only_a, vec![s("ghost")]);
}

#[test]
fn report_escapes_markup() {
    let a = table("t<1>", vec![col("c", "a&b", false, None)], vec![]);
    let b = table("t<1>", vec![col("c", "x", false, None)], vec![]);
    let d = compare(&snap("a", &["t<1>"], vec![a]), &snap("b", &["t<1>"], vec![b])).unwrap();
    let doc = report_document(&s("a"), &s("b"), &d);
    let expected = String::new()
        + "<!DOCTYPE html><html><head><meta charset=\"utf-8\"><title>Schema Diff Report</title></head><body>"
        + "<details open><summary><strong>Summary</strong></summary><pre></pre></details>"
        + "<details open><summary><strong>t&lt;1&gt;</strong></summary><pre>"
        + "Comparing table: t&lt;1&gt;\nColumn differences:\n  Column &#39;c&#39;: type a&amp;b vs x\n"
        + "</pre></details></body></html>";
    assert_eq!(doc, expected);
}

#[test]
fn section_markup() {
    let sec = HtmlSection::new(s("Summary"), s("Only in a: [\"x\"]\n"));
    assert_eq!(
        sec.to_html(),
        "<details open><summary><strong>Summary</strong></summary><pre>Only in a: [&quot;x&quot;]\n</pre></details>"
    );
}

#[test]
fn quoting_escapes_quotes_and_backslashes() {
    assert_eq!(escape_text("a\"b\\c\nd", false), "a\\\"b\\\\c\\nd");
    assert_eq!(escape_text("plain", true), "plain");
}
