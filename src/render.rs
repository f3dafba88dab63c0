use vstd::prelude::*;

use crate::compare::{ColumnDiff, DiffResult, IndexDiff, TableDiff};
use crate::schema::opt_view;
use crate::text::strs;

verus! {

/// What one character becomes: in markup (`html`), or inside a quoted string.
pub open spec fn escape_char(c: char, html: bool) -> Seq<char> {
    if html {
        if c == '&' {
            "&amp;"@
        } else if c == '<' {
            "&lt;"@
        } else if c == '>' {
            "&gt;"@
        } else if c == '"' {
            "&quot;"@
        } else if c == '\'' {
            "&#39;"@
        } else {
            seq![c]
        }
    } else {
        if c == '"' {
            "\\\""@
        } else if c == '\\' {
            "\\\\"@
        } else if c == '\n' {
            "\\n"@
        } else if c == '\r' {
            "\\r"@
        } else if c == '\t' {
            "\\t"@
        } else {
            seq![c]
        }
    }
}

/// `s` with each character escaped.
pub open spec fn escaped(s: Seq<char>, html: bool) -> Seq<char>
    decreases s.len(),
{
    if s.len() == 0 {
        Seq::empty()
    } else {
        escaped(s.drop_last(), html) + escape_char(s.last(), html)
    }
}

/// `s` between double quotes, escaped.
pub open spec fn quoted(s: Seq<char>) -> Seq<char> {
    "\""@ + escaped(s, false) + "\""@
}

/// The parts, with `sep` between each two.
pub open spec fn joined(parts: Seq<Seq<char>>, sep: Seq<char>) -> Seq<char>
    decreases parts.len(),
{
    if parts.len() == 0 {
        Seq::empty()
    } else if parts.len() == 1 {
        parts[0]
    } else {
        joined(parts.drop_last(), sep) + sep + parts.last()
    }
}

/// A list of names, each quoted, between brackets.
pub open spec fn list_text(items: Seq<Seq<char>>) -> Seq<char> {
    "["@ + joined(items.map_values(|s: Seq<char>| quoted(s)), ", "@) + "]"@
}

pub open spec fn opt_text(o: Option<Seq<char>>) -> Seq<char> {
    match o {
        Some(s) => "Some("@ + quoted(s) + ")"@,
        None => "None"@,
    }
}

pub open spec fn bool_text(b: bool) -> Seq<char> {
    if b {
        "true"@
    } else {
        "false"@
    }
}

/// The differing fields of a column entry, in the order type, nullability, default.
pub open spec fn column_parts(d: ColumnDiff) -> Seq<Seq<char>> {
    (match d.data_type {
        Some((x, y)) => seq!["type "@ + x@ + " vs "@ + y@],
        None => Seq::empty(),
    }) + (match d.nullable {
        Some((x, y)) => seq!["nullable "@ + bool_text(x) + " vs "@ + bool_text(y)],
        None => Seq::empty(),
    }) + (match d.default {
        Some((x, y)) => seq!["default "@ + opt_text(opt_view(x)) + " vs "@ + opt_text(opt_view(y))],
        None => Seq::empty(),
    })
}

pub open spec fn column_line(d: ColumnDiff) -> Seq<char> {
    "  Column '"@ + d.name@ + "': "@ + joined(column_parts(d), ", "@)
}

/// The differing fields of an index entry, in the order columns, uniqueness.
pub open spec fn index_parts(d: IndexDiff) -> Seq<Seq<char>> {
    (match d.columns {
        Some((x, y)) => seq!["columns "@ + list_text(strs(x@)) + " vs "@ + list_text(strs(y@))],
        None => Seq::empty(),
    }) + (match d.uniqueness {
        Some((x, y)) => seq!["uniqueness "@ + bool_text(x) + " vs "@ + bool_text(y)],
        None => Seq::empty(),
    })
}

pub open spec fn index_line(d: IndexDiff) -> Seq<char> {
    "  Index '"@ + d.name@ + "': "@ + joined(index_parts(d), ", "@)
}

/// The line naming what only `env` has, or nothing when it has nothing of its own.
pub open spec fn only_lines(indent: Seq<char>, env: Seq<char>, items: Seq<Seq<char>>) -> Seq<
    Seq<char>,
> {
    if items.len() == 0 {
        Seq::empty()
    } else {
        seq![indent + "Only in "@ + env + ": "@ + list_text(items)]
    }
}

/// The summary: the tables that only one environment has.
pub open spec fn summary_lines(env_a: Seq<char>, env_b: Seq<char>, d: DiffResult) -> Seq<
    Seq<char>,
> {
    only_lines(""@, env_a, strs(d.only_a@)) + only_lines(""@, env_b, strs(d.only_b@))
}

/// The lines of one table's section: a heading, then the column and index
/// differences, each group under a heading of its own and indented by two.
pub open spec fn table_lines(env_a: Seq<char>, env_b: Seq<char>, t: TableDiff) -> Seq<Seq<char>> {
    let column_entries = only_lines("  "@, env_a, strs(t.columns_only_a@)) + only_lines(
        "  "@,
        env_b,
        strs(t.columns_only_b@),
    ) + t.column_diffs@.map_values(|c: ColumnDiff| column_line(c));
    let index_entries = only_lines("  "@, env_a, strs(t.indexes_only_a@)) + only_lines(
        "  "@,
        env_b,
        strs(t.indexes_only_b@),
    ) + t.index_diffs@.map_values(|x: IndexDiff| index_line(x));
    seq!["Comparing table: "@ + t.name@] + (if column_entries.len() == 0 {
        Seq::empty()
    } else {
        seq!["Column differences:"@] + column_entries
    }) + (if index_entries.len() == 0 {
        Seq::empty()
    } else {
        seq!["Index differences:"@] + index_entries
    })
}

/// The sections of the tables, each after a blank line.
pub open spec fn tables_console(env_a: Seq<char>, env_b: Seq<char>, ts: Seq<TableDiff>) -> Seq<
    Seq<char>,
>
    decreases ts.len(),
{
    if ts.len() == 0 {
        Seq::empty()
    } else {
        tables_console(env_a, env_b, ts.drop_last()) + seq![Seq::empty()] + table_lines(
            env_a,
            env_b,
            ts.last(),
        )
    }
}

/// The console rendering of a comparison of `env_a` with `env_b`.
pub open spec fn console_text(env_a: Seq<char>, env_b: Seq<char>, d: DiffResult) -> Seq<Seq<char>> {
    seq!["Comparing '"@ + env_a + "' vs '"@ + env_b + "'..."@] + summary_lines(env_a, env_b, d)
        + tables_console(env_a, env_b, d.tables@)
}

/// Each line followed by a line break.
pub open spec fn lines_text(ls: Seq<Seq<char>>) -> Seq<char>
    decreases ls.len(),
{
    if ls.len() == 0 {
        Seq::empty()
    } else {
        lines_text(ls.drop_last()) + ls.last() + "\n"@
    }
}

/// One collapsible section of the report.
pub open spec fn section_html(title: Seq<char>, body: Seq<char>) -> Seq<char> {
    "<details open><summary><strong>"@ + escaped(title, true) + "</strong></summary><pre>"@
        + escaped(body, true) + "</pre></details>"@
}

/// The sections of the tables, in order.
pub open spec fn tables_html(env_a: Seq<char>, env_b: Seq<char>, ts: Seq<TableDiff>) -> Seq<char>
    decreases ts.len(),
{
    if ts.len() == 0 {
        Seq::empty()
    } else {
        tables_html(env_a, env_b, ts.drop_last()) + section_html(
            ts.last().name@,
            lines_text(table_lines(env_a, env_b, ts.last())),
        )
    }
}

/// The report document: the summary section, then one section per table.
pub open spec fn report_text(env_a: Seq<char>, env_b: Seq<char>, d: DiffResult) -> Seq<char> {
    "<!DOCTYPE html><html><head><meta charset=\"utf-8\"><title>Schema Diff Report</title></head><body>"@
        + section_html("Summary"@, lines_text(summary_lines(env_a, env_b, d))) + tables_html(
        env_a,
        env_b,
        d.tables@,
    ) + "</body></html>"@
}

/// Escapes each character of `s`, for markup when `html` holds, else for a quoted string.
pub fn escape_text(s: &str, html: bool) -> (r: String)
    ensures
        r@ == escaped(s@, html),
{
    let n = s.unicode_len();
    let mut r = String::new();
    let mut i: usize = 0;
    while i < n
        invariant
            n == s@.len(),
            i <= n,
            r@ == escaped(s@.subrange(0, i as int), html),
        decreases n - i,
    {
        let c = s.get_char(i);
        if html && c == '&' {
            r.append("&amp;");
        } else if html && c == '<' {
            r.append("&lt;");
        } else if html && c == '>' {
            r.append("&gt;");
        } else if html && c == '"' {
            r.append("&quot;");
        } else if html && c == '\'' {
            r.append("&#39;");
        } else if !html && c == '"' {
            r.append("\\\"");
        } else if !html && c == '\\' {
            r.append("\\\\");
        } else if !html && c == '\n' {
            r.append("\\n");
        } else if !html && c == '\r' {
            r.append("\\r");
        } else if !html && c == '\t' {
            r.append("\\t");
        } else {
            let one = s.substring_char(i, i + 1);
            assert(one@ =~= seq![c]);
            r.append(one);
        }
        assert(s@.subrange(0, i + 1).drop_last() =~= s@.subrange(0, i as int));
        i = i + 1;
    }
    assert(s@.subrange(0, n as int) =~= s@);
    r
}

/// `s` quoted and escaped.
pub fn quote(s: &String) -> (r: String)
    ensures
        r@ == quoted(s@),
{
    let mut r = String::from_str("\"");
    let e = escape_text(s.as_str(), false);
    r.append(e.as_str());
    r.append("\"");
    r
}

/// The parts with `sep` between each two.
pub fn join_with(parts: &Vec<String>, sep: &str) -> (r: String)
    ensures
        r@ == joined(strs(parts@), sep@),
{
    let ghost ps = strs(parts@);
    let mut r = String::new();
    let mut i: usize = 0;
    while i < parts.len()
        invariant
            ps == strs(parts@),
            i <= parts@.len(),
            r@ == joined(ps.subrange(0, i as int), sep@),
        decreases parts@.len() - i,
    {
        if i > 0 {
            r.append(sep);
        }
        r.append(parts[i].as_str());
        assert(ps.subrange(0, i + 1).drop_last() =~= ps.subrange(0, i as int));
        if i == 0 {
            assert(r@ =~= ps[0]);
        }
        i = i + 1;
    }
    assert(ps.subrange(0, ps.len() as int) =~= ps);
    r
}

/// A list of names, each quoted, between brackets.
pub fn list_of(items: &Vec<String>) -> (r: String)
    ensures
        r@ == list_text(strs(items@)),
{
    let mut qs: Vec<String> = Vec::new();
    let mut i: usize = 0;
    while i < items.len()
        invariant
            i <= items@.len(),
            strs(qs@) == strs(items@).subrange(0, i as int).map_values(|s: Seq<char>| quoted(s)),
        decreases items@.len() - i,
    {
        let ghost q0 = qs@;
        qs.push(quote(&items[i]));
        assert(strs(qs@) =~= strs(q0).push(quoted(items@[i as int]@)));
        assert(strs(items@).subrange(0, i + 1).map_values(|s: Seq<char>| quoted(s)) =~= strs(
            items@,
        ).subrange(0, i as int).map_values(|s: Seq<char>| quoted(s)).push(
            quoted(items@[i as int]@),
        ));
        i = i + 1;
    }
    assert(strs(items@).subrange(0, items@.len() as int) =~= strs(items@));
    let mut r = String::from_str("[");
    let j = join_with(&qs, ", ");
    r.append(j.as_str());
    r.append("]");
    r
}

fn opt_of(o: &Option<String>) -> (r: String)
    ensures
        r@ == opt_text(opt_view(*o)),
{
    match o {
        Some(s) => {
            let mut r = String::from_str("Some(");
            let q = quote(s);
            r.append(q.as_str());
            r.append(")");
            r
        },
        None => String::from_str("None"),
    }
}

fn bool_of(b: bool) -> (r: String)
    ensures
        r@ == bool_text(b),
{
    if b {
        String::from_str("true")
    } else {
        String::from_str("false")
    }
}

/// `head` followed by `x`, `" vs "` and `y`.
fn versus(head: &str, x: &str, y: &str) -> (r: String)
    ensures
        r@ == head@ + x@ + " vs "@ + y@,
{
    let mut r = String::from_str(head);
    r.append(x);
    r.append(" vs ");
    r.append(y);
    r
}

/// The console line of a column entry.
pub fn column_line_of(d: &ColumnDiff) -> (r: String)
    ensures
        r@ == column_line(*d),
{
    let mut parts: Vec<String> = Vec::new();
    match &d.data_type {
        Some((x, y)) => parts.push(versus("type ", x.as_str(), y.as_str())),
        None => {},
    }
    match &d.nullable {
        Some((x, y)) => {
            let bx = bool_of(*x);
            let by = bool_of(*y);
            parts.push(versus("nullable ", bx.as_str(), by.as_str()));
        },
        None => {},
    }
    match &d.default {
        Some((x, y)) => {
            let ox = opt_of(x);
            let oy = opt_of(y);
            parts.push(versus("default ", ox.as_str(), oy.as_str()));
        },
        None => {},
    }
    assert(strs(parts@) =~= column_parts(*d));
    let mut r = String::from_str("  Column '");
    r.append(d.name.as_str());
    r.append("': ");
    let j = join_with(&parts, ", ");
    r.append(j.as_str());
    r
}

/// The console line of an index entry.
pub fn index_line_of(d: &IndexDiff) -> (r: String)
    ensures
        r@ == index_line(*d),
{
    let mut parts: Vec<String> = Vec::new();
    match &d.columns {
        Some((x, y)) => {
            let lx = list_of(x);
            let ly = list_of(y);
            parts.push(versus("columns ", lx.as_str(), ly.as_str()));
        },
        None => {},
    }
    match &d.uniqueness {
        Some((x, y)) => {
            let bx = bool_of(*x);
            let by = bool_of(*y);
            parts.push(versus("uniqueness ", bx.as_str(), by.as_str()));
        },
        None => {},
    }
    assert(strs(parts@) =~= index_parts(*d));
    let mut r = String::from_str("  Index '");
    r.append(d.name.as_str());
    r.append("': ");
    let j = join_with(&parts, ", ");
    r.append(j.as_str());
    r
}

/// Appends the lines of `more` to `out`.
fn append_lines(out: &mut Vec<String>, more: Vec<String>)
    ensures
        strs(final(out)@) == strs(old(out)@) + strs(more@),
{
    let mut more = more;
    let ghost m = strs(more@);
    let ghost o = strs(out@);
    out.append(&mut more);
    assert(strs(out@) =~= o + m);
}

/// Appends the line naming what only `env` has, if it has anything.
fn push_only_line(out: &mut Vec<String>, indent: &str, env: &String, items: &Vec<String>)
    ensures
        strs(final(out)@) == strs(old(out)@) + only_lines(indent@, env@, strs(items@)),
{
    let ghost o = strs(out@);
    if items.len() == 0 {
        assert(strs(out@) =~= o + only_lines(indent@, env@, strs(items@)));
    } else {
        let mut line = String::from_str(indent);
        line.append("Only in ");
        line.append(env.as_str());
        line.append(": ");
        let l = list_of(items);
        line.append(l.as_str());
        out.push(line);
        assert(strs(out@) =~= o + only_lines(indent@, env@, strs(items@)));
    }
}

/// The summary lines: the tables that only one environment has.
pub fn summary_lines_of(env_a: &String, env_b: &String, d: &DiffResult) -> (r: Vec<String>)
    ensures
        strs(r@) == summary_lines(env_a@, env_b@, *d),
{
    let mut r: Vec<String> = Vec::new();
    push_only_line(&mut r, "", env_a, &d.only_a);
    push_only_line(&mut r, "", env_b, &d.only_b);
    assert(strs(r@) =~= summary_lines(env_a@, env_b@, *d));
    r
}

fn column_entries(env_a: &String, env_b: &String, t: &TableDiff) -> (r: Vec<String>)
    ensures
        strs(r@) == only_lines("  "@, env_a@, strs(t.columns_only_a@)) + only_lines(
            "  "@,
            env_b@,
            strs(t.columns_only_b@),
        ) + t.column_diffs@.map_values(|c: ColumnDiff| column_line(c)),
{
    let mut r: Vec<String> = Vec::new();
    push_only_line(&mut r, "  ", env_a, &t.columns_only_a);
    push_only_line(&mut r, "  ", env_b, &t.columns_only_b);
    let ghost base = strs(r@);
    let mut i: usize = 0;
    while i < t.column_diffs.len()
        invariant
            i <= t.column_diffs@.len(),
            strs(r@) == base + t.column_diffs@.subrange(0, i as int).map_values(
                |c: ColumnDiff| column_line(c),
            ),
        decreases t.column_diffs@.len() - i,
    {
        let ghost r0 = strs(r@);
        r.push(column_line_of(&t.column_diffs[i]));
        assert(t.column_diffs@.subrange(0, i + 1).map_values(|c: ColumnDiff| column_line(c))
            =~= t.column_diffs@.subrange(0, i as int).map_values(|c: ColumnDiff| column_line(c)).push(
            column_line(t.column_diffs@[i as int]),
        ));
        assert(strs(r@) =~= r0.push(column_line(t.column_diffs@[i as int])));
        i = i + 1;
    }
    assert(t.column_diffs@.subrange(0, t.column_diffs@.len() as int) =~= t.column_diffs@);
    r
}

fn index_entries(env_a: &String, env_b: &String, t: &TableDiff) -> (r: Vec<String>)
    ensures
        strs(r@) == only_lines("  "@, env_a@, strs(t.indexes_only_a@)) + only_lines(
            "  "@,
            env_b@,
            strs(t.indexes_only_b@),
        ) + t.index_diffs@.map_values(|x: IndexDiff| index_line(x)),
{
    let mut r: Vec<String> = Vec::new();
    push_only_line(&mut r, "  ", env_a, &t.indexes_only_a);
    push_only_line(&mut r, "  ", env_b, &t.indexes_only_b);
    let ghost base = strs(r@);
    let mut i: usize = 0;
    while i < t.index_diffs.len()
        invariant
            i <= t.index_diffs@.len(),
            strs(r@) == base + t.index_diffs@.subrange(0, i as int).map_values(
                |x: IndexDiff| index_line(x),
            ),
        decreases t.index_diffs@.len() - i,
    {
        let ghost r0 = strs(r@);
        r.push(index_line_of(&t.index_diffs[i]));
        assert(t.index_diffs@.subrange(0, i + 1).map_values(|x: IndexDiff| index_line(x))
            =~= t.index_diffs@.subrange(0, i as int).map_values(|x: IndexDiff| index_line(x)).push(
            index_line(t.index_diffs@[i as int]),
        ));
        assert(strs(r@) =~= r0.push(index_line(t.index_diffs@[i as int])));
        i = i + 1;
    }
    assert(t.index_diffs@.subrange(0, t.index_diffs@.len() as int) =~= t.index_diffs@);
    r
}

/// The lines of one table's section.
pub fn table_lines_of(env_a: &String, env_b: &String, t: &TableDiff) -> (r: Vec<String>)
    ensures
        strs(r@) == table_lines(env_a@, env_b@, *t),
{
    let mut r: Vec<String> = Vec::new();
    let mut head = String::from_str("Comparing table: ");
    head.append(t.name.as_str());
    r.push(head);
    let ghost r0 = strs(r@);
    assert(r0 =~= seq!["Comparing table: "@ + t.name@]);
    let ce = column_entries(env_a, env_b, t);
    let ghost cs = strs(ce@);
    assert(cs.len() == ce@.len());
    if ce.len() > 0 {
        r.push(String::from_str("Column differences:"));
        append_lines(&mut r, ce);
        assert(strs(r@) =~= r0 + (seq!["Column differences:"@] + cs));
    } else {
        assert(strs(r@) =~= r0 + Seq::<Seq<char>>::empty());
    }
    let ghost r1 = strs(r@);
    let ie = index_entries(env_a, env_b, t);
    let ghost is = strs(ie@);
    assert(is.len() == ie@.len());
    if ie.len() > 0 {
        r.push(String::from_str("Index differences:"));
        append_lines(&mut r, ie);
        assert(strs(r@) =~= r1 + (seq!["Index differences:"@] + is));
    } else {
        assert(strs(r@) =~= r1 + Seq::<Seq<char>>::empty());
    }
    r
}

/// The console rendering of a comparison of `env_a` with `env_b`, line by line.
pub fn console_lines(env_a: &String, env_b: &String, d: &DiffResult) -> (r: Vec<String>)
    ensures
        strs(r@) == console_text(env_a@, env_b@, *d),
{
    let mut r: Vec<String> = Vec::new();
    let mut head = String::from_str("Comparing '");
    head.append(env_a.as_str());
    head.append("' vs '");
    head.append(env_b.as_str());
    head.append("'...");
    r.push(head);
    append_lines(&mut r, summary_lines_of(env_a, env_b, d));
    let ghost base = strs(r@);
    let mut i: usize = 0;
    assert(tables_console(env_a@, env_b@, d.tables@.subrange(0, 0)) =~= Seq::<Seq<char>>::empty());
    assert(base =~= base + tables_console(env_a@, env_b@, d.tables@.subrange(0, 0)));
    while i < d.tables.len()
        invariant
            i <= d.tables@.len(),
            strs(r@) == base + tables_console(env_a@, env_b@, d.tables@.subrange(0, i as int)),
        decreases d.tables@.len() - i,
    {
        let ghost r0 = strs(r@);
        r.push(String::new());
        assert(strs(r@) =~= r0 + seq![Seq::<char>::empty()]);
        let ghost r1 = strs(r@);
        let tl = table_lines_of(env_a, env_b, &d.tables[i]);
        append_lines(&mut r, tl);
        assert(d.tables@.subrange(0, i + 1).drop_last() =~= d.tables@.subrange(0, i as int));
        assert(d.tables@.subrange(0, i + 1).last() == d.tables@[i as int]);
        assert(strs(r@) == r0 + seq![Seq::<char>::empty()] + table_lines(env_a@, env_b@, d.tables@[i as int]));
        assert(strs(r@) =~= base + tables_console(env_a@, env_b@, d.tables@.subrange(0, i + 1)));
        i = i + 1;
    }
    assert(d.tables@.subrange(0, d.tables@.len() as int) =~= d.tables@);
    assert(strs(r@) =~= console_text(env_a@, env_b@, *d));
    r
}

/// The lines, each followed by a line break.
pub fn lines_text_of(ls: &Vec<String>) -> (r: String)
    ensures
        r@ == lines_text(strs(ls@)),
{
    let ghost s = strs(ls@);
    let mut r = String::new();
    let mut i: usize = 0;
    assert(lines_text(s.subrange(0, 0)) =~= Seq::<char>::empty());
    while i < ls.len()
        invariant
            s == strs(ls@),
            i <= ls@.len(),
            r@ == lines_text(s.subrange(0, i as int)),
        decreases ls@.len() - i,
    {
        r.append(ls[i].as_str());
        r.append("\n");
        assert(s.subrange(0, i + 1).drop_last() =~= s.subrange(0, i as int));
        i = i + 1;
    }
    assert(s.subrange(0, s.len() as int) =~= s);
    r
}

/// One collapsible section of the report: a title and a preformatted body.
pub struct HtmlSection {
    pub title: String,
    pub body: String,
}

impl HtmlSection {
    pub fn new(title: String, body: String) -> (r: Self)
        ensures
            r.title == title,
            r.body == body,
    {
        HtmlSection { title, body }
    }

    /// The section as markup, with title and body escaped.
    pub fn to_html(&self) -> (r: String)
        ensures
            r@ == section_html(self.title@, self.body@),
    {
        let mut r = String::from_str("<details open><summary><strong>");
        let t = escape_text(self.title.as_str(), true);
        r.append(t.as_str());
        r.append("</strong></summary><pre>");
        let b = escape_text(self.body.as_str(), true);
        r.append(b.as_str());
        r.append("</pre></details>");
        r
    }
}

/// The report document of a comparison of `env_a` with `env_b`.
pub fn report_document(env_a: &String, env_b: &String, d: &DiffResult) -> (r: String)
    ensures
        r@ == report_text(env_a@, env_b@, *d),
{
    let mut r = String::from_str(
        "<!DOCTYPE html><html><head><meta charset=\"utf-8\"><title>Schema Diff Report</title></head><body>",
    );
    let summary = HtmlSection::new(
        String::from_str("Summary"),
        lines_text_of(&summary_lines_of(env_a, env_b, d)),
    );
    let sh = summary.to_html();
    r.append(sh.as_str());
    let ghost base = r@;
    let mut i: usize = 0;
    assert(tables_html(env_a@, env_b@, d.tables@.subrange(0, 0)) =~= Seq::<char>::empty());
    assert(base =~= base + tables_html(env_a@, env_b@, d.tables@.subrange(0, 0)));
    while i < d.tables.len()
        invariant
            i <= d.tables@.len(),
            r@ == base + tables_html(env_a@, env_b@, d.tables@.subrange(0, i as int)),
        decreases d.tables@.len() - i,
    {
        let t = &d.tables[i];
        let section = HtmlSection::new(
            t.name.clone(),
            lines_text_of(&table_lines_of(env_a, env_b, t)),
        );
        let html = section.to_html();
        r.append(html.as_str());
        assert(d.tables@.subrange(0, i + 1).drop_last() =~= d.tables@.subrange(0, i as int));
        assert(r@ =~= base + tables_html(env_a@, env_b@, d.tables@.subrange(0, i + 1)));
        i = i + 1;
    }
    assert(d.tables@.subrange(0, d.tables@.len() as int) =~= d.tables@);
    r.append("</body></html>");
    r
}

} // verus!
