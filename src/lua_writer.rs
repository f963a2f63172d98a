//! Renders pre-processed tables as Lua scripts, and what holds of every such script.

use vstd::prelude::*;

use crate::config::Config;
use crate::tw_db_pp::{
    pair_view, pairs_view, render_value, LuaVal, LuaValue, TableData, TableDataV,
    TotalWarDbPreProcessed,
};
use crate::wh2_lua_error::Wh2LuaError;

verus! {

/// `n` levels of indentation, two spaces each.
pub open spec fn indent(n: nat) -> Seq<char>
    decreases n,
{
    if n == 0 {
        Seq::empty()
    } else {
        indent((n - 1) as nat) + "  "@
    }
}

/// `["name"] = value, `
pub open spec fn entry_text(p: (LuaVal, LuaVal)) -> Seq<char> {
    "["@ + render_value(p.0) + "] = "@ + render_value(p.1) + ", "@
}

/// The entries of one row, on one line, in row order.
pub open spec fn entries_text(ps: Seq<(LuaVal, LuaVal)>) -> Seq<char>
    decreases ps.len(),
{
    if ps.len() == 0 {
        Seq::empty()
    } else {
        entries_text(ps.drop_last()) + entry_text(ps.last())
    }
}

/// `[key] = { entries },` at depth `n`.
pub open spec fn kv_line(n: nat, e: (LuaVal, Seq<(LuaVal, LuaVal)>)) -> Seq<char> {
    indent(n) + "["@ + render_value(e.0) + "] = { "@ + entries_text(e.1) + "},\n"@
}

/// `{ entries },` at depth `n`.
pub open spec fn array_line(n: nat, row: Seq<(LuaVal, LuaVal)>) -> Seq<char> {
    indent(n) + "{ "@ + entries_text(row) + "},\n"@
}

pub open spec fn kv_body(n: nat, es: Seq<(LuaVal, Seq<(LuaVal, LuaVal)>)>) -> Seq<char>
    decreases es.len(),
{
    if es.len() == 0 {
        Seq::empty()
    } else {
        kv_body(n, es.drop_last()) + kv_line(n, es.last())
    }
}

pub open spec fn array_body(n: nat, rows: Seq<Seq<(LuaVal, LuaVal)>>) -> Seq<char>
    decreases rows.len(),
{
    if rows.len() == 0 {
        Seq::empty()
    } else {
        array_body(n, rows.drop_last()) + array_line(n, rows.last())
    }
}

/// One line per entry or row, each at depth `n`.
pub open spec fn body_text(n: nat, data: TableDataV) -> Seq<char> {
    match data {
        TableDataV::KeyValue(es) => kv_body(n, es),
        TableDataV::FlatArray(rows) => array_body(n, rows),
    }
}

/// The first line of a guarded script: the result starts out empty.
pub open spec fn guarded_head(c: Seq<char>) -> Seq<char> {
    "local result = nil\n\n"@ + "if vfs.exists(\""@ + c + "\") then\n"@ + indent(1)
        + "result = {\n"@
}

/// The whole script for a table; with a check, the table is only filled when the named
/// resource exists.
pub open spec fn script_text(check: Option<Seq<char>>, data: TableDataV) -> Seq<char> {
    match check {
        Some(c) => guarded_head(c) + body_text(2, data) + indent(1) + "}\n"@ + "end\n"@
            + "\nreturn result"@,
        None => "local result = {\n"@ + body_text(1, data) + "}\n"@ + "\nreturn result"@,
    }
}

pub open spec fn check_view(c: Option<String>) -> Option<Seq<char>> {
    match c {
        Some(s) => Some(s@),
        None => None,
    }
}

/// How often `c` occurs in `s`.
pub open spec fn count_char(s: Seq<char>, c: char) -> nat
    decreases s.len(),
{
    if s.len() == 0 {
        0
    } else {
        count_char(s.drop_last(), c) + if s.last() == c {
            1nat
        } else {
            0nat
        }
    }
}

/// `c` does not occur in `s`.
pub open spec fn free_of(s: Seq<char>, c: char) -> bool {
    count_char(s, c) == 0
}

/// Neither brace occurs in `s`.
pub open spec fn brace_free(s: Seq<char>) -> bool {
    free_of(s, '{') && free_of(s, '}')
}

pub open spec fn value_free_of(v: LuaVal, c: char) -> bool {
    match v {
        LuaVal::Number(s) => free_of(s, c),
        LuaVal::Text(s) => free_of(s, c),
        LuaVal::Boolean(_) => true,
    }
}

pub open spec fn pairs_free_of(ps: Seq<(LuaVal, LuaVal)>, c: char) -> bool {
    forall|i: int| 0 <= i < ps.len() ==> value_free_of(#[trigger] ps[i].0, c) && value_free_of(ps[i].1, c)
}

/// No key, field name or value of the table holds `c`.
pub open spec fn data_free_of(d: TableDataV, c: char) -> bool {
    match d {
        TableDataV::KeyValue(es) => forall|i: int|
            0 <= i < es.len() ==> value_free_of(#[trigger] es[i].0, c) && pairs_free_of(es[i].1, c),
        TableDataV::FlatArray(rows) => forall|i: int|
            0 <= i < rows.len() ==> pairs_free_of(#[trigger] rows[i], c),
    }
}

/// No key, field name or value of the table holds a brace.
pub open spec fn data_brace_free(d: TableDataV) -> bool {
    data_free_of(d, '{') && data_free_of(d, '}')
}

/// The characters that the fixed text of a table body is made of, besides braces.
pub open spec fn body_literals_free_of(c: char) -> bool {
    &&& free_of("["@, c)
    &&& free_of("] = "@, c)
    &&& free_of(", "@, c)
    &&& free_of("  "@, c)
    &&& free_of("\""@, c)
    &&& free_of("true"@, c)
    &&& free_of("false"@, c)
}

proof fn lemma_count_concat(a: Seq<char>, b: Seq<char>, c: char)
    ensures
        count_char(a + b, c) == count_char(a, c) + count_char(b, c),
    decreases b.len(),
{
    if b.len() == 0 {
        assert(a + b =~= a);
    } else {
        assert((a + b).drop_last() =~= a + b.drop_last());
        lemma_count_concat(a, b.drop_last(), c);
    }
}

proof fn lemma_literal_counts()
    ensures
        body_literals_free_of('{'),
        body_literals_free_of('}'),
        body_literals_free_of('('),
        brace_free("local result = nil\n\n"@),
        brace_free("if vfs.exists(\""@),
        brace_free("\") then\n"@),
        brace_free("end\n"@),
        brace_free("\nreturn result"@),
        count_char("] = { "@, '{') == 1 && count_char("] = { "@, '}') == 0,
        count_char("{ "@, '{') == 1 && count_char("{ "@, '}') == 0,
        count_char("},\n"@, '{') == 0 && count_char("},\n"@, '}') == 1,
        count_char("}\n"@, '{') == 0 && count_char("}\n"@, '}') == 1,
        count_char("result = {\n"@, '{') == 1 && count_char("result = {\n"@, '}') == 0,
        count_char("local result = {\n"@, '{') == 1 && count_char("local result = {\n"@, '}') == 0,
        free_of("] = { "@, '('),
        free_of("{ "@, '('),
        free_of("},\n"@, '('),
        free_of("}\n"@, '('),
        free_of("result = {\n"@, '('),
        free_of("local result = {\n"@, '('),
        free_of("local result = nil\n\n"@, '('),
        count_char("if vfs.exists(\""@, '(') == 1,
        free_of("\") then\n"@, '('),
        free_of("end\n"@, '('),
        free_of("\nreturn result"@, '('),
{
    reveal_strlit("[");
    reveal_strlit("] = ");
    reveal_strlit(", ");
    reveal_strlit("  ");
    reveal_strlit("\"");
    reveal_strlit("true");
    reveal_strlit("false");
    reveal_strlit("local result = nil\n\n");
    reveal_strlit("if vfs.exists(\"");
    reveal_strlit("\") then\n");
    reveal_strlit("end\n");
    reveal_strlit("\nreturn result");
    reveal_strlit("] = { ");
    reveal_strlit("{ ");
    reveal_strlit("},\n");
    reveal_strlit("}\n");
    reveal_strlit("result = {\n");
    reveal_strlit("local result = {\n");
    reveal_with_fuel(count_char, 25);
}

proof fn lemma_indent_free(n: nat, c: char)
    requires
        free_of("  "@, c),
    ensures
        free_of(indent(n), c),
    decreases n,
{
    if n > 0 {
        lemma_indent_free((n - 1) as nat, c);
        lemma_count_concat(indent((n - 1) as nat), "  "@, c);
    }
}

proof fn lemma_value_free(v: LuaVal, c: char)
    requires
        value_free_of(v, c),
        body_literals_free_of(c),
    ensures
        free_of(render_value(v), c),
{
    if let LuaVal::Text(s) = v {
        lemma_count_concat("\""@, s, c);
        lemma_count_concat("\""@ + s, "\""@, c);
    }
}

proof fn lemma_concat_free(a: Seq<char>, b: Seq<char>, c: char)
    requires
        free_of(a, c),
        free_of(b, c),
    ensures
        free_of(a + b, c),
{
    lemma_count_concat(a, b, c);
}

proof fn lemma_entries_free(ps: Seq<(LuaVal, LuaVal)>, c: char)
    requires
        pairs_free_of(ps, c),
        body_literals_free_of(c),
    ensures
        free_of(entries_text(ps), c),
    decreases ps.len(),
{
    if ps.len() > 0 {
        let t = ps.drop_last();
        assert forall|i: int| 0 <= i < t.len() implies value_free_of(#[trigger] t[i].0, c)
            && value_free_of(t[i].1, c) by {
            assert(t[i] == ps[i]);
        }
        lemma_entries_free(t, c);
        let p = ps.last();
        assert(ps[ps.len() - 1] == p);
        lemma_value_free(p.0, c);
        lemma_value_free(p.1, c);
        lemma_concat_free("["@, render_value(p.0), c);
        lemma_concat_free("["@ + render_value(p.0), "] = "@, c);
        lemma_concat_free("["@ + render_value(p.0) + "] = "@, render_value(p.1), c);
        lemma_concat_free("["@ + render_value(p.0) + "] = "@ + render_value(p.1), ", "@, c);
        lemma_concat_free(entries_text(t), entry_text(p), c);
    }
}

/// Counts of `c` in a body line, from the counts in its fixed parts.
proof fn lemma_line_count(a: Seq<char>, open: Seq<char>, mid: Seq<char>, close: Seq<char>, c: char)
    requires
        free_of(a, c),
        free_of(mid, c),
    ensures
        count_char(a + open + mid + close, c) == count_char(open, c) + count_char(close, c),
{
    lemma_count_concat(a, open, c);
    lemma_count_concat(a + open, mid, c);
    lemma_count_concat(a + open + mid, close, c);
}

/// Each body line opens and closes one table; a character of no fixed part occurs nowhere.
proof fn lemma_body_count(n: nat, d: TableDataV, c: char)
    requires
        data_free_of(d, c),
        body_literals_free_of(c),
    ensures
        count_char(body_text(n, d), c) == (match d {
            TableDataV::KeyValue(es) => es.len() * (count_char("] = { "@, c) + count_char("},\n"@, c)),
            TableDataV::FlatArray(rows) => rows.len() * (count_char("{ "@, c) + count_char("},\n"@, c)),
        }),
    decreases (match d {
        TableDataV::KeyValue(es) => es.len(),
        TableDataV::FlatArray(rows) => rows.len(),
    }),
{
    lemma_indent_free(n, c);
    match d {
        TableDataV::KeyValue(es) => {
            if es.len() > 0 {
                let t = es.drop_last();
                assert forall|i: int| 0 <= i < t.len() implies value_free_of(#[trigger] t[i].0, c)
                    && pairs_free_of(t[i].1, c) by {
                    assert(t[i] == es[i]);
                }
                lemma_body_count(n, TableDataV::KeyValue(t), c);
                let e = es.last();
                assert(es[es.len() - 1] == e);
                lemma_value_free(e.0, c);
                lemma_entries_free(e.1, c);
                lemma_concat_free(indent(n), "["@, c);
                lemma_concat_free(indent(n) + "["@, render_value(e.0), c);
                lemma_line_count(indent(n) + "["@ + render_value(e.0), "] = { "@, entries_text(e.1), "},\n"@, c);
                lemma_count_concat(kv_body(n, t), kv_line(n, e), c);
                let k = count_char("] = { "@, c) + count_char("},\n"@, c);
                assert(t.len() * k + k == es.len() * k) by (nonlinear_arith)
                    requires
                        t.len() + 1 == es.len(),
                ;
            } else {
                let k = count_char("] = { "@, c) + count_char("},\n"@, c);
                assert(es.len() * k == 0) by (nonlinear_arith)
                    requires
                        es.len() == 0,
                ;
            }
        },
        TableDataV::FlatArray(rows) => {
            if rows.len() > 0 {
                let t = rows.drop_last();
                assert forall|i: int| 0 <= i < t.len() implies pairs_free_of(#[trigger] t[i], c) by {
                    assert(t[i] == rows[i]);
                }
                lemma_body_count(n, TableDataV::FlatArray(t), c);
                let r = rows.last();
                assert(rows[rows.len() - 1] == r);
                lemma_entries_free(r, c);
                lemma_line_count(indent(n), "{ "@, entries_text(r), "},\n"@, c);
                lemma_count_concat(array_body(n, t), array_line(n, r), c);
                let k = count_char("{ "@, c) + count_char("},\n"@, c);
                assert(t.len() * k + k == rows.len() * k) by (nonlinear_arith)
                    requires
                        t.len() + 1 == rows.len(),
                ;
            } else {
                let k = count_char("{ "@, c) + count_char("},\n"@, c);
                assert(rows.len() * k == 0) by (nonlinear_arith)
                    requires
                        rows.len() == 0,
                ;
            }
        },
    }
}

/// How often `c` occurs in a script, from the counts in its parts.
proof fn lemma_script_count(check: Option<Seq<char>>, data: TableDataV, c: char)
    ensures
        check matches Some(g) ==> count_char(script_text(check, data), c) == count_char(
            "local result = nil\n\n"@,
            c,
        ) + count_char("if vfs.exists(\""@, c) + count_char(g, c) + count_char("\") then\n"@, c)
            + 2 * count_char(indent(1), c) + count_char("result = {\n"@, c) + count_char(
            body_text(2, data),
            c,
        ) + count_char("}\n"@, c) + count_char("end\n"@, c) + count_char("\nreturn result"@, c),
        check is None ==> count_char(script_text(check, data), c) == count_char(
            "local result = {\n"@,
            c,
        ) + count_char(body_text(1, data), c) + count_char("}\n"@, c) + count_char(
            "\nreturn result"@,
            c,
        ),
{
    match check {
        Some(g) => {
            let p1 = "local result = nil\n\n"@;
            let p2 = p1 + "if vfs.exists(\""@;
            let p3 = p2 + g;
            let p4 = p3 + "\") then\n"@;
            let p5 = p4 + indent(1);
            let p6 = p5 + "result = {\n"@;
            let p7 = p6 + body_text(2, data);
            let p8 = p7 + indent(1);
            let p9 = p8 + "}\n"@;
            let p10 = p9 + "end\n"@;
            lemma_count_concat(p1, "if vfs.exists(\""@, c);
            lemma_count_concat(p2, g, c);
            lemma_count_concat(p3, "\") then\n"@, c);
            lemma_count_concat(p4, indent(1), c);
            lemma_count_concat(p5, "result = {\n"@, c);
            lemma_count_concat(p6, body_text(2, data), c);
            lemma_count_concat(p7, indent(1), c);
            lemma_count_concat(p8, "}\n"@, c);
            lemma_count_concat(p9, "end\n"@, c);
            lemma_count_concat(p10, "\nreturn result"@, c);
            assert(guarded_head(g) == p6);
        },
        None => {
            let h = "local result = {\n"@;
            lemma_count_concat(h, body_text(1, data), c);
            lemma_count_concat(h + body_text(1, data), "}\n"@, c);
            lemma_count_concat(h + body_text(1, data) + "}\n"@, "\nreturn result"@, c);
        },
    }
}

/// With a check, the script calls `vfs.exists` exactly once; without one, never: counted by
/// its `(`, when no text of the table or check holds one.
pub proof fn lemma_single_guard(check: Option<Seq<char>>, data: TableDataV)
    requires
        data_free_of(data, '('),
        check matches Some(g) ==> free_of(g, '('),
    ensures
        count_char(script_text(check, data), '(') == if check is Some {
            1nat
        } else {
            0nat
        },
{
    lemma_literal_counts();
    lemma_indent_free(1, '(');
    lemma_body_count(body_depth(check), data, '(');
    lemma_script_count(check, data, '(');
    let b = count_char(body_text(body_depth(check), data), '(');
    match data {
        TableDataV::KeyValue(es) => {
            assert(b == 0) by (nonlinear_arith)
                requires
                    b == es.len() * (0nat + 0nat),
            ;
        },
        TableDataV::FlatArray(rows) => {
            assert(b == 0) by (nonlinear_arith)
                requires
                    b == rows.len() * (0nat + 0nat),
            ;
        },
    }
}

/// A script has as many `{` as `}` when no text in it holds a brace.
pub proof fn lemma_braces_balanced(check: Option<Seq<char>>, data: TableDataV)
    requires
        data_brace_free(data),
        check matches Some(c) ==> brace_free(c),
    ensures
        count_char(script_text(check, data), '{') == count_char(script_text(check, data), '}'),
{
    lemma_literal_counts();
    lemma_indent_free(1, '{');
    lemma_indent_free(1, '}');
    lemma_body_count(body_depth(check), data, '{');
    lemma_body_count(body_depth(check), data, '}');
    lemma_script_count(check, data, '{');
    lemma_script_count(check, data, '}');
}

/// The depth of the body lines: one inside the result table, two when also inside the guard.
pub open spec fn body_depth(check: Option<Seq<char>>) -> nat {
    if check is Some {
        2
    } else {
        1
    }
}

/// What comes before the line that opens the result table.
pub open spec fn script_prefix(check: Option<Seq<char>>) -> Seq<char> {
    match check {
        Some(c) => "local result = nil\n\n"@ + "if vfs.exists(\""@ + c + "\") then\n"@,
        None => Seq::empty(),
    }
}

/// The assignment on the line that opens the result table, before its brace.
pub open spec fn result_assign(check: Option<Seq<char>>) -> Seq<char> {
    if check is Some {
        "result = "@
    } else {
        "local result = "@
    }
}

/// What comes after the line that closes the result table.
pub open spec fn script_suffix(check: Option<Seq<char>>) -> Seq<char> {
    if check is Some {
        "end\n"@ + "\nreturn result"@
    } else {
        "\nreturn result"@
    }
}

/// The result table opens one level above its body lines and closes at that same level; the
/// body lines are the entries or rows in order, each at the body's depth.
pub proof fn lemma_nesting_indent(check: Option<Seq<char>>, data: TableDataV)
    ensures
        script_text(check, data) == script_prefix(check) + indent((body_depth(check) - 1) as nat)
            + result_assign(check) + "{\n"@ + body_text(body_depth(check), data) + indent(
            (body_depth(check) - 1) as nat,
        ) + "}\n"@ + script_suffix(check),
        data matches TableDataV::KeyValue(es) ==> forall|i: int|
            0 <= i < es.len() ==> #[trigger] kv_line(body_depth(check), es[i]) == indent(
                body_depth(check),
            ) + "["@ + render_value(es[i].0) + "] = { "@ + entries_text(es[i].1) + "},\n"@,
        data matches TableDataV::FlatArray(rows) ==> forall|i: int|
            0 <= i < rows.len() ==> #[trigger] array_line(body_depth(check), rows[i]) == indent(
                body_depth(check),
            ) + "{ "@ + entries_text(rows[i]) + "},\n"@,
{
    reveal_strlit("result = {\n");
    reveal_strlit("result = ");
    reveal_strlit("local result = {\n");
    reveal_strlit("local result = ");
    reveal_strlit("{\n");
    assert("result = {\n"@ =~= "result = "@ + "{\n"@);
    assert("local result = {\n"@ =~= "local result = "@ + "{\n"@);
    assert(indent(0) =~= Seq::<char>::empty());
    let b = body_text(body_depth(check), data);
    if check is Some {
        let c = check->Some_0;
        assert(script_text(check, data) =~= script_prefix(check) + indent(1) + result_assign(check)
            + "{\n"@ + b + indent(1) + "}\n"@ + script_suffix(check));
    } else {
        assert(script_text(check, data) =~= script_prefix(check) + indent(0) + result_assign(check)
            + "{\n"@ + b + indent(0) + "}\n"@ + script_suffix(check));
    }
}

/// With a check, the script declares an empty result, fills it in one block guarded by the
/// check, and returns it; without one, it fills the result directly and returns it.
pub proof fn lemma_conditional_wrapping(check: Option<Seq<char>>, data: TableDataV)
    ensures
        check matches Some(c) ==> script_text(check, data) == "local result = nil\n\n"@ + (
        "if vfs.exists(\""@ + c + "\") then\n"@ + indent(1) + "result = {\n"@ + body_text(2, data)
            + indent(1) + "}\n"@ + "end\n"@) + "\nreturn result"@,
        check is None ==> script_text(check, data) == "local result = {\n"@ + body_text(1, data)
            + "}\n"@ + "\nreturn result"@,
{
    if check is Some {
        let c = check->Some_0;
        assert(script_text(check, data) =~= "local result = nil\n\n"@ + ("if vfs.exists(\""@ + c
            + "\") then\n"@ + indent(1) + "result = {\n"@ + body_text(2, data) + indent(1) + "}\n"@
            + "end\n"@) + "\nreturn result"@);
    }
}

/// The lines of a flat body split around any row.
pub proof fn lemma_array_body_split(n: nat, a: Seq<Seq<(LuaVal, LuaVal)>>, b: Seq<Seq<(LuaVal, LuaVal)>>)
    ensures
        array_body(n, a + b) == array_body(n, a) + array_body(n, b),
    decreases b.len(),
{
    if b.len() == 0 {
        assert(a + b =~= a);
        assert(array_body(n, a) + Seq::<char>::empty() =~= array_body(n, a));
    } else {
        assert((a + b).drop_last() =~= a + b.drop_last());
        lemma_array_body_split(n, a, b.drop_last());
        assert(array_body(n, a + b) =~= array_body(n, a) + array_body(n, b));
    }
}

/// Writes Lua scripts for pre-processed tables.
pub struct LuaWriter {}

fn push_indent(r: &mut String, n: usize)
    ensures
        final(r)@ == old(r)@ + indent(n as nat),
{
    let mut i: usize = 0;
    while i < n
        invariant
            i <= n,
            r@ == old(r)@ + indent(i as nat),
        decreases n - i,
    {
        r.append("  ");
        proof {
            assert(indent((i + 1) as nat) == indent(i as nat) + "  "@);
            assert(old(r)@ + indent(i as nat) + "  "@ =~= old(r)@ + indent((i + 1) as nat));
        }
        i = i + 1;
    }
}

fn push_entries(r: &mut String, ps: &Vec<(LuaValue, LuaValue)>)
    ensures
        final(r)@ == old(r)@ + entries_text(pairs_view(ps@)),
{
    let mut i: usize = 0;
    while i < ps.len()
        invariant
            i <= ps.len(),
            r@ == old(r)@ + entries_text(pairs_view(ps@).take(i as int)),
        decreases ps.len() - i,
    {
        let e = LuaWriter::lua_key_value_entry(&ps[i].0, &ps[i].1);
        r.append(e.as_str());
        proof {
            let s = pairs_view(ps@);
            assert(s.take(i + 1).drop_last() =~= s.take(i as int));
            assert(s.take(i + 1).last() == pair_view(ps@[i as int]));
            assert(r@ =~= old(r)@ + entries_text(s.take(i + 1)));
        }
        i = i + 1;
    }
    proof {
        assert(pairs_view(ps@).take(ps.len() as int) =~= pairs_view(ps@));
    }
}

impl LuaWriter {
    /// The script for `table_data`, guarded by `config.script_check` when that is set.
    pub fn convert_tw_db_to_lua_script(config: &Config, table_data: &TotalWarDbPreProcessed) -> (r:
        Result<String, Wh2LuaError>)
        ensures
            r is Ok,
            r matches Ok(s) && s@ == script_text(check_view(config.script_check), table_data.data@),
    {
        let mut result = String::new();
        let depth: usize;
        match &config.script_check {
            Some(check) => {
                result.append("local result = nil\n\n");
                result.append("if vfs.exists(\"");
                result.append(check.as_str());
                result.append("\") then\n");
                push_indent(&mut result, 1);
                result.append("result = {\n");
                depth = 2;
            },
            None => {
                result.append("local result = {\n");
                depth = 1;
            },
        }
        let ghost head = result@;
        let body = match &table_data.data {
            TableData::KeyValue(es) => Self::lua_key_value_table(es, depth),
            TableData::FlatArray(rows) => Self::lua_array_table(rows, depth),
        };
        result.append(body.as_str());
        push_indent(&mut result, depth - 1);
        result.append("}\n");
        if config.script_check.is_some() {
            result.append("end\n");
        }
        result.append("\nreturn result");
        proof {
            if config.script_check is Some {
                assert(head =~= guarded_head(config.script_check->Some_0@));
            } else {
                assert(indent(0) =~= Seq::<char>::empty());
            }
            assert(result@ =~= script_text(check_view(config.script_check), table_data.data@));
        }
        Ok(result)
    }

    fn lua_key_value_table(kv_table_data: &Vec<(LuaValue, Vec<(LuaValue, LuaValue)>)>, indent: usize) -> (r:
        String)
        ensures
            r@ == body_text(indent as nat, TableData::KeyValue(*kv_table_data)@),
    {
        let ghost es = TableData::KeyValue(*kv_table_data)@->KeyValue_0;
        let mut result = String::new();
        let mut i: usize = 0;
        while i < kv_table_data.len()
            invariant
                i <= kv_table_data.len(),
                es == TableData::KeyValue(*kv_table_data)@->KeyValue_0,
                result@ == kv_body(indent as nat, es.take(i as int)),
            decreases kv_table_data.len() - i,
        {
            let ghost before = result@;
            push_indent(&mut result, indent);
            result.append("[");
            let k = kv_table_data[i].0.to_lua_value();
            result.append(k.as_str());
            result.append("] = { ");
            push_entries(&mut result, &kv_table_data[i].1);
            result.append("},\n");
            proof {
                assert(es.take(i + 1).drop_last() =~= es.take(i as int));
                assert(es.take(i + 1).last() == es[i as int]);
                assert(result@ =~= before + kv_line(indent as nat, es[i as int]));
            }
            i = i + 1;
        }
        proof {
            assert(es.take(kv_table_data.len() as int) =~= es);
        }
        result
    }

    fn lua_array_table(arr_table_data: &Vec<Vec<(LuaValue, LuaValue)>>, indent: usize) -> (r: String)
        ensures
            r@ == body_text(indent as nat, TableData::FlatArray(*arr_table_data)@),
    {
        let ghost rows = TableData::FlatArray(*arr_table_data)@->FlatArray_0;
        let mut result = String::new();
        let mut i: usize = 0;
        while i < arr_table_data.len()
            invariant
                i <= arr_table_data.len(),
                rows == TableData::FlatArray(*arr_table_data)@->FlatArray_0,
                result@ == array_body(indent as nat, rows.take(i as int)),
            decreases arr_table_data.len() - i,
        {
            let ghost before = result@;
            push_indent(&mut result, indent);
            result.append("{ ");
            push_entries(&mut result, &arr_table_data[i]);
            result.append("},\n");
            proof {
                assert(rows.take(i + 1).drop_last() =~= rows.take(i as int));
                assert(rows.take(i + 1).last() == rows[i as int]);
                assert(result@ =~= before + array_line(indent as nat, rows[i as int]));
            }
            i = i + 1;
        }
        proof {
            assert(rows.take(arr_table_data.len() as int) =~= rows);
        }
        result
    }

    /// `[key] = value, ` for one entry of a row.
    fn lua_key_value_entry(key: &LuaValue, value: &LuaValue) -> (r: String)
        ensures
            r@ == entry_text((key@, value@)),
    {
        let mut r = String::from_str("[");
        let k = key.to_lua_value();
        r.append(k.as_str());
        r.append("] = ");
        let v = value.to_lua_value();
        r.append(v.as_str());
        r.append(", ");
        r
    }
}

} // verus!
