//! From decoded tables to pre-processed ones: shape selection, cell normalization, script
//! paths, and the conversion of all table files of a source.

use vstd::prelude::*;

use crate::config::Config;
use crate::decimal::{int_text, int_to_text};
use crate::lua_writer::{
    array_body, array_line, body_depth, check_view, indent, lemma_array_body_split,
    lemma_nesting_indent, result_assign, script_prefix, script_suffix, script_text,
};
use crate::tw_db_pp::{
    compare_text, compare_values, lemma_val_lt_strict, lemma_val_lt_trans, pair_view, pairs_view,
    path_view, val_lt, LuaVal, LuaValue, PreprocessedV, TableData, TableDataV,
    TotalWarDbPreProcessed,
};
use crate::util::{db_relative, get_parent_folder_name, parent_folder, strip_db_prefix_from_path};
use crate::wh2_lua_error::{Wh2LuaError, Wh2LuaErrorV};

verus! {

/// A column of a decoded table.
#[derive(Debug, Clone)]
pub struct Field {
    pub name: String,
    /// The column is (part of) the table's key.
    pub is_key: bool,
}

/// One decoded cell, as the database decoder typed it. Floating-point cells carry the
/// decoder's own decimal text of the value.
#[derive(Debug, Clone)]
pub enum DecodedData {
    Boolean(bool),
    F32(String),
    F64(String),
    I16(i16),
    I32(i32),
    I64(i64),
    ColourRGB(String),
    StringU8(String),
    StringU16(String),
    OptionalI16(i16),
    OptionalI32(i32),
    OptionalI64(i64),
    OptionalStringU8(String),
    OptionalStringU16(String),
    /// A nested list of records, still encoded.
    SequenceU16(Vec<u8>),
    SequenceU32(Vec<u8>),
}

/// A decoded table: its schema name, its columns, and its rows of cells.
#[derive(Debug, Clone)]
pub struct DecodedTable {
    pub table_name: String,
    pub fields: Vec<Field>,
    pub rows: Vec<Vec<DecodedData>>,
}

/// How the rows of a table are laid out in its script.
#[derive(Debug, Clone, Copy, PartialEq, Eq, Structural)]
pub enum TableShape {
    KeyValue,
    FlatArray,
}

/// Each row has one cell per field.
pub open spec fn table_wf(fields: Seq<Field>, rows: Seq<Vec<DecodedData>>) -> bool {
    forall|i: int| 0 <= i < rows.len() ==> (#[trigger] rows[i])@.len() == fields.len()
}

/// The number of key fields.
pub open spec fn key_count(fields: Seq<Field>) -> nat
    decreases fields.len(),
{
    if fields.len() == 0 {
        0
    } else {
        key_count(fields.drop_last()) + if fields.last().is_key {
            1nat
        } else {
            0nat
        }
    }
}

/// The shape for a table with these fields: keyed by value iff exactly one field is a key.
pub open spec fn shape_of(fields: Seq<Field>) -> TableShape {
    if key_count(fields) == 1 {
        TableShape::KeyValue
    } else {
        TableShape::FlatArray
    }
}

pub open spec fn is_first_key(fields: Seq<Field>, k: int) -> bool {
    &&& 0 <= k < fields.len()
    &&& fields[k].is_key
    &&& forall|j: int| 0 <= j < k ==> !(#[trigger] fields[j]).is_key
}

/// The position of the first key field.
pub open spec fn key_index(fields: Seq<Field>) -> int {
    choose|k: int| is_first_key(fields, k)
}

/// The scalar value of a cell; none for nested records.
pub open spec fn norm(d: DecodedData) -> Option<LuaVal> {
    match d {
        DecodedData::Boolean(b) => Some(LuaVal::Boolean(b)),
        DecodedData::F32(s) => Some(LuaVal::Number(s@)),
        DecodedData::F64(s) => Some(LuaVal::Number(s@)),
        DecodedData::I16(n) => Some(LuaVal::Number(int_text(n as int))),
        DecodedData::I32(n) => Some(LuaVal::Number(int_text(n as int))),
        DecodedData::I64(n) => Some(LuaVal::Number(int_text(n as int))),
        DecodedData::OptionalI16(n) => Some(LuaVal::Number(int_text(n as int))),
        DecodedData::OptionalI32(n) => Some(LuaVal::Number(int_text(n as int))),
        DecodedData::OptionalI64(n) => Some(LuaVal::Number(int_text(n as int))),
        DecodedData::ColourRGB(s) => Some(LuaVal::Text(s@)),
        DecodedData::StringU8(s) => Some(LuaVal::Text(s@)),
        DecodedData::StringU16(s) => Some(LuaVal::Text(s@)),
        DecodedData::OptionalStringU8(s) => Some(LuaVal::Text(s@)),
        DecodedData::OptionalStringU16(s) => Some(LuaVal::Text(s@)),
        DecodedData::SequenceU16(_) => None,
        DecodedData::SequenceU32(_) => None,
    }
}

/// Every cell of the row has a scalar value.
pub open spec fn row_ok(row: Seq<DecodedData>) -> bool {
    forall|j: int| 0 <= j < row.len() ==> (#[trigger] norm(row[j])) is Some
}

/// Every cell of the table has a scalar value.
pub open spec fn cells_ok(rows: Seq<Vec<DecodedData>>) -> bool {
    forall|i: int| 0 <= i < rows.len() ==> row_ok((#[trigger] rows[i])@)
}

/// Cell `j` is the first cell of the row that has no scalar value.
pub open spec fn first_bad_in_row(row: Seq<DecodedData>, j: int) -> bool {
    &&& 0 <= j < row.len()
    &&& norm(row[j]) is None
    &&& forall|j2: int| 0 <= j2 < j ==> (#[trigger] norm(row[j2])) is Some
}

/// Cell `j` of row `i` is the first cell, rows first, that has no scalar value.
pub open spec fn is_first_bad(rows: Seq<Vec<DecodedData>>, i: int, j: int) -> bool {
    &&& 0 <= i < rows.len()
    &&& 0 <= j < rows[i]@.len()
    &&& norm(rows[i]@[j]) is None
    &&& forall|i2: int| 0 <= i2 < i ==> row_ok((#[trigger] rows[i2])@)
    &&& forall|j2: int| 0 <= j2 < j ==> (#[trigger] norm(rows[i]@[j2])) is Some
}

/// A row as (field name as text, value) entries, in column order.
pub open spec fn row_pairs(fields: Seq<Field>, row: Seq<DecodedData>) -> Seq<(LuaVal, LuaVal)> {
    Seq::new(fields.len(), |j: int| (LuaVal::Text(fields[j].name@), norm(row[j])->Some_0))
}

/// `es` with `(k, v)` put at its place by key, replacing an entry of the same key.
pub open spec fn sorted_insert(
    es: Seq<(LuaVal, Seq<(LuaVal, LuaVal)>)>,
    k: LuaVal,
    v: Seq<(LuaVal, LuaVal)>,
) -> Seq<(LuaVal, Seq<(LuaVal, LuaVal)>)>
    decreases es.len(),
{
    if es.len() == 0 {
        seq![(k, v)]
    } else if es[0].0 == k {
        seq![(k, v)] + es.drop_first()
    } else if val_lt(k, es[0].0) {
        seq![(k, v)] + es
    } else {
        seq![es[0]] + sorted_insert(es.drop_first(), k, v)
    }
}

/// Keys strictly ascending.
pub open spec fn keys_sorted(es: Seq<(LuaVal, Seq<(LuaVal, LuaVal)>)>) -> bool {
    forall|i: int, j: int| 0 <= i < j < es.len() ==> val_lt(es[i].0, es[j].0)
}

/// The key-value entries of a single-key table: each row in turn stored under its key.
pub open spec fn kv_entries(fields: Seq<Field>, rows: Seq<Vec<DecodedData>>) -> Seq<
    (LuaVal, Seq<(LuaVal, LuaVal)>),
>
    decreases rows.len(),
{
    if rows.len() == 0 {
        Seq::empty()
    } else {
        let row = rows.last()@;
        sorted_insert(
            kv_entries(fields, rows.drop_last()),
            norm(row[key_index(fields)])->Some_0,
            row_pairs(fields, row),
        )
    }
}

/// The rows of a flat table, in input order.
pub open spec fn flat_rows(fields: Seq<Field>, rows: Seq<Vec<DecodedData>>) -> Seq<
    Seq<(LuaVal, LuaVal)>,
> {
    rows.map_values(|r: Vec<DecodedData>| row_pairs(fields, r@))
}

/// The normalized data of a table whose cells all have scalar values.
pub open spec fn table_data_spec(fields: Seq<Field>, rows: Seq<Vec<DecodedData>>) -> TableDataV {
    if shape_of(fields) == TableShape::KeyValue {
        TableDataV::KeyValue(kv_entries(fields, rows))
    } else {
        TableDataV::FlatArray(flat_rows(fields, rows))
    }
}

/// What the decoder made of one table file.
#[derive(Debug, Clone)]
pub enum DbDecodeOutcome {
    Decoded(DecodedTable),
    /// The schema has no definition for the table.
    MissingDefinition,
    /// Any other failure; the decoder's message.
    Failed(String),
}

/// A table file of a source: its path (inside a packfile, or on disk) and what the decoder
/// made of it.
#[derive(Debug, Clone)]
pub struct DbFile {
    pub path: Vec<String>,
    pub outcome: DbDecodeOutcome,
}

/// Where a source's table files come from.
#[derive(Debug, Clone)]
pub enum SourceKind {
    /// A packfile, by the stem of its file name.
    Packfile(String),
    /// A directory of extracted `<db>/<table>/<file>` files.
    ExtractedDir,
}

/// A table file that was left out, or stood in for by an empty table, and why.
#[derive(Debug, Clone)]
pub struct TableWarning {
    pub file_name: String,
    pub reason: Wh2LuaError,
}

/// The tables made from one source, in file order, and the warnings on its other files.
#[derive(Debug, Clone)]
pub struct ProcessedSource {
    pub tables: Vec<TotalWarDbPreProcessed>,
    pub warnings: Vec<TableWarning>,
}

/// What becomes of one table file.
pub enum FileResult {
    Table(PreprocessedV),
    /// An empty stand-in table, with a warning.
    Stub(PreprocessedV, (Seq<char>, Wh2LuaErrorV)),
    /// The file is left out, with a warning.
    Skip((Seq<char>, Wh2LuaErrorV)),
    /// The whole run stops.
    Fatal(Wh2LuaErrorV),
}

pub open spec fn opt_str_view(o: Option<&str>) -> Option<Seq<char>> {
    match o {
        Some(s) => Some(s@),
        None => None,
    }
}

/// The script path of a table file: `lua_db/<folder>/<table>/<name>.lua`. Core data files
/// (named `data__`) go to `core` for the base game; for a mod they go to `mod_core` and
/// their name gets the override prefix or else the source's stem, with `_`; without either
/// there is no path.
pub open spec fn script_path_spec(
    base_mod: bool,
    prefix: Option<Seq<char>>,
    stem: Option<Seq<char>>,
    table: Seq<char>,
    file: Seq<char>,
) -> Option<Seq<Seq<char>>> {
    if file == "data__"@ {
        if base_mod {
            Some(seq!["lua_db"@, "core"@, table, file + ".lua"@])
        } else if prefix is Some {
            Some(seq!["lua_db"@, "mod_core"@, table, prefix->Some_0 + "_"@ + file + ".lua"@])
        } else if stem is Some {
            Some(seq!["lua_db"@, "mod_core"@, table, stem->Some_0 + "_"@ + file + ".lua"@])
        } else {
            None
        }
    } else {
        Some(seq!["lua_db"@, "mod"@, table, file + ".lua"@])
    }
}

/// The field of the first cell, rows first, that holds a nested record.
pub open spec fn first_bad_field(t: DecodedTable) -> Seq<char> {
    let (i, j) = choose|i: int, j: int| is_first_bad(t.rows@, i, j);
    t.fields@[j].name@
}

/// The table made from decoded data, or a warning that it holds nested records.
pub open spec fn converted(t: DecodedTable, path: Seq<Seq<char>>, name: Seq<char>) -> FileResult {
    if cells_ok(t.rows@) {
        FileResult::Table(
            PreprocessedV {
                table_name: t.table_name@,
                path,
                data: table_data_spec(t.fields@, t.rows@),
            },
        )
    } else {
        FileResult::Skip((name, Wh2LuaErrorV::UnsupportedFieldKind(first_bad_field(t))))
    }
}

/// What becomes of one table file of a source.
pub open spec fn file_result(config: Config, kind: SourceKind, f: DbFile) -> FileResult {
    let p = path_view(f.path@);
    let name = p.last();
    let prefix = check_view(config.mod_core_prefix);
    match kind {
        SourceKind::Packfile(stem) => match f.outcome {
            DbDecodeOutcome::Failed(m) => FileResult::Skip((name, Wh2LuaErrorV::RpfmError(m@))),
            DbDecodeOutcome::MissingDefinition => FileResult::Skip(
                (name, Wh2LuaErrorV::MissingSchemaDefinition(name)),
            ),
            DbDecodeOutcome::Decoded(t) => match script_path_spec(
                config.base_mod,
                prefix,
                Some(stem@),
                t.table_name@,
                name,
            ) {
                None => FileResult::Fatal(Wh2LuaErrorV::AmbiguousCorePrefix(t.table_name@)),
                Some(sp) => converted(t, sp, name),
            },
        },
        SourceKind::ExtractedDir => {
            let rel = db_relative(p);
            match parent_folder(rel) {
                None => FileResult::Fatal(
                    Wh2LuaErrorV::ConfigError(
                        "Unable to get parent folder name for path: "@ + crate::util::joined(rel),
                    ),
                ),
                Some(table) => match script_path_spec(config.base_mod, prefix, None, table, name) {
                    None => FileResult::Fatal(Wh2LuaErrorV::AmbiguousCorePrefix(table)),
                    Some(sp) => match f.outcome {
                        DbDecodeOutcome::Failed(m) => FileResult::Fatal(Wh2LuaErrorV::RpfmError(m@)),
                        DbDecodeOutcome::MissingDefinition => FileResult::Stub(
                            PreprocessedV {
                                table_name: table,
                                path: sp,
                                data: TableDataV::FlatArray(seq![Seq::empty()]),
                            },
                            (name, Wh2LuaErrorV::MissingSchemaDefinition(table)),
                        ),
                        DbDecodeOutcome::Decoded(t) => converted(t, sp, name),
                    },
                },
            }
        },
    }
}

/// The tables and warnings of a source's files, in file order; or the first fatal error.
pub open spec fn process_spec(config: Config, kind: SourceKind, files: Seq<DbFile>) -> Result<
    (Seq<PreprocessedV>, Seq<(Seq<char>, Wh2LuaErrorV)>),
    Wh2LuaErrorV,
>
    decreases files.len(),
{
    if files.len() == 0 {
        Ok((Seq::empty(), Seq::empty()))
    } else {
        match process_spec(config, kind, files.drop_last()) {
            Err(e) => Err(e),
            Ok((ts, ws)) => match file_result(config, kind, files.last()) {
                FileResult::Table(t) => Ok((ts.push(t), ws)),
                FileResult::Stub(t, w) => Ok((ts.push(t), ws.push(w))),
                FileResult::Skip(w) => Ok((ts, ws.push(w))),
                FileResult::Fatal(e) => Err(e),
            },
        }
    }
}

/// Each file has a path, and each decoded table one cell per field in each row.
pub open spec fn files_wf(files: Seq<DbFile>) -> bool {
    forall|i: int|
        0 <= i < files.len() ==> (#[trigger] files[i]).path@.len() > 0 && (files[i].outcome matches DbDecodeOutcome::Decoded(t) ==> table_wf(t.fields@, t.rows@))
}

pub open spec fn warning_view(w: TableWarning) -> (Seq<char>, Wh2LuaErrorV) {
    (w.file_name@, w.reason@)
}

/// One file's outcome, as values.
enum FileStep {
    Table(TotalWarDbPreProcessed),
    Stub(TotalWarDbPreProcessed, TableWarning),
    Skip(TableWarning),
    Fatal(Wh2LuaError),
}

spec fn step_view(s: FileStep) -> FileResult {
    match s {
        FileStep::Table(t) => FileResult::Table(t@),
        FileStep::Stub(t, w) => FileResult::Stub(t@, warning_view(w)),
        FileStep::Skip(w) => FileResult::Skip(warning_view(w)),
        FileStep::Fatal(e) => FileResult::Fatal(e@),
    }
}

/// Once processing fails, processing more files fails the same way.
proof fn lemma_process_spec_err_prefix(config: Config, kind: SourceKind, files: Seq<DbFile>, n: int)
    requires
        0 <= n <= files.len(),
        process_spec(config, kind, files.take(n)) is Err,
    ensures
        process_spec(config, kind, files) == process_spec(config, kind, files.take(n)),
    decreases files.len() - n,
{
    if n < files.len() {
        let t = files.take(n + 1);
        assert(t.drop_last() =~= files.take(n));
        lemma_process_spec_err_prefix(config, kind, files, n + 1);
    } else {
        assert(files.take(n) =~= files);
    }
}

proof fn lemma_first_bad_unique(rows: Seq<Vec<DecodedData>>, i: int, j: int, i2: int, j2: int)
    requires
        is_first_bad(rows, i, j),
        is_first_bad(rows, i2, j2),
    ensures
        i == i2 && j == j2,
{
    if i < i2 {
        assert(row_ok(rows[i]@));
    } else if i2 < i {
        assert(row_ok(rows[i2]@));
    } else if j < j2 {
        assert(norm(rows[i]@[j]) is Some);
    } else if j2 < j {
        assert(norm(rows[i]@[j2]) is Some);
    }
}

proof fn lemma_key_count_remove(fields: Seq<Field>, j: int)
    requires
        0 <= j < fields.len(),
    ensures
        key_count(fields) == key_count(fields.remove(j)) + if fields[j].is_key {
            1nat
        } else {
            0nat
        },
    decreases fields.len(),
{
    if j == fields.len() - 1 {
        assert(fields.remove(j) =~= fields.drop_last());
    } else {
        let r = fields.remove(j);
        assert(r.drop_last() =~= fields.drop_last().remove(j));
        assert(r.last() == fields.last());
        lemma_key_count_remove(fields.drop_last(), j);
    }
}

/// The shape of a table does not depend on the order of its fields.
pub proof fn lemma_shape_ignores_field_order(f1: Seq<Field>, f2: Seq<Field>)
    requires
        f1.to_multiset() == f2.to_multiset(),
    ensures
        key_count(f1) == key_count(f2),
        shape_of(f1) == shape_of(f2),
    decreases f1.len(),
{
    broadcast use vstd::seq_lib::group_to_multiset_ensures;

    if f1.len() == 0 {
        assert(f2.to_multiset().len() == 0);
        assert(f2.len() == 0);
    } else {
        let x = f1.last();
        let n = f1.len() - 1;
        assert(f1.to_multiset().count(x) > 0) by {
            assert(f1.contains(x)) by {
                assert(f1[n] == x);
            }
        }
        assert(f2.contains(x));
        let j = choose|j: int| 0 <= j < f2.len() && f2[j] == x;
        assert(f1.remove(n) =~= f1.drop_last());
        assert(f1.remove(n).to_multiset() == f1.to_multiset().remove(f1[n]));
        assert(f2.remove(j).to_multiset() == f2.to_multiset().remove(f2[j]));
        lemma_shape_ignores_field_order(f1.drop_last(), f2.remove(j));
        lemma_key_count_remove(f2, j);
    }
}

/// Of two rows with the same key, only the second is kept.
pub proof fn lemma_last_row_wins(fields: Seq<Field>, r1: Vec<DecodedData>, r2: Vec<DecodedData>)
    requires
        shape_of(fields) == TableShape::KeyValue,
        table_wf(fields, seq![r1, r2]),
        cells_ok(seq![r1, r2]),
        norm(r1@[key_index(fields)]) == norm(r2@[key_index(fields)]),
    ensures
        kv_entries(fields, seq![r1, r2]) == seq![
            (norm(r2@[key_index(fields)])->Some_0, row_pairs(fields, r2@)),
        ],
{
    let rows = seq![r1, r2];
    assert(rows.drop_last() =~= seq![r1]);
    assert(seq![r1].drop_last() =~= Seq::<Vec<DecodedData>>::empty());
    let k = norm(r1@[key_index(fields)])->Some_0;
    assert(seq![r1].last() == r1);
    assert(rows.last() == r2);
    assert(kv_entries(fields, Seq::<Vec<DecodedData>>::empty()) == Seq::<
        (LuaVal, Seq<(LuaVal, LuaVal)>),
    >::empty());
    assert(kv_entries(fields, seq![r1]) == sorted_insert(Seq::empty(), k, row_pairs(fields, r1@)));
    assert(kv_entries(fields, seq![r1]) =~= seq![(k, row_pairs(fields, r1@))]);
    assert(seq![(k, row_pairs(fields, r1@))].drop_first() =~= Seq::<
        (LuaVal, Seq<(LuaVal, LuaVal)>),
    >::empty());
    assert(kv_entries(fields, rows) =~= seq![(k, row_pairs(fields, r2@))]);
}

proof fn lemma_sorted_insert_elems(
    es: Seq<(LuaVal, Seq<(LuaVal, LuaVal)>)>,
    k: LuaVal,
    v: Seq<(LuaVal, LuaVal)>,
    x: int,
)
    requires
        0 <= x < sorted_insert(es, k, v).len(),
    ensures
        sorted_insert(es, k, v)[x] == (k, v) || es.contains(sorted_insert(es, k, v)[x]),
    decreases es.len(),
{
    if es.len() > 0 {
        let s = sorted_insert(es, k, v);
        if es[0].0 == k {
            if x > 0 {
                assert(s[x] == es[x]);
            }
        } else if val_lt(k, es[0].0) {
            if x > 0 {
                assert(s[x] == es[x - 1]);
            }
        } else if x == 0 {
            assert(s[0] == es[0]);
        } else {
            let t = es.drop_first();
            lemma_sorted_insert_elems(t, k, v, x - 1);
            assert(s[x] == sorted_insert(t, k, v)[x - 1]);
            if t.contains(s[x]) {
                let y = choose|y: int| 0 <= y < t.len() && t[y] == s[x];
                assert(es[y + 1] == s[x]);
            }
        }
    }
}

/// Each entry of a key-value table holds the (field name, value) entries of one input row,
/// in column order.
pub proof fn lemma_entries_keep_column_order(fields: Seq<Field>, rows: Seq<Vec<DecodedData>>, x: int)
    requires
        0 <= x < kv_entries(fields, rows).len(),
    ensures
        exists|i: int|
            0 <= i < rows.len() && kv_entries(fields, rows)[x].1 == row_pairs(
                fields,
                (#[trigger] rows[i])@,
            ),
    decreases rows.len(),
{
    let es = kv_entries(fields, rows.drop_last());
    let row = rows.last()@;
    let k = norm(row[key_index(fields)])->Some_0;
    lemma_sorted_insert_elems(es, k, row_pairs(fields, row), x);
    let e = kv_entries(fields, rows)[x];
    if e == (k, row_pairs(fields, row)) {
        assert(rows[rows.len() - 1] == rows.last());
    } else {
        let y = choose|y: int| 0 <= y < es.len() && es[y] == e;
        lemma_entries_keep_column_order(fields, rows.drop_last(), y);
        let i = choose|i: int|
            0 <= i < rows.drop_last().len() && es[y].1 == row_pairs(
                fields,
                (#[trigger] rows.drop_last()[i])@,
            );
        assert(rows[i] == rows.drop_last()[i]);
    }
}

/// Rows keep their columns' order: entry `j` of a row is field `j` with cell `j`'s value.
pub proof fn lemma_row_pairs_column_order(fields: Seq<Field>, row: Seq<DecodedData>, j: int)
    requires
        0 <= j < fields.len(),
    ensures
        row_pairs(fields, row)[j] == (LuaVal::Text(fields[j].name@), norm(row[j])->Some_0),
{
}

/// A flat table's script holds one line per input row, in input order: the lines of the
/// rows before row `i`, then row `i`'s line, then the lines of the rows after it.
pub proof fn lemma_rows_keep_input_order(
    check: Option<Seq<char>>,
    fields: Seq<Field>,
    rows: Seq<Vec<DecodedData>>,
    i: int,
)
    requires
        shape_of(fields) == TableShape::FlatArray,
        0 <= i < rows.len(),
    ensures
        script_text(check, table_data_spec(fields, rows)) == script_prefix(check) + indent(
            (body_depth(check) - 1) as nat,
        ) + result_assign(check) + "{\n"@ + (array_body(
            body_depth(check),
            flat_rows(fields, rows.take(i)),
        ) + array_line(body_depth(check), row_pairs(fields, rows[i]@)) + array_body(
            body_depth(check),
            flat_rows(fields, rows.skip(i + 1)),
        )) + indent((body_depth(check) - 1) as nat) + "}\n"@ + script_suffix(check),
{
    let n = body_depth(check);
    let all = flat_rows(fields, rows);
    let pre = flat_rows(fields, rows.take(i));
    let post = flat_rows(fields, rows.skip(i + 1));
    assert(all =~= pre + seq![row_pairs(fields, rows[i]@)] + post);
    lemma_array_body_split(n, pre + seq![row_pairs(fields, rows[i]@)], post);
    lemma_array_body_split(n, pre, seq![row_pairs(fields, rows[i]@)]);
    let one = seq![row_pairs(fields, rows[i]@)];
    assert(one.drop_last() =~= Seq::<Seq<(LuaVal, LuaVal)>>::empty());
    assert(one.last() == row_pairs(fields, rows[i]@));
    assert(array_body(n, one.drop_last()) == Seq::<char>::empty());
    assert(array_body(n, one) =~= array_line(n, row_pairs(fields, rows[i]@)));
    lemma_nesting_indent(check, table_data_spec(fields, rows));
}

proof fn lemma_sorted_insert_at(
    es: Seq<(LuaVal, Seq<(LuaVal, LuaVal)>)>,
    k: LuaVal,
    v: Seq<(LuaVal, LuaVal)>,
    p: int,
)
    requires
        0 <= p <= es.len(),
        forall|i: int| 0 <= i < p ==> val_lt(#[trigger] es[i].0, k),
        p < es.len() ==> es[p].0 == k || val_lt(k, es[p].0),
    ensures
        p < es.len() && es[p].0 == k ==> sorted_insert(es, k, v) == es.take(p) + seq![(k, v)]
            + es.skip(p + 1),
        !(p < es.len() && es[p].0 == k) ==> sorted_insert(es, k, v) == es.take(p) + seq![(k, v)]
            + es.skip(p),
    decreases p,
{
    if p == 0 {
        assert(es.take(0) + seq![(k, v)] + es.skip(1) =~= seq![(k, v)] + es.drop_first());
        assert(es.take(0) + seq![(k, v)] + es.skip(0) =~= seq![(k, v)] + es);
    } else {
        lemma_val_lt_strict(es[0].0, k);
        let t = es.drop_first();
        assert forall|i: int| 0 <= i < p - 1 implies val_lt(#[trigger] t[i].0, k) by {
            assert(t[i] == es[i + 1]);
        }
        lemma_sorted_insert_at(t, k, v, p - 1);
        if p < es.len() {
            assert(seq![es[0]] + (t.take(p - 1) + seq![(k, v)] + t.skip(p)) =~= es.take(p) + seq![
                (k, v),
            ] + es.skip(p + 1));
        }
        assert(seq![es[0]] + (t.take(p - 1) + seq![(k, v)] + t.skip(p - 1)) =~= es.take(p) + seq![
            (k, v),
        ] + es.skip(p));
    }
}

proof fn lemma_first_key_unique(fields: Seq<Field>, k: int)
    requires
        is_first_key(fields, k),
    ensures
        key_index(fields) == k,
{
    let c = key_index(fields);
    assert(is_first_key(fields, c));
    if c < k {
        assert(!fields[c].is_key);
    } else if k < c {
        assert(!fields[k].is_key);
    }
}

proof fn lemma_no_keys(fields: Seq<Field>)
    requires
        forall|j: int| 0 <= j < fields.len() ==> !(#[trigger] fields[j]).is_key,
    ensures
        key_count(fields) == 0,
    decreases fields.len(),
{
    if fields.len() > 0 {
        let t = fields.drop_last();
        assert forall|j: int| 0 <= j < t.len() implies !(#[trigger] t[j]).is_key by {
            assert(t[j] == fields[j]);
        }
        lemma_no_keys(t);
    }
}

fn copy_value(v: &LuaValue) -> (r: LuaValue)
    ensures
        r@ == v@,
{
    match v {
        LuaValue::Number(s) => LuaValue::Number(s.clone()),
        LuaValue::Text(s) => LuaValue::Text(s.clone()),
        LuaValue::Boolean(b) => LuaValue::Boolean(*b),
    }
}

/// Turns decoded tables into pre-processed ones.
pub struct Rpfm;

impl Rpfm {
    /// Keyed by value when exactly one field is a key, flat otherwise.
    pub fn classify_shape(fields: &Vec<Field>) -> (r: TableShape)
        ensures
            r == shape_of(fields@),
    {
        let mut count: usize = 0;
        let mut i: usize = 0;
        while i < fields.len()
            invariant
                i <= fields.len(),
                count == key_count(fields@.take(i as int)),
                count <= i,
            decreases fields.len() - i,
        {
            proof {
                assert(fields@.take(i + 1).drop_last() =~= fields@.take(i as int));
            }
            if fields[i].is_key {
                count = count + 1;
            }
            i = i + 1;
        }
        proof {
            assert(fields@.take(fields.len() as int) =~= fields@);
        }
        if count == 1 {
            TableShape::KeyValue
        } else {
            TableShape::FlatArray
        }
    }

    /// The scalar value of a cell, or none for a nested record.
    pub fn decoded_data_to_lua_value(data: &DecodedData) -> (r: Option<LuaValue>)
        ensures
            r is Some <==> norm(*data) is Some,
            r matches Some(v) ==> v@ == norm(*data)->Some_0,
    {
        match data {
            DecodedData::Boolean(b) => Some(LuaValue::Boolean(*b)),
            DecodedData::F32(s) => Some(LuaValue::Number(s.clone())),
            DecodedData::F64(s) => Some(LuaValue::Number(s.clone())),
            DecodedData::I16(n) => Some(LuaValue::Number(int_to_text(*n as i64))),
            DecodedData::I32(n) => Some(LuaValue::Number(int_to_text(*n as i64))),
            DecodedData::I64(n) => Some(LuaValue::Number(int_to_text(*n))),
            DecodedData::OptionalI16(n) => Some(LuaValue::Number(int_to_text(*n as i64))),
            DecodedData::OptionalI32(n) => Some(LuaValue::Number(int_to_text(*n as i64))),
            DecodedData::OptionalI64(n) => Some(LuaValue::Number(int_to_text(*n))),
            DecodedData::ColourRGB(s) => Some(LuaValue::Text(s.clone())),
            DecodedData::StringU8(s) => Some(LuaValue::Text(s.clone())),
            DecodedData::StringU16(s) => Some(LuaValue::Text(s.clone())),
            DecodedData::OptionalStringU8(s) => Some(LuaValue::Text(s.clone())),
            DecodedData::OptionalStringU16(s) => Some(LuaValue::Text(s.clone())),
            DecodedData::SequenceU16(_) => None,
            DecodedData::SequenceU32(_) => None,
        }
    }

    /// A row's (field name, value) entries, or the name of the field of its first nested
    /// cell.
    fn normalize_row(fields: &Vec<Field>, row: &Vec<DecodedData>) -> (r: Result<
        Vec<(LuaValue, LuaValue)>,
        Wh2LuaError,
    >)
        requires
            row@.len() == fields@.len(),
        ensures
            r is Ok <==> row_ok(row@),
            r matches Ok(ps) ==> pairs_view(ps@) == row_pairs(fields@, row@),
            r matches Err(e) ==> exists|j: int|
                #[trigger] first_bad_in_row(row@, j) && e == Wh2LuaError::UnsupportedFieldKind(
                    fields@[j].name,
                ),
    {
        let mut ps: Vec<(LuaValue, LuaValue)> = Vec::new();
        let mut j: usize = 0;
        while j < fields.len()
            invariant
                row@.len() == fields@.len(),
                j <= fields.len(),
                forall|j2: int| 0 <= j2 < j ==> (#[trigger] norm(row@[j2])) is Some,
                pairs_view(ps@) == row_pairs(fields@, row@).take(j as int),
            decreases fields.len() - j,
        {
            match Self::decoded_data_to_lua_value(&row[j]) {
                Some(v) => {
                    let ghost old_ps = ps@;
                    let name = fields[j].name.clone();
                    let p = (LuaValue::Text(name), v);
                    ps.push(p);
                    proof {
                        assert(ps@ == old_ps.push(p));
                        assert(pairs_view(ps@) =~= pairs_view(old_ps).push(pair_view(p)));
                        assert(pair_view(p) == row_pairs(fields@, row@)[j as int]);
                        assert(pairs_view(ps@) =~= row_pairs(fields@, row@).take(j + 1));
                    }
                },
                None => {
                    let e = Wh2LuaError::UnsupportedFieldKind(fields[j].name.clone());
                    assert(first_bad_in_row(row@, j as int));
                    return Err(e);
                },
            }
            j = j + 1;
        }
        proof {
            assert(row_pairs(fields@, row@).take(j as int) =~= row_pairs(fields@, row@));
        }
        Ok(ps)
    }

    /// Puts a row under its key, keeping keys ascending and replacing a row of the same key.
    fn insert_sorted(
        entries: &mut Vec<(LuaValue, Vec<(LuaValue, LuaValue)>)>,
        key: LuaValue,
        row: Vec<(LuaValue, LuaValue)>,
    )
        requires
            keys_sorted(TableData::KeyValue(*old(entries))@->KeyValue_0),
        ensures
            TableData::KeyValue(*final(entries))@->KeyValue_0 == sorted_insert(
                TableData::KeyValue(*old(entries))@->KeyValue_0,
                key@,
                pairs_view(row@),
            ),
            keys_sorted(TableData::KeyValue(*final(entries))@->KeyValue_0),
    {
        let ghost es = TableData::KeyValue(*entries)@->KeyValue_0;
        let ghost k = key@;
        let ghost v = pairs_view(row@);
        let mut lo: usize = 0;
        let mut hi: usize = entries.len();
        let mut found = false;
        while lo < hi
            invariant
                es == TableData::KeyValue(*entries)@->KeyValue_0,
                *entries == *old(entries),
                keys_sorted(es),
                k == key@,
                lo <= hi <= entries.len(),
                forall|i: int| 0 <= i < lo ==> val_lt(#[trigger] es[i].0, k),
                forall|i: int| hi <= i < es.len() ==> val_lt(k, #[trigger] es[i].0),
                found ==> lo < es.len() && es[lo as int].0 == k,
            ensures
                found || lo == hi,
            decreases hi - lo,
        {
            let mid = lo + (hi - lo) / 2;
            let c = compare_values(&entries[mid].0, &key);
            assert(es[mid as int].0 == entries@[mid as int].0@);
            if c == 0 {
                lo = mid;
                found = true;
                break;
            } else if c < 0 {
                proof {
                    assert forall|i: int| 0 <= i < mid + 1 implies val_lt(#[trigger] es[i].0, k) by {
                        if i < mid {
                            lemma_val_lt_trans(es[i].0, es[mid as int].0, k);
                        }
                    }
                }
                lo = mid + 1;
            } else {
                proof {
                    assert forall|i: int| mid <= i < es.len() implies val_lt(k, #[trigger] es[i].0) by {
                        if i > mid {
                            lemma_val_lt_trans(k, es[mid as int].0, es[i].0);
                        }
                    }
                }
                hi = mid;
            }
        }
        proof {
            if !found && lo < es.len() {
                assert(val_lt(k, es[lo as int].0));
                lemma_val_lt_strict(k, es[lo as int].0);
            }
            lemma_sorted_insert_at(es, k, v, lo as int);
        }
        let ghost r = sorted_insert(es, k, v);
        if found {
            entries.set(lo, (key, row));
        } else {
            entries.insert(lo, (key, row));
        }
        proof {
            let now = TableData::KeyValue(*entries)@->KeyValue_0;
            assert(now =~= r);
            assert forall|i: int, j: int| 0 <= i < j < r.len() implies val_lt(r[i].0, r[j].0) by {
                if found {
                    if i == lo {
                        assert(es[j].0 == r[j].0);
                    } else if j == lo {
                        assert(es[i].0 == r[i].0);
                    } else {
                        assert(es[i].0 == r[i].0);
                        assert(es[j].0 == r[j].0);
                    }
                } else {
                    if i == lo {
                        assert(r[j].0 == es[j - 1].0);
                    } else if j == lo {
                        assert(es[i].0 == r[i].0);
                    } else if i < lo && j > lo {
                        assert(es[i].0 == r[i].0);
                        assert(r[j].0 == es[j - 1].0);
                    } else if i > lo {
                        assert(r[i].0 == es[i - 1].0);
                        assert(r[j].0 == es[j - 1].0);
                    } else {
                        assert(es[i].0 == r[i].0);
                        assert(es[j].0 == r[j].0);
                    }
                }
            }
        }
    }

    /// The position of the first key field.
    fn first_key_index(fields: &Vec<Field>) -> (k: usize)
        requires
            key_count(fields@) > 0,
        ensures
            is_first_key(fields@, k as int),
            key_index(fields@) == k,
    {
        let mut i: usize = 0;
        while i < fields.len()
            invariant
                i <= fields.len(),
                forall|j: int| 0 <= j < i ==> !(#[trigger] fields@[j]).is_key,
            decreases fields.len() - i,
        {
            if fields[i].is_key {
                proof {
                    lemma_first_key_unique(fields@, i as int);
                }
                return i;
            }
            i = i + 1;
        }
        proof {
            lemma_no_keys(fields@);
        }
        0
    }

    /// Normalizes every cell and lays the rows out in the table's shape. Fails on the first
    /// cell, rows first, that holds a nested record.
    pub fn convert_rpfm_db_to_preprocessed_db(
        rpfm_db: &DecodedTable,
        table_name: &str,
        script_file_path: Vec<String>,
    ) -> (r: Result<TotalWarDbPreProcessed, Wh2LuaError>)
        requires
            table_wf(rpfm_db.fields@, rpfm_db.rows@),
        ensures
            r is Ok <==> cells_ok(rpfm_db.rows@),
            r matches Ok(t) ==> t.table_name@ == table_name@ && t.script_file_path
                == script_file_path && t.data@ == table_data_spec(rpfm_db.fields@, rpfm_db.rows@),
            r matches Err(e) ==> exists|i: int, j: int|
                #[trigger] is_first_bad(rpfm_db.rows@, i, j) && e == Wh2LuaError::UnsupportedFieldKind(
                    rpfm_db.fields@[j].name,
                ),
    {
        let fields = &rpfm_db.fields;
        let rows = &rpfm_db.rows;
        let shape = Self::classify_shape(fields);
        let data = match shape {
            TableShape::KeyValue => {
                let k = Self::first_key_index(fields);
                let mut entries: Vec<(LuaValue, Vec<(LuaValue, LuaValue)>)> = Vec::new();
                let mut i: usize = 0;
                while i < rows.len()
                    invariant
                        fields == &rpfm_db.fields,
                        rows == &rpfm_db.rows,
                        table_wf(fields@, rows@),
                        shape_of(fields@) == TableShape::KeyValue,
                        is_first_key(fields@, k as int),
                        key_index(fields@) == k,
                        i <= rows.len(),
                        forall|i2: int| 0 <= i2 < i ==> row_ok((#[trigger] rows@[i2])@),
                        keys_sorted(TableData::KeyValue(entries)@->KeyValue_0),
                        TableData::KeyValue(entries)@->KeyValue_0 == kv_entries(
                            fields@,
                            rows@.take(i as int),
                        ),
                    decreases rows.len() - i,
                {
                    assert(rows@[i as int]@.len() == fields@.len());
                    let ps = match Self::normalize_row(fields, &rows[i]) {
                        Ok(ps) => ps,
                        Err(e) => {
                            proof {
                                let j = choose|j: int|
                                    #[trigger] first_bad_in_row(rows@[i as int]@, j) && e
                                        == Wh2LuaError::UnsupportedFieldKind(fields@[j].name);
                                assert(is_first_bad(rows@, i as int, j));
                                assert(!row_ok(rows@[i as int]@));
                            }
                            return Err(e);
                        },
                    };
                    assert(pairs_view(ps@).len() == ps@.len());
                    let key = copy_value(&ps[k].1);
                    proof {
                        assert(pairs_view(ps@)[k as int] == pair_view(ps@[k as int]));
                        let t = rows@.take(i + 1);
                        assert(t.drop_last() =~= rows@.take(i as int));
                        assert(t.last() == rows@[i as int]);
                    }
                    Self::insert_sorted(&mut entries, key, ps);
                    i = i + 1;
                }
                proof {
                    assert(rows@.take(rows.len() as int) =~= rows@);
                }
                TableData::KeyValue(entries)
            },
            TableShape::FlatArray => {
                let mut out: Vec<Vec<(LuaValue, LuaValue)>> = Vec::new();
                let mut i: usize = 0;
                while i < rows.len()
                    invariant
                        fields == &rpfm_db.fields,
                        rows == &rpfm_db.rows,
                        table_wf(fields@, rows@),
                        i <= rows.len(),
                        forall|i2: int| 0 <= i2 < i ==> row_ok((#[trigger] rows@[i2])@),
                        TableData::FlatArray(out)@->FlatArray_0 == flat_rows(
                            fields@,
                            rows@.take(i as int),
                        ),
                    decreases rows.len() - i,
                {
                    assert(rows@[i as int]@.len() == fields@.len());
                    let ps = match Self::normalize_row(fields, &rows[i]) {
                        Ok(ps) => ps,
                        Err(e) => {
                            proof {
                                let j = choose|j: int|
                                    #[trigger] first_bad_in_row(rows@[i as int]@, j) && e
                                        == Wh2LuaError::UnsupportedFieldKind(fields@[j].name);
                                assert(is_first_bad(rows@, i as int, j));
                                assert(!row_ok(rows@[i as int]@));
                            }
                            return Err(e);
                        },
                    };
                    let ghost old_out = out@;
                    out.push(ps);
                    proof {
                        let a = TableData::FlatArray(out)@->FlatArray_0;
                        let b = flat_rows(fields@, rows@.take(i + 1));
                        let a0 = old_out.map_values(|r: Vec<(LuaValue, LuaValue)>| pairs_view(r@));
                        assert(a0 == flat_rows(fields@, rows@.take(i as int)));
                        assert forall|x: int| 0 <= x < i implies a[x] == b[x] by {
                            assert(a[x] == a0[x]);
                            assert(b[x] == flat_rows(fields@, rows@.take(i as int))[x]);
                        }
                        assert(a[i as int] == b[i as int]);
                        assert(TableData::FlatArray(out)@->FlatArray_0 =~= flat_rows(
                            fields@,
                            rows@.take(i + 1),
                        ));
                    }
                    i = i + 1;
                }
                proof {
                    assert(rows@.take(rows.len() as int) =~= rows@);
                }
                TableData::FlatArray(out)
            },
        };
        Ok(TotalWarDbPreProcessed::new(table_name, data, script_file_path))
    }

    /// The script path of a table file; see `script_path_spec`. Fails when a mod's core data
    /// file has neither a prefix nor a source stem to be named by.
    pub fn create_script_file_path(
        config: &Config,
        db_table: &str,
        db_file_name: &str,
        packfile_stem: Option<&str>,
    ) -> (r: Result<Vec<String>, Wh2LuaError>)
        ensures
            script_path_spec(
                config.base_mod,
                check_view(config.mod_core_prefix),
                opt_str_view(packfile_stem),
                db_table@,
                db_file_name@,
            ) matches Some(p) ==> (r matches Ok(v) && path_view(v@) == p),
            script_path_spec(
                config.base_mod,
                check_view(config.mod_core_prefix),
                opt_str_view(packfile_stem),
                db_table@,
                db_file_name@,
            ) is None ==> (r matches Err(e) && e@ == Wh2LuaErrorV::AmbiguousCorePrefix(db_table@)),
    {
        let mut file_name = String::from_str(db_file_name);
        let table_folder: &str;
        if compare_text(db_file_name, "data__") == 0 {
            if config.base_mod {
                table_folder = "core";
            } else {
                table_folder = "mod_core";
                match &config.mod_core_prefix {
                    Some(core_prefix) => {
                        let mut n = core_prefix.clone();
                        n.append("_");
                        n.append(db_file_name);
                        file_name = n;
                    },
                    None => match packfile_stem {
                        Some(stem) => {
                            let mut n = String::from_str(stem);
                            n.append("_");
                            n.append(db_file_name);
                            file_name = n;
                        },
                        None => {
                            return Err(Wh2LuaError::AmbiguousCorePrefix(String::from_str(db_table)));
                        },
                    },
                }
            }
        } else {
            table_folder = "mod";
        }
        file_name.append(".lua");
        let mut out: Vec<String> = Vec::new();
        out.push(String::from_str("lua_db"));
        out.push(String::from_str(table_folder));
        out.push(String::from_str(db_table));
        out.push(file_name);
        proof {
            let p = script_path_spec(
                config.base_mod,
                check_view(config.mod_core_prefix),
                opt_str_view(packfile_stem),
                db_table@,
                db_file_name@,
            );
            assert(path_view(out@) =~= p->Some_0);
        }
        Ok(out)
    }

    /// The table of an extracted table file, from what the decoder made of it: a table with
    /// no schema definition becomes an empty stand-in of one empty row, another decoder
    /// failure is an error, and a decoded table is converted (failing on nested records).
    pub fn pre_process_db_file(
        table_name: &str,
        decoded: &DbDecodeOutcome,
        script_file_path: Vec<String>,
    ) -> (r: Result<TotalWarDbPreProcessed, Wh2LuaError>)
        requires
            decoded matches DbDecodeOutcome::Decoded(t) ==> table_wf(t.fields@, t.rows@),
        ensures
            decoded is MissingDefinition ==> (r matches Ok(t) && t@ == PreprocessedV {
                table_name: table_name@,
                path: path_view(script_file_path@),
                data: TableDataV::FlatArray(seq![Seq::empty()]),
            }),
            decoded matches DbDecodeOutcome::Failed(m) ==> (r matches Err(e) && e@
                == Wh2LuaErrorV::RpfmError(m@)),
            decoded matches DbDecodeOutcome::Decoded(t) ==> (cells_ok(t.rows@) ==> (r matches Ok(p)
                && p@ == PreprocessedV {
                table_name: t.table_name@,
                path: path_view(script_file_path@),
                data: table_data_spec(t.fields@, t.rows@),
            })),
            decoded matches DbDecodeOutcome::Decoded(t) ==> (!cells_ok(t.rows@) ==> (r matches Err(e)
                && e@ == Wh2LuaErrorV::UnsupportedFieldKind(first_bad_field(*t)))),
    {
        match decoded {
            DbDecodeOutcome::Failed(m) => Err(Wh2LuaError::RpfmError(m.clone())),
            DbDecodeOutcome::MissingDefinition => {
                let mut rows: Vec<Vec<(LuaValue, LuaValue)>> = Vec::new();
                rows.push(Vec::new());
                let stub = TotalWarDbPreProcessed::new(table_name, TableData::FlatArray(rows), script_file_path);
                proof {
                    assert(pairs_view(stub.data->FlatArray_0@[0]@) =~= Seq::<(LuaVal, LuaVal)>::empty());
                    assert(stub.data@->FlatArray_0 =~= seq![Seq::<(LuaVal, LuaVal)>::empty()]);
                }
                Ok(stub)
            },
            DbDecodeOutcome::Decoded(t) => {
                let r = Self::convert_rpfm_db_to_preprocessed_db(t, t.table_name.as_str(), script_file_path);
                proof {
                    if r is Err {
                        let e = r->Err_0;
                        let (i, j) = choose|i: int, j: int|
                            #[trigger] is_first_bad(t.rows@, i, j) && e
                                == Wh2LuaError::UnsupportedFieldKind(t.fields@[j].name);
                        let (i2, j2) = choose|i: int, j: int| is_first_bad(t.rows@, i, j);
                        lemma_first_bad_unique(t.rows@, i, j, i2, j2);
                    }
                }
                r
            },
        }
    }

    fn convert_step(t: &DecodedTable, script_file_path: Vec<String>, name: &String) -> (r: FileStep)
        requires
            table_wf(t.fields@, t.rows@),
        ensures
            step_view(r) == converted(*t, path_view(script_file_path@), name@),
    {
        let ghost sp = path_view(script_file_path@);
        match Self::convert_rpfm_db_to_preprocessed_db(t, t.table_name.as_str(), script_file_path) {
            Ok(tbl) => FileStep::Table(tbl),
            Err(e) => {
                proof {
                    let (i, j) = choose|i: int, j: int|
                        #[trigger] is_first_bad(t.rows@, i, j) && e
                            == Wh2LuaError::UnsupportedFieldKind(t.fields@[j].name);
                    let (i2, j2) = choose|i: int, j: int| is_first_bad(t.rows@, i, j);
                    lemma_first_bad_unique(t.rows@, i, j, i2, j2);
                }
                FileStep::Skip(TableWarning { file_name: name.clone(), reason: e })
            },
        }
    }

    fn file_step(config: &Config, kind: &SourceKind, f: &DbFile) -> (r: FileStep)
        requires
            f.path@.len() > 0,
            f.outcome matches DbDecodeOutcome::Decoded(t) ==> table_wf(t.fields@, t.rows@),
        ensures
            step_view(r) == file_result(*config, *kind, *f),
    {
        let name = &f.path[f.path.len() - 1];
        assert(path_view(f.path@).last() == name@);
        match kind {
            SourceKind::Packfile(stem) => match &f.outcome {
                DbDecodeOutcome::Failed(m) => FileStep::Skip(
                    TableWarning { file_name: name.clone(), reason: Wh2LuaError::RpfmError(m.clone()) },
                ),
                DbDecodeOutcome::MissingDefinition => FileStep::Skip(
                    TableWarning {
                        file_name: name.clone(),
                        reason: Wh2LuaError::MissingSchemaDefinition(name.clone()),
                    },
                ),
                DbDecodeOutcome::Decoded(t) => {
                    match Self::create_script_file_path(
                        config,
                        t.table_name.as_str(),
                        name.as_str(),
                        Some(stem.as_str()),
                    ) {
                        Ok(sp) => Self::convert_step(t, sp, name),
                        Err(e) => FileStep::Fatal(e),
                    }
                },
            },
            SourceKind::ExtractedDir => {
                let rel = strip_db_prefix_from_path(&f.path);
                let table = match get_parent_folder_name(&rel) {
                    Ok(table) => table,
                    Err(e) => {
                        return FileStep::Fatal(e);
                    },
                };
                let sp = match Self::create_script_file_path(
                    config,
                    table.as_str(),
                    name.as_str(),
                    None,
                ) {
                    Ok(sp) => sp,
                    Err(e) => {
                        return FileStep::Fatal(e);
                    },
                };
                let missing = match &f.outcome {
                    DbDecodeOutcome::MissingDefinition => true,
                    _ => false,
                };
                let ghost sp_view = path_view(sp@);
                match Self::pre_process_db_file(table.as_str(), &f.outcome, sp) {
                    Ok(t) => {
                        if missing {
                            FileStep::Stub(
                                t,
                                TableWarning {
                                    file_name: name.clone(),
                                    reason: Wh2LuaError::MissingSchemaDefinition(table.clone()),
                                },
                            )
                        } else {
                            FileStep::Table(t)
                        }
                    },
                    Err(e) => match e {
                        Wh2LuaError::UnsupportedFieldKind(_) => FileStep::Skip(
                            TableWarning { file_name: name.clone(), reason: e },
                        ),
                        _ => FileStep::Fatal(e),
                    },
                }
            },
        }
    }

    /// Converts the table files of one source, in order. Files that cannot be decoded or
    /// hold nested records are left out with a warning (for extracted files, a decoder
    /// failure other than a missing definition stops the run; a missing definition gives an
    /// empty table); a core data file that cannot be named stops the run.
    pub fn process_source(config: &Config, kind: &SourceKind, files: &Vec<DbFile>) -> (r: Result<
        ProcessedSource,
        Wh2LuaError,
    >)
        requires
            files_wf(files@),
        ensures
            process_spec(*config, *kind, files@) matches Ok((ts, ws)) ==> (r matches Ok(p)
                && p.tables@.map_values(|t: TotalWarDbPreProcessed| t@) == ts
                && p.warnings@.map_values(|w: TableWarning| warning_view(w)) == ws),
            process_spec(*config, *kind, files@) matches Err(e) ==> (r matches Err(x) && x@ == e),
    {
        let mut tables: Vec<TotalWarDbPreProcessed> = Vec::new();
        let mut warnings: Vec<TableWarning> = Vec::new();
        let mut i: usize = 0;
        proof {
            assert(files@.take(0) =~= Seq::<DbFile>::empty());
            assert(tables@.map_values(|t: TotalWarDbPreProcessed| t@) =~= Seq::<PreprocessedV>::empty());
            assert(warnings@.map_values(|w: TableWarning| warning_view(w)) =~= Seq::<(Seq<char>, Wh2LuaErrorV)>::empty());
        }
        while i < files.len()
            invariant
                files_wf(files@),
                i <= files.len(),
                process_spec(*config, *kind, files@.take(i as int)) == Ok::<
                    (Seq<PreprocessedV>, Seq<(Seq<char>, Wh2LuaErrorV)>),
                    Wh2LuaErrorV,
                >(
                    (
                        tables@.map_values(|t: TotalWarDbPreProcessed| t@),
                        warnings@.map_values(|w: TableWarning| warning_view(w)),
                    ),
                ),
            decreases files.len() - i,
        {
            let ghost ts = tables@.map_values(|t: TotalWarDbPreProcessed| t@);
            let ghost ws = warnings@.map_values(|w: TableWarning| warning_view(w));
            let ghost old_tables = tables@;
            let ghost old_warnings = warnings@;
            proof {
                let t = files@.take(i + 1);
                assert(t.drop_last() =~= files@.take(i as int));
                assert(t.last() == files@[i as int]);
                assert(files@[i as int].path@.len() > 0);
            }
            let step = Self::file_step(config, kind, &files[i]);
            match step {
                FileStep::Table(t) => {
                    tables.push(t);
                    proof {
                        assert(tables@.map_values(|t: TotalWarDbPreProcessed| t@) =~= ts.push(t@));
                    }
                },
                FileStep::Stub(t, w) => {
                    tables.push(t);
                    warnings.push(w);
                    proof {
                        assert(tables@.map_values(|t: TotalWarDbPreProcessed| t@) =~= ts.push(t@));
                        assert(warnings@.map_values(|w: TableWarning| warning_view(w)) =~= ws.push(
                            warning_view(w),
                        ));
                    }
                },
                FileStep::Skip(w) => {
                    warnings.push(w);
                    proof {
                        assert(warnings@.map_values(|w: TableWarning| warning_view(w)) =~= ws.push(
                            warning_view(w),
                        ));
                    }
                },
                FileStep::Fatal(e) => {
                    proof {
                        lemma_process_spec_err_prefix(*config, *kind, files@, i + 1);
                    }
                    return Err(e);
                },
            }
            i = i + 1;
        }
        proof {
            assert(files@.take(files.len() as int) =~= files@);
        }
        Ok(ProcessedSource { tables, warnings })
    }
}

} // verus!
