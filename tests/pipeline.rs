use lua_db::config::Config;
use lua_db::conflict::ConflictTracker;
use lua_db::lua_writer::LuaWriter;
use lua_db::rpfm::{
    DbDecodeOutcome, DbFile, DecodedData, DecodedTable, Field, Rpfm, SourceKind, TableShape,
};
use lua_db::tw_db_pp::{LuaValue, TableData, TotalWarDbPreProcessed};
use lua_db::wh2_lua_error::Wh2LuaError;

fn config(check: Option<&str>) -> Config {
    Config {
        packfiles: None,
        in_dir: None,
        out_dir: vec!["out".to_string()],
        script_check: check.map(|s| s.to_string()),
        mod_core_prefix: None,
        base_mod: false,
        force: false,
        write_files_to_disk: true,
        launch_game: false,
    }
}

fn field(name: &str, is_key: bool) -> Field {
    Field { name: name.to_string(), is_key }
}

fn text(s: &str) -> DecodedData {
    DecodedData::StringU8(s.to_string())
}

fn path(parts: &[&str]) -> Vec<String> {
    parts.iter().map(|s| s.to_string()).collect()
}

fn units_table() -> DecodedTable {
    DecodedTable {
        table_name: "units_tables".to_string(),
        fields: vec![field("key", true), field("attack", false), field("ranged", false)],
        rows: vec![vec![text("spearman"), DecodedData::I32(10), DecodedData::Boolean(false)]],
    }
}

fn script(check: Option<&str>, t: &TotalWarDbPreProcessed) -> String {
    LuaWriter::convert_tw_db_to_lua_script(&config(check), t).unwrap()
}

#[test]
fn single_key_table_is_keyed_by_value() {
    let t = units_table();
    assert_eq!(Rpfm::classify_shape(&t.fields), TableShape::KeyValue);
    let pp = Rpfm::convert_rpfm_db_to_preprocessed_db(&t, "units", vec![]).unwrap();
    assert!(matches!(pp.data, TableData::KeyValue(_)));
    let s = script(None, &pp);
    assert_eq!(
        s,
        "local result = {\n  [\"spearman\"] = { [\"key\"] = \"spearman\", [\"attack\"] = 10, [\"ranged\"] = false, },\n}\n\nreturn result"
    );
    assert!(s.contains("[\"attack\"] = 10, [\"ranged\"] = false, },"));
}

#[test]
fn two_key_table_is_flat_in_input_order() {
    let t = DecodedTable {
        table_name: "unit_abilities_tables".to_string(),
        fields: vec![field("unit", true), field("ability", true)],
        rows: vec![
            vec![text("spearman"), text("charge")],
            vec![text("archer"), text("volley")],
        ],
    };
    assert_eq!(Rpfm::classify_shape(&t.fields), TableShape::FlatArray);
    let pp = Rpfm::convert_rpfm_db_to_preprocessed_db(&t, "unit_abilities", vec![]).unwrap();
    let s = script(None, &pp);
    let lines: Vec<&str> = s.lines().collect();
    assert_eq!(lines[1], "  { [\"unit\"] = \"spearman\", [\"ability\"] = \"charge\", },");
    assert_eq!(lines[2], "  { [\"unit\"] = \"archer\", [\"ability\"] = \"volley\", },");
    assert_eq!(lines.len(), 6);
}

#[test]
fn no_key_field_gives_flat_table() {
    let fields = vec![field("a", false), field("b", false)];
    assert_eq!(Rpfm::classify_shape(&fields), TableShape::FlatArray);
    assert_eq!(Rpfm::classify_shape(&vec![]), TableShape::FlatArray);
}

#[test]
fn shape_does_not_depend_on_field_order() {
    let a = vec![field("k", true), field("x", false), field("y", false)];
    let b = vec![field("x", false), field("y", false), field("k", true)];
    assert_eq!(Rpfm::classify_shape(&a), Rpfm::classify_shape(&b));
    assert_eq!(Rpfm::classify_shape(&b), TableShape::KeyValue);
}

#[test]
fn same_key_keeps_last_row() {
    let t = DecodedTable {
        table_name: "units_tables".to_string(),
        fields: vec![field("key", true), field("attack", false)],
        rows: vec![
            vec![text("spearman"), DecodedData::I32(10)],
            vec![text("spearman"), DecodedData::I32(12)],
        ],
    };
    let pp = Rpfm::convert_rpfm_db_to_preprocessed_db(&t, "units", vec![]).unwrap();
    match &pp.data {
        TableData::KeyValue(es) => {
            assert_eq!(es.len(), 1);
            assert!(matches!(&es[0].1[1].1, LuaValue::Number(n) if n == "12"));
        }
        _ => panic!("expected a keyed table"),
    }
    let s = script(None, &pp);
    assert!(s.contains("[\"attack\"] = 12, "));
    assert!(!s.contains("[\"attack\"] = 10, "));
}

#[test]
fn keys_come_out_in_order() {
    let t = DecodedTable {
        table_name: "t".to_string(),
        fields: vec![field("key", true)],
        rows: vec![
            vec![DecodedData::Boolean(true)],
            vec![text("b")],
            vec![DecodedData::I16(7)],
            vec![text("a")],
            vec![DecodedData::Boolean(false)],
        ],
    };
    let pp = Rpfm::convert_rpfm_db_to_preprocessed_db(&t, "t", vec![]).unwrap();
    let s = script(None, &pp);
    let keys: Vec<&str> = s.lines().skip(1).take(5).map(|l| l.split(" = ").next().unwrap().trim()).collect();
    assert_eq!(keys, vec!["[7]", "[\"a\"]", "[\"b\"]", "[false]", "[true]"]);
}

#[test]
fn numbers_render_in_decimal() {
    let t = DecodedTable {
        table_name: "t".to_string(),
        fields: vec![field("a", false), field("b", false), field("c", false), field("d", false)],
        rows: vec![vec![
            DecodedData::I64(i64::MIN),
            DecodedData::OptionalI32(-45),
            DecodedData::I16(0),
            DecodedData::F32("1.5".to_string()),
        ]],
    };
    let pp = Rpfm::convert_rpfm_db_to_preprocessed_db(&t, "t", vec![]).unwrap();
    let s = script(None, &pp);
    assert!(s.contains(
        "{ [\"a\"] = -9223372036854775808, [\"b\"] = -45, [\"c\"] = 0, [\"d\"] = 1.5, },"
    ));
    assert_eq!(lua_db::decimal::int_to_text(1234567).as_str(), "1234567");
}

#[test]
fn strings_of_every_kind_become_text() {
    for d in [
        DecodedData::StringU8("x".to_string()),
        DecodedData::StringU16("x".to_string()),
        DecodedData::OptionalStringU8("x".to_string()),
        DecodedData::OptionalStringU16("x".to_string()),
        DecodedData::ColourRGB("x".to_string()),
    ] {
        assert!(matches!(Rpfm::decoded_data_to_lua_value(&d), Some(LuaValue::Text(s)) if s == "x"));
    }
    assert!(Rpfm::decoded_data_to_lua_value(&DecodedData::SequenceU32(vec![1])).is_none());
}

#[test]
fn nested_record_fails_the_table() {
    let t = DecodedTable {
        table_name: "t".to_string(),
        fields: vec![field("a", false), field("nested", false)],
        rows: vec![vec![text("x"), DecodedData::SequenceU16(vec![0, 1])]],
    };
    let r = Rpfm::convert_rpfm_db_to_preprocessed_db(&t, "t", vec![]);
    assert!(matches!(r, Err(Wh2LuaError::UnsupportedFieldKind(f)) if f == "nested"));
}

#[test]
fn nested_record_table_is_skipped_and_others_kept() {
    let bad = DecodedTable {
        table_name: "bad_tables".to_string(),
        fields: vec![field("nested", false)],
        rows: vec![vec![DecodedData::SequenceU16(vec![])]],
    };
    let files = vec![
        DbFile { path: path(&["db", "bad_tables", "bad"]), outcome: DbDecodeOutcome::Decoded(bad) },
        DbFile { path: path(&["db", "units_tables", "units"]), outcome: DbDecodeOutcome::Decoded(units_table()) },
    ];
    let r = Rpfm::process_source(&config(None), &SourceKind::Packfile("my_mod".to_string()), &files).unwrap();
    assert_eq!(r.tables.len(), 1);
    assert_eq!(r.tables[0].script_file_path, path(&["lua_db", "mod", "units_tables", "units.lua"]));
    assert_eq!(r.warnings.len(), 1);
    assert_eq!(r.warnings[0].file_name, "bad");
    assert!(matches!(&r.warnings[0].reason, Wh2LuaError::UnsupportedFieldKind(f) if f == "nested"));
}

#[test]
fn packfile_decode_failures_are_warnings() {
    let files = vec![
        DbFile { path: path(&["db", "a_tables", "a"]), outcome: DbDecodeOutcome::Failed("broken".to_string()) },
        DbFile { path: path(&["db", "b_tables", "b"]), outcome: DbDecodeOutcome::MissingDefinition },
    ];
    let r = Rpfm::process_source(&config(None), &SourceKind::Packfile("m".to_string()), &files).unwrap();
    assert_eq!(r.tables.len(), 0);
    assert!(matches!(&r.warnings[0].reason, Wh2LuaError::RpfmError(m) if m == "broken"));
    assert!(matches!(&r.warnings[1].reason, Wh2LuaError::MissingSchemaDefinition(n) if n == "b"));
}

#[test]
fn extracted_missing_definition_gives_stub_table() {
    let files = vec![DbFile {
        path: path(&["/", "mods", "x", "db", "land_units_tables", "my_units"]),
        outcome: DbDecodeOutcome::MissingDefinition,
    }];
    let r = Rpfm::process_source(&config(None), &SourceKind::ExtractedDir, &files).unwrap();
    assert_eq!(r.tables.len(), 1);
    assert_eq!(r.tables[0].table_name, "land_units_tables");
    assert_eq!(r.tables[0].script_file_path, path(&["lua_db", "mod", "land_units_tables", "my_units.lua"]));
    assert_eq!(script(None, &r.tables[0]), "local result = {\n  { },\n}\n\nreturn result");
    assert_eq!(r.warnings.len(), 1);
}

#[test]
fn extracted_decode_failure_stops_the_run() {
    let files = vec![DbFile { path: path(&["db", "t_tables", "f"]), outcome: DbDecodeOutcome::Failed("bad bytes".to_string()) }];
    let r = Rpfm::process_source(&config(None), &SourceKind::ExtractedDir, &files);
    assert!(matches!(r, Err(Wh2LuaError::RpfmError(m)) if m == "bad bytes"));
}

#[test]
fn extracted_file_without_parent_folder_stops_the_run() {
    let files = vec![DbFile { path: path(&["f"]), outcome: DbDecodeOutcome::MissingDefinition }];
    let r = Rpfm::process_source(&config(None), &SourceKind::ExtractedDir, &files);
    assert!(matches!(r, Err(Wh2LuaError::ConfigError(m)) if m == "Unable to get parent folder name for path: f"));
}

#[test]
fn core_file_without_prefix_is_ambiguous() {
    let r = Rpfm::create_script_file_path(&config(None), "units_tables", "data__", None);
    assert!(matches!(r, Err(Wh2LuaError::AmbiguousCorePrefix(t)) if t == "units_tables"));
    let files = vec![DbFile { path: path(&["db", "units_tables", "data__"]), outcome: DbDecodeOutcome::Decoded(units_table()) }];
    let r = Rpfm::process_source(&config(None), &SourceKind::ExtractedDir, &files);
    assert!(matches!(r, Err(Wh2LuaError::AmbiguousCorePrefix(_))));
}

#[test]
fn core_file_paths() {
    let mut c = config(None);
    c.base_mod = true;
    assert_eq!(
        Rpfm::create_script_file_path(&c, "units_tables", "data__", None).unwrap(),
        path(&["lua_db", "core", "units_tables", "data__.lua"])
    );
    c.base_mod = false;
    assert_eq!(
        Rpfm::create_script_file_path(&c, "units_tables", "data__", Some("my_mod")).unwrap(),
        path(&["lua_db", "mod_core", "units_tables", "my_mod_data__.lua"])
    );
    c.mod_core_prefix = Some("pre".to_string());
    assert_eq!(
        Rpfm::create_script_file_path(&c, "units_tables", "data__", Some("my_mod")).unwrap(),
        path(&["lua_db", "mod_core", "units_tables", "pre_data__.lua"])
    );
    assert_eq!(
        Rpfm::create_script_file_path(&c, "units_tables", "my_units", None).unwrap(),
        path(&["lua_db", "mod", "units_tables", "my_units.lua"])
    );
}

#[test]
fn later_source_wins_a_path() {
    let mk = |v: &str| TotalWarDbPreProcessed::new(
        "units_tables",
        TableData::FlatArray(vec![vec![(LuaValue::Text("k".to_string()), LuaValue::Text(v.to_string()))]]),
        path(&["lua_db", "mod", "units_tables", "units.lua"]),
    );
    let mut t = ConflictTracker::new();
    assert!(t.record("mod_a", mk("a")).is_none());
    assert_eq!(t.record("mod_b", mk("b")).as_deref(), Some("mod_a"));
    assert_eq!(t.entries().len(), 1);
    assert_eq!(t.entries()[0].0, "mod_b");
    assert!(script(None, &t.entries()[0].1).contains("\"b\""));
    assert_eq!(t.conflicts().len(), 1);
    let c = &t.conflicts()[0];
    assert_eq!(c.path, path(&["lua_db", "mod", "units_tables", "units.lua"]));
    assert_eq!(c.winning_source, "mod_b");
    assert_eq!(c.losing_source, "mod_a");
}

#[test]
fn same_source_twice_is_no_conflict() {
    let mk = || TotalWarDbPreProcessed::new("t", TableData::FlatArray(vec![]), path(&["lua_db", "mod", "t", "x.lua"]));
    let mut t = ConflictTracker::new();
    t.record("m", mk());
    t.record("m", mk());
    t.record("n", TotalWarDbPreProcessed::new("t", TableData::FlatArray(vec![]), path(&["lua_db", "mod", "t", "y.lua"])));
    assert_eq!(t.entries().len(), 2);
    assert_eq!(t.conflicts().len(), 0);
}

#[test]
fn guarded_script() {
    let pp = Rpfm::convert_rpfm_db_to_preprocessed_db(&units_table(), "units", vec![]).unwrap();
    let s = script(Some("some.resource"), &pp);
    assert_eq!(
        s,
        "local result = nil\n\nif vfs.exists(\"some.resource\") then\n  result = {\n    [\"spearman\"] = { [\"key\"] = \"spearman\", [\"attack\"] = 10, [\"ranged\"] = false, },\n  }\nend\n\nreturn result"
    );
    assert!(s.starts_with("local result = nil\n\n"));
    assert_eq!(s.matches("if vfs.exists(").count(), 1);
    assert!(s.ends_with("return result"));
    let plain = script(None, &pp);
    assert!(!plain.contains("vfs.exists"));
}

#[test]
fn braces_balance() {
    let t = DecodedTable {
        table_name: "t".to_string(),
        fields: vec![field("a", true), field("b", true)],
        rows: vec![vec![text("x"), DecodedData::I32(1)], vec![text("y"), DecodedData::I32(2)]],
    };
    let pp = Rpfm::convert_rpfm_db_to_preprocessed_db(&t, "t", vec![]).unwrap();
    for check in [None, Some("r")] {
        let s = script(check, &pp);
        assert_eq!(s.matches('{').count(), s.matches('}').count());
    }
}

#[test]
fn output_file_path_is_under_out_dir() {
    let pp = TotalWarDbPreProcessed::new("t", TableData::FlatArray(vec![]), path(&["lua_db", "mod", "t", "x.lua"]));
    assert_eq!(pp.output_file_path(&config(None)), path(&["out", "lua_db", "mod", "t", "x.lua"]));
}

#[test]
fn empty_table_has_empty_body() {
    let t = DecodedTable { table_name: "t".to_string(), fields: vec![field("k", true)], rows: vec![] };
    let pp = Rpfm::convert_rpfm_db_to_preprocessed_db(&t, "t", vec![]).unwrap();
    assert_eq!(script(None, &pp), "local result = {\n}\n\nreturn result");
}

#[test]
fn text_is_quoted_without_escaping() {
    assert_eq!(LuaValue::Text("a\"b".to_string()).to_lua_value(), "\"a\"b\"");
    assert_eq!(LuaValue::Boolean(true).to_lua_value(), "true");
    assert_eq!(LuaValue::Number("2.25".to_string()).to_lua_value(), "2.25");
}

#[test]
fn pre_process_outcomes() {
    let sp = path(&["lua_db", "mod", "t", "f.lua"]);
    let stub = Rpfm::pre_process_db_file("t", &DbDecodeOutcome::MissingDefinition, sp.clone()).unwrap();
    assert_eq!(stub.table_name, "t");
    assert!(matches!(&stub.data, TableData::FlatArray(rows) if rows.len() == 1 && rows[0].is_empty()));
    let failed = Rpfm::pre_process_db_file("t", &DbDecodeOutcome::Failed("oops".to_string()), sp.clone());
    assert!(matches!(failed, Err(Wh2LuaError::RpfmError(m)) if m == "oops"));
    let ok = Rpfm::pre_process_db_file("t", &DbDecodeOutcome::Decoded(units_table()), sp.clone()).unwrap();
    assert_eq!(ok.table_name, "units_tables");
    assert_eq!(ok.script_file_path, sp);
}
