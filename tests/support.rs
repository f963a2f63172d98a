use lua_db::config::{Config, InputChoice};
use lua_db::log::{Log, LogLevel};
use lua_db::manifest::{parse_u64, parse_u8, Manifest};
use lua_db::util::{file_stem, get_parent_folder_name, strip_db_prefix_from_path};
use lua_db::wh2_lua_error::Wh2LuaError;

fn path(parts: &[&str]) -> Vec<String> {
    parts.iter().map(|s| s.to_string()).collect()
}

#[test]
fn strips_everything_before_db() {
    assert_eq!(strip_db_prefix_from_path(&path(&["/", "a", "db", "t", "f"])), path(&["db", "t", "f"]));
    assert_eq!(strip_db_prefix_from_path(&path(&["t", "f"])), path(&["t", "f"]));
}

#[test]
fn parent_folder_names() {
    assert_eq!(get_parent_folder_name(&path(&["db", "units_tables", "f"])).unwrap(), "units_tables");
    assert!(matches!(get_parent_folder_name(&path(&["/", "f"])), Err(Wh2LuaError::ConfigError(_))));
    assert!(matches!(get_parent_folder_name(&path(&["..", "f"])), Err(Wh2LuaError::ConfigError(_))));
}

#[test]
fn file_stems() {
    assert_eq!(file_stem(&path(&["d", "a.b.pack"])).as_deref(), Some("a.b"));
    assert_eq!(file_stem(&path(&[".bashrc"])).as_deref(), Some(".bashrc"));
    assert_eq!(file_stem(&path(&["name"])).as_deref(), Some("name"));
    assert_eq!(file_stem(&path(&["x", ".."])), None);
    assert_eq!(file_stem(&vec![]), None);
}

#[test]
fn out_dir_choices() {
    let cwd = path(&["/", "work"]);
    let given = Config::calculate_out_dir(Some(path(&["o"])), &None, &None, cwd.clone()).unwrap();
    assert_eq!(given, path(&["o"]));
    let one = Some(vec![path(&["data", "my_mod.pack"])]);
    assert_eq!(
        Config::calculate_out_dir(None, &one, &None, cwd.clone()).unwrap(),
        path(&["data", "my_mod_lua_ext"])
    );
    assert_eq!(
        Config::calculate_out_dir(None, &None, &Some(path(&["in"])), cwd.clone()).unwrap(),
        path(&["in"])
    );
    assert_eq!(
        Config::calculate_out_dir(None, &None, &None, cwd).unwrap(),
        path(&["/", "work", "lua_db_export"])
    );
}

#[test]
fn profile_lines_last_first() {
    let ps = Config::packfile_paths_from_profile_lines(&path(&["a.pack", "b.pack"])).unwrap();
    assert_eq!(ps, vec![path(&["data", "b.pack"]), path(&["data", "a.pack"])]);
    assert!(Config::packfile_paths_from_profile_lines(&vec![]).is_none());
}

#[test]
fn launch_only_without_inputs() {
    assert!(Config::calculate_should_launch_game(false, false, true));
    assert!(!Config::calculate_should_launch_game(true, false, true));
    assert!(!Config::calculate_should_launch_game(false, false, false));
}

#[test]
fn input_choice_order() {
    let mut c = Config {
        packfiles: Some(vec![path(&["p.pack"])]),
        in_dir: Some(path(&["in"])),
        out_dir: vec![],
        script_check: None,
        mod_core_prefix: None,
        base_mod: false,
        force: false,
        write_files_to_disk: false,
        launch_game: false,
    };
    assert_eq!(c.input_choice().unwrap(), InputChoice::Packfiles);
    c.packfiles = Some(vec![]);
    assert_eq!(c.input_choice().unwrap(), InputChoice::InDir);
    c.in_dir = None;
    assert!(matches!(c.input_choice(), Err(Wh2LuaError::ConfigError(_))));
}

#[test]
fn log_collects_messages() {
    let mut log = Log::new();
    log.info("hello");
    log.warning("careful");
    log.error(&Wh2LuaError::IoError("disk".to_string()));
    log.add_overwritten_file("a.lua".to_string());
    log.print_overwritten_files();
    let got: Vec<(LogLevel, &str)> = log.entries.iter().map(|e| (e.level, e.text.as_str())).collect();
    assert_eq!(
        got,
        vec![
            (LogLevel::Info, "hello"),
            (LogLevel::Warning, "careful"),
            (LogLevel::Error, "Unexpected IO error: disk"),
            (LogLevel::Warning, "files overwritten: "),
            (LogLevel::Plain, "a.lua"),
        ]
    );
}

#[test]
fn nothing_overwritten_logs_nothing() {
    let mut log = Log::new();
    log.print_overwritten_files();
    assert!(log.entries.is_empty());
}

#[test]
fn error_messages() {
    assert_eq!(
        Wh2LuaError::OutDirNotEmpty(path(&["a", "b"])).message(),
        "Output directory not empty: a/b"
    );
    assert_eq!(Wh2LuaError::ConfigError("x".to_string()).message(), "x");
}

#[test]
fn manifest_lines() {
    let m = Manifest::parse(b"data/a.pack\t10\nb.txt\t20\t1\nc\t5\tx\n").unwrap();
    assert_eq!(m.0.len(), 3);
    assert_eq!(m.0[0].relative_path, "data/a.pack");
    assert_eq!(m.0[0].size, 10);
    assert_eq!(m.0[0].belongs_to_base_game, None);
    assert_eq!(m.0[1].relative_path, "b.txt");
    assert_eq!(m.0[1].size, 20);
    assert_eq!(m.0[1].belongs_to_base_game, Some(1));
    assert_eq!(m.0[2].belongs_to_base_game, None);
}

#[test]
fn manifest_bad_lines() {
    assert!(matches!(Manifest::parse(b"a\t1\nb\n"), Err(Wh2LuaError::ManifestError(l)) if l == "2"));
    assert!(matches!(Manifest::parse(b"a\tten\n"), Err(Wh2LuaError::ManifestError(l)) if l == "1"));
    assert!(matches!(Manifest::parse(b"a\t1\t2\t3\n"), Err(Wh2LuaError::ManifestError(l)) if l == "1"));
}

#[test]
fn unsigned_parsing() {
    assert_eq!(parse_u64("+5"), Some(5));
    assert_eq!(parse_u64("18446744073709551615"), Some(u64::MAX));
    assert_eq!(parse_u64("18446744073709551616"), None);
    assert_eq!(parse_u64(""), None);
    assert_eq!(parse_u64("+"), None);
    assert_eq!(parse_u64("-1"), None);
    assert_eq!(parse_u64(" 1"), None);
    assert_eq!(parse_u8("255"), Some(255));
    assert_eq!(parse_u8("256"), None);
}
