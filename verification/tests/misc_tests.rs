use infinite::casc::{casc_path_variants, not_found_detail, CascError};
use infinite::cli::{CliError, Commands, InstallSource};
use infinite::github::{
    branches_api_url, contents_api_url, download_target, item_kind, tree_api_url, GitHubError,
    ItemKind,
};
use infinite::lua_tables::{array_bound, lua_tsv_rows, max_positive_key, next_row_index, LuaRowTable};
use infinite::mod_entries::{
    github_mod_key, mod_list_entries, mod_list_text, move_mod_down, move_mod_up,
    generate_plan, parse_github_url, remove_mod, repo_display_name, subdir_choices, GenerateError,
    ModEntry,
};
use infinite::mod_sources::{ModList, ModSource};
use infinite::config::UserConfig;
use infinite::runtime::{full_version, ConsoleApi, RuntimeError, RuntimeFactory, ScriptType};
use infinite::text::{join, lines, replace_char, trim};

fn strings(v: &[&str]) -> Vec<String> {
    v.iter().map(|s| s.to_string()).collect()
}

#[test]
fn storage_test_path_normalization() {
    let paths = vec![
        "data/global/excel/treasureclass.json",
        "data\\global\\excel\\treasureclass.json",
    ];

    for path in paths {
        let forward = replace_char(path, '\\', '/');
        let backward = replace_char(path, '/', '\\');
        assert!(forward.contains("/") || backward.contains("\\"));
    }
}

#[test]
fn casc_variants_in_lookup_order() {
    let v = casc_path_variants("global/excel/a.txt");
    assert_eq!(
        v,
        strings(&[
            "data:data\\global/excel/a.txt",
            "data:data/global/excel/a.txt",
            "global/excel/a.txt",
            "global\\excel\\a.txt",
            "global/excel/a.txt",
        ])
    );
}

#[test]
fn casc_messages() {
    assert_eq!(not_found_detail("a.txt", None), "a.txt (last error: unknown)");
    assert_eq!(not_found_detail("a.txt", Some("code 2")), "a.txt (last error: code 2)");
    assert_eq!(CascError::OpenFailed("x".to_string()).message(), "Failed to open CASC storage: x");
    assert_eq!(CascError::FileNotFound("x".to_string()).message(), "File not found in CASC: x");
    assert_eq!(CascError::ExtractionFailed("x".to_string()).message(), "Failed to extract file: x");
    assert_eq!(CascError::InvalidPath("x".to_string()).message(), "Invalid game path: x");
}

#[test]
fn cli_output_and_source() {
    assert_eq!(Commands::default_output_path("C:/D2R"), "C:/D2R/Mods/Infinite/Infinite.mpq/data");
    assert_eq!(Commands::output_path_or_default("C:/D2R", Some("/o")), "/o");
    assert_eq!(
        Commands::output_path_or_default("/g", None),
        "/g/Mods/Infinite/Infinite.mpq/data"
    );
    assert!(matches!(
        Commands::install_source(Some("./mods"), Some("list.txt")).unwrap(),
        InstallSource::ModList(p) if p == "list.txt"
    ));
    assert!(matches!(
        Commands::install_source(Some("./mods"), None).unwrap(),
        InstallSource::ModsDir(p) if p == "./mods"
    ));
    let err = Commands::install_source(None, None).unwrap_err();
    assert_eq!(err, CliError::NoModSource);
    assert_eq!(err.message(), "Either --mods-path or --mod-list must be specified");
}

#[test]
fn runtime_selection() {
    assert_eq!(RuntimeFactory::select_runtime(true, true, false), Ok(ScriptType::Lua));
    assert_eq!(RuntimeFactory::select_runtime(false, true, true), Ok(ScriptType::JavaScript));
    assert_eq!(
        RuntimeFactory::select_runtime(false, true, false),
        Err(RuntimeError::JavaScriptNotEnabled)
    );
    assert_eq!(RuntimeFactory::select_runtime(false, false, true), Err(RuntimeError::NoScript));
    assert_eq!(ScriptType::Lua.name(), "Lua");
    assert_eq!(ScriptType::JavaScript.name(), "JavaScript");
    assert_eq!(full_version(), (1, 5, 0));
}

#[test]
fn console_lines() {
    assert_eq!(ConsoleApi::log("hi"), "[MOD] hi");
    assert_eq!(ConsoleApi::debug("d"), "[MOD] d");
    assert_eq!(ConsoleApi::warn("w"), "[MOD] w");
    assert_eq!(ConsoleApi::error(""), "[MOD] ");
}

#[test]
fn github_requests() {
    assert_eq!(item_kind("file"), ItemKind::File);
    assert_eq!(item_kind("dir"), ItemKind::Dir);
    assert_eq!(item_kind("symlink"), ItemKind::Other);
    assert_eq!(
        contents_api_url("o", "r", "mods/x", "main"),
        "https://api.github.com/repos/o/r/contents/mods/x?ref=main"
    );
    assert_eq!(branches_api_url("o/r"), "https://api.github.com/repos/o/r/branches");
    assert_eq!(
        tree_api_url("o/r", "dev"),
        "https://api.github.com/repos/o/r/git/trees/dev?recursive=1"
    );
    assert_eq!(
        download_target("o/r", Some("sub"), None).unwrap(),
        strings(&["o", "r", "main", "sub"])
    );
    let err = download_target("bad", None, None).unwrap_err();
    assert!(matches!(&err, GitHubError::InvalidRepo(r) if r == "bad"));
    assert_eq!(err.message(), "Invalid repo format: bad");
}

#[test]
fn github_addresses() {
    assert_eq!(parse_github_url("https://github.com/o/r/tree/main").unwrap(), "o/r");
    assert_eq!(parse_github_url("  github.com/o/r ").unwrap(), "o/r");
    assert_eq!(parse_github_url("o/r").unwrap(), "o/r");
    assert!(parse_github_url("https://gitlab.com/o/r").is_none());
    assert!(parse_github_url("norepo").is_none());
    assert_eq!(repo_display_name("owner/repo"), "repo");
    assert_eq!(repo_display_name("plain"), "plain");
    assert_eq!(github_mod_key("o/r", Some("(根目录)"), Some("main")), "github:o/r");
    assert_eq!(github_mod_key("o/r", Some(""), None), "github:o/r");
    assert_eq!(github_mod_key("o/r", Some("m"), Some("dev")), "github:o/r:m@dev");
}

fn entry(path: &str, enabled: bool) -> ModEntry {
    ModEntry {
        path: path.to_string(),
        enabled,
        name: path.to_string(),
        user_config: UserConfig::new(),
    }
}

#[test]
fn moving_and_removing_entries() {
    let mut v = vec![1, 2, 3];
    move_mod_up(&mut v, 2);
    assert_eq!(v, vec![1, 3, 2]);
    move_mod_up(&mut v, 0);
    assert_eq!(v, vec![1, 3, 2]);
    move_mod_down(&mut v, 0);
    assert_eq!(v, vec![3, 1, 2]);
    move_mod_down(&mut v, 2);
    assert_eq!(v, vec![3, 1, 2]);
    remove_mod(&mut v, 1);
    assert_eq!(v, vec![3, 2]);
    remove_mod(&mut v, 5);
    assert_eq!(v, vec![3, 2]);
}

#[test]
fn mod_list_save_and_load() {
    let mods = vec![entry("mods/a", true), entry("mods/b", false), entry("github:o/r@dev", true)];
    let text = mod_list_text(&mods);
    assert_eq!(text, "mods/a\ngithub:o/r@dev");
    assert_eq!(mod_list_entries(&text), strings(&["mods/a", "github:o/r@dev"]));
    let (list, skipped) = ModList::parse(&text);
    assert!(skipped.is_empty());
    assert_eq!(list.sources.len(), 2);
    assert!(matches!(&list.sources[0], ModSource::Local { path } if path == "mods/a"));
    assert!(matches!(&list.sources[1], ModSource::GitHub { repo, .. } if repo == "o/r"));
}

#[test]
fn mod_list_entries_skip_comments() {
    let text = "# comment\n  mods/x  \r\n\n#mods/y\nmods/z";
    assert_eq!(mod_list_entries(text), strings(&["mods/x", "mods/z"]));
}

#[test]
fn entry_resolves_github_dirs() {
    assert_eq!(
        entry("github:o/r:sub@dev", true).resolve_github_path().unwrap(),
        strings(&["o", "r", "dev", "sub"])
    );
    assert!(entry("mods/local", true).resolve_github_path().is_none());
}

#[test]
fn text_helpers() {
    assert_eq!(trim(" \t a b \n"), "a b");
    assert_eq!(lines("a\r\nb\n\nc\n"), strings(&["a", "b", "", "c"]));
    assert_eq!(join(&strings(&["a", "b", "c"]), ", "), "a, b, c");
    assert_eq!(join(&Vec::new(), ","), "");
}

#[test]
fn lua_row_indices() {
    assert_eq!(max_positive_key(&vec![-3, 0]), 0);
    assert_eq!(next_row_index(&vec![]), 1);
    assert_eq!(next_row_index(&vec![3, -1, 7, 2]), 8);
    assert_eq!(array_bound(&vec![Some(1), Some(3)]), Some(3));
    assert_eq!(array_bound(&vec![Some(1), None]), None);
    assert_eq!(array_bound(&vec![Some(0)]), None);
    assert_eq!(array_bound(&vec![]), None);
    assert_eq!(array_bound(&vec![Some(2), Some(1), Some(3)]), Some(3));
}

#[test]
fn lua_rows_are_written_in_index_order() {
    let headers = strings(&["id", "name"]);
    let row_a = LuaRowTable {
        int_keys: vec![],
        indexed: vec![],
        named: vec![("id".to_string(), "2".to_string()), ("name".to_string(), "b".to_string())],
    };
    let row_b = LuaRowTable {
        int_keys: vec![1],
        indexed: vec![(1, "1".to_string())],
        named: vec![("name".to_string(), "a".to_string())],
    };
    let rows = lua_tsv_rows(&headers, &vec![(5, row_a), (2, row_b)]);
    assert_eq!(
        rows,
        vec![strings(&["id", "name"]), strings(&["1", "a"]), strings(&["2", "b"])]
    );
}

#[test]
fn lua_rows_without_headers_use_integer_keys() {
    let row = LuaRowTable {
        int_keys: vec![1, 3],
        indexed: vec![(1, "x".to_string()), (3, "z".to_string())],
        named: vec![],
    };
    assert_eq!(row.cells(&Vec::new()), strings(&["x", "", "z"]));
    let empty = LuaRowTable { int_keys: vec![], indexed: vec![], named: vec![] };
    let rows = lua_tsv_rows(&Vec::new(), &vec![(1, empty)]);
    assert!(rows.is_empty());
}

#[test]
fn lua_tsv_rows_read_then_written_back() {
    let headers = strings(&["id", "name", "level"]);
    let rows = vec![strings(&["1", "axe", "3"]), strings(&["2", "bow", "5"])];
    let listed: Vec<(i64, LuaRowTable)> = rows
        .iter()
        .enumerate()
        .map(|(i, r)| ((i + 1) as i64, LuaRowTable::from_tsv_row(&headers, r)))
        .collect();
    let written = lua_tsv_rows(&headers, &listed);
    let mut expected = vec![headers.clone()];
    expected.extend(rows.clone());
    assert_eq!(written, expected);
}

#[test]
fn lua_row_table_keys_cells_by_number_and_header() {
    let t = LuaRowTable::from_tsv_row(&strings(&["a", "b"]), &strings(&["x", "y", "z"]));
    assert_eq!(t.int_keys, vec![1, 2, 3]);
    assert_eq!(t.indexed, vec![(1, "x".to_string()), (2, "y".to_string()), (3, "z".to_string())]);
    assert_eq!(t.named.len(), 2);
    assert_eq!(t.cells(&strings(&["a", "b"])), strings(&["x", "y"]));
}

#[test]
fn subdirectory_choices_are_sorted_after_root() {
    let entries = vec![
        ("tree".to_string(), "mods/b".to_string()),
        ("blob".to_string(), "README.md".to_string()),
        ("tree".to_string(), "mods".to_string()),
        ("tree".to_string(), "Assets".to_string()),
        ("tree".to_string(), "mods/a".to_string()),
    ];
    assert_eq!(
        subdir_choices(&entries),
        strings(&["(根目录)", "Assets", "mods", "mods/a", "mods/b"])
    );
    assert_eq!(subdir_choices(&Vec::new()), strings(&["(根目录)"]));
}

#[test]
fn generate_checks_before_running() {
    let mods = vec![entry("mods/a", false), entry("github:o/r", true), entry("mods/c", true)];
    assert_eq!(generate_plan("", &mods).unwrap_err(), GenerateError::NoGamePath);
    assert_eq!(generate_plan("/game", &Vec::new()).unwrap_err(), GenerateError::NoMods);
    assert_eq!(
        generate_plan("/game", &vec![entry("mods/a", false)]).unwrap_err(),
        GenerateError::NoEnabledMods
    );
    assert_eq!(generate_plan("/game", &mods).unwrap(), strings(&["github:o/r", "mods/c"]));
    assert_eq!(GenerateError::NoGamePath.message(), "请先选择游戏路径");
    assert_eq!(GenerateError::NoMods.message(), "请先添加Mod");
    assert_eq!(GenerateError::NoEnabledMods.message(), "没有启用的Mod");
}
