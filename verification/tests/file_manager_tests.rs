use infinite::file_manager::{
    CacheRead, ExtractAction, FileManager, FileManagerError, FileOperationType, FileSummary,
};

#[test]
fn test_file_tracking() {
    let mut fm = FileManager::new();

    assert!(!fm.file_exists("test.json"));

    fm.record_extract("test.json", "mod1");
    assert!(fm.file_exists("test.json"));
    assert!(fm.is_extracted("test.json"));
    assert!(!fm.is_modified("test.json"));

    fm.record_write("test.json", "mod2");
    assert!(fm.is_modified("test.json"));

    let status = fm.get_status("test.json").unwrap();
    assert_eq!(status.operations.len(), 2);
}

#[test]
fn manager_test_path_normalization() {
    let mut fm = FileManager::new();

    fm.record_extract("Path\\To\\File.json", "mod1");

    assert!(fm.file_exists("path/to/file.json"));
    assert!(fm.file_exists("PATH\\TO\\FILE.JSON"));
}

#[test]
fn normalize_path_lowercases_and_uses_slashes() {
    assert_eq!(FileManager::normalize_path("Data\\Global\\Excel.TXT"), "data/global/excel.txt");
    assert_eq!(FileManager::normalize_path("a/b"), "a/b");
    assert_eq!(FileManager::normalize_path(""), "");
}

#[test]
fn operations_are_recorded_in_order() {
    let mut fm = FileManager::new();
    fm.record_read("x.txt", "m1");
    fm.record_write("X.txt", "m2");
    fm.record_extract("x.TXT", "m3");
    let status = fm.get_status("x.txt").unwrap();
    assert_eq!(status.file_path, "x.txt");
    assert_eq!(status.operations.len(), 3);
    assert_eq!(status.operations[0].op_type, FileOperationType::Read);
    assert_eq!(status.operations[0].mod_id, "m1");
    assert_eq!(status.operations[1].op_type, FileOperationType::Write);
    assert_eq!(status.operations[2].op_type, FileOperationType::Extract);
    assert_eq!(status.operations[2].mod_id, "m3");
    assert!(status.modified);
    assert!(status.extracted);
    assert_eq!(fm.get_all_statuses().len(), 1);
}

#[test]
fn read_marks_a_file_as_existing_only() {
    let mut fm = FileManager::new();
    fm.record_read("r.txt", "m");
    assert!(fm.get_status("r.txt").is_some());
    assert!(fm.file_exists("r.txt"));
    assert!(!fm.is_modified("r.txt"));
    assert!(!fm.is_extracted("r.txt"));
}

#[test]
fn files_modified_by_a_mod() {
    let mut fm = FileManager::new();
    fm.record_write("a.txt", "m1");
    fm.record_write("b.txt", "m2");
    fm.record_read("c.txt", "m1");
    fm.record_write("d.txt", "m1");
    let mine = fm.get_files_modified_by("m1");
    assert_eq!(mine.len(), 2);
    assert_eq!(mine[0].file_path, "a.txt");
    assert_eq!(mine[1].file_path, "d.txt");
    assert!(fm.get_files_modified_by("nobody").is_empty());
}

#[test]
fn summary_counts() {
    let mut fm = FileManager::new();
    assert_eq!(fm.summary(), FileSummary { total: 0, extracted: 0, modified: 0 });
    fm.record_extract("a", "m");
    fm.record_write("b", "m");
    fm.record_extract("c", "m");
    fm.record_write("c", "m");
    fm.record_read("d", "m");
    assert_eq!(fm.summary(), FileSummary { total: 4, extracted: 2, modified: 2 });
}

#[test]
fn read_after_write_through_cache() {
    let mut fm = FileManager::new();
    fm.set_output_path("/out".to_string());
    fm.write_file_to_cache("Global\\Data.json", b"first".to_vec(), "m1");
    fm.write_file_to_cache("global/data.json", b"second".to_vec(), "m2");
    assert!(fm.is_cached("GLOBAL/DATA.JSON"));
    match fm.read_file_with_cache("global/data.json", "m3") {
        CacheRead::Cached(c) => assert_eq!(c, b"second".to_vec()),
        other => panic!("unexpected {:?}", other),
    }
    assert!(fm.is_modified("GLOBAL\\DATA.JSON"));
    let status = fm.get_status("global/data.json").unwrap();
    assert_eq!(status.operations.len(), 3);
    assert_eq!(status.operations[1].op_type, FileOperationType::Write);
    assert_eq!(status.operations[1].mod_id, "m2");
    assert_eq!(status.operations[2].op_type, FileOperationType::Read);
}

#[test]
fn read_of_uncached_file_points_to_disk() {
    let mut fm = FileManager::new();
    assert!(matches!(fm.read_file_with_cache("a.txt", "m"), CacheRead::NoOutputPath));
    fm.set_output_path("/out".to_string());
    match fm.read_file_with_cache("Dir\\A.txt", "m") {
        CacheRead::OnDisk { output_path, relative_path } => {
            assert_eq!(output_path, "/out");
            assert_eq!(relative_path, "dir/a.txt");
        }
        other => panic!("unexpected {:?}", other),
    }
    assert!(fm.get_status("dir/a.txt").is_none());
}

#[test]
fn flush_needs_output_path() {
    let mut fm = FileManager::new();
    fm.write_file_to_cache("a.txt", b"x".to_vec(), "m");
    assert_eq!(fm.flush_cache().unwrap_err(), FileManagerError::OutputPathNotSet);
}

#[test]
fn flush_hands_out_dirty_files_once() {
    let mut fm = FileManager::new();
    fm.set_output_path("/out".to_string());
    fm.write_file_to_cache("a.txt", b"x".to_vec(), "m");
    fm.write_file_to_cache("b.txt", b"y".to_vec(), "m");
    let (out, mut files) = fm.flush_cache().unwrap();
    assert_eq!(out, "/out");
    files.sort();
    assert_eq!(files.len(), 2);
    assert_eq!(files[0], ("a.txt".to_string(), b"x".to_vec()));
    assert_eq!(files[1], ("b.txt".to_string(), b"y".to_vec()));
    assert!(!fm.is_cached("a.txt"));
    let (_, again) = fm.flush_cache().unwrap();
    assert!(again.is_empty());
}

#[test]
fn paths_are_kept() {
    let mut fm = FileManager::new();
    assert!(fm.output_path().is_none());
    assert!(fm.game_path().is_none());
    fm.set_game_path("/game".to_string());
    fm.set_output_path("/out".to_string());
    assert_eq!(fm.game_path().unwrap(), "/game");
    assert_eq!(fm.output_path().unwrap(), "/out");
}

#[test]
fn extraction_actions() {
    let mut fm = FileManager::new();
    assert_eq!(fm.extraction_action("a", true, false, true), ExtractAction::NotFound);
    fm.set_output_path("/out".to_string());
    assert_eq!(fm.extraction_action("a", true, false, true), ExtractAction::ExtractFromCasc);
    assert_eq!(fm.extraction_action("a", false, false, true), ExtractAction::NotFound);
    fm.set_game_path("/game".to_string());
    assert_eq!(fm.extraction_action("a", false, false, true), ExtractAction::CopyFromGame);
    assert_eq!(fm.extraction_action("a", false, false, false), ExtractAction::NotFound);
    fm.record_extract("A", "m");
    assert_eq!(fm.extraction_action("a", false, true, false), ExtractAction::UseExisting);
    assert_eq!(fm.extraction_action("a", true, false, false), ExtractAction::ExtractFromCasc);
}

#[test]
fn statuses_stay_consistent() {
    let mut fm = FileManager::new();
    fm.record_read("a.txt", "m");
    fm.record_write("b.txt", "m");
    fm.record_extract("c.txt", "m");
    fm.record_read("c.txt", "n");
    for s in fm.get_all_statuses() {
        assert!(s.exists);
        assert!(!s.operations.is_empty());
        let extracted = s.operations.iter().any(|o| o.op_type == FileOperationType::Extract);
        let written = s.operations.iter().any(|o| o.op_type == FileOperationType::Write);
        assert_eq!(s.extracted, extracted);
        assert_eq!(s.game_file, if extracted { Some(true) } else { None });
        assert_eq!(s.modified, written);
        assert_eq!(fm.get_status(&s.file_path).unwrap().file_path, s.file_path);
    }
}

#[test]
fn read_after_write_with_operations_between() {
    let mut fm = FileManager::new();
    fm.write_file_to_cache("Data\\X.json", b"v1".to_vec(), "m1");
    fm.record_read("data/x.json", "m2");
    fm.write_file_to_cache("other.json", b"o".to_vec(), "m2");
    fm.set_game_path("/game".to_string());
    let _ = fm.read_file_with_cache("other.json", "m3");
    match fm.read_file_with_cache("DATA/x.JSON", "m4") {
        CacheRead::Cached(c) => assert_eq!(c, b"v1".to_vec()),
        other => panic!("unexpected {:?}", other),
    }
    let status = fm.get_status("data/x.json").unwrap();
    let last = status.operations.last().unwrap();
    assert_eq!(last.op_type, FileOperationType::Read);
    assert_eq!(last.mod_id, "m4");
}
