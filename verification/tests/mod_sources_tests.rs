use infinite::mod_sources::{
    github_cache_dirs, github_source_key, resolve_github_key, ModList, ModSource, ModSourceError,
};

#[test]
fn test_parse_local() {
    let source = ModSource::parse("./mods/my_mod").unwrap();
    match source {
        ModSource::Local { path } => {
            assert_eq!(path, "./mods/my_mod");
        }
        _ => panic!("Expected Local source"),
    }
}

#[test]
fn test_parse_github_simple() {
    let source = ModSource::parse("github:user/repo").unwrap();
    match source {
        ModSource::GitHub { repo, subdir, branch } => {
            assert_eq!(repo, "user/repo");
            assert_eq!(subdir, None);
            assert_eq!(branch, None);
        }
        _ => panic!("Expected GitHub source"),
    }
}

#[test]
fn test_parse_github_with_subdir() {
    let source = ModSource::parse("github:user/repo:mods/my_mod").unwrap();
    match source {
        ModSource::GitHub { repo, subdir, branch } => {
            assert_eq!(repo, "user/repo");
            assert_eq!(subdir, Some("mods/my_mod".to_string()));
            assert_eq!(branch, None);
        }
        _ => panic!("Expected GitHub source"),
    }
}

#[test]
fn test_parse_github_with_branch() {
    let source = ModSource::parse("github:user/repo@dev").unwrap();
    match source {
        ModSource::GitHub { repo, subdir, branch } => {
            assert_eq!(repo, "user/repo");
            assert_eq!(subdir, None);
            assert_eq!(branch, Some("dev".to_string()));
        }
        _ => panic!("Expected GitHub source"),
    }
}

#[test]
fn test_parse_github_full() {
    let source = ModSource::parse("github:user/repo:mods/my_mod@dev").unwrap();
    match source {
        ModSource::GitHub { repo, subdir, branch } => {
            assert_eq!(repo, "user/repo");
            assert_eq!(subdir, Some("mods/my_mod".to_string()));
            assert_eq!(branch, Some("dev".to_string()));
        }
        _ => panic!("Expected GitHub source"),
    }
}

#[test]
fn parse_trims_surrounding_white_space() {
    match ModSource::parse("  \t./mods/a  ").unwrap() {
        ModSource::Local { path } => assert_eq!(path, "./mods/a"),
        _ => panic!("Expected Local source"),
    }
    match ModSource::parse("  github:o/r@b ").unwrap() {
        ModSource::GitHub { repo, subdir, branch } => {
            assert_eq!(repo, "o/r");
            assert_eq!(subdir, None);
            assert_eq!(branch, Some("b".to_string()));
        }
        _ => panic!("Expected GitHub source"),
    }
}

#[test]
fn parse_github_without_slash_is_invalid_repo() {
    let err = ModSource::parse("github:justrepo").unwrap_err();
    match &err {
        ModSourceError::InvalidRepo { repo } => assert_eq!(repo, "justrepo"),
    }
    assert_eq!(
        err.message(),
        "GitHub repo must be in format 'owner/repo', got: justrepo"
    );
}

#[test]
fn parse_github_branch_after_last_at_subdir_after_first_colon() {
    match ModSource::parse_github("o/r:a:b@x@y").unwrap() {
        ModSource::GitHub { repo, subdir, branch } => {
            assert_eq!(repo, "o/r");
            assert_eq!(subdir, Some("a:b@x".to_string()));
            assert_eq!(branch, Some("y".to_string()));
        }
        _ => panic!("Expected GitHub source"),
    }
}

#[test]
fn parse_local_keeps_non_github_prefix() {
    match ModSource::parse("gitlab:o/r").unwrap() {
        ModSource::Local { path } => assert_eq!(path, "gitlab:o/r"),
        _ => panic!("Expected Local source"),
    }
}

#[test]
fn mod_list_parse_skips_comments_and_blank_lines() {
    let text = "# Local mods\nmods/loot_filter\n\n  \n# GitHub\ngithub:user/d2r-mod\r\ngithub:bad\ngithub:user/repo:mods/specific_mod@branch\n";
    let (list, skipped) = ModList::parse(text);
    assert_eq!(list.sources.len(), 3);
    match &list.sources[0] {
        ModSource::Local { path } => assert_eq!(path, "mods/loot_filter"),
        _ => panic!("Expected Local source"),
    }
    match &list.sources[1] {
        ModSource::GitHub { repo, subdir, branch } => {
            assert_eq!(repo, "user/d2r-mod");
            assert_eq!(*subdir, None);
            assert_eq!(*branch, None);
        }
        _ => panic!("Expected GitHub source"),
    }
    match &list.sources[2] {
        ModSource::GitHub { repo, subdir, branch } => {
            assert_eq!(repo, "user/repo");
            assert_eq!(subdir.as_deref(), Some("mods/specific_mod"));
            assert_eq!(branch.as_deref(), Some("branch"));
        }
        _ => panic!("Expected GitHub source"),
    }
    assert_eq!(skipped.len(), 1);
    assert_eq!(skipped[0].line_number, 7);
    assert_eq!(skipped[0].line, "github:bad");
}

#[test]
fn mod_list_from_sources_keeps_order() {
    let list = ModList::from_sources(vec![
        ModSource::Local { path: "b".to_string() },
        ModSource::Local { path: "a".to_string() },
    ]);
    assert_eq!(list.sources.len(), 2);
    match &list.sources[0] {
        ModSource::Local { path } => assert_eq!(path, "b"),
        _ => panic!("Expected Local source"),
    }
}

#[test]
fn github_key_leaves_main_and_master_implicit() {
    assert_eq!(github_source_key("o/r", None, None), "github:o/r");
    assert_eq!(github_source_key("o/r", Some("d"), Some("main")), "github:o/r:d");
    assert_eq!(github_source_key("o/r", None, Some("master")), "github:o/r");
    assert_eq!(github_source_key("o/r", Some("d"), Some("dev")), "github:o/r:d@dev");
}

#[test]
fn github_key_parses_back() {
    let key = github_source_key("o/r", Some("mods/x"), Some("dev"));
    match ModSource::parse(&key).unwrap() {
        ModSource::GitHub { repo, subdir, branch } => {
            assert_eq!(repo, "o/r");
            assert_eq!(subdir.as_deref(), Some("mods/x"));
            assert_eq!(branch.as_deref(), Some("dev"));
        }
        _ => panic!("Expected GitHub source"),
    }
}

#[test]
fn cache_dirs_default_branch_and_subdir() {
    assert_eq!(
        github_cache_dirs("o/r", None, None).unwrap(),
        vec!["o".to_string(), "r".to_string(), "main".to_string()]
    );
    assert_eq!(
        github_cache_dirs("o/r", Some("sub"), Some("dev")).unwrap(),
        vec!["o".to_string(), "r".to_string(), "dev".to_string(), "sub".to_string()]
    );
    assert!(github_cache_dirs("o/r/x", None, None).is_none());
    assert!(github_cache_dirs("or", None, None).is_none());
}

#[test]
fn resolve_key_matches_download_dirs() {
    assert_eq!(
        resolve_github_key("github:o/r:sub@dev").unwrap(),
        github_cache_dirs("o/r", Some("sub"), Some("dev")).unwrap()
    );
    assert!(resolve_github_key("mods/local").is_none());
    assert!(resolve_github_key("github:norepo").is_none());
}

fn key_of_line(line: &str) -> String {
    match ModSource::parse(line).unwrap() {
        ModSource::GitHub { repo, subdir, branch } => {
            github_source_key(&repo, subdir.as_deref(), branch.as_deref())
        }
        _ => panic!("Expected GitHub source"),
    }
}

#[test]
fn source_key_is_the_list_line() {
    assert_eq!(key_of_line("github:o/r:sub@dev"), "github:o/r:sub@dev");
    assert_eq!(key_of_line("github:o/r"), "github:o/r");
    assert_eq!(key_of_line("github:o/r:a:b"), "github:o/r:a:b");
    assert_eq!(key_of_line("github:o/r@main"), "github:o/r");
}

#[test]
fn readme_mod_list_example() {
    let text = "# Local mods\nmods/loot_filter\nmods/increased_stash\n\n# GitHub mods  \ngithub:user/d2r-mod\ngithub:user/repo:mods/specific_mod@branch\n";
    let (list, skipped) = ModList::parse(text);
    assert!(skipped.is_empty());
    assert_eq!(list.sources.len(), 4);
    assert!(matches!(&list.sources[0], ModSource::Local { path } if path == "mods/loot_filter"));
    assert!(matches!(&list.sources[1], ModSource::Local { path } if path == "mods/increased_stash"));
    match &list.sources[2] {
        ModSource::GitHub { repo, subdir, branch } => {
            assert_eq!(repo, "user/d2r-mod");
            assert!(subdir.is_none() && branch.is_none());
        }
        _ => panic!("Expected GitHub source"),
    }
    match &list.sources[3] {
        ModSource::GitHub { repo, subdir, branch } => {
            assert_eq!(repo, "user/repo");
            assert_eq!(subdir.as_deref(), Some("mods/specific_mod"));
            assert_eq!(branch.as_deref(), Some("branch"));
        }
        _ => panic!("Expected GitHub source"),
    }
}
