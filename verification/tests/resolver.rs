use bakery::cache::DigestMap;
use bakery::config::{
    CConfiguration, CStandard, Distribution, GccConfiguration, Language, OptimizationLevel,
};
use bakery::project::{
    BuildConfigurationError, Dependency, IncludeEntry, PatternExpansion, Project, ProjectOpenError,
    ProjectSettings, ProjectSnapshot, SnapshotConfiguration, SnapshotDependency, SourceEntry,
};

fn settings(name: &str, distribution: Distribution) -> ProjectSettings {
    ProjectSettings {
        name: name.to_string(),
        description: None,
        author: None,
        language: Language::C,
        distribution,
        optimization: OptimizationLevel::Zero,
        enable_all_warnings: false,
        treat_all_warnings_as_errors: false,
    }
}

fn good_source(path: &str) -> SourceEntry {
    SourceEntry {
        relative_path: path.to_string(),
        readable: true,
        exists: true,
        is_file: true,
        is_relative: true,
        is_symlink: false,
    }
}

fn snapshot(name: &str, base: &str, distribution: Distribution) -> ProjectSnapshot {
    ProjectSnapshot {
        base_path: base.to_string(),
        configuration: SnapshotConfiguration::Parsed {
            bytes: format!("name = \"{}\"", name).into_bytes(),
            settings: settings(name, distribution),
            c: None,
            cpp: None,
            gcc: None,
            gpp: None,
        },
        cache_content: None,
        sources: vec![PatternExpansion::Matched {
            pattern: "src/*.c".to_string(),
            entries: vec![good_source("src/main.c")],
        }],
        includes: vec![],
        dependencies: vec![],
    }
}

#[test]
fn open_resolves_a_minimal_project() {
    let project = Project::open(&snapshot("demo1", ".", Distribution::Executable)).unwrap();
    assert_eq!(project.name, "demo1");
    assert_eq!(project.base_path, ".");
    assert_eq!(project.sources, vec!["src/main.c".to_string()]);
    assert!(project.includes.is_empty());
    assert!(project.dependencies.is_empty());
    // the cache was absent, so the configuration counts as changed
    assert!(project.has_project_configuration_changed);
}

#[test]
fn open_digests_the_raw_configuration_bytes() {
    let bytes = b"name = \"demo1\"".to_vec();
    let snap = snapshot("demo1", ".", Distribution::Executable);
    let project = Project::open(&snap).unwrap();
    let expected = blake3::hash(&bytes).to_hex().as_str().to_string();
    assert_eq!(project.configuration_digest, expected);
    assert_eq!(project.configuration_digest.len(), 64);
}

#[test]
fn open_reports_an_unreadable_configuration() {
    let mut snap = snapshot("demo1", ".", Distribution::Executable);
    snap.configuration = SnapshotConfiguration::Unreadable { message: "no such file".to_string() };
    match Project::open(&snap) {
        Err(ProjectOpenError::InvalidProjectPath(m)) => assert_eq!(m, "no such file"),
        _ => panic!("expected an invalid project path"),
    }
}

#[test]
fn open_reports_a_syntax_error() {
    let mut snap = snapshot("demo1", ".", Distribution::Executable);
    snap.configuration = SnapshotConfiguration::Malformed { message: "expected value".to_string() };
    match Project::open(&snap) {
        Err(ProjectOpenError::InvalidBuildConfiguration(BuildConfigurationError::SyntaxError(m))) => {
            assert_eq!(m, "expected value")
        },
        _ => panic!("expected a syntax error"),
    }
}

#[test]
fn open_rejects_an_invalid_name() {
    let snap = snapshot("!!!", ".", Distribution::Executable);
    match Project::open(&snap) {
        Err(ProjectOpenError::InvalidBuildConfiguration(BuildConfigurationError::InvalidName)) => {},
        _ => panic!("expected an invalid name"),
    }
}

#[test]
fn name_validation_looks_for_a_letter_then_a_letter_or_digit() {
    // the pattern is searched for anywhere in the name
    assert!(Project::open(&snapshot("a1", ".", Distribution::Executable)).is_ok());
    assert!(Project::open(&snapshot("??ab!!", ".", Distribution::Executable)).is_ok());
    assert!(Project::open(&snapshot("a", ".", Distribution::Executable)).is_err());
    assert!(Project::open(&snapshot("a_", ".", Distribution::Executable)).is_err());
    assert!(Project::open(&snapshot("", ".", Distribution::Executable)).is_err());
}

#[test]
fn open_reports_an_incorrect_wildcard() {
    let mut snap = snapshot("demo1", ".", Distribution::Executable);
    snap.sources = vec![PatternExpansion::Invalid { message: "unclosed bracket".to_string() }];
    match Project::open(&snap) {
        Err(ProjectOpenError::InvalidBuildConfiguration(
            BuildConfigurationError::IncorrectWildcard(m),
        )) => assert_eq!(m, "unclosed bracket"),
        _ => panic!("expected an incorrect wildcard"),
    }
}

#[test]
fn open_reports_an_unreadable_match_with_the_pattern() {
    let mut snap = snapshot("demo1", ".", Distribution::Executable);
    let mut entry = good_source("src/gone.c");
    entry.readable = false;
    snap.sources = vec![PatternExpansion::Matched {
        pattern: "src/*.c".to_string(),
        entries: vec![entry],
    }];
    match Project::open(&snap) {
        Err(ProjectOpenError::InvalidBuildConfiguration(
            BuildConfigurationError::IncorrectSource(m),
        )) => assert_eq!(m, "src/*.c"),
        _ => panic!("expected an incorrect source"),
    }
}

#[test]
fn open_reports_an_invalid_source_with_its_path() {
    let mut snap = snapshot("demo1", ".", Distribution::Executable);
    let mut entry = good_source("src/dir.c");
    entry.is_file = false;
    snap.sources = vec![PatternExpansion::Matched {
        pattern: "src/*.c".to_string(),
        entries: vec![entry],
    }];
    match Project::open(&snap) {
        Err(ProjectOpenError::InvalidBuildConfiguration(
            BuildConfigurationError::IncorrectSource(m),
        )) => assert_eq!(m, "src/dir.c"),
        _ => panic!("expected an incorrect source"),
    }
}

#[test]
fn sources_keep_declaration_order_and_duplicates() {
    let mut snap = snapshot("demo1", ".", Distribution::Executable);
    snap.sources = vec![
        PatternExpansion::Matched {
            pattern: "src/*.c".to_string(),
            entries: vec![good_source("src/a.c"), good_source("src/b.c")],
        },
        PatternExpansion::Matched {
            pattern: "src/a*.c".to_string(),
            entries: vec![good_source("src/a.c")],
        },
    ];
    let project = Project::open(&snap).unwrap();
    assert_eq!(
        project.sources,
        vec!["src/a.c".to_string(), "src/b.c".to_string(), "src/a.c".to_string()]
    );
}

#[test]
fn open_reports_an_incorrect_include() {
    let mut snap = snapshot("demo1", ".", Distribution::Executable);
    snap.includes = vec![IncludeEntry {
        path: "./missing".to_string(),
        exists: false,
        is_directory: false,
        is_relative: true,
        is_symlink: false,
    }];
    match Project::open(&snap) {
        Err(ProjectOpenError::InvalidBuildConfiguration(
            BuildConfigurationError::IncorrectInclude(m),
        )) => assert_eq!(m, "./missing"),
        _ => panic!("expected an incorrect include"),
    }
}

#[test]
fn includes_inherit_from_project_dependencies() {
    let mut lib = snapshot("liba", "liba", Distribution::StaticLibrary);
    lib.includes = vec![IncludeEntry {
        path: "liba/include".to_string(),
        exists: true,
        is_directory: true,
        is_relative: true,
        is_symlink: false,
    }];
    let mut snap = snapshot("demo1", ".", Distribution::Executable);
    snap.includes = vec![IncludeEntry {
        path: "./include".to_string(),
        exists: true,
        is_directory: true,
        is_relative: true,
        is_symlink: false,
    }];
    snap.dependencies = vec![SnapshotDependency::Local { project: Box::new(lib) }];
    let project = Project::open(&snap).unwrap();
    assert_eq!(project.includes, vec!["./include".to_string(), "liba/include".to_string()]);
}

#[test]
fn executable_dependencies_are_rejected() {
    let exe_dep = snapshot("tool1", "tool1", Distribution::Executable);
    let mut snap = snapshot("demo1", ".", Distribution::Executable);
    snap.dependencies = vec![SnapshotDependency::Local { project: Box::new(exe_dep) }];
    match Project::open(&snap) {
        Err(ProjectOpenError::InvalidBuildConfiguration(
            BuildConfigurationError::DependencyIsNotALibrary(m),
        )) => assert_eq!(m, "tool1"),
        _ => panic!("expected the library-only invariant to fire"),
    }
}

#[test]
fn nested_failures_propagate_unchanged() {
    let mut bad = snapshot("liba", "liba", Distribution::StaticLibrary);
    bad.configuration = SnapshotConfiguration::Malformed { message: "bad toml".to_string() };
    let mut snap = snapshot("demo1", ".", Distribution::Executable);
    snap.dependencies = vec![SnapshotDependency::Local { project: Box::new(bad) }];
    match Project::open(&snap) {
        Err(ProjectOpenError::InvalidBuildConfiguration(BuildConfigurationError::SyntaxError(m))) => {
            assert_eq!(m, "bad toml")
        },
        _ => panic!("expected the nested syntax error"),
    }
}

#[test]
fn system_dependencies_are_recorded_verbatim() {
    let mut snap = snapshot("demo1", ".", Distribution::Executable);
    snap.dependencies = vec![SnapshotDependency::System { name: "m".to_string() }];
    let project = Project::open(&snap).unwrap();
    match &project.dependencies[0] {
        Dependency::System { name } => assert_eq!(name, "m"),
        _ => panic!("expected a system dependency"),
    }
}

#[test]
fn configuration_change_is_detected_through_the_cache() {
    let mut snap = snapshot("demo1", ".", Distribution::Executable);
    let digest = blake3::hash(b"name = \"demo1\"").to_hex().as_str().to_string();
    let mut map = DigestMap::new();
    map.insert("bakery.toml".to_string(), digest);
    let text = bakery::orchestrator::Build::new().serialize_hashes(&map);
    snap.cache_content = Some(text);
    let project = Project::open(&snap).unwrap();
    assert!(!project.has_project_configuration_changed);

    // a cache recording a different digest means the configuration changed
    let mut other = DigestMap::new();
    other.insert("bakery.toml".to_string(), "00".repeat(32));
    let mut snap2 = snapshot("demo1", ".", Distribution::Executable);
    snap2.cache_content = Some(bakery::orchestrator::Build::new().serialize_hashes(&other));
    let project2 = Project::open(&snap2).unwrap();
    assert!(project2.has_project_configuration_changed);
}

#[test]
fn read_hashes_tolerates_missing_and_malformed_caches() {
    let empty = Project::read_hashes(None);
    assert!(empty.get(&"bakery.toml".to_string()).is_none());
    let bad = "not json".to_string();
    let tolerated = Project::read_hashes(Some(&bad));
    assert!(tolerated.get(&"bakery.toml".to_string()).is_none());
    let good = "{\"src/a.c\": \"aa\", \"src/b.c\": \"bb\"}".to_string();
    let map = Project::read_hashes(Some(&good));
    assert_eq!(map.get(&"src/a.c".to_string()), Some("aa".to_string()));
    assert_eq!(map.get(&"src/b.c".to_string()), Some("bb".to_string()));
    assert_eq!(map.get(&"src/c.c".to_string()), None);
    assert!(map.contains(&"src/a.c".to_string()));
    assert!(!map.contains(&"src/c.c".to_string()));
}

#[test]
fn configuration_blocks_carry_over() {
    let mut snap = snapshot("demo1", ".", Distribution::Executable);
    snap.configuration = SnapshotConfiguration::Parsed {
        bytes: b"name = \"demo1\"".to_vec(),
        settings: settings("demo1", Distribution::Executable),
        c: Some(CConfiguration { standard: Some(CStandard::Eleven) }),
        cpp: None,
        gcc: Some(GccConfiguration {
            additional_pre_arguments: vec!["-m64".to_string()],
            additional_post_arguments: vec![],
        }),
        gpp: None,
    };
    let project = Project::open(&snap).unwrap();
    assert!(matches!(project.c, Some(CConfiguration { standard: Some(CStandard::Eleven) })));
    let gcc = project.gcc.as_ref().unwrap();
    assert_eq!(gcc.additional_pre_arguments, vec!["-m64".to_string()]);
    assert!(gcc.additional_post_arguments.is_empty());
}
