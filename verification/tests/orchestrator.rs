use bakery::cache::DigestMap;
use bakery::config::{
    CStandard, CppStandard, Distribution, Language, OptimizationLevel, ToolchainConfiguration,
};
use bakery::orchestrator::{Build, CompileOutcome, CopyOperation, SourceFileBuildError, SourceStatus};
use bakery::project::{Dependency, Project};

fn hex_digest(content: &[u8]) -> String {
    blake3::hash(content).to_hex().as_str().to_string()
}

fn plain_project(name: &str, base: &str, distribution: Distribution) -> Project {
    Project {
        base_path: base.to_string(),
        name: name.to_string(),
        description: None,
        author: None,
        language: Language::C,
        distribution,
        sources: vec![],
        includes: vec![],
        dependencies: vec![],
        optimization: OptimizationLevel::Zero,
        enable_all_warnings: false,
        treat_all_warnings_as_errors: false,
        has_project_configuration_changed: false,
        configuration_digest: hex_digest(b"configuration"),
        hashes: DigestMap::new(),
        c: None,
        cpp: None,
        gcc: None,
        gpp: None,
    }
}

fn fresh_status(content: &[u8]) -> SourceStatus {
    SourceStatus { object_file_exists: true, content: Some(content.to_vec()) }
}

#[test]
fn changed_content_is_stale() {
    let mut project = plain_project("demo1", ".", Distribution::Executable);
    project.sources = vec!["src/a.c".to_string(), "src/b.c".to_string()];
    project.hashes.insert("src/a.c".to_string(), hex_digest(b"old a"));
    project.hashes.insert("src/b.c".to_string(), hex_digest(b"same b"));
    let statuses = vec![fresh_status(b"new a"), fresh_status(b"same b")];
    let stale = Build::new().collect_sources_to_compile(&project, &statuses);
    assert_eq!(stale, vec!["src/a.c".to_string()]);
}

#[test]
fn missing_cache_entry_is_stale() {
    let mut project = plain_project("demo1", ".", Distribution::Executable);
    project.sources = vec!["src/a.c".to_string()];
    let statuses = vec![fresh_status(b"a")];
    let stale = Build::new().collect_sources_to_compile(&project, &statuses);
    assert_eq!(stale, vec!["src/a.c".to_string()]);
}

#[test]
fn missing_object_file_is_stale() {
    let mut project = plain_project("demo1", ".", Distribution::Executable);
    project.sources = vec!["src/a.c".to_string()];
    project.hashes.insert("src/a.c".to_string(), hex_digest(b"a"));
    let statuses = vec![SourceStatus { object_file_exists: false, content: Some(b"a".to_vec()) }];
    let stale = Build::new().collect_sources_to_compile(&project, &statuses);
    assert_eq!(stale, vec!["src/a.c".to_string()]);
}

#[test]
fn changed_configuration_selects_every_source() {
    let mut project = plain_project("demo1", ".", Distribution::Executable);
    project.sources = vec!["src/a.c".to_string(), "src/b.c".to_string()];
    project.has_project_configuration_changed = true;
    project.hashes.insert("src/a.c".to_string(), hex_digest(b"a"));
    project.hashes.insert("src/b.c".to_string(), hex_digest(b"b"));
    let statuses = vec![fresh_status(b"a"), fresh_status(b"b")];
    let stale = Build::new().collect_sources_to_compile(&project, &statuses);
    assert_eq!(stale, project.sources);
}

#[test]
fn up_to_date_project_selects_nothing() {
    let mut project = plain_project("demo1", ".", Distribution::Executable);
    project.sources = vec!["src/a.c".to_string()];
    project.hashes.insert("src/a.c".to_string(), hex_digest(b"a"));
    let statuses = vec![fresh_status(b"a")];
    let stale = Build::new().collect_sources_to_compile(&project, &statuses);
    assert!(stale.is_empty());
}

#[test]
fn successful_batch_collects_every_digest() {
    let sources = vec!["src/a.c".to_string(), "src/b.c".to_string()];
    let outcomes = vec![
        CompileOutcome::Compiled { content: b"a".to_vec() },
        CompileOutcome::Compiled { content: b"b".to_vec() },
    ];
    let digests = Build::new().collect_compilation_results(&sources, &outcomes).unwrap();
    assert_eq!(digests.get(&"src/a.c".to_string()), Some(hex_digest(b"a")));
    assert_eq!(digests.get(&"src/b.c".to_string()), Some(hex_digest(b"b")));
}

#[test]
fn one_failure_yields_exactly_one_error() {
    let sources = vec!["src/a.c".to_string(), "src/b.c".to_string(), "src/c.c".to_string()];
    let outcomes = vec![
        CompileOutcome::Compiled { content: b"a".to_vec() },
        CompileOutcome::CompileFailed { message: "b.c:1: error".to_string() },
        CompileOutcome::Compiled { content: b"c".to_vec() },
    ];
    match Build::new().collect_compilation_results(&sources, &outcomes) {
        Err(errors) => {
            assert_eq!(errors.len(), 1);
            match &errors[0] {
                SourceFileBuildError::FailedToCompile(m) => assert_eq!(m, "b.c:1: error"),
                _ => panic!("expected a compile failure"),
            }
        },
        Ok(_) => panic!("a failing batch must not produce a cache update"),
    }
}

#[test]
fn errors_keep_batch_order_and_kind() {
    let sources = vec!["src/a.c".to_string(), "src/b.c".to_string()];
    let outcomes = vec![
        CompileOutcome::ReadFailed { message: "io".to_string() },
        CompileOutcome::CompileFailed { message: "syntax".to_string() },
    ];
    let errors = Build::new().collect_compilation_results(&sources, &outcomes).unwrap_err();
    assert_eq!(errors.len(), 2);
    assert!(matches!(&errors[0], SourceFileBuildError::FailedToHash(m) if m == "io"));
    assert!(matches!(&errors[1], SourceFileBuildError::FailedToCompile(m) if m == "syntax"));
}

#[test]
fn updated_hashes_hold_the_configuration_and_the_batch() {
    let mut compiled = DigestMap::new();
    compiled.insert("src/a.c".to_string(), hex_digest(b"a"));
    let configuration_digest = hex_digest(b"configuration");
    let updated = Build::new().updated_hashes(&configuration_digest, &compiled);
    assert_eq!(updated.get(&"bakery.toml".to_string()), Some(configuration_digest));
    assert_eq!(updated.get(&"src/a.c".to_string()), Some(hex_digest(b"a")));
}

#[test]
fn serialized_hashes_read_back_as_the_same_mapping() {
    let mut map = DigestMap::new();
    map.insert("bakery.toml".to_string(), hex_digest(b"configuration"));
    map.insert("src/a.c".to_string(), hex_digest(b"a"));
    let text = Build::new().serialize_hashes(&map);
    let read = bakery::project::Project::read_hashes(Some(&text));
    assert_eq!(read.get(&"bakery.toml".to_string()), Some(hex_digest(b"configuration")));
    assert_eq!(read.get(&"src/a.c".to_string()), Some(hex_digest(b"a")));
    assert_eq!(read.get(&"src/b.c".to_string()), None);
}

#[test]
fn object_files_are_named_after_source_stems() {
    let mut project = plain_project("demo1", "app", Distribution::Executable);
    project.sources = vec!["src/main.c".to_string(), "src/extra.impl.c".to_string()];
    let build = Build::new();
    let deps = build.collect_project_dependencies(&project);
    let objects = build.collect_object_files(&project, &deps);
    assert_eq!(
        objects,
        vec![
            "app/.bakery/build/main.o".to_string(),
            "app/.bakery/build/extra.impl.o".to_string(),
        ]
    );
}

#[test]
fn static_library_archives_join_the_object_list() {
    let lib = plain_project("liba", "liba", Distribution::StaticLibrary);
    let mut project = plain_project("app", "app", Distribution::Executable);
    project.sources = vec!["src/main.c".to_string()];
    project.dependencies = vec![Dependency::Project(Box::new(lib))];
    let build = Build::new();
    let deps = build.collect_project_dependencies(&project);
    let objects = build.collect_object_files(&project, &deps);
    assert_eq!(
        objects,
        vec!["app/.bakery/build/main.o".to_string(), "liba/.bakery/build/liba.a".to_string()]
    );
}

#[test]
fn libraries_name_system_and_dynamic_dependencies() {
    let dynamic = plain_project("libdyn", "libdyn", Distribution::DynamicLibrary);
    let statik = plain_project("liba", "liba", Distribution::StaticLibrary);
    let mut project = plain_project("app", "app", Distribution::Executable);
    project.dependencies = vec![
        Dependency::System { name: "m".to_string() },
        Dependency::Project(Box::new(dynamic)),
        Dependency::Project(Box::new(statik)),
    ];
    let libraries = Build::new().collect_libraries(&project);
    assert_eq!(libraries, vec!["m".to_string(), "libdyn".to_string()]);
}

#[test]
fn search_paths_point_at_dependency_build_directories() {
    let lib = plain_project("liba", "deps/liba", Distribution::StaticLibrary);
    let mut project = plain_project("app", "app", Distribution::Executable);
    project.dependencies = vec![Dependency::Project(Box::new(lib))];
    let build = Build::new();
    let deps = build.collect_project_dependencies(&project);
    let paths = build.collect_library_search_paths(&deps);
    assert_eq!(paths, vec!["deps/liba/.bakery/build".to_string()]);
}

#[test]
fn output_artifacts_follow_the_distribution() {
    let build = Build::new();
    let exe = plain_project("app", "app", Distribution::Executable);
    assert_eq!(build.output_file_path(&exe), "app/.bakery/build/app");
    let statik = plain_project("liba", "liba", Distribution::StaticLibrary);
    assert_eq!(build.output_file_path(&statik), "liba/.bakery/build/liba.a");
    let dynamic = plain_project("libdyn", "libdyn", Distribution::DynamicLibrary);
    assert_eq!(build.output_file_path(&dynamic), "libdyn/.bakery/build/libdyn.so");
}

#[test]
fn artifacts_collect_dynamic_libraries_depth_first() {
    let inner = plain_project("libin", "libin", Distribution::DynamicLibrary);
    let mut middle = plain_project("libmid", "libmid", Distribution::DynamicLibrary);
    middle.dependencies = vec![Dependency::Project(Box::new(inner))];
    let mut project = plain_project("app", "app", Distribution::Executable);
    project.dependencies = vec![Dependency::Project(Box::new(middle))];
    let artifacts = Build::new().collect_artifacts(&project);
    assert_eq!(
        artifacts,
        vec![
            "libmid/.bakery/build/libmid.so".to_string(),
            "libin/.bakery/build/libin.so".to_string(),
        ]
    );
}

#[test]
fn self_copy_is_excluded_for_a_plain_dynamic_library() {
    let mut project = plain_project("libdyn", "libdyn", Distribution::DynamicLibrary);
    project.dependencies = vec![Dependency::System { name: "m".to_string() }];
    let copies = Build::new().collect_artifact_copies(&project);
    assert_eq!(copies.len(), 0);
}

#[test]
fn dependency_artifacts_are_copied_into_the_build_directory() {
    let inner = plain_project("libin", "libin", Distribution::DynamicLibrary);
    let mut project = plain_project("libdyn", "libdyn", Distribution::DynamicLibrary);
    project.dependencies = vec![Dependency::Project(Box::new(inner))];
    let copies: Vec<CopyOperation> = Build::new().collect_artifact_copies(&project);
    assert_eq!(copies.len(), 1);
    assert_eq!(copies[0].from, "libin/.bakery/build/libin.so");
    assert_eq!(copies[0].to, "libdyn/.bakery/build/libin.so");
}

#[test]
fn standards_fall_back_to_the_latest_revision() {
    let build = Build::new();
    let project = plain_project("demo1", ".", Distribution::Executable);
    assert!(matches!(build.get_c_standard(&project), CStandard::TwentyThree));
    assert!(matches!(build.get_cpp_standard(&project), CppStandard::TwentySix));
    assert!(matches!(CStandard::latest(), CStandard::TwentyThree));
    assert!(matches!(CppStandard::latest(), CppStandard::TwentySix));
}

#[test]
fn compilation_settings_mirror_the_project() {
    let mut project = plain_project("demo1", ".", Distribution::DynamicLibrary);
    project.includes = vec!["include".to_string()];
    project.enable_all_warnings = true;
    let settings = Build::new().c_compilation_settings(&project);
    assert!(matches!(settings.distribution, Distribution::DynamicLibrary));
    assert!(matches!(settings.standard, CStandard::TwentyThree));
    assert_eq!(settings.includes, vec!["include".to_string()]);
    assert!(settings.enable_all_warnings);
    assert!(!settings.treat_all_warnings_as_errors);
    assert!(settings.additional_pre_arguments.is_empty());
    assert!(settings.additional_post_arguments.is_empty());
}

#[test]
fn compilers_come_from_the_toolchain_locations() {
    let build = Build::new();
    let configured = ToolchainConfiguration {
        gcc_location: Some("/usr/bin/gcc".to_string()),
        gpp_location: None,
        ar_location: Some("/usr/bin/ar".to_string()),
    };
    let c = build.create_c_compiler(&configured).unwrap();
    assert_eq!(c.location(), "/usr/bin/gcc");
    assert!(build.create_cpp_compiler(&configured).is_none());
    let ar = build.create_archiver(&configured).unwrap();
    assert_eq!(ar.location(), "/usr/bin/ar");
}

#[test]
fn build_sequence_orders_descendants_before_dependents() {
    let inner = plain_project("libin", "libin", Distribution::StaticLibrary);
    let mut middle = plain_project("libmid", "libmid", Distribution::StaticLibrary);
    middle.dependencies = vec![Dependency::Project(Box::new(inner))];
    let other = plain_project("libother", "libother", Distribution::StaticLibrary);
    let mut project = plain_project("app", "app", Distribution::Executable);
    project.dependencies = vec![
        Dependency::Project(Box::new(middle)),
        Dependency::Project(Box::new(other)),
    ];
    let build = Build::new();
    let sequence = build.build_sequence(&project);
    let names: Vec<&str> = sequence.iter().map(|p| p.name.as_str()).collect();
    assert_eq!(names, vec!["libin", "libmid", "libother"]);
}

#[test]
fn partial_rebuild_rewrites_the_cache_wholesale() {
    // the persisted cache holds only the digests of the attempt that wrote
    // it, so a source that was fresh during a partial rebuild loses its
    // entry and counts as stale on the next run
    let mut project = plain_project("demo1", ".", Distribution::Executable);
    project.sources = vec!["src/a.c".to_string(), "src/b.c".to_string()];
    project.hashes.insert("src/a.c".to_string(), hex_digest(b"old a"));
    project.hashes.insert("src/b.c".to_string(), hex_digest(b"same b"));
    let build = Build::new();
    let statuses = vec![fresh_status(b"new a"), fresh_status(b"same b")];
    let stale = build.collect_sources_to_compile(&project, &statuses);
    assert_eq!(stale, vec!["src/a.c".to_string()]);
    let outcomes = vec![CompileOutcome::Compiled { content: b"new a".to_vec() }];
    let digests = build.collect_compilation_results(&stale, &outcomes).unwrap();
    let updated = build.updated_hashes(&project.configuration_digest, &digests);
    assert_eq!(updated.get(&"src/a.c".to_string()), Some(hex_digest(b"new a")));
    assert_eq!(updated.get(&"src/b.c".to_string()), None);

    let mut second = plain_project("demo1", ".", Distribution::Executable);
    second.sources = project.sources.clone();
    second.hashes = updated;
    let fresh = vec![fresh_status(b"new a"), fresh_status(b"same b")];
    let stale_again = build.collect_sources_to_compile(&second, &fresh);
    assert_eq!(stale_again, vec!["src/b.c".to_string()]);
}

#[test]
fn full_rebuild_then_unchanged_sources_recompile_nothing() {
    // first run: empty cache, so everything is compiled
    let mut project = plain_project("demo1", ".", Distribution::Executable);
    project.sources = vec!["src/a.c".to_string(), "src/b.c".to_string()];
    project.has_project_configuration_changed = true;
    let build = Build::new();
    let statuses = vec![
        SourceStatus { object_file_exists: false, content: Some(b"a".to_vec()) },
        SourceStatus { object_file_exists: false, content: Some(b"b".to_vec()) },
    ];
    let stale = build.collect_sources_to_compile(&project, &statuses);
    assert_eq!(stale, project.sources);
    let outcomes = vec![
        CompileOutcome::Compiled { content: b"a".to_vec() },
        CompileOutcome::Compiled { content: b"b".to_vec() },
    ];
    let digests = build.collect_compilation_results(&stale, &outcomes).unwrap();
    let updated = build.updated_hashes(&project.configuration_digest, &digests);

    // second run: the cache that the first run wrote, nothing edited
    let mut second = plain_project("demo1", ".", Distribution::Executable);
    second.sources = project.sources.clone();
    second.hashes = updated;
    second.has_project_configuration_changed = false;
    let fresh = vec![fresh_status(b"a"), fresh_status(b"b")];
    let stale_again = build.collect_sources_to_compile(&second, &fresh);
    assert_eq!(stale_again.len(), 0);
}
