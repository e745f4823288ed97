//! A static library and an executable that links against it, driven
//! through the whole decision pipeline: resolution, staleness, compilation
//! bookkeeping, linking inputs, and a second run that has nothing to do.

use bakery::config::Distribution;
use bakery::config::Language;
use bakery::config::OptimizationLevel;
use bakery::orchestrator::{Build, CompileOutcome, SourceStatus};
use bakery::project::{
    PatternExpansion, Project, ProjectSettings, ProjectSnapshot, SnapshotConfiguration,
    SnapshotDependency, SourceEntry,
};

fn source_entry(path: &str) -> SourceEntry {
    SourceEntry {
        relative_path: path.to_string(),
        readable: true,
        exists: true,
        is_file: true,
        is_relative: true,
        is_symlink: false,
    }
}

fn snapshot(
    name: &str,
    base: &str,
    distribution: Distribution,
    source: &str,
    cache_content: Option<String>,
    dependencies: Vec<SnapshotDependency>,
) -> ProjectSnapshot {
    ProjectSnapshot {
        base_path: base.to_string(),
        configuration: SnapshotConfiguration::Parsed {
            bytes: format!("name = \"{}\"", name).into_bytes(),
            settings: ProjectSettings {
                name: name.to_string(),
                description: None,
                author: None,
                language: Language::C,
                distribution,
                optimization: OptimizationLevel::Zero,
                enable_all_warnings: false,
                treat_all_warnings_as_errors: false,
            },
            c: None,
            cpp: None,
            gcc: None,
            gpp: None,
        },
        cache_content,
        sources: vec![PatternExpansion::Matched {
            pattern: "src/*.c".to_string(),
            entries: vec![source_entry(source)],
        }],
        includes: vec![],
        dependencies,
    }
}

/// Runs the decision side of one project build: staleness, batch
/// bookkeeping, and the persisted cache text; returns the cache text.
fn build_one(build: &Build, project: &Project, content: &[u8]) -> String {
    let statuses = vec![SourceStatus { object_file_exists: false, content: Some(content.to_vec()) }];
    let stale = build.collect_sources_to_compile(project, &statuses);
    assert_eq!(stale, project.sources);
    let outcomes = vec![CompileOutcome::Compiled { content: content.to_vec() }];
    let digests = build.collect_compilation_results(&stale, &outcomes).unwrap();
    let updated = build.updated_hashes(&project.configuration_digest, &digests);
    build.serialize_hashes(&updated)
}

#[test]
fn library_and_executable_build_end_to_end() {
    let build = Build::new();

    // first run: open both projects with no cache on disk
    let liba = snapshot("liba", "liba", Distribution::StaticLibrary, "src/a.c", None, vec![]);
    let app = snapshot(
        "app",
        "app",
        Distribution::Executable,
        "src/main.c",
        None,
        vec![SnapshotDependency::Local {
            project: Box::new(
                snapshot("liba", "liba", Distribution::StaticLibrary, "src/a.c", None, vec![]),
            ),
        }],
    );
    let liba_project = Project::open(&liba).unwrap();
    let app_project = Project::open(&app).unwrap();

    // the library is built before the executable
    let sequence = build.build_sequence(&app_project);
    assert_eq!(sequence.len(), 1);
    assert_eq!(sequence[0].name, "liba");

    // the library compiles into its own build directory and archives there
    assert_eq!(build.output_file_path(&liba_project), "liba/.bakery/build/liba.a");
    let liba_cache = build_one(&build, &liba_project, b"int a;");

    // the executable links its own object plus the library's archive
    let deps = build.collect_project_dependencies(&app_project);
    let objects = build.collect_object_files(&app_project, &deps);
    assert_eq!(
        objects,
        vec!["app/.bakery/build/main.o".to_string(), "liba/.bakery/build/liba.a".to_string()]
    );
    assert_eq!(build.output_file_path(&app_project), "app/.bakery/build/app");
    let app_cache = build_one(&build, &app_project, b"int main() { return 0; }");

    // second run: reopen with the caches the first run wrote and with
    // nothing edited — no source is selected for recompilation
    let liba2 = snapshot(
        "liba",
        "liba",
        Distribution::StaticLibrary,
        "src/a.c",
        Some(liba_cache),
        vec![],
    );
    let app2 = snapshot(
        "app",
        "app",
        Distribution::Executable,
        "src/main.c",
        Some(app_cache),
        vec![SnapshotDependency::Local {
            project: Box::new(
                snapshot("liba", "liba", Distribution::StaticLibrary, "src/a.c", None, vec![]),
            ),
        }],
    );
    let liba_again = Project::open(&liba2).unwrap();
    let app_again = Project::open(&app2).unwrap();
    assert!(!liba_again.has_project_configuration_changed);
    assert!(!app_again.has_project_configuration_changed);

    let fresh_liba = vec![SourceStatus {
        object_file_exists: true,
        content: Some(b"int a;".to_vec()),
    }];
    assert!(build.collect_sources_to_compile(&liba_again, &fresh_liba).is_empty());
    let fresh_app = vec![SourceStatus {
        object_file_exists: true,
        content: Some(b"int main() { return 0; }".to_vec()),
    }];
    assert!(build.collect_sources_to_compile(&app_again, &fresh_app).is_empty());
}
