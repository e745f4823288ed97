use bakery::cache::DigestMap;
use bakery::config::{CStandard, CppStandard, Distribution, Language, OptimizationLevel};
use bakery::project::Project;
use bakery::extensions::{file_name_part, join_path, with_extension, PathExtension};
use bakery::run::{Run, RunError};
use bakery::tools::{
    Ar, CCompilationSettings, CppCompilationSettings, GccFlavorArchiver, GccFlavorCCompiler,
    GccFlavorCppCompiler, LinkingSettings, GPP,
};

fn c_settings() -> CCompilationSettings {
    CCompilationSettings {
        distribution: Distribution::DynamicLibrary,
        standard: CStandard::Seventeen,
        optimization: OptimizationLevel::Two,
        includes: vec!["include".to_string()],
        enable_all_warnings: true,
        treat_all_warnings_as_errors: true,
        additional_pre_arguments: vec!["-m64".to_string()],
        additional_post_arguments: vec!["-pipe".to_string()],
    }
}

#[test]
fn c_compile_arguments_follow_the_flag_table() {
    let compiler = GccFlavorCCompiler::new("/usr/bin/gcc".to_string());
    assert_eq!(compiler.location(), "/usr/bin/gcc");
    let args = compiler.compile_arguments(
        &"src/main.c".to_string(),
        &".bakery/build/main.o".to_string(),
        &c_settings(),
    );
    assert_eq!(
        args,
        vec![
            "-m64".to_string(),
            "-c".to_string(),
            "-fPIC".to_string(),
            "-xc".to_string(),
            "-std=c17".to_string(),
            "-O2".to_string(),
            "-Wall".to_string(),
            "-Wpedantic".to_string(),
            "-Werror".to_string(),
            "src/main.c".to_string(),
            "-o.bakery/build/main.o".to_string(),
            "-Iinclude".to_string(),
            "-pipe".to_string(),
        ]
    );
}

#[test]
fn cpp_compile_arguments_use_the_cpp_dialect() {
    let compiler = GccFlavorCppCompiler::new("/usr/bin/g++".to_string());
    let settings = CppCompilationSettings {
        distribution: Distribution::Executable,
        standard: CppStandard::Twenty,
        optimization: OptimizationLevel::Size,
        includes: vec![],
        enable_all_warnings: false,
        treat_all_warnings_as_errors: false,
        additional_pre_arguments: vec![],
        additional_post_arguments: vec![],
    };
    let args = compiler.compile_arguments(
        &"src/main.cpp".to_string(),
        &"main.o".to_string(),
        &settings,
    );
    assert_eq!(
        args,
        vec![
            "-c".to_string(),
            "-xc++".to_string(),
            "-std=c++20".to_string(),
            "-Os".to_string(),
            "src/main.cpp".to_string(),
            "-omain.o".to_string(),
        ]
    );
}

#[test]
fn link_arguments_carry_objects_paths_and_libraries() {
    let compiler = GccFlavorCCompiler::new("/usr/bin/gcc".to_string());
    let settings = LinkingSettings {
        distribution: Distribution::DynamicLibrary,
        includes: vec!["include".to_string()],
        libraries: vec!["m".to_string(), "liba".to_string()],
        library_search_paths: vec!["liba/.bakery/build".to_string()],
    };
    let args = compiler.link_arguments(
        &vec!["main.o".to_string()],
        &"libdyn.so".to_string(),
        &settings,
    );
    assert_eq!(
        args,
        vec![
            "-shared".to_string(),
            "main.o".to_string(),
            "-olibdyn.so".to_string(),
            "-Iinclude".to_string(),
            "-Lliba/.bakery/build".to_string(),
            "-lm".to_string(),
            "-lliba".to_string(),
        ]
    );
}

#[test]
fn executables_link_without_shared() {
    let compiler = GccFlavorCppCompiler::new("/usr/bin/g++".to_string());
    let settings = LinkingSettings {
        distribution: Distribution::Executable,
        includes: vec![],
        libraries: vec![],
        library_search_paths: vec![],
    };
    let args = compiler.link_arguments(&vec!["main.o".to_string()], &"app".to_string(), &settings);
    assert_eq!(args, vec!["main.o".to_string(), "-oapp".to_string()]);
}

#[test]
fn archive_arguments_start_with_rcs() {
    let archiver = GccFlavorArchiver::new("/usr/bin/ar".to_string());
    assert_eq!(archiver.location(), "/usr/bin/ar");
    let args = archiver.archive_arguments(
        &vec!["a.o".to_string(), "b.o".to_string()],
        &"liba.a".to_string(),
    );
    assert_eq!(
        args,
        vec!["rcs".to_string(), "liba.a".to_string(), "a.o".to_string(), "b.o".to_string()]
    );
    let plain = Ar::new("/usr/bin/ar".to_string());
    let same = plain.archive_arguments(&vec!["a.o".to_string()], &"liba.a".to_string());
    assert_eq!(same, vec!["rcs".to_string(), "liba.a".to_string(), "a.o".to_string()]);
}

#[test]
fn gpp_handle_keeps_its_location() {
    let gpp = GPP::new("/opt/bin/g++".to_string());
    assert_eq!(gpp.location(), "/opt/bin/g++");
}

#[test]
fn join_path_inserts_exactly_one_separator() {
    assert_eq!(join_path("app", "src/main.c"), "app/src/main.c");
    assert_eq!(join_path("app/", "src/main.c"), "app/src/main.c");
    assert_eq!(join_path("", "src/main.c"), "src/main.c");
    assert_eq!(join_path("app", "/abs/path"), "/abs/path");
}

#[test]
fn file_names_and_extensions_are_computed_on_strings() {
    assert_eq!(file_name_part("src/dir/main.c"), "main.c");
    assert_eq!(file_name_part("main.c"), "main.c");
    assert_eq!(with_extension("main.c", "o"), "main.o");
    assert_eq!(with_extension("archive.tar.gz", "o"), "archive.tar.o");
    assert_eq!(with_extension("noext", "o"), "noext.o");
    assert_eq!(with_extension(".hidden", "o"), ".hidden.o");
    assert_eq!(with_extension("app", ""), "app");
    assert_eq!(with_extension("app.exe", ""), "app");
}

#[test]
fn relative_to_strips_a_directory_prefix() {
    let full = "root/src/main.c".to_string();
    let base = "root".to_string();
    assert_eq!(full.relative_to(&base), Some("src/main.c".to_string()));
    let same = "root".to_string();
    assert_eq!(same.relative_to(&base), Some("".to_string()));
    let other = "rooted/src".to_string();
    assert_eq!(other.relative_to(&base), None);
    let shorter = "ro".to_string();
    assert_eq!(shorter.relative_to(&base), None);
}

#[test]
fn run_names_its_dependency_on_build() {
    let run = Run::new();
    assert_eq!(run.id(), "run");
    assert_eq!(run.dependencies(), vec!["build".to_string()]);
}

#[test]
fn only_executables_can_run() {
    let mut project = Project {
        base_path: "app".to_string(),
        name: "app".to_string(),
        description: None,
        author: None,
        language: Language::C,
        distribution: Distribution::Executable,
        sources: vec![],
        includes: vec![],
        dependencies: vec![],
        optimization: OptimizationLevel::Zero,
        enable_all_warnings: false,
        treat_all_warnings_as_errors: false,
        has_project_configuration_changed: false,
        configuration_digest: "00".repeat(32),
        hashes: DigestMap::new(),
        c: None,
        cpp: None,
        gcc: None,
        gpp: None,
    };
    let run = Run::new();
    assert_eq!(run.executable_path(&project), Ok("app/.bakery/build/app".to_string()));
    project.distribution = Distribution::StaticLibrary;
    assert_eq!(run.executable_path(&project), Err(RunError::CannotRunNonExecutable));
}
