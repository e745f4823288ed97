//! The build orchestrator's decision logic.
//!
//! Everything here is a pure function of the resolved project tree and of
//! the facts the surrounding program observed: which object files exist,
//! what each source file currently contains, and how each compilation in a
//! batch ended.  The surrounding program walks the dependency tree, spawns
//! the toolchain and copies files exactly as these functions direct.

use crate::cache::{json_encode_digests, spec_json_digest_map, DigestMap};
use crate::config::{CStandard, CppStandard, Distribution, ToolchainConfiguration};
use crate::digest::{content_digest, spec_content_digest};
use crate::extensions::{
    file_name_part, join_path, spec_file_name, spec_join_path, spec_with_extension, with_extension,
};
use crate::project::{spec_configuration_changed, Dependency, Project};
use crate::tools::{CCompilationSettings, CppCompilationSettings, GccFlavorArchiver, GccFlavorCCompiler, GccFlavorCppCompiler};
use crate::{spec_build_directory, spec_configuration_file_name};
use vstd::prelude::*;

verus! {

broadcast use vstd::std_specs::vec::group_vec_axioms;

/// The task that builds the project tree.
pub struct Build {}

/// What the surrounding program observed about one source file when the
/// build started: whether its object file exists, and the source bytes when
/// the file could be read.
pub struct SourceStatus {
    pub object_file_exists: bool,
    pub content: Option<Vec<u8>>,
}

/// How compiling one source ended.
pub enum CompileOutcome {
    /// The compiler succeeded; the source bytes are digested and recorded.
    Compiled { content: Vec<u8> },
    /// The compiler failed; `message` is the captured diagnostic text.
    CompileFailed { message: String },
    /// The compiled source could not be read back for digesting.
    ReadFailed { message: String },
}

/// Why one source file failed during a compilation batch.
#[derive(Debug)]
pub enum SourceFileBuildError {
    FailedToCompile(String),
    FailedToHash(String),
}

/// The per-source errors, with their payloads as character sequences.
pub ghost enum SourceErrorModel {
    FailedToCompile(Seq<char>),
    FailedToHash(Seq<char>),
}

impl View for SourceFileBuildError {
    type V = SourceErrorModel;

    open spec fn view(&self) -> SourceErrorModel {
        match self {
            SourceFileBuildError::FailedToCompile(m) => SourceErrorModel::FailedToCompile(m@),
            SourceFileBuildError::FailedToHash(m) => SourceErrorModel::FailedToHash(m@),
        }
    }
}

impl DeepView for SourceFileBuildError {
    type V = SourceErrorModel;

    open spec fn deep_view(&self) -> SourceErrorModel {
        self.view()
    }
}

/// Why a project build failed.  The compilation variant aggregates every
/// per-source failure of one batch; a dependency's failure is wrapped so
/// the root cause stays inspectable.
#[derive(Debug)]
pub enum ProjectBuildError {
    FailedToCreateBakeryDirectories(String),
    FailedToOpenFile(String),
    FailedToSaveHashes(String),
    CompilationError(Vec<SourceFileBuildError>),
    LinkageError(String),
    ArchivalError(String),
    FailedToBuildDependency { name: String, cause: Box<ProjectBuildError> },
}

// ---------------------------------------------------------------------------
// Staleness
// ---------------------------------------------------------------------------
/// Whether source `i` must be recompiled: no digest is recorded for it, or
/// its object file is absent, or its current content digest differs from
/// the recorded one.  An unreadable source alone does not make it stale.
pub open spec fn spec_source_stale(p: Project, statuses: Seq<SourceStatus>, i: int) -> bool
    recommends
        statuses.len() == p.sources@.len(),
        0 <= i < p.sources@.len(),
{
    if !p.hashes@.contains_key(p.sources@[i]@) {
        true
    } else {
        ||| !statuses[i].object_file_exists
        ||| (statuses[i].content matches Some(bytes) && spec_content_digest(bytes@)
            != p.hashes@[p.sources@[i]@])
    }
}

/// The stale sources from index `i` on, in declaration order.
pub open spec fn spec_stale_sources(p: Project, statuses: Seq<SourceStatus>, i: int) -> Seq<
    Seq<char>,
>
    recommends
        statuses.len() == p.sources@.len(),
        0 <= i <= p.sources@.len(),
    decreases p.sources@.len() - i,
    when i >= 0
{
    if i >= p.sources@.len() {
        Seq::empty()
    } else if spec_source_stale(p, statuses, i) {
        seq![p.sources@[i]@] + spec_stale_sources(p, statuses, i + 1)
    } else {
        spec_stale_sources(p, statuses, i + 1)
    }
}

/// The sources a build must recompile: all of them when the configuration
/// changed, and the stale ones otherwise.
pub open spec fn spec_sources_to_compile(p: Project, statuses: Seq<SourceStatus>) -> Seq<
    Seq<char>,
> {
    if p.has_project_configuration_changed {
        p.sources.deep_view()
    } else {
        spec_stale_sources(p, statuses, 0)
    }
}

// ---------------------------------------------------------------------------
// Batch aggregation
// ---------------------------------------------------------------------------
/// The error of one outcome, if any.
pub open spec fn spec_outcome_error(o: CompileOutcome) -> Option<SourceErrorModel> {
    match o {
        CompileOutcome::Compiled { .. } => None,
        CompileOutcome::CompileFailed { message } => Some(
            SourceErrorModel::FailedToCompile(message@),
        ),
        CompileOutcome::ReadFailed { message } => Some(SourceErrorModel::FailedToHash(message@)),
    }
}

/// The errors of a batch, in batch order.
pub open spec fn spec_batch_errors(outcomes: Seq<CompileOutcome>) -> Seq<SourceErrorModel>
    decreases outcomes.len(),
{
    if outcomes.len() == 0 {
        Seq::empty()
    } else {
        (match spec_outcome_error(outcomes[0]) {
            Some(e) => seq![e],
            None => Seq::empty(),
        }) + spec_batch_errors(outcomes.drop_first())
    }
}

/// The digests a fully or partially successful batch collected: one entry
/// per compiled source, a later duplicate winning.
pub open spec fn spec_batch_digests(
    sources: Seq<Seq<char>>,
    outcomes: Seq<CompileOutcome>,
) -> Map<Seq<char>, Seq<char>>
    recommends
        sources.len() == outcomes.len(),
    decreases outcomes.len(),
{
    if outcomes.len() == 0 {
        Map::empty()
    } else {
        let rest = spec_batch_digests(sources.drop_last(), outcomes.drop_last());
        match outcomes.last() {
            CompileOutcome::Compiled { content } => rest.insert(
                sources.last(),
                spec_content_digest(content@),
            ),
            _ => rest,
        }
    }
}

/// The cache a successful build persists: the configuration digest plus the
/// digests the batch collected, the batch winning on a shared key.
pub open spec fn spec_updated_hashes(
    configuration_digest: Seq<char>,
    compiled: Map<Seq<char>, Seq<char>>,
) -> Map<Seq<char>, Seq<char>> {
    map![spec_configuration_file_name() => configuration_digest].union_prefer_right(compiled)
}

// ---------------------------------------------------------------------------
// Artifacts and invocation inputs
// ---------------------------------------------------------------------------
/// The build output directory of a project.
pub open spec fn spec_build_dir_path(base: Seq<char>) -> Seq<char> {
    spec_join_path(base, spec_build_directory())
}

/// The object file that a source compiles to, named after the source's file
/// stem.
pub open spec fn spec_object_file_path(base: Seq<char>, source: Seq<char>) -> Seq<char> {
    spec_join_path(spec_build_dir_path(base), spec_with_extension(spec_file_name(source), "o"@))
}

/// A file name with an extension appended after a dot.
pub open spec fn spec_dotted_name(name: Seq<char>, extension: Seq<char>) -> Seq<char> {
    name + "."@ + extension
}

/// The project dependencies of a project, in declaration order.
pub open spec fn spec_project_dependencies(deps: Seq<Dependency>) -> Seq<Project>
    decreases deps.len(),
{
    if deps.len() == 0 {
        Seq::empty()
    } else {
        (match deps[0] {
            Dependency::Project(p) => seq![*p],
            Dependency::System { .. } => Seq::empty(),
        }) + spec_project_dependencies(deps.drop_first())
    }
}

/// The library names handed to the linker: system dependency names and the
/// names of dynamic-library project dependencies, in declaration order.
pub open spec fn spec_libraries(deps: Seq<Dependency>) -> Seq<Seq<char>>
    decreases deps.len(),
{
    if deps.len() == 0 {
        Seq::empty()
    } else {
        (match deps[0] {
            Dependency::System { name } => seq![name@],
            Dependency::Project(p) => if p.distribution == Distribution::DynamicLibrary {
                seq![p.name@]
            } else {
                Seq::empty()
            },
        }) + spec_libraries(deps.drop_first())
    }
}

/// The object-file list handed to the linker or archiver: one object per
/// source, then the archive of every static-library project dependency.
pub open spec fn spec_object_files(p: Project, project_deps: Seq<Project>) -> Seq<Seq<char>> {
    p.sources.deep_view().map_values(|s: Seq<char>| spec_object_file_path(p.base_path@, s))
        + project_deps.filter(|d: Project| d.distribution == Distribution::StaticLibrary)
        .map_values(
        |d: Project| spec_join_path(
            spec_build_dir_path(d.base_path@),
            spec_dotted_name(d.name@, "a"@),
        ),
    )
}

/// The artifact file of a project, named after the project: no extension
/// for an executable, `a` for a static library, `so` for a dynamic library.
pub open spec fn spec_output_file_path(p: Project) -> Seq<char> {
    spec_join_path(
        spec_build_dir_path(p.base_path@),
        match p.distribution {
            Distribution::Executable => spec_with_extension(p.name@, Seq::empty()),
            Distribution::StaticLibrary => spec_with_extension(p.name@, "a"@),
            Distribution::DynamicLibrary => spec_with_extension(p.name@, "so"@),
        },
    )
}

/// Every dynamic-library artifact in the dependency subtree, the project's
/// own first, depth-first in declaration order.
pub open spec fn spec_artifacts(p: Project) -> Seq<Seq<char>>
    decreases p,
{
    (if p.distribution == Distribution::DynamicLibrary {
        seq![
            spec_join_path(spec_build_dir_path(p.base_path@), spec_dotted_name(p.name@, "so"@)),
        ]
    } else {
        Seq::empty()
    }) + spec_dependency_artifacts(p.dependencies@)
}

pub open spec fn spec_dependency_artifacts(deps: Seq<Dependency>) -> Seq<Seq<char>>
    decreases deps,
{
    if deps.len() == 0 {
        Seq::empty()
    } else {
        (match deps[0] {
            Dependency::Project(sub) => spec_artifacts(*sub),
            Dependency::System { .. } => Seq::empty(),
        }) + spec_dependency_artifacts(deps.drop_first())
    }
}

/// The copies that artifact propagation performs: every collected artifact
/// is copied into the project's build directory, except the first one when
/// the project itself is a dynamic library — that artifact already lies
/// there, and copying a file onto itself must be skipped, not attempted.
pub open spec fn spec_artifact_copies(p: Project) -> Seq<(Seq<char>, Seq<char>)> {
    let artifacts = spec_artifacts(p);
    let skipped = if p.distribution == Distribution::DynamicLibrary {
        artifacts.skip(1)
    } else {
        artifacts
    };
    skipped.map_values(
        |a: Seq<char>| (a, spec_join_path(spec_build_dir_path(p.base_path@), spec_file_name(a))),
    )
}

/// One pending artifact copy.
pub struct CopyOperation {
    pub from: String,
    pub to: String,
}

impl View for CopyOperation {
    type V = (Seq<char>, Seq<char>);

    open spec fn view(&self) -> (Seq<char>, Seq<char>) {
        (self.from@, self.to@)
    }
}

impl DeepView for CopyOperation {
    type V = (Seq<char>, Seq<char>);

    open spec fn deep_view(&self) -> (Seq<char>, Seq<char>) {
        self.view()
    }
}

/// The language standard used to compile C sources: the configured one, or
/// the latest supported revision.
pub open spec fn spec_c_standard(p: Project) -> CStandard {
    match p.c {
        Some(c) => match c.standard {
            Some(s) => s,
            None => CStandard::TwentyThree,
        },
        None => CStandard::TwentyThree,
    }
}

/// The language standard used to compile C++ sources: the configured one,
/// or the latest supported revision.
pub open spec fn spec_cpp_standard(p: Project) -> CppStandard {
    match p.cpp {
        Some(cpp) => match cpp.standard {
            Some(s) => s,
            None => CppStandard::TwentySix,
        },
        None => CppStandard::TwentySix,
    }
}

/// The extra C compiler arguments injected before the engine's own flags.
pub open spec fn spec_gcc_pre_arguments(p: Project) -> Seq<Seq<char>> {
    match p.gcc {
        Some(g) => g.additional_pre_arguments.deep_view(),
        None => Seq::empty(),
    }
}

/// The extra C compiler arguments injected after the engine's own flags.
pub open spec fn spec_gcc_post_arguments(p: Project) -> Seq<Seq<char>> {
    match p.gcc {
        Some(g) => g.additional_post_arguments.deep_view(),
        None => Seq::empty(),
    }
}

/// The extra C++ compiler arguments injected before the engine's own flags.
pub open spec fn spec_gpp_pre_arguments(p: Project) -> Seq<Seq<char>> {
    match p.gpp {
        Some(g) => g.additional_pre_arguments.deep_view(),
        None => Seq::empty(),
    }
}

/// The extra C++ compiler arguments injected after the engine's own flags.
pub open spec fn spec_gpp_post_arguments(p: Project) -> Seq<Seq<char>> {
    match p.gpp {
        Some(g) => g.additional_post_arguments.deep_view(),
        None => Seq::empty(),
    }
}

/// The descendants of a project in the order they are built: every project
/// dependency preceded by its own descendants, depth-first, left to right —
/// a dependency reachable twice is built twice.
pub open spec fn spec_build_sequence(p: Project) -> Seq<Project>
    decreases p,
{
    spec_dependency_build_sequence(p.dependencies@)
}

pub open spec fn spec_dependency_build_sequence(deps: Seq<Dependency>) -> Seq<Project>
    decreases deps,
{
    if deps.len() == 0 {
        Seq::empty()
    } else {
        (match deps[0] {
            Dependency::Project(sub) => spec_build_sequence(*sub) + seq![*sub],
            Dependency::System { .. } => Seq::empty(),
        }) + spec_dependency_build_sequence(deps.drop_first())
    }
}

/// An archive file name: the project name, a dot, and the archive extension.
fn dotted_name(name: &String, extension: &str) -> (r: String)
    ensures
        r@ == spec_dotted_name(name@, extension@),
{
    let mut r = name.clone();
    r.append(".");
    r.append(extension);
    r
}

impl Build {
    pub fn new() -> (r: Build) {
        Build {  }
    }

    /// The stable name of the build task.
    pub fn id(&self) -> (r: String)
        ensures
            r@ == "build"@,
    {
        String::from_str("build")
    }

    /// The build task depends on no other task.
    pub fn dependencies(&self) -> (r: Vec<String>)
        ensures
            r.deep_view() == Seq::<Seq<char>>::empty(),
    {
        let r: Vec<String> = Vec::new();
        proof {
            assert(r.deep_view() =~= Seq::<Seq<char>>::empty());
        }
        r
    }

    /// The C compiler, when the toolchain settings locate one.
    pub fn create_c_compiler(&self, toolchain_configuration: &ToolchainConfiguration) -> (r:
        Option<GccFlavorCCompiler>)
        ensures
            match r {
                Some(c) => toolchain_configuration.gcc_location matches Some(l)
                    && c.spec_location() == l@,
                None => toolchain_configuration.gcc_location is None,
            },
    {
        match &toolchain_configuration.gcc_location {
            Some(location) => Some(GccFlavorCCompiler::new(location.clone())),
            None => None,
        }
    }

    /// The C++ compiler, when the toolchain settings locate one.
    pub fn create_cpp_compiler(&self, toolchain_configuration: &ToolchainConfiguration) -> (r:
        Option<GccFlavorCppCompiler>)
        ensures
            match r {
                Some(c) => toolchain_configuration.gpp_location matches Some(l)
                    && c.spec_location() == l@,
                None => toolchain_configuration.gpp_location is None,
            },
    {
        match &toolchain_configuration.gpp_location {
            Some(location) => Some(GccFlavorCppCompiler::new(location.clone())),
            None => None,
        }
    }

    /// The archiver, when the toolchain settings locate one.
    pub fn create_archiver(&self, toolchain_configuration: &ToolchainConfiguration) -> (r: Option<
        GccFlavorArchiver,
    >)
        ensures
            match r {
                Some(c) => toolchain_configuration.ar_location matches Some(l)
                    && c.spec_location() == l@,
                None => toolchain_configuration.ar_location is None,
            },
    {
        match &toolchain_configuration.ar_location {
            Some(location) => Some(GccFlavorArchiver::new(location.clone())),
            None => None,
        }
    }

    /// Selects the sources that must be recompiled: all of them when the
    /// configuration changed, and otherwise exactly those with no recorded
    /// digest, a missing object file, or a changed content digest.
    pub fn collect_sources_to_compile(&self, project: &Project, statuses: &Vec<SourceStatus>) -> (r:
        Vec<String>)
        requires
            statuses@.len() == project.sources@.len(),
        ensures
            r.deep_view() == spec_sources_to_compile(*project, statuses@),
    {
        if project.has_project_configuration_changed {
            return crate::clone_string_vec(&project.sources);
        }
        let n = project.sources.len();
        let mut r: Vec<String> = Vec::new();
        let mut i: usize = 0;
        proof {
            assert(Seq::<Seq<char>>::empty() + spec_stale_sources(*project, statuses@, 0)
                =~= spec_stale_sources(*project, statuses@, 0));
        }
        while i < n
            invariant
                n == project.sources@.len(),
                statuses@.len() == n,
                i <= n,
                !project.has_project_configuration_changed,
                r.deep_view() + spec_stale_sources(*project, statuses@, i as int)
                    == spec_stale_sources(*project, statuses@, 0),
            decreases n - i,
        {
            let source = &project.sources[i];
            let stale = match project.hashes.get(source) {
                None => true,
                Some(recorded) => {
                    if !statuses[i].object_file_exists {
                        true
                    } else {
                        match &statuses[i].content {
                            Some(bytes) => {
                                let current = content_digest(bytes.as_slice());
                                current != recorded
                            },
                            None => false,
                        }
                    }
                },
            };
            proof {
                assert(stale == spec_source_stale(*project, statuses@, i as int));
            }
            if stale {
                let ghost before = r.deep_view();
                r.push(source.clone());
                proof {
                    assert(r.deep_view() =~= before.push(project.sources@[i as int]@));
                    assert(before.push(project.sources@[i as int]@) + spec_stale_sources(
                        *project,
                        statuses@,
                        i as int + 1,
                    ) =~= before + spec_stale_sources(*project, statuses@, i as int));
                }
            }
            i = i + 1;
        }
        proof {
            assert(spec_stale_sources(*project, statuses@, n as int) =~= Seq::<Seq<char>>::empty());
            assert(r.deep_view() =~= spec_stale_sources(*project, statuses@, 0));
        }
        r
    }

    /// Reduces a compilation batch: on any failure the collected errors, in
    /// batch order; on full success the digest of every compiled source.
    pub fn collect_compilation_results(
        &self,
        sources: &Vec<String>,
        outcomes: &Vec<CompileOutcome>,
    ) -> (r: Result<DigestMap, Vec<SourceFileBuildError>>)
        requires
            outcomes@.len() == sources@.len(),
        ensures
            match r {
                Ok(m) => spec_batch_errors(outcomes@).len() == 0 && m@ == spec_batch_digests(
                    sources.deep_view(),
                    outcomes@,
                ),
                Err(errs) => spec_batch_errors(outcomes@).len() > 0 && errs.deep_view()
                    == spec_batch_errors(outcomes@),
            },
    {
        let n = outcomes.len();
        let mut digests = DigestMap::new();
        let mut errors: Vec<SourceFileBuildError> = Vec::new();
        let mut i: usize = 0;
        proof {
            assert(outcomes@.skip(0) =~= outcomes@);
            assert(errors.deep_view() + spec_batch_errors(outcomes@) =~= spec_batch_errors(
                outcomes@,
            ));
            assert(sources.deep_view().take(0) =~= Seq::<Seq<char>>::empty());
            assert(outcomes@.take(0) =~= Seq::<CompileOutcome>::empty());
        }
        while i < n
            invariant
                n == outcomes@.len(),
                outcomes@.len() == sources@.len(),
                i <= n,
                spec_batch_errors(outcomes@) == errors.deep_view() + spec_batch_errors(
                    outcomes@.skip(i as int),
                ),
                digests@ == spec_batch_digests(
                    sources.deep_view().take(i as int),
                    outcomes@.take(i as int),
                ),
            decreases n - i,
        {
            proof {
                assert(outcomes@.skip(i as int)[0] == outcomes@[i as int]);
                assert(outcomes@.skip(i as int).drop_first() =~= outcomes@.skip(i as int + 1));
                assert(outcomes@.take(i as int + 1).drop_last() =~= outcomes@.take(i as int));
                assert(sources.deep_view().take(i as int + 1).drop_last() =~= sources.deep_view()
                    .take(i as int));
                assert(outcomes@.take(i as int + 1).last() == outcomes@[i as int]);
                assert(sources.deep_view().take(i as int + 1).last() == sources@[i as int]@);
            }
            match &outcomes[i] {
                CompileOutcome::Compiled { content } => {
                    let digest = content_digest(content.as_slice());
                    digests.insert(sources[i].clone(), digest);
                },
                CompileOutcome::CompileFailed { message } => {
                    let ghost before = errors.deep_view();
                    errors.push(SourceFileBuildError::FailedToCompile(message.clone()));
                    proof {
                        assert(errors.deep_view() =~= before.push(
                            SourceErrorModel::FailedToCompile(message@),
                        ));
                        assert(before.push(SourceErrorModel::FailedToCompile(message@))
                            + spec_batch_errors(outcomes@.skip(i as int + 1)) =~= before + (seq![
                            SourceErrorModel::FailedToCompile(message@),
                        ] + spec_batch_errors(outcomes@.skip(i as int + 1))));
                    }
                },
                CompileOutcome::ReadFailed { message } => {
                    let ghost before = errors.deep_view();
                    errors.push(SourceFileBuildError::FailedToHash(message.clone()));
                    proof {
                        assert(errors.deep_view() =~= before.push(
                            SourceErrorModel::FailedToHash(message@),
                        ));
                        assert(before.push(SourceErrorModel::FailedToHash(message@))
                            + spec_batch_errors(outcomes@.skip(i as int + 1)) =~= before + (seq![
                            SourceErrorModel::FailedToHash(message@),
                        ] + spec_batch_errors(outcomes@.skip(i as int + 1))));
                    }
                },
            }
            i = i + 1;
        }
        proof {
            assert(outcomes@.skip(n as int) =~= Seq::<CompileOutcome>::empty());
            assert(outcomes@.take(n as int) =~= outcomes@);
            assert(sources.deep_view().take(n as int) =~= sources.deep_view());
            assert(spec_batch_errors(outcomes@) =~= errors.deep_view());
        }
        if errors.len() == 0 {
            Ok(digests)
        } else {
            Err(errors)
        }
    }

    /// The cache a successful build persists: the configuration digest,
    /// then every digest the batch collected.
    pub fn updated_hashes(&self, configuration_digest: &String, compiled: &DigestMap) -> (r:
        DigestMap)
        ensures
            r@ == spec_updated_hashes(configuration_digest@, compiled@),
    {
        let mut r = DigestMap::new();
        r.insert(crate::configuration_file_name(), configuration_digest.clone());
        let entries = compiled.raw_entries();
        let n = entries.len();
        let mut i: usize = 0;
        let ghost base = map![spec_configuration_file_name() => configuration_digest@];
        proof {
            assert(r@ =~= base.union_prefer_right(
                crate::cache::spec_kv_map(entries.deep_view().take(0)),
            ));
        }
        while i < n
            invariant
                n == entries@.len(),
                i <= n,
                r@ == base.union_prefer_right(
                    crate::cache::spec_kv_map(entries.deep_view().take(i as int)),
                ),
            decreases n - i,
        {
            proof {
                assert(entries.deep_view().take(i as int + 1).drop_last() =~= entries.deep_view()
                    .take(i as int));
                assert(entries.deep_view().take(i as int + 1).last() == (
                    entries@[i as int].0@,
                    entries@[i as int].1@,
                ));
            }
            let pair = &entries[i];
            r.insert(pair.0.clone(), pair.1.clone());
            proof {
                assert(r@ =~= base.union_prefer_right(
                    crate::cache::spec_kv_map(entries.deep_view().take(i as int + 1)),
                ));
            }
            i = i + 1;
        }
        proof {
            assert(entries.deep_view().take(n as int) =~= entries.deep_view());
        }
        r
    }

    /// Encodes a digest mapping as the persisted cache text.  Relies on the
    /// JSON wrapper's round-trip contract: parsing the result yields exactly
    /// the mapping.
    pub fn serialize_hashes(&self, hashes: &DigestMap) -> (r: String)
        ensures
            spec_json_digest_map(r@) == Some(hashes@),
    {
        json_encode_digests(hashes.raw_entries())
    }

    /// The project dependencies of a project, in declaration order.
    pub fn collect_project_dependencies<'a>(&self, project: &'a Project) -> (r: Vec<&'a Project>)
        ensures
            r@.len() == spec_project_dependencies(project.dependencies@).len(),
            forall|k: int|
                0 <= k < r@.len() ==> *(#[trigger] r@[k]) == spec_project_dependencies(
                    project.dependencies@,
                )[k],
    {
        let deps = &project.dependencies;
        let n = deps.len();
        let mut r: Vec<&'a Project> = Vec::new();
        let ghost mut acc: Seq<Project> = Seq::empty();
        let mut i: usize = 0;
        proof {
            assert(deps@.skip(0) =~= deps@);
            assert(acc + spec_project_dependencies(deps@) =~= spec_project_dependencies(deps@));
        }
        while i < n
            invariant
                n == deps@.len(),
                i <= n,
                spec_project_dependencies(deps@) == acc + spec_project_dependencies(
                    deps@.skip(i as int),
                ),
                r@.len() == acc.len(),
                forall|k: int| 0 <= k < r@.len() ==> *(#[trigger] r@[k]) == acc[k],
            decreases n - i,
        {
            proof {
                assert(deps@.skip(i as int)[0] == deps@[i as int]);
                assert(deps@.skip(i as int).drop_first() =~= deps@.skip(i as int + 1));
            }
            match &deps[i] {
                Dependency::Project(sub) => {
                    r.push(sub);
                    proof {
                        acc = acc.push(*deps@[i as int]->0);
                    }
                },
                Dependency::System { .. } => {
                },
            }
            i = i + 1;
        }
        proof {
            assert(deps@.skip(n as int) =~= Seq::<Dependency>::empty());
            assert(acc + spec_project_dependencies(deps@.skip(n as int)) =~= acc);
        }
        r
    }

    /// The library names handed to the linker.
    pub fn collect_libraries(&self, project: &Project) -> (r: Vec<String>)
        ensures
            r.deep_view() == spec_libraries(project.dependencies@),
    {
        let deps = &project.dependencies;
        let n = deps.len();
        let mut r: Vec<String> = Vec::new();
        let mut i: usize = 0;
        proof {
            assert(deps@.skip(0) =~= deps@);
            assert(r.deep_view() + spec_libraries(deps@) =~= spec_libraries(deps@));
        }
        while i < n
            invariant
                n == deps@.len(),
                i <= n,
                r.deep_view() + spec_libraries(deps@.skip(i as int)) == spec_libraries(deps@),
            decreases n - i,
        {
            proof {
                assert(deps@.skip(i as int)[0] == deps@[i as int]);
                assert(deps@.skip(i as int).drop_first() =~= deps@.skip(i as int + 1));
            }
            let ghost before = r.deep_view();
            let ghost head = spec_libraries(deps@.skip(i as int)).take(
                spec_libraries(deps@.skip(i as int)).len() - spec_libraries(
                    deps@.skip(i as int + 1),
                ).len(),
            );
            match &deps[i] {
                Dependency::System { name } => {
                    r.push(name.clone());
                    proof {
                        assert(r.deep_view() =~= before.push(name@));
                        assert(before.push(name@) + spec_libraries(deps@.skip(i as int + 1))
                            =~= before + (seq![name@] + spec_libraries(deps@.skip(i as int + 1))));
                    }
                },
                Dependency::Project(sub) => {
                    if matches!(sub.distribution, Distribution::DynamicLibrary) {
                        r.push(sub.name.clone());
                        proof {
                            assert(r.deep_view() =~= before.push(sub.name@));
                            assert(before.push(sub.name@) + spec_libraries(
                                deps@.skip(i as int + 1),
                            ) =~= before + (seq![sub.name@] + spec_libraries(
                                deps@.skip(i as int + 1),
                            )));
                        }
                    }
                },
            }
            i = i + 1;
        }
        proof {
            assert(spec_libraries(deps@.skip(n as int)) =~= Seq::<Seq<char>>::empty());
            assert(r.deep_view() =~= r.deep_view() + spec_libraries(deps@.skip(n as int)));
        }
        r
    }

    /// The library search paths handed to the linker: the build output
    /// directory of every project dependency.
    pub fn collect_library_search_paths(&self, project_dependencies: &Vec<&Project>) -> (r: Vec<
        String,
    >)
        ensures
            r.deep_view() == project_dependencies@.map_values(
                |d: &Project| spec_build_dir_path(d.base_path@),
            ),
    {
        let n = project_dependencies.len();
        let build_dir = crate::build_directory();
        let mut r: Vec<String> = Vec::new();
        let mut i: usize = 0;
        while i < n
            invariant
                n == project_dependencies@.len(),
                i <= n,
                build_dir@ == spec_build_directory(),
                r@.len() == i,
                forall|k: int|
                    0 <= k < i ==> (#[trigger] r@[k])@ == spec_build_dir_path(
                        project_dependencies@[k].base_path@,
                    ),
            decreases n - i,
        {
            r.push(join_path(project_dependencies[i].base_path.as_str(), build_dir.as_str()));
            i = i + 1;
        }
        proof {
            assert(r.deep_view() =~= project_dependencies@.map_values(
                |d: &Project| spec_build_dir_path(d.base_path@),
            ));
        }
        r
    }

    /// The object-file list for linking or archiving.
    pub fn collect_object_files(&self, project: &Project, project_dependencies: &Vec<&Project>) -> (r:
        Vec<String>)
        ensures
            r.deep_view() == spec_object_files(
                *project,
                project_dependencies@.map_values(|d: &Project| *d),
            ),
    {
        let n = project.sources.len();
        let build_dir = crate::build_directory();
        let own_dir = join_path(project.base_path.as_str(), build_dir.as_str());
        let mut r: Vec<String> = Vec::new();
        let mut i: usize = 0;
        while i < n
            invariant
                n == project.sources@.len(),
                own_dir@ == spec_build_dir_path(project.base_path@),
                i <= n,
                r@.len() == i,
                forall|k: int|
                    0 <= k < i ==> (#[trigger] r@[k])@ == spec_object_file_path(
                        project.base_path@,
                        project.sources@[k]@,
                    ),
            decreases n - i,
        {
            let object_name = with_extension(
                file_name_part(project.sources[i].as_str()).as_str(),
                "o",
            );
            r.push(join_path(own_dir.as_str(), object_name.as_str()));
            i = i + 1;
        }
        let ghost own_objects = r.deep_view();
        proof {
            assert(own_objects =~= project.sources.deep_view().map_values(
                |s: Seq<char>| spec_object_file_path(project.base_path@, s),
            ));
        }
        let m = project_dependencies.len();
        let ghost pdv = project_dependencies@.map_values(|d: &Project| *d);
        let ghost mut archives: Seq<Seq<char>> = Seq::empty();
        let mut j: usize = 0;
        while j < m
            invariant
                m == project_dependencies@.len(),
                pdv == project_dependencies@.map_values(|d: &Project| *d),
                build_dir@ == spec_build_directory(),
                j <= m,
                r.deep_view() == own_objects + archives,
                archives =~= pdv.take(j as int).filter(
                    |d: Project| d.distribution == Distribution::StaticLibrary,
                ).map_values(
                    |d: Project| spec_join_path(
                        spec_build_dir_path(d.base_path@),
                        spec_dotted_name(d.name@, "a"@),
                    ),
                ),
            decreases m - j,
        {
            let dep = project_dependencies[j];
            proof {
                assert(pdv.take(j as int + 1).drop_last() =~= pdv.take(j as int));
                assert(pdv.take(j as int + 1).last() == *dep);
                crate::orchestrator::lemma_filter_map_step(
                    pdv.take(j as int + 1),
                    |d: Project| d.distribution == Distribution::StaticLibrary,
                    |d: Project| spec_join_path(
                        spec_build_dir_path(d.base_path@),
                        spec_dotted_name(d.name@, "a"@),
                    ),
                );
            }
            if matches!(dep.distribution, Distribution::StaticLibrary) {
                let ghost before = r.deep_view();
                let archive = join_path(
                    join_path(dep.base_path.as_str(), build_dir.as_str()).as_str(),
                    dotted_name(&dep.name, "a").as_str(),
                );
                r.push(archive);
                proof {
                    assert(r.deep_view() =~= before.push(
                        spec_join_path(
                            spec_build_dir_path(dep.base_path@),
                            spec_dotted_name(dep.name@, "a"@),
                        ),
                    ));
                    archives = archives.push(
                        spec_join_path(
                            spec_build_dir_path(dep.base_path@),
                            spec_dotted_name(dep.name@, "a"@),
                        ),
                    );
                    assert(r.deep_view() =~= own_objects + archives);
                }
            }
            j = j + 1;
        }
        proof {
            assert(pdv.take(m as int) =~= pdv);
        }
        r
    }

    /// The absolute path of the artifact that the build produces.
    pub fn output_file_path(&self, project: &Project) -> (r: String)
        ensures
            r@ == spec_output_file_path(*project),
    {
        let build_dir = crate::build_directory();
        let own_dir = join_path(project.base_path.as_str(), build_dir.as_str());
        proof {
            reveal_strlit("");
            assert(""@ =~= Seq::<char>::empty());
        }
        let file = match project.distribution {
            Distribution::Executable => with_extension(project.name.as_str(), ""),
            Distribution::StaticLibrary => with_extension(project.name.as_str(), "a"),
            Distribution::DynamicLibrary => with_extension(project.name.as_str(), "so"),
        };
        join_path(own_dir.as_str(), file.as_str())
    }

    /// Every dynamic-library artifact in the dependency subtree, the
    /// project's own first.
    pub fn collect_artifacts(&self, project: &Project) -> (r: Vec<String>)
        ensures
            r.deep_view() == spec_artifacts(*project),
        decreases project,
    {
        let build_dir = crate::build_directory();
        let mut r: Vec<String> = Vec::new();
        if matches!(project.distribution, Distribution::DynamicLibrary) {
            r.push(
                join_path(
                    join_path(project.base_path.as_str(), build_dir.as_str()).as_str(),
                    dotted_name(&project.name, "so").as_str(),
                ),
            );
        }
        let ghost head = r.deep_view();
        let deps = &project.dependencies;
        let n = deps.len();
        let ghost mut done: Seq<Seq<char>> = Seq::empty();
        let mut i: usize = 0;
        proof {
            assert(deps@.skip(0) =~= deps@);
            assert(r.deep_view() =~= head + done);
            assert(done + spec_dependency_artifacts(deps@) =~= spec_dependency_artifacts(deps@));
        }
        while i < n
            invariant
                n == deps@.len(),
                deps@ == project.dependencies@,
                i <= n,
                r.deep_view() == head + done,
                spec_dependency_artifacts(deps@) == done + spec_dependency_artifacts(
                    deps@.skip(i as int),
                ),
            decreases n - i,
        {
            proof {
                assert(deps@.skip(i as int)[0] == deps@[i as int]);
                assert(deps@.skip(i as int).drop_first() =~= deps@.skip(i as int + 1));
            }
            match &deps[i] {
                Dependency::Project(sub) => {
                    proof {
                        assert(deps@ == project.dependencies@);
                        assert(decreases_to!(*project => project.dependencies));
                        assert(decreases_to!(project.dependencies => project.dependencies@));
                        assert(decreases_to!(project.dependencies@ => project.dependencies@[i as int]));
                        assert(decreases_to!(
                            project.dependencies@[i as int] => project.dependencies@[i as int]->0
                        ));
                    }
                    let sub_artifacts = self.collect_artifacts(sub);
                    let s = sub_artifacts.len();
                    let mut k: usize = 0;
                    while k < s
                        invariant
                            s == sub_artifacts@.len(),
                            k <= s,
                            r.deep_view() == head + done + sub_artifacts.deep_view().take(k as int),
                        decreases s - k,
                    {
                        let ghost before = r.deep_view();
                        r.push(sub_artifacts[k].clone());
                        proof {
                            assert(r.deep_view() =~= before.push(sub_artifacts@[k as int]@));
                            assert(before.push(sub_artifacts@[k as int]@) =~= head + done
                                + sub_artifacts.deep_view().take(k as int + 1));
                        }
                        k = k + 1;
                    }
                    proof {
                        assert(sub_artifacts.deep_view().take(s as int) =~= sub_artifacts.deep_view());
                        done = done + sub_artifacts.deep_view();
                        assert(r.deep_view() =~= head + done);
                    }
                },
                Dependency::System { .. } => {
                },
            }
            i = i + 1;
        }
        proof {
            assert(spec_dependency_artifacts(deps@.skip(n as int)) =~= Seq::<Seq<char>>::empty());
            assert(done + spec_dependency_artifacts(deps@.skip(n as int)) =~= done);
            assert(r.deep_view() =~= spec_artifacts(*project));
        }
        r
    }

    /// The copies that artifact propagation performs, skipping the
    /// project's own artifact when it is already in place.
    pub fn collect_artifact_copies(&self, project: &Project) -> (r: Vec<CopyOperation>)
        ensures
            r.deep_view() == spec_artifact_copies(*project),
    {
        let artifacts = self.collect_artifacts(project);
        let build_dir = crate::build_directory();
        let own_dir = join_path(project.base_path.as_str(), build_dir.as_str());
        let start: usize = if matches!(project.distribution, Distribution::DynamicLibrary) {
            1
        } else {
            0
        };
        let ghost skipped = if project.distribution == Distribution::DynamicLibrary {
            spec_artifacts(*project).skip(1)
        } else {
            spec_artifacts(*project)
        };
        proof {
            if project.distribution == Distribution::DynamicLibrary {
                assert(spec_artifacts(*project).len() >= 1);
            }
        }
        let n = artifacts.len();
        let mut r: Vec<CopyOperation> = Vec::new();
        let mut k: usize = start;
        while k < n
            invariant
                n == artifacts@.len(),
                artifacts.deep_view() == spec_artifacts(*project),
                own_dir@ == spec_build_dir_path(project.base_path@),
                start <= k <= n || (start > n && k == start),
                start == if project.distribution == Distribution::DynamicLibrary { 1int } else { 0int },
                skipped == artifacts.deep_view().skip(start as int),
                start <= n ==> r@.len() == k - start,
                forall|j: int|
                    0 <= j < r@.len() ==> (#[trigger] r@[j]).from@ == skipped[j]
                        && r@[j].to@ == spec_join_path(
                        spec_build_dir_path(project.base_path@),
                        spec_file_name(skipped[j]),
                    ),
            decreases n - k,
        {
            let from = artifacts[k].clone();
            let to = join_path(own_dir.as_str(), file_name_part(from.as_str()).as_str());
            r.push(CopyOperation { from, to });
            k = k + 1;
        }
        proof {
            assert(r.deep_view() =~= spec_artifact_copies(*project));
        }
        r
    }

    /// The C standard a build compiles with.
    pub fn get_c_standard(&self, project: &Project) -> (r: CStandard)
        ensures
            r == spec_c_standard(*project),
    {
        match project.c {
            Some(c) => match c.standard {
                Some(s) => s,
                None => CStandard::latest(),
            },
            None => CStandard::latest(),
        }
    }

    /// The C++ standard a build compiles with.
    pub fn get_cpp_standard(&self, project: &Project) -> (r: CppStandard)
        ensures
            r == spec_cpp_standard(*project),
    {
        match project.cpp {
            Some(cpp) => match cpp.standard {
                Some(s) => s,
                None => CppStandard::latest(),
            },
            None => CppStandard::latest(),
        }
    }

    /// The compilation settings for the project's C sources: the project's
    /// own attributes, the configured or latest C standard, and the extra
    /// arguments of the `gcc` block.
    pub fn c_compilation_settings(&self, project: &Project) -> (r: CCompilationSettings)
        ensures
            r.distribution == project.distribution,
            r.standard == spec_c_standard(*project),
            r.optimization == project.optimization,
            r.includes.deep_view() == project.includes.deep_view(),
            r.enable_all_warnings == project.enable_all_warnings,
            r.treat_all_warnings_as_errors == project.treat_all_warnings_as_errors,
            r.additional_pre_arguments.deep_view() == spec_gcc_pre_arguments(*project),
            r.additional_post_arguments.deep_view() == spec_gcc_post_arguments(*project),
    {
        let (pre, post) = match &project.gcc {
            Some(g) => (
                crate::clone_string_vec(&g.additional_pre_arguments),
                crate::clone_string_vec(&g.additional_post_arguments),
            ),
            None => {
                let a: Vec<String> = Vec::new();
                let b: Vec<String> = Vec::new();
                proof {
                    assert(a.deep_view() =~= Seq::<Seq<char>>::empty());
                    assert(b.deep_view() =~= Seq::<Seq<char>>::empty());
                }
                (a, b)
            },
        };
        CCompilationSettings {
            distribution: project.distribution,
            standard: self.get_c_standard(project),
            optimization: project.optimization,
            includes: crate::clone_string_vec(&project.includes),
            enable_all_warnings: project.enable_all_warnings,
            treat_all_warnings_as_errors: project.treat_all_warnings_as_errors,
            additional_pre_arguments: pre,
            additional_post_arguments: post,
        }
    }

    /// The compilation settings for the project's C++ sources.
    pub fn cpp_compilation_settings(&self, project: &Project) -> (r: CppCompilationSettings)
        ensures
            r.distribution == project.distribution,
            r.standard == spec_cpp_standard(*project),
            r.optimization == project.optimization,
            r.includes.deep_view() == project.includes.deep_view(),
            r.enable_all_warnings == project.enable_all_warnings,
            r.treat_all_warnings_as_errors == project.treat_all_warnings_as_errors,
            r.additional_pre_arguments.deep_view() == spec_gpp_pre_arguments(*project),
            r.additional_post_arguments.deep_view() == spec_gpp_post_arguments(*project),
    {
        let (pre, post) = match &project.gpp {
            Some(g) => (
                crate::clone_string_vec(&g.additional_pre_arguments),
                crate::clone_string_vec(&g.additional_post_arguments),
            ),
            None => {
                let a: Vec<String> = Vec::new();
                let b: Vec<String> = Vec::new();
                proof {
                    assert(a.deep_view() =~= Seq::<Seq<char>>::empty());
                    assert(b.deep_view() =~= Seq::<Seq<char>>::empty());
                }
                (a, b)
            },
        };
        CppCompilationSettings {
            distribution: project.distribution,
            standard: self.get_cpp_standard(project),
            optimization: project.optimization,
            includes: crate::clone_string_vec(&project.includes),
            enable_all_warnings: project.enable_all_warnings,
            treat_all_warnings_as_errors: project.treat_all_warnings_as_errors,
            additional_pre_arguments: pre,
            additional_post_arguments: post,
        }
    }

    /// The projects that must be built before this one, in build order:
    /// every project dependency preceded by its own descendants.
    pub fn build_sequence<'a>(&self, project: &'a Project) -> (r: Vec<&'a Project>)
        ensures
            r@.len() == spec_build_sequence(*project).len(),
            forall|k: int|
                0 <= k < r@.len() ==> *(#[trigger] r@[k]) == spec_build_sequence(*project)[k],
        decreases project,
    {
        let deps = &project.dependencies;
        let n = deps.len();
        let mut r: Vec<&'a Project> = Vec::new();
        let ghost mut done: Seq<Project> = Seq::empty();
        let mut i: usize = 0;
        proof {
            assert(deps@.skip(0) =~= deps@);
            assert(done + spec_dependency_build_sequence(deps@) =~= spec_dependency_build_sequence(
                deps@,
            ));
        }
        while i < n
            invariant
                n == deps@.len(),
                deps@ == project.dependencies@,
                i <= n,
                spec_dependency_build_sequence(deps@) == done + spec_dependency_build_sequence(
                    deps@.skip(i as int),
                ),
                r@.len() == done.len(),
                forall|k: int| 0 <= k < r@.len() ==> *(#[trigger] r@[k]) == done[k],
            decreases n - i,
        {
            proof {
                assert(deps@.skip(i as int)[0] == deps@[i as int]);
                assert(deps@.skip(i as int).drop_first() =~= deps@.skip(i as int + 1));
            }
            match &deps[i] {
                Dependency::Project(sub) => {
                    proof {
                        assert(deps@ == project.dependencies@);
                        assert(decreases_to!(*project => project.dependencies));
                        assert(decreases_to!(project.dependencies => project.dependencies@));
                        assert(decreases_to!(project.dependencies@ => project.dependencies@[i as int]));
                        assert(decreases_to!(
                            project.dependencies@[i as int] => project.dependencies@[i as int]->0
                        ));
                    }
                    let sub_sequence = self.build_sequence(sub);
                    let s = sub_sequence.len();
                    let mut k: usize = 0;
                    while k < s
                        invariant
                            n == deps@.len(),
                            i < n,
                            deps@[i as int] is Project,
                            s == sub_sequence@.len(),
                            k <= s,
                            sub_sequence@.len() == spec_build_sequence(*deps@[i as int]->0).len(),
                            forall|j: int|
                                0 <= j < sub_sequence@.len() ==> *(#[trigger] sub_sequence@[j])
                                    == spec_build_sequence(*deps@[i as int]->0)[j],
                            r@.len() == done.len() + k,
                            forall|j: int| 0 <= j < done.len() ==> *(#[trigger] r@[j]) == done[j],
                            forall|j: int|
                                done.len() <= j < r@.len() ==> *(#[trigger] r@[j])
                                    == spec_build_sequence(*deps@[i as int]->0)[j - done.len()],
                        decreases s - k,
                    {
                        r.push(sub_sequence[k]);
                        k = k + 1;
                    }
                    r.push(sub);
                    proof {
                        done = done + spec_build_sequence(*deps@[i as int]->0) + seq![
                            *deps@[i as int]->0,
                        ];
                    }
                },
                Dependency::System { .. } => {
                },
            }
            i = i + 1;
        }
        proof {
            assert(spec_dependency_build_sequence(deps@.skip(n as int)) =~= Seq::<Project>::empty());
            assert(done + spec_dependency_build_sequence(deps@.skip(n as int)) =~= done);
        }
        r
    }
}

// ---------------------------------------------------------------------------
// Laws
// ---------------------------------------------------------------------------
proof fn lemma_stale_source_selected(p: Project, statuses: Seq<SourceStatus>, j: int, i: int)
    requires
        statuses.len() == p.sources@.len(),
        0 <= j <= i < p.sources@.len(),
        spec_source_stale(p, statuses, i),
    ensures
        spec_stale_sources(p, statuses, j).contains(p.sources@[i]@),
    decreases i - j,
{
    if j == i {
        assert(spec_stale_sources(p, statuses, j)[0] == p.sources@[i]@);
    } else {
        lemma_stale_source_selected(p, statuses, j + 1, i);
        let rest = spec_stale_sources(p, statuses, j + 1);
        let k = choose|k: int| 0 <= k < rest.len() && rest[k] == p.sources@[i]@;
        if spec_source_stale(p, statuses, j) {
            assert(spec_stale_sources(p, statuses, j)[k + 1] == p.sources@[i]@);
        }
    }
}

/// Staleness correctness, first half: a source whose current content digest
/// differs from its last-recorded digest is selected for recompilation.
pub proof fn lemma_staleness_selects_changed_source(
    p: Project,
    statuses: Seq<SourceStatus>,
    i: int,
)
    requires
        statuses.len() == p.sources@.len(),
        0 <= i < p.sources@.len(),
        p.hashes@.contains_key(p.sources@[i]@),
        statuses[i].content is Some,
        spec_content_digest(statuses[i].content->0@) != p.hashes@[p.sources@[i]@],
    ensures
        spec_sources_to_compile(p, statuses).contains(p.sources@[i]@),
{
    if p.has_project_configuration_changed {
        assert(p.sources.deep_view()[i] == p.sources@[i]@);
    } else {
        lemma_stale_source_selected(p, statuses, 0, i);
    }
}

/// Staleness correctness, second half: when the configuration digest
/// differs from its recorded value, every source is selected.
pub proof fn lemma_configuration_change_selects_all(p: Project, statuses: Seq<SourceStatus>)
    requires
        statuses.len() == p.sources@.len(),
        p.has_project_configuration_changed,
    ensures
        spec_sources_to_compile(p, statuses) == p.sources.deep_view(),
{
}

proof fn lemma_no_failures_no_errors(outcomes: Seq<CompileOutcome>)
    requires
        forall|j: int|
            0 <= j < outcomes.len() ==> spec_outcome_error(#[trigger] outcomes[j]) is None,
    ensures
        spec_batch_errors(outcomes).len() == 0,
    decreases outcomes.len(),
{
    if outcomes.len() > 0 {
        assert(forall|j: int|
            0 <= j < outcomes.drop_first().len() ==> spec_outcome_error(
                #[trigger] outcomes.drop_first()[j],
            ) is None);
        lemma_no_failures_no_errors(outcomes.drop_first());
    }
}

/// Partial-failure isolation: when exactly one outcome of a batch failed,
/// the batch aggregates exactly one error — that one.
pub proof fn lemma_partial_failure_isolation(outcomes: Seq<CompileOutcome>, k: int)
    requires
        0 <= k < outcomes.len(),
        spec_outcome_error(outcomes[k]) is Some,
        forall|j: int|
            0 <= j < outcomes.len() && j != k ==> spec_outcome_error(
                #[trigger] outcomes[j],
            ) is None,
    ensures
        spec_batch_errors(outcomes) == seq![spec_outcome_error(outcomes[k])->0],
    decreases k,
{
    if k == 0 {
        assert(forall|j: int|
            0 <= j < outcomes.drop_first().len() ==> spec_outcome_error(
                #[trigger] outcomes.drop_first()[j],
            ) is None);
        lemma_no_failures_no_errors(outcomes.drop_first());
        assert(spec_batch_errors(outcomes) =~= seq![spec_outcome_error(outcomes[k])->0]);
    } else {
        assert(forall|j: int|
            0 <= j < outcomes.drop_first().len() && j != k - 1 ==> spec_outcome_error(
                #[trigger] outcomes.drop_first()[j],
            ) is None);
        lemma_partial_failure_isolation(outcomes.drop_first(), k - 1);
        assert(outcomes.drop_first()[k - 1] == outcomes[k]);
        assert(spec_outcome_error(outcomes[0]) is None);
        assert(spec_batch_errors(outcomes) =~= seq![spec_outcome_error(outcomes[k])->0]);
    }
}

proof fn lemma_batch_digest_keys(sources: Seq<Seq<char>>, outcomes: Seq<CompileOutcome>, key: Seq<char>)
    requires
        sources.len() == outcomes.len(),
        spec_batch_digests(sources, outcomes).contains_key(key),
    ensures
        exists|i: int| 0 <= i < sources.len() && sources[i] == key,
    decreases outcomes.len(),
{
    if outcomes.len() > 0 {
        let n = outcomes.len();
        if outcomes.last() matches CompileOutcome::Compiled { content } && sources.last() == key {
            assert(sources[n - 1] == key);
        } else {
            lemma_batch_digest_keys(sources.drop_last(), outcomes.drop_last(), key);
            let i = choose|i: int|
                0 <= i < sources.drop_last().len() && sources.drop_last()[i] == key;
            assert(sources[i] == key);
        }
    }
}

proof fn lemma_batch_digest_lookup(sources: Seq<Seq<char>>, outcomes: Seq<CompileOutcome>, i: int)
    requires
        sources.len() == outcomes.len(),
        0 <= i < outcomes.len(),
        forall|j: int| 0 <= j < outcomes.len() ==> (#[trigger] outcomes[j]) is Compiled,
        forall|j: int, l: int|
            0 <= j < outcomes.len() && 0 <= l < outcomes.len() && sources[j] == sources[l]
                ==> spec_content_digest((#[trigger] outcomes[j])->content@) == spec_content_digest(
                (#[trigger] outcomes[l])->content@,
            ),
    ensures
        spec_batch_digests(sources, outcomes).contains_key(sources[i]),
        spec_batch_digests(sources, outcomes)[sources[i]] == spec_content_digest(
            outcomes[i]->content@,
        ),
    decreases outcomes.len(),
{
    let n = outcomes.len();
    assert(outcomes[n - 1] is Compiled);
    if i == n - 1 {
    } else if sources[n - 1] == sources[i] {
        assert(spec_content_digest(outcomes[n - 1]->content@) == spec_content_digest(
            outcomes[i]->content@,
        ));
    } else {
        assert(forall|j: int|
            0 <= j < outcomes.drop_last().len() ==> (#[trigger] outcomes.drop_last()[j])
                is Compiled);
        assert(forall|j: int, l: int|
            0 <= j < outcomes.drop_last().len() && 0 <= l < outcomes.drop_last().len()
                && sources.drop_last()[j] == sources.drop_last()[l] ==> spec_content_digest(
                (#[trigger] outcomes.drop_last()[j])->content@,
            ) == spec_content_digest((#[trigger] outcomes.drop_last()[l])->content@));
        lemma_batch_digest_lookup(sources.drop_last(), outcomes.drop_last(), i);
    }
}

proof fn lemma_no_stale_sources(p: Project, statuses: Seq<SourceStatus>, j: int)
    requires
        statuses.len() == p.sources@.len(),
        0 <= j <= p.sources@.len(),
        forall|i: int| j <= i < p.sources@.len() ==> !spec_source_stale(p, statuses, i),
    ensures
        spec_stale_sources(p, statuses, j) == Seq::<Seq<char>>::empty(),
    decreases p.sources@.len() - j,
{
    if j < p.sources@.len() {
        lemma_no_stale_sources(p, statuses, j + 1);
    }
}

/// Idempotence: after a build that successfully recompiled every source,
/// a second run over unchanged sources and an unchanged configuration
/// selects nothing — it performs zero compilations.
pub proof fn lemma_build_idempotence(
    p1: Project,
    outcomes: Seq<CompileOutcome>,
    p2: Project,
    statuses: Seq<SourceStatus>,
)
    requires
        // the first run compiled every source, successfully
        outcomes.len() == p1.sources@.len(),
        forall|j: int| 0 <= j < outcomes.len() ==> (#[trigger] outcomes[j]) is Compiled,
        // no source doubles as the configuration file
        forall|i: int|
            0 <= i < p1.sources@.len() ==> (#[trigger] p1.sources@[i])@
                != spec_configuration_file_name(),
        // a source matched twice was compiled from the same content
        forall|j: int, l: int|
            0 <= j < outcomes.len() && 0 <= l < outcomes.len() && p1.sources.deep_view()[j]
                == p1.sources.deep_view()[l] ==> spec_content_digest(
                (#[trigger] outcomes[j])->content@,
            ) == spec_content_digest((#[trigger] outcomes[l])->content@),
        // the second run sees the same sources and configuration, and the
        // cache the first run wrote
        p2.sources.deep_view() == p1.sources.deep_view(),
        p2.configuration_digest@ == p1.configuration_digest@,
        p2.hashes@ == spec_updated_hashes(
            p1.configuration_digest@,
            spec_batch_digests(p1.sources.deep_view(), outcomes),
        ),
        p2.has_project_configuration_changed == spec_configuration_changed(
            p2.hashes@,
            p2.configuration_digest@,
        ),
        // nothing changed on disk since the first run
        statuses.len() == p2.sources@.len(),
        forall|i: int| 0 <= i < statuses.len() ==> (#[trigger] statuses[i]).object_file_exists,
        forall|i: int|
            0 <= i < statuses.len() ==> (#[trigger] statuses[i]).content is Some
                && spec_content_digest(statuses[i].content->0@) == spec_content_digest(
                outcomes[i]->content@,
            ),
    ensures
        spec_sources_to_compile(p2, statuses) == Seq::<Seq<char>>::empty(),
{
    let batch = spec_batch_digests(p1.sources.deep_view(), outcomes);
    let config_key = spec_configuration_file_name();
    assert(!batch.contains_key(config_key)) by {
        if batch.contains_key(config_key) {
            lemma_batch_digest_keys(p1.sources.deep_view(), outcomes, config_key);
            let i = choose|i: int|
                0 <= i < p1.sources.deep_view().len() && p1.sources.deep_view()[i] == config_key;
            assert(p1.sources@[i]@ == config_key);
        }
    }
    assert(p2.hashes@[config_key] == p1.configuration_digest@);
    assert(!p2.has_project_configuration_changed);
    assert forall|i: int| 0 <= i < p2.sources@.len() implies !spec_source_stale(
        p2,
        statuses,
        i,
    ) by {
        lemma_batch_digest_lookup(p1.sources.deep_view(), outcomes, i);
        assert(p2.sources@[i]@ == p1.sources.deep_view()[i]);
        assert(batch.contains_key(p2.sources@[i]@));
        assert(p2.hashes@[p2.sources@[i]@] == spec_content_digest(outcomes[i]->content@));
    }
    lemma_no_stale_sources(p2, statuses, 0);
}

proof fn lemma_no_project_dependencies_no_artifacts(deps: Seq<Dependency>)
    requires
        forall|i: int| 0 <= i < deps.len() ==> (#[trigger] deps[i]) is System,
    ensures
        spec_dependency_artifacts(deps) == Seq::<Seq<char>>::empty(),
    decreases deps,
{
    if deps.len() > 0 {
        assert(forall|i: int|
            0 <= i < deps.drop_first().len() ==> (#[trigger] deps.drop_first()[i]) is System);
        lemma_no_project_dependencies_no_artifacts(deps.drop_first());
        assert(spec_dependency_artifacts(deps) =~= Seq::<Seq<char>>::empty());
    }
}

/// Artifact self-copy exclusion: a dynamic-library project without project
/// dependencies propagates nothing — its own artifact is already in place.
pub proof fn lemma_artifact_self_copy_excluded(p: Project)
    requires
        p.distribution == Distribution::DynamicLibrary,
        forall|i: int| 0 <= i < p.dependencies@.len() ==> (#[trigger] p.dependencies@[i]) is System,
    ensures
        spec_artifact_copies(p).len() == 0,
{
    lemma_no_project_dependencies_no_artifacts(p.dependencies@);
    assert(spec_artifacts(p).len() == 1);
    assert(spec_artifacts(p).skip(1).len() == 0);
}

/// Filtering then mapping a sequence extended by one element: the image
/// grows by the element's image exactly when the element passes the filter.
pub proof fn lemma_filter_map_step(
    s: Seq<Project>,
    pred: spec_fn(Project) -> bool,
    f: spec_fn(Project) -> Seq<char>,
)
    requires
        s.len() > 0,
    ensures
        pred(s.last()) ==> s.filter(pred).map_values(f) == s.drop_last().filter(pred).map_values(f)
            + seq![f(s.last())],
        !pred(s.last()) ==> s.filter(pred).map_values(f) == s.drop_last().filter(pred).map_values(
            f,
        ),
{
    reveal(Seq::filter);
    if pred(s.last()) {
        assert(s.filter(pred) =~= s.drop_last().filter(pred) + seq![s.last()]);
        assert(s.filter(pred).map_values(f) =~= s.drop_last().filter(pred).map_values(f) + seq![
            f(s.last()),
        ]);
    } else {
        assert(s.filter(pred) =~= s.drop_last().filter(pred));
    }
}

} // verus!
