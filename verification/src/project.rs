//! The project graph resolver.
//!
//! A project description is opened from a snapshot of what the surrounding
//! program observed on disk: the raw configuration file and its parse
//! outcome, the persisted hash cache text, the expansion of every source
//! glob with the facts about each matched path, the facts about every
//! declared include directory, and the same snapshot recursively for every
//! local dependency.  Resolution validates the description, computes the
//! configuration digest, decides whether the configuration changed, enforces
//! the library-only dependency invariant and produces the immutable
//! [`Project`] tree.

use crate::cache::{json_decode_digests, spec_json_digest_map, DigestMap};
use crate::config::{
    CConfiguration, CppConfiguration, Distribution, GccConfiguration, GppConfiguration, Language,
    OptimizationLevel,
};
use crate::digest::{content_digest, spec_content_digest};
use crate::names::{name_matches_pattern, spec_name_matches_pattern};
use crate::spec_configuration_file_name;
use vstd::prelude::*;

verus! {

/// Scalar settings of the `project` block of a configuration file.
pub struct ProjectSettings {
    pub name: String,
    pub description: Option<String>,
    pub author: Option<String>,
    pub language: Language,
    pub distribution: Distribution,
    pub optimization: OptimizationLevel,
    pub enable_all_warnings: bool,
    pub treat_all_warnings_as_errors: bool,
}

/// What was observed about one path that a source pattern matched.
pub struct SourceEntry {
    /// The matched path, relative to the project root.
    pub relative_path: String,
    /// Whether the matched path could be read back during expansion.
    pub readable: bool,
    pub exists: bool,
    pub is_file: bool,
    pub is_relative: bool,
    pub is_symlink: bool,
}

/// The expansion of one declared source glob pattern.
pub enum PatternExpansion {
    /// The pattern did not compile; `message` is the pattern error.
    Invalid { message: String },
    /// The pattern compiled and matched `entries`, in expansion order.
    Matched { pattern: String, entries: Vec<SourceEntry> },
}

/// What was observed about one declared include directory, already joined
/// with the project's base path.
pub struct IncludeEntry {
    pub path: String,
    pub exists: bool,
    pub is_directory: bool,
    pub is_relative: bool,
    pub is_symlink: bool,
}

/// One declared dependency, with local dependencies snapshotted recursively.
pub enum SnapshotDependency {
    System { name: String },
    Local { project: Box<ProjectSnapshot> },
}

/// The configuration file of a snapshot: unreadable, malformed, or parsed.
pub enum SnapshotConfiguration {
    /// The file could not be read; `message` is the I/O error.
    Unreadable { message: String },
    /// The file was read but did not parse; `message` is the parser error.
    Malformed { message: String },
    /// The raw bytes of the file and the parsed settings and blocks.
    Parsed {
        bytes: Vec<u8>,
        settings: ProjectSettings,
        c: Option<CConfiguration>,
        cpp: Option<CppConfiguration>,
        gcc: Option<GccConfiguration>,
        gpp: Option<GppConfiguration>,
    },
}

/// Everything observed on disk about one project directory.
pub struct ProjectSnapshot {
    pub base_path: String,
    pub configuration: SnapshotConfiguration,
    /// Content of the persisted hash cache file, when it exists.
    pub cache_content: Option<String>,
    /// One expansion per declared source pattern, in declaration order.
    pub sources: Vec<PatternExpansion>,
    /// One entry per declared include directory, in declaration order.
    pub includes: Vec<IncludeEntry>,
    /// One entry per declared dependency, in declaration order.
    pub dependencies: Vec<SnapshotDependency>,
}

/// A resolved, validated build unit.  Immutable after construction.
pub struct Project {
    pub base_path: String,
    pub name: String,
    pub description: Option<String>,
    pub author: Option<String>,
    pub language: Language,
    pub distribution: Distribution,
    /// Project-relative source paths, in declaration order, duplicates kept.
    pub sources: Vec<String>,
    /// Own include directories followed by those inherited from project
    /// dependencies.
    pub includes: Vec<String>,
    pub dependencies: Vec<Dependency>,
    pub optimization: OptimizationLevel,
    pub enable_all_warnings: bool,
    pub treat_all_warnings_as_errors: bool,
    /// Whether the configuration digest differs from (or is absent from) the
    /// persisted cache.
    pub has_project_configuration_changed: bool,
    /// Digest of the configuration file bytes at open time.
    pub configuration_digest: String,
    /// The persisted cache snapshot loaded at open time.
    pub hashes: DigestMap,
    pub c: Option<CConfiguration>,
    pub cpp: Option<CppConfiguration>,
    pub gcc: Option<GccConfiguration>,
    pub gpp: Option<GppConfiguration>,
}

/// A resolved dependency: an opaque system library name, or an owned nested
/// project.
pub enum Dependency {
    System { name: String },
    Project(Box<Project>),
}

/// The configuration errors, with their payloads as character sequences.
pub ghost enum ConfigurationErrorModel {
    SyntaxError(Seq<char>),
    InvalidName,
    IncorrectWildcard(Seq<char>),
    IncorrectSource(Seq<char>),
    IncorrectInclude(Seq<char>),
    DependencyIsNotALibrary(Seq<char>),
}

/// The open errors, with their payloads as character sequences.
pub ghost enum OpenErrorModel {
    InvalidProjectPath(Seq<char>),
    InvalidBuildConfiguration(ConfigurationErrorModel),
}

/// Why a project description was rejected during resolution.
#[derive(Debug)]
pub enum BuildConfigurationError {
    SyntaxError(String),
    InvalidName,
    IncorrectWildcard(String),
    IncorrectSource(String),
    IncorrectInclude(String),
    DependencyIsNotALibrary(String),
}

impl View for BuildConfigurationError {
    type V = ConfigurationErrorModel;

    open spec fn view(&self) -> ConfigurationErrorModel {
        match self {
            BuildConfigurationError::SyntaxError(m) => ConfigurationErrorModel::SyntaxError(m@),
            BuildConfigurationError::InvalidName => ConfigurationErrorModel::InvalidName,
            BuildConfigurationError::IncorrectWildcard(m) => ConfigurationErrorModel::IncorrectWildcard(
                m@,
            ),
            BuildConfigurationError::IncorrectSource(m) => ConfigurationErrorModel::IncorrectSource(
                m@,
            ),
            BuildConfigurationError::IncorrectInclude(m) => ConfigurationErrorModel::IncorrectInclude(
                m@,
            ),
            BuildConfigurationError::DependencyIsNotALibrary(m) => ConfigurationErrorModel::DependencyIsNotALibrary(
                m@,
            ),
        }
    }
}

/// Why a project could not be opened.
#[derive(Debug)]
pub enum ProjectOpenError {
    /// The configuration file could not be read.
    InvalidProjectPath(String),
    InvalidBuildConfiguration(BuildConfigurationError),
}

impl View for ProjectOpenError {
    type V = OpenErrorModel;

    open spec fn view(&self) -> OpenErrorModel {
        match self {
            ProjectOpenError::InvalidProjectPath(m) => OpenErrorModel::InvalidProjectPath(m@),
            ProjectOpenError::InvalidBuildConfiguration(e) => OpenErrorModel::InvalidBuildConfiguration(
                e@,
            ),
        }
    }
}

// ---------------------------------------------------------------------------
// Specification of source expansion
// ---------------------------------------------------------------------------
/// A matched source path passes validation when it exists, is a regular
/// file, is relative and is not a symbolic link.
pub open spec fn spec_source_entry_ok(e: SourceEntry) -> bool {
    e.exists && e.is_file && e.is_relative && !e.is_symlink
}

/// The error of one pattern expansion, if any: a pattern that did not
/// compile, or a matched path that could not be read back.
pub open spec fn spec_expansion_error(p: PatternExpansion) -> Option<ConfigurationErrorModel> {
    match p {
        PatternExpansion::Invalid { message } => Some(
            ConfigurationErrorModel::IncorrectWildcard(message@),
        ),
        PatternExpansion::Matched { pattern, entries } => {
            if exists|i: int| 0 <= i < entries@.len() && !(#[trigger] entries@[i]).readable {
                Some(ConfigurationErrorModel::IncorrectSource(pattern@))
            } else {
                None
            }
        },
    }
}

/// The first expansion error over the declared patterns.
pub open spec fn spec_patterns_error(ps: Seq<PatternExpansion>) -> Option<ConfigurationErrorModel>
    decreases ps.len(),
{
    if ps.len() == 0 {
        None
    } else if spec_expansion_error(ps[0]) is Some {
        spec_expansion_error(ps[0])
    } else {
        spec_patterns_error(ps.drop_first())
    }
}

/// The entries of one expansion, in order.
pub open spec fn spec_expansion_entries(p: PatternExpansion) -> Seq<SourceEntry> {
    match p {
        PatternExpansion::Invalid { .. } => Seq::empty(),
        PatternExpansion::Matched { entries, .. } => entries@,
    }
}

/// All matched entries, pattern by pattern, in declaration order.
pub open spec fn spec_all_entries(ps: Seq<PatternExpansion>) -> Seq<SourceEntry>
    decreases ps.len(),
{
    if ps.len() == 0 {
        Seq::empty()
    } else {
        spec_expansion_entries(ps[0]) + spec_all_entries(ps.drop_first())
    }
}

/// The relative paths of a sequence of entries.
pub open spec fn spec_entry_paths(es: Seq<SourceEntry>) -> Seq<Seq<char>> {
    es.map_values(|e: SourceEntry| e.relative_path@)
}

/// The first validation error over the flattened entries.
pub open spec fn spec_entries_error(es: Seq<SourceEntry>) -> Option<ConfigurationErrorModel>
    decreases es.len(),
{
    if es.len() == 0 {
        None
    } else if !spec_source_entry_ok(es[0]) {
        Some(ConfigurationErrorModel::IncorrectSource(es[0].relative_path@))
    } else {
        spec_entries_error(es.drop_first())
    }
}

/// The first error of source resolution, if any: expansion errors first,
/// then validation errors over the flattened paths.
pub open spec fn spec_sources_error(ps: Seq<PatternExpansion>) -> Option<
    ConfigurationErrorModel,
> {
    if spec_patterns_error(ps) is Some {
        spec_patterns_error(ps)
    } else {
        spec_entries_error(spec_all_entries(ps))
    }
}

// ---------------------------------------------------------------------------
// Specification of include resolution
// ---------------------------------------------------------------------------
/// A declared include passes validation when it exists, is a directory, is
/// relative and is not a symbolic link.
pub open spec fn spec_include_entry_ok(e: IncludeEntry) -> bool {
    e.exists && e.is_directory && e.is_relative && !e.is_symlink
}

/// The first validation error over the declared includes.
pub open spec fn spec_includes_error(es: Seq<IncludeEntry>) -> Option<ConfigurationErrorModel>
    decreases es.len(),
{
    if es.len() == 0 {
        None
    } else if !spec_include_entry_ok(es[0]) {
        Some(ConfigurationErrorModel::IncorrectInclude(es[0].path@))
    } else {
        spec_includes_error(es.drop_first())
    }
}

/// The paths of the declared includes, in order.
pub open spec fn spec_include_paths(es: Seq<IncludeEntry>) -> Seq<Seq<char>> {
    es.map_values(|e: IncludeEntry| e.path@)
}

/// The includes inherited from project dependencies, in dependency order.
pub open spec fn spec_inherited_includes(deps: Seq<Dependency>) -> Seq<Seq<char>>
    decreases deps.len(),
{
    if deps.len() == 0 {
        Seq::empty()
    } else {
        (match deps[0] {
            Dependency::Project(p) => p.includes.deep_view(),
            Dependency::System { .. } => Seq::empty(),
        }) + spec_inherited_includes(deps.drop_first())
    }
}

// ---------------------------------------------------------------------------
// Specification of dependency resolution and of the library-only invariant
// ---------------------------------------------------------------------------
/// The settings of a parsed snapshot configuration.
pub open spec fn spec_snapshot_settings(snap: ProjectSnapshot) -> ProjectSettings
    recommends
        snap.configuration is Parsed,
{
    match snap.configuration {
        SnapshotConfiguration::Parsed { settings, .. } => settings,
        _ => arbitrary(),
    }
}

/// Whether one snapshotted dependency resolves.
pub open spec fn spec_dependency_open_ok(d: SnapshotDependency) -> bool
    decreases d,
{
    match d {
        SnapshotDependency::System { .. } => true,
        SnapshotDependency::Local { project } => spec_open_ok(*project),
    }
}

/// Whether every snapshotted dependency resolves.
pub open spec fn spec_dependencies_open_ok(deps: Seq<SnapshotDependency>) -> bool
    decreases deps,
{
    forall|i: int| 0 <= i < deps.len() ==> spec_dependency_open_ok(#[trigger] deps[i])
}

/// The error of the first dependency that fails to resolve, propagated
/// unchanged.
pub open spec fn spec_dependencies_error(deps: Seq<SnapshotDependency>) -> OpenErrorModel
    recommends
        !spec_dependencies_open_ok(deps),
    decreases deps,
{
    if deps.len() == 0 {
        arbitrary()
    } else if !spec_dependency_open_ok(deps[0]) {
        match deps[0] {
            SnapshotDependency::Local { project } => spec_open_err(*project),
            SnapshotDependency::System { .. } => arbitrary(),
        }
    } else {
        spec_dependencies_error(deps.drop_first())
    }
}

/// The name of the first local dependency whose product is an executable,
/// if any: only libraries may be depended upon.
pub open spec fn spec_dependency_violation(deps: Seq<SnapshotDependency>) -> Option<Seq<char>>
    decreases deps.len(),
{
    if deps.len() == 0 {
        None
    } else if deps[0] matches SnapshotDependency::Local { project }
        && spec_snapshot_settings(*project).distribution == Distribution::Executable {
        Some(spec_snapshot_settings(*(deps[0]->project)).name@)
    } else {
        spec_dependency_violation(deps.drop_first())
    }
}

// ---------------------------------------------------------------------------
// Specification of opening a project
// ---------------------------------------------------------------------------
/// The cache map described by an optional persisted cache text; missing or
/// malformed text yields the empty map.
pub open spec fn spec_cache_map(content: Option<String>) -> Map<Seq<char>, Seq<char>> {
    match content {
        Some(s) => match spec_json_digest_map(s@) {
            Some(m) => m,
            None => Map::empty(),
        },
        None => Map::empty(),
    }
}

/// Whether the configuration changed relative to the persisted cache: true
/// when the recorded digest is absent or differs from the current one.
pub open spec fn spec_configuration_changed(
    hashes: Map<Seq<char>, Seq<char>>,
    digest: Seq<char>,
) -> bool {
    !hashes.contains_key(spec_configuration_file_name()) || hashes[spec_configuration_file_name()]
        != digest
}

/// Whether resolution of a snapshot succeeds.
pub open spec fn spec_open_ok(snap: ProjectSnapshot) -> bool
    decreases snap,
{
    match snap.configuration {
        SnapshotConfiguration::Unreadable { .. } => false,
        SnapshotConfiguration::Malformed { .. } => false,
        SnapshotConfiguration::Parsed { settings, .. } => {
            &&& spec_name_matches_pattern(settings.name@)
            &&& spec_dependencies_open_ok(snap.dependencies@)
            &&& spec_dependency_violation(snap.dependencies@) is None
            &&& spec_sources_error(snap.sources@) is None
            &&& spec_includes_error(snap.includes@) is None
        },
    }
}

/// The error with which resolution of a snapshot fails.
pub open spec fn spec_open_err(snap: ProjectSnapshot) -> OpenErrorModel
    recommends
        !spec_open_ok(snap),
    decreases snap,
{
    match snap.configuration {
        SnapshotConfiguration::Unreadable { message } => OpenErrorModel::InvalidProjectPath(
            message@,
        ),
        SnapshotConfiguration::Malformed { message } => OpenErrorModel::InvalidBuildConfiguration(
            ConfigurationErrorModel::SyntaxError(message@),
        ),
        SnapshotConfiguration::Parsed { settings, .. } => {
            if !spec_name_matches_pattern(settings.name@) {
                OpenErrorModel::InvalidBuildConfiguration(ConfigurationErrorModel::InvalidName)
            } else if !spec_dependencies_open_ok(snap.dependencies@) {
                spec_dependencies_error(snap.dependencies@)
            } else {
                match spec_dependency_violation(snap.dependencies@) {
                    Some(name) => OpenErrorModel::InvalidBuildConfiguration(
                        ConfigurationErrorModel::DependencyIsNotALibrary(name),
                    ),
                    None => match spec_sources_error(snap.sources@) {
                        Some(e) => OpenErrorModel::InvalidBuildConfiguration(e),
                        None => match spec_includes_error(snap.includes@) {
                            Some(e) => OpenErrorModel::InvalidBuildConfiguration(e),
                            None => arbitrary(),
                        },
                    },
                }
            }
        },
    }
}

/// Equality of the optional per-language and per-toolchain blocks.
pub open spec fn spec_c_block_eq(a: Option<CConfiguration>, b: Option<CConfiguration>) -> bool {
    match (a, b) {
        (None, None) => true,
        (Some(x), Some(y)) => x.standard == y.standard,
        _ => false,
    }
}

pub open spec fn spec_cpp_block_eq(a: Option<CppConfiguration>, b: Option<CppConfiguration>) -> bool {
    match (a, b) {
        (None, None) => true,
        (Some(x), Some(y)) => x.standard == y.standard,
        _ => false,
    }
}

pub open spec fn spec_gcc_block_eq(a: Option<GccConfiguration>, b: Option<GccConfiguration>) -> bool {
    match (a, b) {
        (None, None) => true,
        (Some(x), Some(y)) => x.additional_pre_arguments.deep_view()
            == y.additional_pre_arguments.deep_view() && x.additional_post_arguments.deep_view()
            == y.additional_post_arguments.deep_view(),
        _ => false,
    }
}

pub open spec fn spec_gpp_block_eq(a: Option<GppConfiguration>, b: Option<GppConfiguration>) -> bool {
    match (a, b) {
        (None, None) => true,
        (Some(x), Some(y)) => x.additional_pre_arguments.deep_view()
            == y.additional_pre_arguments.deep_view() && x.additional_post_arguments.deep_view()
            == y.additional_post_arguments.deep_view(),
        _ => false,
    }
}

/// Whether one resolved dependency is the resolution of one snapshotted
/// dependency.
pub open spec fn spec_dependency_resolves(sd: SnapshotDependency, d: Dependency) -> bool
    decreases sd,
{
    match (sd, d) {
        (SnapshotDependency::System { name }, Dependency::System { name: resolved }) => resolved@
            == name@,
        (SnapshotDependency::Local { project }, Dependency::Project(p)) => spec_project_resolves(
            *project,
            *p,
        ),
        _ => false,
    }
}

/// Whether `p` is the project that resolving `snap` produces.
pub open spec fn spec_project_resolves(snap: ProjectSnapshot, p: Project) -> bool
    decreases snap,
{
    match snap.configuration {
        SnapshotConfiguration::Parsed { bytes, settings, c, cpp, gcc, gpp } => {
            &&& p.base_path@ == snap.base_path@
            &&& p.name@ == settings.name@
            &&& p.description.deep_view() == settings.description.deep_view()
            &&& p.author.deep_view() == settings.author.deep_view()
            &&& p.language == settings.language
            &&& p.distribution == settings.distribution
            &&& p.optimization == settings.optimization
            &&& p.enable_all_warnings == settings.enable_all_warnings
            &&& p.treat_all_warnings_as_errors == settings.treat_all_warnings_as_errors
            &&& p.configuration_digest@ == spec_content_digest(bytes@)
            &&& p.hashes@ == spec_cache_map(snap.cache_content)
            &&& p.has_project_configuration_changed == spec_configuration_changed(
                p.hashes@,
                p.configuration_digest@,
            )
            &&& p.sources.deep_view() == spec_entry_paths(spec_all_entries(snap.sources@))
            &&& p.includes.deep_view() == spec_include_paths(snap.includes@)
                + spec_inherited_includes(p.dependencies@)
            &&& p.dependencies@.len() == snap.dependencies@.len()
            &&& forall|i: int|
                0 <= i < snap.dependencies@.len() ==> spec_dependency_resolves(
                    snap.dependencies@[i],
                    #[trigger] p.dependencies@[i],
                )
            &&& spec_c_block_eq(p.c, c)
            &&& spec_cpp_block_eq(p.cpp, cpp)
            &&& spec_gcc_block_eq(p.gcc, gcc)
            &&& spec_gpp_block_eq(p.gpp, gpp)
        },
        _ => false,
    }
}

impl Project {
    /// Loads the persisted hash cache: missing or malformed cache text is
    /// tolerated and yields the empty mapping.
    pub fn read_hashes(content: Option<&String>) -> (r: DigestMap)
        ensures
            match content {
                Some(s) => match spec_json_digest_map(s@) {
                    Some(m) => r@ == m,
                    None => r@ == Map::<Seq<char>, Seq<char>>::empty(),
                },
                None => r@ == Map::<Seq<char>, Seq<char>>::empty(),
            },
    {
        match content {
            Some(s) => match json_decode_digests(s.as_str()) {
                Some(entries) => DigestMap::from_entries(entries),
                None => DigestMap::new(),
            },
            None => DigestMap::new(),
        }
    }

    /// Resolves the declared dependencies, in order: a system dependency is
    /// recorded verbatim, a local dependency is opened recursively, and the
    /// first nested failure propagates unchanged.
    fn resolve_dependencies(dependencies: &Vec<SnapshotDependency>) -> (r: Result<
        Vec<Dependency>,
        ProjectOpenError,
    >)
        ensures
            match r {
                Ok(v) => {
                    &&& spec_dependencies_open_ok(dependencies@)
                    &&& v@.len() == dependencies@.len()
                    &&& forall|i: int|
                        0 <= i < dependencies@.len() ==> spec_dependency_resolves(
                            dependencies@[i],
                            #[trigger] v@[i],
                        )
                },
                Err(e) => !spec_dependencies_open_ok(dependencies@) && e@
                    == spec_dependencies_error(dependencies@),
            },
        decreases dependencies,
    {
        let n = dependencies.len();
        let mut resolved: Vec<Dependency> = Vec::new();
        let mut idx: usize = 0;
        proof {
            assert(dependencies@.skip(0) =~= dependencies@);
        }
        while idx < n
            invariant
                n == dependencies@.len(),
                idx <= n,
                resolved@.len() == idx,
                spec_dependencies_error(dependencies@) == spec_dependencies_error(
                    dependencies@.skip(idx as int),
                ),
                forall|i: int|
                    0 <= i < idx ==> spec_dependency_open_ok(#[trigger] dependencies@[i]),
                forall|i: int|
                    0 <= i < idx ==> spec_dependency_resolves(
                        dependencies@[i],
                        #[trigger] resolved@[i],
                    ),
            decreases n - idx,
        {
            let ghost rest = dependencies@.skip(idx as int);
            proof {
                assert(rest[0] == dependencies@[idx as int]);
                assert(rest.drop_first() =~= dependencies@.skip(idx as int + 1));
            }
            match &dependencies[idx] {
                SnapshotDependency::System { name } => {
                    resolved.push(Dependency::System { name: name.clone() });
                },
                SnapshotDependency::Local { project } => {
                    proof {
                        assert(decreases_to!(*dependencies => dependencies@));
                        assert(decreases_to!(dependencies@ => dependencies@[idx as int]));
                        assert(decreases_to!(
                            dependencies@[idx as int] => dependencies@[idx as int]->project
                        ));
                    }
                    match Self::open(project) {
                        Ok(p) => {
                            resolved.push(Dependency::Project(Box::new(p)));
                        },
                        Err(e) => {
                            proof {
                                assert(!spec_dependency_open_ok(rest[0]));
                                assert(!spec_dependencies_open_ok(dependencies@));
                            }
                            return Err(e);
                        },
                    }
                },
            }
            idx = idx + 1;
        }
        proof {
            assert(spec_dependencies_open_ok(dependencies@));
        }
        Ok(resolved)
    }

    /// Expands the declared source patterns: expansion errors are reported
    /// first, then each matched path is validated, and the surviving paths
    /// are concatenated in declaration order without deduplication.
    fn resolve_sources(patterns: &Vec<PatternExpansion>) -> (r: Result<
        Vec<String>,
        ProjectOpenError,
    >)
        ensures
            match r {
                Ok(v) => spec_sources_error(patterns@) is None && v.deep_view() == spec_entry_paths(
                    spec_all_entries(patterns@),
                ),
                Err(e) => spec_sources_error(patterns@) is Some && e@
                    == OpenErrorModel::InvalidBuildConfiguration(spec_sources_error(patterns@)->0),
            },
    {
        let n = patterns.len();
        let mut flat_paths: Vec<String> = Vec::new();
        let mut flat_ok: Vec<bool> = Vec::new();
        let ghost mut processed: Seq<SourceEntry> = Seq::empty();
        let mut idx: usize = 0;
        proof {
            assert(patterns@.skip(0) =~= patterns@);
            assert(processed + spec_all_entries(patterns@) =~= spec_all_entries(patterns@));
        }
        while idx < n
            invariant
                n == patterns@.len(),
                idx <= n,
                spec_patterns_error(patterns@) == spec_patterns_error(patterns@.skip(idx as int)),
                spec_all_entries(patterns@) == processed + spec_all_entries(
                    patterns@.skip(idx as int),
                ),
                flat_paths@.len() == processed.len(),
                flat_ok@.len() == processed.len(),
                forall|k: int|
                    0 <= k < processed.len() ==> flat_paths@[k]@ == (
                    #[trigger] processed[k]).relative_path@,
                forall|k: int|
                    0 <= k < processed.len() ==> flat_ok@[k] == spec_source_entry_ok(
                        #[trigger] processed[k],
                    ),
            decreases n - idx,
        {
            let ghost rest = patterns@.skip(idx as int);
            proof {
                assert(rest[0] == patterns@[idx as int]);
                assert(rest.drop_first() =~= patterns@.skip(idx as int + 1));
            }
            match &patterns[idx] {
                PatternExpansion::Invalid { message } => {
                    return Err(
                        ProjectOpenError::InvalidBuildConfiguration(
                            BuildConfigurationError::IncorrectWildcard(message.clone()),
                        ),
                    );
                },
                PatternExpansion::Matched { pattern, entries } => {
                    let ghost entry_base = processed;
                    let m = entries.len();
                    let mut k: usize = 0;
                    proof {
                        assert(entry_base + entries@.take(0) =~= processed);
                    }
                    while k < m
                        invariant
                            n == patterns@.len(),
                            idx < n,
                            patterns@[idx as int] == (PatternExpansion::Matched {
                                pattern: *pattern,
                                entries: *entries,
                            }),
                            spec_patterns_error(patterns@) == spec_patterns_error(
                                patterns@.skip(idx as int),
                            ),
                            spec_all_entries(patterns@) == entry_base + spec_all_entries(
                                patterns@.skip(idx as int),
                            ),
                            m == entries@.len(),
                            k <= m,
                            processed == entry_base + entries@.take(k as int),
                            flat_paths@.len() == processed.len(),
                            flat_ok@.len() == processed.len(),
                            forall|j: int|
                                0 <= j < processed.len() ==> flat_paths@[j]@ == (
                                #[trigger] processed[j]).relative_path@,
                            forall|j: int|
                                0 <= j < processed.len() ==> flat_ok@[j] == spec_source_entry_ok(
                                    #[trigger] processed[j],
                                ),
                            forall|j: int| 0 <= j < k ==> (#[trigger] entries@[j]).readable,
                        decreases m - k,
                    {
                        let entry = &entries[k];
                        if !entry.readable {
                            proof {
                                assert(0 <= k < entries@.len() && !(#[trigger] entries@[k as int]).readable);
                                assert(spec_expansion_error(patterns@[idx as int]) == Some(
                                    ConfigurationErrorModel::IncorrectSource(pattern@),
                                ));
                                assert(patterns@.skip(idx as int)[0] == patterns@[idx as int]);
                                assert(spec_patterns_error(patterns@.skip(idx as int))
                                    == spec_expansion_error(patterns@[idx as int]));
                            }
                            return Err(
                                ProjectOpenError::InvalidBuildConfiguration(
                                    BuildConfigurationError::IncorrectSource(pattern.clone()),
                                ),
                            );
                        }
                        flat_paths.push(entry.relative_path.clone());
                        flat_ok.push(
                            entry.exists && entry.is_file && entry.is_relative
                                && !entry.is_symlink,
                        );
                        proof {
                            processed = processed.push(entries@[k as int]);
                            assert(entry_base + entries@.take(k as int + 1) =~= processed);
                        }
                        k = k + 1;
                    }
                    proof {
                        assert(entries@.take(m as int) =~= entries@);
                        assert(forall|i: int|
                            0 <= i < entries@.len() ==> (#[trigger] entries@[i]).readable);
                        assert(spec_expansion_error(rest[0]) is None);
                        assert(spec_all_entries(rest) == spec_expansion_entries(rest[0])
                            + spec_all_entries(rest.drop_first()));
                    }
                },
            }
            idx = idx + 1;
        }
        proof {
            assert(patterns@.skip(n as int) =~= Seq::<PatternExpansion>::empty());
            assert(spec_patterns_error(patterns@) is None);
            assert(spec_all_entries(patterns@) =~= processed);
        }
        let total = flat_paths.len();
        let mut result: Vec<String> = Vec::new();
        let mut k: usize = 0;
        proof {
            assert(processed.skip(0) =~= processed);
        }
        while k < total
            invariant
                total == flat_paths@.len(),
                flat_ok@.len() == total,
                processed.len() == total,
                k <= total,
                spec_patterns_error(patterns@) is None,
                spec_all_entries(patterns@) == processed,
                spec_entries_error(processed) == spec_entries_error(processed.skip(k as int)),
                result@.len() == k,
                forall|j: int|
                    0 <= j < processed.len() ==> flat_paths@[j]@ == (
                    #[trigger] processed[j]).relative_path@,
                forall|j: int|
                    0 <= j < processed.len() ==> flat_ok@[j] == spec_source_entry_ok(
                        #[trigger] processed[j],
                    ),
                forall|j: int|
                    0 <= j < k ==> result@[j]@ == (#[trigger] processed[j]).relative_path@,
            decreases total - k,
        {
            proof {
                assert(processed.skip(k as int)[0] == processed[k as int]);
                assert(processed.skip(k as int).drop_first() =~= processed.skip(k as int + 1));
            }
            if !flat_ok[k] {
                return Err(
                    ProjectOpenError::InvalidBuildConfiguration(
                        BuildConfigurationError::IncorrectSource(flat_paths[k].clone()),
                    ),
                );
            }
            result.push(flat_paths[k].clone());
            k = k + 1;
        }
        proof {
            assert(processed.skip(total as int) =~= Seq::<SourceEntry>::empty());
            assert(spec_entries_error(processed) is None);
            assert(result.deep_view() =~= spec_entry_paths(processed));
        }
        Ok(result)
    }

    /// Validates the declared include directories and appends, without
    /// re-validation, the includes that every project dependency already
    /// resolved — transitive include inheritance without deduplication.
    fn resolve_includes(includes: &Vec<IncludeEntry>, dependencies: &Vec<Dependency>) -> (r: Result<
        Vec<String>,
        ProjectOpenError,
    >)
        ensures
            match r {
                Ok(v) => spec_includes_error(includes@) is None && v.deep_view()
                    == spec_include_paths(includes@) + spec_inherited_includes(dependencies@),
                Err(e) => spec_includes_error(includes@) is Some && e@
                    == OpenErrorModel::InvalidBuildConfiguration(spec_includes_error(includes@)->0),
            },
    {
        let n = includes.len();
        let mut result: Vec<String> = Vec::new();
        let mut idx: usize = 0;
        proof {
            assert(includes@.skip(0) =~= includes@);
        }
        while idx < n
            invariant
                n == includes@.len(),
                idx <= n,
                spec_includes_error(includes@) == spec_includes_error(includes@.skip(idx as int)),
                result@.len() == idx,
                forall|j: int|
                    0 <= j < idx ==> result@[j]@ == (#[trigger] includes@[j]).path@,
            decreases n - idx,
        {
            proof {
                assert(includes@.skip(idx as int)[0] == includes@[idx as int]);
                assert(includes@.skip(idx as int).drop_first() =~= includes@.skip(idx as int + 1));
            }
            let entry = &includes[idx];
            if !(entry.exists && entry.is_directory && entry.is_relative && !entry.is_symlink) {
                return Err(
                    ProjectOpenError::InvalidBuildConfiguration(
                        BuildConfigurationError::IncorrectInclude(entry.path.clone()),
                    ),
                );
            }
            result.push(entry.path.clone());
            idx = idx + 1;
        }
        proof {
            assert(includes@.skip(n as int) =~= Seq::<IncludeEntry>::empty());
            assert(spec_includes_error(includes@) is None);
            assert(result.deep_view() =~= spec_include_paths(includes@));
        }
        let ghost own = result.deep_view();
        let ghost mut inherited: Seq<Seq<char>> = Seq::empty();
        let deps_len = dependencies.len();
        let mut d: usize = 0;
        proof {
            assert(dependencies@.skip(0) =~= dependencies@);
            assert(result.deep_view() =~= own + inherited);
            assert(inherited + spec_inherited_includes(dependencies@) =~= spec_inherited_includes(
                dependencies@,
            ));
        }
        while d < deps_len
            invariant
                deps_len == dependencies@.len(),
                d <= deps_len,
                result.deep_view() == own + inherited,
                spec_inherited_includes(dependencies@) == inherited + spec_inherited_includes(
                    dependencies@.skip(d as int),
                ),
            decreases deps_len - d,
        {
            proof {
                assert(dependencies@.skip(d as int)[0] == dependencies@[d as int]);
                assert(dependencies@.skip(d as int).drop_first() =~= dependencies@.skip(
                    d as int + 1,
                ));
            }
            match &dependencies[d] {
                Dependency::Project(p) => {
                    let sub_includes = &p.includes;
                    let m = sub_includes.len();
                    let mut j: usize = 0;
                    proof {
                        assert(own + inherited + sub_includes.deep_view().take(0)
                            =~= result.deep_view());
                    }
                    while j < m
                        invariant
                            m == sub_includes@.len(),
                            j <= m,
                            result.deep_view() == own + inherited + sub_includes.deep_view().take(
                                j as int,
                            ),
                        decreases m - j,
                    {
                        let ghost before = result.deep_view();
                        result.push(sub_includes[j].clone());
                        proof {
                            assert(result@.last()@ == sub_includes@[j as int]@);
                            assert(result.deep_view() =~= before.push(sub_includes@[j as int]@));
                            assert(before.push(sub_includes@[j as int]@) =~= own + inherited
                                + sub_includes.deep_view().take(j as int + 1));
                        }
                        j = j + 1;
                    }
                    proof {
                        assert(sub_includes.deep_view().take(m as int) =~= sub_includes.deep_view());
                        inherited = inherited + sub_includes.deep_view();
                        assert(result.deep_view() =~= own + inherited);
                    }
                },
                Dependency::System { .. } => {
                },
            }
            d = d + 1;
        }
        proof {
            assert(dependencies@.skip(deps_len as int) =~= Seq::<Dependency>::empty());
            assert(result.deep_view() == spec_include_paths(includes@) + spec_inherited_includes(
                dependencies@,
            ));
        }
        Ok(result)
    }

    /// Opens a project from a snapshot: digests the raw configuration bytes,
    /// validates the name, loads the persisted cache, decides whether the
    /// configuration changed, resolves dependencies recursively, enforces
    /// the library-only dependency invariant, and expands sources and
    /// includes.
    pub fn open(snapshot: &ProjectSnapshot) -> (r: Result<Project, ProjectOpenError>)
        ensures
            match r {
                Ok(p) => spec_open_ok(*snapshot) && spec_project_resolves(*snapshot, p),
                Err(e) => !spec_open_ok(*snapshot) && e@ == spec_open_err(*snapshot),
            },
        decreases snapshot,
    {
        let (bytes, settings, c, cpp, gcc, gpp) = match &snapshot.configuration {
            SnapshotConfiguration::Unreadable { message } => {
                return Err(ProjectOpenError::InvalidProjectPath(message.clone()));
            },
            SnapshotConfiguration::Malformed { message } => {
                return Err(
                    ProjectOpenError::InvalidBuildConfiguration(
                        BuildConfigurationError::SyntaxError(message.clone()),
                    ),
                );
            },
            SnapshotConfiguration::Parsed { bytes, settings, c, cpp, gcc, gpp } => (
                bytes,
                settings,
                c,
                cpp,
                gcc,
                gpp,
            ),
        };
        let configuration_digest = content_digest(bytes.as_slice());
        if !name_matches_pattern(settings.name.as_str()) {
            return Err(
                ProjectOpenError::InvalidBuildConfiguration(BuildConfigurationError::InvalidName),
            );
        }
        let hashes = Self::read_hashes(snapshot.cache_content.as_ref());
        let has_project_configuration_changed = match hashes.get(&crate::configuration_file_name())
            {
            Some(recorded) => recorded != configuration_digest,
            None => true,
        };
        proof {
            assert(decreases_to!(*snapshot => snapshot.dependencies));
        }
        let dependencies = match Self::resolve_dependencies(&snapshot.dependencies) {
            Ok(v) => v,
            Err(e) => {
                return Err(e);
            },
        };
        let deps_len = dependencies.len();
        let mut d: usize = 0;
        proof {
            assert(snapshot.dependencies@.skip(0) =~= snapshot.dependencies@);
        }
        while d < deps_len
            invariant
                deps_len == dependencies@.len(),
                d <= deps_len,
                snapshot.configuration is Parsed,
                spec_name_matches_pattern(spec_snapshot_settings(*snapshot).name@),
                spec_dependencies_open_ok(snapshot.dependencies@),
                dependencies@.len() == snapshot.dependencies@.len(),
                forall|i: int|
                    0 <= i < snapshot.dependencies@.len() ==> spec_dependency_resolves(
                        snapshot.dependencies@[i],
                        #[trigger] dependencies@[i],
                    ),
                spec_dependency_violation(snapshot.dependencies@) == spec_dependency_violation(
                    snapshot.dependencies@.skip(d as int),
                ),
            decreases deps_len - d,
        {
            let ghost srest = snapshot.dependencies@.skip(d as int);
            proof {
                assert(srest[0] == snapshot.dependencies@[d as int]);
                assert(srest.drop_first() =~= snapshot.dependencies@.skip(d as int + 1));
                assert(spec_dependency_resolves(
                    snapshot.dependencies@[d as int],
                    dependencies@[d as int],
                ));
            }
            match &dependencies[d] {
                Dependency::Project(p) => {
                    if matches!(p.distribution, Distribution::Executable) {
                        proof {
                            let sdep = snapshot.dependencies@[d as int];
                            assert(sdep matches SnapshotDependency::Local { project } && spec_project_resolves(
                                *project,
                                *dependencies@[d as int]->0,
                            ));
                            assert(spec_dependency_violation(srest) == Some(p.name@));
                            assert(spec_dependency_violation(snapshot.dependencies@) == Some(
                                p.name@,
                            ));
                        }
                        return Err(
                            ProjectOpenError::InvalidBuildConfiguration(
                                BuildConfigurationError::DependencyIsNotALibrary(p.name.clone()),
                            ),
                        );
                    }
                },
                Dependency::System { .. } => {
                },
            }
            d = d + 1;
        }
        proof {
            assert(snapshot.dependencies@.skip(deps_len as int) =~= Seq::<
                SnapshotDependency,
            >::empty());
            assert(spec_dependency_violation(snapshot.dependencies@) is None);
        }
        let sources = match Self::resolve_sources(&snapshot.sources) {
            Ok(v) => v,
            Err(e) => {
                return Err(e);
            },
        };
        let includes = match Self::resolve_includes(&snapshot.includes, &dependencies) {
            Ok(v) => v,
            Err(e) => {
                return Err(e);
            },
        };
        Ok(
            Project {
                base_path: snapshot.base_path.clone(),
                name: settings.name.clone(),
                description: crate::clone_option_string(&settings.description),
                author: crate::clone_option_string(&settings.author),
                language: settings.language,
                distribution: settings.distribution,
                sources,
                includes,
                dependencies,
                optimization: settings.optimization,
                enable_all_warnings: settings.enable_all_warnings,
                treat_all_warnings_as_errors: settings.treat_all_warnings_as_errors,
                has_project_configuration_changed,
                configuration_digest,
                hashes,
                c: match c {
                    Some(block) => Some(*block),
                    None => None,
                },
                cpp: match cpp {
                    Some(block) => Some(*block),
                    None => None,
                },
                gcc: match gcc {
                    Some(block) => Some(block.duplicate()),
                    None => None,
                },
                gpp: match gpp {
                    Some(block) => Some(block.duplicate()),
                    None => None,
                },
            },
        )
    }
}

proof fn lemma_dependency_violation_exists(deps: Seq<SnapshotDependency>, i: int)
    requires
        0 <= i < deps.len(),
        deps[i] matches SnapshotDependency::Local { .. },
        spec_snapshot_settings(*deps[i]->project).distribution == Distribution::Executable,
    ensures
        spec_dependency_violation(deps) is Some,
    decreases i,
{
    if i > 0 {
        if !(deps[0] matches SnapshotDependency::Local { project } && spec_snapshot_settings(
            *project,
        ).distribution == Distribution::Executable) {
            assert(deps.drop_first()[i - 1] == deps[i]);
            lemma_dependency_violation_exists(deps.drop_first(), i - 1);
        }
    }
}

/// Library-dependency invariant: a project with a local dependency whose
/// product is an executable never resolves; when everything before the
/// invariant check is sound, the failure is the library-only error.
pub proof fn lemma_executable_dependency_rejected(snap: ProjectSnapshot, i: int)
    requires
        snap.configuration is Parsed,
        0 <= i < snap.dependencies@.len(),
        snap.dependencies@[i] matches SnapshotDependency::Local { .. },
        spec_snapshot_settings(*snap.dependencies@[i]->project).distribution
            == Distribution::Executable,
    ensures
        !spec_open_ok(snap),
        spec_name_matches_pattern(spec_snapshot_settings(snap).name@) && spec_dependencies_open_ok(
            snap.dependencies@,
        ) ==> (spec_open_err(snap) matches OpenErrorModel::InvalidBuildConfiguration(e)
            && e is DependencyIsNotALibrary),
{
    lemma_dependency_violation_exists(snap.dependencies@, i);
}

} // verus!
