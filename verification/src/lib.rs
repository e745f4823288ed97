//! Build orchestration engine for C/C++ projects.
//!
//! The library contains the decision logic of the build tool: resolving a
//! project description tree, selecting stale sources through a
//! content-addressed cache, aggregating the results of a compilation batch,
//! assembling linker/archiver invocations, propagating build artifacts, and
//! ordering named tasks by their declared dependencies.  Everything that
//! observes or changes the file system (reading files, expanding globs,
//! spawning the toolchain) lives outside the library and hands plain values
//! in and takes plain values back.

pub mod cache;
pub mod config;
pub mod digest;
pub mod extensions;
pub mod names;
pub mod orchestrator;
pub mod project;
pub mod run;
pub mod task;
pub mod tools;

use vstd::prelude::*;

verus! {

/// Name of the per-project build configuration file.
pub open spec fn spec_configuration_file_name() -> Seq<char> {
    "bakery.toml"@
}

/// Subdirectory of a project that holds object files and artifacts.
pub open spec fn spec_build_directory() -> Seq<char> {
    ".bakery/build"@
}

/// Subdirectory of a project that holds the persisted hash cache.
pub open spec fn spec_cache_directory() -> Seq<char> {
    ".bakery/cache"@
}

/// Project-relative path of the persisted hash cache file.
pub open spec fn spec_hashes_file_name() -> Seq<char> {
    ".bakery/cache/hashes.json"@
}

/// Copies a vector of strings, keeping its contents.
pub fn clone_string_vec(v: &Vec<String>) -> (r: Vec<String>)
    ensures
        r.deep_view() == v.deep_view(),
{
    let mut r: Vec<String> = Vec::new();
    let n = v.len();
    let mut i: usize = 0;
    while i < n
        invariant
            n == v@.len(),
            i <= n,
            r@.len() == i,
            forall|j: int| 0 <= j < i ==> (#[trigger] r@[j])@ == v@[j]@,
        decreases n - i,
    {
        r.push(v[i].clone());
        i = i + 1;
    }
    proof {
        assert(r.deep_view() =~= v.deep_view());
    }
    r
}

/// Copies an optional string, keeping its contents.
pub fn clone_option_string(v: &Option<String>) -> (r: Option<String>)
    ensures
        r.deep_view() == v.deep_view(),
{
    match v {
        Some(s) => Some(s.clone()),
        None => None,
    }
}

pub fn configuration_file_name() -> (r: String)
    ensures
        r@ == spec_configuration_file_name(),
{
    String::from_str("bakery.toml")
}

pub fn build_directory() -> (r: String)
    ensures
        r@ == spec_build_directory(),
{
    String::from_str(".bakery/build")
}

pub fn cache_directory() -> (r: String)
    ensures
        r@ == spec_cache_directory(),
{
    String::from_str(".bakery/cache")
}

pub fn hashes_file_name() -> (r: String)
    ensures
        r@ == spec_hashes_file_name(),
{
    String::from_str(".bakery/cache/hashes.json")
}

} // verus!
