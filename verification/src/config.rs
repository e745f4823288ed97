//! Data model of the build configuration: languages, distribution kinds,
//! optimization levels, language standards, and the optional per-language and
//! per-toolchain configuration blocks.

use vstd::prelude::*;

verus! {

/// Source language of a project.
#[derive(Clone, Copy, Debug, PartialEq, Eq, Structural)]
pub enum Language {
    C,
    Cpp,
}

/// Category of the build product of a project.
#[derive(Clone, Copy, Debug, PartialEq, Eq, Structural)]
pub enum Distribution {
    Executable,
    StaticLibrary,
    DynamicLibrary,
}

impl Default for Distribution {
    /// Projects are executables unless the configuration says otherwise.
    fn default() -> (r: Self)
        ensures
            r == Distribution::Executable,
    {
        Distribution::Executable
    }
}

/// Optimization level handed to the compiler.
#[derive(Clone, Copy, Debug, PartialEq, Eq, Structural)]
pub enum OptimizationLevel {
    Zero,
    One,
    Two,
    Three,
    Four,
    Size,
    Debug,
}

impl Default for OptimizationLevel {
    /// Builds are unoptimized unless the configuration says otherwise.
    fn default() -> (r: Self)
        ensures
            r == OptimizationLevel::Zero,
    {
        OptimizationLevel::Zero
    }
}

/// Revision of the C standard.
#[derive(Clone, Copy, Debug, PartialEq, Eq, Structural)]
pub enum CStandard {
    EightyNine,
    NinetyNine,
    Eleven,
    Seventeen,
    Twenty,
    TwentyThree,
}

impl CStandard {
    /// The most recent supported revision of the C standard.
    pub fn latest() -> (r: CStandard)
        ensures
            r == CStandard::TwentyThree,
    {
        CStandard::TwentyThree
    }
}

/// Revision of the C++ standard.
#[derive(Clone, Copy, Debug, PartialEq, Eq, Structural)]
pub enum CppStandard {
    NinetyEight,
    Three,
    Eleven,
    Fourteen,
    Seventeen,
    Twenty,
    TwentyThree,
    TwentySix,
}

impl CppStandard {
    /// The most recent supported revision of the C++ standard.
    pub fn latest() -> (r: CppStandard)
        ensures
            r == CppStandard::TwentySix,
    {
        CppStandard::TwentySix
    }
}

/// Optional `c` block of the configuration file.
#[derive(Clone, Copy, Debug)]
pub struct CConfiguration {
    pub standard: Option<CStandard>,
}

/// Optional `cpp` block of the configuration file.
#[derive(Clone, Copy, Debug)]
pub struct CppConfiguration {
    pub standard: Option<CppStandard>,
}

/// Optional `gcc` block: extra arguments injected verbatim before and after
/// the engine's own C compiler flags.
#[derive(Debug)]
pub struct GccConfiguration {
    pub additional_pre_arguments: Vec<String>,
    pub additional_post_arguments: Vec<String>,
}

/// Optional `gpp` block: extra arguments injected verbatim before and after
/// the engine's own C++ compiler flags.
#[derive(Debug)]
pub struct GppConfiguration {
    pub additional_pre_arguments: Vec<String>,
    pub additional_post_arguments: Vec<String>,
}

impl GccConfiguration {
    /// Copies the block, keeping its argument lists.
    pub fn duplicate(&self) -> (r: Self)
        ensures
            r.additional_pre_arguments.deep_view() == self.additional_pre_arguments.deep_view(),
            r.additional_post_arguments.deep_view() == self.additional_post_arguments.deep_view(),
    {
        GccConfiguration {
            additional_pre_arguments: crate::clone_string_vec(&self.additional_pre_arguments),
            additional_post_arguments: crate::clone_string_vec(&self.additional_post_arguments),
        }
    }
}

impl GppConfiguration {
    /// Copies the block, keeping its argument lists.
    pub fn duplicate(&self) -> (r: Self)
        ensures
            r.additional_pre_arguments.deep_view() == self.additional_pre_arguments.deep_view(),
            r.additional_post_arguments.deep_view() == self.additional_post_arguments.deep_view(),
    {
        GppConfiguration {
            additional_pre_arguments: crate::clone_string_vec(&self.additional_pre_arguments),
            additional_post_arguments: crate::clone_string_vec(&self.additional_post_arguments),
        }
    }
}

/// Locations of the toolchain programs, as loaded from the process-wide
/// toolchain settings file.
#[derive(Debug)]
pub struct ToolchainConfiguration {
    pub gcc_location: Option<String>,
    pub gpp_location: Option<String>,
    pub ar_location: Option<String>,
}

impl Default for ToolchainConfiguration {
    /// Without a settings file no toolchain program has a known location.
    fn default() -> (r: Self)
        ensures
            r.gcc_location is None,
            r.gpp_location is None,
            r.ar_location is None,
    {
        ToolchainConfiguration { gcc_location: None, gpp_location: None, ar_location: None }
    }
}

} // verus!
