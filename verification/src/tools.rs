//! The toolchain adapters.
//!
//! The engine is agnostic to the concrete compiler command line: each
//! adapter translates the engine's settings into the argument list of one
//! tool family, and the argument lists are pinned down exactly.  Spawning
//! the tool processes is the surrounding program's work, through the
//! [`CCompiler`], [`CppCompiler`] and [`Archiver`] capabilities.

use crate::config::{CStandard, CppStandard, Distribution, OptimizationLevel};
use vstd::prelude::*;

verus! {

/// Settings for compiling one C source file.
pub struct CCompilationSettings {
    pub distribution: Distribution,
    pub standard: CStandard,
    pub optimization: OptimizationLevel,
    pub includes: Vec<String>,
    pub enable_all_warnings: bool,
    pub treat_all_warnings_as_errors: bool,
    pub additional_pre_arguments: Vec<String>,
    pub additional_post_arguments: Vec<String>,
}

/// Settings for compiling one C++ source file.
pub struct CppCompilationSettings {
    pub distribution: Distribution,
    pub standard: CppStandard,
    pub optimization: OptimizationLevel,
    pub includes: Vec<String>,
    pub enable_all_warnings: bool,
    pub treat_all_warnings_as_errors: bool,
    pub additional_pre_arguments: Vec<String>,
    pub additional_post_arguments: Vec<String>,
}

/// Settings for linking object files into an executable or a dynamic
/// library.
pub struct LinkingSettings {
    pub distribution: Distribution,
    pub includes: Vec<String>,
    pub libraries: Vec<String>,
    pub library_search_paths: Vec<String>,
}

/// The capability of compiling and linking C code; on failure the captured
/// diagnostic text is returned.
pub trait CCompiler {
    fn compile_source_file(
        &self,
        source_file: &String,
        output_file: &String,
        settings: &CCompilationSettings,
    ) -> Result<(), String>;

    fn link_object_files(
        &self,
        object_files: &Vec<String>,
        output_file: &String,
        settings: &LinkingSettings,
    ) -> Result<(), String>;
}

/// The capability of compiling and linking C++ code.
pub trait CppCompiler {
    fn compile_source_file(
        &self,
        source_file: &String,
        output_file: &String,
        settings: &CppCompilationSettings,
    ) -> Result<(), String>;

    fn link_object_files(
        &self,
        object_files: &Vec<String>,
        output_file: &String,
        settings: &LinkingSettings,
    ) -> Result<(), String>;
}

/// The capability of archiving object files into a static library.
pub trait Archiver {
    fn archive_object_files(&self, object_files: &Vec<String>, output_file: &String) -> Result<
        (),
        String,
    >;
}

/// The `-std=` flag for a C standard.
pub open spec fn spec_c_standard_flag(s: CStandard) -> Seq<char> {
    match s {
        CStandard::EightyNine => "-std=c89"@,
        CStandard::NinetyNine => "-std=c99"@,
        CStandard::Eleven => "-std=c11"@,
        CStandard::Seventeen => "-std=c17"@,
        CStandard::Twenty => "-std=c20"@,
        CStandard::TwentyThree => "-std=c23"@,
    }
}

/// The `-std=` flag for a C++ standard.
pub open spec fn spec_cpp_standard_flag(s: CppStandard) -> Seq<char> {
    match s {
        CppStandard::NinetyEight => "-std=c++98"@,
        CppStandard::Three => "-std=c++3"@,
        CppStandard::Eleven => "-std=c++11"@,
        CppStandard::Fourteen => "-std=c++14"@,
        CppStandard::Seventeen => "-std=c++17"@,
        CppStandard::Twenty => "-std=c++20"@,
        CppStandard::TwentyThree => "-std=c++23"@,
        CppStandard::TwentySix => "-std=c++26"@,
    }
}

/// The `-O` flag for an optimization level.
pub open spec fn spec_optimization_flag(o: OptimizationLevel) -> Seq<char> {
    match o {
        OptimizationLevel::Zero => "-O0"@,
        OptimizationLevel::One => "-O1"@,
        OptimizationLevel::Two => "-O2"@,
        OptimizationLevel::Three => "-O3"@,
        OptimizationLevel::Four => "-Ofast"@,
        OptimizationLevel::Size => "-Os"@,
        OptimizationLevel::Debug => "-Og"@,
    }
}

/// Each element prefixed with a flag, as in `-Iinclude`.
pub open spec fn spec_prefixed(prefix: Seq<char>, items: Seq<Seq<char>>) -> Seq<Seq<char>> {
    items.map_values(|s: Seq<char>| prefix + s)
}

/// The warning flags a compilation uses.
pub open spec fn spec_warning_flags(
    enable_all_warnings: bool,
    treat_all_warnings_as_errors: bool,
) -> Seq<Seq<char>> {
    (if enable_all_warnings {
        seq!["-Wall"@, "-Wpedantic"@]
    } else {
        Seq::empty()
    }) + (if treat_all_warnings_as_errors {
        seq!["-Werror"@]
    } else {
        Seq::empty()
    })
}

/// The `-fPIC` flag, present exactly for dynamic libraries.
pub open spec fn spec_pic_flag(d: Distribution) -> Seq<Seq<char>> {
    if d == Distribution::DynamicLibrary {
        seq!["-fPIC"@]
    } else {
        Seq::empty()
    }
}

/// The full compiler argument list for one C source file.
pub open spec fn spec_c_compile_arguments(
    settings: CCompilationSettings,
    source_file: Seq<char>,
    output_file: Seq<char>,
) -> Seq<Seq<char>> {
    settings.additional_pre_arguments.deep_view() + seq!["-c"@] + spec_pic_flag(
        settings.distribution,
    ) + seq!["-xc"@] + seq![spec_c_standard_flag(settings.standard)] + seq![
        spec_optimization_flag(settings.optimization),
    ] + spec_warning_flags(settings.enable_all_warnings, settings.treat_all_warnings_as_errors)
        + seq![source_file] + seq!["-o"@ + output_file] + spec_prefixed(
        "-I"@,
        settings.includes.deep_view(),
    ) + settings.additional_post_arguments.deep_view()
}

/// The full compiler argument list for one C++ source file.
pub open spec fn spec_cpp_compile_arguments(
    settings: CppCompilationSettings,
    source_file: Seq<char>,
    output_file: Seq<char>,
) -> Seq<Seq<char>> {
    settings.additional_pre_arguments.deep_view() + seq!["-c"@] + spec_pic_flag(
        settings.distribution,
    ) + seq!["-xc++"@] + seq![spec_cpp_standard_flag(settings.standard)] + seq![
        spec_optimization_flag(settings.optimization),
    ] + spec_warning_flags(settings.enable_all_warnings, settings.treat_all_warnings_as_errors)
        + seq![source_file] + seq!["-o"@ + output_file] + spec_prefixed(
        "-I"@,
        settings.includes.deep_view(),
    ) + settings.additional_post_arguments.deep_view()
}

/// The full linker argument list.
pub open spec fn spec_link_arguments(
    settings: LinkingSettings,
    object_files: Seq<Seq<char>>,
    output_file: Seq<char>,
) -> Seq<Seq<char>> {
    (if settings.distribution == Distribution::DynamicLibrary {
        seq!["-shared"@]
    } else {
        Seq::empty()
    }) + object_files + seq!["-o"@ + output_file] + spec_prefixed(
        "-I"@,
        settings.includes.deep_view(),
    ) + spec_prefixed("-L"@, settings.library_search_paths.deep_view()) + spec_prefixed(
        "-l"@,
        settings.libraries.deep_view(),
    )
}

/// The full archiver argument list.
pub open spec fn spec_archive_arguments(
    object_files: Seq<Seq<char>>,
    output_file: Seq<char>,
) -> Seq<Seq<char>> {
    seq!["rcs"@, output_file] + object_files
}

/// Appends each element of `items`, prefixed, to `args`.
fn push_prefixed(args: &mut Vec<String>, prefix: &str, items: &Vec<String>)
    ensures
        final(args).deep_view() == old(args).deep_view() + spec_prefixed(
            prefix@,
            items.deep_view(),
        ),
{
    let n = items.len();
    let ghost initial = args.deep_view();
    let mut i: usize = 0;
    while i < n
        invariant
            n == items@.len(),
            i <= n,
            args.deep_view() == initial + spec_prefixed(prefix@, items.deep_view().take(i as int)),
        decreases n - i,
    {
        let mut flag = prefix.to_owned();
        flag.append(items[i].as_str());
        let ghost before = args.deep_view();
        args.push(flag);
        proof {
            assert(args.deep_view() =~= before.push(prefix@ + items@[i as int]@));
            assert(before.push(prefix@ + items@[i as int]@) =~= initial + spec_prefixed(
                prefix@,
                items.deep_view().take(i as int + 1),
            ));
        }
        i = i + 1;
    }
    proof {
        assert(items.deep_view().take(n as int) =~= items.deep_view());
        assert(initial + spec_prefixed(prefix@, items.deep_view().take(0)) =~= initial);
    }
}

/// Appends every element of `items` to `args`, unchanged.
fn push_all(args: &mut Vec<String>, items: &Vec<String>)
    ensures
        final(args).deep_view() == old(args).deep_view() + items.deep_view(),
{
    let n = items.len();
    let ghost initial = args.deep_view();
    let mut i: usize = 0;
    while i < n
        invariant
            n == items@.len(),
            i <= n,
            args.deep_view() == initial + items.deep_view().take(i as int),
        decreases n - i,
    {
        let ghost before = args.deep_view();
        args.push(items[i].clone());
        proof {
            assert(args.deep_view() =~= before.push(items@[i as int]@));
            assert(before.push(items@[i as int]@) =~= initial + items.deep_view().take(
                i as int + 1,
            ));
        }
        i = i + 1;
    }
    proof {
        assert(items.deep_view().take(n as int) =~= items.deep_view());
        assert(initial + items.deep_view().take(0) =~= initial);
    }
}

/// A flag followed by a value in the same argument, as in `-oout`.
fn glued_flag(prefix: &str, value: &str) -> (r: String)
    ensures
        r@ == prefix@ + value@,
{
    let mut r = prefix.to_owned();
    r.append(value);
    r
}

fn c_standard_flag(s: CStandard) -> (r: String)
    ensures
        r@ == spec_c_standard_flag(s),
{
    match s {
        CStandard::EightyNine => String::from_str("-std=c89"),
        CStandard::NinetyNine => String::from_str("-std=c99"),
        CStandard::Eleven => String::from_str("-std=c11"),
        CStandard::Seventeen => String::from_str("-std=c17"),
        CStandard::Twenty => String::from_str("-std=c20"),
        CStandard::TwentyThree => String::from_str("-std=c23"),
    }
}

fn cpp_standard_flag(s: CppStandard) -> (r: String)
    ensures
        r@ == spec_cpp_standard_flag(s),
{
    match s {
        CppStandard::NinetyEight => String::from_str("-std=c++98"),
        CppStandard::Three => String::from_str("-std=c++3"),
        CppStandard::Eleven => String::from_str("-std=c++11"),
        CppStandard::Fourteen => String::from_str("-std=c++14"),
        CppStandard::Seventeen => String::from_str("-std=c++17"),
        CppStandard::Twenty => String::from_str("-std=c++20"),
        CppStandard::TwentyThree => String::from_str("-std=c++23"),
        CppStandard::TwentySix => String::from_str("-std=c++26"),
    }
}

fn optimization_flag(o: OptimizationLevel) -> (r: String)
    ensures
        r@ == spec_optimization_flag(o),
{
    match o {
        OptimizationLevel::Zero => String::from_str("-O0"),
        OptimizationLevel::One => String::from_str("-O1"),
        OptimizationLevel::Two => String::from_str("-O2"),
        OptimizationLevel::Three => String::from_str("-O3"),
        OptimizationLevel::Four => String::from_str("-Ofast"),
        OptimizationLevel::Size => String::from_str("-Os"),
        OptimizationLevel::Debug => String::from_str("-Og"),
    }
}

/// Appends the warning flags.
fn push_warning_flags(args: &mut Vec<String>, enable_all_warnings: bool, treat_all_warnings_as_errors: bool)
    ensures
        final(args).deep_view() == old(args).deep_view() + spec_warning_flags(
            enable_all_warnings,
            treat_all_warnings_as_errors,
        ),
{
    let ghost initial = args.deep_view();
    if enable_all_warnings {
        args.push(String::from_str("-Wall"));
        args.push(String::from_str("-Wpedantic"));
        proof {
            assert(args.deep_view() =~= initial + seq!["-Wall"@, "-Wpedantic"@]);
        }
    }
    let ghost mid = args.deep_view();
    if treat_all_warnings_as_errors {
        args.push(String::from_str("-Werror"));
        proof {
            assert(args.deep_view() =~= mid + seq!["-Werror"@]);
        }
    }
    proof {
        assert(args.deep_view() =~= initial + spec_warning_flags(
            enable_all_warnings,
            treat_all_warnings_as_errors,
        ));
    }
}

/// The common tail of both compiler invocations: the source file, the
/// output flag, the include flags and the extra post arguments.
fn push_compile_tail(
    args: &mut Vec<String>,
    source_file: &String,
    output_file: &String,
    includes: &Vec<String>,
    additional_post_arguments: &Vec<String>,
)
    ensures
        final(args).deep_view() == old(args).deep_view() + seq![source_file@] + seq![
            "-o"@ + output_file@,
        ] + spec_prefixed("-I"@, includes.deep_view())
            + additional_post_arguments.deep_view(),
{
    let ghost initial = args.deep_view();
    args.push(source_file.clone());
    args.push(glued_flag("-o", output_file.as_str()));
    proof {
        assert(args.deep_view() =~= initial + seq![source_file@] + seq!["-o"@ + output_file@]);
    }
    push_prefixed(args, "-I", includes);
    push_all(args, additional_post_arguments);
}

/// An archiver of the `ar` family, located at a configured path.
pub struct Ar {
    location: String,
}

impl Ar {
    pub closed spec fn spec_location(&self) -> Seq<char> {
        self.location@
    }

    pub fn new(location: String) -> (r: Ar)
        ensures
            r.spec_location() == location@,
    {
        Ar { location }
    }

    /// The path of the archiver program.
    pub fn location(&self) -> (r: &String)
        ensures
            r@ == self.spec_location(),
    {
        &self.location
    }

    /// The archiver command line: `rcs`, the output file, the objects.
    pub fn archive_arguments(&self, object_files: &Vec<String>, output_file: &String) -> (r: Vec<
        String,
    >)
        ensures
            r.deep_view() == spec_archive_arguments(object_files.deep_view(), output_file@),
    {
        let mut args: Vec<String> = Vec::new();
        args.push(String::from_str("rcs"));
        args.push(output_file.clone());
        proof {
            assert(args.deep_view() =~= seq!["rcs"@, output_file@]);
        }
        push_all(&mut args, object_files);
        args
    }
}

/// An archiver of the GCC tool family.
pub struct GccFlavorArchiver {
    location: String,
}

impl GccFlavorArchiver {
    pub closed spec fn spec_location(&self) -> Seq<char> {
        self.location@
    }

    pub fn new(location: String) -> (r: GccFlavorArchiver)
        ensures
            r.spec_location() == location@,
    {
        GccFlavorArchiver { location }
    }

    /// The path of the archiver program.
    pub fn location(&self) -> (r: &String)
        ensures
            r@ == self.spec_location(),
    {
        &self.location
    }

    /// The archiver command line: `rcs`, the output file, the objects.
    pub fn archive_arguments(&self, object_files: &Vec<String>, output_file: &String) -> (r: Vec<
        String,
    >)
        ensures
            r.deep_view() == spec_archive_arguments(object_files.deep_view(), output_file@),
    {
        let mut args: Vec<String> = Vec::new();
        args.push(String::from_str("rcs"));
        args.push(output_file.clone());
        proof {
            assert(args.deep_view() =~= seq!["rcs"@, output_file@]);
        }
        push_all(&mut args, object_files);
        args
    }
}

/// A C compiler of the GCC tool family.
pub struct GccFlavorCCompiler {
    location: String,
}

impl GccFlavorCCompiler {
    pub closed spec fn spec_location(&self) -> Seq<char> {
        self.location@
    }

    pub fn new(location: String) -> (r: GccFlavorCCompiler)
        ensures
            r.spec_location() == location@,
    {
        GccFlavorCCompiler { location }
    }

    /// The path of the compiler program.
    pub fn location(&self) -> (r: &String)
        ensures
            r@ == self.spec_location(),
    {
        &self.location
    }

    /// The compiler command line for one C source file.
    pub fn compile_arguments(
        &self,
        source_file: &String,
        output_file: &String,
        settings: &CCompilationSettings,
    ) -> (r: Vec<String>)
        ensures
            r.deep_view() == spec_c_compile_arguments(*settings, source_file@, output_file@),
    {
        let mut args = crate::clone_string_vec(&settings.additional_pre_arguments);
        let ghost pre = settings.additional_pre_arguments.deep_view();
        args.push(String::from_str("-c"));
        proof {
            assert(args.deep_view() =~= pre + seq!["-c"@]);
        }
        let ghost with_c = args.deep_view();
        if matches!(settings.distribution, Distribution::DynamicLibrary) {
            args.push(String::from_str("-fPIC"));
            proof {
                assert(args.deep_view() =~= with_c + seq!["-fPIC"@]);
            }
        }
        proof {
            assert(args.deep_view() =~= with_c + spec_pic_flag(settings.distribution));
        }
        args.push(String::from_str("-xc"));
        args.push(c_standard_flag(settings.standard));
        args.push(optimization_flag(settings.optimization));
        proof {
            assert(args.deep_view() =~= with_c + spec_pic_flag(settings.distribution) + seq![
                "-xc"@,
            ] + seq![spec_c_standard_flag(settings.standard)] + seq![
                spec_optimization_flag(settings.optimization),
            ]);
        }
        push_warning_flags(
            &mut args,
            settings.enable_all_warnings,
            settings.treat_all_warnings_as_errors,
        );
        push_compile_tail(
            &mut args,
            source_file,
            output_file,
            &settings.includes,
            &settings.additional_post_arguments,
        );
        proof {
            assert(args.deep_view() =~= spec_c_compile_arguments(
                *settings,
                source_file@,
                output_file@,
            ));
        }
        args
    }

    /// The linker command line.
    pub fn link_arguments(
        &self,
        object_files: &Vec<String>,
        output_file: &String,
        settings: &LinkingSettings,
    ) -> (r: Vec<String>)
        ensures
            r.deep_view() == spec_link_arguments(*settings, object_files.deep_view(), output_file@),
    {
        link_arguments_common(object_files, output_file, settings)
    }
}

/// A C++ compiler of the GCC tool family.
pub struct GccFlavorCppCompiler {
    location: String,
}

impl GccFlavorCppCompiler {
    pub closed spec fn spec_location(&self) -> Seq<char> {
        self.location@
    }

    pub fn new(location: String) -> (r: GccFlavorCppCompiler)
        ensures
            r.spec_location() == location@,
    {
        GccFlavorCppCompiler { location }
    }

    /// The path of the compiler program.
    pub fn location(&self) -> (r: &String)
        ensures
            r@ == self.spec_location(),
    {
        &self.location
    }

    /// The compiler command line for one C++ source file.
    pub fn compile_arguments(
        &self,
        source_file: &String,
        output_file: &String,
        settings: &CppCompilationSettings,
    ) -> (r: Vec<String>)
        ensures
            r.deep_view() == spec_cpp_compile_arguments(*settings, source_file@, output_file@),
    {
        let mut args = crate::clone_string_vec(&settings.additional_pre_arguments);
        let ghost pre = settings.additional_pre_arguments.deep_view();
        args.push(String::from_str("-c"));
        proof {
            assert(args.deep_view() =~= pre + seq!["-c"@]);
        }
        let ghost with_c = args.deep_view();
        if matches!(settings.distribution, Distribution::DynamicLibrary) {
            args.push(String::from_str("-fPIC"));
            proof {
                assert(args.deep_view() =~= with_c + seq!["-fPIC"@]);
            }
        }
        proof {
            assert(args.deep_view() =~= with_c + spec_pic_flag(settings.distribution));
        }
        args.push(String::from_str("-xc++"));
        args.push(cpp_standard_flag(settings.standard));
        args.push(optimization_flag(settings.optimization));
        proof {
            assert(args.deep_view() =~= with_c + spec_pic_flag(settings.distribution) + seq![
                "-xc++"@,
            ] + seq![spec_cpp_standard_flag(settings.standard)] + seq![
                spec_optimization_flag(settings.optimization),
            ]);
        }
        push_warning_flags(
            &mut args,
            settings.enable_all_warnings,
            settings.treat_all_warnings_as_errors,
        );
        push_compile_tail(
            &mut args,
            source_file,
            output_file,
            &settings.includes,
            &settings.additional_post_arguments,
        );
        proof {
            assert(args.deep_view() =~= spec_cpp_compile_arguments(
                *settings,
                source_file@,
                output_file@,
            ));
        }
        args
    }

    /// The linker command line.
    pub fn link_arguments(
        &self,
        object_files: &Vec<String>,
        output_file: &String,
        settings: &LinkingSettings,
    ) -> (r: Vec<String>)
        ensures
            r.deep_view() == spec_link_arguments(*settings, object_files.deep_view(), output_file@),
    {
        link_arguments_common(object_files, output_file, settings)
    }
}

/// The linker command line shared by both compiler families.
fn link_arguments_common(
    object_files: &Vec<String>,
    output_file: &String,
    settings: &LinkingSettings,
) -> (r: Vec<String>)
    ensures
        r.deep_view() == spec_link_arguments(*settings, object_files.deep_view(), output_file@),
{
    let mut args: Vec<String> = Vec::new();
    if matches!(settings.distribution, Distribution::DynamicLibrary) {
        args.push(String::from_str("-shared"));
        proof {
            assert(args.deep_view() =~= seq!["-shared"@]);
        }
    }
    let ghost shared = args.deep_view();
    push_all(&mut args, object_files);
    args.push(glued_flag("-o", output_file.as_str()));
    proof {
        assert(args.deep_view() =~= shared + object_files.deep_view() + seq![
            "-o"@ + output_file@,
        ]);
    }
    push_prefixed(&mut args, "-I", &settings.includes);
    push_prefixed(&mut args, "-L", &settings.library_search_paths);
    push_prefixed(&mut args, "-l", &settings.libraries);
    proof {
        assert(args.deep_view() =~= spec_link_arguments(
            *settings,
            object_files.deep_view(),
            output_file@,
        ));
    }
    args
}

/// A handle on a located C++ compiler program.
pub struct GPP {
    location: String,
}

impl GPP {
    pub closed spec fn spec_location(&self) -> Seq<char> {
        self.location@
    }

    pub fn new(location: String) -> (r: GPP)
        ensures
            r.spec_location() == location@,
    {
        GPP { location }
    }

    /// The path of the compiler program.
    pub fn location(&self) -> (r: &String)
        ensures
            r@ == self.spec_location(),
    {
        &self.location
    }
}

} // verus!
