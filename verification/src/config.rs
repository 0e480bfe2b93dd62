use vstd::prelude::*;

use crate::version::Decimal;

verus! {

/// How a group of source paths is interpreted when the build script is
/// generated: a literal file list, a non-recursive glob over directories,
/// or a recursive glob.
#[derive(Clone, Copy, Debug, PartialEq, Eq, Structural)]
pub enum SourceType {
    File,
    Glob,
    GlobRecurse,
}

/// Visibility given to a group of include directories.
#[derive(Clone, Copy, Debug, PartialEq, Eq, Structural)]
pub enum IncludeType {
    Public,
    Interface,
}

/// Declarative file-selection rule, used for the top-level project and for
/// local source dependencies alike.
#[derive(Clone, Debug, PartialEq)]
pub struct ProjectFiles {
    pub source_files: Vec<(SourceType, Vec<String>)>,
    pub include_dirs: Vec<(IncludeType, Vec<String>)>,
    pub exclude_files: Vec<String>,
}

/// Project identity: name and version.
#[derive(Clone, Debug, PartialEq)]
pub struct Project {
    pub name: String,
    pub version: Decimal,
}

/// Build settings: minimum build-tool version and the project's file rules.
#[derive(Clone, Debug, PartialEq)]
pub struct CMake {
    pub minimum_required: Decimal,
    pub files: ProjectFiles,
}

/// A dependency resolved through the build tool's own package search.
#[derive(Clone, Debug, PartialEq)]
pub struct FindDependency {
    pub name: String,
    pub required: bool,
    pub custom_link_name: Option<String>,
}

/// Whether a local dependency carries its own nested build script or has its
/// sources discovered and compiled inline.
#[derive(Clone, Debug, PartialEq)]
pub enum LocalType {
    CMake,
    Source { files: ProjectFiles, dependencies: Vec<String> },
}

/// A dependency whose sources live in a directory relative to the project.
#[derive(Clone, Debug, PartialEq)]
pub struct LocalDependency {
    pub path: String,
    pub name: String,
    pub local_type: LocalType,
    pub variables: Vec<(String, String)>,
}

/// The dependency section of a configuration.
#[derive(Clone, Debug, PartialEq)]
pub struct Dependencies {
    pub find: Vec<FindDependency>,
    pub local: Vec<LocalDependency>,
    pub project_dependencies: Vec<String>,
}

/// Root of the persisted project configuration.
#[derive(Clone, Debug, PartialEq)]
pub struct ConfigFile {
    pub project: Project,
    pub cmake: CMake,
    pub dependencies: Dependencies,
}

/// A git dependency remembered for re-use: the repository, an optional tag
/// and branch pin, and the local-dependency entry it was registered as.
#[derive(Clone, Debug, PartialEq)]
pub struct GitSubmodule {
    pub repo: String,
    pub tag: Option<String>,
    pub branch: Option<String>,
    pub local_setup: LocalDependency,
}

/// One entry of the persisted dependency cache.
#[derive(Clone, Debug, PartialEq)]
pub struct CacheSubmodule {
    pub name: String,
    pub submodule: GitSubmodule,
}

/// The persisted dependency cache document.
#[derive(Clone, Debug, PartialEq)]
pub struct Cache {
    pub git_submodules: Vec<CacheSubmodule>,
}

// ---------------------------------------------------------------------------
// Mathematical views.  Contracts speak of these; `String` becomes
// `Seq<char>` and `Vec` becomes `Seq`.
// ---------------------------------------------------------------------------

#[verifier::ext_equal]
pub struct ProjectFilesV {
    pub source_files: Seq<(SourceType, Seq<Seq<char>>)>,
    pub include_dirs: Seq<(IncludeType, Seq<Seq<char>>)>,
    pub exclude_files: Seq<Seq<char>>,
}

#[verifier::ext_equal]
pub struct ProjectV {
    pub name: Seq<char>,
    pub version: Decimal,
}

#[verifier::ext_equal]
pub struct CMakeV {
    pub minimum_required: Decimal,
    pub files: ProjectFilesV,
}

#[verifier::ext_equal]
pub struct FindDependencyV {
    pub name: Seq<char>,
    pub required: bool,
    pub custom_link_name: Option<Seq<char>>,
}

#[verifier::ext_equal]
pub enum LocalTypeV {
    CMake,
    Source { files: ProjectFilesV, dependencies: Seq<Seq<char>> },
}

#[verifier::ext_equal]
pub struct LocalDependencyV {
    pub path: Seq<char>,
    pub name: Seq<char>,
    pub local_type: LocalTypeV,
    pub variables: Seq<(Seq<char>, Seq<char>)>,
}

#[verifier::ext_equal]
pub struct DependenciesV {
    pub find: Seq<FindDependencyV>,
    pub local: Seq<LocalDependencyV>,
    pub project_dependencies: Seq<Seq<char>>,
}

#[verifier::ext_equal]
pub struct ConfigFileV {
    pub project: ProjectV,
    pub cmake: CMakeV,
    pub dependencies: DependenciesV,
}

#[verifier::ext_equal]
pub struct GitSubmoduleV {
    pub repo: Seq<char>,
    pub tag: Option<Seq<char>>,
    pub branch: Option<Seq<char>>,
    pub local_setup: LocalDependencyV,
}

#[verifier::ext_equal]
pub struct CacheSubmoduleV {
    pub name: Seq<char>,
    pub submodule: GitSubmoduleV,
}

#[verifier::ext_equal]
pub struct CacheV {
    pub git_submodules: Seq<CacheSubmoduleV>,
}

impl DeepView for SourceType {
    type V = SourceType;

    open spec fn deep_view(&self) -> SourceType {
        *self
    }
}

impl DeepView for IncludeType {
    type V = IncludeType;

    open spec fn deep_view(&self) -> IncludeType {
        *self
    }
}

impl DeepView for ProjectFiles {
    type V = ProjectFilesV;

    open spec fn deep_view(&self) -> ProjectFilesV {
        ProjectFilesV {
            source_files: self.source_files.deep_view(),
            include_dirs: self.include_dirs.deep_view(),
            exclude_files: self.exclude_files.deep_view(),
        }
    }
}

impl DeepView for Project {
    type V = ProjectV;

    open spec fn deep_view(&self) -> ProjectV {
        ProjectV { name: self.name.deep_view(), version: self.version }
    }
}

impl DeepView for CMake {
    type V = CMakeV;

    open spec fn deep_view(&self) -> CMakeV {
        CMakeV { minimum_required: self.minimum_required, files: self.files.deep_view() }
    }
}

impl DeepView for FindDependency {
    type V = FindDependencyV;

    open spec fn deep_view(&self) -> FindDependencyV {
        FindDependencyV {
            name: self.name.deep_view(),
            required: self.required,
            custom_link_name: self.custom_link_name.deep_view(),
        }
    }
}

impl DeepView for LocalType {
    type V = LocalTypeV;

    open spec fn deep_view(&self) -> LocalTypeV {
        match self {
            LocalType::CMake => LocalTypeV::CMake,
            LocalType::Source { files, dependencies } => LocalTypeV::Source {
                files: files.deep_view(),
                dependencies: dependencies.deep_view(),
            },
        }
    }
}

impl DeepView for LocalDependency {
    type V = LocalDependencyV;

    open spec fn deep_view(&self) -> LocalDependencyV {
        LocalDependencyV {
            path: self.path.deep_view(),
            name: self.name.deep_view(),
            local_type: self.local_type.deep_view(),
            variables: self.variables.deep_view(),
        }
    }
}

impl DeepView for Dependencies {
    type V = DependenciesV;

    open spec fn deep_view(&self) -> DependenciesV {
        DependenciesV {
            find: self.find.deep_view(),
            local: self.local.deep_view(),
            project_dependencies: self.project_dependencies.deep_view(),
        }
    }
}

impl DeepView for ConfigFile {
    type V = ConfigFileV;

    open spec fn deep_view(&self) -> ConfigFileV {
        ConfigFileV {
            project: self.project.deep_view(),
            cmake: self.cmake.deep_view(),
            dependencies: self.dependencies.deep_view(),
        }
    }
}

impl DeepView for GitSubmodule {
    type V = GitSubmoduleV;

    open spec fn deep_view(&self) -> GitSubmoduleV {
        GitSubmoduleV {
            repo: self.repo.deep_view(),
            tag: self.tag.deep_view(),
            branch: self.branch.deep_view(),
            local_setup: self.local_setup.deep_view(),
        }
    }
}

impl DeepView for CacheSubmodule {
    type V = CacheSubmoduleV;

    open spec fn deep_view(&self) -> CacheSubmoduleV {
        CacheSubmoduleV { name: self.name.deep_view(), submodule: self.submodule.deep_view() }
    }
}

impl DeepView for Cache {
    type V = CacheV;

    open spec fn deep_view(&self) -> CacheV {
        CacheV { git_submodules: self.git_submodules.deep_view() }
    }
}

// ---------------------------------------------------------------------------
// Defaults and presets.
// ---------------------------------------------------------------------------

/// The `All` preset: recursive glob over the root, public include of the root.
pub open spec fn spec_files_all() -> ProjectFilesV {
    ProjectFilesV {
        source_files: seq![(SourceType::GlobRecurse, seq!["."@])],
        include_dirs: seq![(IncludeType::Public, seq!["."@])],
        exclude_files: Seq::empty(),
    }
}

/// The `RootOnly` preset: non-recursive glob over the root.
pub open spec fn spec_files_root() -> ProjectFilesV {
    ProjectFilesV {
        source_files: seq![(SourceType::Glob, seq!["."@])],
        include_dirs: seq![(IncludeType::Public, seq!["."@])],
        exclude_files: Seq::empty(),
    }
}

/// The `HeaderOnly` preset: no sources, an interface-only include of the
/// root.
pub open spec fn spec_files_header() -> ProjectFilesV {
    ProjectFilesV {
        source_files: Seq::empty(),
        include_dirs: seq![(IncludeType::Interface, seq!["."@])],
        exclude_files: Seq::empty(),
    }
}

pub open spec fn spec_default_version() -> Decimal {
    Decimal { mantissa: 1, scale: 0 }
}

pub open spec fn spec_default_minimum_required() -> Decimal {
    Decimal { mantissa: 315, scale: 2 }
}

pub open spec fn spec_default_project() -> ProjectV {
    ProjectV { name: "Unnamed Project"@, version: spec_default_version() }
}

pub open spec fn spec_default_cmake() -> CMakeV {
    CMakeV { minimum_required: spec_default_minimum_required(), files: spec_files_all() }
}

pub open spec fn spec_default_dependencies() -> DependenciesV {
    DependenciesV {
        find: Seq::empty(),
        local: Seq::empty(),
        project_dependencies: Seq::empty(),
    }
}

pub open spec fn spec_default_config() -> ConfigFileV {
    ConfigFileV {
        project: spec_default_project(),
        cmake: spec_default_cmake(),
        dependencies: spec_default_dependencies(),
    }
}

impl ProjectFiles {
    /// Every source and include under the project root, recursively.
    pub fn all() -> (r: ProjectFiles)
        ensures
            r.deep_view() == spec_files_all(),
    {
        let r = ProjectFiles {
            source_files: vec![(SourceType::GlobRecurse, vec![String::from_str(".")])],
            include_dirs: vec![(IncludeType::Public, vec![String::from_str(".")])],
            exclude_files: Vec::new(),
        };
        proof {
            assert(r.deep_view() =~~= spec_files_all());
        }
        r
    }

    /// Sources and includes of the root directory only.
    pub fn root() -> (r: ProjectFiles)
        ensures
            r.deep_view() == spec_files_root(),
    {
        let r = ProjectFiles {
            source_files: vec![(SourceType::Glob, vec![String::from_str(".")])],
            include_dirs: vec![(IncludeType::Public, vec![String::from_str(".")])],
            exclude_files: Vec::new(),
        };
        proof {
            assert(r.deep_view() =~~= spec_files_root());
        }
        r
    }

    /// A headers-only target: nothing to compile, an interface-only include
    /// of the root.
    pub fn header() -> (r: ProjectFiles)
        ensures
            r.deep_view() == spec_files_header(),
    {
        let r = ProjectFiles {
            source_files: Vec::new(),
            include_dirs: vec![(IncludeType::Interface, vec![String::from_str(".")])],
            exclude_files: Vec::new(),
        };
        proof {
            assert(r.deep_view() =~~= spec_files_header());
        }
        r
    }
}

impl Default for ProjectFiles {
    fn default() -> (r: ProjectFiles)
        ensures
            r.deep_view() == spec_files_all(),
    {
        ProjectFiles::all()
    }
}

impl Default for Project {
    fn default() -> (r: Project)
        ensures
            r.deep_view() == spec_default_project(),
    {
        Project {
            name: String::from_str("Unnamed Project"),
            version: Decimal { mantissa: 1, scale: 0 },
        }
    }
}

impl Default for CMake {
    fn default() -> (r: CMake)
        ensures
            r.deep_view() == spec_default_cmake(),
    {
        CMake {
            minimum_required: Decimal { mantissa: 315, scale: 2 },
            files: ProjectFiles::all(),
        }
    }
}

impl Default for Dependencies {
    fn default() -> (r: Dependencies)
        ensures
            r.deep_view() == spec_default_dependencies(),
    {
        let r = Dependencies {
            find: Vec::new(),
            local: Vec::new(),
            project_dependencies: Vec::new(),
        };
        proof {
            assert(r.deep_view() =~~= spec_default_dependencies());
        }
        r
    }
}

impl Default for ConfigFile {
    fn default() -> (r: ConfigFile)
        ensures
            r.deep_view() == spec_default_config(),
    {
        ConfigFile {
            project: Project::default(),
            cmake: CMake::default(),
            dependencies: Dependencies::default(),
        }
    }
}

impl Default for Cache {
    fn default() -> (r: Cache)
        ensures
            r.deep_view().git_submodules == Seq::<CacheSubmoduleV>::empty(),
    {
        let r = Cache { git_submodules: Vec::new() };
        proof {
            assert(r.deep_view().git_submodules =~~= Seq::<CacheSubmoduleV>::empty());
        }
        r
    }
}

impl ConfigFile {
    /// A fresh configuration for a project called `name`: the defaults with
    /// the project name replaced.
    pub fn new(name: String) -> (r: ConfigFile)
        ensures
            r.deep_view() == (ConfigFileV {
                project: ProjectV { name: name@, version: spec_default_version() },
                ..spec_default_config()
            }),
    {
        let mut config = ConfigFile::default();
        config.project.name = name;
        proof {
            assert(config.deep_view() =~~= ConfigFileV {
                project: ProjectV { name: name@, version: spec_default_version() },
                ..spec_default_config()
            });
        }
        config
    }
}

} // verus!
