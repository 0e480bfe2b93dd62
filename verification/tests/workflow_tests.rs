use cmakemake::config::{
    Cache, ConfigFile, GitSubmodule, LocalDependency, LocalType, ProjectFiles,
};
use cmakemake::error::ProjectError;
use cmakemake::paths::{completion_choice, folder_suggestions, path_formater, FolderAutocomplete};
use cmakemake::version::Decimal;
use cmakemake::workflow::{
    acquire_next, add_cached_dependency, add_find_dependency, add_local_dependency,
    cache_entry_name, cache_git_submodule, checkout_args, clean_mode, dep_flag_validation,
    nonempty_opt, not_own_folder_validator, run_mode, split_flag, submodule_name,
    submodule_target_path, AcquireOutcome, AcquirePhase,
};

fn sample_local() -> LocalDependency {
    LocalDependency {
        path: String::from("external/Lib"),
        name: String::from("Lib"),
        local_type: LocalType::CMake,
        variables: Vec::new(),
    }
}

#[test]
fn derive_name_strips_path_and_extension() {
    assert_eq!(submodule_name("https://github.com/org/Lib.Name.git"), "Lib");
    assert_eq!(submodule_name("https://host/path/lib"), "lib");
}

#[test]
fn derive_name_edge_cases() {
    assert_eq!(submodule_name("plain"), "plain");
    assert_eq!(submodule_name("trailing/"), "");
    assert_eq!(submodule_name(".hidden"), "");
}

#[test]
fn target_path_sits_under_external() {
    assert_eq!(
        submodule_target_path("https://github.com/org/Lib.Name.git"),
        "external/Lib"
    );
}

#[test]
fn cache_entry_names_carry_tag_and_branch() {
    let repo = "https://github.com/org/Lib.git";
    assert_eq!(cache_entry_name(repo, &None, &None), "Lib");
    assert_eq!(
        cache_entry_name(repo, &Some(String::from("v1.0")), &None),
        "Lib - tags/v1.0"
    );
    assert_eq!(
        cache_entry_name(repo, &None, &Some(String::from("dev"))),
        "Lib - branch/dev"
    );
    assert_eq!(
        cache_entry_name(repo, &Some(String::from("v1.0")), &Some(String::from("dev"))),
        "Lib - tags/v1.0 - branch/dev"
    );
}

#[test]
fn caching_appends_a_named_entry() {
    let mut cache = Cache::default();
    cache_git_submodule(
        &mut cache,
        GitSubmodule {
            repo: String::from("https://github.com/org/Lib.git"),
            tag: Some(String::from("v1.0")),
            branch: None,
            local_setup: sample_local(),
        },
    );
    assert_eq!(cache.git_submodules.len(), 1);
    assert_eq!(cache.git_submodules[0].name, "Lib - tags/v1.0");
    assert_eq!(cache.git_submodules[0].submodule.local_setup.name, "Lib");
}

#[test]
fn a_failed_add_is_fatal() {
    assert_eq!(
        acquire_next(AcquirePhase::Add, false, true),
        AcquireOutcome::Fail
    );
    assert_eq!(
        acquire_next(AcquirePhase::Add, true, true),
        AcquireOutcome::Continue(AcquirePhase::Init)
    );
}

#[test]
fn failed_init_and_checkout_only_warn() {
    assert_eq!(
        acquire_next(AcquirePhase::Init, false, true),
        AcquireOutcome::Warn(AcquirePhase::Pin)
    );
    assert_eq!(
        acquire_next(AcquirePhase::Init, true, false),
        AcquireOutcome::Continue(AcquirePhase::Register)
    );
    assert_eq!(
        acquire_next(AcquirePhase::Pin, false, true),
        AcquireOutcome::Warn(AcquirePhase::Register)
    );
}

#[test]
fn checkout_arguments_follow_the_pin_choice() {
    let tag = Some(String::from("v1.0"));
    let branch = Some(String::from("dev"));
    assert_eq!(
        checkout_args(&tag, &branch),
        Some(vec![
            String::from("checkout"),
            String::from("tags/v1.0"),
            String::from("-b"),
            String::from("dev"),
        ])
    );
    assert_eq!(
        checkout_args(&tag, &None),
        Some(vec![String::from("checkout"), String::from("tags/v1.0")])
    );
    assert_eq!(
        checkout_args(&None, &branch),
        Some(vec![
            String::from("checkout"),
            String::from("-b"),
            String::from("dev"),
        ])
    );
    assert_eq!(checkout_args(&None, &None), None);
}

#[test]
fn adding_a_find_dependency_registers_its_name() {
    let mut config = ConfigFile::new(String::from("demo"));
    add_find_dependency(&mut config, String::from("fmt"), true, true);
    assert_eq!(config.dependencies.find.len(), 1);
    assert_eq!(config.dependencies.find[0].name, "fmt");
    assert!(config.dependencies.find[0].required);
    assert_eq!(config.dependencies.find[0].custom_link_name, None);
    assert_eq!(config.dependencies.project_dependencies, vec![String::from("fmt")]);

    add_find_dependency(&mut config, String::from("curl"), false, false);
    assert_eq!(config.dependencies.find.len(), 2);
    assert_eq!(config.dependencies.project_dependencies, vec![String::from("fmt")]);
}

#[test]
fn adding_a_local_dependency_registers_its_name() {
    let mut config = ConfigFile::new(String::from("demo"));
    add_local_dependency(&mut config, sample_local(), true);
    assert_eq!(config.dependencies.local.len(), 1);
    assert_eq!(config.dependencies.local[0].path, "external/Lib");
    assert_eq!(config.dependencies.project_dependencies, vec![String::from("Lib")]);
}

#[test]
fn replaying_a_cached_entry_registers_its_stored_setup() {
    let mut config = ConfigFile::new(String::from("demo"));
    let submodule = GitSubmodule {
        repo: String::from("https://github.com/org/Lib.git"),
        tag: None,
        branch: None,
        local_setup: LocalDependency {
            path: String::from("external/Lib"),
            name: String::from("Lib"),
            local_type: LocalType::Source {
                files: ProjectFiles::all(),
                dependencies: Vec::new(),
            },
            variables: vec![(String::from("A"), String::from("B"))],
        },
    };
    add_cached_dependency(&mut config, submodule, false);
    assert_eq!(config.dependencies.local.len(), 1);
    assert_eq!(config.dependencies.local[0].variables.len(), 1);
    assert!(config.dependencies.project_dependencies.is_empty());
}

#[test]
fn run_and_clean_arguments_are_checked() {
    assert_eq!(run_mode(&None), Ok(true));
    assert_eq!(run_mode(&Some(String::from("skip_build"))), Ok(false));
    assert_eq!(
        run_mode(&Some(String::from("bogus"))),
        Err(ProjectError::UnknownArgument(String::from("bogus")))
    );
    assert_eq!(clean_mode(&None), Ok(false));
    assert_eq!(clean_mode(&Some(String::from("all"))), Ok(true));
    assert_eq!(
        clean_mode(&Some(String::from("most"))),
        Err(ProjectError::UnknownArgument(String::from("most")))
    );
}

#[test]
fn variable_lines_need_a_name_and_a_value() {
    assert!(dep_flag_validation(""));
    assert!(!dep_flag_validation("NAME"));
    assert!(!dep_flag_validation("   "));
    assert!(dep_flag_validation("NAME VALUE"));
    assert!(dep_flag_validation("NAME A B C"));
}

#[test]
fn variable_lines_split_after_the_name() {
    let (name, value) = split_flag("JSON_BuildTests OFF");
    assert_eq!(name, "JSON_BuildTests");
    assert_eq!(value, " OFF");
    let (name, value) = split_flag("N A B");
    assert_eq!(name, "N");
    assert_eq!(value, " A B");
}

#[test]
fn empty_prompt_answers_become_nothing() {
    assert_eq!(nonempty_opt(String::new()), None);
    assert_eq!(nonempty_opt(String::from("v1.0")), Some(String::from("v1.0")));
}

#[test]
fn the_project_directory_is_not_its_own_dependency() {
    assert!(!not_own_folder_validator("./"));
    assert!(not_own_folder_validator("external/lib"));
}

#[test]
fn paths_are_tidied() {
    assert_eq!(path_formater("external/lib"), "external/lib");
    assert_eq!(path_formater("./external/lib"), "external/lib");
    assert_eq!(path_formater("external/lib/"), "external/lib");
    assert_eq!(path_formater("  external/lib  "), "external/lib");
    assert_eq!(path_formater("./x/"), "x");
}

#[test]
fn folder_suggestions_filter_and_complete() {
    let names = vec![
        String::from("src"),
        String::from("scripts"),
        String::from("docs"),
    ];
    let suggestions = folder_suggestions("work/s", &names);
    assert_eq!(suggestions, vec![String::from("work/src"), String::from("work/scripts")]);
    let all = folder_suggestions("", &names);
    assert_eq!(all.len(), 3);
    assert_eq!(all[0], "src");
}

#[test]
fn completion_prefers_the_highlighted_suggestion() {
    assert_eq!(
        completion_choice(Some(String::from("work/src")), Some(String::from("other"))),
        Some(String::from("work/src/"))
    );
    assert_eq!(
        completion_choice(None, Some(String::from("work/scripts"))),
        Some(String::from("work/scripts/"))
    );
    assert_eq!(completion_choice(None, None), None);
    let auto = FolderAutocomplete(String::from("/tmp"));
    assert_eq!(auto.0, "/tmp");
}

#[test]
fn error_messages_read_as_expected() {
    assert_eq!(
        ProjectError::MissingName.message(),
        "error: please provide a suitable project name"
    );
    assert_eq!(
        ProjectError::UnknownArgument(String::from("bogus")).message(),
        "error: unknown argument 'bogus'"
    );
    assert_eq!(
        ProjectError::InvalidProjectDirectory.message(),
        "error: current directory doesn't contain a CMakeMake.toml"
    );
    assert_eq!(
        ProjectError::FailedToCreateFolder(String::from("demo"), String::from("denied"))
            .message(),
        "error: failed to create folder 'demo' with error: denied"
    );
    assert_eq!(
        ProjectError::FailedToInitGit(String::from("no git")).message(),
        "error: failed to init git repo with error: no git"
    );
    assert_eq!(
        ProjectError::FailedToCreateFile(String::from("a.txt"), String::from("full")).message(),
        "error: failed to create file 'a.txt' with error: full"
    );
    assert_eq!(
        ProjectError::CannotOpenFile(String::from("a.txt"), String::from("gone")).message(),
        "error: failed to open file 'a.txt' with error: gone"
    );
    assert_eq!(
        ProjectError::FailedToRunProcess(String::from("cmake -B build"), Some(2)).message(),
        "error: run process 'cmake -B build' exited with exit code 2"
    );
    assert_eq!(
        ProjectError::FailedToRunProcess(String::from("cmake"), Some(-7)).message(),
        "error: run process 'cmake' exited with exit code -7"
    );
    assert_eq!(
        ProjectError::FailedToRunProcess(String::from("cmake"), None).message(),
        "error: run process 'cmake' exited with an unknown error code"
    );
}

#[test]
fn decimal_construction_normalizes() {
    assert_eq!(Decimal::new(2500, 3), Decimal { mantissa: 25, scale: 1 });
    assert_eq!(Decimal::new(10, 1), Decimal { mantissa: 1, scale: 0 });
    assert_eq!(Decimal::new(0, 5), Decimal { mantissa: 0, scale: 0 });
    assert_eq!(Decimal::new(315, 2), Decimal { mantissa: 315, scale: 2 });
}
