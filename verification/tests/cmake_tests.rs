use cmakemake::cmake::{compile, config_hash, hash_line, is_stale};
use cmakemake::config::{
    CMake, ConfigFile, Dependencies, FindDependency, IncludeType, LocalDependency, LocalType,
    Project, ProjectFiles, SourceType,
};
use cmakemake::version::Decimal;

fn files(
    source_files: Vec<(SourceType, Vec<String>)>,
    include_dirs: Vec<(IncludeType, Vec<String>)>,
    exclude_files: Vec<String>,
) -> ProjectFiles {
    ProjectFiles { source_files, include_dirs, exclude_files }
}

fn base_config() -> ConfigFile {
    ConfigFile::new(String::from("demo"))
}

#[test]
fn compiling_twice_yields_identical_text() {
    let config = base_config();
    let first = compile(&config);
    let second = compile(&config);
    assert_eq!(first, second);
}

#[test]
fn new_project_compiles_to_the_expected_opening() {
    let config = base_config();
    assert_eq!(config.project.name, "demo");
    assert_eq!(config.project.version, Decimal { mantissa: 1, scale: 0 });
    assert_eq!(config.cmake.minimum_required, Decimal { mantissa: 315, scale: 2 });
    assert_eq!(config.cmake.files, ProjectFiles::all());
    let text = compile(&config);
    let lines: Vec<&str> = text.split('\n').collect();
    assert!(lines[0].starts_with("# "));
    assert_eq!(lines[1], "");
    assert_eq!(lines[2], "cmake_minimum_required(VERSION 3.15)");
    assert_eq!(lines[3], "project(\"demo\")");
}

#[test]
fn recursive_glob_resolves_base_directory_itself() {
    let mut config = base_config();
    config.cmake.files = files(
        vec![(SourceType::GlobRecurse, vec![String::from(".")])],
        vec![(IncludeType::Public, vec![String::from(".")])],
        Vec::new(),
    );
    config.dependencies.local.push(LocalDependency {
        path: String::from("lib"),
        name: String::from("lib"),
        local_type: LocalType::Source {
            files: files(
                vec![(SourceType::GlobRecurse, vec![String::from(".")])],
                vec![(IncludeType::Public, vec![String::from(".")])],
                Vec::new(),
            ),
            dependencies: Vec::new(),
        },
        variables: Vec::new(),
    });
    let text = compile(&config);
    assert!(text.contains(
        "file(GLOB_RECURSE LIB_SOURCES \"lib/*.cpp\" \"lib/*.c\" \"lib/*.hpp\" \"lib/*.h\" )\n"
    ));
    assert!(text.contains("target_include_directories(lib PUBLIC \"lib\" )\n"));
    assert!(!text.contains("\"lib/.\""));
}

#[test]
fn excluded_files_trail_the_discovery_statement() {
    let mut config = base_config();
    config.cmake.files = files(
        vec![(SourceType::GlobRecurse, vec![String::from(".")])],
        vec![(IncludeType::Public, vec![String::from(".")])],
        vec![String::from("legacy.cpp")],
    );
    let text = compile(&config);
    let discover = text
        .find("file(GLOB_RECURSE SOURCES")
        .expect("discovery statement present");
    let removal = text
        .find("list(REMOVE_ITEM SOURCES \"src/legacy.cpp\" )")
        .expect("removal statement present");
    assert!(discover < removal);
}

#[test]
fn later_glob_groups_append_instead_of_overwriting() {
    let mut config = base_config();
    config.cmake.files = files(
        vec![
            (SourceType::File, vec![String::from("main.cpp")]),
            (SourceType::Glob, vec![String::from("gen")]),
            (SourceType::GlobRecurse, vec![String::from("core")]),
        ],
        Vec::new(),
        Vec::new(),
    );
    let text = compile(&config);
    assert!(text.contains("set(SOURCES \"src/main.cpp\" )\n"));
    assert!(text.contains(
        "file(GLOB SOURCES_GLOB \"src/gen/*.cpp\" \"src/gen/*.c\" \"src/gen/*.hpp\" \"src/gen/*.h\" )\nlist(APPEND SOURCES ${SOURCES_GLOB})\n"
    ));
    assert!(text.contains(
        "file(GLOB_RECURSE SOURCES_GLOB_RECURSE \"src/core/*.cpp\" \"src/core/*.c\" \"src/core/*.hpp\" \"src/core/*.h\" )\nlist(APPEND SOURCES ${SOURCES_GLOB_RECURSE})\n"
    ));
}

#[test]
fn empty_project_dependencies_suppress_the_link_statement() {
    let mut config = base_config();
    config.dependencies.find.push(FindDependency {
        name: String::from("fmt"),
        required: false,
        custom_link_name: None,
    });
    assert!(config.dependencies.project_dependencies.is_empty());
    let text = compile(&config);
    assert!(!text.contains("target_link_libraries(\"${PROJECT_NAME}\""));
    assert!(text.trim_end().ends_with("add_executable(\"${PROJECT_NAME}\" ${SOURCES})"));
}

#[test]
fn project_dependencies_link_space_joined_in_order() {
    let mut config = base_config();
    config.dependencies.project_dependencies =
        vec![String::from("json"), String::from("mini")];
    let text = compile(&config);
    assert!(text.ends_with("target_link_libraries(\"${PROJECT_NAME}\" PRIVATE  json mini)\n"));
}

#[test]
fn required_packages_are_marked() {
    let mut config = base_config();
    config.dependencies.find = vec![
        FindDependency {
            name: String::from("fmt"),
            required: true,
            custom_link_name: None,
        },
        FindDependency {
            name: String::from("curl"),
            required: false,
            custom_link_name: None,
        },
    ];
    let text = compile(&config);
    assert!(text.contains("find_package(fmt REQUIRED)\nfind_package(curl)\n\n"));
}

#[test]
fn local_dependency_blocks_keep_declared_order() {
    let mut config = base_config();
    config.dependencies.local = vec![LocalDependency {
        path: String::from("external/json"),
        name: String::from("json"),
        local_type: LocalType::CMake,
        variables: vec![
            (String::from("JSON_BuildTests"), String::from("OFF")),
            (String::from("A_MUCH_LONGER_VARIABLE_NAME"), String::from("ON")),
        ],
    }];
    let text = compile(&config);
    assert!(text.contains("set(JSON_BuildTests      OFF)\n"));
    assert!(text.contains("set(A_MUCH_LONGER_VARIABLE_NAME ON)\n"));
    assert!(text.contains("add_subdirectory(external/json)\n"));
}

#[test]
fn header_only_dependency_becomes_an_interface_target() {
    let mut config = base_config();
    config.dependencies.local = vec![LocalDependency {
        path: String::from("external/mini"),
        name: String::from("mini"),
        local_type: LocalType::Source {
            files: ProjectFiles::header(),
            dependencies: vec![String::from("json")],
        },
        variables: Vec::new(),
    }];
    let text = compile(&config);
    assert!(text.contains("add_library(mini INTERFACE)\n"));
    assert!(text.contains(
        "target_include_directories(mini INTERFACE \"external/mini\" )\n"
    ));
    assert!(text.contains("target_link_libraries(mini PUBLIC  json)\n"));
}

#[test]
fn the_header_preset_includes_the_root_as_interface() {
    let preset = ProjectFiles::header();
    assert!(preset.source_files.is_empty());
    assert_eq!(
        preset.include_dirs,
        vec![(IncludeType::Interface, vec![String::from(".")])]
    );
    assert!(preset.exclude_files.is_empty());
}

#[test]
fn source_dependency_builds_a_library_from_its_sources() {
    let mut config = base_config();
    config.dependencies.local = vec![LocalDependency {
        path: String::from("external/mini"),
        name: String::from("mini"),
        local_type: LocalType::Source {
            files: ProjectFiles::root(),
            dependencies: Vec::new(),
        },
        variables: Vec::new(),
    }];
    let text = compile(&config);
    assert!(text.contains(
        "file(GLOB MINI_SOURCES \"external/mini/*.cpp\" \"external/mini/*.c\" \"external/mini/*.hpp\" \"external/mini/*.h\" )\n"
    ));
    assert!(text.contains("add_library(mini ${MINI_SOURCES})\n"));
}

#[test]
fn hash_changes_with_any_field_and_with_order() {
    let base = base_config();
    let mut renamed = base_config();
    renamed.project.name = String::from("other");
    assert_ne!(config_hash(&base), config_hash(&renamed));

    let mut one_order = base_config();
    one_order.dependencies.project_dependencies =
        vec![String::from("a"), String::from("b")];
    let mut other_order = base_config();
    other_order.dependencies.project_dependencies =
        vec![String::from("b"), String::from("a")];
    assert_ne!(config_hash(&one_order), config_hash(&other_order));
}

#[test]
fn staleness_is_exactly_a_first_line_mismatch() {
    let config = base_config();
    let text = compile(&config);
    let first_line_len = text.find('\n').expect("the script has lines") + 1;
    let first_line = &text[..first_line_len];
    assert_eq!(first_line, hash_line(&config).as_str());
    assert!(!is_stale(first_line, &config));
    assert!(is_stale("# 12345\n", &config));
    assert!(is_stale("", &config));

    let mut changed = base_config();
    changed.project.name = String::from("other");
    assert!(is_stale(first_line, &changed));
}

#[test]
fn compiled_text_embeds_the_decimal_hash() {
    let config = base_config();
    let text = compile(&config);
    let first_line = text.split('\n').next().expect("first line");
    let digits = first_line.strip_prefix("# ").expect("hash comment");
    assert_eq!(digits.parse::<u64>().expect("decimal hash"), config_hash(&config));
}

#[test]
fn the_hash_is_fnv1a_over_the_serialized_document() {
    let config = base_config();
    let text = cmakemake::document::serialize_config(&config);
    let mut expected: u64 = 0xcbf29ce484222325;
    for c in text.chars() {
        expected = (expected ^ (c as u64)).wrapping_mul(0x100000001b3);
    }
    assert_eq!(config_hash(&config), expected);
}

#[test]
fn a_reparsed_configuration_compiles_to_the_same_script() {
    let mut config = base_config();
    config.dependencies.project_dependencies = vec![String::from("json")];
    let document = cmakemake::document::serialize_config(&config);
    let back = cmakemake::document::parse_config(document.as_str()).expect("parses");
    assert_eq!(compile(&back), compile(&config));
}
