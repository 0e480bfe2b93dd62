use cmakemake::config::{
    CMake, Cache, CacheSubmodule, ConfigFile, Dependencies, FindDependency, GitSubmodule,
    LocalDependency, LocalType, Project, ProjectFiles, SourceType,
};
use cmakemake::document::{parse_cache, parse_config, serialize_cache, serialize_config};
use cmakemake::version::Decimal;

fn sample_config() -> ConfigFile {
    ConfigFile {
        project: Project {
            name: String::from("demo"),
            version: Decimal { mantissa: 1, scale: 0 },
        },
        cmake: CMake {
            minimum_required: Decimal { mantissa: 315, scale: 2 },
            files: ProjectFiles {
                source_files: vec![
                    (SourceType::GlobRecurse, vec![String::from(".")]),
                    (SourceType::File, vec![String::from("extra.cpp")]),
                ],
                include_dirs: vec![(
                    cmakemake::config::IncludeType::Public,
                    vec![String::from(".")],
                )],
                exclude_files: vec![String::from("skip.cpp")],
            },
        },
        dependencies: Dependencies {
            find: vec![FindDependency {
                name: String::from("fmt"),
                required: true,
                custom_link_name: Some(String::from("fmt::fmt")),
            }],
            local: vec![
                LocalDependency {
                    path: String::from("external/json"),
                    name: String::from("json"),
                    local_type: LocalType::CMake,
                    variables: vec![(String::from("JSON_BuildTests"), String::from("OFF"))],
                },
                LocalDependency {
                    path: String::from("external/mini"),
                    name: String::from("mini"),
                    local_type: LocalType::Source {
                        files: ProjectFiles::header(),
                        dependencies: vec![String::from("json")],
                    },
                    variables: Vec::new(),
                },
            ],
            project_dependencies: vec![String::from("json"), String::from("mini")],
        },
    }
}

#[test]
fn round_trip_default_config() {
    let config = ConfigFile::new(String::from("demo"));
    let text = serialize_config(&config);
    let back = parse_config(text.as_str()).expect("own document parses");
    assert_eq!(back, config);
}

#[test]
fn round_trip_full_config() {
    let config = sample_config();
    let text = serialize_config(&config);
    let back = parse_config(text.as_str()).expect("own document parses");
    assert_eq!(back, config);
}

#[test]
fn round_trip_keeps_sequence_order() {
    let mut config = sample_config();
    config.dependencies.project_dependencies =
        vec![String::from("mini"), String::from("json")];
    let text = serialize_config(&config);
    let back = parse_config(text.as_str()).expect("own document parses");
    assert_eq!(
        back.dependencies.project_dependencies,
        vec![String::from("mini"), String::from("json")]
    );
}

#[test]
fn round_trip_awkward_strings() {
    let mut config = sample_config();
    config.project.name = String::from("we\"ird\\name\nwith lines");
    config.dependencies.project_dependencies = vec![String::from("a, b] \" c")];
    let text = serialize_config(&config);
    let back = parse_config(text.as_str()).expect("own document parses");
    assert_eq!(back, config);
}

#[test]
fn empty_document_fills_every_default() {
    let parsed = parse_config("").expect("an empty document is a default project");
    assert_eq!(parsed, ConfigFile::default());
    assert_eq!(parsed.project.name, "Unnamed Project");
    assert_eq!(parsed.project.version, Decimal { mantissa: 1, scale: 0 });
    assert_eq!(parsed.cmake.minimum_required, Decimal { mantissa: 315, scale: 2 });
}

#[test]
fn missing_fields_fill_in_field_by_field() {
    let text = "project.name = \"kept\"\ndependencies.project_dependencies = [\"x\"]\n";
    let parsed = parse_config(text).expect("a partial document parses");
    assert_eq!(parsed.project.name, "kept");
    assert_eq!(parsed.project.version, Decimal { mantissa: 1, scale: 0 });
    assert_eq!(parsed.cmake.files, ProjectFiles::all());
    assert_eq!(parsed.dependencies.project_dependencies, vec![String::from("x")]);
}

#[test]
fn malformed_documents_are_rejected() {
    assert_eq!(parse_config("project.name = \"unclosed\n"), None);
    assert_eq!(parse_config("project.name = 3.15\n"), None);
    assert_eq!(parse_config("project.version = \"demo\"\n"), None);
    assert_eq!(parse_config("unknown.key = true\n"), None);
    assert_eq!(parse_config("project.name = \"x\" trailing\n"), None);
}

#[test]
fn version_text_is_decimal() {
    let config = ConfigFile::new(String::from("demo"));
    let text = serialize_config(&config);
    assert!(text.contains("project.version = 1.0\n"));
    assert!(text.contains("cmake.minimum_required = 3.15\n"));
}

#[test]
fn parsed_versions_are_normalized() {
    let parsed = parse_config("project.version = 2.50\n").expect("parses");
    assert_eq!(parsed.project.version, Decimal { mantissa: 25, scale: 1 });
    let parsed = parse_config("project.version = 7.0\n").expect("parses");
    assert_eq!(parsed.project.version, Decimal { mantissa: 7, scale: 0 });
}

#[test]
fn oversized_versions_are_rejected() {
    assert_eq!(parse_config("project.version = 12345678901234567890.0\n"), None);
    assert_eq!(parse_config("project.version = 1.23456789012345678901\n"), None);
}

#[test]
fn round_trip_cache() {
    let cache = Cache {
        git_submodules: vec![CacheSubmodule {
            name: String::from("Lib - tags/v1.0"),
            submodule: GitSubmodule {
                repo: String::from("https://github.com/org/Lib.git"),
                tag: Some(String::from("v1.0")),
                branch: None,
                local_setup: LocalDependency {
                    path: String::from("external/Lib"),
                    name: String::from("Lib"),
                    local_type: LocalType::CMake,
                    variables: Vec::new(),
                },
            },
        }],
    };
    let text = serialize_cache(&cache);
    let back = parse_cache(text.as_str()).expect("own cache document parses");
    assert_eq!(back, cache);
}

#[test]
fn empty_cache_document_is_an_empty_cache() {
    let parsed = parse_cache("").expect("an empty cache document parses");
    assert_eq!(parsed.git_submodules.len(), 0);
}

#[test]
fn serializing_twice_yields_identical_text() {
    let config = sample_config();
    assert_eq!(serialize_config(&config), serialize_config(&config));
}
