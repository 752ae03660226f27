use yarp::config::{
    ConfiguredPack, ConfiguredPaths, DEFAULT_OUTPUT_CAP_BYTES, DEFAULT_RECOVERY_CAP_BYTES,
    DEFAULT_RECOVERY_CAP_LINES, FileConfig, ResolvedConfig, archive_path, configured_path,
    default_archive_path, get, join_path, load, path, resolve_document, unset,
};
use yarp::config::editing::{accept, edit_text, remove_text};

fn empty_file() -> FileConfig {
    FileConfig {
        version: 1,
        pruning_enabled: None,
        cap_bytes: None,
        recovery_cap_bytes: None,
        recovery_cap_lines: None,
        archive_enabled: None,
        archive_path: None,
        packs: None,
    }
}

fn paths() -> ConfiguredPaths {
    ConfiguredPaths {
        default_archive: Ok("/home/u/.local/share/yarp/tool-calls.sqlite3".to_owned()),
        archive: Ok("/c/data/archive.sqlite3".to_owned()),
        packs: Vec::new(),
    }
}

fn loaded(file: FileConfig) -> Result<ResolvedConfig, String> {
    load(&Ok(Some(file)), paths())
}

#[test]
fn missing_file_uses_defaults() {
    let config = load(&Ok(None), paths()).expect("defaults");
    assert!(config.pruning.enabled);
    assert!(config.archive.enabled);
    assert_eq!(config.output.cap_bytes, DEFAULT_OUTPUT_CAP_BYTES);
    assert_eq!(config.output.recovery_cap_bytes, DEFAULT_RECOVERY_CAP_BYTES);
    assert_eq!(config.output.recovery_cap_lines, DEFAULT_RECOVERY_CAP_LINES);
}

#[test]
fn resolves_relative_paths_and_rejects_unknown_fields() {
    let unreadable = load(&Err("unknown field `unknown`".to_owned()), paths());
    assert!(unreadable.is_err());
    let directory = "/c";
    let file = FileConfig {
        archive_path: Some("data/archive.sqlite3".to_owned()),
        ..empty_file()
    };
    let resolved = configured_path(directory, "data/archive.sqlite3", "archive.path");
    assert_eq!(resolved.as_deref(), Ok("/c/data/archive.sqlite3"));
    let config = load(
        &Ok(Some(file)),
        ConfiguredPaths {
            archive: resolved,
            ..paths()
        },
    )
    .expect("valid config");
    assert_eq!(config.archive.path, join_path(directory, "data/archive.sqlite3"));
    assert!(!config.archive.is_default_path);
}

#[test]
fn rejects_invalid_versions_and_ranges() {
    for file in [
        FileConfig {
            version: 2,
            ..empty_file()
        },
        FileConfig {
            cap_bytes: Some(1),
            ..empty_file()
        },
        FileConfig {
            recovery_cap_bytes: Some(50_000),
            ..empty_file()
        },
        FileConfig {
            recovery_cap_lines: Some(1_901),
            ..empty_file()
        },
    ] {
        assert!(loaded(file.clone()).is_err(), "accepted {file:?}");
    }
}

#[test]
fn an_empty_document_is_the_default() {
    let written = loaded(empty_file()).expect("empty file");
    let missing = load(&Ok(None), paths()).expect("no file");
    for key in [
        "pruning.enabled",
        "output.cap_bytes",
        "output.recovery_cap_bytes",
        "output.recovery_cap_lines",
        "archive.enabled",
        "archive.path",
        "rules.packs",
    ] {
        assert_eq!(get(&written, key).expect("written"), get(&missing, key).expect("missing"));
    }
}

#[test]
fn values_are_read_by_their_keys() {
    let file = FileConfig {
        pruning_enabled: Some(false),
        cap_bytes: Some(2_048),
        packs: Some(vec!["a.yrp".to_owned(), "b \"q\".yrp".to_owned()]),
        ..empty_file()
    };
    let pack = |id: &str, path: &str| {
        Ok(ConfiguredPack {
            id: id.to_owned(),
            path: path.to_owned(),
        })
    };
    let config = resolve_document(
        &file,
        ConfiguredPaths {
            packs: vec![pack("a", "/c/a.yrp"), pack("b", "/c/b \"q\".yrp")],
            ..paths()
        },
    )
    .expect("config");
    assert_eq!(get(&config, "pruning.enabled").as_deref(), Ok("false"));
    assert_eq!(get(&config, "output.cap_bytes").as_deref(), Ok("2048"));
    assert_eq!(
        get(&config, "rules.packs").as_deref(),
        Ok("[\"/c/a.yrp\",\"/c/b \\\"q\\\".yrp\"]")
    );
    assert!(get(&config, "output.unknown").is_err());
}

#[test]
fn the_same_pack_cannot_be_configured_twice() {
    let file = FileConfig {
        packs: Some(vec!["a.yrp".to_owned(), "a.yrp".to_owned()]),
        ..empty_file()
    };
    let pack = || {
        Ok(ConfiguredPack {
            id: "a".to_owned(),
            path: "/c/a.yrp".to_owned(),
        })
    };
    assert!(
        resolve_document(
            &file,
            ConfiguredPaths {
                packs: vec![pack(), pack()],
                ..paths()
            },
        )
        .is_err()
    );
}

fn words(values: &[&str]) -> Vec<String> {
    values.iter().map(ToString::to_string).collect()
}

#[test]
fn a_value_that_was_set_has_its_place() {
    assert_eq!(
        edit_text("version = 1\n", "output.cap_bytes", &words(&["4096"])).expect("edited"),
        "version = 1\n\n[output]\ncap_bytes = 4096\n"
    );
    assert_eq!(
        edit_text(
            "# mine\nversion = 1\npruning = { enabled = true }\n",
            "pruning.enabled",
            &words(&["false"])
        )
        .expect("edited"),
        "# mine\nversion = 1\npruning = { enabled = false }\n"
    );
    assert_eq!(
        edit_text(
            "version = 1\n[rules] # packs\n",
            "rules.packs",
            &words(&["a.yrp", "b \"c\".yrp"])
        )
        .expect("edited"),
        "version = 1\n[rules] # packs\npacks = [\"a.yrp\", 'b \"c\".yrp']\n"
    );
    assert_eq!(
        edit_text("version = 1\n", "version", &words(&["2"])).expect("edited"),
        "version = 2\n"
    );
}

#[test]
fn a_field_that_cannot_be_set_is_reported() {
    let text = "version = 1\noutput = 3\n";
    for (key, arguments, error) in [
        ("pruning.enabled", &["no"][..], "pruning.enabled must be true or false"),
        ("output.cap_bytes", &["1"], "configuration section output is not a table"),
        ("archive.path", &[], "archive.path requires 1 value(s)"),
        ("version", &["01"], "version must be a canonical unsigned integer"),
        ("unknown", &["1"], "unknown configuration field unknown"),
    ] {
        assert_eq!(edit_text(text, key, &words(arguments)).unwrap_err(), error);
    }
    assert!(edit_text("version = = 1", "archive.path", &words(&["a"])).is_err());
}

#[test]
fn an_emptied_section_is_removed() {
    let text = "version = 1\n\n[archive]\npath = \"a\"\n";
    let removed = remove_text(text, "archive.path").expect("removed");
    assert_eq!(removed, "version = 1\n");
    assert_eq!(
        remove_text(&removed, "archive.path").unwrap_err(),
        "configuration field archive.path is not set"
    );
    assert_eq!(
        remove_text("archive = { path = \"a\", enabled = true }\n", "archive.path").expect("removed"),
        "archive = { enabled = true }\n"
    );
    assert_eq!(remove_text("output.cap_bytes = 0\n", "output.cap_bytes"), Ok(String::new()));
    assert_eq!(remove_text(text, "version").unwrap_err(), "version cannot be unset");
    assert_eq!(
        remove_text(text, "archive.size").unwrap_err(),
        "unknown configuration field archive.size"
    );
}

#[test]
fn a_missing_file_is_edited_as_one_that_holds_the_version() {
    let arguments = words(&["/tmp/archive"]);
    assert_eq!(
        yarp::config::set(&Ok(None), "config.toml", "archive.path", &arguments).expect("edited"),
        "version = 1\n\n[archive]\npath = \"/tmp/archive\"\n"
    );
    assert!(
        yarp::config::set(&Ok(Some("[".to_owned())), "config.toml", "archive.path", &arguments)
            .unwrap_err()
            .starts_with("invalid config.toml: ")
    );
    assert_eq!(
        unset(&Err("could not read config.toml".to_owned()), "config.toml", "archive.path")
            .unwrap_err(),
        "could not read config.toml"
    );
    assert_eq!(
        unset(&Ok(None), "config.toml", "archive.path").unwrap_err(),
        "configuration field archive.path is not set"
    );
}

#[test]
fn only_a_configuration_that_can_be_used_is_stored() {
    let small = FileConfig {
        cap_bytes: Some(1),
        ..empty_file()
    };
    assert!(accept("text".to_owned(), &Ok(small), paths()).is_err());
    let (config, text) = accept("text".to_owned(), &Ok(empty_file()), paths()).expect("accepted");
    assert_eq!(text, "text");
    let loaded = load(&Ok(Some(empty_file())), paths()).expect("loaded");
    assert_eq!(get(&config, "output.cap_bytes"), get(&loaded, "output.cap_bytes"));
}

#[test]
fn a_list_is_shown_as_json() {
    let config = load(&Ok(Some(empty_file())), paths()).expect("loaded");
    let listed = ResolvedConfig {
        rules: yarp::config::RulesConfig {
            packs: words(&["a\"b\\", "c\n\u{1}\u{1f}\u{7f}"]),
        },
        ..config
    };
    assert_eq!(
        get(&listed, "rules.packs").expect("shown"),
        "[\"a\\\"b\\\\\",\"c\\n\\u0001\\u001f\u{7f}\"]"
    );
}

#[test]
fn default_places_come_from_the_environment() {
    let some = |value: &str| Some(value.to_owned());
    assert_eq!(
        path(&some("/x"), &some("/home/u")).as_deref(),
        Ok("/x/yarp/config.toml")
    );
    assert_eq!(
        path(&None, &some("/home/u")).as_deref(),
        Ok("/home/u/.config/yarp/config.toml")
    );
    assert!(path(&None, &None).is_err());
    assert_eq!(
        default_archive_path(&None, &some("/home/u")).as_deref(),
        Ok("/home/u/.local/share/yarp/tool-calls.sqlite3")
    );
    assert!(default_archive_path(&None, &None).is_err());
}

#[test]
fn the_archive_lies_where_the_file_says() {
    let placed = FileConfig {
        archive_path: Some("data/archive.sqlite3".to_owned()),
        ..empty_file()
    };
    assert_eq!(
        archive_path(loaded(placed)).as_deref(),
        Ok("/c/data/archive.sqlite3")
    );
    assert_eq!(
        archive_path(loaded(empty_file())).as_deref(),
        Ok("/home/u/.local/share/yarp/tool-calls.sqlite3")
    );
    assert!(archive_path(Err("unreadable".to_owned())).is_err());
}
