use sha2::{Digest as _, Sha256};
use yarp::rule_pack::compiled::{CompiledPack, compile};
use yarp::rule_pack::model::{
    Action, CommandMatcher, OutputPolicy, PackManifest, Reducer, Rule,
};
use yarp::rule_pack::source::{SourceFile, SourcePack, check_manifest};
use yarp::rule_pack::verification::RecordBody;
use yarp::rules::projects::{below_root, check_project_pack};
use yarp::rules::registry::{BuiltinPack, OpenedPack, Registry};
use yarp::rules::{PackRequest, Selection, digest_hex, parse_digest};

const MANIFEST: &str = r#"{"schema_version":1,"id":"test-pack","rules":["rules/test.json"]}"#;
const RULE: &str = r#"{"id":"tests/run","match":{"program":["tool"],"argv_prefix":["run"]},"action":"reduce","reducer":{"kind":"test_summary"},"success":{"max_line_bytes":16384,"max_output_bytes":32768,"min_savings_bytes":120,"min_savings_basis_points":1000},"failure":{"max_line_bytes":16384,"max_output_bytes":65536,"min_savings_bytes":120,"min_savings_basis_points":500}}"#;

fn strings(values: &[&str]) -> Vec<String> {
    values.iter().map(ToString::to_string).collect()
}

fn rule(id: &str, program: &str, prefix: &[&str], contains: &[&str]) -> Rule {
    Rule {
        id: id.to_owned(),
        matcher: CommandMatcher {
            program: vec![program.to_owned()],
            argv_prefix: strings(prefix),
            argv_contains_all: strings(contains),
        },
        action: Action::Reduce,
        transform: None,
        reducer: Some(Reducer::TestSummary),
        success: Some(OutputPolicy {
            max_line_bytes: 16_384,
            max_output_bytes: 32_768,
            min_savings_bytes: 120,
            min_savings_basis_points: 1_000,
        }),
        failure: Some(OutputPolicy {
            max_line_bytes: 16_384,
            max_output_bytes: 65_536,
            min_savings_bytes: 120,
            min_savings_basis_points: 500,
        }),
    }
}

fn guard(id: &str, program: &str, prefix: &[&str], contains: &[&str]) -> Rule {
    Rule {
        action: Action::Passthrough,
        reducer: None,
        success: None,
        failure: None,
        ..rule(id, program, prefix, contains)
    }
}

fn tool_rule() -> Rule {
    rule("tests/run", "tool", &["run"], &[])
}

fn source_pack() -> SourcePack {
    let manifest = PackManifest {
        schema_version: 1,
        id: "test-pack".to_owned(),
        rules: vec!["rules/test.json".to_owned()],
    };
    let manifest = check_manifest(MANIFEST.as_bytes(), Ok(manifest)).expect("manifest");
    SourcePack::load(
        "pack".to_owned(),
        MANIFEST.as_bytes(),
        manifest,
        vec![Ok(SourceFile {
            body: RULE.as_bytes().to_vec(),
            decoded: Ok(tool_rule()),
        })],
    )
    .expect("source")
}

fn compiled() -> Vec<u8> {
    compile(&source_pack(), &vec![Ok(RULE.as_bytes().to_vec())]).expect("compile")
}

fn record(pack: &CompiledPack, bytes: &[u8]) -> Vec<u8> {
    let (start, length) = pack.record_bounds(0).expect("bounds");
    let start = usize::try_from(start).expect("start");
    bytes[start..start + usize::try_from(length).expect("length")].to_vec()
}

fn opened(bytes: &[u8]) -> OpenedPack {
    let pack = CompiledPack::open("pack.yrp", bytes, None, None).expect("open");
    let body = record(&pack, bytes);
    OpenedPack {
        pack,
        bodies: vec![RecordBody {
            bytes: body,
            decoded: Ok(tool_rule()),
        }],
    }
}

fn builtin() -> BuiltinPack {
    BuiltinPack {
        id: "yarp-builtins".to_owned(),
        source_digest: [1; 32],
        rules: vec![
            rule("cargo/test", "cargo", &["test"], &[]),
            guard("cargo/messages", "cargo", &[], &["--message-format"]),
        ],
    }
}

#[test]
fn compiles_and_verifies_a_deterministic_index() {
    let source = source_pack();
    let first = compiled();
    let second = compiled();
    assert_eq!(first, second);
    let pack =
        CompiledPack::open("pack.yrp", &first, Some(source.source_digest), None).expect("open");
    assert_eq!(pack.id, "test-pack");
    let expected_compiled_digest: [u8; 32] = Sha256::digest(&first).into();
    assert_eq!(pack.compiled_digest, expected_compiled_digest);
    assert_eq!(pack.candidate_indices("tool"), &[0]);
    let body = record(&pack, &first);
    assert_eq!(body, RULE.as_bytes());
    assert_eq!(
        pack.read_rule(0, &body, Ok(tool_rule())).expect("rule").id,
        "tests/run"
    );
    let bodies = vec![RecordBody {
        bytes: body,
        decoded: Ok(tool_rule()),
    }];
    pack.verify_all(&bodies, &first).expect("verify");
    assert!(
        CompiledPack::open("pack.yrp", &first, None, Some([0_u8; 32]))
            .expect_err("compiled digest mismatch")
            .contains("compiled pack digest changed")
    );
}

#[test]
fn detects_changes_after_the_pack_was_opened() {
    let mut bytes = compiled();
    let pack = CompiledPack::open("pack.yrp", &bytes, None, None).expect("open");
    assert!(pack.verify_compiled_digest(&bytes).is_ok());
    let last = bytes.len() - 1;
    bytes[last] ^= 1;
    assert!(
        pack.verify_compiled_digest(&bytes)
            .expect_err("changed pack")
            .contains("changed while loading")
    );
}

#[test]
fn rejects_corrupt_headers_indexes_and_records() {
    let bytes = compiled();
    for offset in [0, 80, bytes.len() - 1] {
        let mut corrupt = bytes.clone();
        corrupt[offset] ^= 1;
        let opened = CompiledPack::open("pack.yrp", &corrupt, None, None);
        if offset == bytes.len() - 1 {
            let pack = opened.expect("record corruption loads index");
            let bodies = vec![RecordBody {
                bytes: record(&pack, &corrupt),
                decoded: Ok(tool_rule()),
            }];
            assert!(pack.verify_all(&bodies, &corrupt).is_err());
        } else {
            assert!(opened.is_err());
        }
    }
}

#[test]
fn builtins_use_indexed_matching_and_guards() {
    let registry = Registry::builtins_only(builtin());
    let contents = Vec::new();
    let selection = registry
        .select(&strings(&["cargo", "test", "--workspace"]), &contents)
        .expect("selection");
    assert!(matches!(selection, Selection::Reduce(_)));
    let selection = registry
        .select(&strings(&["cargo", "test", "--message-format=json"]), &contents)
        .expect("selection");
    assert!(matches!(selection, Selection::Passthrough(_)));
    assert!(matches!(
        registry
            .select(&strings(&["git", "push"]), &contents)
            .expect("selection"),
        Selection::Unsupported
    ));
}

#[test]
fn expected_pack_digest_is_rechecked_after_selection() {
    let mut bytes = compiled();
    let compiled_digest: [u8; 32] = Sha256::digest(&bytes).into();
    let registry = Registry::load(
        builtin(),
        &vec![PackRequest {
            path: "pack.yrp".to_owned(),
            expected_digest: Some(source_pack().source_digest),
            expected_compiled_digest: Some(compiled_digest),
        }],
        vec![opened(&bytes)],
    );
    let selected = registry
        .select(&strings(&["tool", "run"]), &vec![Ok(bytes.clone())])
        .expect("unchanged pack");
    assert!(matches!(selected, Selection::Reduce(_)));
    bytes[0] ^= 1;
    assert!(
        registry
            .select(&strings(&["tool", "run"]), &vec![Ok(bytes)])
            .expect_err("changed pack")
            .contains("changed while loading")
    );
}

#[test]
fn external_rules_are_named_with_their_pack() {
    let bytes = compiled();
    let registry = Registry::load(
        builtin(),
        &vec![PackRequest {
            path: "pack.yrp".to_owned(),
            expected_digest: None,
            expected_compiled_digest: None,
        }],
        vec![opened(&bytes)],
    );
    let Selection::Reduce(selected) = registry
        .select(&strings(&["tool", "run"]), &vec![Ok(bytes.clone())])
        .expect("selection")
    else {
        panic!("no rule");
    };
    assert_eq!(selected.pack_id, "test-pack");
    assert_eq!(selected.rule.rule().id, "tests/run");
    assert_eq!(registry.references().len(), 1);
    assert_eq!(registry.references()[0].source_digest, source_pack().source_digest);
    assert!(registry.diagnostics().is_empty());
    let summaries = registry.summaries().expect("summaries");
    assert_eq!(summaries.len(), 3);
}

#[test]
fn project_pack_rejects_symlinked_path_components() {
    assert_eq!(
        below_root("/p/.yarp/rules.yrp", "/p", "/p").expect("below"),
        strings(&[".yarp", "rules.yrp"])
    );
    let error = check_project_pack(true, true, "/p/real/rules.yrp", "/p")
        .expect_err("symlink rejection");
    assert!(error.contains("symlink"));
    assert!(check_project_pack(false, false, "/p/.yarp/rules.yrp", "/p").is_err());
    assert!(check_project_pack(false, true, "/other/rules.yrp", "/p").is_err());
    assert!(check_project_pack(false, true, "/p/.yarp/rules.yrp", "/p").is_ok());
    assert!(below_root("/other/rules.yrp", "/p", "/p").is_err());
}

#[test]
fn digest_encoding_is_strict() {
    let digest = [7_u8; 32];
    assert_eq!(parse_digest(&digest_hex(&digest)).expect("digest"), digest);
    assert!(parse_digest("07").is_err());
    assert!(parse_digest("not-hex").is_err());
}

#[test]
fn a_pack_with_an_unreadable_rule_is_refused() {
    let manifest = PackManifest {
        schema_version: 1,
        id: "test-pack".to_owned(),
        rules: vec!["rules/test.json".to_owned()],
    };
    assert!(
        SourcePack::load(
            "pack".to_owned(),
            MANIFEST.as_bytes(),
            manifest.clone(),
            vec![Err("missing".to_owned())],
        )
        .is_err()
    );
    assert!(
        SourcePack::load(
            "pack".to_owned(),
            MANIFEST.as_bytes(),
            manifest,
            vec![Ok(SourceFile {
                body: RULE.as_bytes().to_vec(),
                decoded: Err("duplicate JSON object key".to_owned()),
            })],
        )
        .is_err()
    );
    let newer = PackManifest {
        schema_version: 2,
        id: "test-pack".to_owned(),
        rules: vec!["rules/test.json".to_owned()],
    };
    assert!(check_manifest(MANIFEST.as_bytes(), Ok(newer)).is_err());
}

#[test]
fn a_list_of_pack_paths_has_no_empty_entry() {
    let requests = yarp::rules::requests_from_list(&["/a.pack".to_owned(), "/b.pack".to_owned()])
        .expect("requests");
    assert_eq!(requests.len(), 2);
    assert_eq!(requests[1].path, "/b.pack");
    assert_eq!(requests[1].expected_digest, None);
    for paths in [vec![], vec!["/a.pack".to_owned(), String::new()]] {
        assert_eq!(
            yarp::rules::requests_from_list(&paths).unwrap_err(),
            "YARP_RULE_PACKS contains an empty path"
        );
    }
}

#[test]
fn rules_are_compiled_alike_in_any_order() {
    let rules = [
        rule("tool/b", "tool", &["b"], &[]),
        guard("tool/a", "tool", &[], &["--json"]),
        rule("other/c", "other", &[], &[]),
    ];
    let bodies = [b"{\"b\":1}".to_vec(), b"{\"a\":2}".to_vec(), b"{\"c\":3}".to_vec()];
    let compiled_in = |order: [usize; 3]| {
        let pack = SourcePack {
            rules: order.iter().map(|place| rules[*place].clone()).collect(),
            ..source_pack()
        };
        let encoded = order.iter().map(|place| Ok(bodies[*place].clone())).collect();
        compile(&pack, &encoded).expect("compiled")
    };
    let first = compiled_in([0, 1, 2]);
    assert_eq!(first, compiled_in([2, 0, 1]));
    assert_eq!(first, compiled_in([1, 2, 0]));
}
