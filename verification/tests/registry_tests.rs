use fastrequest::registry::{
    build_registry, check_module_filename, check_token, emit_aggregator, DiscoveryError,
    MigrationRegistry,
};

fn names(v: &[&str]) -> Vec<Vec<u8>> {
    v.iter().map(|s| s.as_bytes().to_vec()).collect()
}

#[test]
fn ordering_property_sorts_tokens() {
    let files = names(&[
        "m20240708_000001_create_table_cookie.rs",
        "mod.rs",
        "m20240629_000001_create_table_user.rs",
    ]);
    let reg = build_registry(&files).unwrap();
    assert_eq!(
        reg.tokens,
        vec![
            b"m20240629_000001_create_table_user".to_vec(),
            b"m20240708_000001_create_table_cookie".to_vec(),
        ]
    );
}

#[test]
fn ordering_property_is_stable_across_builds() {
    let files = names(&[
        "m20240708_000001_create_table_cookie.rs",
        "m20240629_000001_create_table_user.rs",
        "m20240901_000002_create_table_audit.rs",
        "mod.rs",
    ]);
    let first = build_registry(&files).unwrap();
    let second = build_registry(&files).unwrap();
    assert_eq!(first.tokens, second.tokens);
}

#[test]
fn aggregator_file_is_excluded() {
    let files = names(&["mod.rs"]);
    let reg = build_registry(&files).unwrap();
    assert!(reg.tokens.is_empty());
}

#[test]
fn malformed_filename_aborts_discovery() {
    let files = names(&[
        "m20240629_000001_create_table_user.rs",
        "notes.txt",
    ]);
    match build_registry(&files) {
        Err(DiscoveryError::MalformedName(bad)) => assert_eq!(bad, b"notes.txt".to_vec()),
        _ => panic!("expected a malformed-name error"),
    }
}

#[test]
fn malformed_sequence_digits_abort_discovery() {
    let files = names(&["m20240629_x00001_create_table_user.rs"]);
    assert!(matches!(
        build_registry(&files),
        Err(DiscoveryError::MalformedName(_))
    ));
}

#[test]
fn filename_checker_accepts_the_convention() {
    assert!(check_module_filename(
        &b"m20240629_000001_create_table_user.rs".to_vec()
    ));
    assert!(check_token(&b"m20240629_000001_create_table_user".to_vec()));
}

#[test]
fn filename_checker_rejects_deviations() {
    // no `.rs` suffix
    assert!(!check_module_filename(&b"m20240629_000001_create_table_user".to_vec()));
    // empty label
    assert!(!check_module_filename(&b"m20240629_000001_.rs".to_vec()));
    // uppercase label byte
    assert!(!check_module_filename(&b"m20240629_000001_User.rs".to_vec()));
    // too short a timestamp
    assert!(!check_module_filename(&b"m2024_000001_create.rs".to_vec()));
    // missing leading marker
    assert!(!check_module_filename(&b"20240629_000001_create_user.rs".to_vec()));
}

#[test]
fn aggregator_bytes_are_exact() {
    let reg = MigrationRegistry {
        tokens: vec![b"m20240629_000001_create_table_user".to_vec()],
    };
    let out = emit_aggregator(&reg, &b"2024-06-29T00:00:01Z".to_vec());
    let expected = "// 2024-06-29T00:00:01Z\n\
                    mod m20240629_000001_create_table_user;\n\
                    registry [\n    m20240629_000001_create_table_user,\n]\n";
    assert_eq!(out, expected.as_bytes().to_vec());
}

#[test]
fn aggregator_regeneration_is_byte_identical() {
    let files = names(&[
        "m20240708_000001_create_table_cookie.rs",
        "m20240629_000001_create_table_user.rs",
    ]);
    let reg1 = build_registry(&files).unwrap();
    let reg2 = build_registry(&files).unwrap();
    let ts = b"2024-07-08T12:00:00Z".to_vec();
    assert_eq!(emit_aggregator(&reg1, &ts), emit_aggregator(&reg2, &ts));
}

#[test]
fn empty_registry_emits_empty_lists() {
    let reg = MigrationRegistry { tokens: vec![] };
    let out = emit_aggregator(&reg, &b"now".to_vec());
    assert_eq!(out, b"// now\nregistry [\n]\n".to_vec());
}
