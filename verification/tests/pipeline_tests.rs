use fastrequest::pipeline::{
    advance, initial_state, interpret_exit, order_modules, run_generation, AbortCause,
    PipelineState, Stage, StageOutcome, SubprocessError,
};
use fastrequest::registry::DiscoveryError;
use fastrequest::schema::{ColumnDef, ColumnType, MigrationModule, SchemaOp, TableDef};

fn simple_table(name: &str) -> TableDef {
    TableDef {
        name: name.as_bytes().to_vec(),
        columns: vec![ColumnDef {
            name: b"id".to_vec(),
            ty: ColumnType::Integer,
            not_null: true,
            primary_key: true,
            unique: false,
        }],
        foreign_keys: vec![],
    }
}

fn module(token: &str, table: &str) -> MigrationModule {
    MigrationModule {
        token: token.as_bytes().to_vec(),
        up: vec![SchemaOp::CreateTable(simple_table(table))],
        down: vec![SchemaOp::DropTable(table.as_bytes().to_vec())],
    }
}

#[test]
fn driver_walks_the_stages_in_order_to_done() {
    let mut state = initial_state();
    let expected = [
        Stage::BuildFrontendAssets,
        Stage::RegenerateRegistry,
        Stage::RunMigrationEngine,
        Stage::IntrospectAndEmit,
        Stage::TeardownScratchDatabase,
    ];
    for stage in expected {
        match state {
            PipelineState::Running(s) => assert_eq!(s, stage),
            _ => panic!("expected the pipeline to be running"),
        }
        state = advance(state, StageOutcome::StageOk);
    }
    assert!(matches!(state, PipelineState::Done));
}

#[test]
fn driver_aborts_at_the_failing_stage() {
    let state = initial_state();
    let state = advance(state, StageOutcome::StageOk);
    let state = advance(
        state,
        StageOutcome::StageFailed(AbortCause::Discovery(DiscoveryError::DirectoryUnreadable)),
    );
    match state {
        PipelineState::Aborted(stage, AbortCause::Discovery(DiscoveryError::DirectoryUnreadable)) => {
            assert_eq!(stage, Stage::RegenerateRegistry);
        },
        _ => panic!("expected an abort at registry regeneration"),
    }
}

#[test]
fn exit_codes_map_to_structured_results() {
    assert!(interpret_exit(Some(0)).is_ok());
    assert_eq!(
        interpret_exit(Some(3)).unwrap_err(),
        SubprocessError::NonZeroExit(3)
    );
    assert_eq!(interpret_exit(None).unwrap_err(), SubprocessError::SpawnFailed);
}

#[test]
fn order_modules_sorts_by_token() {
    let modules = vec![
        module("m20240708_000001_create_table_cookie", "cookie_plain"),
        module("m20240629_000001_create_table_user", "user_plain"),
    ];
    let ordered = order_modules(&modules).unwrap();
    assert_eq!(ordered[0].token, b"m20240629_000001_create_table_user".to_vec());
    assert_eq!(ordered[1].token, b"m20240708_000001_create_table_cookie".to_vec());
}

#[test]
fn order_modules_rejects_a_malformed_token() {
    let modules = vec![module("m2024_bad_token", "oops")];
    match order_modules(&modules) {
        Err(DiscoveryError::MalformedName(tok)) => {
            assert_eq!(tok, b"m2024_bad_token".to_vec());
        },
        _ => panic!("expected a malformed-name error"),
    }
}

#[test]
fn run_generation_reports_engine_aborts() {
    // The second module drops a table nobody created.
    let modules = vec![
        module("m20240101_000001_create_table_alpha", "alpha"),
        MigrationModule {
            token: b"m20240102_000001_drop_table_ghost".to_vec(),
            up: vec![SchemaOp::DropTable(b"ghost".to_vec())],
            down: vec![],
        },
    ];
    let ab = run_generation(&modules, &b"ts".to_vec()).unwrap_err();
    assert_eq!(ab.stage, Stage::RunMigrationEngine);
    match ab.cause {
        AbortCause::Apply(e) => {
            assert_eq!(e.module_index, 1);
            assert_eq!(e.applied, vec![b"m20240101_000001_create_table_alpha".to_vec()]);
        },
        _ => panic!("expected an apply cause"),
    }
}

#[test]
fn run_generation_emits_aggregator_and_files() {
    let modules = vec![module("m20240101_000001_create_table_alpha", "alpha")];
    let out = run_generation(&modules, &b"2024-01-01T00:00:00Z".to_vec()).unwrap();
    let expected = "// 2024-01-01T00:00:00Z\n\
                    mod m20240101_000001_create_table_alpha;\n\
                    registry [\n    m20240101_000001_create_table_alpha,\n]\n";
    assert_eq!(String::from_utf8(out.aggregator).unwrap(), expected);
    assert_eq!(out.files.len(), 1);
    assert_eq!(out.files[0].filename, b"alpha.rs".to_vec());
    assert_eq!(out.run.applied.len(), 1);
}
