use fastrequest::schema::{
    apply_op, make_bookkeeping_table, run_migrations, ApplyFault, CascadeAction, ColumnDef,
    ColumnType, ForeignKeyDef, MigrationModule, SchemaCatalog, SchemaOp, TableDef,
};

fn col(name: &str, ty: ColumnType, not_null: bool, pk: bool, unique: bool) -> ColumnDef {
    ColumnDef { name: name.as_bytes().to_vec(), ty, not_null, primary_key: pk, unique }
}

fn fk(name: &str, from: &str, to_table: &str, to_column: &str) -> ForeignKeyDef {
    ForeignKeyDef {
        name: name.as_bytes().to_vec(),
        from_column: from.as_bytes().to_vec(),
        to_table: to_table.as_bytes().to_vec(),
        to_column: to_column.as_bytes().to_vec(),
        on_delete: CascadeAction::Cascade,
        on_update: CascadeAction::Cascade,
    }
}

fn user_table() -> TableDef {
    TableDef {
        name: b"user".to_vec(),
        columns: vec![
            col("id", ColumnType::Uuid, true, true, false),
            col("email", ColumnType::Text, true, false, true),
        ],
        foreign_keys: vec![],
    }
}

fn cookie_table() -> TableDef {
    TableDef {
        name: b"cookie".to_vec(),
        columns: vec![
            col("id", ColumnType::Uuid, true, true, false),
            col("user_id", ColumnType::Uuid, true, false, false),
        ],
        foreign_keys: vec![fk("FK_userid_cookie", "user_id", "user", "id")],
    }
}

fn module(token: &str, up: Vec<SchemaOp>, down: Vec<SchemaOp>) -> MigrationModule {
    MigrationModule { token: token.as_bytes().to_vec(), up, down }
}

#[test]
fn engine_applies_modules_in_order() {
    let modules = vec![
        module(
            "m20240629_000001_create_table_user",
            vec![SchemaOp::CreateTable(user_table())],
            vec![SchemaOp::DropTable(b"user".to_vec())],
        ),
        module(
            "m20240708_000001_create_table_cookie",
            vec![SchemaOp::CreateTable(cookie_table())],
            vec![SchemaOp::DropTable(b"cookie".to_vec())],
        ),
    ];
    let run = run_migrations(&modules).unwrap();
    let names: Vec<Vec<u8>> = run.catalog.tables.iter().map(|t| t.name.clone()).collect();
    assert_eq!(
        names,
        vec![b"seaql_migrations".to_vec(), b"user".to_vec(), b"cookie".to_vec()]
    );
    assert_eq!(
        run.applied,
        vec![
            b"m20240629_000001_create_table_user".to_vec(),
            b"m20240708_000001_create_table_cookie".to_vec(),
        ]
    );
}

#[test]
fn fail_fast_on_apply_error() {
    // The second module references a table that does not exist; the first
    // stays applied and the third is never attempted.
    let modules = vec![
        module(
            "m20240101_000001_create_table_alpha",
            vec![SchemaOp::CreateTable(TableDef {
                name: b"alpha".to_vec(),
                columns: vec![col("id", ColumnType::Integer, true, true, false)],
                foreign_keys: vec![],
            })],
            vec![SchemaOp::DropTable(b"alpha".to_vec())],
        ),
        module(
            "m20240102_000001_create_table_beta",
            vec![SchemaOp::CreateTable(TableDef {
                name: b"beta".to_vec(),
                columns: vec![col("id", ColumnType::Integer, true, true, false)],
                foreign_keys: vec![fk("FK_beta_ghost", "id", "ghost", "id")],
            })],
            vec![SchemaOp::DropTable(b"beta".to_vec())],
        ),
        module(
            "m20240103_000001_create_table_gamma",
            vec![SchemaOp::CreateTable(TableDef {
                name: b"gamma".to_vec(),
                columns: vec![col("id", ColumnType::Integer, true, true, false)],
                foreign_keys: vec![],
            })],
            vec![SchemaOp::DropTable(b"gamma".to_vec())],
        ),
    ];
    let e = run_migrations(&modules).unwrap_err();
    assert_eq!(e.module_index, 1);
    assert_eq!(e.module_token, b"m20240102_000001_create_table_beta".to_vec());
    assert_eq!(e.applied, vec![b"m20240101_000001_create_table_alpha".to_vec()]);
    assert_eq!(e.fault, ApplyFault::MissingFkTarget(b"ghost".to_vec()));
    let names: Vec<Vec<u8>> = e.catalog.tables.iter().map(|t| t.name.clone()).collect();
    assert_eq!(names, vec![b"seaql_migrations".to_vec(), b"alpha".to_vec()]);
}

#[test]
fn duplicate_table_is_refused() {
    let mut cat = SchemaCatalog { tables: vec![make_bookkeeping_table(), user_table()] };
    let r = apply_op(&mut cat, &SchemaOp::CreateTable(user_table()));
    assert_eq!(r.unwrap_err(), ApplyFault::DuplicateTable(b"user".to_vec()));
    assert_eq!(cat.tables.len(), 2);
}

#[test]
fn duplicate_column_is_refused() {
    let mut cat = SchemaCatalog { tables: vec![] };
    let t = TableDef {
        name: b"pair".to_vec(),
        columns: vec![
            col("x", ColumnType::Integer, true, false, false),
            col("x", ColumnType::Text, false, false, false),
        ],
        foreign_keys: vec![],
    };
    let r = apply_op(&mut cat, &SchemaOp::CreateTable(t));
    assert_eq!(r.unwrap_err(), ApplyFault::DuplicateColumn(b"x".to_vec()));
}

#[test]
fn foreign_key_to_missing_column_is_refused() {
    let mut cat = SchemaCatalog { tables: vec![user_table()] };
    let t = TableDef {
        name: b"cookie".to_vec(),
        columns: vec![col("user_id", ColumnType::Uuid, true, false, false)],
        foreign_keys: vec![fk("FK_bad", "user_id", "user", "uuid")],
    };
    let r = apply_op(&mut cat, &SchemaOp::CreateTable(t));
    assert_eq!(r.unwrap_err(), ApplyFault::MissingFkColumn(b"uuid".to_vec()));
}

#[test]
fn foreign_key_from_missing_column_is_refused() {
    let mut cat = SchemaCatalog { tables: vec![user_table()] };
    let t = TableDef {
        name: b"cookie".to_vec(),
        columns: vec![col("id", ColumnType::Uuid, true, true, false)],
        foreign_keys: vec![fk("FK_bad", "user_id", "user", "id")],
    };
    let r = apply_op(&mut cat, &SchemaOp::CreateTable(t));
    assert_eq!(r.unwrap_err(), ApplyFault::MissingFkSource(b"user_id".to_vec()));
}

#[test]
fn dropping_a_missing_table_is_refused() {
    let mut cat = SchemaCatalog { tables: vec![] };
    let r = apply_op(&mut cat, &SchemaOp::DropTable(b"ghost".to_vec()));
    assert_eq!(r.unwrap_err(), ApplyFault::MissingTable(b"ghost".to_vec()));
}

#[test]
fn drop_removes_exactly_the_named_table() {
    let mut cat = SchemaCatalog { tables: vec![user_table(), cookie_table()] };
    apply_op(&mut cat, &SchemaOp::DropTable(b"user".to_vec())).unwrap();
    let names: Vec<Vec<u8>> = cat.tables.iter().map(|t| t.name.clone()).collect();
    assert_eq!(names, vec![b"cookie".to_vec()]);
}

#[test]
fn bookkeeping_table_is_created_first_and_starts_empty() {
    let run = run_migrations(&vec![]).unwrap();
    assert_eq!(run.catalog.tables.len(), 1);
    assert_eq!(run.catalog.tables[0].name, b"seaql_migrations".to_vec());
    assert!(run.applied.is_empty());
}
