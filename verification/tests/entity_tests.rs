use fastrequest::entity::{
    build_entities, emit_entity, generate_entities, to_pascal, IntrospectionError, RelationKind,
    SemanticType,
};
use fastrequest::pipeline::run_generation;
use fastrequest::schema::{MigrationModule, SchemaOp};
use fastrequest::schema::{
    make_bookkeeping_table, CascadeAction, ColumnDef, ColumnType, ForeignKeyDef, SchemaCatalog,
    TableDef,
};

fn col(name: &str, ty: ColumnType, not_null: bool, pk: bool, unique: bool) -> ColumnDef {
    ColumnDef { name: name.as_bytes().to_vec(), ty, not_null, primary_key: pk, unique }
}

fn fk(name: &str, from: &str, to_table: &str, to_column: &str) -> ForeignKeyDef {
    ForeignKeyDef {
        name: name.as_bytes().to_vec(),
        from_column: from.as_bytes().to_vec(),
        to_table: to_table.as_bytes().to_vec(),
        to_column: to_column.as_bytes().to_vec(),
        on_delete: CascadeAction::Cascade,
        on_update: CascadeAction::Cascade,
    }
}

fn user_table() -> TableDef {
    TableDef {
        name: b"user".to_vec(),
        columns: vec![
            col("id", ColumnType::Uuid, true, true, false),
            col("email", ColumnType::Text, true, false, true),
        ],
        foreign_keys: vec![],
    }
}

fn cookie_table(unique_user_id: bool) -> TableDef {
    TableDef {
        name: b"cookie".to_vec(),
        columns: vec![
            col("id", ColumnType::Uuid, true, true, false),
            col("user_id", ColumnType::Uuid, true, false, unique_user_id),
            col("expiry_datetime", ColumnType::DateTime, true, false, false),
        ],
        foreign_keys: vec![fk("FK_userid_cookie", "user_id", "user", "id")],
    }
}

fn migrated_catalog(unique_user_id: bool) -> SchemaCatalog {
    SchemaCatalog {
        tables: vec![make_bookkeeping_table(), user_table(), cookie_table(unique_user_id)],
    }
}

#[test]
fn completeness_one_entity_per_retained_table() {
    let ents = build_entities(&migrated_catalog(false)).unwrap();
    assert_eq!(ents.len(), 2);
    assert_eq!(ents[0].table, b"user".to_vec());
    assert_eq!(ents[1].table, b"cookie".to_vec());
}

#[test]
fn bookkeeping_table_never_surfaces() {
    let files = generate_entities(&migrated_catalog(false)).unwrap();
    assert_eq!(files.len(), 2);
    for f in &files {
        assert_ne!(f.filename, b"seaql_migrations.rs".to_vec());
    }
}

#[test]
fn removing_a_table_removes_its_file() {
    let with_cookie = generate_entities(&migrated_catalog(false)).unwrap();
    assert!(with_cookie.iter().any(|f| f.filename == b"cookie.rs".to_vec()));
    let without = SchemaCatalog { tables: vec![make_bookkeeping_table(), user_table()] };
    let files = generate_entities(&without).unwrap();
    assert_eq!(files.len(), 1);
    assert!(files.iter().all(|f| f.filename != b"cookie.rs".to_vec()));
}

#[test]
fn relation_symmetry_non_unique_fk() {
    let ents = build_entities(&migrated_catalog(false)).unwrap();
    let user = &ents[0];
    let cookie = &ents[1];
    // The owner gains many-to-one toward the referenced table.
    assert_eq!(cookie.relations.len(), 1);
    assert_eq!(cookie.relations[0].kind, RelationKind::ManyToOne);
    assert_eq!(cookie.relations[0].target, b"user".to_vec());
    assert_eq!(cookie.relations[0].via_column, b"user_id".to_vec());
    // The referenced table gains one-to-many back.
    assert_eq!(user.relations.len(), 1);
    assert_eq!(user.relations[0].kind, RelationKind::OneToMany);
    assert_eq!(user.relations[0].target, b"cookie".to_vec());
    assert_eq!(user.relations[0].via_column, b"user_id".to_vec());
}

#[test]
fn relation_symmetry_unique_fk_is_one_to_one() {
    let ents = build_entities(&migrated_catalog(true)).unwrap();
    let user = &ents[0];
    let cookie = &ents[1];
    assert_eq!(cookie.relations[0].kind, RelationKind::OneToOne);
    assert_eq!(user.relations[0].kind, RelationKind::OneToOne);
}

#[test]
fn end_to_end_two_modules_yield_user_and_cookie() {
    let modules = vec![
        MigrationModule {
            token: b"m20240629_000001_create_table_user".to_vec(),
            up: vec![SchemaOp::CreateTable(user_table())],
            down: vec![SchemaOp::DropTable(b"user".to_vec())],
        },
        MigrationModule {
            token: b"m20240708_000001_create_table_cookie".to_vec(),
            up: vec![SchemaOp::CreateTable(cookie_table(false))],
            down: vec![SchemaOp::DropTable(b"cookie".to_vec())],
        },
    ];
    let out = run_generation(&modules, &b"ts".to_vec()).unwrap();
    assert_eq!(out.files.len(), 2);
    assert_eq!(out.files[0].filename, b"user.rs".to_vec());
    assert_eq!(out.files[1].filename, b"cookie.rs".to_vec());
    let ents = build_entities(&out.run.catalog).unwrap();
    assert_eq!(ents[0].entity_name, b"User".to_vec());
    assert_eq!(ents[1].entity_name, b"Cookie".to_vec());
    assert_eq!(ents[0].relations[0].kind, RelationKind::OneToMany);
    assert_eq!(ents[0].relations[0].target, b"cookie".to_vec());
    assert_eq!(ents[1].relations[0].kind, RelationKind::ManyToOne);
    assert_eq!(ents[1].relations[0].target, b"user".to_vec());
}

#[test]
fn idempotent_regeneration_is_byte_identical() {
    let cat = migrated_catalog(false);
    let first = generate_entities(&cat).unwrap();
    let second = generate_entities(&cat).unwrap();
    assert_eq!(first.len(), second.len());
    for (a, b) in first.iter().zip(second.iter()) {
        assert_eq!(a.filename, b.filename);
        assert_eq!(a.content, b.content);
    }
}

#[test]
fn unmapped_type_is_a_fatal_configuration_error() {
    let cat = SchemaCatalog {
        tables: vec![TableDef {
            name: b"odd".to_vec(),
            columns: vec![col("blobby", ColumnType::Unknown, false, false, false)],
            foreign_keys: vec![],
        }],
    };
    match generate_entities(&cat) {
        Err(IntrospectionError::UnmappedType { table, column }) => {
            assert_eq!(table, b"odd".to_vec());
            assert_eq!(column, b"blobby".to_vec());
        },
        _ => panic!("expected an unmapped-type error"),
    }
}

#[test]
fn unknown_type_in_bookkeeping_position_does_not_matter() {
    // The bookkeeping table is filtered before mapping, so only retained
    // tables can fail the mapping step.
    let cat = SchemaCatalog {
        tables: vec![
            TableDef {
                name: b"seaql_migrations".to_vec(),
                columns: vec![col("weird", ColumnType::Unknown, false, false, false)],
                foreign_keys: vec![],
            },
            user_table(),
        ],
    };
    let files = generate_entities(&cat).unwrap();
    assert_eq!(files.len(), 1);
    assert_eq!(files[0].filename, b"user.rs".to_vec());
}

#[test]
fn emitted_entity_bytes_are_exact() {
    let ents = build_entities(&migrated_catalog(false)).unwrap();
    let out = emit_entity(&ents[1]);
    let expected = "// table cookie\n\
                    pub struct Cookie {\n\
                    \x20   pub id: Uuid,\n\
                    \x20   pub user_id: Uuid,\n\
                    \x20   pub expiry_datetime: DateTime,\n\
                    }\n\
                    // relation many_to_one user via user_id\n";
    assert_eq!(String::from_utf8(out).unwrap(), expected);
}

#[test]
fn nullable_column_becomes_optional_field() {
    let cat = SchemaCatalog {
        tables: vec![TableDef {
            name: b"note".to_vec(),
            columns: vec![
                col("id", ColumnType::Integer, true, true, false),
                col("body", ColumnType::Text, false, false, false),
            ],
            foreign_keys: vec![],
        }],
    };
    let ents = build_entities(&cat).unwrap();
    assert!(!ents[0].fields[0].nullable);
    assert!(ents[0].fields[1].nullable);
    assert_eq!(ents[0].fields[1].ty, SemanticType::Text);
    let text = String::from_utf8(emit_entity(&ents[0])).unwrap();
    assert!(text.contains("pub body: Option<String>,\n"));
    assert!(text.contains("pub id: i64,\n"));
}

#[test]
fn pascal_casing_drops_underscores_and_uppercases() {
    assert_eq!(to_pascal(&b"user".to_vec()), b"User".to_vec());
    assert_eq!(to_pascal(&b"user_id".to_vec()), b"UserId".to_vec());
    assert_eq!(to_pascal(&b"a_b_c".to_vec()), b"ABC".to_vec());
    assert_eq!(to_pascal(&b"".to_vec()), b"".to_vec());
    assert_eq!(to_pascal(&b"x9_y".to_vec()), b"X9Y".to_vec());
}
