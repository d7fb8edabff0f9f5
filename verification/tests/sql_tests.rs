use fastrequest::schema::{CascadeAction, ColumnDef, ColumnType, ForeignKeyDef, SchemaOp, TableDef};
use fastrequest::sql::{create_table_statement, drop_table_statement, op_statement};

fn col(name: &str, ty: ColumnType, not_null: bool, pk: bool, unique: bool) -> ColumnDef {
    ColumnDef { name: name.as_bytes().to_vec(), ty, not_null, primary_key: pk, unique }
}

#[test]
fn create_table_statement_is_exact() {
    let t = TableDef {
        name: b"cookie".to_vec(),
        columns: vec![
            col("id", ColumnType::Uuid, true, true, false),
            col("user_id", ColumnType::Uuid, true, false, false),
        ],
        foreign_keys: vec![ForeignKeyDef {
            name: b"FK_userid_cookie".to_vec(),
            from_column: b"user_id".to_vec(),
            to_table: b"user".to_vec(),
            to_column: b"id".to_vec(),
            on_delete: CascadeAction::Cascade,
            on_update: CascadeAction::Cascade,
        }],
    };
    let sql = String::from_utf8(create_table_statement(&t)).unwrap();
    assert_eq!(
        sql,
        "CREATE TABLE \"cookie\" (\"id\" uuid NOT NULL PRIMARY KEY, \
         \"user_id\" uuid NOT NULL, \
         FOREIGN KEY (\"user_id\") REFERENCES \"user\" (\"id\") \
         ON DELETE CASCADE ON UPDATE CASCADE)"
    );
}

#[test]
fn unique_and_nullable_columns_render_their_modifiers() {
    let t = TableDef {
        name: b"user".to_vec(),
        columns: vec![
            col("email", ColumnType::Text, true, false, true),
            col("phone", ColumnType::Text, false, false, false),
        ],
        foreign_keys: vec![],
    };
    let sql = String::from_utf8(create_table_statement(&t)).unwrap();
    assert_eq!(
        sql,
        "CREATE TABLE \"user\" (\"email\" text NOT NULL UNIQUE, \"phone\" text)"
    );
}

#[test]
fn drop_statement_is_exact() {
    assert_eq!(
        String::from_utf8(drop_table_statement(&b"user".to_vec())).unwrap(),
        "DROP TABLE \"user\""
    );
    assert_eq!(
        String::from_utf8(op_statement(&SchemaOp::DropTable(b"user".to_vec()))).unwrap(),
        "DROP TABLE \"user\""
    );
}
