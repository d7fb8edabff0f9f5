//! Rendering of schema operations as SQL data-definition statements.
//!
//! The engine's operations are applied to the scratch database as plain DDL
//! text; the text is a pure function of the operation, so what runs against
//! the database is exactly what the catalog model applied.

use vstd::prelude::*;
use vstd::string::StringSliceAdditionalSpecFns;

use crate::bytestr::push_bytes;
use crate::schema::{
    CascadeAction, ColumnDef, ColumnType, ColumnV, ForeignKeyDef, ForeignKeyV, SchemaOp,
    SchemaOpV, TableDef, TableV,
};

verus! {

/// The SQL name of a physical column type; a type the mapping does not know
/// is rendered without a type name, which the storage engine accepts.
pub open spec fn sql_type_name(t: ColumnType) -> Seq<u8> {
    match t {
        ColumnType::Uuid => " uuid".spec_bytes(),
        ColumnType::Text => " text".spec_bytes(),
        ColumnType::DateTime => " datetime".spec_bytes(),
        ColumnType::Integer => " integer".spec_bytes(),
        ColumnType::Boolean => " boolean".spec_bytes(),
        ColumnType::Blob => " blob".spec_bytes(),
        ColumnType::Unknown => Seq::empty(),
    }
}

pub open spec fn cascade_sql(a: CascadeAction) -> Seq<u8> {
    match a {
        CascadeAction::NoAction => "NO ACTION".spec_bytes(),
        CascadeAction::Restrict => "RESTRICT".spec_bytes(),
        CascadeAction::Cascade => "CASCADE".spec_bytes(),
        CascadeAction::SetNull => "SET NULL".spec_bytes(),
    }
}

pub open spec fn col_sql(c: ColumnV) -> Seq<u8> {
    "\"".spec_bytes() + c.name + "\"".spec_bytes() + sql_type_name(c.ty) + (if c.not_null {
        " NOT NULL".spec_bytes()
    } else {
        Seq::empty()
    }) + (if c.primary_key {
        " PRIMARY KEY".spec_bytes()
    } else {
        Seq::empty()
    }) + (if c.unique {
        " UNIQUE".spec_bytes()
    } else {
        Seq::empty()
    })
}

pub open spec fn fk_sql(f: ForeignKeyV) -> Seq<u8> {
    "FOREIGN KEY (\"".spec_bytes() + f.from_column + "\") REFERENCES \"".spec_bytes() + f.to_table
        + "\" (\"".spec_bytes() + f.to_column + "\") ON DELETE ".spec_bytes() + cascade_sql(
        f.on_delete,
    ) + " ON UPDATE ".spec_bytes() + cascade_sql(f.on_update)
}

/// The column clauses followed by the foreign-key clauses.
pub open spec fn table_parts(t: TableV) -> Seq<Seq<u8>> {
    Seq::new(
        t.columns.len() + t.foreign_keys.len(),
        |i: int|
            if i < t.columns.len() {
                col_sql(t.columns[i])
            } else {
                fk_sql(t.foreign_keys[i - t.columns.len()])
            },
    )
}

/// The parts joined with commas.
pub open spec fn comma_join(parts: Seq<Seq<u8>>) -> Seq<u8>
    decreases parts.len(),
{
    if parts.len() == 0 {
        Seq::empty()
    } else {
        comma_join(parts.drop_last()) + (if parts.len() > 1 {
            ", ".spec_bytes()
        } else {
            Seq::empty()
        }) + parts.last()
    }
}

pub open spec fn create_table_sql(t: TableV) -> Seq<u8> {
    "CREATE TABLE \"".spec_bytes() + t.name + "\" (".spec_bytes() + comma_join(table_parts(t))
        + ")".spec_bytes()
}

pub open spec fn drop_table_sql(name: Seq<u8>) -> Seq<u8> {
    "DROP TABLE \"".spec_bytes() + name + "\"".spec_bytes()
}

pub open spec fn op_sql(op: SchemaOpV) -> Seq<u8> {
    match op {
        SchemaOpV::CreateTable(t) => create_table_sql(t),
        SchemaOpV::DropTable(n) => drop_table_sql(n),
    }
}

fn sql_type_str(t: ColumnType) -> (r: &'static str)
    ensures
        r.spec_bytes() == sql_type_name(t),
{
    proof {
        reveal_strlit("");
    }
    let r = match t {
        ColumnType::Uuid => " uuid",
        ColumnType::Text => " text",
        ColumnType::DateTime => " datetime",
        ColumnType::Integer => " integer",
        ColumnType::Boolean => " boolean",
        ColumnType::Blob => " blob",
        ColumnType::Unknown => "",
    };
    proof {
        if t is Unknown {
            assert(r.spec_bytes() =~= sql_type_name(t));
        }
    }
    r
}

fn cascade_str(a: CascadeAction) -> (r: &'static str)
    ensures
        r.spec_bytes() == cascade_sql(a),
{
    match a {
        CascadeAction::NoAction => "NO ACTION",
        CascadeAction::Restrict => "RESTRICT",
        CascadeAction::Cascade => "CASCADE",
        CascadeAction::SetNull => "SET NULL",
    }
}

fn push_col_sql(out: &mut Vec<u8>, c: &ColumnDef)
    ensures
        final(out)@ == old(out)@ + col_sql(c@),
{
    push_bytes(out, "\"".as_bytes());
    push_bytes(out, c.name.as_slice());
    push_bytes(out, "\"".as_bytes());
    push_bytes(out, sql_type_str(c.ty).as_bytes());
    if c.not_null {
        push_bytes(out, " NOT NULL".as_bytes());
    }
    if c.primary_key {
        push_bytes(out, " PRIMARY KEY".as_bytes());
    }
    if c.unique {
        push_bytes(out, " UNIQUE".as_bytes());
    }
    proof {
        assert(out@ =~= old(out)@ + col_sql(c@));
    }
}

fn push_fk_sql(out: &mut Vec<u8>, f: &ForeignKeyDef)
    ensures
        final(out)@ == old(out)@ + fk_sql(f@),
{
    push_bytes(out, "FOREIGN KEY (\"".as_bytes());
    push_bytes(out, f.from_column.as_slice());
    push_bytes(out, "\") REFERENCES \"".as_bytes());
    push_bytes(out, f.to_table.as_slice());
    push_bytes(out, "\" (\"".as_bytes());
    push_bytes(out, f.to_column.as_slice());
    push_bytes(out, "\") ON DELETE ".as_bytes());
    push_bytes(out, cascade_str(f.on_delete).as_bytes());
    push_bytes(out, " ON UPDATE ".as_bytes());
    push_bytes(out, cascade_str(f.on_update).as_bytes());
    proof {
        assert(out@ =~= old(out)@ + fk_sql(f@));
    }
}

/// Renders the statement creating a table.
pub fn create_table_statement(t: &TableDef) -> (out: Vec<u8>)
    ensures
        out@ == create_table_sql(t@),
{
    let mut out: Vec<u8> = Vec::new();
    push_bytes(&mut out, "CREATE TABLE \"".as_bytes());
    push_bytes(&mut out, t.name.as_slice());
    push_bytes(&mut out, "\" (".as_bytes());
    let ghost head = "CREATE TABLE \"".spec_bytes() + t@.name + "\" (".spec_bytes();
    let ghost parts = table_parts(t@);
    proof {
        assert(out@ =~= head + comma_join(parts.take(0)));
    }
    let ncols = t.columns.len();
    let mut i: usize = 0;
    while i < ncols
        invariant
            i <= ncols,
            ncols == t.columns@.len(),
            head == "CREATE TABLE \"".spec_bytes() + t@.name + "\" (".spec_bytes(),
            parts == table_parts(t@),
            out@ =~= head + comma_join(parts.take(i as int)),
        decreases ncols - i,
    {
        let ghost k = i as int;
        if i > 0 {
            push_bytes(&mut out, ", ".as_bytes());
        }
        push_col_sql(&mut out, &t.columns[i]);
        i = i + 1;
        proof {
            assert(parts.take(k + 1).drop_last() =~= parts.take(k));
            assert(parts.take(k + 1).last() == parts[k]);
            assert(parts[k] == col_sql(t@.columns[k]));
            assert(out@ =~= head + comma_join(parts.take(k + 1)));
        }
    }
    let nfks = t.foreign_keys.len();
    let mut j: usize = 0;
    while j < nfks
        invariant
            j <= nfks,
            nfks == t.foreign_keys@.len(),
            ncols == t.columns@.len(),
            head == "CREATE TABLE \"".spec_bytes() + t@.name + "\" (".spec_bytes(),
            parts == table_parts(t@),
            out@ =~= head + comma_join(parts.take(ncols + j as int)),
        decreases nfks - j,
    {
        let ghost k = ncols + j as int;
        if ncols > 0 || j > 0 {
            push_bytes(&mut out, ", ".as_bytes());
        }
        push_fk_sql(&mut out, &t.foreign_keys[j]);
        j = j + 1;
        proof {
            assert(parts.take(k + 1).drop_last() =~= parts.take(k));
            assert(parts.take(k + 1).last() == parts[k]);
            assert(parts[k] == fk_sql(t@.foreign_keys[k - ncols]));
            assert(out@ =~= head + comma_join(parts.take(k + 1)));
        }
    }
    push_bytes(&mut out, ")".as_bytes());
    proof {
        assert(parts.take(parts.len() as int) =~= parts);
        assert(out@ =~= create_table_sql(t@));
    }
    out
}

/// Renders the statement dropping a table.
pub fn drop_table_statement(name: &Vec<u8>) -> (out: Vec<u8>)
    ensures
        out@ == drop_table_sql(name@),
{
    let mut out: Vec<u8> = Vec::new();
    push_bytes(&mut out, "DROP TABLE \"".as_bytes());
    push_bytes(&mut out, name.as_slice());
    push_bytes(&mut out, "\"".as_bytes());
    proof {
        assert(out@ =~= drop_table_sql(name@));
    }
    out
}

/// Renders any schema operation as its statement.
pub fn op_statement(op: &SchemaOp) -> (out: Vec<u8>)
    ensures
        out@ == op_sql(op@),
{
    match op {
        SchemaOp::CreateTable(t) => create_table_statement(t),
        SchemaOp::DropTable(n) => drop_table_statement(n),
    }
}

} // verus!
