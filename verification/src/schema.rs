//! Schema model and migration execution engine.
//!
//! A migration module carries forward (`up`) and reverse (`down`) schema
//! operations.  The engine applies every module's forward operations in
//! registry order to a catalog that starts holding only the engine's own
//! bookkeeping table, stopping at the first failure; modules applied before
//! the failure remain applied.

use vstd::prelude::*;
use vstd::string::{StringSliceAdditionalSpecFns, StrSliceExecFns};

use crate::bytestr::{copy_bytes, bytes_eq_slice};

verus! {

/// Physical column types the pipeline knows; `Unknown` stands for a type the
/// introspector read out of the catalog but the mapping table does not cover.
#[derive(Clone, Copy, PartialEq, Eq, Structural, Debug)]
pub enum ColumnType {
    Uuid,
    Text,
    DateTime,
    Integer,
    Boolean,
    Blob,
    Unknown,
}

/// Referential action attached to a foreign key.
#[derive(Clone, Copy, PartialEq, Eq, Structural, Debug)]
pub enum CascadeAction {
    NoAction,
    Restrict,
    Cascade,
    SetNull,
}

#[derive(Debug)]
pub struct ColumnDef {
    pub name: Vec<u8>,
    pub ty: ColumnType,
    pub not_null: bool,
    pub primary_key: bool,
    pub unique: bool,
}

#[derive(Debug)]
pub struct ForeignKeyDef {
    pub name: Vec<u8>,
    pub from_column: Vec<u8>,
    pub to_table: Vec<u8>,
    pub to_column: Vec<u8>,
    pub on_delete: CascadeAction,
    pub on_update: CascadeAction,
}

#[derive(Debug)]
pub struct TableDef {
    pub name: Vec<u8>,
    pub columns: Vec<ColumnDef>,
    pub foreign_keys: Vec<ForeignKeyDef>,
}

/// Snapshot of the physical schema: one entry per table.
#[derive(Debug)]
pub struct SchemaCatalog {
    pub tables: Vec<TableDef>,
}

#[verifier::ext_equal]
pub ghost struct ColumnV {
    pub name: Seq<u8>,
    pub ty: ColumnType,
    pub not_null: bool,
    pub primary_key: bool,
    pub unique: bool,
}

#[verifier::ext_equal]
pub ghost struct ForeignKeyV {
    pub name: Seq<u8>,
    pub from_column: Seq<u8>,
    pub to_table: Seq<u8>,
    pub to_column: Seq<u8>,
    pub on_delete: CascadeAction,
    pub on_update: CascadeAction,
}

#[verifier::ext_equal]
pub ghost struct TableV {
    pub name: Seq<u8>,
    pub columns: Seq<ColumnV>,
    pub foreign_keys: Seq<ForeignKeyV>,
}

impl View for ColumnDef {
    type V = ColumnV;

    open spec fn view(&self) -> ColumnV {
        ColumnV {
            name: self.name@,
            ty: self.ty,
            not_null: self.not_null,
            primary_key: self.primary_key,
            unique: self.unique,
        }
    }
}

impl View for ForeignKeyDef {
    type V = ForeignKeyV;

    open spec fn view(&self) -> ForeignKeyV {
        ForeignKeyV {
            name: self.name@,
            from_column: self.from_column@,
            to_table: self.to_table@,
            to_column: self.to_column@,
            on_delete: self.on_delete,
            on_update: self.on_update,
        }
    }
}

/// The views of a sequence's elements, elementwise.
pub open spec fn col_views(s: Seq<ColumnDef>) -> Seq<ColumnV> {
    Seq::new(s.len(), |i: int| s[i]@)
}

/// The views of a sequence's elements, elementwise.
pub open spec fn fk_views(s: Seq<ForeignKeyDef>) -> Seq<ForeignKeyV> {
    Seq::new(s.len(), |i: int| s[i]@)
}

impl View for TableDef {
    type V = TableV;

    open spec fn view(&self) -> TableV {
        TableV { name: self.name@, columns: col_views(self.columns@), foreign_keys: fk_views(self.foreign_keys@) }
    }
}

/// The views of a sequence's elements, elementwise.
pub open spec fn table_views(s: Seq<TableDef>) -> Seq<TableV> {
    Seq::new(s.len(), |i: int| s[i]@)
}

impl View for SchemaCatalog {
    type V = Seq<TableV>;

    open spec fn view(&self) -> Seq<TableV> {
        table_views(self.tables@)
    }
}

/// A schema operation of a migration module.
#[derive(Debug)]
pub enum SchemaOp {
    CreateTable(TableDef),
    DropTable(Vec<u8>),
}

#[verifier::ext_equal]
pub ghost enum SchemaOpV {
    CreateTable(TableV),
    DropTable(Seq<u8>),
}

impl View for SchemaOp {
    type V = SchemaOpV;

    open spec fn view(&self) -> SchemaOpV {
        match self {
            SchemaOp::CreateTable(t) => SchemaOpV::CreateTable(t@),
            SchemaOp::DropTable(n) => SchemaOpV::DropTable(n@),
        }
    }
}

/// The views of a sequence's elements, elementwise.
pub open spec fn op_views(s: Seq<SchemaOp>) -> Seq<SchemaOpV> {
    Seq::new(s.len(), |i: int| s[i]@)
}

/// One migration module: an immutable name token, forward operations, and
/// the reverse operations kept for rollback tooling.
#[derive(Debug)]
pub struct MigrationModule {
    pub token: Vec<u8>,
    pub up: Vec<SchemaOp>,
    pub down: Vec<SchemaOp>,
}

#[verifier::ext_equal]
pub ghost struct ModuleV {
    pub token: Seq<u8>,
    pub up: Seq<SchemaOpV>,
    pub down: Seq<SchemaOpV>,
}

impl View for MigrationModule {
    type V = ModuleV;

    open spec fn view(&self) -> ModuleV {
        ModuleV { token: self.token@, up: op_views(self.up@), down: op_views(self.down@) }
    }
}

/// The views of a sequence's elements, elementwise.
pub open spec fn module_views(s: Seq<MigrationModule>) -> Seq<ModuleV> {
    Seq::new(s.len(), |i: int| s[i]@)
}

/// The tokens of a sequence of module views, in order.
pub open spec fn tokens_of_modules(ms: Seq<ModuleV>) -> Seq<Seq<u8>> {
    Seq::new(ms.len(), |i: int| ms[i].token)
}

// -------------------------------------------------------------------------
// Catalog queries
// -------------------------------------------------------------------------

pub open spec fn has_table(cat: Seq<TableV>, name: Seq<u8>) -> bool {
    exists|i: int| 0 <= i < cat.len() && (#[trigger] cat[i]).name == name
}

pub open spec fn table_index(cat: Seq<TableV>, name: Seq<u8>) -> int {
    choose|i: int| 0 <= i < cat.len() && (#[trigger] cat[i]).name == name
}

pub open spec fn has_column(t: TableV, name: Seq<u8>) -> bool {
    exists|i: int| 0 <= i < t.columns.len() && (#[trigger] t.columns[i]).name == name
}

/// No two columns of the table share a name.
pub open spec fn column_names_unique(cols: Seq<ColumnV>) -> bool {
    forall|i: int, j: int| 0 <= i < j < cols.len() ==> (#[trigger] cols[i]).name != (#[trigger] cols[j]).name
}

/// No two tables of the catalog share a name.  The engine establishes this
/// on the initial catalog and preserves it across every applied operation.
pub open spec fn catalog_wf(cat: Seq<TableV>) -> bool {
    forall|i: int, j: int| 0 <= i < j < cat.len() ==> (#[trigger] cat[i]).name != (#[trigger] cat[j]).name
}

/// The physical column type for a type name read out of the storage
/// engine's catalog; a name outside the mapping is `Unknown`.
pub open spec fn column_type_of(name: Seq<u8>) -> ColumnType {
    if name == "uuid".spec_bytes() {
        ColumnType::Uuid
    } else if name == "text".spec_bytes() {
        ColumnType::Text
    } else if name == "datetime".spec_bytes() {
        ColumnType::DateTime
    } else if name == "integer".spec_bytes() {
        ColumnType::Integer
    } else if name == "boolean".spec_bytes() {
        ColumnType::Boolean
    } else if name == "blob".spec_bytes() {
        ColumnType::Blob
    } else {
        ColumnType::Unknown
    }
}

/// Parses a catalog type name.
pub fn column_type_of_name(name: &Vec<u8>) -> (t: ColumnType)
    ensures
        t == column_type_of(name@),
{
    if bytes_eq_slice(name, "uuid".as_bytes()) {
        ColumnType::Uuid
    } else if bytes_eq_slice(name, "text".as_bytes()) {
        ColumnType::Text
    } else if bytes_eq_slice(name, "datetime".as_bytes()) {
        ColumnType::DateTime
    } else if bytes_eq_slice(name, "integer".as_bytes()) {
        ColumnType::Integer
    } else if bytes_eq_slice(name, "boolean".as_bytes()) {
        ColumnType::Boolean
    } else if bytes_eq_slice(name, "blob".as_bytes()) {
        ColumnType::Blob
    } else {
        ColumnType::Unknown
    }
}

/// The referential action for an action name read out of the catalog; an
/// unrecognised name is the engine's default, no action.
pub open spec fn cascade_of(name: Seq<u8>) -> CascadeAction {
    if name == "RESTRICT".spec_bytes() {
        CascadeAction::Restrict
    } else if name == "CASCADE".spec_bytes() {
        CascadeAction::Cascade
    } else if name == "SET NULL".spec_bytes() {
        CascadeAction::SetNull
    } else {
        CascadeAction::NoAction
    }
}

/// Parses a catalog referential-action name.
pub fn cascade_of_name(name: &Vec<u8>) -> (a: CascadeAction)
    ensures
        a == cascade_of(name@),
{
    if bytes_eq_slice(name, "RESTRICT".as_bytes()) {
        CascadeAction::Restrict
    } else if bytes_eq_slice(name, "CASCADE".as_bytes()) {
        CascadeAction::Cascade
    } else if bytes_eq_slice(name, "SET NULL".as_bytes()) {
        CascadeAction::SetNull
    } else {
        CascadeAction::NoAction
    }
}

// -------------------------------------------------------------------------
// Operation semantics
// -------------------------------------------------------------------------

/// A foreign key of a new table `t` is valid against `cat` when its source
/// column is a column of `t` and its target column exists in a table that is
/// already part of the catalog.
pub open spec fn fk_ok(cat: Seq<TableV>, t: TableV, fk: ForeignKeyV) -> bool {
    &&& has_column(t, fk.from_column)
    &&& has_table(cat, fk.to_table)
    &&& has_column(cat[table_index(cat, fk.to_table)], fk.to_column)
}

pub open spec fn create_ok(cat: Seq<TableV>, t: TableV) -> bool {
    &&& !has_table(cat, t.name)
    &&& column_names_unique(t.columns)
    &&& forall|k: int| 0 <= k < t.foreign_keys.len() ==> fk_ok(cat, t, #[trigger] t.foreign_keys[k])
}

/// Whether an operation can be applied to the catalog.
pub open spec fn op_ok(cat: Seq<TableV>, op: SchemaOpV) -> bool {
    match op {
        SchemaOpV::CreateTable(t) => create_ok(cat, t),
        SchemaOpV::DropTable(n) => has_table(cat, n),
    }
}

/// The catalog after an operation; on an inapplicable operation the catalog
/// is unchanged (the engine stops at the failure and applies nothing more).
pub open spec fn apply_op_spec(cat: Seq<TableV>, op: SchemaOpV) -> Seq<TableV> {
    if !op_ok(cat, op) {
        cat
    } else {
        match op {
            SchemaOpV::CreateTable(t) => cat.push(t),
            SchemaOpV::DropTable(n) => cat.remove(table_index(cat, n)),
        }
    }
}

/// Why a forward operation could not be applied.
#[derive(Debug, PartialEq, Eq)]
pub enum ApplyFault {
    /// A table of this name already exists.
    DuplicateTable(Vec<u8>),
    /// Two columns of the new table share this name.
    DuplicateColumn(Vec<u8>),
    /// A foreign key names this column, which the new table does not have.
    MissingFkSource(Vec<u8>),
    /// A foreign key references this table, which the catalog does not hold.
    MissingFkTarget(Vec<u8>),
    /// A foreign key references this column, absent from the target table.
    MissingFkColumn(Vec<u8>),
    /// The table to drop does not exist.
    MissingTable(Vec<u8>),
}

/// Finds the table of the given name.
pub fn find_table(cat: &SchemaCatalog, name: &Vec<u8>) -> (r: Option<usize>)
    ensures
        r is Some ==> 0 <= r->0 < cat@.len() && cat@[r->0 as int].name == name@,
        r is None ==> !has_table(cat@, name@),
{
    let mut i: usize = 0;
    while i < cat.tables.len()
        invariant
            i <= cat.tables@.len(),
            forall|j: int| 0 <= j < i ==> (#[trigger] cat@[j]).name != name@,
        decreases cat.tables@.len() - i,
    {
        if bytes_eq_slice(name, cat.tables[i].name.as_slice()) {
            proof {
                assert(cat@[i as int].name == name@);
            }
            return Some(i);
        }
        proof {
            assert(cat@[i as int].name != name@);
        }
        i = i + 1;
    }
    proof {
        assert(!has_table(cat@, name@));
    }
    None
}

/// Finds a column of the given name in a table.
fn find_column(t: &TableDef, name: &Vec<u8>) -> (r: Option<usize>)
    ensures
        r is Some ==> 0 <= r->0 < t@.columns.len() && t@.columns[r->0 as int].name == name@,
        r is None ==> !has_column(t@, name@),
{
    let mut i: usize = 0;
    while i < t.columns.len()
        invariant
            i <= t.columns@.len(),
            forall|j: int| 0 <= j < i ==> (#[trigger] t@.columns[j]).name != name@,
        decreases t.columns@.len() - i,
    {
        if bytes_eq_slice(name, t.columns[i].name.as_slice()) {
            proof {
                assert(t@.columns[i as int].name == name@);
            }
            return Some(i);
        }
        proof {
            assert(t@.columns[i as int].name != name@);
        }
        i = i + 1;
    }
    proof {
        assert(!has_column(t@, name@));
    }
    None
}

proof fn lemma_col_views_push(s: Seq<ColumnDef>, c: ColumnDef)
    ensures
        col_views(s.push(c)) =~= col_views(s).push(c@),
{
    assert forall|j: int| 0 <= j < s.len() + 1 implies col_views(s.push(c))[j] == col_views(
        s,
    ).push(c@)[j] by {
        if j < s.len() {
            assert(s.push(c)[j] == s[j]);
        } else {
            assert(s.push(c)[j] == c);
        }
    }
}

proof fn lemma_fk_views_push(s: Seq<ForeignKeyDef>, c: ForeignKeyDef)
    ensures
        fk_views(s.push(c)) =~= fk_views(s).push(c@),
{
    assert forall|j: int| 0 <= j < s.len() + 1 implies fk_views(s.push(c))[j] == fk_views(s).push(
        c@,
    )[j] by {
        if j < s.len() {
            assert(s.push(c)[j] == s[j]);
        } else {
            assert(s.push(c)[j] == c);
        }
    }
}

proof fn lemma_table_views_push(s: Seq<TableDef>, c: TableDef)
    ensures
        table_views(s.push(c)) =~= table_views(s).push(c@),
{
    assert forall|j: int| 0 <= j < s.len() + 1 implies table_views(s.push(c))[j] == table_views(
        s,
    ).push(c@)[j] by {
        if j < s.len() {
            assert(s.push(c)[j] == s[j]);
        } else {
            assert(s.push(c)[j] == c);
        }
    }
}

/// Checks that no two columns share a name; on failure names one offender.
fn check_columns_unique(cols: &Vec<ColumnDef>) -> (r: Option<Vec<u8>>)
    ensures
        r is None <==> column_names_unique(col_views(cols@)),
{
    let n = cols.len();
    let mut i: usize = 1;
    while i < n
        invariant
            1 <= i <= n || n == 0,
            n == cols@.len(),
            forall|p: int, q: int|
                0 <= p < q < i ==> (#[trigger] col_views(cols@)[p]).name != (#[trigger] col_views(
                    cols@,
                )[q]).name,
        decreases n - i,
    {
        let mut j: usize = 0;
        while j < i
            invariant
                0 <= j <= i < n,
                n == cols@.len(),
                forall|p: int| 0 <= p < j ==> (#[trigger] col_views(cols@)[p]).name != col_views(cols@)[i as int].name,
            decreases i - j,
        {
            if bytes_eq_slice(&cols[j].name, cols[i].name.as_slice()) {
                proof {
                    assert(col_views(cols@)[j as int].name == col_views(cols@)[i as int].name);
                    assert(!column_names_unique(col_views(cols@)));
                }
                return Some(copy_bytes(&cols[i].name));
            }
            proof {
                assert(col_views(cols@)[j as int].name != col_views(cols@)[i as int].name);
            }
            j = j + 1;
        }
        i = i + 1;
    }
    proof {
        assert(column_names_unique(col_views(cols@)));
    }
    None
}

/// Deep copies of the schema data structures.
fn copy_column(c: &ColumnDef) -> (r: ColumnDef)
    ensures
        r@ == c@,
{
    ColumnDef {
        name: copy_bytes(&c.name),
        ty: c.ty,
        not_null: c.not_null,
        primary_key: c.primary_key,
        unique: c.unique,
    }
}

fn copy_fk(f: &ForeignKeyDef) -> (r: ForeignKeyDef)
    ensures
        r@ == f@,
{
    ForeignKeyDef {
        name: copy_bytes(&f.name),
        from_column: copy_bytes(&f.from_column),
        to_table: copy_bytes(&f.to_table),
        to_column: copy_bytes(&f.to_column),
        on_delete: f.on_delete,
        on_update: f.on_update,
    }
}

pub fn copy_table(t: &TableDef) -> (r: TableDef)
    ensures
        r@ == t@,
{
    let mut columns: Vec<ColumnDef> = Vec::new();
    let mut i: usize = 0;
    while i < t.columns.len()
        invariant
            i <= t.columns@.len(),
            col_views(columns@) =~= col_views(t.columns@).take(i as int),
        decreases t.columns@.len() - i,
    {
        let ghost prev = columns@;
        let c = copy_column(&t.columns[i]);
        columns.push(c);
        i = i + 1;
        proof {
            lemma_col_views_push(prev, c);
            assert(col_views(columns@) =~= col_views(t.columns@).take(i as int));
        }
    }
    let mut foreign_keys: Vec<ForeignKeyDef> = Vec::new();
    let mut i: usize = 0;
    while i < t.foreign_keys.len()
        invariant
            i <= t.foreign_keys@.len(),
            fk_views(foreign_keys@) =~= fk_views(t.foreign_keys@).take(i as int),
        decreases t.foreign_keys@.len() - i,
    {
        let ghost prev = foreign_keys@;
        let c = copy_fk(&t.foreign_keys[i]);
        foreign_keys.push(c);
        i = i + 1;
        proof {
            lemma_fk_views_push(prev, c);
            assert(fk_views(foreign_keys@) =~= fk_views(t.foreign_keys@).take(i as int));
        }
    }
    let r = TableDef { name: copy_bytes(&t.name), columns, foreign_keys };
    proof {
        assert(col_views(t.columns@).take(t.columns@.len() as int) =~= col_views(t.columns@));
        assert(fk_views(t.foreign_keys@).take(t.foreign_keys@.len() as int) =~= fk_views(t.foreign_keys@));
        assert(r@ =~= t@);
    }
    r
}

proof fn lemma_op_views_push(s: Seq<SchemaOp>, c: SchemaOp)
    ensures
        op_views(s.push(c)) =~= op_views(s).push(c@),
{
    assert forall|j: int| 0 <= j < s.len() + 1 implies op_views(s.push(c))[j] == op_views(s).push(
        c@,
    )[j] by {
        if j < s.len() {
            assert(s.push(c)[j] == s[j]);
        } else {
            assert(s.push(c)[j] == c);
        }
    }
}

fn copy_op(op: &SchemaOp) -> (r: SchemaOp)
    ensures
        r@ == op@,
{
    match op {
        SchemaOp::CreateTable(t) => SchemaOp::CreateTable(copy_table(t)),
        SchemaOp::DropTable(n) => SchemaOp::DropTable(copy_bytes(n)),
    }
}

fn copy_ops(ops: &Vec<SchemaOp>) -> (r: Vec<SchemaOp>)
    ensures
        op_views(r@) == op_views(ops@),
{
    let mut out: Vec<SchemaOp> = Vec::new();
    let mut i: usize = 0;
    while i < ops.len()
        invariant
            i <= ops@.len(),
            op_views(out@) =~= op_views(ops@).take(i as int),
        decreases ops@.len() - i,
    {
        let ghost prev = out@;
        let op = copy_op(&ops[i]);
        out.push(op);
        i = i + 1;
        proof {
            lemma_op_views_push(prev, op);
            assert(op_views(out@) =~= op_views(ops@).take(i as int));
        }
    }
    proof {
        assert(op_views(ops@).take(ops@.len() as int) =~= op_views(ops@));
    }
    out
}

/// Deep copy of a migration module.
pub fn copy_module(m: &MigrationModule) -> (r: MigrationModule)
    ensures
        r@ == m@,
{
    let r = MigrationModule {
        token: copy_bytes(&m.token),
        up: copy_ops(&m.up),
        down: copy_ops(&m.down),
    };
    proof {
        assert(r@ =~= m@);
    }
    r
}

/// Applies one forward operation to the catalog.  Succeeds exactly when the
/// operation is applicable; on failure the catalog is unchanged and the
/// fault names the offending table or column.
pub fn apply_op(cat: &mut SchemaCatalog, op: &SchemaOp) -> (r: Result<(), ApplyFault>)
    requires
        catalog_wf(old(cat)@),
    ensures
        r is Ok <==> op_ok(old(cat)@, op@),
        final(cat)@ == apply_op_spec(old(cat)@, op@),
        catalog_wf(final(cat)@),
{
    match op {
        SchemaOp::CreateTable(t) => {
            if let Some(_) = find_table(cat, &t.name) {
                proof {
                    assert(has_table(cat@, t@.name));
                    assert(!op_ok(cat@, op@));
                }
                return Err(ApplyFault::DuplicateTable(copy_bytes(&t.name)));
            }
            if let Some(dup) = check_columns_unique(&t.columns) {
                return Err(ApplyFault::DuplicateColumn(dup));
            }
            let mut k: usize = 0;
            while k < t.foreign_keys.len()
                invariant
                    k <= t.foreign_keys@.len(),
                    cat@ == old(cat)@,
                    catalog_wf(cat@),
                    !has_table(cat@, t@.name),
                    column_names_unique(col_views(t.columns@)),
                    op@ == SchemaOpV::CreateTable(t@),
                    forall|p: int| 0 <= p < k ==> fk_ok(cat@, t@, #[trigger] t@.foreign_keys[p]),
                decreases t.foreign_keys@.len() - k,
            {
                let fk = &t.foreign_keys[k];
                proof {
                    assert(t@.foreign_keys[k as int] == fk@);
                }
                if find_column(t, &fk.from_column).is_none() {
                    proof {
                        assert(!fk_ok(cat@, t@, t@.foreign_keys[k as int]));
                        assert(!create_ok(cat@, t@));
                    }
                    return Err(ApplyFault::MissingFkSource(copy_bytes(&fk.from_column)));
                }
                let ti = match find_table(cat, &fk.to_table) {
                    Some(ti) => ti,
                    None => {
                        proof {
                            assert(!fk_ok(cat@, t@, t@.foreign_keys[k as int]));
                            assert(!create_ok(cat@, t@));
                        }
                        return Err(ApplyFault::MissingFkTarget(copy_bytes(&fk.to_table)));
                    },
                };
                proof {
                    assert(cat@[ti as int].name == fk@.to_table);
                    assert(table_index(cat@, fk@.to_table) == ti as int) by {
                        let c = table_index(cat@, fk@.to_table);
                        assert(0 <= c < cat@.len() && cat@[c].name == fk@.to_table);
                    }
                }
                if find_column(&cat.tables[ti], &fk.to_column).is_none() {
                    proof {
                        assert(!has_column(cat@[table_index(cat@, fk@.to_table)], fk@.to_column));
                        assert(!fk_ok(cat@, t@, t@.foreign_keys[k as int]));
                        assert(!create_ok(cat@, t@));
                    }
                    return Err(ApplyFault::MissingFkColumn(copy_bytes(&fk.to_column)));
                }
                k = k + 1;
            }
            proof {
                assert(create_ok(cat@, t@));
            }
            let copied = copy_table(t);
            let ghost cat0 = cat@;
            let ghost tabs0 = cat.tables@;
            cat.tables.push(copied);
            proof {
                lemma_table_views_push(tabs0, copied);
                assert(cat@ =~= cat0.push(t@));
                assert(apply_op_spec(cat0, op@) == cat0.push(t@));
                assert(catalog_wf(cat@)) by {
                    assert(forall|i: int| 0 <= i < cat0.len() ==> cat@[i] == #[trigger] cat0[i]);
                    assert(cat@[cat0.len() as int] == t@);
                    assert(forall|i: int| 0 <= i < cat0.len() ==> (#[trigger] cat0[i]).name != t@.name);
                }
            }
            Ok(())
        },
        SchemaOp::DropTable(name) => {
            let i = match find_table(cat, name) {
                Some(i) => i,
                None => {
                    proof {
                        assert(!op_ok(cat@, op@));
                    }
                    return Err(ApplyFault::MissingTable(copy_bytes(name)));
                },
            };
            proof {
                assert(cat@[i as int].name == name@);
                assert(table_index(cat@, name@) == i as int) by {
                    let c = table_index(cat@, name@);
                    assert(0 <= c < cat@.len() && cat@[c].name == name@);
                }
            }
            let ghost cat0 = cat@;
            let _ = cat.tables.remove(i);
            proof {
                assert(cat@ =~= cat0.remove(i as int)) by {
                    cat0.remove_ensures(i as int);
                    assert(cat@.len() == cat0.len() - 1);
                    assert(forall|j: int| 0 <= j < i ==> (#[trigger] cat@[j]) == cat0[j]);
                    assert(forall|j: int|
                        i <= j < cat@.len() ==> (#[trigger] cat@[j]) == cat0[j + 1]);
                }
                assert(apply_op_spec(cat0, op@) == cat0.remove(i as int));
                assert(catalog_wf(cat@)) by {
                    cat0.remove_ensures(i as int);
                }
            }
            Ok(())
        },
    }
}

// -------------------------------------------------------------------------
// Migration execution engine
// -------------------------------------------------------------------------

/// The name of the engine's own bookkeeping table, which records applied
/// module names and never surfaces as a generated entity.
pub open spec fn bookkeeping_name() -> Seq<u8> {
    "seaql_migrations".spec_bytes()
}

/// The bookkeeping table the engine creates on first use: one row per
/// applied module, keyed by the module name.
pub open spec fn bookkeeping_table() -> TableV {
    TableV {
        name: bookkeeping_name(),
        columns: seq![
            ColumnV {
                name: "version".spec_bytes(),
                ty: ColumnType::Text,
                not_null: true,
                primary_key: true,
                unique: false,
            },
            ColumnV {
                name: "applied_at".spec_bytes(),
                ty: ColumnType::Integer,
                not_null: true,
                primary_key: false,
                unique: false,
            },
        ],
        foreign_keys: Seq::empty(),
    }
}

/// The catalog a fresh scratch database presents to the engine after the
/// bookkeeping table is created: nothing else.
pub open spec fn initial_catalog() -> Seq<TableV> {
    seq![bookkeeping_table()]
}

/// Builds the bookkeeping table definition.
pub fn make_bookkeeping_table() -> (t: TableDef)
    ensures
        t@ == bookkeeping_table(),
{
    let mut columns: Vec<ColumnDef> = Vec::new();
    columns.push(ColumnDef {
        name: "version".as_bytes_vec(),
        ty: ColumnType::Text,
        not_null: true,
        primary_key: true,
        unique: false,
    });
    columns.push(ColumnDef {
        name: "applied_at".as_bytes_vec(),
        ty: ColumnType::Integer,
        not_null: true,
        primary_key: false,
        unique: false,
    });
    let t = TableDef { name: "seaql_migrations".as_bytes_vec(), columns, foreign_keys: Vec::new() };
    proof {
        assert(col_views(t.columns@) =~= bookkeeping_table().columns);
        assert(fk_views(t.foreign_keys@) =~= Seq::<ForeignKeyV>::empty());
        assert(t@ =~= bookkeeping_table());
    }
    t
}

/// Whether every operation of the sequence applies, each against the catalog
/// left by its predecessors.
pub open spec fn ops_ok(cat: Seq<TableV>, ops: Seq<SchemaOpV>) -> bool
    decreases ops.len(),
{
    if ops.len() == 0 {
        true
    } else {
        ops_ok(cat, ops.drop_last()) && op_ok(apply_ops(cat, ops.drop_last()), ops.last())
    }
}

/// The catalog after the operations, applied left to right.
pub open spec fn apply_ops(cat: Seq<TableV>, ops: Seq<SchemaOpV>) -> Seq<TableV>
    decreases ops.len(),
{
    if ops.len() == 0 {
        cat
    } else {
        apply_op_spec(apply_ops(cat, ops.drop_last()), ops.last())
    }
}

/// Whether a module's forward operations all apply to the catalog.
pub open spec fn module_ok(cat: Seq<TableV>, m: ModuleV) -> bool {
    ops_ok(cat, m.up)
}

/// The catalog after a module's forward operations.
pub open spec fn apply_module_spec(cat: Seq<TableV>, m: ModuleV) -> Seq<TableV> {
    apply_ops(cat, m.up)
}

/// The catalog after every module's forward operations, in order.
pub open spec fn run_catalog(cat: Seq<TableV>, ms: Seq<ModuleV>) -> Seq<TableV>
    decreases ms.len(),
{
    if ms.len() == 0 {
        cat
    } else {
        apply_module_spec(run_catalog(cat, ms.drop_last()), ms.last())
    }
}

/// Whether every module applies, each against the catalog left by its
/// predecessors.
pub open spec fn run_ok(cat: Seq<TableV>, ms: Seq<ModuleV>) -> bool
    decreases ms.len(),
{
    if ms.len() == 0 {
        true
    } else {
        run_ok(cat, ms.drop_last()) && module_ok(run_catalog(cat, ms.drop_last()), ms.last())
    }
}

/// If all operations apply, so does every prefix of them.
proof fn lemma_ops_ok_prefix(cat: Seq<TableV>, ops: Seq<SchemaOpV>, j: int)
    requires
        ops_ok(cat, ops),
        0 <= j <= ops.len(),
    ensures
        ops_ok(cat, ops.take(j)),
    decreases ops.len(),
{
    if j == ops.len() {
        assert(ops.take(j) =~= ops);
    } else {
        assert(ops.take(j) =~= ops.drop_last().take(j));
        lemma_ops_ok_prefix(cat, ops.drop_last(), j);
    }
}

/// If all operations apply, then each applies against the catalog left by
/// those before it.
proof fn lemma_ops_ok_at(cat: Seq<TableV>, ops: Seq<SchemaOpV>, j: int)
    requires
        ops_ok(cat, ops),
        0 <= j < ops.len(),
    ensures
        op_ok(apply_ops(cat, ops.take(j)), ops[j]),
    decreases ops.len(),
{
    if j == ops.len() - 1 {
        assert(ops.take(j) =~= ops.drop_last());
        assert(ops.last() == ops[j]);
    } else {
        assert(ops.take(j) =~= ops.drop_last().take(j));
        assert(ops.drop_last()[j] == ops[j]);
        lemma_ops_ok_at(cat, ops.drop_last(), j);
    }
}

/// If the whole run succeeds, so does every prefix of it.
proof fn lemma_run_ok_prefix(cat: Seq<TableV>, ms: Seq<ModuleV>, i: int)
    requires
        run_ok(cat, ms),
        0 <= i <= ms.len(),
    ensures
        run_ok(cat, ms.take(i)),
    decreases ms.len(),
{
    if i == ms.len() {
        assert(ms.take(i) =~= ms);
    } else {
        assert(ms.take(i) =~= ms.drop_last().take(i));
        lemma_run_ok_prefix(cat, ms.drop_last(), i);
    }
}

/// If the whole run succeeds, each module applies against the catalog left
/// by those before it.
proof fn lemma_run_ok_at(cat: Seq<TableV>, ms: Seq<ModuleV>, i: int)
    requires
        run_ok(cat, ms),
        0 <= i < ms.len(),
    ensures
        module_ok(run_catalog(cat, ms.take(i)), ms[i]),
    decreases ms.len(),
{
    if i == ms.len() - 1 {
        assert(ms.take(i) =~= ms.drop_last());
        assert(ms.last() == ms[i]);
    } else {
        assert(ms.take(i) =~= ms.drop_last().take(i));
        assert(ms.drop_last()[i] == ms[i]);
        lemma_run_ok_at(cat, ms.drop_last(), i);
    }
}

/// Applies one module's forward operations, stopping at the first failure;
/// operations applied before the failure stay applied.
fn apply_module(cat: &mut SchemaCatalog, m: &MigrationModule) -> (r: Result<(), (usize, ApplyFault)>)
    requires
        catalog_wf(old(cat)@),
    ensures
        r is Ok <==> ops_ok(old(cat)@, m@.up),
        r is Ok ==> final(cat)@ == apply_ops(old(cat)@, m@.up),
        r is Err ==> {
            let j = r->Err_0.0 as int;
            &&& 0 <= j < m@.up.len()
            &&& ops_ok(old(cat)@, m@.up.take(j))
            &&& !op_ok(apply_ops(old(cat)@, m@.up.take(j)), m@.up[j])
            &&& final(cat)@ == apply_ops(old(cat)@, m@.up.take(j))
        },
        catalog_wf(final(cat)@),
{
    let mut j: usize = 0;
    while j < m.up.len()
        invariant
            j <= m@.up.len(),
            catalog_wf(cat@),
            ops_ok(old(cat)@, m@.up.take(j as int)),
            cat@ == apply_ops(old(cat)@, m@.up.take(j as int)),
        decreases m@.up.len() - j,
    {
        let ghost k = j as int;
        let op = &m.up[j];
        proof {
            assert(op@ == m@.up[k]);
            assert(m@.up.take(k + 1).drop_last() =~= m@.up.take(k));
            assert(m@.up.take(k + 1).last() == m@.up[k]);
        }
        match apply_op(cat, op) {
            Ok(()) => {},
            Err(fault) => {
                proof {
                    assert(!ops_ok(old(cat)@, m@.up)) by {
                        if ops_ok(old(cat)@, m@.up) {
                            lemma_ops_ok_at(old(cat)@, m@.up, k);
                        }
                    }
                }
                return Err((j, fault));
            },
        }
        j = j + 1;
    }
    proof {
        assert(m@.up.take(m@.up.len() as int) =~= m@.up);
    }
    Ok(())
}

/// The outcome of a successful engine run: the migrated catalog and the
/// bookkeeping rows, one applied module name each, in application order.
#[derive(Debug)]
pub struct MigrationRun {
    pub catalog: SchemaCatalog,
    pub applied: Vec<Vec<u8>>,
}

/// A failed engine run: the first module whose forward operations did not
/// apply, the modules applied before it (which stay applied), and the
/// catalog as the failure left it.
#[derive(Debug)]
pub struct MigrationApplyError {
    pub module_index: usize,
    pub module_token: Vec<u8>,
    pub op_index: usize,
    pub fault: ApplyFault,
    pub applied: Vec<Vec<u8>>,
    pub catalog: SchemaCatalog,
}

/// Applies every module's forward operations in the given (registry) order
/// to a catalog holding only the engine's bookkeeping table.  Execution is
/// strictly sequential; the first failing module aborts the run, and the
/// modules before it remain applied.
pub fn run_migrations(modules: &Vec<MigrationModule>) -> (r: Result<MigrationRun, MigrationApplyError>)
    ensures
        r is Ok <==> run_ok(initial_catalog(), module_views(modules@)),
        r is Ok ==> {
            let run = r->Ok_0;
            &&& run.catalog@ == run_catalog(initial_catalog(), module_views(modules@))
            &&& crate::order::views_of(run.applied@) == tokens_of_modules(module_views(modules@))
            &&& catalog_wf(run.catalog@)
        },
        r is Err ==> {
            let e = r->Err_0;
            let ms = module_views(modules@);
            let i = e.module_index as int;
            &&& 0 <= i < ms.len()
            &&& run_ok(initial_catalog(), ms.take(i))
            &&& !module_ok(run_catalog(initial_catalog(), ms.take(i)), ms[i])
            &&& e.module_token@ == ms[i].token
            &&& crate::order::views_of(e.applied@) == tokens_of_modules(ms.take(i))
            &&& catalog_wf(e.catalog@)
        },
{
    let mut tables: Vec<TableDef> = Vec::new();
    tables.push(make_bookkeeping_table());
    let mut cat = SchemaCatalog { tables };
    proof {
        assert(cat@ =~= initial_catalog());
        assert(catalog_wf(cat@));
    }
    let mut applied: Vec<Vec<u8>> = Vec::new();
    let mut i: usize = 0;
    proof {
        assert(crate::order::views_of(applied@) =~= tokens_of_modules(module_views(modules@).take(0)));
        assert(module_views(modules@).take(0).len() == 0);
    }
    while i < modules.len()
        invariant
            i <= modules@.len(),
            catalog_wf(cat@),
            run_ok(initial_catalog(), module_views(modules@).take(i as int)),
            cat@ == run_catalog(initial_catalog(), module_views(modules@).take(i as int)),
            crate::order::views_of(applied@) =~= tokens_of_modules(module_views(modules@).take(i as int)),
        decreases modules@.len() - i,
    {
        let ghost ms = module_views(modules@);
        let ghost k = i as int;
        let m = &modules[i];
        proof {
            assert(m@ == ms[k]);
            assert(ms.take(k + 1).drop_last() =~= ms.take(k));
            assert(ms.take(k + 1).last() == ms[k]);
        }
        let ghost cat_before = cat@;
        match apply_module(&mut cat, m) {
            Ok(()) => {},
            Err((op_index, fault)) => {
                proof {
                    assert(!run_ok(initial_catalog(), ms)) by {
                        if run_ok(initial_catalog(), ms) {
                            lemma_run_ok_at(initial_catalog(), ms, k);
                        }
                    }
                }
                return Err(MigrationApplyError {
                    module_index: i,
                    module_token: copy_bytes(&m.token),
                    op_index,
                    fault,
                    applied,
                    catalog: cat,
                });
            },
        }
        let ghost applied0 = crate::order::views_of(applied@);
        applied.push(copy_bytes(&m.token));
        i = i + 1;
        proof {
            assert(crate::order::views_of(applied@) =~= applied0.push(ms[k].token));
            assert(tokens_of_modules(ms.take(k + 1)) =~= applied0.push(ms[k].token));
            assert(cat@ == run_catalog(initial_catalog(), ms.take(k + 1)));
        }
    }
    proof {
        let ms = module_views(modules@);
        assert(ms.take(ms.len() as int) =~= ms);
    }
    Ok(MigrationRun { catalog: cat, applied })
}

} // verus!
