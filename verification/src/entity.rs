//! Schema introspector / entity emitter.
//!
//! Given the post-migration schema catalog, this module filters out the
//! engine's bookkeeping table, maps every physical column type to a semantic
//! field type (an unmapped type is a fatal configuration error, never a
//! silent skip), synthesizes relation fields from the foreign-key edges on
//! both the owning and the referenced side, and renders one definition file
//! per remaining table.  For a fixed catalog the output is byte-identical
//! across runs.

use vstd::prelude::*;
use vstd::string::{StringSliceAdditionalSpecFns, StrSliceExecFns};

use crate::bytestr::{copy_bytes, bytes_eq_slice, push_bytes};
use crate::schema::{
    SchemaCatalog, TableDef, TableV, ColumnV, ColumnType, ForeignKeyV, bookkeeping_name,
    has_table,
};

verus! {

/// Semantic field types of the generated entities.
#[derive(Clone, Copy, PartialEq, Eq, Structural, Debug)]
pub enum SemanticType {
    Uuid,
    Text,
    DateTime,
    Integer,
    Boolean,
    Binary,
}

/// How an entity relates to another table.
#[derive(Clone, Copy, PartialEq, Eq, Structural, Debug)]
pub enum RelationKind {
    ManyToOne,
    OneToMany,
    OneToOne,
}

#[derive(Debug)]
pub struct EntityField {
    pub name: Vec<u8>,
    pub ty: SemanticType,
    pub nullable: bool,
    pub primary_key: bool,
    pub unique: bool,
}

#[derive(Debug)]
pub struct Relation {
    pub kind: RelationKind,
    pub target: Vec<u8>,
    pub via_column: Vec<u8>,
}

/// One generated entity: the mirrored table, its fields, its relations.
#[derive(Debug)]
pub struct EntityDefinition {
    pub table: Vec<u8>,
    pub entity_name: Vec<u8>,
    pub fields: Vec<EntityField>,
    pub relations: Vec<Relation>,
}

#[verifier::ext_equal]
pub ghost struct FieldV {
    pub name: Seq<u8>,
    pub ty: SemanticType,
    pub nullable: bool,
    pub primary_key: bool,
    pub unique: bool,
}

#[verifier::ext_equal]
pub ghost struct RelationV {
    pub kind: RelationKind,
    pub target: Seq<u8>,
    pub via_column: Seq<u8>,
}

#[verifier::ext_equal]
pub ghost struct EntityV {
    pub table: Seq<u8>,
    pub entity_name: Seq<u8>,
    pub fields: Seq<FieldV>,
    pub relations: Seq<RelationV>,
}

impl View for EntityField {
    type V = FieldV;

    open spec fn view(&self) -> FieldV {
        FieldV {
            name: self.name@,
            ty: self.ty,
            nullable: self.nullable,
            primary_key: self.primary_key,
            unique: self.unique,
        }
    }
}

impl View for Relation {
    type V = RelationV;

    open spec fn view(&self) -> RelationV {
        RelationV { kind: self.kind, target: self.target@, via_column: self.via_column@ }
    }
}

/// The views of a sequence's elements, elementwise.
pub open spec fn field_views(s: Seq<EntityField>) -> Seq<FieldV> {
    Seq::new(s.len(), |i: int| s[i]@)
}

/// The views of a sequence's elements, elementwise.
pub open spec fn relation_views(s: Seq<Relation>) -> Seq<RelationV> {
    Seq::new(s.len(), |i: int| s[i]@)
}

impl View for EntityDefinition {
    type V = EntityV;

    open spec fn view(&self) -> EntityV {
        EntityV {
            table: self.table@,
            entity_name: self.entity_name@,
            fields: field_views(self.fields@),
            relations: relation_views(self.relations@),
        }
    }
}

/// The views of a sequence's elements, elementwise.
pub open spec fn entity_views(s: Seq<EntityDefinition>) -> Seq<EntityV> {
    Seq::new(s.len(), |i: int| s[i]@)
}

/// Why introspection or entity generation failed.
#[derive(Debug, PartialEq, Eq)]
pub enum IntrospectionError {
    /// The catalog query itself failed.
    CatalogUnreadable,
    /// A column's physical type has no entry in the semantic mapping table;
    /// a silently dropped field would corrupt downstream code, so this is a
    /// fatal configuration defect.
    UnmappedType { table: Vec<u8>, column: Vec<u8> },
}

// -------------------------------------------------------------------------
// Type mapping
// -------------------------------------------------------------------------

/// The fixed semantic mapping table; `Unknown` has no entry.
pub open spec fn map_type_spec(t: ColumnType) -> Option<SemanticType> {
    match t {
        ColumnType::Uuid => Some(SemanticType::Uuid),
        ColumnType::Text => Some(SemanticType::Text),
        ColumnType::DateTime => Some(SemanticType::DateTime),
        ColumnType::Integer => Some(SemanticType::Integer),
        ColumnType::Boolean => Some(SemanticType::Boolean),
        ColumnType::Blob => Some(SemanticType::Binary),
        ColumnType::Unknown => None,
    }
}

/// Maps one physical column type to its semantic field type.
pub fn map_type(t: ColumnType) -> (r: Option<SemanticType>)
    ensures
        r == map_type_spec(t),
{
    match t {
        ColumnType::Uuid => Some(SemanticType::Uuid),
        ColumnType::Text => Some(SemanticType::Text),
        ColumnType::DateTime => Some(SemanticType::DateTime),
        ColumnType::Integer => Some(SemanticType::Integer),
        ColumnType::Boolean => Some(SemanticType::Boolean),
        ColumnType::Blob => Some(SemanticType::Binary),
        ColumnType::Unknown => None,
    }
}

/// Every column of every retained table has a semantic mapping.
pub open spec fn all_mapped(cat: Seq<TableV>) -> bool {
    forall|i: int, j: int|
        0 <= i < cat.len() && (#[trigger] cat[i]).name != bookkeeping_name() && 0 <= j
            < cat[i].columns.len() ==> (#[trigger] cat[i].columns[j]).ty != ColumnType::Unknown
}

// -------------------------------------------------------------------------
// Entity synthesis, at the specification level
// -------------------------------------------------------------------------

/// PascalCase of a snake_case name: underscores are dropped and the letter
/// opening the name or following an underscore is uppercased.
pub open spec fn pascal_from(s: Seq<u8>, up: bool) -> Seq<u8>
    decreases s.len(),
{
    if s.len() == 0 {
        Seq::empty()
    } else if s[0] == 95 {
        pascal_from(s.drop_first(), true)
    } else {
        let c: u8 = if up && 97 <= s[0] && s[0] <= 122 {
            (s[0] - 32) as u8
        } else {
            s[0]
        };
        seq![c] + pascal_from(s.drop_first(), false)
    }
}

pub open spec fn pascal(s: Seq<u8>) -> Seq<u8> {
    pascal_from(s, true)
}

/// The field mirroring one column.
pub open spec fn field_of(c: ColumnV) -> FieldV {
    FieldV {
        name: c.name,
        ty: map_type_spec(c.ty)->Some_0,
        nullable: !c.not_null,
        primary_key: c.primary_key,
        unique: c.unique,
    }
}

pub open spec fn fields_of(cols: Seq<ColumnV>) -> Seq<FieldV> {
    Seq::new(cols.len(), |i: int| field_of(cols[i]))
}

/// Whether the foreign key's source column carries a unique constraint; the
/// relation it induces is then one-to-one on both sides.
pub open spec fn source_unique(t: TableV, fk: ForeignKeyV) -> bool {
    exists|i: int|
        0 <= i < t.columns.len() && (#[trigger] t.columns[i]).name == fk.from_column
            && t.columns[i].unique
}

/// The relation a foreign key puts on its owning table: many-to-one toward
/// the referenced table, or one-to-one if the source column is unique.
pub open spec fn owned_relation(t: TableV, fk: ForeignKeyV) -> RelationV {
    RelationV {
        kind: if source_unique(t, fk) {
            RelationKind::OneToOne
        } else {
            RelationKind::ManyToOne
        },
        target: fk.to_table,
        via_column: fk.from_column,
    }
}

pub open spec fn owned_relations(t: TableV) -> Seq<RelationV> {
    Seq::new(t.foreign_keys.len(), |k: int| owned_relation(t, t.foreign_keys[k]))
}

/// The relation a foreign key puts on the table it references: one-to-many
/// back toward the owner, or one-to-one if the source column is unique.
pub open spec fn inbound_relation(u: TableV, fk: ForeignKeyV) -> RelationV {
    RelationV {
        kind: if source_unique(u, fk) {
            RelationKind::OneToOne
        } else {
            RelationKind::OneToMany
        },
        target: u.name,
        via_column: fk.from_column,
    }
}

/// The inbound relations on `target` from the foreign keys `fks` of table
/// `u`, in key order.
pub open spec fn inbound_from(u: TableV, fks: Seq<ForeignKeyV>, target: Seq<u8>) -> Seq<RelationV>
    decreases fks.len(),
{
    if fks.len() == 0 {
        Seq::empty()
    } else {
        let rest = inbound_from(u, fks.drop_last(), target);
        if fks.last().to_table == target {
            rest.push(inbound_relation(u, fks.last()))
        } else {
            rest
        }
    }
}

/// The inbound relations on `target` from every table of the catalog, in
/// catalog order.
pub open spec fn inbound_relations(cat: Seq<TableV>, target: Seq<u8>) -> Seq<RelationV>
    decreases cat.len(),
{
    if cat.len() == 0 {
        Seq::empty()
    } else {
        inbound_relations(cat.drop_last(), target) + inbound_from(
            cat.last(),
            cat.last().foreign_keys,
            target,
        )
    }
}

/// All relation fields of the entity mirroring `t`: those its own foreign
/// keys induce, then those induced by foreign keys referencing it.
pub open spec fn relations_of(cat: Seq<TableV>, t: TableV) -> Seq<RelationV> {
    owned_relations(t) + inbound_relations(cat, t.name)
}

/// The entity mirroring table `t` of the catalog.
pub open spec fn entity_of(cat: Seq<TableV>, t: TableV) -> EntityV {
    EntityV {
        table: t.name,
        entity_name: pascal(t.name),
        fields: fields_of(t.columns),
        relations: relations_of(cat, t),
    }
}

/// The tables that surface as entities: every table except the engine's
/// bookkeeping table, in catalog order.
pub open spec fn retained_tables(cat: Seq<TableV>) -> Seq<TableV>
    decreases cat.len(),
{
    if cat.len() == 0 {
        Seq::empty()
    } else {
        let rest = retained_tables(cat.drop_last());
        if cat.last().name == bookkeeping_name() {
            rest
        } else {
            rest.push(cat.last())
        }
    }
}

/// One entity per retained table, in catalog order.
pub open spec fn entities_of(cat: Seq<TableV>) -> Seq<EntityV> {
    Seq::new(retained_tables(cat).len(), |i: int| entity_of(cat, retained_tables(cat)[i]))
}

// -------------------------------------------------------------------------
// Entity synthesis, executable
// -------------------------------------------------------------------------

/// Converts a snake_case byte string to PascalCase.
pub fn to_pascal(s: &Vec<u8>) -> (r: Vec<u8>)
    ensures
        r@ == pascal(s@),
{
    let mut out: Vec<u8> = Vec::new();
    let mut up = true;
    let mut i: usize = 0;
    proof {
        assert(s@.skip(0) =~= s@);
    }
    while i < s.len()
        invariant
            i <= s@.len(),
            pascal(s@) == out@ + pascal_from(s@.skip(i as int), up),
        decreases s@.len() - i,
    {
        let c = s[i];
        proof {
            assert(s@.skip(i as int)[0] == s@[i as int]);
            assert(s@.skip(i as int).drop_first() =~= s@.skip(i as int + 1));
        }
        if c == 95 {
            up = true;
        } else {
            let d: u8 = if up && 97 <= c && c <= 122 {
                c - 32
            } else {
                c
            };
            out.push(d);
            proof {
                assert(pascal_from(s@.skip(i as int), up) =~= seq![d] + pascal_from(
                    s@.skip(i as int + 1),
                    false,
                ));
            }
            up = false;
        }
        i = i + 1;
        proof {
            assert(pascal(s@) == out@ + pascal_from(s@.skip(i as int), up));
        }
    }
    proof {
        assert(s@.skip(s@.len() as int).len() == 0);
        assert(pascal(s@) =~= out@);
    }
    out
}

/// Whether the foreign key's source column is unique in `t`.
fn check_source_unique(t: &TableDef, from_column: &Vec<u8>) -> (r: bool)
    ensures
        r == exists|i: int|
            0 <= i < t@.columns.len() && (#[trigger] t@.columns[i]).name == from_column@
                && t@.columns[i].unique,
{
    let mut i: usize = 0;
    while i < t.columns.len()
        invariant
            i <= t.columns@.len(),
            forall|j: int|
                0 <= j < i ==> !((#[trigger] t@.columns[j]).name == from_column@
                    && t@.columns[j].unique),
        decreases t.columns@.len() - i,
    {
        if t.columns[i].unique && bytes_eq_slice(from_column, t.columns[i].name.as_slice()) {
            proof {
                assert(t@.columns[i as int].name == from_column@ && t@.columns[i as int].unique);
            }
            return true;
        }
        proof {
            assert(!(t@.columns[i as int].name == from_column@ && t@.columns[i as int].unique));
        }
        i = i + 1;
    }
    false
}

proof fn lemma_field_views_push(s: Seq<EntityField>, c: EntityField)
    ensures
        field_views(s.push(c)) =~= field_views(s).push(c@),
{
    assert forall|j: int| 0 <= j < s.len() + 1 implies field_views(s.push(c))[j] == field_views(
        s,
    ).push(c@)[j] by {
        if j < s.len() {
            assert(s.push(c)[j] == s[j]);
        } else {
            assert(s.push(c)[j] == c);
        }
    }
}

proof fn lemma_relation_views_push(s: Seq<Relation>, c: Relation)
    ensures
        relation_views(s.push(c)) =~= relation_views(s).push(c@),
{
    assert forall|j: int| 0 <= j < s.len() + 1 implies relation_views(s.push(c))[j]
        == relation_views(s).push(c@)[j] by {
        if j < s.len() {
            assert(s.push(c)[j] == s[j]);
        } else {
            assert(s.push(c)[j] == c);
        }
    }
}

proof fn lemma_entity_views_push(s: Seq<EntityDefinition>, c: EntityDefinition)
    ensures
        entity_views(s.push(c)) =~= entity_views(s).push(c@),
{
    assert forall|j: int| 0 <= j < s.len() + 1 implies entity_views(s.push(c))[j] == entity_views(
        s,
    ).push(c@)[j] by {
        if j < s.len() {
            assert(s.push(c)[j] == s[j]);
        } else {
            assert(s.push(c)[j] == c);
        }
    }
}

/// Builds the fields of one table; fails on the first column whose physical
/// type the mapping table does not cover.
fn build_fields(t: &TableDef) -> (r: Result<Vec<EntityField>, IntrospectionError>)
    ensures
        r is Ok <==> (forall|j: int|
            0 <= j < t@.columns.len() ==> (#[trigger] t@.columns[j]).ty != ColumnType::Unknown),
        r is Ok ==> field_views(r->Ok_0@) == fields_of(t@.columns),
        r is Err ==> (r->Err_0 matches IntrospectionError::UnmappedType { table, column }
            && table@ == t@.name && exists|j: int|
            0 <= j < t@.columns.len() && (#[trigger] t@.columns[j]).name == column@
                && t@.columns[j].ty == ColumnType::Unknown),
{
    let mut fields: Vec<EntityField> = Vec::new();
    let mut j: usize = 0;
    while j < t.columns.len()
        invariant
            j <= t.columns@.len(),
            field_views(fields@) =~= fields_of(t@.columns).take(j as int),
            forall|p: int| 0 <= p < j ==> (#[trigger] t@.columns[p]).ty != ColumnType::Unknown,
        decreases t.columns@.len() - j,
    {
        let c = &t.columns[j];
        let sem = match map_type(c.ty) {
            Some(sem) => sem,
            None => {
                proof {
                    assert(t@.columns[j as int].ty == ColumnType::Unknown);
                }
                return Err(IntrospectionError::UnmappedType {
                    table: copy_bytes(&t.name),
                    column: copy_bytes(&c.name),
                });
            },
        };
        let ghost prev = fields@;
        let f = EntityField {
            name: copy_bytes(&c.name),
            ty: sem,
            nullable: !c.not_null,
            primary_key: c.primary_key,
            unique: c.unique,
        };
        proof {
            assert(f@ =~= field_of(t@.columns[j as int]));
        }
        fields.push(f);
        j = j + 1;
        proof {
            lemma_field_views_push(prev, f);
            assert(field_views(fields@) =~= fields_of(t@.columns).take(j as int));
        }
    }
    proof {
        assert(fields_of(t@.columns).take(t@.columns.len() as int) =~= fields_of(t@.columns));
    }
    Ok(fields)
}

/// Builds the relation fields of the entity mirroring `t`: first those of
/// `t`'s own foreign keys, then those induced by foreign keys of other
/// tables referencing `t`.
fn build_relations(cat: &SchemaCatalog, t: &TableDef) -> (r: Vec<Relation>)
    ensures
        relation_views(r@) == relations_of(cat@, t@),
{
    let mut rels: Vec<Relation> = Vec::new();
    let mut k: usize = 0;
    while k < t.foreign_keys.len()
        invariant
            k <= t.foreign_keys@.len(),
            relation_views(rels@) =~= owned_relations(t@).take(k as int),
        decreases t.foreign_keys@.len() - k,
    {
        let fk = &t.foreign_keys[k];
        let uniq = check_source_unique(t, &fk.from_column);
        proof {
            assert(uniq == source_unique(t@, t@.foreign_keys[k as int]));
        }
        let ghost prev = rels@;
        let rel = Relation {
            kind: if uniq {
                RelationKind::OneToOne
            } else {
                RelationKind::ManyToOne
            },
            target: copy_bytes(&fk.to_table),
            via_column: copy_bytes(&fk.from_column),
        };
        proof {
            assert(rel@ =~= owned_relation(t@, t@.foreign_keys[k as int]));
        }
        rels.push(rel);
        k = k + 1;
        proof {
            lemma_relation_views_push(prev, rel);
            assert(relation_views(rels@) =~= owned_relations(t@).take(k as int));
        }
    }
    proof {
        assert(owned_relations(t@).take(t@.foreign_keys.len() as int) =~= owned_relations(t@));
    }
    let mut ui: usize = 0;
    while ui < cat.tables.len()
        invariant
            ui <= cat.tables@.len(),
            relation_views(rels@) =~= owned_relations(t@) + inbound_relations(
                cat@.take(ui as int),
                t@.name,
            ),
        decreases cat.tables@.len() - ui,
    {
        let u = &cat.tables[ui];
        proof {
            assert(u@ == cat@[ui as int]);
            assert(cat@.take(ui as int + 1).drop_last() =~= cat@.take(ui as int));
            assert(cat@.take(ui as int + 1).last() == cat@[ui as int]);
        }
        let ghost fks = u@.foreign_keys;
        let mut k: usize = 0;
        while k < u.foreign_keys.len()
            invariant
                k <= u.foreign_keys@.len(),
                fks == u@.foreign_keys,
                u@ == cat@[ui as int],
                ui < cat.tables@.len(),
                relation_views(rels@) =~= owned_relations(t@) + inbound_relations(
                    cat@.take(ui as int),
                    t@.name,
                ) + inbound_from(u@, fks.take(k as int), t@.name),
            decreases u.foreign_keys@.len() - k,
        {
            let fk = &u.foreign_keys[k];
            proof {
                assert(fk@ == fks[k as int]);
                assert(fks.take(k as int + 1).drop_last() =~= fks.take(k as int));
                assert(fks.take(k as int + 1).last() == fks[k as int]);
            }
            if bytes_eq_slice(&fk.to_table, t.name.as_slice()) {
                let uniq = check_source_unique(u, &fk.from_column);
                proof {
                    assert(uniq == source_unique(u@, fks[k as int]));
                }
                let ghost prev = rels@;
                let rel = Relation {
                    kind: if uniq {
                        RelationKind::OneToOne
                    } else {
                        RelationKind::OneToMany
                    },
                    target: copy_bytes(&u.name),
                    via_column: copy_bytes(&fk.from_column),
                };
                proof {
                    assert(rel@ =~= inbound_relation(u@, fks[k as int]));
                }
                rels.push(rel);
                proof {
                    lemma_relation_views_push(prev, rel);
                    assert(relation_views(rels@) =~= owned_relations(t@) + inbound_relations(
                        cat@.take(ui as int),
                        t@.name,
                    ) + inbound_from(u@, fks.take(k as int + 1), t@.name));
                }
            } else {
                proof {
                    assert(inbound_from(u@, fks.take(k as int + 1), t@.name) == inbound_from(
                        u@,
                        fks.take(k as int),
                        t@.name,
                    ));
                }
            }
            k = k + 1;
        }
        ui = ui + 1;
        proof {
            assert(fks.take(fks.len() as int) =~= fks);
            assert(inbound_relations(cat@.take(ui as int), t@.name) =~= inbound_relations(
                cat@.take(ui as int - 1),
                t@.name,
            ) + inbound_from(u@, fks, t@.name));
            assert(relation_views(rels@) =~= owned_relations(t@) + inbound_relations(
                cat@.take(ui as int),
                t@.name,
            ));
        }
    }
    proof {
        assert(cat@.take(cat@.len() as int) =~= cat@);
        assert(relation_views(rels@) =~= relations_of(cat@, t@));
    }
    rels
}

/// Builds one entity per retained table of the catalog.  Succeeds exactly
/// when every column of every retained table has a semantic mapping.
pub fn build_entities(cat: &SchemaCatalog) -> (r: Result<Vec<EntityDefinition>, IntrospectionError>)
    ensures
        r is Ok <==> all_mapped(cat@),
        r is Ok ==> entity_views(r->Ok_0@) == entities_of(cat@),
        r is Err ==> (r->Err_0 matches IntrospectionError::UnmappedType { table, column }
            && has_table(cat@, table@) && table@ != bookkeeping_name()),
{
    let mut ents: Vec<EntityDefinition> = Vec::new();
    let mut ti: usize = 0;
    while ti < cat.tables.len()
        invariant
            ti <= cat.tables@.len(),
            entity_views(ents@) =~= Seq::new(
                retained_tables(cat@.take(ti as int)).len(),
                |i: int| entity_of(cat@, retained_tables(cat@.take(ti as int))[i]),
            ),
            forall|i: int, j: int|
                0 <= i < ti && (#[trigger] cat@[i]).name != bookkeeping_name() && 0 <= j
                    < cat@[i].columns.len() ==> (#[trigger] cat@[i].columns[j]).ty
                    != ColumnType::Unknown,
        decreases cat.tables@.len() - ti,
    {
        let ghost k = ti as int;
        let t = &cat.tables[ti];
        proof {
            assert(t@ == cat@[k]);
            assert(cat@.take(k + 1).drop_last() =~= cat@.take(k));
            assert(cat@.take(k + 1).last() == cat@[k]);
        }
        if bytes_eq_slice(&t.name, "seaql_migrations".as_bytes()) {
            proof {
                assert(t@.name == bookkeeping_name());
                assert(retained_tables(cat@.take(k + 1)) == retained_tables(cat@.take(k)));
            }
            ti = ti + 1;
            continue;
        }
        proof {
            assert(t@.name != bookkeeping_name());
            assert(retained_tables(cat@.take(k + 1)) == retained_tables(cat@.take(k)).push(t@));
        }
        let fields = match build_fields(t) {
            Ok(fields) => fields,
            Err(e) => {
                proof {
                    assert(has_table(cat@, t@.name)) by {
                        assert(cat@[k].name == t@.name);
                    }
                    assert(!all_mapped(cat@));
                }
                return Err(e);
            },
        };
        let relations = build_relations(cat, t);
        let ghost prev = ents@;
        let e = EntityDefinition {
            table: copy_bytes(&t.name),
            entity_name: to_pascal(&t.name),
            fields,
            relations,
        };
        proof {
            assert(e@ =~= entity_of(cat@, t@));
        }
        ents.push(e);
        ti = ti + 1;
        proof {
            lemma_entity_views_push(prev, e);
            assert(entity_views(ents@) =~= Seq::new(
                retained_tables(cat@.take(k + 1)).len(),
                |i: int| entity_of(cat@, retained_tables(cat@.take(k + 1))[i]),
            ));
        }
    }
    proof {
        assert(cat@.take(cat@.len() as int) =~= cat@);
        assert(entity_views(ents@) =~= entities_of(cat@));
        assert(all_mapped(cat@));
    }
    Ok(ents)
}

// -------------------------------------------------------------------------
// Emission
// -------------------------------------------------------------------------

/// One emitted artifact: the file's name, derived from the table name, and
/// its full contents.  A regeneration replaces the whole output directory
/// with exactly these files, so stale artifacts of removed tables cannot
/// survive.
#[derive(Debug)]
pub struct EntityFile {
    pub filename: Vec<u8>,
    pub content: Vec<u8>,
}

#[verifier::ext_equal]
pub ghost struct EntityFileV {
    pub filename: Seq<u8>,
    pub content: Seq<u8>,
}

impl View for EntityFile {
    type V = EntityFileV;

    open spec fn view(&self) -> EntityFileV {
        EntityFileV { filename: self.filename@, content: self.content@ }
    }
}

/// The views of a sequence's elements, elementwise.
pub open spec fn file_views(s: Seq<EntityFile>) -> Seq<EntityFileV> {
    Seq::new(s.len(), |i: int| s[i]@)
}

/// The rendered name of a semantic field type.
pub open spec fn sem_name(t: SemanticType) -> Seq<u8> {
    match t {
        SemanticType::Uuid => "Uuid".spec_bytes(),
        SemanticType::Text => "String".spec_bytes(),
        SemanticType::DateTime => "DateTime".spec_bytes(),
        SemanticType::Integer => "i64".spec_bytes(),
        SemanticType::Boolean => "bool".spec_bytes(),
        SemanticType::Binary => "Vec<u8>".spec_bytes(),
    }
}

/// A nullable column surfaces as an optional field.
pub open spec fn type_bytes(f: FieldV) -> Seq<u8> {
    if f.nullable {
        "Option<".spec_bytes() + sem_name(f.ty) + ">".spec_bytes()
    } else {
        sem_name(f.ty)
    }
}

pub open spec fn field_line(f: FieldV) -> Seq<u8> {
    "    pub ".spec_bytes() + f.name + ": ".spec_bytes() + type_bytes(f) + ",\n".spec_bytes()
}

pub open spec fn field_lines(fs: Seq<FieldV>) -> Seq<u8>
    decreases fs.len(),
{
    if fs.len() == 0 {
        Seq::empty()
    } else {
        field_lines(fs.drop_last()) + field_line(fs.last())
    }
}

pub open spec fn kind_bytes(k: RelationKind) -> Seq<u8> {
    match k {
        RelationKind::ManyToOne => "many_to_one".spec_bytes(),
        RelationKind::OneToMany => "one_to_many".spec_bytes(),
        RelationKind::OneToOne => "one_to_one".spec_bytes(),
    }
}

pub open spec fn relation_line(r: RelationV) -> Seq<u8> {
    "// relation ".spec_bytes() + kind_bytes(r.kind) + " ".spec_bytes() + r.target
        + " via ".spec_bytes() + r.via_column + "\n".spec_bytes()
}

pub open spec fn relation_lines(rs: Seq<RelationV>) -> Seq<u8>
    decreases rs.len(),
{
    if rs.len() == 0 {
        Seq::empty()
    } else {
        relation_lines(rs.drop_last()) + relation_line(rs.last())
    }
}

/// The full contents of one entity definition file.
pub open spec fn entity_bytes(e: EntityV) -> Seq<u8> {
    "// table ".spec_bytes() + e.table + "\n".spec_bytes() + "pub struct ".spec_bytes()
        + e.entity_name + " {\n".spec_bytes() + field_lines(e.fields) + "}\n".spec_bytes()
        + relation_lines(e.relations)
}

/// The name of the emitted file mirroring a table.
pub open spec fn entity_filename(table: Seq<u8>) -> Seq<u8> {
    table + ".rs".spec_bytes()
}

pub open spec fn file_of(e: EntityV) -> EntityFileV {
    EntityFileV { filename: entity_filename(e.table), content: entity_bytes(e) }
}

/// The whole emitted output for a catalog: one file per retained table, in
/// catalog order.
pub open spec fn files_of(cat: Seq<TableV>) -> Seq<EntityFileV> {
    Seq::new(entities_of(cat).len(), |i: int| file_of(entities_of(cat)[i]))
}

/// The rendered name of a semantic field type.
fn sem_name_str(t: SemanticType) -> (r: &'static str)
    ensures
        r.spec_bytes() == sem_name(t),
{
    match t {
        SemanticType::Uuid => "Uuid",
        SemanticType::Text => "String",
        SemanticType::DateTime => "DateTime",
        SemanticType::Integer => "i64",
        SemanticType::Boolean => "bool",
        SemanticType::Binary => "Vec<u8>",
    }
}

fn kind_str(k: RelationKind) -> (r: &'static str)
    ensures
        r.spec_bytes() == kind_bytes(k),
{
    match k {
        RelationKind::ManyToOne => "many_to_one",
        RelationKind::OneToMany => "one_to_many",
        RelationKind::OneToOne => "one_to_one",
    }
}

/// Renders one field line.
fn emit_field_line(out: &mut Vec<u8>, f: &EntityField)
    ensures
        final(out)@ == old(out)@ + field_line(f@),
{
    push_bytes(out, "    pub ".as_bytes());
    push_bytes(out, f.name.as_slice());
    push_bytes(out, ": ".as_bytes());
    if f.nullable {
        push_bytes(out, "Option<".as_bytes());
        push_bytes(out, sem_name_str(f.ty).as_bytes());
        push_bytes(out, ">".as_bytes());
    } else {
        push_bytes(out, sem_name_str(f.ty).as_bytes());
    }
    push_bytes(out, ",\n".as_bytes());
    proof {
        assert(out@ =~= old(out)@ + field_line(f@));
    }
}

/// Renders one relation line.
fn emit_relation_line(out: &mut Vec<u8>, r: &Relation)
    ensures
        final(out)@ == old(out)@ + relation_line(r@),
{
    push_bytes(out, "// relation ".as_bytes());
    push_bytes(out, kind_str(r.kind).as_bytes());
    push_bytes(out, " ".as_bytes());
    push_bytes(out, r.target.as_slice());
    push_bytes(out, " via ".as_bytes());
    push_bytes(out, r.via_column.as_slice());
    push_bytes(out, "\n".as_bytes());
    proof {
        assert(out@ =~= old(out)@ + relation_line(r@));
    }
}

/// Renders one entity definition file.
pub fn emit_entity(e: &EntityDefinition) -> (out: Vec<u8>)
    ensures
        out@ == entity_bytes(e@),
{
    let mut out: Vec<u8> = Vec::new();
    push_bytes(&mut out, "// table ".as_bytes());
    push_bytes(&mut out, e.table.as_slice());
    push_bytes(&mut out, "\n".as_bytes());
    push_bytes(&mut out, "pub struct ".as_bytes());
    push_bytes(&mut out, e.entity_name.as_slice());
    push_bytes(&mut out, " {\n".as_bytes());
    let ghost head = "// table ".spec_bytes() + e@.table + "\n".spec_bytes()
        + "pub struct ".spec_bytes() + e@.entity_name + " {\n".spec_bytes();
    proof {
        assert(out@ =~= head);
    }
    let ghost fs = field_views(e.fields@);
    let mut i: usize = 0;
    while i < e.fields.len()
        invariant
            i <= e.fields@.len(),
            fs == field_views(e.fields@),
            head == "// table ".spec_bytes() + e@.table + "\n".spec_bytes()
                + "pub struct ".spec_bytes() + e@.entity_name + " {\n".spec_bytes(),
            out@ =~= head + field_lines(fs.take(i as int)),
        decreases e.fields@.len() - i,
    {
        let ghost k = i as int;
        let f = &e.fields[i];
        proof {
            assert(f@ == fs[k]);
            assert(fs.take(k + 1).drop_last() =~= fs.take(k));
            assert(fs.take(k + 1).last() == fs[k]);
        }
        emit_field_line(&mut out, f);
        i = i + 1;
        proof {
            assert(out@ =~= head + field_lines(fs.take(k)) + field_line(fs[k]));
            assert(out@ =~= head + field_lines(fs.take(k + 1)));
        }
    }
    proof {
        assert(fs.take(fs.len() as int) =~= fs);
    }
    push_bytes(&mut out, "}\n".as_bytes());
    let ghost mid = head + field_lines(fs) + "}\n".spec_bytes();
    proof {
        assert(out@ =~= mid);
    }
    let ghost rs = relation_views(e.relations@);
    let mut i: usize = 0;
    while i < e.relations.len()
        invariant
            i <= e.relations@.len(),
            rs == relation_views(e.relations@),
            mid == head + field_lines(fs) + "}\n".spec_bytes(),
            out@ =~= mid + relation_lines(rs.take(i as int)),
        decreases e.relations@.len() - i,
    {
        let ghost k = i as int;
        let r = &e.relations[i];
        proof {
            assert(r@ == rs[k]);
            assert(rs.take(k + 1).drop_last() =~= rs.take(k));
            assert(rs.take(k + 1).last() == rs[k]);
        }
        emit_relation_line(&mut out, r);
        i = i + 1;
        proof {
            assert(out@ =~= mid + relation_lines(rs.take(k)) + relation_line(rs[k]));
            assert(out@ =~= mid + relation_lines(rs.take(k + 1)));
        }
    }
    proof {
        assert(rs.take(rs.len() as int) =~= rs);
        assert(out@ =~= entity_bytes(e@));
    }
    out
}

/// Renders every entity into its file.
pub fn emit_entities(ents: &Vec<EntityDefinition>) -> (out: Vec<EntityFile>)
    ensures
        file_views(out@) == Seq::new(
            entity_views(ents@).len(),
            |i: int| file_of(entity_views(ents@)[i]),
        ),
{
    let mut out: Vec<EntityFile> = Vec::new();
    let mut i: usize = 0;
    while i < ents.len()
        invariant
            i <= ents@.len(),
            file_views(out@) =~= Seq::new(
                entity_views(ents@).take(i as int).len(),
                |j: int| file_of(entity_views(ents@).take(i as int)[j]),
            ),
        decreases ents@.len() - i,
    {
        let ghost k = i as int;
        let e = &ents[i];
        proof {
            assert(e@ == entity_views(ents@)[k]);
        }
        let mut filename = copy_bytes(&e.table);
        push_bytes(&mut filename, ".rs".as_bytes());
        let content = emit_entity(e);
        let ghost prev = out@;
        let file = EntityFile { filename, content };
        proof {
            assert(file@ =~= file_of(entity_views(ents@)[k]));
        }
        out.push(file);
        i = i + 1;
        proof {
            assert(file_views(out@) =~= file_views(prev).push(file@));
            assert(file_views(out@) =~= Seq::new(
                entity_views(ents@).take(k + 1).len(),
                |j: int| file_of(entity_views(ents@).take(k + 1)[j]),
            ));
        }
    }
    proof {
        assert(entity_views(ents@).take(ents@.len() as int) =~= entity_views(ents@));
        assert(file_views(out@) =~= Seq::new(
            entity_views(ents@).len(),
            |j: int| file_of(entity_views(ents@)[j]),
        ));
    }
    out
}

/// Introspects the catalog into entities and renders their files: one file
/// per table except the bookkeeping table.  Succeeds exactly when every
/// retained column's physical type has a semantic mapping; for a fixed
/// catalog the output is byte-identical across runs.
pub fn generate_entities(cat: &SchemaCatalog) -> (r: Result<Vec<EntityFile>, IntrospectionError>)
    ensures
        r is Ok <==> all_mapped(cat@),
        r is Ok ==> file_views(r->Ok_0@) == files_of(cat@),
        r is Err ==> (r->Err_0 matches IntrospectionError::UnmappedType { table, column }
            && has_table(cat@, table@) && table@ != bookkeeping_name()),
{
    let ents = match build_entities(cat) {
        Ok(ents) => ents,
        Err(e) => {
            return Err(e);
        },
    };
    let files = emit_entities(&ents);
    proof {
        assert(file_views(files@) =~= files_of(cat@));
    }
    Ok(files)
}

// -------------------------------------------------------------------------
// Laws
// -------------------------------------------------------------------------

/// Regeneration is idempotent: the emitted output is a function of the
/// catalog alone, so two runs against equal catalogs produce byte-identical
/// files.
pub proof fn lemma_emission_idempotent(c1: Seq<TableV>, c2: Seq<TableV>)
    requires
        c1 == c2,
    ensures
        files_of(c1) == files_of(c2),
{
}

/// Every retained table of the catalog came from the catalog.
proof fn lemma_retained_membership(cat: Seq<TableV>, k: int)
    requires
        0 <= k < retained_tables(cat).len(),
    ensures
        exists|i: int| 0 <= i < cat.len() && (#[trigger] cat[i]) == retained_tables(cat)[k],
    decreases cat.len(),
{
    let rest = retained_tables(cat.drop_last());
    if k < rest.len() {
        lemma_retained_membership(cat.drop_last(), k);
        let i = choose|i: int|
            0 <= i < cat.drop_last().len() && (#[trigger] cat.drop_last()[i]) == rest[k];
        assert(cat[i] == retained_tables(cat)[k]);
    } else {
        assert(cat[cat.len() - 1] == retained_tables(cat)[k]);
    }
}

/// No retained table is the bookkeeping table.
proof fn lemma_retained_not_bookkeeping(cat: Seq<TableV>, k: int)
    requires
        0 <= k < retained_tables(cat).len(),
    ensures
        retained_tables(cat)[k].name != bookkeeping_name(),
    decreases cat.len(),
{
    let rest = retained_tables(cat.drop_last());
    if k < rest.len() {
        lemma_retained_not_bookkeeping(cat.drop_last(), k);
    }
}

/// Completeness: exactly one entity, and exactly one file, per table of the
/// catalog other than the bookkeeping table, each file named from its table.
pub proof fn lemma_emission_complete(cat: Seq<TableV>)
    ensures
        entities_of(cat).len() == retained_tables(cat).len(),
        files_of(cat).len() == retained_tables(cat).len(),
        forall|i: int|
            0 <= i < retained_tables(cat).len() ==> (#[trigger] entities_of(cat)[i]).table
                == retained_tables(cat)[i].name,
        forall|i: int|
            0 <= i < retained_tables(cat).len() ==> (#[trigger] files_of(cat)[i]).filename
                == entity_filename(retained_tables(cat)[i].name),
{
}

/// Appending a common suffix to two different byte strings keeps them
/// different.
proof fn lemma_append_cancel(a: Seq<u8>, b: Seq<u8>, s: Seq<u8>)
    requires
        a + s == b + s,
    ensures
        a == b,
{
    assert((a + s).len() == a.len() + s.len());
    assert((b + s).len() == b.len() + s.len());
    assert(a.len() == b.len());
    assert forall|i: int| 0 <= i < a.len() implies a[i] == b[i] by {
        assert((a + s)[i] == a[i]);
        assert((b + s)[i] == b[i]);
    }
    assert(a =~= b);
}

/// Removing a table removes its file: regenerating against a catalog that no
/// longer holds a table of the given name emits no file named from it.
pub proof fn lemma_removed_table_absent(cat: Seq<TableV>, name: Seq<u8>)
    requires
        !has_table(cat, name),
    ensures
        forall|k: int|
            0 <= k < files_of(cat).len() ==> (#[trigger] files_of(cat)[k]).filename
                != entity_filename(name),
{
    assert forall|k: int|
        0 <= k < files_of(cat).len() implies (#[trigger] files_of(cat)[k]).filename
        != entity_filename(name) by {
        lemma_retained_membership(cat, k);
        let i = choose|i: int| 0 <= i < cat.len() && (#[trigger] cat[i]) == retained_tables(cat)[k];
        assert(cat[i].name != name);
        if files_of(cat)[k].filename == entity_filename(name) {
            lemma_append_cancel(retained_tables(cat)[k].name, name, ".rs".spec_bytes());
        }
    }
}

/// Exclusion: whatever the schema holds, the bookkeeping table never
/// surfaces as an entity.
pub proof fn lemma_bookkeeping_excluded(cat: Seq<TableV>)
    ensures
        forall|k: int|
            0 <= k < entities_of(cat).len() ==> (#[trigger] entities_of(cat)[k]).table
                != bookkeeping_name(),
{
    assert forall|k: int|
        0 <= k < entities_of(cat).len() implies (#[trigger] entities_of(cat)[k]).table
        != bookkeeping_name() by {
        lemma_retained_not_bookkeeping(cat, k);
    }
}

proof fn lemma_inbound_from_contains(u: TableV, fks: Seq<ForeignKeyV>, target: Seq<u8>, k: int)
    requires
        0 <= k < fks.len(),
        fks[k].to_table == target,
    ensures
        inbound_from(u, fks, target).contains(inbound_relation(u, fks[k])),
    decreases fks.len(),
{
    let rest = inbound_from(u, fks.drop_last(), target);
    if k == fks.len() - 1 {
        let s = rest.push(inbound_relation(u, fks.last()));
        assert(s[rest.len() as int] == inbound_relation(u, fks[k]));
    } else {
        assert(fks.drop_last()[k] == fks[k]);
        lemma_inbound_from_contains(u, fks.drop_last(), target, k);
        let i = choose|i: int| 0 <= i < rest.len() && rest[i] == inbound_relation(u, fks[k]);
        if fks.last().to_table == target {
            assert(rest.push(inbound_relation(u, fks.last()))[i] == inbound_relation(u, fks[k]));
        }
    }
}

proof fn lemma_inbound_relations_contains(cat: Seq<TableV>, target: Seq<u8>, ui: int, k: int)
    requires
        0 <= ui < cat.len(),
        0 <= k < cat[ui].foreign_keys.len(),
        cat[ui].foreign_keys[k].to_table == target,
    ensures
        inbound_relations(cat, target).contains(
            inbound_relation(cat[ui], cat[ui].foreign_keys[k]),
        ),
    decreases cat.len(),
{
    let rel = inbound_relation(cat[ui], cat[ui].foreign_keys[k]);
    let left = inbound_relations(cat.drop_last(), target);
    let right = inbound_from(cat.last(), cat.last().foreign_keys, target);
    if ui == cat.len() - 1 {
        lemma_inbound_from_contains(cat[ui], cat[ui].foreign_keys, target, k);
        let i = choose|i: int| 0 <= i < right.len() && right[i] == rel;
        assert((left + right)[left.len() + i] == rel);
    } else {
        assert(cat.drop_last()[ui] == cat[ui]);
        lemma_inbound_relations_contains(cat.drop_last(), target, ui, k);
        let i = choose|i: int| 0 <= i < left.len() && left[i] == rel;
        assert((left + right)[i] == rel);
    }
}

/// A table of the catalog other than the bookkeeping table appears among the
/// retained tables.
proof fn lemma_retained_contains(cat: Seq<TableV>, i: int)
    requires
        0 <= i < cat.len(),
        cat[i].name != bookkeeping_name(),
    ensures
        exists|k: int|
            0 <= k < retained_tables(cat).len() && (#[trigger] retained_tables(cat)[k]) == cat[i],
    decreases cat.len(),
{
    let rest = retained_tables(cat.drop_last());
    if i == cat.len() - 1 {
        assert(retained_tables(cat)[rest.len() as int] == cat[i]);
    } else {
        assert(cat.drop_last()[i] == cat[i]);
        lemma_retained_contains(cat.drop_last(), i);
        let k = choose|k: int| 0 <= k < rest.len() && (#[trigger] rest[k]) == cat[i];
        assert(retained_tables(cat)[k] == cat[i]);
    }
}

/// Relation symmetry: a foreign key from `cat[ai]` to `cat[bi]` puts a
/// many-to-one relation on the owner's entity and a one-to-many relation on
/// the referenced entity — both one-to-one instead when the source column is
/// unique.
pub proof fn lemma_relation_symmetry(cat: Seq<TableV>, ai: int, bi: int, ki: int)
    requires
        0 <= ai < cat.len(),
        0 <= bi < cat.len(),
        0 <= ki < cat[ai].foreign_keys.len(),
        cat[ai].foreign_keys[ki].to_table == cat[bi].name,
        cat[ai].name != bookkeeping_name(),
        cat[bi].name != bookkeeping_name(),
    ensures
        exists|p: int|
            0 <= p < entities_of(cat).len() && (#[trigger] entities_of(cat)[p]).table
                == cat[ai].name && entities_of(cat)[p].relations.contains(
                owned_relation(cat[ai], cat[ai].foreign_keys[ki]),
            ),
        exists|q: int|
            0 <= q < entities_of(cat).len() && (#[trigger] entities_of(cat)[q]).table
                == cat[bi].name && entities_of(cat)[q].relations.contains(
                inbound_relation(cat[ai], cat[ai].foreign_keys[ki]),
            ),
        owned_relation(cat[ai], cat[ai].foreign_keys[ki]).kind == (if source_unique(
            cat[ai],
            cat[ai].foreign_keys[ki],
        ) {
            RelationKind::OneToOne
        } else {
            RelationKind::ManyToOne
        }),
        inbound_relation(cat[ai], cat[ai].foreign_keys[ki]).kind == (if source_unique(
            cat[ai],
            cat[ai].foreign_keys[ki],
        ) {
            RelationKind::OneToOne
        } else {
            RelationKind::OneToMany
        }),
        owned_relation(cat[ai], cat[ai].foreign_keys[ki]).target == cat[bi].name,
        inbound_relation(cat[ai], cat[ai].foreign_keys[ki]).target == cat[ai].name,
{
    let fk = cat[ai].foreign_keys[ki];
    // The owner's entity carries the many-to-one (or one-to-one) relation.
    lemma_retained_contains(cat, ai);
    let p = choose|k: int|
        0 <= k < retained_tables(cat).len() && (#[trigger] retained_tables(cat)[k]) == cat[ai];
    assert(entities_of(cat)[p] == entity_of(cat, cat[ai]));
    let rels_a = relations_of(cat, cat[ai]);
    assert(rels_a[ki] == owned_relation(cat[ai], fk)) by {
        assert(owned_relations(cat[ai])[ki] == owned_relation(cat[ai], fk));
    }
    assert(rels_a.contains(owned_relation(cat[ai], fk)));
    assert(0 <= p < entities_of(cat).len() && entities_of(cat)[p].table == cat[ai].name
        && entities_of(cat)[p].relations.contains(owned_relation(cat[ai], fk)));
    // The referenced entity carries the one-to-many (or one-to-one) relation.
    lemma_retained_contains(cat, bi);
    let q = choose|k: int|
        0 <= k < retained_tables(cat).len() && (#[trigger] retained_tables(cat)[k]) == cat[bi];
    assert(entities_of(cat)[q] == entity_of(cat, cat[bi]));
    let rels_b = relations_of(cat, cat[bi]);
    lemma_inbound_relations_contains(cat, cat[bi].name, ai, ki);
    let inb = inbound_relations(cat, cat[bi].name);
    let i = choose|i: int| 0 <= i < inb.len() && inb[i] == inbound_relation(cat[ai], fk);
    assert(rels_b[owned_relations(cat[bi]).len() + i] == inbound_relation(cat[ai], fk));
    assert(rels_b.contains(inbound_relation(cat[ai], fk)));
    assert(0 <= q < entities_of(cat).len() && entities_of(cat)[q].table == cat[bi].name
        && entities_of(cat)[q].relations.contains(inbound_relation(cat[ai], fk)));
}

} // verus!
