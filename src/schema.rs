use vstd::prelude::*;

use crate::json::{JsonV, JsonValue};

verus! {

/// Sort order of a record field.
#[derive(Clone, Copy, Debug, PartialEq, Eq, Structural)]
pub enum FieldOrder {
    Ascending,
    Descending,
    Ignore,
}

/// Why a list of schemas cannot form a union.
#[derive(Clone, Copy, Debug, PartialEq, Eq, Structural)]
pub enum UnionError {
    /// The union has no variant.
    Empty,
    /// A variant is itself a union.
    Nested,
    /// Two unnamed variants share a kind.
    Duplicate,
}

/// The tag of a [`Schema`], without its contents.
#[derive(Clone, Copy, Debug, PartialEq, Eq, Structural, Hash, PartialOrd, Ord)]
pub enum SchemaKind {
    Null,
    Boolean,
    Int,
    Long,
    Float,
    Double,
    Bytes,
    String,
    Array,
    MapOf,
    Union,
    Record,
    Enum,
    Fixed,
    Decimal,
    Uuid,
    Date,
    TimeMillis,
    TimeMicros,
    TimestampMillis,
    TimestampMicros,
    Duration,
    Ref,
}

/// The name of a named type, with the namespace it was declared in.
#[derive(Debug, PartialEq)]
pub struct Name {
    pub name: String,
    pub namespace: Option<String>,
}

/// A `field` of a `record` schema.
#[derive(Debug, PartialEq)]
pub struct RecordField {
    pub name: String,
    pub doc: Option<String>,
    /// Default value of the field, shaped by the field's schema.
    pub default: Option<JsonValue>,
    pub schema: Schema,
    pub order: FieldOrder,
    pub aliases: Option<Vec<String>>,
    /// Position of the field in the fields of its record.
    pub position: usize,
}

/// The schema tree. Every recursive variant owns its child schema.
#[derive(Debug)]
pub enum Schema {
    Null,
    Boolean,
    Int,
    Long,
    Float,
    Double,
    Bytes,
    String,
    Array(Box<Schema>),
    MapOf(Box<Schema>),
    Union(UnionSchema),
    Record { name: Name, aliases: Option<Vec<String>>, doc: Option<String>, fields: Vec<RecordField> },
    Enum { name: Name, aliases: Option<Vec<String>>, doc: Option<String>, symbols: Vec<String> },
    Fixed { name: Name, aliases: Option<Vec<String>>, doc: Option<String>, size: usize },
    Decimal { precision: usize, scale: usize, inner: Box<Schema> },
    Uuid,
    Date,
    TimeMillis,
    TimeMicros,
    TimestampMillis,
    TimestampMicros,
    Duration,
    Ref { name: Name },
}

/// The variants of a union: never empty, no nested union, and no two unnamed
/// variants of one kind.
#[derive(Debug)]
pub struct UnionSchema {
    pub(crate) schemas: Vec<Schema>,
}

// ---------------------------------------------------------------------------
// Mathematical model
// ---------------------------------------------------------------------------

pub struct NameV {
    pub name: Seq<char>,
    pub namespace: Option<Seq<char>>,
}

pub struct FieldV {
    pub name: Seq<char>,
    pub doc: Option<Seq<char>>,
    pub default: Option<JsonV>,
    pub schema: SchemaV,
    pub order: FieldOrder,
    pub aliases: Option<Seq<Seq<char>>>,
    pub position: nat,
}

pub enum SchemaV {
    Null,
    Boolean,
    Int,
    Long,
    Float,
    Double,
    Bytes,
    Str,
    Array(Box<SchemaV>),
    MapOf(Box<SchemaV>),
    Union(Seq<SchemaV>),
    Record { name: NameV, aliases: Option<Seq<Seq<char>>>, doc: Option<Seq<char>>, fields: Seq<FieldV> },
    Enum { name: NameV, aliases: Option<Seq<Seq<char>>>, doc: Option<Seq<char>>, symbols: Seq<Seq<char>> },
    Fixed { name: NameV, aliases: Option<Seq<Seq<char>>>, doc: Option<Seq<char>>, size: nat },
    Decimal { precision: nat, scale: nat, inner: Box<SchemaV> },
    Uuid,
    Date,
    TimeMillis,
    TimeMicros,
    TimestampMillis,
    TimestampMicros,
    Duration,
    Ref { name: NameV },
}

pub open spec fn strs_view(v: Seq<String>) -> Seq<Seq<char>> {
    Seq::new(v.len(), |i: int| v[i]@)
}

pub open spec fn opt_str_view(o: Option<String>) -> Option<Seq<char>> {
    match o {
        Some(s) => Some(s@),
        None => None,
    }
}

pub open spec fn opt_strs_view(o: Option<Vec<String>>) -> Option<Seq<Seq<char>>> {
    match o {
        Some(v) => Some(strs_view(v@)),
        None => None,
    }
}

pub open spec fn name_view(n: Name) -> NameV {
    NameV { name: n.name@, namespace: opt_str_view(n.namespace) }
}

pub open spec fn opt_json_view(o: Option<JsonValue>) -> Option<JsonV> {
    match o {
        Some(j) => Some(j@),
        None => None,
    }
}

pub open(crate) spec fn field_view(f: RecordField) -> FieldV
    decreases f,
{
    FieldV {
        name: f.name@,
        doc: opt_str_view(f.doc),
        default: opt_json_view(f.default),
        schema: schema_view(f.schema),
        order: f.order,
        aliases: opt_strs_view(f.aliases),
        position: f.position as nat,
    }
}

pub open(crate) spec fn schema_view(s: Schema) -> SchemaV
    decreases s,
{
    match s {
        Schema::Null => SchemaV::Null,
        Schema::Boolean => SchemaV::Boolean,
        Schema::Int => SchemaV::Int,
        Schema::Long => SchemaV::Long,
        Schema::Float => SchemaV::Float,
        Schema::Double => SchemaV::Double,
        Schema::Bytes => SchemaV::Bytes,
        Schema::String => SchemaV::Str,
        Schema::Array(b) => SchemaV::Array(Box::new(schema_view(*b))),
        Schema::MapOf(b) => SchemaV::MapOf(Box::new(schema_view(*b))),
        Schema::Union(u) => SchemaV::Union(
            Seq::new(
                u.schemas@.len(),
                |i: int|
                    if 0 <= i < u.schemas@.len() {
                        schema_view(u.schemas@[i])
                    } else {
                        SchemaV::Null
                    },
            ),
        ),
        Schema::Record { name, aliases, doc, fields } => SchemaV::Record {
            name: name_view(name),
            aliases: opt_strs_view(aliases),
            doc: opt_str_view(doc),
            fields: Seq::new(
                fields@.len(),
                |i: int|
                    if 0 <= i < fields@.len() {
                        field_view(fields@[i])
                    } else {
                        FieldV {
                            name: Seq::empty(),
                            doc: None,
                            default: None,
                            schema: SchemaV::Null,
                            order: FieldOrder::Ascending,
                            aliases: None,
                            position: 0,
                        }
                    },
            ),
        },
        Schema::Enum { name, aliases, doc, symbols } => SchemaV::Enum {
            name: name_view(name),
            aliases: opt_strs_view(aliases),
            doc: opt_str_view(doc),
            symbols: strs_view(symbols@),
        },
        Schema::Fixed { name, aliases, doc, size } => SchemaV::Fixed {
            name: name_view(name),
            aliases: opt_strs_view(aliases),
            doc: opt_str_view(doc),
            size: size as nat,
        },
        Schema::Decimal { precision, scale, inner } => SchemaV::Decimal {
            precision: precision as nat,
            scale: scale as nat,
            inner: Box::new(schema_view(*inner)),
        },
        Schema::Uuid => SchemaV::Uuid,
        Schema::Date => SchemaV::Date,
        Schema::TimeMillis => SchemaV::TimeMillis,
        Schema::TimeMicros => SchemaV::TimeMicros,
        Schema::TimestampMillis => SchemaV::TimestampMillis,
        Schema::TimestampMicros => SchemaV::TimestampMicros,
        Schema::Duration => SchemaV::Duration,
        Schema::Ref { name } => SchemaV::Ref { name: name_view(name) },
    }
}

impl View for Name {
    type V = NameV;

    open spec fn view(&self) -> NameV {
        name_view(*self)
    }
}

impl View for RecordField {
    type V = FieldV;

    open spec fn view(&self) -> FieldV {
        field_view(*self)
    }
}

impl View for Schema {
    type V = SchemaV;

    open spec fn view(&self) -> SchemaV {
        schema_view(*self)
    }
}

pub open(crate) spec fn union_view(u: UnionSchema) -> Seq<SchemaV> {
    schemas_view(u.schemas@)
}

pub open spec fn schemas_view(v: Seq<Schema>) -> Seq<SchemaV> {
    Seq::new(v.len(), |i: int| v[i]@)
}

impl View for UnionSchema {
    type V = Seq<SchemaV>;

    open spec fn view(&self) -> Seq<SchemaV> {
        union_view(*self)
    }
}

pub open spec fn kind_of(s: SchemaV) -> SchemaKind {
    match s {
        SchemaV::Null => SchemaKind::Null,
        SchemaV::Boolean => SchemaKind::Boolean,
        SchemaV::Int => SchemaKind::Int,
        SchemaV::Long => SchemaKind::Long,
        SchemaV::Float => SchemaKind::Float,
        SchemaV::Double => SchemaKind::Double,
        SchemaV::Bytes => SchemaKind::Bytes,
        SchemaV::Str => SchemaKind::String,
        SchemaV::Array(_) => SchemaKind::Array,
        SchemaV::MapOf(_) => SchemaKind::MapOf,
        SchemaV::Union(_) => SchemaKind::Union,
        SchemaV::Record { .. } => SchemaKind::Record,
        SchemaV::Enum { .. } => SchemaKind::Enum,
        SchemaV::Fixed { .. } => SchemaKind::Fixed,
        SchemaV::Decimal { .. } => SchemaKind::Decimal,
        SchemaV::Uuid => SchemaKind::Uuid,
        SchemaV::Date => SchemaKind::Date,
        SchemaV::TimeMillis => SchemaKind::TimeMillis,
        SchemaV::TimeMicros => SchemaKind::TimeMicros,
        SchemaV::TimestampMillis => SchemaKind::TimestampMillis,
        SchemaV::TimestampMicros => SchemaKind::TimestampMicros,
        SchemaV::Duration => SchemaKind::Duration,
        SchemaV::Ref { .. } => SchemaKind::Ref,
    }
}

/// Named kinds may repeat inside a union; the others may not.
pub open spec fn is_named_kind(k: SchemaKind) -> bool {
    k == SchemaKind::Record || k == SchemaKind::Enum || k == SchemaKind::Fixed
}

/// Whether the variant at `i` repeats the kind of an earlier unnamed variant.
pub open spec fn repeats_kind(v: Seq<SchemaV>, i: int) -> bool {
    !is_named_kind(kind_of(v[i])) && exists|j: int| 0 <= j < i && kind_of(#[trigger] v[j]) == kind_of(v[i])
}

/// Checks the variants from `i` on, in order; the first offending variant
/// decides the error.
pub open spec fn union_check_from(v: Seq<SchemaV>, i: int) -> Result<(), UnionError>
    decreases v.len() - i,
{
    if i < 0 || i >= v.len() {
        Ok(())
    } else if v[i] is Union {
        Err(UnionError::Nested)
    } else if repeats_kind(v, i) {
        Err(UnionError::Duplicate)
    } else {
        union_check_from(v, i + 1)
    }
}

/// The verdict on a list of variants as a union.
pub open spec fn union_verdict(v: Seq<SchemaV>) -> Result<(), UnionError> {
    if v.len() == 0 {
        Err(UnionError::Empty)
    } else {
        union_check_from(v, 0)
    }
}

/// A union schema is seen as the list of its variants.
pub proof fn lemma_union_view(u: UnionSchema)
    ensures
        Schema::Union(u)@ == SchemaV::Union(u@),
{
    let a = schema_view(Schema::Union(u));
    assert(a->Union_0 =~= schemas_view(u.schemas@));
}

pub open spec fn fields_view(v: Seq<RecordField>) -> Seq<FieldV> {
    Seq::new(v.len(), |k: int| v[k]@)
}

/// A record schema is seen through the views of its parts.
pub proof fn lemma_record_view(name: Name, aliases: Option<Vec<String>>, doc: Option<String>, fields: Vec<RecordField>)
    ensures
        (Schema::Record { name, aliases, doc, fields })@ == (SchemaV::Record {
            name: name@,
            aliases: opt_strs_view(aliases),
            doc: opt_str_view(doc),
            fields: fields_view(fields@),
        }),
{
    let a = schema_view(Schema::Record { name, aliases, doc, fields });
    assert(a->Record_fields =~= fields_view(fields@));
}

/// The position of the first field from `k` on whose name is `n`.
pub open spec fn field_search(fields: Seq<FieldV>, n: Seq<char>, k: int) -> Option<int>
    decreases fields.len() - k,
{
    if k < 0 || k >= fields.len() {
        None
    } else if fields[k].name == n {
        Some(k)
    } else {
        field_search(fields, n, k + 1)
    }
}

impl Schema {
    /// The position of the field named `name` in a record; `None` for a name
    /// that no field has, and for a schema that is no record.
    #[verifier::loop_isolation(false)]
    pub fn field_position(&self, name: &str) -> (r: Option<usize>)
        ensures
            match self@ {
                SchemaV::Record { fields, .. } => match field_search(fields, name@, 0) {
                    Some(k) => r matches Some(p) && p as int == k,
                    None => r is None,
                },
                _ => r is None,
            },
    {
        match self {
            Schema::Record { name: rn, aliases, doc, fields } => {
                proof {
                    lemma_record_view(*rn, *aliases, *doc, *fields);
                }
                let ghost fv = fields_view(fields@);
                let mut k: usize = 0;
                while k < fields.len()
                    invariant
                        fv == fields_view(fields@),
                        0 <= k <= fields@.len(),
                        field_search(fv, name@, 0) == field_search(fv, name@, k as int),
                    decreases fields@.len() - k,
                {
                    if crate::lex::is_text(&fields[k].name, name) {
                        assert(fv[k as int].name == name@);
                        return Some(k);
                    }
                    k += 1;
                }
                None
            },
            _ => None,
        }
    }

    /// The kind of this schema.
    pub fn kind(&self) -> (r: SchemaKind)
        ensures
            r == kind_of(self@),
    {
        match self {
            Schema::Null => SchemaKind::Null,
            Schema::Boolean => SchemaKind::Boolean,
            Schema::Int => SchemaKind::Int,
            Schema::Long => SchemaKind::Long,
            Schema::Float => SchemaKind::Float,
            Schema::Double => SchemaKind::Double,
            Schema::Bytes => SchemaKind::Bytes,
            Schema::String => SchemaKind::String,
            Schema::Array(_) => SchemaKind::Array,
            Schema::MapOf(_) => SchemaKind::MapOf,
            Schema::Union(_) => SchemaKind::Union,
            Schema::Record { .. } => SchemaKind::Record,
            Schema::Enum { .. } => SchemaKind::Enum,
            Schema::Fixed { .. } => SchemaKind::Fixed,
            Schema::Decimal { .. } => SchemaKind::Decimal,
            Schema::Uuid => SchemaKind::Uuid,
            Schema::Date => SchemaKind::Date,
            Schema::TimeMillis => SchemaKind::TimeMillis,
            Schema::TimeMicros => SchemaKind::TimeMicros,
            Schema::TimestampMillis => SchemaKind::TimestampMillis,
            Schema::TimestampMicros => SchemaKind::TimestampMicros,
            Schema::Duration => SchemaKind::Duration,
            Schema::Ref { .. } => SchemaKind::Ref,
        }
    }
}

impl UnionSchema {
    /// Builds a union from its variants, or says why they cannot form one.
    pub fn new(schemas: Vec<Schema>) -> (r: Result<UnionSchema, UnionError>)
        ensures
            union_verdict(schemas_view(schemas@)) is Ok <==> r is Ok,
            r matches Ok(u) ==> u@ == schemas_view(schemas@),
            r matches Err(e) ==> union_verdict(schemas_view(schemas@)) == Err::<(), UnionError>(e),
    {
        let ghost v = schemas_view(schemas@);
        let n = schemas.len();
        if n == 0 {
            return Err(UnionError::Empty);
        }
        let mut i: usize = 0;
        while i < n
            invariant
                n == schemas@.len(),
                v == schemas_view(schemas@),
                0 <= i <= n,
                union_check_from(v, 0) == union_check_from(v, i as int),
            decreases n - i,
        {
            let k = schemas[i].kind();
            if k == SchemaKind::Union {
                return Err(UnionError::Nested);
            }
            if !(k == SchemaKind::Record || k == SchemaKind::Enum || k == SchemaKind::Fixed) {
                let mut j: usize = 0;
                while j < i
                    invariant
                        n == schemas@.len(),
                        v == schemas_view(schemas@),
                        0 <= j <= i < n,
                        k == kind_of(v[i as int]),
                        !is_named_kind(k),
                        union_check_from(v, 0) == union_check_from(v, i as int),
                        v[i as int] !is Union,
                        forall|l: int| 0 <= l < j ==> kind_of(#[trigger] v[l]) != k,
                    decreases i - j,
                {
                    if schemas[j].kind() == k {
                        assert(kind_of(v[j as int]) == kind_of(v[i as int]));
                        assert(repeats_kind(v, i as int));
                        return Err(UnionError::Duplicate);
                    }
                    j += 1;
                }
                assert(!repeats_kind(v, i as int));
            }
            i += 1;
        }
        Ok(UnionSchema { schemas })
    }

    /// The variants of this union, in declaration order.
    pub fn variants(&self) -> (r: &[Schema])
        ensures
            schemas_view(r@) == self@,
    {
        self.schemas.as_slice()
    }
}

} // verus!
