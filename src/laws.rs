use vstd::prelude::*;

use crate::avsc::{canonical, canonical_field, escape_char, escape_prefix, join_canonical_fields, quote, schema_json};
use crate::grammar::{
    aliases_at, field_annotations, field_at, field_rest_at, field_type_at, opt_default_at, opt_doc_at,
    opt_logical_type_at, order_at,
};
use crate::lex::{has_lit, skip_ws, ident_end, is_ident_char, is_valid_name, skip_ws_comment, var_name_end, ParseError};
use crate::schema::{FieldOrder, FieldV, NameV, SchemaV};

verus! {

proof fn lemma_ident_run(s: Seq<char>, i: int, end: int, k: int)
    requires
        0 <= i <= k <= end <= s.len(),
        forall|m: int| i <= m < end ==> is_ident_char(#[trigger] s[m]),
        end == s.len() || !is_ident_char(s[end]),
    ensures
        ident_end(s, k) == end,
    decreases end - k,
{
    if k < end {
        lemma_ident_run(s, i, end, k + 1);
    }
}

/// The name grammar reads every name `[A-Za-z_][A-Za-z0-9_]*` whole, up to
/// the first character that cannot continue it.
pub proof fn lemma_name_accepted(s: Seq<char>, i: int, n: Seq<char>)
    requires
        0 <= i,
        i + n.len() <= s.len(),
        s.subrange(i, i + n.len()) == n,
        is_valid_name(n),
        i + n.len() == s.len() || !is_ident_char(s[i + n.len()]),
    ensures
        var_name_end(s, i) == Some(i + n.len()),
{
    assert forall|m: int| i <= m < i + n.len() implies is_ident_char(#[trigger] s[m]) by {
        assert(s[m] == n[m - i]);
    }
    assert(s[i] == n[0]);
    lemma_ident_run(s, i, i + n.len(), i);
}

/// The name grammar rejects a text that starts with a digit or with any other
/// character that cannot start a name.
pub proof fn lemma_name_rejected(s: Seq<char>, i: int)
    requires
        0 <= i < s.len(),
        !crate::lex::is_ident_start(s[i]),
    ensures
        var_name_end(s, i) is None,
{
}

/// Whether no field annotation starts at `p`.
pub open spec fn no_field_annotation(s: Seq<char>, p: int) -> bool {
    !has_lit(s, p, "@order"@) && !has_lit(s, p, "@aliases"@)
}

proof fn lemma_order_is_not_aliases(s: Seq<char>, p: int)
    requires
        has_lit(s, p, "@order"@) || has_lit(s, p, "@aliases"@),
    ensures
        has_lit(s, p, "@order"@) ==> !has_lit(s, p, "@aliases"@),
{
    reveal_strlit("@order");
    reveal_strlit("@aliases");
    if has_lit(s, p, "@order"@) && has_lit(s, p, "@aliases"@) {
        assert(s.subrange(p, p + 6)[1] == 'o');
        assert(s.subrange(p, p + 8)[1] == 'a');
        assert(s.subrange(p, p + 6)[1] == s[p + 1]);
        assert(s.subrange(p, p + 8)[1] == s[p + 1]);
    }
}

/// `@order(..)` and `@aliases(..)` before a field name yield the same order
/// and aliases whichever of them is written first: `s` holds them as order
/// then aliases from `i`, `t` as aliases then order from `k`.
pub proof fn lemma_field_annotations_any_order(
    s: Seq<char>,
    i: int,
    e1: int,
    e2: int,
    t: Seq<char>,
    k: int,
    f1: int,
    f2: int,
    o: FieldOrder,
    a: Seq<Seq<char>>,
)
    requires
        has_lit(s, skip_ws_comment(s, i), "@order"@),
        order_at(s, skip_ws_comment(s, i)) == Ok::<(int, FieldOrder), ParseError>((e1, o)),
        has_lit(s, skip_ws_comment(s, e1), "@aliases"@),
        aliases_at(s, skip_ws_comment(s, e1)) == Ok::<(int, Seq<Seq<char>>), ParseError>((e2, a)),
        no_field_annotation(s, skip_ws_comment(s, e2)),
        i < e1 < e2 <= s.len(),
        has_lit(t, skip_ws_comment(t, k), "@aliases"@),
        aliases_at(t, skip_ws_comment(t, k)) == Ok::<(int, Seq<Seq<char>>), ParseError>((f1, a)),
        has_lit(t, skip_ws_comment(t, f1), "@order"@),
        order_at(t, skip_ws_comment(t, f1)) == Ok::<(int, FieldOrder), ParseError>((f2, o)),
        no_field_annotation(t, skip_ws_comment(t, f2)),
        k < f1 < f2 <= t.len(),
    ensures
        field_annotations(s, i, None, None) == Ok::<
            (int, Option<FieldOrder>, Option<Seq<Seq<char>>>),
            ParseError,
        >((e2, Some(o), Some(a))),
        field_annotations(t, k, None, None) == Ok::<
            (int, Option<FieldOrder>, Option<Seq<Seq<char>>>),
            ParseError,
        >((f2, Some(o), Some(a))),
{
    lemma_order_is_not_aliases(s, skip_ws_comment(s, i));
    lemma_order_is_not_aliases(s, skip_ws_comment(s, e1));
    lemma_order_is_not_aliases(t, skip_ws_comment(t, k));
    lemma_order_is_not_aliases(t, skip_ws_comment(t, f1));
    assert(field_annotations(s, e2, Some(o), Some(a)) == Ok::<
        (int, Option<FieldOrder>, Option<Seq<Seq<char>>>),
        ParseError,
    >((e2, Some(o), Some(a))));
    assert(field_annotations(s, e1, Some(o), None) == field_annotations(s, e2, Some(o), Some(a)));
    assert(field_annotations(t, f2, Some(o), Some(a)) == Ok::<
        (int, Option<FieldOrder>, Option<Seq<Seq<char>>>),
        ParseError,
    >((f2, Some(o), Some(a))));
    assert(field_annotations(t, f1, None, Some(a)) == field_annotations(t, f2, Some(o), Some(a)));
}

proof fn lemma_canonical_fields_agree(f1: Seq<FieldV>, f2: Seq<FieldV>, n: int)
    requires
        f1.len() == f2.len(),
        0 <= n <= f1.len(),
        forall|m: int| 0 <= m < f1.len() ==> (#[trigger] f1[m]).name == f2[m].name && f1[m].schema == f2[m].schema,
    ensures
        join_canonical_fields(f1, n) == join_canonical_fields(f2, n),
    decreases n,
{
    if n > 0 {
        lemma_canonical_fields_agree(f1, f2, n - 1);
        assert(canonical_field(f1[n - 1]) == canonical_field(f2[n - 1]));
    }
}

/// Two records that differ only in their docs, their aliases and the defaults,
/// orders, docs and aliases of their fields have one canonical form, and so
/// compare equal.
pub proof fn lemma_annotations_ignored(
    name: NameV,
    aliases1: Option<Seq<Seq<char>>>,
    doc1: Option<Seq<char>>,
    fields1: Seq<FieldV>,
    aliases2: Option<Seq<Seq<char>>>,
    doc2: Option<Seq<char>>,
    fields2: Seq<FieldV>,
)
    requires
        fields1.len() == fields2.len(),
        forall|m: int|
            0 <= m < fields1.len() ==> (#[trigger] fields1[m]).name == fields2[m].name && fields1[m].schema
                == fields2[m].schema,
    ensures
        canonical(SchemaV::Record { name, aliases: aliases1, doc: doc1, fields: fields1 }) == canonical(
            SchemaV::Record { name, aliases: aliases2, doc: doc2, fields: fields2 },
        ),
{
    lemma_canonical_fields_agree(fields1, fields2, fields1.len() as int);
}

/// Enums, and fixed types, that differ only in their docs and aliases have
/// one canonical form.
pub proof fn lemma_named_annotations_ignored(
    name: NameV,
    aliases1: Option<Seq<Seq<char>>>,
    doc1: Option<Seq<char>>,
    aliases2: Option<Seq<Seq<char>>>,
    doc2: Option<Seq<char>>,
    symbols: Seq<Seq<char>>,
    size: nat,
)
    ensures
        canonical(SchemaV::Enum { name, aliases: aliases1, doc: doc1, symbols }) == canonical(
            SchemaV::Enum { name, aliases: aliases2, doc: doc2, symbols },
        ),
        canonical(SchemaV::Fixed { name, aliases: aliases1, doc: doc1, size }) == canonical(
            SchemaV::Fixed { name, aliases: aliases2, doc: doc2, size },
        ),
{
}

/// Two texts that share a prefix and then differ at some place within both
/// of what follows are different.
proof fn lemma_differ_after(p: Seq<char>, x: Seq<char>, r1: Seq<char>, y: Seq<char>, r2: Seq<char>, j: int)
    requires
        0 <= j < x.len(),
        j < y.len(),
        x[j] != y[j],
    ensures
        p + x + r1 != p + y + r2,
{
    assert((p + x + r1)[p.len() + j] == x[j]);
    assert((p + y + r2)[p.len() + j] == y[j]);
}

/// The fields of `f` from `m` up to `n`, in canonical form, each after its comma.
pub open spec fn canonical_fields_between(f: Seq<FieldV>, m: int, n: int) -> Seq<char>
    decreases n - m,
{
    if n <= m || n > f.len() {
        Seq::empty()
    } else {
        canonical_fields_between(f, m, n - 1) + (if n > 1 {
            seq![',']
        } else {
            Seq::empty()
        }) + canonical_field(f[n - 1])
    }
}

proof fn lemma_join_split(f: Seq<FieldV>, m: int, n: int)
    requires
        0 <= m <= n <= f.len(),
    ensures
        join_canonical_fields(f, n) == join_canonical_fields(f, m) + canonical_fields_between(f, m, n),
    decreases n - m,
{
    if n > m {
        lemma_join_split(f, m, n - 1);
        assert(join_canonical_fields(f, n) =~= join_canonical_fields(f, m) + canonical_fields_between(f, m, n));
    } else {
        assert(join_canonical_fields(f, n) =~= join_canonical_fields(f, m) + Seq::<char>::empty());
    }
}

proof fn lemma_canonical_prefix_agrees(f1: Seq<FieldV>, f2: Seq<FieldV>, n: int)
    requires
        0 <= n <= f1.len(),
        n <= f2.len(),
        forall|m: int|
            0 <= m < n ==> (#[trigger] f1[m]).name == f2[m].name && canonical(f1[m].schema) == canonical(
                f2[m].schema,
            ),
    ensures
        join_canonical_fields(f1, n) == join_canonical_fields(f2, n),
    decreases n,
{
    if n > 0 {
        lemma_canonical_prefix_agrees(f1, f2, n - 1);
        assert(canonical_field(f1[n - 1]) == canonical_field(f2[n - 1]));
    }
}

/// A valid name stands in a JSON string as it is.
proof fn lemma_name_unescaped(n: Seq<char>, k: int)
    requires
        is_valid_name(n),
        0 <= k <= n.len(),
    ensures
        escape_prefix(n, k) == n.subrange(0, k),
    decreases k,
{
    if k > 0 {
        lemma_name_unescaped(n, k - 1);
        let c = n[k - 1];
        assert(is_ident_char(c));
        assert(escape_char(c) == seq![c]);
        assert(n.subrange(0, k) =~= n.subrange(0, k - 1) + seq![c]);
    } else {
        assert(n.subrange(0, 0) =~= Seq::<char>::empty());
    }
}

/// The quoted forms of two different valid names differ at a place within both.
proof fn lemma_quoted_names_differ(n1: Seq<char>, n2: Seq<char>) -> (j: int)
    requires
        is_valid_name(n1),
        is_valid_name(n2),
        n1 != n2,
    ensures
        0 <= j < quote(n1).len(),
        j < quote(n2).len(),
        quote(n1)[j] != quote(n2)[j],
{
    lemma_name_unescaped(n1, n1.len() as int);
    lemma_name_unescaped(n2, n2.len() as int);
    assert(n1.subrange(0, n1.len() as int) =~= n1);
    assert(n2.subrange(0, n2.len() as int) =~= n2);
    let q1 = quote(n1);
    let q2 = quote(n2);
    assert(q1 =~= seq!['"'] + n1 + seq!['"']);
    assert(q2 =~= seq!['"'] + n2 + seq!['"']);
    if exists|m: int| 0 <= m < n1.len() && m < n2.len() && n1[m] != n2[m] {
        let m = choose|m: int| 0 <= m < n1.len() && m < n2.len() && n1[m] != n2[m];
        assert(q1[m + 1] == n1[m]);
        assert(q2[m + 1] == n2[m]);
        m + 1
    } else if n1.len() < n2.len() {
        assert(q1[n1.len() as int + 1] == '"');
        assert(q2[n1.len() as int + 1] == n2[n1.len() as int]);
        assert(is_ident_char(n2[n1.len() as int]));
        n1.len() as int + 1
    } else if n2.len() < n1.len() {
        assert(q2[n2.len() as int + 1] == '"');
        assert(q1[n2.len() as int + 1] == n1[n2.len() as int]);
        assert(is_ident_char(n1[n2.len() as int]));
        n2.len() as int + 1
    } else {
        assert(n1 =~= n2);
        0
    }
}

/// Whether a schema is one of the primitive types.
pub open spec fn is_primitive(t: SchemaV) -> bool {
    t is Null || t is Boolean || t is Int || t is Long || t is Float || t is Double || t is Bytes || t is Str
}

/// The canonical forms of two different primitive types differ at a place within both.
proof fn lemma_primitives_differ(t1: SchemaV, t2: SchemaV) -> (j: int)
    requires
        is_primitive(t1),
        is_primitive(t2),
        t1 != t2,
    ensures
        0 <= j < canonical(t1).len(),
        j < canonical(t2).len(),
        canonical(t1)[j] != canonical(t2)[j],
{
    reveal_strlit("\"null\"");
    reveal_strlit("\"boolean\"");
    reveal_strlit("\"int\"");
    reveal_strlit("\"long\"");
    reveal_strlit("\"float\"");
    reveal_strlit("\"double\"");
    reveal_strlit("\"bytes\"");
    reveal_strlit("\"string\"");
    assert(canonical(t1) == schema_json(t1));
    assert(canonical(t2) == schema_json(t2));
    if (t1 is Boolean && t2 is Bytes) || (t1 is Bytes && t2 is Boolean) {
        2
    } else {
        1
    }
}

pub open spec fn record_head(name: NameV) -> Seq<char> {
    "{\"name\":"@ + quote(crate::avsc::fullname(name)) + ",\"type\":\"record\",\"fields\":["@
}

pub open spec fn comma_before(k: int) -> Seq<char> {
    if k + 1 > 1 {
        seq![',']
    } else {
        Seq::empty()
    }
}

/// The canonical form of a record around its `k`-th field.
proof fn lemma_record_canonical_around(
    name: NameV,
    aliases: Option<Seq<Seq<char>>>,
    doc: Option<Seq<char>>,
    fields: Seq<FieldV>,
    k: int,
)
    requires
        0 <= k < fields.len(),
    ensures
        canonical(SchemaV::Record { name, aliases, doc, fields }) == (record_head(name) + join_canonical_fields(
            fields,
            k,
        ) + comma_before(k)) + canonical_field(fields[k]) + (canonical_fields_between(
            fields,
            k + 1,
            fields.len() as int,
        ) + "]}"@),
{
    let n = fields.len() as int;
    lemma_join_split(fields, k + 1, n);
    assert(join_canonical_fields(fields, k + 1) == join_canonical_fields(fields, k) + comma_before(k)
        + canonical_field(fields[k]));
    let a = canonical(SchemaV::Record { name, aliases, doc, fields });
    assert(a == record_head(name) + join_canonical_fields(fields, n) + "]}"@);
    assert(a =~= (record_head(name) + join_canonical_fields(fields, k) + comma_before(k)) + canonical_field(
        fields[k],
    ) + (canonical_fields_between(fields, k + 1, n) + "]}"@));
}

/// Two texts `p + c1 + r1` and `p + c2 + r2` differ when the canonical fields
/// `c1` and `c2` differ in name or in primitive type.
proof fn lemma_canonical_fields_differ(
    p: Seq<char>,
    f1: FieldV,
    r1: Seq<char>,
    f2: FieldV,
    r2: Seq<char>,
)
    requires
        is_valid_name(f1.name),
        is_valid_name(f2.name),
        f1.name != f2.name || (is_primitive(f1.schema) && is_primitive(f2.schema) && f1.schema != f2.schema),
    ensures
        p + canonical_field(f1) + r1 != p + canonical_field(f2) + r2,
{
    if f1.name != f2.name {
        let j = lemma_quoted_names_differ(f1.name, f2.name);
        let q = p + "{\"name\":"@;
        let t1 = ",\"type\":"@ + canonical(f1.schema) + "}"@ + r1;
        let t2 = ",\"type\":"@ + canonical(f2.schema) + "}"@ + r2;
        assert(p + canonical_field(f1) + r1 =~= q + quote(f1.name) + t1);
        assert(p + canonical_field(f2) + r2 =~= q + quote(f2.name) + t2);
        lemma_differ_after(q, quote(f1.name), t1, quote(f2.name), t2, j);
    } else {
        let j = lemma_primitives_differ(f1.schema, f2.schema);
        let q = p + "{\"name\":"@ + quote(f1.name) + ",\"type\":"@;
        let t1 = "}"@ + r1;
        let t2 = "}"@ + r2;
        assert(p + canonical_field(f1) + r1 =~= q + canonical(f1.schema) + t1);
        assert(p + canonical_field(f2) + r2 =~= q + canonical(f2.schema) + t2);
        lemma_differ_after(q, canonical(f1.schema), t1, canonical(f2.schema), t2, j);
    }
}

/// Records with one name whose fields agree, in canonical form, before
/// position `k` compare unequal when their `k`-th fields have different
/// names (as when the order of the fields differs there), or one name and
/// different primitive types.
pub proof fn lemma_field_difference_seen(
    name: NameV,
    aliases1: Option<Seq<Seq<char>>>,
    doc1: Option<Seq<char>>,
    fields1: Seq<FieldV>,
    aliases2: Option<Seq<Seq<char>>>,
    doc2: Option<Seq<char>>,
    fields2: Seq<FieldV>,
    k: int,
)
    requires
        0 <= k < fields1.len(),
        k < fields2.len(),
        forall|m: int|
            0 <= m < k ==> (#[trigger] fields1[m]).name == fields2[m].name && canonical(fields1[m].schema)
                == canonical(fields2[m].schema),
        is_valid_name(fields1[k].name),
        is_valid_name(fields2[k].name),
        fields1[k].name != fields2[k].name || (is_primitive(fields1[k].schema) && is_primitive(fields2[k].schema)
            && fields1[k].schema != fields2[k].schema),
    ensures
        canonical(SchemaV::Record { name, aliases: aliases1, doc: doc1, fields: fields1 }) != canonical(
            SchemaV::Record { name, aliases: aliases2, doc: doc2, fields: fields2 },
        ),
{
    lemma_record_canonical_around(name, aliases1, doc1, fields1, k);
    lemma_record_canonical_around(name, aliases2, doc2, fields2, k);
    lemma_canonical_prefix_agrees(fields1, fields2, k);
    let p = record_head(name) + join_canonical_fields(fields1, k) + comma_before(k);
    assert(p == record_head(name) + join_canonical_fields(fields2, k) + comma_before(k));
    lemma_canonical_fields_differ(
        p,
        fields1[k],
        canonical_fields_between(fields1, k + 1, fields1.len() as int) + "]}"@,
        fields2[k],
        canonical_fields_between(fields2, k + 1, fields2.len() as int) + "]}"@,
    );
}

/// The part of a union field after its type (annotations, name, default and
/// `;`) reads as that of a field whose type is the union's first variant: it
/// succeeds exactly when that one does, at the same end, with the same name,
/// order, aliases and default, and fails with the same error otherwise.
pub proof fn lemma_union_field_reads_first_variant(
    s: Seq<char>,
    i: int,
    doc: Option<Seq<char>>,
    v: Seq<SchemaV>,
    position: nat,
)
    requires
        v.len() > 0,
    ensures
        match (field_rest_at(s, i, doc, SchemaV::Union(v), position), field_rest_at(s, i, doc, v[0], position)) {
            (Ok((j1, f1)), Ok((j2, f2))) => j1 == j2 && f1.name == f2.name && f1.default == f2.default && f1.order
                == f2.order && f1.aliases == f2.aliases && f1.schema == SchemaV::Union(v),
            (Err(e1), Err(e2)) => e1 == e2,
            _ => false,
        },
{
    assert forall|k: int| #[trigger] opt_default_at(SchemaV::Union(v), s, k) == opt_default_at(v[0], s, k) by {
        assert(crate::value::default_at(SchemaV::Union(v), s, crate::lex::skip_ws_comment(s, k + 1))
            == crate::value::default_at(v[0], s, crate::lex::skip_ws_comment(s, k + 1)));
    }
}

/// A union field read from its written text takes its default with the
/// grammar of the union's first variant: once its doc comment, no logical
/// type and its `union { .. }` type are read, the whole field succeeds exactly
/// when a field of the first variant's type would from there, with the same
/// end, name, order, aliases and default, and fails with the same error
/// otherwise.
pub proof fn lemma_union_field_text_reads_first_variant(
    s: Seq<char>,
    i: int,
    position: nat,
    p: int,
    doc: Option<Seq<char>>,
    q: int,
    r: int,
    v: Seq<SchemaV>,
)
    requires
        opt_doc_at(s, skip_ws(s, i)) == Ok::<(int, Option<Seq<char>>), ParseError>((p, doc)),
        opt_logical_type_at(s, p) == Ok::<(int, Option<SchemaV>), ParseError>((q, None)),
        field_type_at(s, q) == Ok::<(int, SchemaV), ParseError>((r, SchemaV::Union(v))),
        v.len() > 0,
    ensures
        match (field_at(s, i, position), field_rest_at(s, r, doc, v[0], position)) {
            (Ok((j1, f1)), Ok((j2, f2))) => j1 == j2 && f1.name == f2.name && f1.default == f2.default && f1.order
                == f2.order && f1.aliases == f2.aliases && f1.schema == SchemaV::Union(v),
            (Err(e1), Err(e2)) => e1 == e2,
            _ => false,
        },
{
    assert(field_at(s, i, position) == field_rest_at(s, r, doc, SchemaV::Union(v), position));
    lemma_union_field_reads_first_variant(s, r, doc, v, position);
}

} // verus!