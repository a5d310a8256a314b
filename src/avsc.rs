use vstd::prelude::*;

use crate::json::{JsonEntry, JsonV, JsonValue};
use crate::lex::{is_ascii_digit, push_char};
use crate::schema::{
    fields_view, lemma_record_view, lemma_union_view, opt_json_view, opt_str_view, opt_strs_view, schemas_view,
    FieldV, Name, NameV, RecordField, Schema, SchemaV,
};

verus! {

broadcast use vstd::std_specs::vec::axiom_vec_index_decreases;

// ---------------------------------------------------------------------------
// JSON text of plain values
// ---------------------------------------------------------------------------

/// The decimal digits of `n`.
pub open spec fn nat_text(n: nat) -> Seq<char>
    decreases n,
{
    if n < 10 {
        seq!["0123456789"@[n as int]]
    } else {
        nat_text(n / 10) + seq!["0123456789"@[(n % 10) as int]]
    }
}

/// The decimal text of `n`, with a minus sign when it is negative.
pub open spec fn int_text(n: int) -> Seq<char> {
    if n < 0 {
        seq!['-'] + nat_text((-n) as nat)
    } else {
        nat_text(n as nat)
    }
}

/// How one character stands inside a JSON string.
pub open spec fn escape_char(c: char) -> Seq<char> {
    if c == '"' {
        seq!['\\', '"']
    } else if c == '\\' {
        seq!['\\', '\\']
    } else if c == '\n' {
        seq!['\\', 'n']
    } else if c == '\r' {
        seq!['\\', 'r']
    } else if c == '\t' {
        seq!['\\', 't']
    } else if c == '\u{8}' {
        seq!['\\', 'b']
    } else if c == '\u{c}' {
        seq!['\\', 'f']
    } else if (c as int) < 32 {
        seq!['\\', 'u', '0', '0', "0123456789abcdef"@[(c as int) / 16], "0123456789abcdef"@[(c as int) % 16]]
    } else {
        seq![c]
    }
}

/// The escaped form of the first `n` characters of `t`.
pub open spec fn escape_prefix(t: Seq<char>, n: int) -> Seq<char>
    decreases n,
{
    if n <= 0 || n > t.len() {
        Seq::empty()
    } else {
        escape_prefix(t, n - 1) + escape_char(t[n - 1])
    }
}

/// `t` as a JSON string.
pub open spec fn quote(t: Seq<char>) -> Seq<char> {
    seq!['"'] + escape_prefix(t, t.len() as int) + seq!['"']
}

/// The JSON text of the `k`-th character of a float literal: a `0` goes
/// before a leading point and after a point that ends the mantissa; leading
/// zeros of the integer part are dropped.
pub open spec fn float_piece(t: Seq<char>, k: int) -> Seq<char> {
    let c = t[k];
    let leading_zero = c == '0' && k + 1 < t.len() && is_ascii_digit(t[k + 1]) && (forall|j: int|
        0 <= j < k ==> #[trigger] t[j] == '0');
    if leading_zero {
        Seq::empty()
    } else if c == '.' {
        (if k == 0 {
            seq!['0']
        } else {
            Seq::empty()
        }) + seq!['.'] + (if k + 1 == t.len() || t[k + 1] == 'e' {
            seq!['0']
        } else {
            Seq::empty()
        })
    } else {
        seq![c]
    }
}

/// The JSON text of the first `n` characters of a float literal.
pub open spec fn float_prefix(t: Seq<char>, n: int) -> Seq<char>
    decreases n,
{
    if n <= 0 || n > t.len() {
        Seq::empty()
    } else {
        float_prefix(t, n - 1) + float_piece(t, n - 1)
    }
}

/// A float literal as a JSON number of the same value.
pub open spec fn float_json(t: Seq<char>) -> Seq<char> {
    float_prefix(t, t.len() as int)
}

/// `v[0..n]` as JSON texts joined by commas.
pub open spec fn join_strings(v: Seq<Seq<char>>, n: int) -> Seq<char>
    decreases n,
{
    if n <= 0 || n > v.len() {
        Seq::empty()
    } else {
        join_strings(v, n - 1) + (if n > 1 {
            seq![',']
        } else {
            Seq::empty()
        }) + quote(v[n - 1])
    }
}

/// A list of strings as a JSON array.
pub open spec fn string_array(v: Seq<Seq<char>>) -> Seq<char> {
    seq!['['] + join_strings(v, v.len() as int) + seq![']']
}

/// The JSON text of a value.
pub open spec fn json_text(j: JsonV) -> Seq<char>
    decreases j, 0int,
{
    match j {
        JsonV::Null => "null"@,
        JsonV::Bool(b) => if b {
            "true"@
        } else {
            "false"@
        },
        JsonV::Number(n) => int_text(n),
        JsonV::Float(t) => float_json(t),
        JsonV::Double(t) => float_json(t),
        JsonV::Str(t) => quote(t),
        JsonV::Array(v) => seq!['['] + join_values(v, v.len() as int) + seq![']'],
        JsonV::Object(m) => seq!['{'] + join_members(m, m.len() as int) + seq!['}'],
    }
}

/// `v[0..n]` as JSON texts joined by commas.
pub open spec fn join_values(v: Seq<JsonV>, n: int) -> Seq<char>
    decreases v, n,
{
    if n <= 0 || n > v.len() {
        Seq::empty()
    } else {
        join_values(v, n - 1) + (if n > 1 {
            seq![',']
        } else {
            Seq::empty()
        }) + json_text(v[n - 1])
    }
}

/// `m[0..n]` as JSON members `"key":value` joined by commas.
pub open spec fn join_members(m: Seq<(Seq<char>, JsonV)>, n: int) -> Seq<char>
    decreases m, n,
{
    if n <= 0 || n > m.len() {
        Seq::empty()
    } else {
        join_members(m, n - 1) + (if n > 1 {
            seq![',']
        } else {
            Seq::empty()
        }) + quote(m[n - 1].0) + seq![':'] + json_text(m[n - 1].1)
    }
}

// ---------------------------------------------------------------------------
// Writers
// ---------------------------------------------------------------------------

/// Appends the decimal digits of `n`.
pub fn write_nat(n: u64, out: &mut String)
    ensures
        final(out)@ == old(out)@ + nat_text(n as nat),
    decreases n,
{
    if n >= 10 {
        write_nat(n / 10, out);
    }
    let d = (n % 10) as usize;
    proof {
        reveal_strlit("0123456789");
    }
    push_char(out, "0123456789".get_char(d));
}

/// Appends the decimal text of `n`.
pub fn write_int(n: i64, out: &mut String)
    ensures
        final(out)@ == old(out)@ + int_text(n as int),
{
    if n < 0 {
        push_char(out, '-');
        let m: u64 = if n == i64::MIN {
            9223372036854775808u64
        } else {
            (-n) as u64
        };
        write_nat(m, out);
        assert(final(out)@ =~= old(out)@ + int_text(n as int));
    } else {
        write_nat(n as u64, out);
    }
}

/// Appends `t` as a JSON string.
pub fn write_quoted(t: &str, out: &mut String)
    ensures
        final(out)@ == old(out)@ + quote(t@),
{
    proof {
        reveal_strlit("0123456789abcdef");
    }
    let ghost start = out@;
    push_char(out, '"');
    let n = t.unicode_len();
    let mut k: usize = 0;
    while k < n
        invariant
            n == t@.len(),
            0 <= k <= n,
            out@ == start + seq!['"'] + escape_prefix(t@, k as int),
        decreases n - k,
    {
        proof {
            reveal_strlit("0123456789abcdef");
        }
        let c = t.get_char(k);
        let ghost before = out@;
        if c == '"' {
            push_char(out, '\\');
            push_char(out, '"');
        } else if c == '\\' {
            push_char(out, '\\');
            push_char(out, '\\');
        } else if c == '\n' {
            push_char(out, '\\');
            push_char(out, 'n');
        } else if c == '\r' {
            push_char(out, '\\');
            push_char(out, 'r');
        } else if c == '\t' {
            push_char(out, '\\');
            push_char(out, 't');
        } else if c == '\u{8}' {
            push_char(out, '\\');
            push_char(out, 'b');
        } else if c == '\u{c}' {
            push_char(out, '\\');
            push_char(out, 'f');
        } else if (c as u32) < 32 {
            let v = c as u32;
            push_char(out, '\\');
            push_char(out, 'u');
            push_char(out, '0');
            push_char(out, '0');
            push_char(out, "0123456789abcdef".get_char((v / 16) as usize));
            push_char(out, "0123456789abcdef".get_char((v % 16) as usize));
        } else {
            push_char(out, c);
        }
        assert(out@ =~= before + escape_char(t@[k as int]));
        assert(escape_prefix(t@, k + 1) == escape_prefix(t@, k as int) + escape_char(t@[k as int]));
        k += 1;
    }
    push_char(out, '"');
    assert(out@ =~= start + quote(t@));
}

/// Appends a float literal as a JSON number of the same value.
pub fn write_float(t: &str, out: &mut String)
    ensures
        final(out)@ == old(out)@ + float_json(t@),
{
    let ghost start = out@;
    let n = t.unicode_len();
    let mut k: usize = 0;
    let mut zeros_so_far = true;
    while k < n
        invariant
            n == t@.len(),
            0 <= k <= n,
            out@ == start + float_prefix(t@, k as int),
            zeros_so_far == (forall|j: int| 0 <= j < k ==> #[trigger] t@[j] == '0'),
        decreases n - k,
    {
        let c = t.get_char(k);
        let ghost before = out@;
        let next_is_digit = k + 1 < n && {
            let d = t.get_char(k + 1);
            '0' <= d && d <= '9'
        };
        if c == '0' && next_is_digit && zeros_so_far {
        } else if c == '.' {
            if k == 0 {
                push_char(out, '0');
            }
            push_char(out, '.');
            if k + 1 == n || t.get_char(k + 1) == 'e' {
                push_char(out, '0');
            }
        } else {
            push_char(out, c);
        }
        assert(out@ =~= before + float_piece(t@, k as int));
        zeros_so_far = zeros_so_far && c == '0';
        k += 1;
    }
}

/// Appends a list of strings as a JSON array.
pub fn write_string_array(v: &Vec<String>, out: &mut String)
    ensures
        final(out)@ == old(out)@ + string_array(crate::schema::strs_view(v@)),
{
    let ghost sv = crate::schema::strs_view(v@);
    let ghost start = out@;
    push_char(out, '[');
    let mut k: usize = 0;
    while k < v.len()
        invariant
            sv == crate::schema::strs_view(v@),
            0 <= k <= v@.len(),
            out@ == start + seq!['['] + join_strings(sv, k as int),
        decreases v@.len() - k,
    {
        if k > 0 {
            push_char(out, ',');
        }
        write_quoted(v[k].as_str(), out);
        assert(out@ =~= start + seq!['['] + join_strings(sv, k + 1));
        k += 1;
    }
    push_char(out, ']');
    assert(out@ =~= start + string_array(sv));
}

/// Appends the JSON text of a value.
pub fn write_json(j: &JsonValue, out: &mut String)
    ensures
        final(out)@ == old(out)@ + json_text(j@),
    decreases j,
{
    let ghost start = out@;
    match j {
        JsonValue::Null => out.append("null"),
        JsonValue::Bool(b) => if *b {
            out.append("true")
        } else {
            out.append("false")
        },
        JsonValue::Number(n) => write_int(*n, out),
        JsonValue::Float(t) => write_float(t.as_str(), out),
        JsonValue::Double(t) => write_float(t.as_str(), out),
        JsonValue::Str(t) => write_quoted(t.as_str(), out),
        JsonValue::Array(v) => {
            let ghost jv = j@;
            let ghost items = jv->Array_0;
            assert(items.len() == v@.len());
            push_char(out, '[');
            let mut k: usize = 0;
            while k < v.len()
                invariant
                    items == j@->Array_0,
                    jv == j@,
                    *j == JsonValue::Array(*v),
                    items.len() == v@.len(),
                    0 <= k <= v@.len(),
                    out@ == start + seq!['['] + join_values(items, k as int),
                decreases v@.len() - k,
            {
                if k > 0 {
                    push_char(out, ',');
                }
                assert(items[k as int] == v@[k as int]@);
                write_json(&v[k], out);
                assert(out@ =~= start + seq!['['] + join_values(items, k + 1));
                k += 1;
            }
            push_char(out, ']');
            assert(out@ =~= start + json_text(j@));
        },
        JsonValue::Object(m) => {
            let ghost jv = j@;
            let ghost members = jv->Object_0;
            assert(members.len() == m@.len());
            push_char(out, '{');
            let mut k: usize = 0;
            while k < m.len()
                invariant
                    members == j@->Object_0,
                    jv == j@,
                    *j == JsonValue::Object(*m),
                    members.len() == m@.len(),
                    0 <= k <= m@.len(),
                    out@ == start + seq!['{'] + join_members(members, k as int),
                decreases m@.len() - k,
            {
                if k > 0 {
                    push_char(out, ',');
                }
                let e: &JsonEntry = &m[k];
                assert(members[k as int] == (e.key@, e.value@));
                write_quoted(e.key.as_str(), out);
                push_char(out, ':');
                write_json(&e.value, out);
                assert(out@ =~= start + seq!['{'] + join_members(members, k + 1));
                k += 1;
            }
            push_char(out, '}');
            assert(out@ =~= start + json_text(j@));
        },
    }
}

// ---------------------------------------------------------------------------
// Schemas as AVSC documents
// ---------------------------------------------------------------------------

/// The full name of a named type: `namespace.name`, or the bare name.
pub open spec fn fullname(n: NameV) -> Seq<char> {
    match n.namespace {
        Some(ns) => ns + seq!['.'] + n.name,
        None => n.name,
    }
}

pub open spec fn namespace_member(ns: Option<Seq<char>>) -> Seq<char> {
    match ns {
        Some(x) => ",\"namespace\":"@ + quote(x),
        None => Seq::empty(),
    }
}

pub open spec fn doc_member(doc: Option<Seq<char>>) -> Seq<char> {
    match doc {
        Some(x) => ",\"doc\":"@ + quote(x),
        None => Seq::empty(),
    }
}

pub open spec fn aliases_member(aliases: Option<Seq<Seq<char>>>) -> Seq<char> {
    match aliases {
        Some(v) => ",\"aliases\":"@ + string_array(v),
        None => Seq::empty(),
    }
}

pub open spec fn default_member(default: Option<JsonV>) -> Seq<char> {
    match default {
        Some(j) => ",\"default\":"@ + json_text(j),
        None => Seq::empty(),
    }
}

/// The AVSC JSON text of a schema.
pub open spec fn schema_json(t: SchemaV) -> Seq<char>
    decreases t, 0int,
{
    match t {
        SchemaV::Null => "\"null\""@,
        SchemaV::Boolean => "\"boolean\""@,
        SchemaV::Int => "\"int\""@,
        SchemaV::Long => "\"long\""@,
        SchemaV::Float => "\"float\""@,
        SchemaV::Double => "\"double\""@,
        SchemaV::Bytes => "\"bytes\""@,
        SchemaV::Str => "\"string\""@,
        SchemaV::Array(i) => "{\"type\":\"array\",\"items\":"@ + schema_json(*i) + "}"@,
        SchemaV::MapOf(v) => "{\"type\":\"map\",\"values\":"@ + schema_json(*v) + "}"@,
        SchemaV::Union(v) => "["@ + join_schemas(v, v.len() as int) + "]"@,
        SchemaV::Record { name, aliases, doc, fields } => "{\"type\":\"record\",\"name\":"@ + quote(name.name)
            + namespace_member(name.namespace) + doc_member(doc) + aliases_member(aliases) + ",\"fields\":["@
            + join_fields(fields, fields.len() as int) + "]}"@,
        SchemaV::Enum { name, aliases, doc, symbols } => "{\"type\":\"enum\",\"name\":"@ + quote(name.name)
            + namespace_member(name.namespace) + ",\"symbols\":"@ + string_array(symbols) + aliases_member(aliases)
            + "}"@,
        SchemaV::Fixed { name, aliases, doc, size } => "{\"type\":\"fixed\",\"name\":"@ + quote(name.name)
            + namespace_member(name.namespace) + doc_member(doc) + ",\"size\":"@ + nat_text(size) + aliases_member(
            aliases,
        ) + "}"@,
        SchemaV::Decimal { precision, scale, inner } => "{\"type\":"@ + schema_json(*inner)
            + ",\"logicalType\":\"decimal\",\"scale\":"@ + nat_text(scale) + ",\"precision\":"@ + nat_text(precision)
            + "}"@,
        SchemaV::Uuid => "{\"type\":\"string\",\"logicalType\":\"uuid\"}"@,
        SchemaV::Date => "{\"type\":\"int\",\"logicalType\":\"date\"}"@,
        SchemaV::TimeMillis => "{\"type\":\"int\",\"logicalType\":\"time-millis\"}"@,
        SchemaV::TimeMicros => "{\"type\":\"long\",\"logicalType\":\"time-micros\"}"@,
        SchemaV::TimestampMillis => "{\"type\":\"long\",\"logicalType\":\"timestamp-millis\"}"@,
        SchemaV::TimestampMicros => "{\"type\":\"long\",\"logicalType\":\"timestamp-micros\"}"@,
        SchemaV::Duration => "{\"type\":{\"type\":\"fixed\",\"name\":\"duration\",\"size\":12},\"logicalType\":\"duration\"}"@,
        SchemaV::Ref { name } => quote(fullname(name)),
    }
}

/// `v[0..n]` as AVSC texts joined by commas.
pub open spec fn join_schemas(v: Seq<SchemaV>, n: int) -> Seq<char>
    decreases v, n,
{
    if n <= 0 || n > v.len() {
        Seq::empty()
    } else {
        join_schemas(v, n - 1) + (if n > 1 {
            seq![',']
        } else {
            Seq::empty()
        }) + schema_json(v[n - 1])
    }
}

/// The AVSC JSON text of a record field: name, type, then default and aliases
/// where present.
pub open spec fn field_json(f: FieldV) -> Seq<char>
    decreases f, 0int,
{
    "{\"name\":"@ + quote(f.name) + ",\"type\":"@ + schema_json(f.schema) + default_member(f.default)
        + aliases_member(f.aliases) + "}"@
}

/// `v[0..n]` as AVSC field texts joined by commas.
pub open spec fn join_fields(v: Seq<FieldV>, n: int) -> Seq<char>
    decreases v, n,
{
    if n <= 0 || n > v.len() {
        Seq::empty()
    } else {
        join_fields(v, n - 1) + (if n > 1 {
            seq![',']
        } else {
            Seq::empty()
        }) + field_json(v[n - 1])
    }
}

/// The Parsing Canonical Form of a schema: full names, only the attributes
/// `name`, `type`, `fields`, `symbols`, `items`, `values`, `size` in that
/// order, and no docs, aliases, defaults or logical annotations.
pub open spec fn canonical(t: SchemaV) -> Seq<char>
    decreases t, 0int,
{
    match t {
        SchemaV::Array(i) => "{\"type\":\"array\",\"items\":"@ + canonical(*i) + "}"@,
        SchemaV::MapOf(v) => "{\"type\":\"map\",\"values\":"@ + canonical(*v) + "}"@,
        SchemaV::Union(v) => "["@ + join_canonical(v, v.len() as int) + "]"@,
        SchemaV::Record { name, fields, .. } => "{\"name\":"@ + quote(fullname(name))
            + ",\"type\":\"record\",\"fields\":["@ + join_canonical_fields(fields, fields.len() as int) + "]}"@,
        SchemaV::Enum { name, symbols, .. } => "{\"name\":"@ + quote(fullname(name)) + ",\"type\":\"enum\",\"symbols\":"@
            + string_array(symbols) + "}"@,
        SchemaV::Fixed { name, size, .. } => "{\"name\":"@ + quote(fullname(name)) + ",\"type\":\"fixed\",\"size\":"@
            + nat_text(size) + "}"@,
        SchemaV::Decimal { inner, .. } => "{\"type\":"@ + canonical(*inner) + "}"@,
        SchemaV::Uuid => "{\"type\":\"string\"}"@,
        SchemaV::Date | SchemaV::TimeMillis => "{\"type\":\"int\"}"@,
        SchemaV::TimeMicros | SchemaV::TimestampMillis | SchemaV::TimestampMicros => "{\"type\":\"long\"}"@,
        SchemaV::Duration => "{\"type\":{\"name\":\"duration\",\"type\":\"fixed\",\"size\":12}}"@,
        _ => schema_json(t),
    }
}

/// `v[0..n]` in canonical form joined by commas.
pub open spec fn join_canonical(v: Seq<SchemaV>, n: int) -> Seq<char>
    decreases v, n,
{
    if n <= 0 || n > v.len() {
        Seq::empty()
    } else {
        join_canonical(v, n - 1) + (if n > 1 {
            seq![',']
        } else {
            Seq::empty()
        }) + canonical(v[n - 1])
    }
}

/// A record field in canonical form: its name and type.
pub open spec fn canonical_field(f: FieldV) -> Seq<char>
    decreases f, 0int,
{
    "{\"name\":"@ + quote(f.name) + ",\"type\":"@ + canonical(f.schema) + "}"@
}

/// `v[0..n]` as canonical field texts joined by commas.
pub open spec fn join_canonical_fields(v: Seq<FieldV>, n: int) -> Seq<char>
    decreases v, n,
{
    if n <= 0 || n > v.len() {
        Seq::empty()
    } else {
        join_canonical_fields(v, n - 1) + (if n > 1 {
            seq![',']
        } else {
            Seq::empty()
        }) + canonical_field(v[n - 1])
    }
}

fn write_namespace_member(ns: &Option<String>, out: &mut String)
    ensures
        final(out)@ == old(out)@ + namespace_member(opt_str_view(*ns)),
{
    if let Some(x) = ns {
        out.append(",\"namespace\":");
        write_quoted(x.as_str(), out);
    } else {
        assert(old(out)@ + Seq::<char>::empty() =~= old(out)@);
    }
}

fn write_doc_member(doc: &Option<String>, out: &mut String)
    ensures
        final(out)@ == old(out)@ + doc_member(opt_str_view(*doc)),
{
    if let Some(x) = doc {
        out.append(",\"doc\":");
        write_quoted(x.as_str(), out);
    } else {
        assert(old(out)@ + Seq::<char>::empty() =~= old(out)@);
    }
}

fn write_aliases_member(aliases: &Option<Vec<String>>, out: &mut String)
    ensures
        final(out)@ == old(out)@ + aliases_member(opt_strs_view(*aliases)),
{
    if let Some(v) = aliases {
        out.append(",\"aliases\":");
        write_string_array(v, out);
    } else {
        assert(old(out)@ + Seq::<char>::empty() =~= old(out)@);
    }
}

fn write_default_member(default: &Option<JsonValue>, out: &mut String)
    ensures
        final(out)@ == old(out)@ + default_member(opt_json_view(*default)),
{
    if let Some(j) = default {
        out.append(",\"default\":");
        write_json(j, out);
    } else {
        assert(old(out)@ + Seq::<char>::empty() =~= old(out)@);
    }
}

/// Appends the full name of a named type as a JSON string.
fn write_fullname(n: &Name, out: &mut String)
    ensures
        final(out)@ == old(out)@ + quote(fullname(n@)),
{
    match &n.namespace {
        Some(ns) => {
            let mut full = ns.clone();
            push_char(&mut full, '.');
            full.append(n.name.as_str());
            assert(full@ =~= fullname(n@));
            write_quoted(full.as_str(), out);
        },
        None => write_quoted(n.name.as_str(), out),
    }
}

/// Appends the AVSC JSON text of a record field.
pub fn write_field(f: &RecordField, out: &mut String)
    ensures
        final(out)@ == old(out)@ + field_json(f@),
    decreases f, 0int,
{
    let ghost start = out@;
    out.append("{\"name\":");
    write_quoted(f.name.as_str(), out);
    out.append(",\"type\":");
    write_schema(&f.schema, out);
    write_default_member(&f.default, out);
    write_aliases_member(&f.aliases, out);
    out.append("}");
    assert(out@ =~= start + field_json(f@));
}

/// Appends the AVSC JSON text of a schema.
#[verifier::rlimit(60)]
pub fn write_schema(t: &Schema, out: &mut String)
    ensures
        final(out)@ == old(out)@ + schema_json(t@),
    decreases t, 1int,
{
    let ghost start = out@;
    match t {
        Schema::Null => out.append("\"null\""),
        Schema::Boolean => out.append("\"boolean\""),
        Schema::Int => out.append("\"int\""),
        Schema::Long => out.append("\"long\""),
        Schema::Float => out.append("\"float\""),
        Schema::Double => out.append("\"double\""),
        Schema::Bytes => out.append("\"bytes\""),
        Schema::String => out.append("\"string\""),
        Schema::Array(i) => {
            out.append("{\"type\":\"array\",\"items\":");
            write_schema(i, out);
            out.append("}");
            assert(out@ =~= start + schema_json(t@));
        },
        Schema::MapOf(v) => {
            out.append("{\"type\":\"map\",\"values\":");
            write_schema(v, out);
            out.append("}");
            assert(out@ =~= start + schema_json(t@));
        },
        Schema::Union(u) => {
            proof {
                lemma_union_view(*u);
            }
            let ghost items = u@;
            out.append("[");
            let mut k: usize = 0;
            while k < u.schemas.len()
                invariant
                    items == u@,
                    items == schemas_view(u.schemas@),
                    *t == Schema::Union(*u),
                    0 <= k <= u.schemas@.len(),
                    out@ == start + "["@ + join_schemas(items, k as int),
                decreases u.schemas@.len() - k,
            {
                if k > 0 {
                    push_char(out, ',');
                }
                proof {
                    assert(decreases_to!(*t => (*t)->Union_0));
                    assert(decreases_to!(*u => u.schemas));
                    assert(decreases_to!(u.schemas => u.schemas[k as int]));
                    assert(decreases_to!(*t => u.schemas[k as int]));
                }
                write_schema(&u.schemas[k], out);
                assert(out@ =~= start + "["@ + join_schemas(items, k + 1));
                k += 1;
            }
            out.append("]");
            assert(out@ =~= start + schema_json(t@));
        },
        Schema::Record { name, aliases, doc, fields } => {
            proof {
                lemma_record_view(*name, *aliases, *doc, *fields);
            }
            let ghost fv = fields_view(fields@);
            out.append("{\"type\":\"record\",\"name\":");
            write_quoted(name.name.as_str(), out);
            write_namespace_member(&name.namespace, out);
            write_doc_member(doc, out);
            write_aliases_member(aliases, out);
            out.append(",\"fields\":[");
            let ghost mid = out@;
            let mut k: usize = 0;
            while k < fields.len()
                invariant
                    fv == fields_view(fields@),
                    *t == (Schema::Record { name: *name, aliases: *aliases, doc: *doc, fields: *fields }),
                    0 <= k <= fields@.len(),
                    out@ == mid + join_fields(fv, k as int),
                decreases fields@.len() - k,
            {
                if k > 0 {
                    push_char(out, ',');
                }
                proof {
                    assert(decreases_to!(*t => (*t)->Record_fields));
                    assert(decreases_to!(*fields => fields[k as int]));
                    assert(decreases_to!(*t => fields[k as int]));
                }
                write_field(&fields[k], out);
                assert(out@ =~= mid + join_fields(fv, k + 1));
                k += 1;
            }
            out.append("]}");
            assert(out@ =~= start + schema_json(t@));
        },
        Schema::Enum { name, aliases, symbols, .. } => {
            out.append("{\"type\":\"enum\",\"name\":");
            write_quoted(name.name.as_str(), out);
            write_namespace_member(&name.namespace, out);
            out.append(",\"symbols\":");
            write_string_array(symbols, out);
            write_aliases_member(aliases, out);
            out.append("}");
            assert(out@ =~= start + schema_json(t@));
        },
        Schema::Fixed { name, aliases, doc, size } => {
            out.append("{\"type\":\"fixed\",\"name\":");
            write_quoted(name.name.as_str(), out);
            write_namespace_member(&name.namespace, out);
            write_doc_member(doc, out);
            out.append(",\"size\":");
            write_nat(*size as u64, out);
            write_aliases_member(aliases, out);
            out.append("}");
            assert(out@ =~= start + schema_json(t@));
        },
        Schema::Decimal { precision, scale, inner } => {
            out.append("{\"type\":");
            write_schema(inner, out);
            out.append(",\"logicalType\":\"decimal\",\"scale\":");
            write_nat(*scale as u64, out);
            out.append(",\"precision\":");
            write_nat(*precision as u64, out);
            out.append("}");
            assert(out@ =~= start + schema_json(t@));
        },
        Schema::Uuid => out.append("{\"type\":\"string\",\"logicalType\":\"uuid\"}"),
        Schema::Date => out.append("{\"type\":\"int\",\"logicalType\":\"date\"}"),
        Schema::TimeMillis => out.append("{\"type\":\"int\",\"logicalType\":\"time-millis\"}"),
        Schema::TimeMicros => out.append("{\"type\":\"long\",\"logicalType\":\"time-micros\"}"),
        Schema::TimestampMillis => out.append("{\"type\":\"long\",\"logicalType\":\"timestamp-millis\"}"),
        Schema::TimestampMicros => out.append("{\"type\":\"long\",\"logicalType\":\"timestamp-micros\"}"),
        Schema::Duration => out.append(
            "{\"type\":{\"type\":\"fixed\",\"name\":\"duration\",\"size\":12},\"logicalType\":\"duration\"}",
        ),
        Schema::Ref { name } => write_fullname(name, out),
    }
}

/// Appends a record field in canonical form.
fn write_canonical_field(f: &RecordField, out: &mut String)
    ensures
        final(out)@ == old(out)@ + canonical_field(f@),
    decreases f, 0int,
{
    let ghost start = out@;
    out.append("{\"name\":");
    write_quoted(f.name.as_str(), out);
    out.append(",\"type\":");
    write_canonical(&f.schema, out);
    out.append("}");
    assert(out@ =~= start + canonical_field(f@));
}

/// Appends the canonical form of a schema.
#[verifier::rlimit(60)]
pub fn write_canonical(t: &Schema, out: &mut String)
    ensures
        final(out)@ == old(out)@ + canonical(t@),
    decreases t, 1int,
{
    let ghost start = out@;
    match t {
        Schema::Array(i) => {
            out.append("{\"type\":\"array\",\"items\":");
            write_canonical(i, out);
            out.append("}");
            assert(out@ =~= start + canonical(t@));
        },
        Schema::MapOf(v) => {
            out.append("{\"type\":\"map\",\"values\":");
            write_canonical(v, out);
            out.append("}");
            assert(out@ =~= start + canonical(t@));
        },
        Schema::Union(u) => {
            proof {
                lemma_union_view(*u);
            }
            let ghost items = u@;
            out.append("[");
            let mut k: usize = 0;
            while k < u.schemas.len()
                invariant
                    items == u@,
                    items == schemas_view(u.schemas@),
                    *t == Schema::Union(*u),
                    0 <= k <= u.schemas@.len(),
                    out@ == start + "["@ + join_canonical(items, k as int),
                decreases u.schemas@.len() - k,
            {
                if k > 0 {
                    push_char(out, ',');
                }
                proof {
                    assert(decreases_to!(*t => (*t)->Union_0));
                    assert(decreases_to!(*u => u.schemas));
                    assert(decreases_to!(u.schemas => u.schemas[k as int]));
                    assert(decreases_to!(*t => u.schemas[k as int]));
                }
                write_canonical(&u.schemas[k], out);
                assert(out@ =~= start + "["@ + join_canonical(items, k + 1));
                k += 1;
            }
            out.append("]");
            assert(out@ =~= start + canonical(t@));
        },
        Schema::Record { name, aliases, doc, fields } => {
            proof {
                lemma_record_view(*name, *aliases, *doc, *fields);
            }
            let ghost fv = fields_view(fields@);
            out.append("{\"name\":");
            write_fullname(name, out);
            out.append(",\"type\":\"record\",\"fields\":[");
            let ghost mid = out@;
            let mut k: usize = 0;
            while k < fields.len()
                invariant
                    fv == fields_view(fields@),
                    *t == (Schema::Record { name: *name, aliases: *aliases, doc: *doc, fields: *fields }),
                    0 <= k <= fields@.len(),
                    out@ == mid + join_canonical_fields(fv, k as int),
                decreases fields@.len() - k,
            {
                if k > 0 {
                    push_char(out, ',');
                }
                proof {
                    assert(decreases_to!(*t => (*t)->Record_fields));
                    assert(decreases_to!(*fields => fields[k as int]));
                    assert(decreases_to!(*t => fields[k as int]));
                }
                write_canonical_field(&fields[k], out);
                assert(out@ =~= mid + join_canonical_fields(fv, k + 1));
                k += 1;
            }
            out.append("]}");
            assert(out@ =~= start + canonical(t@));
        },
        Schema::Enum { name, symbols, .. } => {
            out.append("{\"name\":");
            write_fullname(name, out);
            out.append(",\"type\":\"enum\",\"symbols\":");
            write_string_array(symbols, out);
            out.append("}");
            assert(out@ =~= start + canonical(t@));
        },
        Schema::Fixed { name, size, .. } => {
            out.append("{\"name\":");
            write_fullname(name, out);
            out.append(",\"type\":\"fixed\",\"size\":");
            write_nat(*size as u64, out);
            out.append("}");
            assert(out@ =~= start + canonical(t@));
        },
        Schema::Decimal { inner, .. } => {
            out.append("{\"type\":");
            write_canonical(inner, out);
            out.append("}");
            assert(out@ =~= start + canonical(t@));
        },
        Schema::Uuid => out.append("{\"type\":\"string\"}"),
        Schema::Date | Schema::TimeMillis => out.append("{\"type\":\"int\"}"),
        Schema::TimeMicros | Schema::TimestampMillis | Schema::TimestampMicros => out.append("{\"type\":\"long\"}"),
        Schema::Duration => out.append("{\"type\":{\"name\":\"duration\",\"type\":\"fixed\",\"size\":12}}"),
        _ => write_schema(t, out),
    }
}

impl Schema {
    /// The AVSC JSON document of this schema, compact.
    pub fn to_json(&self) -> (r: String)
        ensures
            r@ == schema_json(self@),
    {
        let mut out = String::new();
        write_schema(self, &mut out);
        assert(out@ =~= schema_json(self@));
        out
    }

    /// The Parsing Canonical Form of this schema.
    pub fn canonical_form(&self) -> (r: String)
        ensures
            r@ == canonical(self@),
    {
        let mut out = String::new();
        write_canonical(self, &mut out);
        assert(out@ =~= canonical(self@));
        out
    }
}

impl PartialEq for Schema {
    /// Two schemas are equal when their canonical forms are.
    fn eq(&self, other: &Schema) -> (r: bool) {
        self.canonical_form() == other.canonical_form()
    }
}

impl vstd::std_specs::cmp::PartialEqSpecImpl for Schema {
    open spec fn obeys_eq_spec() -> bool {
        true
    }

    open spec fn eq_spec(&self, other: &Schema) -> bool {
        canonical(self@) == canonical(other@)
    }
}

} // verus!
