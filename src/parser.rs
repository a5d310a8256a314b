use vstd::prelude::*;

use crate::grammar::{
    alias_list, aliases_at, decimal_at, declaration_at, declarations_from, doc_at, document_at,
    enum_at, enum_body_at, enum_declaration_at, push_note, enum_default_at, enum_item_at, enum_symbols_from, field_annotations, field_at,
    field_rest_at, field_type_at, fields_from, fixed_at, is_namespace_char, is_valid_fullname, keyword_type_at,
    logical_type_at, namespace_at, namespace_run_end, namespace_value_at, opt_default_at, opt_doc_at,
    opt_logical_type_at, order_at, protocol_at, record_annotations, record_at, type_at, union_types,
    PRECISION_MAX, SIZE_MAX,
};
use crate::json::JsonValue;
use crate::lex::{
    is_ident_start, is_text, lit, quoted, skip_spaces, skip_spaces_comment, skip_spaces_comment_keep_doc, text_of,
    uint, var_name, ParseError,
};
use crate::schema::{
    fields_view, lemma_record_view, lemma_union_view, opt_json_view, opt_str_view, opt_strs_view, schemas_view,
    strs_view, FieldOrder, Name, RecordField, Schema, SchemaV, UnionSchema,
};
use crate::value::parse_default;

verus! {

/// A parse result with positions as integers and the value seen through `f`.
pub open spec fn lift<A, B>(r: Result<(usize, A), ParseError>, f: spec_fn(A) -> B) -> Result<(int, B), ParseError> {
    match r {
        Ok((j, v)) => Ok((j as int, f(v))),
        Err(e) => Err(e),
    }
}

pub open spec fn ends_within<A>(r: Result<(usize, A), ParseError>, n: nat) -> bool {
    r matches Ok((j, _)) ==> j <= n
}

/// A quoted dotted name `"a.b.c"` at `i`: its end and content.
fn namespace_value(s: &Vec<char>, i: usize) -> (r: Option<(usize, String)>)
    requires
        i <= s@.len(),
    ensures
        r is Some <==> namespace_value_at(s@, i as int) is Some,
        r matches Some((j, t)) ==> namespace_value_at(s@, i as int) == Some((j as int, t@)) && i + 2 <= j <= s@.len(),
{
    let n = s.len();
    if !(i < n && s[i] == '"') {
        return None;
    }
    let mut j = i + 1;
    while j < n && (('a' <= s[j] && s[j] <= 'z') || ('A' <= s[j] && s[j] <= 'Z') || ('0' <= s[j] && s[j] <= '9')
        || s[j] == '_' || s[j] == '.')
        invariant
            n == s@.len(),
            i < j <= n,
            namespace_run_end(s@, i + 1) == namespace_run_end(s@, j as int),
        decreases n - j,
    {
        j += 1;
    }
    if j < n && s[j] == '"' {
        Some((j + 1, text_of(s, i + 1, j)))
    } else {
        None
    }
}

fn ident_start_char(c: char) -> (r: bool)
    ensures
        r == is_ident_start(c),
{
    ('a' <= c && c <= 'z') || ('A' <= c && c <= 'Z') || c == '_'
}

fn namespace_char(c: char) -> (r: bool)
    ensures
        r == is_namespace_char(c),
{
    ('a' <= c && c <= 'z') || ('A' <= c && c <= 'Z') || ('0' <= c && c <= '9') || c == '_' || c == '.'
}

/// Whether the characters of `s` in `[a, b)` form a full name.
fn fullname_ok(s: &Vec<char>, a: usize, b: usize) -> (r: bool)
    requires
        a <= b <= s@.len(),
    ensures
        r == is_valid_fullname(s@.subrange(a as int, b as int)),
{
    let ghost t = s@.subrange(a as int, b as int);
    if a == b || s[b - 1] == '.' {
        return false;
    }
    let len = b - a;
    let mut m: usize = 0;
    while m < len
        invariant
            a + len == b,
            b <= s@.len(),
            t == s@.subrange(a as int, b as int),
            0 <= m <= len,
            forall|l: int| #![trigger t[l]] 0 <= l < m ==> is_namespace_char(t[l]),
            forall|l: int| #![trigger is_ident_start(t[l])] 0 <= l < m && (l == 0 || t[l - 1] == '.') ==> is_ident_start(t[l]),
        decreases len - m,
    {
        let c = s[a + m];
        assert(t[m as int] == c);
        if !namespace_char(c) {
            return false;
        }
        if m == 0 || s[a + m - 1] == '.' {
            if !ident_start_char(c) {
                return false;
            }
        } else {
            assert(t[m - 1] == s@[a + m - 1]);
        }
        m += 1;
    }
    assert(t[t.len() - 1] == s@[b - 1]);
    true
}

/// `@aliases(["a", "b.c"])` at `i`: its end and the aliases, each checked to be
/// a full name.
pub fn parse_aliases(s: &Vec<char>, i: usize) -> (r: Result<(usize, Vec<String>), ParseError>)
    requires
        i <= s@.len(),
    ensures
        lift(r, |v: Vec<String>| strs_view(v@)) == aliases_at(s@, i as int),
        ends_within(r, s@.len()),
{
    proof {
        reveal_strlit("@aliases([");
        reveal_strlit("])");
    }
    if !lit(s, i, "@aliases([") {
        return Err(ParseError::Syntax);
    }
    let n = s.len();
    let mut pos = skip_spaces(s, i + 10);
    let mut out: Vec<String> = Vec::new();
    assert(strs_view(out@) =~= Seq::empty());
    loop
        invariant
            n == s@.len(),
            i < pos <= n,
            aliases_at(s@, i as int) == alias_list(s@, pos as int, strs_view(out@)),
        decreases n - pos,
    {
        proof {
            reveal_strlit("])");
        }
        let (j, a) = match namespace_value(s, pos) {
            Some(x) => x,
            None => return Err(ParseError::Syntax),
        };
        if !fullname_ok(s, pos + 1, j - 1) {
            return Err(ParseError::Invalid);
        }
        let ghost acc = strs_view(out@);
        let ghost av = a@;
        out.push(a);
        assert(strs_view(out@) =~= acc.push(av));
        let k = skip_spaces(s, j);
        if k < n && s[k] == ',' {
            let nx = skip_spaces(s, k + 1);
            if !(pos < nx) {
                return Err(ParseError::Syntax);
            }
            pos = nx;
        } else if lit(s, k, "])") {
            return Ok((k + 2, out));
        } else {
            return Err(ParseError::Syntax);
        }
    }
}

/// `@order("ascending" | "descending" | "ignore")` at `i`.
pub fn parse_order(s: &Vec<char>, i: usize) -> (r: Result<(usize, FieldOrder), ParseError>)
    requires
        i <= s@.len(),
    ensures
        lift(r, |o: FieldOrder| o) == order_at(s@, i as int),
        ends_within(r, s@.len()),
{
    proof {
        reveal_strlit("@order");
        reveal_strlit("\"ascending\"");
        reveal_strlit("\"descending\"");
        reveal_strlit("\"ignore\"");
    }
    let n = s.len();
    if !lit(s, i, "@order") {
        return Err(ParseError::Syntax);
    }
    let p = skip_spaces(s, i + 6);
    if !(p < n && s[p] == '(') {
        return Err(ParseError::Syntax);
    }
    let q = skip_spaces(s, p + 1);
    let (e, o) = if lit(s, q, "\"ascending\"") {
        (q + 11, FieldOrder::Ascending)
    } else if lit(s, q, "\"descending\"") {
        (q + 12, FieldOrder::Descending)
    } else if lit(s, q, "\"ignore\"") {
        (q + 8, FieldOrder::Ignore)
    } else {
        return Err(ParseError::Syntax);
    };
    let c = skip_spaces(s, e);
    if c < n && s[c] == ')' {
        Ok((c + 1, o))
    } else {
        Err(ParseError::Syntax)
    }
}

/// `@namespace("a.b.c")` at `i`.
pub fn parse_namespace(s: &Vec<char>, i: usize) -> (r: Result<(usize, String), ParseError>)
    requires
        i <= s@.len(),
    ensures
        lift(r, |t: String| t@) == namespace_at(s@, i as int),
        ends_within(r, s@.len()),
{
    proof {
        reveal_strlit("@namespace");
    }
    let n = s.len();
    if !lit(s, i, "@namespace") {
        return Err(ParseError::Syntax);
    }
    let p = skip_spaces(s, i + 10);
    if !(p < n && s[p] == '(') {
        return Err(ParseError::Syntax);
    }
    let q = skip_spaces(s, p + 1);
    match namespace_value(s, q) {
        Some((e, t)) => {
            if !fullname_ok(s, q + 1, e - 1) {
                return Err(ParseError::Invalid);
            }
            let c = skip_spaces(s, e);
            if c < n && s[c] == ')' {
                Ok((c + 1, t))
            } else {
                Err(ParseError::Syntax)
            }
        },
        None => Err(ParseError::Syntax),
    }
}

/// `@logicalType("timestamp-micros" | "time-micros" | "duration")` at `i`.
pub fn parse_logical_type(s: &Vec<char>, i: usize) -> (r: Result<(usize, Schema), ParseError>)
    requires
        i <= s@.len(),
    ensures
        lift(r, |t: Schema| t@) == logical_type_at(s@, i as int),
        ends_within(r, s@.len()),
{
    proof {
        reveal_strlit("@logicalType(");
    }
    let n = s.len();
    if !lit(s, i, "@logicalType(") {
        return Err(ParseError::Syntax);
    }
    match quoted(s, i + 13) {
        Some((e, name)) => {
            let t = if is_text(&name, "timestamp-micros") {
                Schema::TimestampMicros
            } else if is_text(&name, "time-micros") {
                Schema::TimeMicros
            } else if is_text(&name, "duration") {
                Schema::Duration
            } else {
                return Err(ParseError::Unsupported);
            };
            let c = skip_spaces_comment(s, e);
            if c < n && s[c] == ')' {
                Ok((c + 1, t))
            } else {
                Err(ParseError::Syntax)
            }
        },
        None => Err(ParseError::Syntax),
    }
}

/// `/** text */` at `i`: its end and the text, kept verbatim.
pub fn parse_doc(s: &Vec<char>, i: usize) -> (r: Option<(usize, String)>)
    requires
        i <= s@.len(),
    ensures
        r is Some <==> doc_at(s@, i as int) is Some,
        r matches Some((j, t)) ==> doc_at(s@, i as int) == Some((j as int, t@)) && j <= s@.len(),
{
    proof {
        reveal_strlit("/**");
    }
    let n = s.len();
    if !lit(s, i, "/**") {
        return None;
    }
    let mut k = i + 3;
    while n - k >= 2 && !(s[k] == '*' && s[k + 1] == '/')
        invariant
            n == s@.len(),
            i + 3 <= k <= n,
            crate::lex::find_close(s@, i + 3) == crate::lex::find_close(s@, k as int),
        decreases n - k,
    {
        k += 1;
    }
    if n - k >= 2 {
        Some((k + 2, text_of(s, i + 3, k)))
    } else {
        None
    }
}

/// `@order` and `@aliases` before a field name, each at most once, in either
/// order: the position after the last one, the order and the aliases.
pub fn parse_field_annotations(s: &Vec<char>, i: usize) -> (r: Result<
    (usize, Option<FieldOrder>, Option<Vec<String>>),
    ParseError,
>)
    requires
        i <= s@.len(),
    ensures
        match r {
            Ok((j, o, a)) => field_annotations(s@, i as int, None, None) == Ok::<
                (int, Option<FieldOrder>, Option<Seq<Seq<char>>>),
                ParseError,
            >((j as int, o, opt_strs_view(a))) && j <= s@.len(),
            Err(x) => field_annotations(s@, i as int, None, None) == Err::<
                (int, Option<FieldOrder>, Option<Seq<Seq<char>>>),
                ParseError,
            >(x),
        },
{
    let n = s.len();
    let mut pos = i;
    let mut order: Option<FieldOrder> = None;
    let mut aliases: Option<Vec<String>> = None;
    loop
        invariant
            n == s@.len(),
            i <= pos <= n,
            field_annotations(s@, i as int, None, None) == field_annotations(s@, pos as int, order, opt_strs_view(aliases)),
        decreases n - pos,
    {
        let p = skip_spaces_comment(s, pos);
        if lit(s, p, "@order") {
            if order.is_some() {
                return Err(ParseError::Syntax);
            }
            match parse_order(s, p) {
                Ok((e, o)) => {
                    if !(pos < e) {
                        return Err(ParseError::Syntax);
                    }
                    order = Some(o);
                    pos = e;
                },
                Err(x) => return Err(x),
            }
        } else if lit(s, p, "@aliases") {
            if aliases.is_some() {
                return Err(ParseError::Syntax);
            }
            match parse_aliases(s, p) {
                Ok((e, a)) => {
                    if !(pos < e) {
                        return Err(ParseError::Syntax);
                    }
                    aliases = Some(a);
                    pos = e;
                },
                Err(x) => return Err(x),
            }
        } else {
            return Ok((pos, order, aliases));
        }
    }
}

/// `@aliases` and `@namespace` before a record, each at most once, in either
/// order: the position after the last one, the aliases and the namespace.
pub fn parse_record_annotations(s: &Vec<char>, i: usize) -> (r: Result<
    (usize, Option<Vec<String>>, Option<String>),
    ParseError,
>)
    requires
        i <= s@.len(),
    ensures
        match r {
            Ok((j, a, ns)) => record_annotations(s@, i as int, None, None) == Ok::<
                (int, Option<Seq<Seq<char>>>, Option<Seq<char>>),
                ParseError,
            >((j as int, opt_strs_view(a), opt_str_view(ns))) && j <= s@.len(),
            Err(x) => record_annotations(s@, i as int, None, None) == Err::<
                (int, Option<Seq<Seq<char>>>, Option<Seq<char>>),
                ParseError,
            >(x),
        },
{
    let n = s.len();
    let mut pos = i;
    let mut aliases: Option<Vec<String>> = None;
    let mut namespace: Option<String> = None;
    loop
        invariant
            n == s@.len(),
            i <= pos <= n,
            record_annotations(s@, i as int, None, None) == record_annotations(
                s@,
                pos as int,
                opt_strs_view(aliases),
                opt_str_view(namespace),
            ),
        decreases n - pos,
    {
        let p = skip_spaces_comment(s, pos);
        if lit(s, p, "@aliases") {
            if aliases.is_some() {
                return Err(ParseError::Syntax);
            }
            match parse_aliases(s, p) {
                Ok((e, a)) => {
                    if !(pos < e) {
                        return Err(ParseError::Syntax);
                    }
                    aliases = Some(a);
                    pos = e;
                },
                Err(x) => return Err(x),
            }
        } else if lit(s, p, "@namespace") {
            if namespace.is_some() {
                return Err(ParseError::Syntax);
            }
            match parse_namespace(s, p) {
                Ok((e, t)) => {
                    if !(pos < e) {
                        return Err(ParseError::Syntax);
                    }
                    namespace = Some(t);
                    pos = e;
                },
                Err(x) => return Err(x),
            }
        } else {
            return Ok((pos, aliases, namespace));
        }
    }
}

/// The schema that a primitive or logical keyword at `i` names, and its length.
fn keyword_type(s: &Vec<char>, i: usize) -> (r: Option<(usize, Schema)>)
    requires
        i <= s@.len(),
    ensures
        r is Some <==> keyword_type_at(s@, i as int) is Some,
        r matches Some((n, t)) ==> keyword_type_at(s@, i as int) == Some((n as int, t@)) && i + n <= s@.len(),
{
    proof {
        reveal_strlit("null");
        reveal_strlit("boolean");
        reveal_strlit("string");
        reveal_strlit("int");
        reveal_strlit("double");
        reveal_strlit("float");
        reveal_strlit("long");
        reveal_strlit("bytes");
        reveal_strlit("time_ms");
        reveal_strlit("timestamp_ms");
        reveal_strlit("date");
        reveal_strlit("uuid");
    }
    if lit(s, i, "null") {
        Some((4, Schema::Null))
    } else if lit(s, i, "boolean") {
        Some((7, Schema::Boolean))
    } else if lit(s, i, "string") {
        Some((6, Schema::String))
    } else if lit(s, i, "int") {
        Some((3, Schema::Int))
    } else if lit(s, i, "double") {
        Some((6, Schema::Double))
    } else if lit(s, i, "float") {
        Some((5, Schema::Float))
    } else if lit(s, i, "long") {
        Some((4, Schema::Long))
    } else if lit(s, i, "bytes") {
        Some((5, Schema::Bytes))
    } else if lit(s, i, "time_ms") {
        Some((7, Schema::TimeMillis))
    } else if lit(s, i, "timestamp_ms") {
        Some((12, Schema::TimestampMillis))
    } else if lit(s, i, "date") {
        Some((4, Schema::Date))
    } else if lit(s, i, "uuid") {
        Some((4, Schema::Uuid))
    } else {
        None
    }
}

/// `decimal(precision, scale)` at `i`; the precision must be positive.
fn parse_decimal(s: &Vec<char>, i: usize) -> (r: Result<(usize, Schema), ParseError>)
    requires
        i <= s@.len(),
    ensures
        lift(r, |t: Schema| t@) == decimal_at(s@, i as int),
        ends_within(r, s@.len()),
{
    proof {
        reveal_strlit("decimal(");
    }
    let n = s.len();
    if !lit(s, i, "decimal(") {
        return Err(ParseError::Syntax);
    }
    let (a, p) = match uint(s, skip_spaces(s, i + 8), PRECISION_MAX) {
        Some(x) => x,
        None => return Err(ParseError::Syntax),
    };
    let c = skip_spaces(s, a);
    if !(c < n && s[c] == ',') {
        return Err(ParseError::Syntax);
    }
    let (b, q) = match uint(s, skip_spaces(s, c + 1), PRECISION_MAX) {
        Some(x) => x,
        None => return Err(ParseError::Syntax),
    };
    let d = skip_spaces(s, b);
    if !(d < n && s[d] == ')') {
        return Err(ParseError::Syntax);
    }
    if p == 0 {
        return Err(ParseError::Invalid);
    }
    assert(Schema::Bytes@ == SchemaV::Bytes);
    Ok((d + 1, Schema::Decimal { precision: p as usize, scale: q as usize, inner: Box::new(Schema::Bytes) }))
}

/// Resolves the type expression at `i` to a schema: `array<T>`,
/// `union { T, ... }`, a primitive or logical keyword, or `decimal(p, s)`.
pub fn map_type_to_schema(s: &Vec<char>, i: usize) -> (r: Result<(usize, Schema), ParseError>)
    requires
        i <= s@.len(),
    ensures
        lift(r, |t: Schema| t@) == type_at(s@, i as int),
        ends_within(r, s@.len()),
    decreases s@.len() - i, 0int,
{
    proof {
        reveal_strlit("array<");
        reveal_strlit("union");
    }
    let n = s.len();
    if lit(s, i, "array<") {
        match map_type_to_schema(s, i + 6) {
            Ok((j, t)) => {
                if j < n && s[j] == '>' {
                    Ok((j + 1, Schema::Array(Box::new(t))))
                } else {
                    Err(ParseError::Syntax)
                }
            },
            Err(x) => Err(x),
        }
    } else if lit(s, i, "union") {
        let p = skip_spaces(s, i + 5);
        if !(p < n && s[p] == '{') {
            return Err(ParseError::Syntax);
        }
        let q = skip_spaces(s, p + 1);
        match union_variants(s, q) {
            Ok((j, v)) => {
                match UnionSchema::new(v) {
                    Ok(u) => {
                        proof {
                            lemma_union_view(u);
                        }
                        Ok((skip_spaces(s, j), Schema::Union(u)))
                    },
                    Err(e) => Err(ParseError::Union(e)),
                }
            },
            Err(x) => Err(x),
        }
    } else {
        match keyword_type(s, i) {
            Some((k, t)) => Ok((i + k, t)),
            None => parse_decimal(s, i),
        }
    }
}

/// The variants of a union from `i`: each type, then `,` or `}`.
fn union_variants(s: &Vec<char>, i: usize) -> (r: Result<(usize, Vec<Schema>), ParseError>)
    requires
        i <= s@.len(),
    ensures
        lift(r, |v: Vec<Schema>| schemas_view(v@)) == union_types(s@, i as int, Seq::empty()),
        ends_within(r, s@.len()),
    decreases s@.len() - i, 1int,
{
    let n = s.len();
    let mut out: Vec<Schema> = Vec::new();
    let mut pos = i;
    assert(schemas_view(out@) =~= Seq::empty());
    loop
        invariant
            n == s@.len(),
            i <= pos <= n,
            union_types(s@, i as int, Seq::empty()) == union_types(s@, pos as int, schemas_view(out@)),
        decreases n - pos,
    {
        let ghost acc = schemas_view(out@);
        match map_type_to_schema(s, pos) {
            Err(x) => return Err(x),
            Ok((j, t)) => {
                let ghost tv = t@;
                out.push(t);
                assert(schemas_view(out@) =~= acc.push(tv));
                let k = skip_spaces(s, j);
                if k < n && s[k] == ',' {
                    let nx = skip_spaces(s, k + 1);
                    if !(pos < nx) {
                        return Err(ParseError::Syntax);
                    }
                    pos = nx;
                } else if k < n && s[k] == '}' {
                    return Ok((k + 1, out));
                } else {
                    return Err(ParseError::Syntax);
                }
            },
        }
    }
}

/// The type of a field at `i`: `map<T>`, or a type expression.
fn parse_field_type(s: &Vec<char>, i: usize) -> (r: Result<(usize, Schema), ParseError>)
    requires
        i <= s@.len(),
    ensures
        lift(r, |t: Schema| t@) == field_type_at(s@, i as int),
        ends_within(r, s@.len()),
{
    proof {
        reveal_strlit("map<");
    }
    let n = s.len();
    if lit(s, i, "map<") {
        match map_type_to_schema(s, i + 4) {
            Ok((j, t)) => {
                if j < n && s[j] == '>' {
                    Ok((j + 1, Schema::MapOf(Box::new(t))))
                } else {
                    Err(ParseError::Syntax)
                }
            },
            Err(x) => Err(x),
        }
    } else {
        map_type_to_schema(s, i)
    }
}

pub open spec fn opt_schema_view(o: Option<Schema>) -> Option<SchemaV> {
    match o {
        Some(t) => Some(t@),
        None => None,
    }
}

/// A doc comment at `i`, if one stands there: the position after it and its text.
fn opt_doc(s: &Vec<char>, i: usize) -> (r: Result<(usize, Option<String>), ParseError>)
    requires
        i <= s@.len(),
    ensures
        lift(r, |d: Option<String>| opt_str_view(d)) == opt_doc_at(s@, i as int),
        ends_within(r, s@.len()),
{
    if lit(s, i, "/**") {
        match parse_doc(s, i) {
            Some((e, d)) => Ok((skip_spaces(s, e), Some(d))),
            None => Err(ParseError::Syntax),
        }
    } else {
        Ok((skip_spaces_comment(s, i), None))
    }
}

/// An optional `@logicalType(...)` at `i`.
fn opt_logical_type(s: &Vec<char>, i: usize) -> (r: Result<(usize, Option<Schema>), ParseError>)
    requires
        i <= s@.len(),
    ensures
        lift(r, |o: Option<Schema>| opt_schema_view(o)) == opt_logical_type_at(s@, i as int),
        ends_within(r, s@.len()),
{
    if lit(s, i, "@logicalType") {
        match parse_logical_type(s, i) {
            Ok((e, t)) => Ok((skip_spaces_comment(s, e), Some(t))),
            Err(x) => Err(x),
        }
    } else {
        Ok((i, None))
    }
}

/// An optional `= default` at `i` for a field of schema `t`.
fn opt_default(t: &Schema, s: &Vec<char>, i: usize) -> (r: Result<(usize, Option<JsonValue>), ParseError>)
    requires
        i <= s@.len(),
    ensures
        lift(r, |o: Option<JsonValue>| opt_json_view(o)) == opt_default_at(t@, s@, i as int),
        ends_within(r, s@.len()),
{
    if i < s.len() && s[i] == '=' {
        match parse_default(t, s, skip_spaces_comment(s, i + 1)) {
            Ok((e, v)) => Ok((skip_spaces_comment(s, e), Some(v))),
            Err(x) => Err(x),
        }
    } else {
        Ok((i, None))
    }
}

/// The part of a field after its type: annotations, name, optional default, `;`.
fn field_rest(s: &Vec<char>, i: usize, doc: Option<String>, t: Schema, position: usize) -> (r: Result<
    (usize, RecordField),
    ParseError,
>)
    requires
        i <= s@.len(),
    ensures
        lift(r, |f: RecordField| f@) == field_rest_at(s@, i as int, opt_str_view(doc), t@, position as nat),
        ends_within(r, s@.len()),
{
    let (a, order, aliases) = match parse_field_annotations(s, i) {
        Ok(x) => x,
        Err(x) => return Err(x),
    };
    let n0 = skip_spaces_comment(s, a);
    let (ne, name) = match var_name(s, n0) {
        Some(x) => x,
        None => return Err(ParseError::Syntax),
    };
    let (d, default) = match opt_default(&t, s, skip_spaces_comment(s, ne)) {
        Ok(x) => x,
        Err(x) => return Err(x),
    };
    if !(d < s.len() && s[d] == ';') {
        return Err(ParseError::Syntax);
    }
    let order = match order {
        Some(o) => o,
        None => FieldOrder::Ascending,
    };
    Ok((skip_spaces_comment_keep_doc(s, d + 1), RecordField { name, doc, default, schema: t, order, aliases, position }))
}

/// A record field at `i`: `[/** doc */] [@logicalType(..)] Type [@order(..)]
/// [@aliases(..)] name [= default];`, the default read with the grammar that
/// the field's schema selects.
pub fn parse_record_field(s: &Vec<char>, i: usize, position: usize) -> (r: Result<(usize, RecordField), ParseError>)
    requires
        i <= s@.len(),
    ensures
        lift(r, |f: RecordField| f@) == field_at(s@, i as int, position as nat),
        ends_within(r, s@.len()),
{
    let (p, doc) = match opt_doc(s, skip_spaces(s, i)) {
        Ok(x) => x,
        Err(x) => return Err(x),
    };
    let (q, logical) = match opt_logical_type(s, p) {
        Ok(x) => x,
        Err(x) => return Err(x),
    };
    let (e, t) = match parse_field_type(s, q) {
        Ok(x) => x,
        Err(x) => return Err(x),
    };
    let t = match logical {
        Some(l) => l,
        None => t,
    };
    field_rest(s, e, doc, t, position)
}

/// A record at `i`: `[@aliases(..)] [@namespace(..)] record Name { field* }`.
/// Each field's position is its index.
#[verifier::loop_isolation(false)]
pub fn parse_record(s: &Vec<char>, i: usize) -> (r: Result<(usize, Schema), ParseError>)
    requires
        i <= s@.len(),
    ensures
        lift(r, |t: Schema| t@) == record_at(s@, i as int),
        ends_within(r, s@.len()),
{
    proof {
        reveal_strlit("record");
    }
    let n = s.len();
    let (a, aliases, namespace) = match parse_record_annotations(s, i) {
        Ok(x) => x,
        Err(x) => return Err(x),
    };
    let p = skip_spaces(s, a);
    if !lit(s, p, "record") {
        return Err(ParseError::Syntax);
    }
    let n0 = skip_spaces(s, p + 6);
    let (ne, name) = match var_name(s, n0) {
        Some(x) => x,
        None => return Err(ParseError::Syntax),
    };
    let b = skip_spaces(s, ne);
    if !(b < n && s[b] == '{') {
        return Err(ParseError::Syntax);
    }
    let mut fields: Vec<RecordField> = Vec::new();
    let mut pos = b + 1;
    assert(fields_view(fields@) =~= Seq::empty());
    loop
        invariant
            n == s@.len(),
            b + 1 <= pos <= n,
            fields_from(s@, b + 1, Seq::empty()) == fields_from(s@, pos as int, fields_view(fields@)),
        decreases n - pos,
    {
        let c = skip_spaces_comment(s, pos);
        if c < n && s[c] == '}' {
            let name = Name { name, namespace };
            proof {
                lemma_record_view(name, aliases, None, fields);
            }
            return Ok((c + 1, Schema::Record { name, aliases, doc: None, fields }));
        }
        let ghost acc = fields_view(fields@);
        match parse_record_field(s, pos, fields.len()) {
            Ok((j, f)) => {
                if pos < j {
                    let ghost fv = f@;
                    fields.push(f);
                    assert(fields_view(fields@) =~= acc.push(fv));
                    pos = j;
                } else {
                    return Err(ParseError::Syntax);
                }
            },
            Err(x) => return Err(x),
        }
    }
}

/// An enum symbol at `i` with the whitespace around it: its end and text.
pub fn parse_enum_item(s: &Vec<char>, i: usize) -> (r: Option<(usize, String)>)
    requires
        i <= s@.len(),
    ensures
        r is Some <==> enum_item_at(s@, i as int) is Some,
        r matches Some((j, t)) ==> enum_item_at(s@, i as int) == Some((j as int, t@)) && i < j <= s@.len(),
{
    let p = skip_spaces(s, i);
    match var_name(s, p) {
        Some((e, t)) => Some((skip_spaces(s, e), t)),
        None => None,
    }
}

/// An enum body `{ A, B, ... }` at `i`, with the whitespace around it: the symbols.
#[verifier::loop_isolation(false)]
pub fn parse_enum_symbols(s: &Vec<char>, i: usize) -> (r: Result<(usize, Vec<String>), ParseError>)
    requires
        i <= s@.len(),
    ensures
        lift(r, |v: Vec<String>| strs_view(v@)) == enum_body_at(s@, i as int),
        ends_within(r, s@.len()),
{
    let n = s.len();
    let p = skip_spaces(s, i);
    if !(p < n && s[p] == '{') {
        return Err(ParseError::Syntax);
    }
    let mut out: Vec<String> = Vec::new();
    let mut pos = p + 1;
    assert(strs_view(out@) =~= Seq::empty());
    loop
        invariant
            n == s@.len(),
            p + 1 <= pos <= n,
            enum_symbols_from(s@, p + 1, Seq::empty()) == enum_symbols_from(s@, pos as int, strs_view(out@)),
        decreases n - pos,
    {
        let (k, sym) = match parse_enum_item(s, pos) {
            Some(x) => x,
            None => return Err(ParseError::Syntax),
        };
        let ghost acc = strs_view(out@);
        let ghost sv = sym@;
        out.push(sym);
        assert(strs_view(out@) =~= acc.push(sv));
        if k < n && s[k] == ',' {
            pos = k + 1;
        } else if k < n && s[k] == '}' {
            return Ok((skip_spaces(s, k + 1), out));
        } else {
            return Err(ParseError::Syntax);
        }
    }
}

/// An enum default `= SYMBOL;` at `i`: its end and the symbol.
pub fn parse_enum_default(s: &Vec<char>, i: usize) -> (r: Option<(usize, String)>)
    requires
        i <= s@.len(),
    ensures
        r is Some <==> enum_default_at(s@, i as int) is Some,
        r matches Some((j, t)) ==> enum_default_at(s@, i as int) == Some((j as int, t@)) && j <= s@.len(),
{
    let n = s.len();
    let p = skip_spaces(s, i);
    if !(p < n && s[p] == '=') {
        return None;
    }
    match parse_enum_item(s, p + 1) {
        Some((e, sym)) => {
            if e < n && s[e] == ';' {
                Some((e + 1, sym))
            } else {
                None
            }
        },
        None => None,
    }
}

/// An enum at `i`: `[@aliases(..)] enum Name { SYM, ... } [= SYM;]`, with the
/// default symbol, which the schema does not keep.
pub fn parse_enum_declaration(s: &Vec<char>, i: usize) -> (r: Result<(usize, Schema, Option<String>), ParseError>)
    requires
        i <= s@.len(),
    ensures
        match r {
            Ok((j, t, d)) => enum_declaration_at(s@, i as int) == Ok::<
                (int, SchemaV, Option<Seq<char>>),
                ParseError,
            >((j as int, t@, opt_str_view(d))) && j <= s@.len(),
            Err(x) => enum_declaration_at(s@, i as int) == Err::<(int, SchemaV, Option<Seq<char>>), ParseError>(x),
        },
{
    proof {
        reveal_strlit("enum");
    }
    let _n = s.len();
    let (a, aliases) = if lit(s, i, "@aliases") {
        match parse_aliases(s, i) {
            Ok((e, v)) => (e, Some(v)),
            Err(x) => return Err(x),
        }
    } else {
        (i, None)
    };
    let p = skip_spaces(s, a);
    if !lit(s, p, "enum") {
        return Err(ParseError::Syntax);
    }
    let n0 = skip_spaces(s, p + 4);
    let (ne, name) = match var_name(s, n0) {
        Some(x) => x,
        None => return Err(ParseError::Syntax),
    };
    let (b, symbols) = match parse_enum_symbols(s, skip_spaces(s, ne)) {
        Ok(x) => x,
        Err(x) => return Err(x),
    };
    let (end, default) = match parse_enum_default(s, b) {
        Some((d, sym)) => (d, Some(sym)),
        None => (b, None),
    };
    Ok((end, Schema::Enum { name: Name { name, namespace: None }, aliases, doc: None, symbols }, default))
}

/// An enum at `i`: `[@aliases(..)] enum Name { SYM, ... } [= SYM;]`. A default
/// symbol is read and set aside; [`parse_enum_declaration`] returns it.
pub fn parse_enum(s: &Vec<char>, i: usize) -> (r: Result<(usize, Schema), ParseError>)
    requires
        i <= s@.len(),
    ensures
        lift(r, |t: Schema| t@) == enum_at(s@, i as int),
        ends_within(r, s@.len()),
{
    match parse_enum_declaration(s, i) {
        Ok((j, t, _)) => Ok((j, t)),
        Err(x) => Err(x),
    }
}

/// A fixed type at `i`: `[/** doc */] fixed [@order(..)] [@aliases(..)] Name(size);`,
/// the two annotations in either order. They are read and set aside; the size
/// must be positive.
pub fn parse_fixed(s: &Vec<char>, i: usize) -> (r: Result<(usize, Schema), ParseError>)
    requires
        i <= s@.len(),
    ensures
        lift(r, |t: Schema| t@) == fixed_at(s@, i as int),
        ends_within(r, s@.len()),
{
    proof {
        reveal_strlit("fixed");
    }
    let n = s.len();
    let p0 = skip_spaces(s, i);
    let (p, doc) = if lit(s, p0, "/**") {
        match parse_doc(s, p0) {
            Some((e, d)) => (skip_spaces(s, e), Some(d)),
            None => return Err(ParseError::Syntax),
        }
    } else {
        (p0, None)
    };
    if !lit(s, p, "fixed") {
        return Err(ParseError::Syntax);
    }
    let n0 = match parse_field_annotations(s, p + 5) {
        Ok((q, _, _)) => skip_spaces_comment(s, q),
        Err(x) => return Err(x),
    };
    let (ne, name) = match var_name(s, n0) {
        Some(x) => x,
        None => return Err(ParseError::Syntax),
    };
    if !(ne < n && s[ne] == '(') {
        return Err(ParseError::Syntax);
    }
    let (z, size) = match uint(s, ne + 1, SIZE_MAX) {
        Some(x) => x,
        None => return Err(ParseError::Syntax),
    };
    if !(z < n && s[z] == ')') {
        return Err(ParseError::Syntax);
    }
    let c = skip_spaces(s, z + 1);
    if !(c < n && s[c] == ';') {
        return Err(ParseError::Syntax);
    }
    if size == 0 {
        return Err(ParseError::Invalid);
    }
    Ok((c + 1, Schema::Fixed { name: Name { name, namespace: None }, aliases: None, doc, size: size as usize }))
}

/// An enum default that a declaration read and did not keep.
#[derive(Debug, PartialEq)]
pub struct EnumDefault {
    pub enum_name: String,
    pub symbol: String,
}

pub open spec fn opt_note_view(o: Option<EnumDefault>) -> Option<(Seq<char>, Seq<char>)> {
    match o {
        Some(n) => Some((n.enum_name@, n.symbol@)),
        None => None,
    }
}

pub open spec fn notes_view(v: Seq<EnumDefault>) -> Seq<(Seq<char>, Seq<char>)> {
    Seq::new(v.len(), |k: int| (v[k].enum_name@, v[k].symbol@))
}

/// A top-level declaration at `i`, with comments around it: a record, else an
/// enum, else a fixed type, with the enum default it set aside. Only a syntax
/// error passes on to the next kind. A doc comment before a fixed type is its
/// doc, and the comment skip after a declaration leaves the next one's doc.
pub fn parse_declaration(s: &Vec<char>, i: usize) -> (r: Result<(usize, Schema, Option<EnumDefault>), ParseError>)
    requires
        i <= s@.len(),
    ensures
        match r {
            Ok((j, t, note)) => declaration_at(s@, i as int) == Ok::<
                (int, SchemaV, Option<(Seq<char>, Seq<char>)>),
                ParseError,
            >((j as int, t@, opt_note_view(note))) && j <= s@.len(),
            Err(x) => declaration_at(s@, i as int) == Err::<
                (int, SchemaV, Option<(Seq<char>, Seq<char>)>),
                ParseError,
            >(x),
        },
{
    let p = skip_spaces_comment(s, i);
    let (e, t, note) = match parse_record(s, p) {
        Err(ParseError::Syntax) => match parse_enum_declaration(s, p) {
            Err(ParseError::Syntax) => match parse_fixed(s, skip_spaces_comment_keep_doc(s, i)) {
                Ok((e, t)) => (e, t, None),
                Err(x) => return Err(x),
            },
            Ok((e, t, d)) => {
                let note = match (&t, d) {
                    (Schema::Enum { name, .. }, Some(sym)) => Some(
                        EnumDefault { enum_name: name.name.clone(), symbol: sym },
                    ),
                    _ => None,
                };
                (e, t, note)
            },
            Err(x) => return Err(x),
        },
        Ok((e, t)) => (e, t, None),
        Err(x) => return Err(x),
    };
    Ok((skip_spaces_comment_keep_doc(s, e), t, note))
}

/// A protocol at `i`: `protocol Name { declaration* }`, its declarations in order.
/// The protocol's own name is read and set aside.
#[verifier::loop_isolation(false)]
pub fn parse_protocol(s: &Vec<char>, i: usize) -> (r: Result<(usize, Vec<Schema>, Vec<EnumDefault>), ParseError>)
    requires
        i <= s@.len(),
    ensures
        match r {
            Ok((j, v, notes)) => protocol_at(s@, i as int) == Ok::<
                (int, Seq<SchemaV>, Seq<(Seq<char>, Seq<char>)>),
                ParseError,
            >((j as int, schemas_view(v@), notes_view(notes@))) && j <= s@.len(),
            Err(x) => protocol_at(s@, i as int) == Err::<
                (int, Seq<SchemaV>, Seq<(Seq<char>, Seq<char>)>),
                ParseError,
            >(x),
        },
{
    proof {
        reveal_strlit("protocol");
    }
    let n = s.len();
    let p = skip_spaces(s, i);
    if !lit(s, p, "protocol") {
        return Err(ParseError::Syntax);
    }
    let n0 = skip_spaces(s, p + 8);
    let ne = match var_name(s, n0) {
        Some((e, _)) => e,
        None => return Err(ParseError::Syntax),
    };
    let b = skip_spaces(s, ne);
    if !(b < n && s[b] == '{') {
        return Err(ParseError::Syntax);
    }
    let start = skip_spaces(s, b + 1);
    let mut decls: Vec<Schema> = Vec::new();
    let mut notes: Vec<EnumDefault> = Vec::new();
    let mut pos = start;
    assert(schemas_view(decls@) =~= Seq::empty());
    assert(notes_view(notes@) =~= Seq::empty());
    loop
        invariant
            n == s@.len(),
            start <= pos <= n,
            declarations_from(s@, start as int, Seq::empty(), Seq::empty()) == declarations_from(
                s@,
                pos as int,
                schemas_view(decls@),
                notes_view(notes@),
            ),
        decreases n - pos,
    {
        let c = skip_spaces_comment(s, pos);
        if c < n && s[c] == '}' {
            return Ok((c + 1, decls, notes));
        }
        let ghost acc = schemas_view(decls@);
        let ghost nacc = notes_view(notes@);
        match parse_declaration(s, pos) {
            Ok((j, t, note)) => {
                if pos < j {
                    let ghost tv = t@;
                    let ghost nv = opt_note_view(note);
                    decls.push(t);
                    assert(schemas_view(decls@) =~= acc.push(tv));
                    if let Some(x) = note {
                        notes.push(x);
                    }
                    assert(notes_view(notes@) =~= push_note(nacc, nv));
                    pos = j;
                } else {
                    return Err(ParseError::Syntax);
                }
            },
            Err(x) => return Err(x),
        }
    }
}

/// Parses a document, a protocol or else a single record: the text left
/// after it, its schemas in order, and the enum defaults that were read and
/// not kept. Only a syntax error in the protocol
/// passes on to the record.
pub fn parse(text: &str) -> (r: Result<(String, Vec<Schema>, Vec<EnumDefault>), ParseError>)
    ensures
        match r {
            Ok((rest, v, notes)) => exists|j: int|
                document_at(text@) == Ok::<(int, Seq<SchemaV>, Seq<(Seq<char>, Seq<char>)>), ParseError>(
                    (j, schemas_view(v@), notes_view(notes@)),
                ) && 0 <= j <= text@.len() && rest@ == text@.subrange(j, text@.len() as int),
            Err(x) => document_at(text@) == Err::<(int, Seq<SchemaV>, Seq<(Seq<char>, Seq<char>)>), ParseError>(x),
        },
{
    let s = crate::lex::chars_of(text);
    let n = s.len();
    match parse_protocol(&s, 0) {
        Ok((j, v, notes)) => Ok((text_of(&s, j, n), v, notes)),
        Err(ParseError::Syntax) => match parse_record(&s, skip_spaces_comment(&s, 0)) {
            Ok((e, t)) => {
                let j = skip_spaces_comment(&s, e);
                let ghost tv = t@;
                let mut v: Vec<Schema> = Vec::new();
                v.push(t);
                assert(schemas_view(v@) =~= seq![tv]);
                let notes: Vec<EnumDefault> = Vec::new();
                assert(notes_view(notes@) =~= Seq::empty());
                Ok((text_of(&s, j, n), v, notes))
            },
            Err(x) => Err(x),
        },
        Err(x) => Err(x),
    }
}

} // verus!
