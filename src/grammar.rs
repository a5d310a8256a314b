use vstd::prelude::*;

use crate::json::JsonV;
use crate::lex::{
    find_close, has_lit, is_ident_char, is_ident_start, quoted_at, skip_ws, skip_ws_comment, skip_ws_comment_keep_doc,
    uint_at, var_name_end,
    ParseError,
};
use crate::schema::{FieldOrder, FieldV, NameV, SchemaV, union_verdict};
use crate::value::default_at;

verus! {

// ---------------------------------------------------------------------------
// Annotations
// ---------------------------------------------------------------------------

pub open spec fn is_namespace_char(c: char) -> bool {
    is_ident_char(c) || c == '.'
}

/// The end of the longest run of name characters and dots from `i`.
pub open spec fn namespace_run_end(s: Seq<char>, i: int) -> int
    decreases s.len() - i,
{
    if 0 <= i < s.len() && is_namespace_char(s[i]) {
        namespace_run_end(s, i + 1)
    } else {
        i
    }
}

/// A quoted dotted name `"a.b.c"` at `i`: its end and content.
pub open spec fn namespace_value_at(s: Seq<char>, i: int) -> Option<(int, Seq<char>)> {
    if 0 <= i < s.len() && s[i] == '"' {
        let j = namespace_run_end(s, i + 1);
        if 0 <= j < s.len() && s[j] == '"' {
            Some((j + 1, s.subrange(i + 1, j)))
        } else {
            None
        }
    } else {
        None
    }
}

/// A full name: dot-separated parts, each of them a valid name.
pub open spec fn is_valid_fullname(a: Seq<char>) -> bool {
    &&& a.len() > 0
    &&& a[a.len() - 1] != '.'
    &&& forall|k: int| 0 <= k < a.len() ==> is_namespace_char(#[trigger] a[k])
    &&& forall|k: int| #![trigger is_ident_start(a[k])] 0 <= k < a.len() && (k == 0 || a[k - 1] == '.') ==> is_ident_start(a[k])
}

/// The rest of an alias list from `i`: each alias, then `,` or `])`.
pub open spec fn alias_list(s: Seq<char>, i: int, acc: Seq<Seq<char>>) -> Result<(int, Seq<Seq<char>>), ParseError>
    decreases s.len() - i,
{
    match namespace_value_at(s, i) {
        None => Err(ParseError::Syntax),
        Some((j, a)) => if !is_valid_fullname(a) {
            Err(ParseError::Invalid)
        } else {
            let k = skip_ws(s, j);
            if 0 <= k < s.len() && s[k] == ',' {
                let n = skip_ws(s, k + 1);
                if i < n <= s.len() {
                    alias_list(s, n, acc.push(a))
                } else {
                    Err(ParseError::Syntax)
                }
            } else if has_lit(s, k, "])"@) {
                Ok((k + 2, acc.push(a)))
            } else {
                Err(ParseError::Syntax)
            }
        },
    }
}

/// `@aliases(["a", "b.c"])` at `i`: its end and the aliases.
pub open spec fn aliases_at(s: Seq<char>, i: int) -> Result<(int, Seq<Seq<char>>), ParseError> {
    if has_lit(s, i, "@aliases(["@) {
        alias_list(s, skip_ws(s, i + 10), Seq::empty())
    } else {
        Err(ParseError::Syntax)
    }
}

/// `@order("ascending" | "descending" | "ignore")` at `i`.
pub open spec fn order_at(s: Seq<char>, i: int) -> Result<(int, FieldOrder), ParseError> {
    if has_lit(s, i, "@order"@) {
        let p = skip_ws(s, i + 6);
        if 0 <= p < s.len() && s[p] == '(' {
            let q = skip_ws(s, p + 1);
            let (e, o) = if has_lit(s, q, "\"ascending\""@) {
                (q + 11, Some(FieldOrder::Ascending))
            } else if has_lit(s, q, "\"descending\""@) {
                (q + 12, Some(FieldOrder::Descending))
            } else if has_lit(s, q, "\"ignore\""@) {
                (q + 8, Some(FieldOrder::Ignore))
            } else {
                (q, None)
            };
            let c = skip_ws(s, e);
            if o is Some && 0 <= c < s.len() && s[c] == ')' {
                Ok((c + 1, o->0))
            } else {
                Err(ParseError::Syntax)
            }
        } else {
            Err(ParseError::Syntax)
        }
    } else {
        Err(ParseError::Syntax)
    }
}

/// `@namespace("a.b.c")` at `i`.
pub open spec fn namespace_at(s: Seq<char>, i: int) -> Result<(int, Seq<char>), ParseError> {
    if has_lit(s, i, "@namespace"@) {
        let p = skip_ws(s, i + 10);
        if 0 <= p < s.len() && s[p] == '(' {
            match namespace_value_at(s, skip_ws(s, p + 1)) {
                Some((e, n)) => if !is_valid_fullname(n) {
                    Err(ParseError::Invalid)
                } else {
                    let c = skip_ws(s, e);
                    if 0 <= c < s.len() && s[c] == ')' {
                        Ok((c + 1, n))
                    } else {
                        Err(ParseError::Syntax)
                    }
                },
                None => Err(ParseError::Syntax),
            }
        } else {
            Err(ParseError::Syntax)
        }
    } else {
        Err(ParseError::Syntax)
    }
}

/// `@logicalType("...")` at `i`: the schema it forces on the field.
pub open spec fn logical_type_at(s: Seq<char>, i: int) -> Result<(int, SchemaV), ParseError> {
    if has_lit(s, i, "@logicalType("@) {
        match quoted_at(s, i + 13) {
            Some((e, name)) => {
                let t = if name == "timestamp-micros"@ {
                    Some(SchemaV::TimestampMicros)
                } else if name == "time-micros"@ {
                    Some(SchemaV::TimeMicros)
                } else if name == "duration"@ {
                    Some(SchemaV::Duration)
                } else {
                    None
                };
                match t {
                    None => Err(ParseError::Unsupported),
                    Some(t) => {
                        let c = skip_ws_comment(s, e);
                        if 0 <= c < s.len() && s[c] == ')' {
                            Ok((c + 1, t))
                        } else {
                            Err(ParseError::Syntax)
                        }
                    },
                }
            },
            None => Err(ParseError::Syntax),
        }
    } else {
        Err(ParseError::Syntax)
    }
}

/// `/** text */` at `i`: its end and the text, kept verbatim.
pub open spec fn doc_at(s: Seq<char>, i: int) -> Option<(int, Seq<char>)> {
    if has_lit(s, i, "/**"@) {
        match find_close(s, i + 3) {
            Some(k) => Some((k + 2, s.subrange(i + 3, k))),
            None => None,
        }
    } else {
        None
    }
}

/// `@order` and `@aliases` before a field name, each at most once and in
/// either order: the end of the last one and what they said.
pub open spec fn field_annotations(s: Seq<char>, i: int, order: Option<FieldOrder>, aliases: Option<Seq<Seq<char>>>) -> Result<
    (int, Option<FieldOrder>, Option<Seq<Seq<char>>>),
    ParseError,
>
    decreases s.len() - i,
{
    let p = skip_ws_comment(s, i);
    if has_lit(s, p, "@order"@) {
        if order is Some {
            Err(ParseError::Syntax)
        } else {
            match order_at(s, p) {
                Ok((e, o)) => if i < e <= s.len() {
                    field_annotations(s, e, Some(o), aliases)
                } else {
                    Err(ParseError::Syntax)
                },
                Err(x) => Err(x),
            }
        }
    } else if has_lit(s, p, "@aliases"@) {
        if aliases is Some {
            Err(ParseError::Syntax)
        } else {
            match aliases_at(s, p) {
                Ok((e, a)) => if i < e <= s.len() {
                    field_annotations(s, e, order, Some(a))
                } else {
                    Err(ParseError::Syntax)
                },
                Err(x) => Err(x),
            }
        }
    } else {
        Ok((i, order, aliases))
    }
}

/// `@aliases` and `@namespace` before a record, each at most once and in
/// either order.
pub open spec fn record_annotations(s: Seq<char>, i: int, aliases: Option<Seq<Seq<char>>>, namespace: Option<Seq<char>>) -> Result<
    (int, Option<Seq<Seq<char>>>, Option<Seq<char>>),
    ParseError,
>
    decreases s.len() - i,
{
    let p = skip_ws_comment(s, i);
    if has_lit(s, p, "@aliases"@) {
        if aliases is Some {
            Err(ParseError::Syntax)
        } else {
            match aliases_at(s, p) {
                Ok((e, a)) => if i < e <= s.len() {
                    record_annotations(s, e, Some(a), namespace)
                } else {
                    Err(ParseError::Syntax)
                },
                Err(x) => Err(x),
            }
        }
    } else if has_lit(s, p, "@namespace"@) {
        if namespace is Some {
            Err(ParseError::Syntax)
        } else {
            match namespace_at(s, p) {
                Ok((e, n)) => if i < e <= s.len() {
                    record_annotations(s, e, aliases, Some(n))
                } else {
                    Err(ParseError::Syntax)
                },
                Err(x) => Err(x),
            }
        }
    } else {
        Ok((i, aliases, namespace))
    }
}

// ---------------------------------------------------------------------------
// Types
// ---------------------------------------------------------------------------

/// The schema that a primitive or logical keyword at `i` names, and its length.
pub open spec fn keyword_type_at(s: Seq<char>, i: int) -> Option<(int, SchemaV)> {
    if has_lit(s, i, "null"@) {
        Some((4, SchemaV::Null))
    } else if has_lit(s, i, "boolean"@) {
        Some((7, SchemaV::Boolean))
    } else if has_lit(s, i, "string"@) {
        Some((6, SchemaV::Str))
    } else if has_lit(s, i, "int"@) {
        Some((3, SchemaV::Int))
    } else if has_lit(s, i, "double"@) {
        Some((6, SchemaV::Double))
    } else if has_lit(s, i, "float"@) {
        Some((5, SchemaV::Float))
    } else if has_lit(s, i, "long"@) {
        Some((4, SchemaV::Long))
    } else if has_lit(s, i, "bytes"@) {
        Some((5, SchemaV::Bytes))
    } else if has_lit(s, i, "time_ms"@) {
        Some((7, SchemaV::TimeMillis))
    } else if has_lit(s, i, "timestamp_ms"@) {
        Some((12, SchemaV::TimestampMillis))
    } else if has_lit(s, i, "date"@) {
        Some((4, SchemaV::Date))
    } else if has_lit(s, i, "uuid"@) {
        Some((4, SchemaV::Uuid))
    } else {
        None
    }
}

pub const PRECISION_MAX: u64 = 2147483647;

/// `decimal(precision, scale)` at `i`.
pub open spec fn decimal_at(s: Seq<char>, i: int) -> Result<(int, SchemaV), ParseError> {
    if has_lit(s, i, "decimal("@) {
        match uint_at(s, skip_ws(s, i + 8), PRECISION_MAX as int) {
            Some((a, p)) => {
                let c = skip_ws(s, a);
                if 0 <= c < s.len() && s[c] == ',' {
                    match uint_at(s, skip_ws(s, c + 1), PRECISION_MAX as int) {
                        Some((b, q)) => {
                            let d = skip_ws(s, b);
                            if 0 <= d < s.len() && s[d] == ')' {
                                if p == 0 {
                                    Err(ParseError::Invalid)
                                } else {
                                    Ok(
                                        (
                                            d + 1,
                                            SchemaV::Decimal {
                                                precision: p as nat,
                                                scale: q as nat,
                                                inner: Box::new(SchemaV::Bytes),
                                            },
                                        ),
                                    )
                                }
                            } else {
                                Err(ParseError::Syntax)
                            }
                        },
                        None => Err(ParseError::Syntax),
                    }
                } else {
                    Err(ParseError::Syntax)
                }
            },
            None => Err(ParseError::Syntax),
        }
    } else {
        Err(ParseError::Syntax)
    }
}

/// The type expression at `i`: `array<T>`, `union { T, ... }`, a primitive or
/// logical keyword, or `decimal(p, s)`.
pub open spec fn type_at(s: Seq<char>, i: int) -> Result<(int, SchemaV), ParseError>
    decreases s.len() - i, 0int,
{
    if i < 0 || i > s.len() {
        Err(ParseError::Syntax)
    } else if has_lit(s, i, "array<"@) && i + 6 <= s.len() {
        match type_at(s, i + 6) {
            Ok((j, t)) => if 0 <= j < s.len() && s[j] == '>' {
                Ok((j + 1, SchemaV::Array(Box::new(t))))
            } else {
                Err(ParseError::Syntax)
            },
            Err(x) => Err(x),
        }
    } else if has_lit(s, i, "union"@) {
        let p = skip_ws(s, i + 5);
        if 0 <= p < s.len() && s[p] == '{' {
            let q = skip_ws(s, p + 1);
            if i < q <= s.len() {
                match union_types(s, q, Seq::empty()) {
                    Ok((j, v)) => match union_verdict(v) {
                        Ok(_) => Ok((skip_ws(s, j), SchemaV::Union(v))),
                        Err(e) => Err(ParseError::Union(e)),
                    },
                    Err(x) => Err(x),
                }
            } else {
                Err(ParseError::Syntax)
            }
        } else {
            Err(ParseError::Syntax)
        }
    } else {
        match keyword_type_at(s, i) {
            Some((n, t)) => Ok((i + n, t)),
            None => decimal_at(s, i),
        }
    }
}

/// The variants of a union from `i`, after `acc`: each type, then `,` or `}`.
pub open spec fn union_types(s: Seq<char>, i: int, acc: Seq<SchemaV>) -> Result<(int, Seq<SchemaV>), ParseError>
    decreases s.len() - i, 1int,
{
    if i < 0 || i > s.len() {
        Err(ParseError::Syntax)
    } else {
        match type_at(s, i) {
            Err(x) => Err(x),
            Ok((j, t)) => {
                let k = skip_ws(s, j);
                if 0 <= k < s.len() && s[k] == ',' {
                    let n = skip_ws(s, k + 1);
                    if i < n <= s.len() {
                        union_types(s, n, acc.push(t))
                    } else {
                        Err(ParseError::Syntax)
                    }
                } else if 0 <= k < s.len() && s[k] == '}' {
                    Ok((k + 1, acc.push(t)))
                } else {
                    Err(ParseError::Syntax)
                }
            },
        }
    }
}

/// The type of a field at `i`: `map<T>`, or a type expression.
pub open spec fn field_type_at(s: Seq<char>, i: int) -> Result<(int, SchemaV), ParseError> {
    if has_lit(s, i, "map<"@) {
        match type_at(s, i + 4) {
            Ok((j, t)) => if 0 <= j < s.len() && s[j] == '>' {
                Ok((j + 1, SchemaV::MapOf(Box::new(t))))
            } else {
                Err(ParseError::Syntax)
            },
            Err(x) => Err(x),
        }
    } else {
        type_at(s, i)
    }
}

// ---------------------------------------------------------------------------
// Declarations
// ---------------------------------------------------------------------------

/// A doc comment at `i`, if one stands there: the position after it and its text.
pub open spec fn opt_doc_at(s: Seq<char>, i: int) -> Result<(int, Option<Seq<char>>), ParseError> {
    if has_lit(s, i, "/**"@) {
        match doc_at(s, i) {
            Some((e, d)) => Ok((skip_ws(s, e), Some(d))),
            None => Err(ParseError::Syntax),
        }
    } else {
        Ok((skip_ws_comment(s, i), None))
    }
}

/// An optional `@logicalType(...)` at `i`: the position after it and the schema it forces.
pub open spec fn opt_logical_type_at(s: Seq<char>, i: int) -> Result<(int, Option<SchemaV>), ParseError> {
    if has_lit(s, i, "@logicalType"@) {
        match logical_type_at(s, i) {
            Ok((e, t)) => Ok((skip_ws_comment(s, e), Some(t))),
            Err(x) => Err(x),
        }
    } else {
        Ok((i, None))
    }
}

/// An optional `= default` at `i` for a field of schema `t`.
pub open spec fn opt_default_at(t: SchemaV, s: Seq<char>, i: int) -> Result<(int, Option<JsonV>), ParseError> {
    if 0 <= i < s.len() && s[i] == '=' {
        match default_at(t, s, skip_ws_comment(s, i + 1)) {
            Ok((e, v)) => Ok((skip_ws_comment(s, e), Some(v))),
            Err(x) => Err(x),
        }
    } else {
        Ok((i, None))
    }
}

/// The part of a field after its type: annotations, name, optional default, `;`.
pub open spec fn field_rest_at(
    s: Seq<char>,
    i: int,
    doc: Option<Seq<char>>,
    t: SchemaV,
    position: nat,
) -> Result<(int, FieldV), ParseError> {
    match field_annotations(s, i, None, None) {
        Err(x) => Err(x),
        Ok((a, order, aliases)) => {
            let n = skip_ws_comment(s, a);
            match var_name_end(s, n) {
                None => Err(ParseError::Syntax),
                Some(ne) => match opt_default_at(t, s, skip_ws_comment(s, ne)) {
                    Err(x) => Err(x),
                    Ok((d, default)) => if 0 <= d < s.len() && s[d] == ';' {
                        Ok(
                            (
                                skip_ws_comment_keep_doc(s, d + 1),
                                FieldV {
                                    name: s.subrange(n, ne),
                                    doc,
                                    default,
                                    schema: t,
                                    order: match order {
                                        Some(o) => o,
                                        None => FieldOrder::Ascending,
                                    },
                                    aliases,
                                    position,
                                },
                            ),
                        )
                    } else {
                        Err(ParseError::Syntax)
                    },
                },
            }
        },
    }
}

/// A record field at `i`: `[/** doc */] [@logicalType(..)] Type [@order(..)]
/// [@aliases(..)] name [= default];`, the default read by the grammar of the
/// field's schema.
pub open spec fn field_at(s: Seq<char>, i: int, position: nat) -> Result<(int, FieldV), ParseError> {
    match opt_doc_at(s, skip_ws(s, i)) {
        Err(x) => Err(x),
        Ok((p, doc)) => match opt_logical_type_at(s, p) {
            Err(x) => Err(x),
            Ok((q, logical)) => match field_type_at(s, q) {
                Err(x) => Err(x),
                Ok((r, t)) => field_rest_at(
                    s,
                    r,
                    doc,
                    match logical {
                        Some(l) => l,
                        None => t,
                    },
                    position,
                ),
            },
        },
    }
}

/// Whether a list of fields or declarations closes at `i`: a `}` after
/// whitespace and at most one comment.
pub open spec fn closes_at(s: Seq<char>, i: int) -> bool {
    let p = skip_ws_comment(s, i);
    0 <= p < s.len() && s[p] == '}'
}

/// The fields of a record from `i`, after `acc`, up to the closing `}`: its
/// position and the fields. A field that fails to parse fails the list.
pub open spec fn fields_from(s: Seq<char>, i: int, acc: Seq<FieldV>) -> Result<(int, Seq<FieldV>), ParseError>
    decreases s.len() - i,
{
    if closes_at(s, i) {
        Ok((skip_ws_comment(s, i), acc))
    } else {
        match field_at(s, i, acc.len()) {
            Ok((j, f)) => if i < j <= s.len() {
                fields_from(s, j, acc.push(f))
            } else {
                Err(ParseError::Syntax)
            },
            Err(x) => Err(x),
        }
    }
}

/// A record at `i`: `[@aliases(..)] [@namespace(..)] record Name { field* }`.
pub open spec fn record_at(s: Seq<char>, i: int) -> Result<(int, SchemaV), ParseError> {
    match record_annotations(s, i, None, None) {
        Err(x) => Err(x),
        Ok((a, aliases, namespace)) => {
            let p = skip_ws(s, a);
            if has_lit(s, p, "record"@) {
                let n = skip_ws(s, p + 6);
                match var_name_end(s, n) {
                    None => Err(ParseError::Syntax),
                    Some(ne) => {
                        let b = skip_ws(s, ne);
                        if 0 <= b < s.len() && s[b] == '{' {
                            match fields_from(s, b + 1, Seq::empty()) {
                                Err(x) => Err(x),
                                Ok((c, fields)) => Ok(
                                    (
                                        c + 1,
                                        SchemaV::Record {
                                            name: NameV { name: s.subrange(n, ne), namespace },
                                            aliases,
                                            doc: None,
                                            fields,
                                        },
                                    ),
                                ),
                            }
                        } else {
                            Err(ParseError::Syntax)
                        }
                    },
                }
            } else {
                Err(ParseError::Syntax)
            }
        },
    }
}

/// An enum symbol at `i` with the whitespace around it: its end and text.
pub open spec fn enum_item_at(s: Seq<char>, i: int) -> Option<(int, Seq<char>)> {
    let p = skip_ws(s, i);
    match var_name_end(s, p) {
        Some(e) => Some((skip_ws(s, e), s.subrange(p, e))),
        None => None,
    }
}

/// The symbols of an enum from `i`, after `acc`: each symbol, then `,` or `}`.
pub open spec fn enum_symbols_from(s: Seq<char>, i: int, acc: Seq<Seq<char>>) -> Result<(int, Seq<Seq<char>>), ParseError>
    decreases s.len() - i,
{
    match enum_item_at(s, i) {
        None => Err(ParseError::Syntax),
        Some((k, sym)) => if 0 <= k < s.len() && s[k] == ',' {
            if i < k + 1 <= s.len() {
                enum_symbols_from(s, k + 1, acc.push(sym))
            } else {
                Err(ParseError::Syntax)
            }
        } else if 0 <= k < s.len() && s[k] == '}' {
            Ok((k + 1, acc.push(sym)))
        } else {
            Err(ParseError::Syntax)
        },
    }
}

/// An enum body `{ A, B, ... }` at `i`, with the whitespace around it.
pub open spec fn enum_body_at(s: Seq<char>, i: int) -> Result<(int, Seq<Seq<char>>), ParseError> {
    let p = skip_ws(s, i);
    if 0 <= p < s.len() && s[p] == '{' {
        match enum_symbols_from(s, p + 1, Seq::empty()) {
            Ok((e, v)) => Ok((skip_ws(s, e), v)),
            Err(x) => Err(x),
        }
    } else {
        Err(ParseError::Syntax)
    }
}

/// An enum default `= SYMBOL;` at `i`: its end and the symbol. An enum
/// declaration reads it and does not keep it.
pub open spec fn enum_default_at(s: Seq<char>, i: int) -> Option<(int, Seq<char>)> {
    let p = skip_ws(s, i);
    if 0 <= p < s.len() && s[p] == '=' {
        match enum_item_at(s, p + 1) {
            Some((e, sym)) => if 0 <= e < s.len() && s[e] == ';' {
                Some((e + 1, sym))
            } else {
                None
            },
            None => None,
        }
    } else {
        None
    }
}

/// An enum at `i`: `[@aliases(..)] enum Name { SYM, ... } [= SYM;]`.
pub open spec fn enum_at(s: Seq<char>, i: int) -> Result<(int, SchemaV), ParseError> {
    match enum_declaration_at(s, i) {
        Ok((e, t, _)) => Ok((e, t)),
        Err(x) => Err(x),
    }
}

/// An enum at `i` as [`enum_at`] reads it, with the default symbol written
/// after it, which the schema does not keep.
pub open spec fn enum_declaration_at(s: Seq<char>, i: int) -> Result<(int, SchemaV, Option<Seq<char>>), ParseError> {
    let al: Result<(int, Option<Seq<Seq<char>>>), ParseError> = if has_lit(s, i, "@aliases"@) {
        match aliases_at(s, i) {
            Ok((e, a)) => Ok((e, Some(a))),
            Err(x) => Err(x),
        }
    } else {
        Ok((i, None))
    };
    match al {
        Err(x) => Err(x),
        Ok((a, aliases)) => {
            let p = skip_ws(s, a);
            if has_lit(s, p, "enum"@) {
                let n = skip_ws(s, p + 4);
                match var_name_end(s, n) {
                    None => Err(ParseError::Syntax),
                    Some(ne) => match enum_body_at(s, skip_ws(s, ne)) {
                        Err(x) => Err(x),
                        Ok((b, symbols)) => {
                            let (end, default) = match enum_default_at(s, b) {
                                Some((d, sym)) => (d, Some(sym)),
                                None => (b, None),
                            };
                            Ok(
                                (
                                    end,
                                    SchemaV::Enum {
                                        name: NameV { name: s.subrange(n, ne), namespace: None },
                                        aliases,
                                        doc: None,
                                        symbols,
                                    },
                                    default,
                                ),
                            )
                        },
                    },
                }
            } else {
                Err(ParseError::Syntax)
            }
        },
    }
}

pub const SIZE_MAX: u64 = 2147483647;

/// A fixed type at `i`: `[/** doc */] fixed [@order(..)] [@aliases(..)] Name(size);`,
/// the two annotations in either order. They are read and set aside.
pub open spec fn fixed_at(s: Seq<char>, i: int) -> Result<(int, SchemaV), ParseError> {
    let p0 = skip_ws(s, i);
    let d: Result<(int, Option<Seq<char>>), ParseError> = if has_lit(s, p0, "/**"@) {
        match doc_at(s, p0) {
            Some((e, d)) => Ok((skip_ws(s, e), Some(d))),
            None => Err(ParseError::Syntax),
        }
    } else {
        Ok((p0, None))
    };
    match d {
        Err(x) => Err(x),
        Ok((p, doc)) => if has_lit(s, p, "fixed"@) {
            match field_annotations(s, p + 5, None, None) {
                Err(x) => Err(x),
                Ok((q, _, _)) => {
                    let n = skip_ws_comment(s, q);
                    match var_name_end(s, n) {
                            None => Err(ParseError::Syntax),
                            Some(ne) => if 0 <= ne < s.len() && s[ne] == '(' {
                                match uint_at(s, ne + 1, SIZE_MAX as int) {
                                    None => Err(ParseError::Syntax),
                                    Some((z, size)) => {
                                        let c = skip_ws(s, z + 1);
                                        if 0 <= z < s.len() && s[z] == ')' && 0 <= c < s.len() && s[c] == ';' {
                                            if size == 0 {
                                                Err(ParseError::Invalid)
                                            } else {
                                                Ok(
                                                    (
                                                        c + 1,
                                                        SchemaV::Fixed {
                                                            name: NameV { name: s.subrange(n, ne), namespace: None },
                                                            aliases: None,
                                                            doc,
                                                            size: size as nat,
                                                        },
                                                    ),
                                                )
                                            }
                                        } else {
                                            Err(ParseError::Syntax)
                                        }
                                    },
                                }
                            } else {
                                Err(ParseError::Syntax)
                            },
                        }
                },
            }
        } else {
            Err(ParseError::Syntax)
        },
    }
}

/// An enum default that a declaration read and did not keep: the enum's
/// name and the symbol.
pub open spec fn enum_default_note(t: SchemaV, default: Option<Seq<char>>) -> Option<(Seq<char>, Seq<char>)> {
    match (t, default) {
        (SchemaV::Enum { name, .. }, Some(sym)) => Some((name.name, sym)),
        _ => None,
    }
}

/// A top-level declaration at `i`, with comments around it: a record, else an
/// enum, else a fixed type, and the enum default it set aside, if any. Only a
/// syntax error passes on to the next kind; any other error is the
/// declaration's. A doc comment before a fixed type is left for it to read as
/// its doc, and the comment skip after a declaration leaves the next one's doc.
pub open spec fn declaration_at(s: Seq<char>, i: int) -> Result<(int, SchemaV, Option<(Seq<char>, Seq<char>)>), ParseError> {
    let p = skip_ws_comment(s, i);
    let r: Result<(int, SchemaV, Option<(Seq<char>, Seq<char>)>), ParseError> = match record_at(s, p) {
        Err(ParseError::Syntax) => match enum_declaration_at(s, p) {
            Err(ParseError::Syntax) => match fixed_at(s, skip_ws_comment_keep_doc(s, i)) {
                Ok((e, t)) => Ok((e, t, None)),
                Err(x) => Err(x),
            },
            Ok((e, t, d)) => Ok((e, t, enum_default_note(t, d))),
            Err(x) => Err(x),
        },
        Ok((e, t)) => Ok((e, t, None)),
        Err(x) => Err(x),
    };
    match r {
        Ok((e, t, note)) => Ok((skip_ws_comment_keep_doc(s, e), t, note)),
        Err(x) => Err(x),
    }
}

/// Appends a note, if there is one.
pub open spec fn push_note(notes: Seq<(Seq<char>, Seq<char>)>, note: Option<(Seq<char>, Seq<char>)>) -> Seq<(Seq<char>, Seq<char>)> {
    match note {
        Some(n) => notes.push(n),
        None => notes,
    }
}

/// The declarations of a protocol from `i`, after `acc` and `notes`, up to the
/// closing `}`: its position, the declarations, and the enum defaults set
/// aside. A declaration that fails to parse fails the list.
pub open spec fn declarations_from(
    s: Seq<char>,
    i: int,
    acc: Seq<SchemaV>,
    notes: Seq<(Seq<char>, Seq<char>)>,
) -> Result<(int, Seq<SchemaV>, Seq<(Seq<char>, Seq<char>)>), ParseError>
    decreases s.len() - i,
{
    if closes_at(s, i) {
        Ok((skip_ws_comment(s, i), acc, notes))
    } else {
        match declaration_at(s, i) {
            Ok((j, t, note)) => if i < j <= s.len() {
                declarations_from(s, j, acc.push(t), push_note(notes, note))
            } else {
                Err(ParseError::Syntax)
            },
            Err(x) => Err(x),
        }
    }
}

/// A document: a protocol, or else a single record. Only a syntax error in
/// the protocol passes on to the record.
pub open spec fn document_at(s: Seq<char>) -> Result<(int, Seq<SchemaV>, Seq<(Seq<char>, Seq<char>)>), ParseError> {
    match protocol_at(s, 0) {
        Ok(x) => Ok(x),
        Err(ParseError::Syntax) => match record_at(s, skip_ws_comment(s, 0)) {
            Ok((e, t)) => Ok((skip_ws_comment(s, e), seq![t], Seq::empty())),
            Err(x) => Err(x),
        },
        Err(x) => Err(x),
    }
}

/// A protocol at `i`: `protocol Name { declaration* }`, the declarations in
/// order, and the enum defaults that they set aside.
pub open spec fn protocol_at(s: Seq<char>, i: int) -> Result<(int, Seq<SchemaV>, Seq<(Seq<char>, Seq<char>)>), ParseError> {
    let p = skip_ws(s, i);
    if has_lit(s, p, "protocol"@) {
        let n = skip_ws(s, p + 8);
        match var_name_end(s, n) {
            None => Err(ParseError::Syntax),
            Some(ne) => {
                let b = skip_ws(s, ne);
                if 0 <= b < s.len() && s[b] == '{' {
                    match declarations_from(s, skip_ws(s, b + 1), Seq::empty(), Seq::empty()) {
                        Err(x) => Err(x),
                        Ok((c, decls, notes)) => Ok((c + 1, decls, notes)),
                    }
                } else {
                    Err(ParseError::Syntax)
                }
            },
        }
    } else {
        Err(ParseError::Syntax)
    }
}

} // verus!
