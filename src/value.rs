use vstd::prelude::*;
use vstd::utf8::encode_utf8;

use crate::float_limit::{
    f32_limit, f32_limit_text, f64_limit, f64_limit_text, lemma_limits_are_numbers, literal_below, literal_below_limit,
};
use crate::json::{JsonEntry, JsonV, JsonValue};
use crate::lex::{
    has_lit, is_ascii_digit, lit, quoted, quoted_at, skip_spaces, skip_ws, uint, uint_at, ParseError,
};
use crate::schema::{Schema, SchemaV, UnionError};

verus! {

pub const I32_MAX: u64 = 2147483647;

pub const I64_MAX: u64 = 9223372036854775807;

/// What `uuid::Uuid` makes of a text: its hyphenated lower-case form, or
/// `None` where the text is no UUID.
pub uninterp spec fn uuid_text(s: Seq<char>) -> Option<Seq<char>>;

/// Relies on `uuid::Uuid::parse_str` to read the text (simple, hyphenated,
/// braced or URN form) and on its `Display` impl for the hyphenated form.
#[verifier::external_body]
fn hyphenated_uuid(s: &str) -> (r: Option<String>)
    ensures
        r is Some <==> uuid_text(s@) is Some,
        r matches Some(t) ==> uuid_text(s@) == Some(t@),
{
    uuid::Uuid::parse_str(s).ok().map(|u| u.to_string())
}

pub open spec fn is_float_char(c: char) -> bool {
    is_ascii_digit(c) || c == '.' || c == 'e'
}

/// The end of the longest run of digits, `.` and `e` from `i`.
pub open spec fn float_run_end(s: Seq<char>, i: int) -> int
    decreases s.len() - i,
{
    if 0 <= i < s.len() && is_float_char(s[i]) {
        float_run_end(s, i + 1)
    } else {
        i
    }
}

/// How often `c` stands in `t` in `[a, b)`.
pub open spec fn count_char(t: Seq<char>, c: char, a: int, b: int) -> int
    decreases b - a,
{
    if b <= a {
        0
    } else {
        count_char(t, c, a, b - 1) + if t[b - 1] == c {
            1int
        } else {
            0int
        }
    }
}

/// The first position of `e` in `t` from `k`, or `t.len()`.
pub open spec fn exponent_mark(t: Seq<char>, k: int) -> int
    decreases t.len() - k,
{
    if k < 0 || k >= t.len() {
        t.len() as int
    } else if t[k] == 'e' {
        k
    } else {
        exponent_mark(t, k + 1)
    }
}

/// Whether a run of digits, `.` and `e` is a decimal floating-point literal:
/// a mantissa with at least one digit and at most one point, then optionally
/// `e` and one or more digits.
pub open spec fn is_float_literal(t: Seq<char>) -> bool {
    let e = exponent_mark(t, 0);
    &&& count_char(t, '.', 0, e) <= 1
    &&& e - count_char(t, '.', 0, e) >= 1
    &&& (e == t.len() || (e + 1 < t.len() && count_char(t, '.', e + 1, t.len() as int) == 0
        && count_char(t, 'e', e + 1, t.len() as int) == 0))
}

/// A floating-point literal at `i`: its end.
pub open spec fn float_at(s: Seq<char>, i: int) -> Option<int> {
    let j = float_run_end(s, i);
    if j > i && is_float_literal(s.subrange(i, j)) {
        Some(j)
    } else {
        None
    }
}

/// The JSON array of the UTF-8 bytes of `t`.
pub open spec fn bytes_json(t: Seq<char>) -> JsonV {
    JsonV::Array(Seq::new(encode_utf8(t).len(), |k: int| JsonV::Number(encode_utf8(t)[k] as int)))
}

/// Sets `k` to `v` in an object: in place where `k` already stands, else at the end.
pub open spec fn object_insert(m: Seq<(Seq<char>, JsonV)>, k: Seq<char>, v: JsonV) -> Seq<(Seq<char>, JsonV)> {
    if exists|p: int| 0 <= p < m.len() && (#[trigger] m[p]).0 == k {
        m.update(first_key_index(m, k, 0), (k, v))
    } else {
        m.push((k, v))
    }
}

/// The first index from `p` whose key is `k`, or `m.len()`.
pub open spec fn first_key_index(m: Seq<(Seq<char>, JsonV)>, k: Seq<char>, p: int) -> int
    decreases m.len() - p,
{
    if p < 0 || p >= m.len() {
        m.len() as int
    } else if m[p].0 == k {
        p
    } else {
        first_key_index(m, k, p + 1)
    }
}

/// A whole number at most `max` as a default.
pub open spec fn number_default(s: Seq<char>, i: int, max: int) -> Result<(int, JsonV), ParseError> {
    if skip_digits_present(s, i) {
        match uint_at(s, i, max) {
            Some((j, v)) => Ok((j, JsonV::Number(v))),
            None => Err(ParseError::Invalid),
        }
    } else {
        Err(ParseError::Syntax)
    }
}

pub open spec fn skip_digits_present(s: Seq<char>, i: int) -> bool {
    0 <= i < s.len() && is_ascii_digit(s[i])
}

/// The default literal at `i` for a field of schema `t`: its end and value.
/// The grammar is chosen by `t`; arrays and maps recurse into their items.
pub open spec fn default_at(t: SchemaV, s: Seq<char>, i: int) -> Result<(int, JsonV), ParseError>
    decreases t, 0int,
{
    match t {
        SchemaV::Null => if has_lit(s, i, "null"@) {
            Ok((i + 4, JsonV::Null))
        } else {
            Err(ParseError::Syntax)
        },
        SchemaV::Boolean => if has_lit(s, i, "true"@) {
            Ok((i + 4, JsonV::Bool(true)))
        } else if has_lit(s, i, "false"@) {
            Ok((i + 5, JsonV::Bool(false)))
        } else {
            Err(ParseError::Syntax)
        },
        SchemaV::Int | SchemaV::Date | SchemaV::TimeMillis => number_default(s, i, I32_MAX as int),
        SchemaV::Long
        | SchemaV::TimestampMillis
        | SchemaV::TimeMicros
        | SchemaV::TimestampMicros => number_default(s, i, I64_MAX as int),
        SchemaV::Float => match float_at(s, i) {
            Some(j) => if literal_below(s.subrange(i, j), f32_limit()) {
                Ok((j, JsonV::Float(s.subrange(i, j))))
            } else {
                Err(ParseError::Invalid)
            },
            None => Err(ParseError::Syntax),
        },
        SchemaV::Double => match float_at(s, i) {
            Some(j) => if literal_below(s.subrange(i, j), f64_limit()) {
                Ok((j, JsonV::Double(s.subrange(i, j))))
            } else {
                Err(ParseError::Invalid)
            },
            None => Err(ParseError::Syntax),
        },
        SchemaV::Str => match quoted_at(s, i) {
            Some((j, q)) => Ok((j, JsonV::Str(q))),
            None => Err(ParseError::Syntax),
        },
        SchemaV::Bytes | SchemaV::Decimal { .. } => match quoted_at(s, i) {
            Some((j, q)) => Ok((j, bytes_json(q))),
            None => Err(ParseError::Syntax),
        },
        SchemaV::Uuid => match quoted_at(s, i) {
            Some((j, q)) => match uuid_text(q) {
                Some(u) => Ok((j, JsonV::Str(u))),
                None => Err(ParseError::Invalid),
            },
            None => Err(ParseError::Syntax),
        },
        SchemaV::Array(e) => if 0 <= i < s.len() && s[i] == '[' {
            let k = skip_ws(s, i + 1);
            if 0 <= k < s.len() && s[k] == ']' {
                Ok((k + 1, JsonV::Array(Seq::empty())))
            } else {
                match array_items(*e, s, k, Seq::empty()) {
                    Ok((j, items)) => Ok((j, JsonV::Array(items))),
                    Err(x) => Err(x),
                }
            }
        } else {
            Err(ParseError::Syntax)
        },
        SchemaV::MapOf(e) => if 0 <= i < s.len() && s[i] == '{' {
            let k = skip_ws(s, i + 1);
            if 0 <= k < s.len() && s[k] == '}' {
                Ok((k + 1, JsonV::Object(Seq::empty())))
            } else {
                match object_items(*e, s, k, Seq::empty()) {
                    Ok((j, items)) => Ok((j, JsonV::Object(items))),
                    Err(x) => Err(x),
                }
            }
        } else {
            Err(ParseError::Syntax)
        },
        SchemaV::Union(v) => if v.len() > 0 {
            default_at(v[0], s, i)
        } else {
            Err(ParseError::Union(UnionError::Empty))
        },
        _ => Err(ParseError::Unsupported),
    }
}

/// Items of an array default from `i`, after `acc`: each item, then `,` or `]`.
pub open spec fn array_items(e: SchemaV, s: Seq<char>, i: int, acc: Seq<JsonV>) -> Result<(int, Seq<JsonV>), ParseError>
    decreases e, s.len() - i + 1,
{
    if i < 0 || i > s.len() {
        Err(ParseError::Syntax)
    } else {
        match default_at(e, s, i) {
            Err(x) => Err(x),
            Ok((j, v)) => {
                let k = skip_ws(s, j);
                if 0 <= k < s.len() && s[k] == ',' {
                    let n = skip_ws(s, k + 1);
                    if i < n && n <= s.len() {
                        array_items(e, s, n, acc.push(v))
                    } else {
                        Err(ParseError::Syntax)
                    }
                } else if 0 <= k < s.len() && s[k] == ']' {
                    Ok((k + 1, acc.push(v)))
                } else {
                    Err(ParseError::Syntax)
                }
            },
        }
    }
}

/// Entries `"key": value` of a map default from `i`, after `acc`: each entry,
/// then `,` or `}`. A repeated key keeps its first place and takes the later value.
pub open spec fn object_items(e: SchemaV, s: Seq<char>, i: int, acc: Seq<(Seq<char>, JsonV)>) -> Result<
    (int, Seq<(Seq<char>, JsonV)>),
    ParseError,
>
    decreases e, s.len() - i + 1,
{
    if i < 0 || i > s.len() {
        Err(ParseError::Syntax)
    } else {
        match quoted_at(s, i) {
            None => Err(ParseError::Syntax),
            Some((a, key)) => {
                let b = skip_ws(s, a);
                if 0 <= b < s.len() && s[b] == ':' {
                    match default_at(e, s, skip_ws(s, b + 1)) {
                        Err(x) => Err(x),
                        Ok((j, v)) => {
                            let k = skip_ws(s, j);
                            if 0 <= k < s.len() && s[k] == ',' {
                                let n = skip_ws(s, k + 1);
                                if i < n && n <= s.len() {
                                    object_items(e, s, n, object_insert(acc, key, v))
                                } else {
                                    Err(ParseError::Syntax)
                                }
                            } else if 0 <= k < s.len() && s[k] == '}' {
                                Ok((k + 1, object_insert(acc, key, v)))
                            } else {
                                Err(ParseError::Syntax)
                            }
                        },
                    }
                } else {
                    Err(ParseError::Syntax)
                }
            },
        }
    }
}

pub open spec fn json_result(r: Result<(usize, JsonValue), ParseError>) -> Result<(int, JsonV), ParseError> {
    match r {
        Ok((j, v)) => Ok((j as int, v@)),
        Err(e) => Err(e),
    }
}

pub open spec fn items_view(v: Seq<JsonValue>) -> Seq<JsonV> {
    Seq::new(v.len(), |k: int| v[k]@)
}

pub open spec fn entries_view(v: Seq<JsonEntry>) -> Seq<(Seq<char>, JsonV)> {
    Seq::new(v.len(), |k: int| (v[k].key@, v[k].value@))
}

/// A floating-point literal at `i`: its end.
pub fn float_literal(s: &Vec<char>, i: usize) -> (r: Option<usize>)
    requires
        i <= s@.len(),
    ensures
        r is Some <==> float_at(s@, i as int) is Some,
        r matches Some(j) ==> float_at(s@, i as int) == Some(j as int) && i < j <= s@.len() && (forall|k: int|
            i <= k < j ==> is_float_char(#[trigger] s@[k])),
{
    let n = s.len();
    let mut j = i;
    while j < n && (('0' <= s[j] && s[j] <= '9') || s[j] == '.' || s[j] == 'e')
        invariant
            n == s@.len(),
            i <= j <= n,
            float_run_end(s@, i as int) == float_run_end(s@, j as int),
            forall|k: int| i <= k < j ==> is_float_char(#[trigger] s@[k]),
        decreases n - j,
    {
        j += 1;
    }
    if j == i {
        return None;
    }
    let ghost t = s@.subrange(i as int, j as int);
    let len = j - i;
    // the mantissa ends at the first `e`
    let mut e: usize = 0;
    let mut dots: usize = 0;
    while e < len && s[i + e] != 'e'
        invariant
            len == t.len(),
            i + len <= n,
            n == s@.len(),
            t == s@.subrange(i as int, j as int),
            j == i + len,
            0 <= e <= len,
            exponent_mark(t, 0) == exponent_mark(t, e as int),
            dots as int == count_char(t, '.', 0, e as int),
            dots <= e,
        decreases len - e,
    {
        if s[i + e] == '.' {
            dots += 1;
        }
        e += 1;
    }
    assert(exponent_mark(t, e as int) == e as int);
    if dots > 1 || e - dots < 1 {
        return None;
    }
    if e == len {
        return Some(j);
    }
    if e + 1 >= len {
        return None;
    }
    let mut k = e + 1;
    let mut bad: usize = 0;
    let mut marks: usize = 0;
    while k < len
        invariant
            len == t.len(),
            i + len <= n,
            n == s@.len(),
            t == s@.subrange(i as int, j as int),
            j == i + len,
            e + 1 <= k <= len,
            bad as int == count_char(t, '.', e + 1, k as int),
            marks as int == count_char(t, 'e', e + 1, k as int),
            bad <= k,
            marks <= k,
        decreases len - k,
    {
        if s[i + k] == '.' {
            bad += 1;
        }
        if s[i + k] == 'e' {
            marks += 1;
        }
        k += 1;
    }
    if bad == 0 && marks == 0 {
        Some(j)
    } else {
        None
    }
}

/// Whether the float literal in `[i, j)` rounds to a finite 64-bit float
/// (`wide`) or 32-bit float.
fn float_fits(s: &Vec<char>, i: usize, j: usize, wide: bool) -> (r: bool)
    requires
        float_at(s@, i as int) == Some(j as int),
        i < j <= s@.len(),
        forall|k: int| i <= k < j ==> is_float_char(#[trigger] s@[k]),
    ensures
        r == literal_below(s@.subrange(i as int, j as int), if wide {
            f64_limit()
        } else {
            f32_limit()
        }),
{
    let t = crate::lex::chars_between(s, i, j);
    let limit = if wide {
        crate::lex::chars_of(f64_limit_text())
    } else {
        crate::lex::chars_of(f32_limit_text())
    };
    proof {
        lemma_limits_are_numbers();
        assert forall|k: int| 0 <= k < t@.len() implies is_float_char(#[trigger] t@[k]) by {
            assert(t@[k] == s@[k + i]);
        }
    }
    literal_below_limit(&t, &limit)
}

/// The JSON array of the UTF-8 bytes of `t`.
pub fn bytes_value(t: &String) -> (r: JsonValue)
    ensures
        r@ == bytes_json(t@),
{
    let b = t.as_str().as_bytes();
    let ghost enc = encode_utf8(t@);
    assert(b@ == enc);
    let mut items: Vec<JsonValue> = Vec::new();
    let mut k: usize = 0;
    while k < b.len()
        invariant
            b@ == enc,
            0 <= k <= b@.len(),
            items@.len() == k,
            forall|m: int| 0 <= m < k ==> (#[trigger] items@[m])@ == JsonV::Number(enc[m] as int),
        decreases b@.len() - k,
    {
        items.push(JsonValue::Number(b[k] as i64));
        k += 1;
    }
    let r = JsonValue::Array(items);
    assert(r@ == bytes_json(t@)) by {
        if let JsonV::Array(v) = r@ {
            assert(v =~= Seq::new(enc.len(), |m: int| JsonV::Number(enc[m] as int)));
        }
    }
    r
}

/// A whole number at most `max` as a default.
fn number_value(s: &Vec<char>, i: usize, max: u64) -> (r: Result<(usize, JsonValue), ParseError>)
    requires
        i <= s@.len(),
        max <= I64_MAX,
    ensures
        json_result(r) == number_default(s@, i as int, max as int),
        r matches Ok((j, _)) ==> j <= s@.len(),
{
    if i < s.len() && '0' <= s[i] && s[i] <= '9' {
        match uint(s, i, max) {
            Some((j, v)) => Ok((j, JsonValue::Number(v as i64))),
            None => Err(ParseError::Invalid),
        }
    } else {
        Err(ParseError::Syntax)
    }
}

/// Sets `key` to `value` in the entries of an object: in place where the key
/// already stands, else at the end.
fn insert_entry(entries: &mut Vec<JsonEntry>, key: String, value: JsonValue)
    ensures
        entries_view(final(entries)@) == object_insert(entries_view(old(entries)@), key@, value@),
{
    let ghost m = entries_view(entries@);
    let ghost kv = (key@, value@);
    let n = entries.len();
    let mut p: usize = 0;
    while p < n && entries[p].key != key
        invariant
            n == entries@.len(),
            m == entries_view(entries@),
            kv == (key@, value@),
            0 <= p <= n,
            first_key_index(m, kv.0, 0) == first_key_index(m, kv.0, p as int),
            forall|q: int| 0 <= q < p ==> (#[trigger] m[q]).0 != kv.0,
        decreases n - p,
    {
        p += 1;
    }
    if p < n {
        assert(m[p as int].0 == kv.0);
        assert(first_key_index(m, kv.0, p as int) == p as int);
        assert(exists|q: int| 0 <= q < m.len() && (#[trigger] m[q]).0 == kv.0);
        entries.remove(p);
        entries.insert(p, JsonEntry { key, value });
        assert(entries_view(entries@) =~= m.update(p as int, kv));
    } else {
        entries.push(JsonEntry { key, value });
        assert(entries_view(entries@) =~= m.push(kv));
    }
}

/// The items of an array default from `i`, up to and past its `]`.
fn array_default(e: &Schema, s: &Vec<char>, i: usize) -> (r: Result<(usize, Vec<JsonValue>), ParseError>)
    requires
        i <= s@.len(),
    ensures
        r is Ok <==> array_items(e@, s@, i as int, Seq::empty()) is Ok,
        r matches Err(x) ==> array_items(e@, s@, i as int, Seq::empty()) == Err::<(int, Seq<JsonV>), ParseError>(x),
        r matches Ok((j, items)) ==> j <= s@.len() && array_items(e@, s@, i as int, Seq::empty()) == Ok::<(int, Seq<JsonV>), ParseError>((j as int, items_view(items@)))
            && JsonValue::Array(items)@ == JsonV::Array(items_view(items@)),
    decreases e, 1int,
{
    let n = s.len();
    let mut items: Vec<JsonValue> = Vec::new();
    let mut pos = i;
    assert(items_view(items@) =~= Seq::empty());
    loop
        invariant
            n == s@.len(),
            i <= pos <= n,
            array_items(e@, s@, i as int, Seq::empty()) == array_items(e@, s@, pos as int, items_view(items@)),
        decreases n - pos,
    {
        let ghost acc = items_view(items@);
        match parse_default(e, s, pos) {
            Err(x) => return Err(x),
            Ok((j, v)) => {
                let ghost vv = v@;
                let c = skip_spaces(s, j);
                items.push(v);
                assert(items_view(items@) =~= acc.push(vv));
                if c < n && s[c] == ',' {
                    let nx = skip_spaces(s, c + 1);
                    if !(pos < nx) {
                        return Err(ParseError::Syntax);
                    }
                    pos = nx;
                } else if c < n && s[c] == ']' {
                    let ghost r = JsonValue::Array(items);
                    assert(r@ == JsonV::Array(items_view(items@))) by {
                        if let JsonV::Array(w) = r@ {
                            assert(w =~= items_view(items@));
                        }
                    }
                    return Ok((c + 1, items));
                } else {
                    return Err(ParseError::Syntax);
                }
            },
        }
    }
}

/// The entries of a map default from `i`, up to and past its `}`.
fn object_default(e: &Schema, s: &Vec<char>, i: usize) -> (r: Result<(usize, Vec<JsonEntry>), ParseError>)
    requires
        i <= s@.len(),
    ensures
        r is Ok <==> object_items(e@, s@, i as int, Seq::empty()) is Ok,
        r matches Err(x) ==> object_items(e@, s@, i as int, Seq::empty()) == Err::<(int, Seq<(Seq<char>, JsonV)>), ParseError>(x),
        r matches Ok((j, entries)) ==> j <= s@.len() && object_items(e@, s@, i as int, Seq::empty()) == Ok::<(int, Seq<(Seq<char>, JsonV)>), ParseError>((j as int, entries_view(entries@)))
            && JsonValue::Object(entries)@ == JsonV::Object(entries_view(entries@)),
    decreases e, 1int,
{
    let n = s.len();
    let mut entries: Vec<JsonEntry> = Vec::new();
    let mut pos = i;
    assert(entries_view(entries@) =~= Seq::empty());
    loop
        invariant
            n == s@.len(),
            i <= pos <= n,
            object_items(e@, s@, i as int, Seq::empty()) == object_items(e@, s@, pos as int, entries_view(entries@)),
        decreases n - pos,
    {
        let (a, key) = match quoted(s, pos) {
            Some(p) => p,
            None => return Err(ParseError::Syntax),
        };
        let b = skip_spaces(s, a);
        if !(b < n && s[b] == ':') {
            return Err(ParseError::Syntax);
        }
        let vs = skip_spaces(s, b + 1);
        match parse_default(e, s, vs) {
            Err(x) => return Err(x),
            Ok((j, v)) => {
                let c = skip_spaces(s, j);
                insert_entry(&mut entries, key, v);
                if c < n && s[c] == ',' {
                    let nx = skip_spaces(s, c + 1);
                    if !(pos < nx) {
                        return Err(ParseError::Syntax);
                    }
                    pos = nx;
                } else if c < n && s[c] == '}' {
                    let ghost r = JsonValue::Object(entries);
                    assert(r@ == JsonV::Object(entries_view(entries@))) by {
                        if let JsonV::Object(w) = r@ {
                            assert(w =~= entries_view(entries@));
                        }
                    }
                    return Ok((c + 1, entries));
                } else {
                    return Err(ParseError::Syntax);
                }
            },
        }
    }
}

/// Reads the default literal at `i` for a field of schema `t`, with the grammar
/// that `t` selects.
pub fn parse_default(t: &Schema, s: &Vec<char>, i: usize) -> (r: Result<(usize, JsonValue), ParseError>)
    requires
        i <= s@.len(),
    ensures
        json_result(r) == default_at(t@, s@, i as int),
        r matches Ok((j, _)) ==> j <= s@.len(),
    decreases t, 0int,
{
    let n = s.len();
    match t {
        Schema::Null => {
            if lit(s, i, "null") {
                proof { reveal_strlit("null"); }
                Ok((i + 4, JsonValue::Null))
            } else {
                Err(ParseError::Syntax)
            }
        },
        Schema::Boolean => {
            if lit(s, i, "true") {
                proof { reveal_strlit("true"); }
                Ok((i + 4, JsonValue::Bool(true)))
            } else if lit(s, i, "false") {
                proof { reveal_strlit("false"); }
                Ok((i + 5, JsonValue::Bool(false)))
            } else {
                Err(ParseError::Syntax)
            }
        },
        Schema::Int | Schema::Date | Schema::TimeMillis => number_value(s, i, I32_MAX),
        Schema::Long | Schema::TimestampMillis | Schema::TimeMicros | Schema::TimestampMicros => {
            number_value(s, i, I64_MAX)
        },
        Schema::Float => match float_literal(s, i) {
            Some(j) => {
                if float_fits(s, i, j, false) {
                    Ok((j, JsonValue::Float(crate::lex::text_of(s, i, j))))
                } else {
                    Err(ParseError::Invalid)
                }
            },
            None => Err(ParseError::Syntax),
        },
        Schema::Double => match float_literal(s, i) {
            Some(j) => {
                if float_fits(s, i, j, true) {
                    Ok((j, JsonValue::Double(crate::lex::text_of(s, i, j))))
                } else {
                    Err(ParseError::Invalid)
                }
            },
            None => Err(ParseError::Syntax),
        },
        Schema::String => match quoted(s, i) {
            Some((j, q)) => Ok((j, JsonValue::Str(q))),
            None => Err(ParseError::Syntax),
        },
        Schema::Bytes | Schema::Decimal { .. } => match quoted(s, i) {
            Some((j, q)) => Ok((j, bytes_value(&q))),
            None => Err(ParseError::Syntax),
        },
        Schema::Uuid => match quoted(s, i) {
            Some((j, q)) => match hyphenated_uuid(q.as_str()) {
                Some(u) => Ok((j, JsonValue::Str(u))),
                None => Err(ParseError::Invalid),
            },
            None => Err(ParseError::Syntax),
        },
        Schema::Array(e) => {
            if !(i < n && s[i] == '[') {
                return Err(ParseError::Syntax);
            }
            let k = skip_spaces(s, i + 1);
            if k < n && s[k] == ']' {
                let r = JsonValue::Array(Vec::new());
                assert(r@ == JsonV::Array(Seq::empty())) by {
                    if let JsonV::Array(v) = r@ {
                        assert(v =~= Seq::empty());
                    }
                }
                return Ok((k + 1, r));
            }
            match array_default(e, s, k) {
                Ok((j, items)) => Ok((j, JsonValue::Array(items))),
                Err(x) => Err(x),
            }
        },
        Schema::MapOf(e) => {
            if !(i < n && s[i] == '{') {
                return Err(ParseError::Syntax);
            }
            let k = skip_spaces(s, i + 1);
            if k < n && s[k] == '}' {
                let r = JsonValue::Object(Vec::new());
                assert(r@ == JsonV::Object(Seq::empty())) by {
                    if let JsonV::Object(v) = r@ {
                        assert(v =~= Seq::empty());
                    }
                }
                return Ok((k + 1, r));
            }
            match object_default(e, s, k) {
                Ok((j, entries)) => Ok((j, JsonValue::Object(entries))),
                Err(x) => Err(x),
            }
        },
        Schema::Union(u) => {
            if u.schemas.len() > 0 {
                parse_default(&u.schemas[0], s, i)
            } else {
                Err(ParseError::Union(UnionError::Empty))
            }
        },
        _ => Err(ParseError::Unsupported),
    }
}

} // verus!
