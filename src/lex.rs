use vstd::prelude::*;

verus! {

/// Why a parse failed.
#[derive(Clone, Copy, Debug, PartialEq, Eq, Structural)]
pub enum ParseError {
    /// An expected token, keyword or delimiter is absent.
    Syntax,
    /// The variants of a union break one of its rules.
    Union(crate::schema::UnionError),
    /// A value is malformed or out of range: a literal too large for its type,
    /// an invalid alias or UUID, a zero size or precision.
    Invalid,
    /// The input asks for something this parser does not implement: a
    /// `duration` default, or an unknown logical type.
    Unsupported,
}

pub open spec fn is_ws(c: char) -> bool {
    c == ' ' || c == '\t' || c == '\n' || c == '\r'
}

pub open spec fn is_ascii_letter(c: char) -> bool {
    ('a' <= c && c <= 'z') || ('A' <= c && c <= 'Z')
}

pub open spec fn is_ascii_digit(c: char) -> bool {
    '0' <= c && c <= '9'
}

pub open spec fn is_ident_start(c: char) -> bool {
    is_ascii_letter(c) || c == '_'
}

pub open spec fn is_ident_char(c: char) -> bool {
    is_ascii_letter(c) || is_ascii_digit(c) || c == '_'
}

/// The first position at or after `i` that does not hold whitespace.
pub open spec fn skip_ws(s: Seq<char>, i: int) -> int
    decreases s.len() - i,
{
    if 0 <= i < s.len() && is_ws(s[i]) {
        skip_ws(s, i + 1)
    } else {
        i
    }
}

/// Whether `t` stands in `s` at position `i`.
pub open spec fn has_lit(s: Seq<char>, i: int, t: Seq<char>) -> bool {
    0 <= i && i + t.len() <= s.len() && s.subrange(i, i + t.len()) == t
}

/// The first position at or after `i` where `*/` starts, if any.
pub open spec fn find_close(s: Seq<char>, i: int) -> Option<int>
    decreases s.len() - i,
{
    if i < 0 || i + 2 > s.len() {
        None
    } else if s[i] == '*' && s[i + 1] == '/' {
        Some(i)
    } else {
        find_close(s, i + 1)
    }
}

/// The first position at or after `i` that holds a newline, if any.
pub open spec fn find_newline(s: Seq<char>, i: int) -> Option<int>
    decreases s.len() - i,
{
    if i < 0 || i >= s.len() {
        None
    } else if s[i] == '\n' {
        Some(i)
    } else {
        find_newline(s, i + 1)
    }
}

/// The end of a `/* ... */` or `// ...` comment that starts at `i`.
pub open spec fn comment_end(s: Seq<char>, i: int) -> Option<int> {
    if has_lit(s, i, seq!['/', '*']) {
        match find_close(s, i + 2) {
            Some(k) => Some(k + 2),
            None => None,
        }
    } else if has_lit(s, i, seq!['/', '/']) {
        match find_newline(s, i + 2) {
            Some(k) => Some(k + 1),
            None => None,
        }
    } else {
        None
    }
}

/// Whitespace, at most one comment, and whitespace again.
pub open spec fn skip_ws_comment(s: Seq<char>, i: int) -> int {
    let j = skip_ws(s, i);
    match comment_end(s, j) {
        Some(k) => skip_ws(s, k),
        None => j,
    }
}

/// Whitespace, at most one comment, and whitespace again; a doc comment
/// `/** .. */` is not skipped but left for what follows.
pub open spec fn skip_ws_comment_keep_doc(s: Seq<char>, i: int) -> int {
    let j = skip_ws(s, i);
    if has_lit(s, j, "/**"@) {
        j
    } else {
        skip_ws_comment(s, i)
    }
}

/// The end of the longest run of identifier characters from `i`.
pub open spec fn ident_end(s: Seq<char>, i: int) -> int
    decreases s.len() - i,
{
    if 0 <= i < s.len() && is_ident_char(s[i]) {
        ident_end(s, i + 1)
    } else {
        i
    }
}

/// A name `[A-Za-z_][A-Za-z0-9_]*` at `i`, taken as long as it goes: its end.
pub open spec fn var_name_end(s: Seq<char>, i: int) -> Option<int> {
    let j = ident_end(s, i);
    if j > i && is_ident_start(s[i]) {
        Some(j)
    } else {
        None
    }
}

/// Whether `n` is a whole name: what [`var_name_end`] accepts in full.
pub open spec fn is_valid_name(n: Seq<char>) -> bool {
    n.len() > 0 && is_ident_start(n[0]) && forall|k: int| 0 <= k < n.len() ==> is_ident_char(#[trigger] n[k])
}

/// The end of the longest run of decimal digits from `i`.
pub open spec fn digits_end(s: Seq<char>, i: int) -> int
    decreases s.len() - i,
{
    if 0 <= i < s.len() && is_ascii_digit(s[i]) {
        digits_end(s, i + 1)
    } else {
        i
    }
}

pub open spec fn digit_value(c: char) -> int {
    (c as int) - ('0' as int)
}

/// The number that the digits of `s` in `[i, j)` spell.
pub open spec fn digits_value(s: Seq<char>, i: int, j: int) -> int
    decreases j - i,
{
    if j <= i {
        0
    } else {
        digits_value(s, i, j - 1) * 10 + digit_value(s[j - 1])
    }
}

/// One or more digits at `i` whose value is at most `max`: their end and value.
pub open spec fn uint_at(s: Seq<char>, i: int, max: int) -> Option<(int, int)> {
    let j = digits_end(s, i);
    if j == i || digits_value(s, i, j) > max {
        None
    } else {
        Some((j, digits_value(s, i, j)))
    }
}

/// What an escape sequence `\c` stands for.
pub open spec fn escaped_char(c: char) -> Option<char> {
    if c == 'n' {
        Some('\n')
    } else if c == 'r' {
        Some('\r')
    } else if c == 't' {
        Some('\t')
    } else if c == 'b' {
        Some('\u{8}')
    } else if c == 'f' {
        Some('\u{c}')
    } else if c == '\\' || c == '/' || c == '"' {
        Some(c)
    } else {
        None
    }
}

/// The rest of a quoted string from `i`, with `acc` already read: the end
/// after the closing quote and the unescaped content.
pub open spec fn quoted_rest(s: Seq<char>, i: int, acc: Seq<char>) -> Option<(int, Seq<char>)>
    decreases s.len() - i,
{
    if i < 0 || i >= s.len() {
        None
    } else if s[i] == '"' {
        Some((i + 1, acc))
    } else if s[i] == '\\' {
        if i + 1 < s.len() && escaped_char(s[i + 1]) is Some {
            quoted_rest(s, i + 2, acc.push(escaped_char(s[i + 1])->0))
        } else {
            None
        }
    } else {
        quoted_rest(s, i + 1, acc.push(s[i]))
    }
}

/// A double-quoted string at `i`: its end and its unescaped content.
pub open spec fn quoted_at(s: Seq<char>, i: int) -> Option<(int, Seq<char>)> {
    if 0 <= i < s.len() && s[i] == '"' {
        quoted_rest(s, i + 1, Seq::empty())
    } else {
        None
    }
}

/// Relies on `String::push`: the character is appended.
#[verifier::external_body]
pub(crate) fn push_char(out: &mut String, c: char)
    ensures
        final(out)@ == old(out)@.push(c),
{
    out.push(c)
}

/// Whether `q` holds exactly the text `t`.
pub fn is_text(q: &String, t: &str) -> (r: bool)
    ensures
        r == (q@ == t@),
{
    let qs = q.as_str();
    let n = qs.unicode_len();
    if n != t.unicode_len() {
        return false;
    }
    let mut k: usize = 0;
    while k < n
        invariant
            n == q@.len(),
            n == t@.len(),
            qs@ == q@,
            0 <= k <= n,
            q@.subrange(0, k as int) == t@.subrange(0, k as int),
        decreases n - k,
    {
        if qs.get_char(k) != t.get_char(k) {
            return false;
        }
        assert(q@.subrange(0, k + 1) == t@.subrange(0, k + 1));
        k += 1;
    }
    assert(q@ == q@.subrange(0, n as int));
    assert(t@ == t@.subrange(0, n as int));
    true
}

/// The characters of `text`, in order.
pub fn chars_of(text: &str) -> (r: Vec<char>)
    ensures
        r@ == text@,
{
    let n = text.unicode_len();
    let mut r: Vec<char> = Vec::new();
    let mut i: usize = 0;
    while i < n
        invariant
            n == text@.len(),
            0 <= i <= n,
            r@ == text@.subrange(0, i as int),
        decreases n - i,
    {
        r.push(text.get_char(i));
        i += 1;
    }
    assert(r@ == text@);
    r
}

/// The characters of `s` in `[i, j)` as a string.
pub fn text_of(s: &Vec<char>, i: usize, j: usize) -> (r: String)
    requires
        i <= j <= s@.len(),
    ensures
        r@ == s@.subrange(i as int, j as int),
{
    let mut r = String::new();
    let mut k: usize = i;
    while k < j
        invariant
            i <= k <= j <= s@.len(),
            r@ == s@.subrange(i as int, k as int),
        decreases j - k,
    {
        push_char(&mut r, s[k]);
        assert(r@ == s@.subrange(i as int, k + 1));
        k += 1;
    }
    r
}

/// The characters of `s` in `[i, j)`.
pub fn chars_between(s: &Vec<char>, i: usize, j: usize) -> (r: Vec<char>)
    requires
        i <= j <= s@.len(),
    ensures
        r@ == s@.subrange(i as int, j as int),
{
    let mut r: Vec<char> = Vec::new();
    let mut k: usize = i;
    while k < j
        invariant
            i <= k <= j <= s@.len(),
            r@ == s@.subrange(i as int, k as int),
        decreases j - k,
    {
        r.push(s[k]);
        assert(r@ == s@.subrange(i as int, k + 1));
        k += 1;
    }
    r
}

pub fn skip_spaces(s: &Vec<char>, i: usize) -> (r: usize)
    requires
        i <= s@.len(),
    ensures
        r == skip_ws(s@, i as int),
        i <= r <= s@.len(),
{
    let mut k = i;
    while k < s.len() && (s[k] == ' ' || s[k] == '\t' || s[k] == '\n' || s[k] == '\r')
        invariant
            i <= k <= s@.len(),
            skip_ws(s@, i as int) == skip_ws(s@, k as int),
        decreases s@.len() - k,
    {
        k += 1;
    }
    k
}

/// Whether the text `t` stands in `s` at `i`.
pub fn lit(s: &Vec<char>, i: usize, t: &str) -> (r: bool)
    requires
        i <= s@.len(),
    ensures
        r == has_lit(s@, i as int, t@),
{
    let n = t.unicode_len();
    let len = s.len();
    if n > len - i {
        return false;
    }
    let mut k: usize = 0;
    while k < n
        invariant
            n == t@.len(),
            len == s@.len(),
            i + n <= s@.len(),
            0 <= k <= n,
            s@.subrange(i as int, i + k) == t@.subrange(0, k as int),
        decreases n - k,
    {
        if s[i + k] != t.get_char(k) {
            assert(s@.subrange(i as int, i + n)[k as int] != t@[k as int]);
            return false;
        }
        assert(s@.subrange(i as int, i + k + 1) == t@.subrange(0, k + 1));
        k += 1;
    }
    assert(t@.subrange(0, n as int) == t@);
    true
}

pub fn comment_at(s: &Vec<char>, i: usize) -> (r: Option<usize>)
    requires
        i <= s@.len(),
    ensures
        r matches Some(k) ==> comment_end(s@, i as int) == Some(k as int) && i < k <= s@.len(),
        r is None ==> comment_end(s@, i as int) is None,
{
    let n = s.len();
    if i < n && n - i >= 2 && s[i] == '/' && s[i + 1] == '*' {
        assert(s@.subrange(i as int, i + 2) == seq!['/', '*']);
        let mut k = i + 2;
        while n - k >= 2 && !(s[k] == '*' && s[k + 1] == '/')
            invariant
                n == s@.len(),
                i + 2 <= k <= n,
                find_close(s@, i + 2) == find_close(s@, k as int),
            decreases n - k,
        {
            k += 1;
        }
        if n - k >= 2 {
            Some(k + 2)
        } else {
            None
        }
    } else if i < n && n - i >= 2 && s[i] == '/' && s[i + 1] == '/' {
        assert(s@.subrange(i as int, i + 2) == seq!['/', '/']);
        assert(!has_lit(s@, i as int, seq!['/', '*'])) by {
            assert(s@.subrange(i as int, i + 2)[1] == '/');
        }
        let mut k = i + 2;
        while k < n && s[k] != '\n'
            invariant
                n == s@.len(),
                i + 2 <= k <= n,
                find_newline(s@, i + 2) == find_newline(s@, k as int),
            decreases n - k,
        {
            k += 1;
        }
        if k < n {
            Some(k + 1)
        } else {
            None
        }
    } else {
        assert(!has_lit(s@, i as int, seq!['/', '*']) && !has_lit(s@, i as int, seq!['/', '/'])) by {
            if i + 2 <= n {
                assert(s@.subrange(i as int, i + 2)[0] == s@[i as int]);
                assert(s@.subrange(i as int, i + 2)[1] == s@[i + 1]);
            }
        }
        None
    }
}

/// Skips whitespace, at most one comment, and whitespace again.
pub fn skip_spaces_comment(s: &Vec<char>, i: usize) -> (r: usize)
    requires
        i <= s@.len(),
    ensures
        r == skip_ws_comment(s@, i as int),
        i <= r <= s@.len(),
{
    let j = skip_spaces(s, i);
    match comment_at(s, j) {
        Some(k) => skip_spaces(s, k),
        None => j,
    }
}

/// Skips whitespace, at most one comment, and whitespace again; a doc
/// comment is left for what follows.
pub fn skip_spaces_comment_keep_doc(s: &Vec<char>, i: usize) -> (r: usize)
    requires
        i <= s@.len(),
    ensures
        r == skip_ws_comment_keep_doc(s@, i as int),
        i <= r <= s@.len(),
{
    let j = skip_spaces(s, i);
    if lit(s, j, "/**") {
        j
    } else {
        skip_spaces_comment(s, i)
    }
}

/// A name `[A-Za-z_][A-Za-z0-9_]*` at `i`: its end and text.
pub fn var_name(s: &Vec<char>, i: usize) -> (r: Option<(usize, String)>)
    requires
        i <= s@.len(),
    ensures
        r is Some <==> var_name_end(s@, i as int) is Some,
        r matches Some((j, t)) ==> var_name_end(s@, i as int) == Some(j as int) && t@ == s@.subrange(
            i as int,
            j as int,
        ) && i < j <= s@.len(),
{
    let mut k = i;
    while k < s.len() && (('a' <= s[k] && s[k] <= 'z') || ('A' <= s[k] && s[k] <= 'Z') || ('0' <= s[k]
        && s[k] <= '9') || s[k] == '_')
        invariant
            i <= k <= s@.len(),
            ident_end(s@, i as int) == ident_end(s@, k as int),
        decreases s@.len() - k,
    {
        k += 1;
    }
    if k > i && (('a' <= s[i] && s[i] <= 'z') || ('A' <= s[i] && s[i] <= 'Z') || s[i] == '_') {
        Some((k, text_of(s, i, k)))
    } else {
        None
    }
}

proof fn lemma_digits_value_grows(s: Seq<char>, i: int, j: int, k: int)
    requires
        i <= j <= k,
        forall|m: int| i <= m < k ==> is_ascii_digit(#[trigger] s[m]),
    ensures
        digits_value(s, i, j) <= digits_value(s, i, k),
        0 <= digits_value(s, i, j),
    decreases k - i,
{
    if k > j {
        lemma_digits_value_grows(s, i, j, k - 1);
    } else if j > i {
        lemma_digits_value_grows(s, i, j - 1, j - 1);
    }
}

/// One or more digits at `i` whose value is at most `max`: their end and value.
pub fn uint(s: &Vec<char>, i: usize, max: u64) -> (r: Option<(usize, u64)>)
    requires
        i <= s@.len(),
    ensures
        r is Some <==> uint_at(s@, i as int, max as int) is Some,
        r matches Some((j, v)) ==> uint_at(s@, i as int, max as int) == Some((j as int, v as int)) && i < j
            <= s@.len(),
{
    let mut k = i;
    while k < s.len() && '0' <= s[k] && s[k] <= '9'
        invariant
            i <= k <= s@.len(),
            digits_end(s@, i as int) == digits_end(s@, k as int),
            forall|m: int| i <= m < k ==> is_ascii_digit(#[trigger] s@[m]),
        decreases s@.len() - k,
    {
        k += 1;
    }
    if k == i {
        return None;
    }
    let mut acc: u64 = 0;
    let mut m = i;
    while m < k
        invariant
            i <= m <= k <= s@.len(),
            k == digits_end(s@, i as int),
            forall|l: int| i <= l < k ==> is_ascii_digit(#[trigger] s@[l]),
            acc as int == digits_value(s@, i as int, m as int),
            acc <= max,
        decreases k - m,
    {
        let d = (s[m] as u32 - '0' as u32) as u64;
        assert(d as int == digit_value(s@[m as int]));
        if d > max || acc > (max - d) / 10 {
            assert(digits_value(s@, i as int, m + 1) > max as int) by (nonlinear_arith)
                requires
                    digits_value(s@, i as int, m + 1) == acc * 10 + d,
                    d > max || acc > (max - d) / 10,
                    acc >= 0,
            {
            }
            proof {
                lemma_digits_value_grows(s@, i as int, m + 1, k as int);
            }
            return None;
        }
        assert(acc * 10 + d <= max) by (nonlinear_arith)
            requires
                acc <= (max - d) / 10,
                d <= max,
        {
        }
        acc = acc * 10 + d;
        m += 1;
    }
    Some((k, acc))
}

/// A double-quoted string at `i`: its end and its unescaped content.
pub fn quoted(s: &Vec<char>, i: usize) -> (r: Option<(usize, String)>)
    requires
        i <= s@.len(),
    ensures
        r is Some <==> quoted_at(s@, i as int) is Some,
        r matches Some((j, t)) ==> quoted_at(s@, i as int) == Some((j as int, t@)) && j <= s@.len(),
{
    let n = s.len();
    if i >= n || s[i] != '"' {
        return None;
    }
    let mut out = String::new();
    let mut k = i + 1;
    while k < n
        invariant
            n == s@.len(),
            i < k <= n,
            quoted_at(s@, i as int) == quoted_rest(s@, k as int, out@),
        decreases n - k,
    {
        let c = s[k];
        if c == '"' {
            return Some((k + 1, out));
        } else if c == '\\' {
            if k + 1 >= n {
                return None;
            }
            let e = s[k + 1];
            let u = if e == 'n' {
                '\n'
            } else if e == 'r' {
                '\r'
            } else if e == 't' {
                '\t'
            } else if e == 'b' {
                '\u{8}'
            } else if e == 'f' {
                '\u{c}'
            } else if e == '\\' || e == '/' || e == '"' {
                e
            } else {
                return None;
            };
            push_char(&mut out, u);
            k += 2;
        } else {
            push_char(&mut out, c);
            k += 1;
        }
    }
    None
}

} // verus!
