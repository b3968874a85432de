//! Literal syntax: integers, double-quoted strings with backslash escapes, the
//! two boolean words and `$name` variable references. Each parser reads a
//! literal that starts at a given position and reports where it ends.
use vstd::prelude::*;
use crate::text::{at, chars_of, digit, has_at, is_digit, is_word, push_char, word};
use crate::types::{Val, WoojinValue};

verus! {

/// The first position at or after `j` that holds no decimal digit.
pub open spec fn digits_end(s: Seq<char>, j: int) -> int
    decreases s.len() - j,
{
    if 0 <= j < s.len() && is_digit(s[j]) { digits_end(s, j + 1) } else { j }
}

/// The number that the digits `s[j..k]` write in decimal.
pub open spec fn digits_value(s: Seq<char>, j: int, k: int) -> int
    decreases k - j,
{
    if k <= j { 0 } else { digits_value(s, j, k - 1) * 10 + (s[k - 1] as int - '0' as int) }
}

/// An optional sign is one character long when present.
pub open spec fn sign_len(s: Seq<char>, i: int) -> int {
    if 0 <= i < s.len() && (s[i] == '+' || s[i] == '-') { 1 } else { 0 }
}

/// An integer literal `[+-]?digit+` at `i` whose value fits `i32`, and where it ends.
pub open spec fn int_at(s: Seq<char>, i: int) -> Option<(i32, int)> {
    let j = i + sign_len(s, i);
    let k = digits_end(s, j);
    let m = digits_value(s, j, k);
    let v = if sign_len(s, i) == 1 && s[i] == '-' { -m } else { m };
    if k == j || v < i32::MIN || v > i32::MAX { None } else { Some((v as i32, k)) }
}

/// A literal of the shape `[+-]?digit+.digit+` starts at `i`. No value of the
/// language holds such a number, so it is not read as an integer either.
pub open spec fn float_shape_at(s: Seq<char>, i: int) -> bool {
    let j = i + sign_len(s, i);
    let k = digits_end(s, j);
    k > j && k < s.len() && s[k] == '.' && digits_end(s, k + 1) > k + 1
}

/// The character an escape `\c` stands for.
pub open spec fn unescape(c: char) -> Option<char> {
    if c == '\\' {
        Some('\\')
    } else if c == '"' {
        Some('"')
    } else if c == 't' {
        Some('\t')
    } else if c == 'n' {
        Some('\n')
    } else if c == 'r' {
        Some('\r')
    } else if c == '0' {
        Some('\0')
    } else {
        None
    }
}

/// The rest of a string literal from `i`, with `acc` read so far: the whole
/// content and the position after the closing quote.
pub open spec fn string_body(s: Seq<char>, i: int, acc: Seq<char>) -> Option<(Seq<char>, int)>
    decreases s.len() - i,
{
    if i < 0 || i >= s.len() {
        None
    } else if s[i] == '"' {
        Some((acc, i + 1))
    } else if s[i] == '\\' {
        if i + 1 < s.len() && unescape(s[i + 1]) is Some {
            string_body(s, i + 2, acc.push(unescape(s[i + 1])->Some_0))
        } else {
            None
        }
    } else {
        string_body(s, i + 1, acc.push(s[i]))
    }
}

/// A string literal at `i`: its content and where it ends.
pub open spec fn string_at(s: Seq<char>, i: int) -> Option<(Seq<char>, int)> {
    if 0 <= i < s.len() && s[i] == '"' { string_body(s, i + 1, Seq::empty()) } else { None }
}

/// A boolean word at `i`: `uglyguri` is true, `beautifulguri` false.
pub open spec fn bool_at(s: Seq<char>, i: int) -> Option<(bool, int)> {
    if has_at(s, i, "uglyguri"@) {
        Some((true, i + 8))
    } else if has_at(s, i, "beautifulguri"@) {
        Some((false, i + 13))
    } else {
        None
    }
}

/// The first position at or after `j` that holds no name character.
pub open spec fn word_end(s: Seq<char>, j: int) -> int
    decreases s.len() - j,
{
    if 0 <= j < s.len() && is_word(s[j]) { word_end(s, j + 1) } else { j }
}

/// A variable reference `$name` at `i`: the name and where it ends.
pub open spec fn var_at(s: Seq<char>, i: int) -> Option<(Seq<char>, int)> {
    if 0 <= i < s.len() && s[i] == '$' && word_end(s, i + 1) > i + 1 {
        Some((s.subrange(i + 1, word_end(s, i + 1)), word_end(s, i + 1)))
    } else {
        None
    }
}

/// A literal value at `i`, tried as a string, an integer, a boolean and a
/// variable reference in turn.
pub open spec fn value_at(s: Seq<char>, i: int) -> Option<(Val, int)> {
    if string_at(s, i) is Some {
        Some((Val::Str(string_at(s, i)->Some_0.0), string_at(s, i)->Some_0.1))
    } else if float_shape_at(s, i) {
        None
    } else if int_at(s, i) is Some {
        Some((Val::Int(int_at(s, i)->Some_0.0), int_at(s, i)->Some_0.1))
    } else if bool_at(s, i) is Some {
        Some((Val::Bool(bool_at(s, i)->Some_0.0), bool_at(s, i)->Some_0.1))
    } else if var_at(s, i) is Some {
        Some((Val::Var(var_at(s, i)->Some_0.0), var_at(s, i)->Some_0.1))
    } else {
        None
    }
}

/// How one character is written inside a string literal.
pub open spec fn escape_char(c: char) -> Seq<char> {
    if c == '\\' {
        seq!['\\', '\\']
    } else if c == '"' {
        seq!['\\', '"']
    } else if c == '\t' {
        seq!['\\', 't']
    } else if c == '\n' {
        seq!['\\', 'n']
    } else if c == '\r' {
        seq!['\\', 'r']
    } else if c == '\0' {
        seq!['\\', '0']
    } else {
        seq![c]
    }
}

/// The characters of `t` as written inside a string literal.
pub open spec fn escaped(t: Seq<char>) -> Seq<char>
    decreases t.len(),
{
    if t.len() == 0 { Seq::empty() } else { escaped(t.drop_last()) + escape_char(t.last()) }
}

/// The string literal that stands for `t`.
pub open spec fn quoted(t: Seq<char>) -> Seq<char> {
    seq!['"'] + escaped(t) + seq!['"']
}

proof fn lemma_escaped_concat(a: Seq<char>, b: Seq<char>)
    ensures
        escaped(a + b) == escaped(a) + escaped(b),
    decreases b.len(),
{
    if b.len() == 0 {
        assert(a + b =~= a);
        assert(escaped(a) + escaped(b) =~= escaped(a));
    } else {
        lemma_escaped_concat(a, b.drop_last());
        assert((a + b).drop_last() =~= a + b.drop_last());
        assert(escaped(a) + escaped(b) =~= escaped(a) + escaped(b.drop_last()) + escape_char(b.last()));
    }
}

proof fn lemma_body_reads_escaped(p: Seq<char>, t: Seq<char>, rest: Seq<char>, acc: Seq<char>)
    ensures
        string_body(p + escaped(t) + seq!['"'] + rest, p.len() as int, acc)
            == Some((acc + t, (p.len() + escaped(t).len() + 1) as int)),
    decreases t.len(),
{
    let s = p + escaped(t) + seq!['"'] + rest;
    if t.len() == 0 {
        assert(s[p.len() as int] == '"');
        assert(acc + t =~= acc);
    } else {
        let c = t[0];
        let u = t.drop_first();
        assert(t =~= seq![c] + u);
        lemma_escaped_concat(seq![c], u);
        assert(escaped(seq![c]) =~= escape_char(c)) by {
            assert(seq![c].drop_last() =~= Seq::<char>::empty());
            assert(escaped(Seq::<char>::empty()) == Seq::<char>::empty());
            assert(seq![c].last() == c);
            assert(Seq::<char>::empty() + escape_char(c) =~= escape_char(c));
        }
        let q = p + escape_char(c);
        assert(s =~= q + escaped(u) + seq!['"'] + rest);
        lemma_body_reads_escaped(q, u, rest, acc.push(c));
        assert(acc.push(c) + u =~= acc + t);
        if escape_char(c).len() == 2 {
            assert(s[p.len() as int] == '\\');
            assert(unescape(s[p.len() + 1int]) == Some(c));
        } else {
            assert(s[p.len() as int] == c);
        }
    }
}

/// Writing a string as a literal and reading the literal back gives the same
/// string value, whatever text follows the literal.
pub proof fn law_string_round_trip(t: Seq<char>, rest: Seq<char>)
    ensures
        value_at(quoted(t) + rest, 0) == Some((Val::Str(t), quoted(t).len() as int)),
{
    let s = quoted(t) + rest;
    assert(s =~= seq!['"'] + escaped(t) + seq!['"'] + rest);
    lemma_body_reads_escaped(seq!['"'], t, rest, Seq::empty());
    assert(Seq::<char>::empty() + t =~= t);
}

pub proof fn lemma_digits_end_bounds(s: Seq<char>, j: int)
    requires
        0 <= j <= s.len(),
    ensures
        j <= digits_end(s, j) <= s.len(),
        forall|k: int| j <= k < digits_end(s, j) ==> is_digit(#[trigger] s[k]),
    decreases s.len() - j,
{
    if j < s.len() && is_digit(s[j]) {
        lemma_digits_end_bounds(s, j + 1);
    }
}

pub proof fn lemma_word_end_bounds(s: Seq<char>, j: int)
    requires
        0 <= j <= s.len(),
    ensures
        j <= word_end(s, j) <= s.len(),
    decreases s.len() - j,
{
    if j < s.len() && is_word(s[j]) {
        lemma_word_end_bounds(s, j + 1);
    }
}

pub proof fn lemma_digits_value_grows(s: Seq<char>, j: int, k: int, l: int)
    requires
        j <= k <= l,
        forall|x: int| j <= x < l ==> is_digit(#[trigger] s[x]),
    ensures
        0 <= digits_value(s, j, k) <= digits_value(s, j, l),
    decreases l - j,
{
    if l > k {
        lemma_digits_value_grows(s, j, k, l - 1);
    } else if k > j {
        lemma_digits_value_grows(s, j, k - 1, k - 1);
    }
}

pub fn digits_end_exec(s: &Vec<char>, j: usize) -> (r: usize)
    requires
        j <= s@.len(),
    ensures
        r as int == digits_end(s@, j as int),
        j <= r <= s@.len(),
    decreases s@.len() - j,
{
    if j < s.len() && digit(s[j]) { digits_end_exec(s, j + 1) } else { j }
}

/// Reads an integer literal at `i`.
pub fn parse_int(s: &Vec<char>, i: usize) -> (r: Option<(i32, usize)>)
    requires
        i <= s@.len(),
    ensures
        match r {
            Some((v, e)) => int_at(s@, i as int) == Some((v, e as int)),
            None => int_at(s@, i as int) is None,
        },
{
    let neg = i < s.len() && s[i] == '-';
    let j: usize = if i < s.len() && (s[i] == '+' || s[i] == '-') { i + 1 } else { i };
    let k = digits_end_exec(s, j);
    proof { lemma_digits_end_bounds(s@, j as int); }
    if k == j {
        return None;
    }
    let mut m: i64 = 0;
    let mut x: usize = j;
    while x < k
        invariant
            j <= x <= k <= s@.len(),
            j == i + sign_len(s@, i as int),
            k == digits_end(s@, j as int),
            forall|y: int| j <= y < k ==> is_digit(#[trigger] s@[y]),
            m == digits_value(s@, j as int, x as int),
            0 <= m <= 0x8000_0000,
        decreases k - x,
    {
        let d = (s[x] as u32 - '0' as u32) as i64;
        assert(d == s@[x as int] as int - '0' as int);
        m = m * 10 + d;
        assert(m == digits_value(s@, j as int, x + 1));
        x = x + 1;
        if m > 0x8000_0000 {
            proof {
                lemma_digits_value_grows(s@, j as int, x as int, k as int);
                assert(digits_value(s@, j as int, k as int) > 0x8000_0000);
                assert(j == i + sign_len(s@, i as int));
            }
            return None;
        }
    }
    let v: i64 = if neg { -m } else { m };
    if v > 0x7fff_ffff {
        return None;
    }
    Some((v as i32, k))
}

pub fn word_end_exec(s: &Vec<char>, j: usize) -> (r: usize)
    requires
        j <= s@.len(),
    ensures
        r as int == word_end(s@, j as int),
        j <= r <= s@.len(),
    decreases s@.len() - j,
{
    if j < s.len() && word(s[j]) { word_end_exec(s, j + 1) } else { j }
}

fn unescape_exec(c: char) -> (r: Option<char>)
    ensures
        r == unescape(c),
{
    if c == '\\' {
        Some('\\')
    } else if c == '"' {
        Some('"')
    } else if c == 't' {
        Some('\t')
    } else if c == 'n' {
        Some('\n')
    } else if c == 'r' {
        Some('\r')
    } else if c == '0' {
        Some('\0')
    } else {
        None
    }
}

/// Reads a string literal at `i`: its content, escapes replaced.
pub fn parse_string(s: &Vec<char>, i: usize) -> (r: Option<(String, usize)>)
    requires
        i <= s@.len(),
    ensures
        match r {
            Some((v, e)) => string_at(s@, i as int) == Some((v@, e as int)),
            None => string_at(s@, i as int) is None,
        },
{
    if !(i < s.len() && s[i] == '"') {
        return None;
    }
    let mut acc = String::new();
    let mut x: usize = i + 1;
    while x < s.len()
        invariant
            i < x <= s@.len(),
            string_body(s@, x as int, acc@) == string_at(s@, i as int),
        decreases s@.len() - x,
    {
        let c = s[x];
        if c == '"' {
            return Some((acc, x + 1));
        } else if c == '\\' {
            if x + 1 < s.len() {
                match unescape_exec(s[x + 1]) {
                    Some(e) => {
                        push_char(&mut acc, e);
                        x = x + 2;
                    },
                    None => return None,
                }
            } else {
                return None;
            }
        } else {
            push_char(&mut acc, c);
            x = x + 1;
        }
    }
    None
}

/// Reads a boolean word at `i`.
pub fn parse_bool(s: &Vec<char>, i: usize) -> (r: Option<(bool, usize)>)
    requires
        i <= s@.len(),
    ensures
        match r {
            Some((v, e)) => bool_at(s@, i as int) == Some((v, e as int)),
            None => bool_at(s@, i as int) is None,
        },
{
    proof {
        reveal_strlit("uglyguri");
        reveal_strlit("beautifulguri");
    }
    let n = s.len();
    if at(s, i, "uglyguri") {
        Some((true, i + 8))
    } else if at(s, i, "beautifulguri") {
        Some((false, i + 13))
    } else {
        None
    }
}

/// Reads a variable reference `$name` at `i`.
pub fn parse_variable_name(s: &Vec<char>, i: usize) -> (r: Option<(String, usize)>)
    requires
        i <= s@.len(),
    ensures
        match r {
            Some((v, e)) => var_at(s@, i as int) == Some((v@, e as int)),
            None => var_at(s@, i as int) is None,
        },
{
    if i < s.len() && s[i] == '$' {
        let e = word_end_exec(s, i + 1);
        proof { lemma_word_end_bounds(s@, i + 1); }
        if e > i + 1 {
            return Some((crate::text::string_of(s, i + 1, e), e));
        }
    }
    None
}

fn escape_exec(c: char, r: &mut String)
    ensures
        final(r)@ == old(r)@ + escape_char(c),
{
    if c == '\\' || c == '"' || c == '\t' || c == '\n' || c == '\r' || c == '\0' {
        push_char(r, '\\');
        let code = if c == '\\' {
            '\\'
        } else if c == '"' {
            '"'
        } else if c == '\t' {
            't'
        } else if c == '\n' {
            'n'
        } else if c == '\r' {
            'r'
        } else {
            '0'
        };
        push_char(r, code);
    } else {
        push_char(r, c);
    }
    assert(final(r)@ =~= old(r)@ + escape_char(c));
}

/// The string literal that stands for `t`: quoted, with `\\`, `"`, tab,
/// newline, carriage return and NUL escaped.
pub fn to_literal(t: &str) -> (r: String)
    ensures
        r@ == quoted(t@),
{
    let cs = chars_of(t);
    let mut r = String::new();
    push_char(&mut r, '"');
    let mut x: usize = 0;
    while x < cs.len()
        invariant
            x <= cs@.len(),
            cs@ == t@,
            r@ == seq!['"'] + escaped(cs@.subrange(0, x as int)),
        decreases cs.len() - x,
    {
        escape_exec(cs[x], &mut r);
        proof {
            assert(cs@.subrange(0, x + 1).drop_last() =~= cs@.subrange(0, x as int));
        }
        x = x + 1;
    }
    assert(cs@.subrange(0, cs@.len() as int) =~= t@);
    push_char(&mut r, '"');
    r
}

/// Reads a literal value at `i`.
pub fn parse_value(s: &Vec<char>, i: usize) -> (r: Option<(WoojinValue, usize)>)
    requires
        i <= s@.len(),
    ensures
        match r {
            Some((v, e)) => value_at(s@, i as int) == Some((v@, e as int)),
            None => value_at(s@, i as int) is None,
        },
        r is Some ==> i < r->Some_0.1 <= s@.len(),
{
    proof { lemma_value_end(s@, i as int); }
    if let Some((t, e)) = parse_string(s, i) {
        return Some((WoojinValue::String(t), e));
    }
    let j: usize = if i < s.len() && (s[i] == '+' || s[i] == '-') { i + 1 } else { i };
    let k = digits_end_exec(s, j);
    proof { lemma_digits_end_bounds(s@, j as int); }
    if k > j && k < s.len() && s[k] == '.' && digits_end_exec(s, k + 1) > k + 1 {
        return None;
    }
    if let Some((n, e)) = parse_int(s, i) {
        return Some((WoojinValue::Int(n), e));
    }
    if let Some((b, e)) = parse_bool(s, i) {
        return Some((WoojinValue::Bool(b), e));
    }
    if let Some((name, e)) = parse_variable_name(s, i) {
        return Some((WoojinValue::Var(name), e));
    }
    None
}

proof fn lemma_string_body_end(s: Seq<char>, i: int, acc: Seq<char>)
    requires
        0 <= i,
    ensures
        string_body(s, i, acc) is Some ==> i < string_body(s, i, acc)->Some_0.1 <= s.len(),
    decreases s.len() - i,
{
    if 0 <= i < s.len() && s[i] != '"' {
        if s[i] == '\\' {
            if i + 1 < s.len() && unescape(s[i + 1]) is Some {
                lemma_string_body_end(s, i + 2, acc.push(unescape(s[i + 1])->Some_0));
            }
        } else {
            lemma_string_body_end(s, i + 1, acc.push(s[i]));
        }
    }
}

/// A literal value, when there is one, ends after it starts and within the text.
pub proof fn lemma_value_end(s: Seq<char>, i: int)
    requires
        0 <= i <= s.len(),
    ensures
        value_at(s, i) is Some ==> i < value_at(s, i)->Some_0.1 <= s.len(),
{
    reveal_strlit("uglyguri");
    reveal_strlit("beautifulguri");
    lemma_string_body_end(s, i + 1, Seq::empty());
    lemma_digits_end_bounds(s, i + sign_len(s, i));
    if i + 1 <= s.len() {
        lemma_word_end_bounds(s, i + 1);
    }
}

} // verus!
