use vstd::prelude::*;
use crate::text::{chars_of, decimal, digit_char, push_char};

verus! {

/// The lowercase hexadecimal digit for a value below sixteen.
pub open spec fn hex_digit(v: int) -> char {
    if v < 10 {
        ((48 + v) as u8) as char
    } else {
        ((97 + v - 10) as u8) as char
    }
}

/// How a JSON string literal writes one character: quote, backslash and the
/// control characters are escaped, short forms first, `\u00xx` otherwise.
pub open spec fn json_escape_char(c: char) -> Seq<char> {
    if c == '"' {
        seq!['\\', '"']
    } else if c == '\\' {
        seq!['\\', '\\']
    } else if c == '\x08' {
        seq!['\\', 'b']
    } else if c == '\t' {
        seq!['\\', 't']
    } else if c == '\n' {
        seq!['\\', 'n']
    } else if c == '\x0c' {
        seq!['\\', 'f']
    } else if c == '\r' {
        seq!['\\', 'r']
    } else if (c as u32) < 32 {
        let v = (c as u32) as int;
        seq!['\\', 'u', '0', '0', hex_digit(v / 16), hex_digit(v % 16)]
    } else {
        seq![c]
    }
}

pub open spec fn json_escape(s: Seq<char>) -> Seq<char>
    decreases s.len(),
{
    if s.len() == 0 {
        seq![]
    } else {
        json_escape(s.drop_last()) + json_escape_char(s.last())
    }
}

/// `s` as a JSON string literal, in double quotes.
pub open spec fn json_string(s: Seq<char>) -> Seq<char> {
    seq!['"'] + json_escape(s) + seq!['"']
}

/// What follows `lit` at the start of `s`, if `s` starts with it.
pub open spec fn after_literal(s: Seq<char>, lit: Seq<char>) -> Option<Seq<char>> {
    if lit.len() <= s.len() && s.take(lit.len() as int) == lit {
        Some(s.skip(lit.len() as int))
    } else {
        None
    }
}

pub open spec fn is_digit(c: char) -> bool {
    '0' <= c && c <= '9'
}

/// The number of ASCII digits that `s` starts with.
pub open spec fn digit_run(s: Seq<char>) -> nat
    decreases s.len(),
{
    if s.len() > 0 && is_digit(s[0]) {
        1 + digit_run(s.skip(1))
    } else {
        0
    }
}

pub open spec fn digit_value(c: char) -> int {
    (c as u32) as int - 48
}

/// The value of a string of decimal digits.
pub open spec fn digits_value(d: Seq<char>) -> int
    decreases d.len(),
{
    if d.len() == 0 {
        0
    } else {
        digits_value(d.drop_last()) * 10 + digit_value(d.last())
    }
}

/// A number of decimal digits at the start of `s` that fits in `u64`, and
/// the text after it.
pub open spec fn read_u64(s: Seq<char>) -> Option<(u64, Seq<char>)> {
    let n = digit_run(s);
    if n == 0 || digits_value(s.take(n as int)) > u64::MAX {
        None
    } else {
        Some((digits_value(s.take(n as int)) as u64, s.skip(n as int)))
    }
}

/// The value of a hexadecimal digit (`0-9 a-f`), or -1.
pub open spec fn hex_value(c: char) -> int {
    if '0' <= c && c <= '9' {
        (c as u32) as int - 48
    } else if 'a' <= c && c <= 'f' {
        (c as u32) as int - 87
    } else {
        -1
    }
}

/// The character that the escape sequence at the start of `s` stands for:
/// the short forms, and `\u00xx` for the control characters.
pub open spec fn unescape_one(s: Seq<char>) -> Option<char> {
    if s.len() >= 2 && s[0] == '\\' {
        let e = s[1];
        if e == '"' {
            Some('"')
        } else if e == '\\' {
            Some('\\')
        } else if e == 'b' {
            Some('\x08')
        } else if e == 't' {
            Some('\t')
        } else if e == 'n' {
            Some('\n')
        } else if e == 'f' {
            Some('\x0c')
        } else if e == 'r' {
            Some('\r')
        } else if e == 'u' && s.len() >= 6 && s[2] == '0' && s[3] == '0' && 0 <= hex_value(s[4])
            <= 1 && 0 <= hex_value(s[5]) {
            Some(((hex_value(s[4]) * 16 + hex_value(s[5])) as u8) as char)
        } else {
            None
        }
    } else {
        None
    }
}

/// The length of the escape sequence at the start of `s`.
pub open spec fn escape_len(s: Seq<char>) -> int {
    if s[1] == 'u' {
        6
    } else {
        2
    }
}

pub open spec fn prepend(
    prefix: Seq<char>,
    o: Option<(Seq<char>, Seq<char>)>,
) -> Option<(Seq<char>, Seq<char>)> {
    match o {
        Some((t, r)) => Some((prefix + t, r)),
        None => None,
    }
}

/// The contents of a JSON string literal whose opening quote is read, and the
/// text after its closing quote. Raw control characters are refused.
pub open spec fn read_string_body(s: Seq<char>) -> Option<(Seq<char>, Seq<char>)>
    decreases s.len(),
{
    if s.len() == 0 {
        None
    } else if s[0] == '"' {
        Some((seq![], s.skip(1)))
    } else if s[0] == '\\' {
        match unescape_one(s) {
            Some(c) => prepend(seq![c], read_string_body(s.skip(escape_len(s)))),
            None => None,
        }
    } else if (s[0] as u32) < 32 {
        None
    } else {
        prepend(seq![s[0]], read_string_body(s.skip(1)))
    }
}

/// A JSON string literal at the start of `s`: its contents and the text after.
pub open spec fn read_string(s: Seq<char>) -> Option<(Seq<char>, Seq<char>)> {
    if s.len() > 0 && s[0] == '"' {
        read_string_body(s.skip(1))
    } else {
        None
    }
}

pub proof fn lemma_decimal_digits(n: nat)
    ensures
        forall|k: int| 0 <= k < decimal(n).len() ==> is_digit(#[trigger] decimal(n)[k]),
        digits_value(decimal(n)) == n,
        decimal(n).len() > 0,
    decreases n,
{
    if n >= 10 {
        lemma_decimal_digits(n / 10);
        let d = decimal(n);
        assert(d.drop_last() == decimal(n / 10));
        assert(n == (n / 10) * 10 + n % 10);
        assert(digit_value(digit_char(n % 10)) == n % 10);
        assert(d.last() == digit_char(n % 10));
        assert(digits_value(d) == digits_value(d.drop_last()) * 10 + digit_value(d.last()));
    } else {
        let d = decimal(n);
        assert(digit_value(digit_char(n)) == n);
        assert(d.drop_last() =~= Seq::<char>::empty());
        assert(digits_value(d.drop_last()) == 0);
        assert(digits_value(d) == digits_value(d.drop_last()) * 10 + digit_value(d.last()));
    }
}

proof fn lemma_digit_run_exact(s: Seq<char>, m: int)
    requires
        0 <= m <= s.len(),
        forall|k: int| 0 <= k < m ==> is_digit(#[trigger] s[k]),
        m == s.len() || !is_digit(s[m]),
    ensures
        digit_run(s) == m,
    decreases m,
{
    if m > 0 {
        lemma_digit_run_exact(s.skip(1), m - 1);
    }
}

/// A decimal numeral followed by anything but a digit reads back as its value.
pub proof fn lemma_read_decimal(v: u64, rest: Seq<char>)
    requires
        rest.len() == 0 || !is_digit(rest[0]),
    ensures
        read_u64(decimal(v as nat) + rest) == Some((v, rest)),
{
    let d = decimal(v as nat);
    let s = d + rest;
    lemma_decimal_digits(v as nat);
    assert forall|k: int| 0 <= k < d.len() implies is_digit(#[trigger] s[k]) by {
        assert(s[k] == d[k]);
    }
    lemma_digit_run_exact(s, d.len() as int);
    assert(s.take(d.len() as int) == d);
    assert(s.skip(d.len() as int) == rest);
}

/// Escaping distributes over concatenation.
proof fn lemma_json_escape_concat(a: Seq<char>, b: Seq<char>)
    ensures
        json_escape(a + b) == json_escape(a) + json_escape(b),
    decreases b.len(),
{
    if b.len() == 0 {
        assert(a + b == a);
    } else {
        lemma_json_escape_concat(a, b.drop_last());
        assert((a + b).drop_last() == a + b.drop_last());
        assert(json_escape(b) == json_escape(b.drop_last()) + json_escape_char(b.last()));
    }
}

proof fn lemma_hex_round_trip(v: int)
    requires
        0 <= v < 16,
    ensures
        hex_value(hex_digit(v)) == v,
{
}

/// One escaped character reads back as itself.
proof fn lemma_read_escaped_char(c: char, t: Seq<char>)
    ensures
        read_string_body(json_escape_char(c) + t) == prepend(seq![c], read_string_body(t)),
{
    let e = json_escape_char(c);
    let s = e + t;
    assert(s.skip(e.len() as int) == t);
    if c == '"' || c == '\\' || c == '\x08' || c == '\t' || c == '\n' || c == '\x0c' || c == '\r' {
        assert(s[0] == '\\');
        assert(s[1] == e[1]);
        assert(unescape_one(s) == Some(c));
    } else if (c as u32) < 32 {
        let hi = (c as u32) as int / 16;
        let lo = (c as u32) as int % 16;
        lemma_hex_round_trip(hi);
        lemma_hex_round_trip(lo);
        assert(s[1] == 'u' && s[2] == '0' && s[3] == '0');
        assert(s[4] == hex_digit(hi) && s[5] == hex_digit(lo));
        assert(((hi * 16 + lo) as u8) as char == c);
        assert(unescape_one(s) == Some(c));
    } else {
        assert(s[0] == c);
        assert(s.skip(1) == t);
    }
}

/// The escaped text of `x`, closed by a quote, reads back as `x`.
proof fn lemma_read_escaped(x: Seq<char>, rest: Seq<char>)
    ensures
        read_string_body(json_escape(x) + (seq!['"'] + rest)) == Some((x, rest)),
    decreases x.len(),
{
    if x.len() == 0 {
        assert(json_escape(x) + (seq!['"'] + rest) == seq!['"'] + rest);
        assert((seq!['"'] + rest).skip(1) == rest);
    } else {
        let tail = x.skip(1);
        lemma_json_escape_concat(seq![x[0]], tail);
        assert(seq![x[0]] + tail == x);
        assert(json_escape(seq![x[0]]) == json_escape(seq![]) + json_escape_char(x[0])) by {
            assert(seq![x[0]].drop_last() == Seq::<char>::empty());
        }
        let t = json_escape(tail) + (seq!['"'] + rest);
        assert(json_escape(x) + (seq!['"'] + rest) == json_escape_char(x[0]) + t);
        lemma_read_escaped_char(x[0], t);
        lemma_read_escaped(tail, rest);
    }
}

/// A string written as a JSON literal reads back as itself.
pub proof fn lemma_read_json_string(x: Seq<char>, rest: Seq<char>)
    ensures
        read_string(json_string(x) + rest) == Some((x, rest)),
{
    let s = json_string(x) + rest;
    assert(s.skip(1) == json_escape(x) + (seq!['"'] + rest));
    lemma_read_escaped(x, rest);
}

/// `lit` is found at the start of `lit + rest`.
pub proof fn lemma_after_literal(lit: Seq<char>, rest: Seq<char>)
    ensures
        after_literal(lit + rest, lit) == Some(rest),
{
    assert((lit + rest).take(lit.len() as int) == lit);
    assert((lit + rest).skip(lit.len() as int) == rest);
}

/// Where the text after `lit` starts, if `cs[i..]` starts with `lit`.
pub fn expect_literal(cs: &Vec<char>, i: usize, lit: &str) -> (r: Option<usize>)
    requires
        i <= cs@.len(),
    ensures
        match after_literal(cs@.skip(i as int), lit@) {
            Some(rest) => r matches Some(j) && i <= j <= cs@.len() && cs@.skip(j as int) == rest,
            None => r is None,
        },
{
    let l = chars_of(lit);
    let ghost s = cs@.skip(i as int);
    if l.len() > cs.len() - i {
        return None;
    }
    let n = cs.len();
    let mut k: usize = 0;
    while k < l.len()
        invariant
            n == cs@.len(),
            l@ == lit@,
            i + l@.len() <= cs@.len(),
            s == cs@.skip(i as int),
            k <= l@.len(),
            forall|m: int| 0 <= m < k ==> s[m] == l@[m],
        decreases l.len() - k,
    {
        assert(i + k < n);
        if cs[i + k] != l[k] {
            assert(s.take(l@.len() as int)[k as int] != l@[k as int]);
            return None;
        }
        k = k + 1;
    }
    assert(s.take(l@.len() as int) == l@);
    assert(s.skip(l@.len() as int) == cs@.skip(i + l@.len()));
    Some(i + l.len())
}

proof fn lemma_digits_value_grows(d: Seq<char>, k: int, m: int)
    requires
        0 <= k <= m <= d.len(),
        forall|j: int| 0 <= j < d.len() ==> is_digit(#[trigger] d[j]),
    ensures
        digits_value(d.take(k)) <= digits_value(d.take(m)),
        digits_value(d.take(m)) >= 0,
    decreases m,
{
    if m > 0 {
        assert(d.take(m).drop_last() == d.take(m - 1));
        if k < m {
            lemma_digits_value_grows(d, k, m - 1);
        } else {
            lemma_digits_value_grows(d, k - 1, m - 1);
        }
    }
}

/// Reads a number of decimal digits at `cs[i..]` that fits in `u64`.
pub fn read_u64_at(cs: &Vec<char>, i: usize) -> (r: Option<(u64, usize)>)
    requires
        i <= cs@.len(),
    ensures
        match read_u64(cs@.skip(i as int)) {
            Some((v, rest)) => r matches Some((w, j)) && w == v && i <= j <= cs@.len() && cs@.skip(
                j as int,
            ) == rest,
            None => r is None,
        },
{
    let ghost s = cs@.skip(i as int);
    let mut j: usize = i;
    let mut v: u64 = 0;
    while j < cs.len() && '0' <= cs[j] && cs[j] <= '9'
        invariant
            i <= j <= cs@.len(),
            s == cs@.skip(i as int),
            forall|m: int| 0 <= m < j - i ==> is_digit(#[trigger] s[m]),
            v == digits_value(s.take(j - i)),
        decreases cs.len() - j,
    {
        let d: u64 = (cs[j] as u32 - 48) as u64;
        assert(s.take(j - i + 1).drop_last() == s.take(j - i));
        assert(s.take(j - i + 1).last() == cs@[j as int]);
        if v > (u64::MAX - d) / 10 {
            proof {
                let mut n = j - i + 1;
                let run = digit_run(s);
                assert forall|m: int| 0 <= m < j - i + 1 implies is_digit(#[trigger] s[m]) by {
                    if m == j - i {
                        assert(s[m] == cs@[j as int]);
                    }
                }
                lemma_run_prefix(s, j - i + 1);
                lemma_digits_value_grows(s.take(run as int), j - i + 1, run as int);
                assert(s.take(run as int).take(j - i + 1) == s.take(j - i + 1));
                assert(s.take(run as int).take(run as int) == s.take(run as int));
                assert(digits_value(s.take(j - i + 1)) > u64::MAX) by (nonlinear_arith)
                    requires
                        digits_value(s.take(j - i + 1)) == v * 10 + d,
                        v > (u64::MAX - d) / 10,
                        d <= 9,
                ;
            }
            return None;
        }
        v = v * 10 + d;
        j = j + 1;
    }
    proof {
        lemma_digit_run_exact(s, j - i);
    }
    if j == i {
        return None;
    }
    assert(s.skip(j - i) == cs@.skip(j as int));
    Some((v, j))
}

/// The digit run of `s` is at least `m` where its first `m` are digits.
proof fn lemma_run_prefix(s: Seq<char>, m: int)
    requires
        0 <= m <= s.len(),
        forall|k: int| 0 <= k < m ==> is_digit(#[trigger] s[k]),
    ensures
        m <= digit_run(s) <= s.len(),
        forall|k: int| 0 <= k < digit_run(s) ==> is_digit(#[trigger] s[k]),
    decreases s.len(),
{
    if s.len() > 0 && is_digit(s[0]) {
        let t = s.skip(1);
        if m > 0 {
            assert forall|k: int| 0 <= k < m - 1 implies is_digit(#[trigger] t[k]) by {
                assert(t[k] == s[k + 1]);
            }
            lemma_run_prefix(t, m - 1);
        } else {
            lemma_run_prefix(t, 0);
        }
        assert forall|k: int| 0 <= k < digit_run(s) implies is_digit(#[trigger] s[k]) by {
            if k > 0 {
                assert(s[k] == t[k - 1]);
            }
        }
    }
}

fn hex_value_of(c: char) -> (r: i32)
    ensures
        r == hex_value(c),
{
    if '0' <= c && c <= '9' {
        (c as u32 - 48) as i32
    } else if 'a' <= c && c <= 'f' {
        (c as u32 - 87) as i32
    } else {
        -1
    }
}

/// The character that the escape sequence at `cs[j..]` stands for.
fn unescape_at(cs: &Vec<char>, j: usize) -> (r: Option<char>)
    requires
        j < cs@.len(),
        cs@[j as int] == '\\',
    ensures
        r == unescape_one(cs@.skip(j as int)),
{
    let ghost s = cs@.skip(j as int);
    let n = cs.len();
    if n - j < 2 {
        return None;
    }
    assert(s[1] == cs@[j + 1]);
    let e = cs[j + 1];
    if e == '"' {
        Some('"')
    } else if e == '\\' {
        Some('\\')
    } else if e == 'b' {
        Some('\x08')
    } else if e == 't' {
        Some('\t')
    } else if e == 'n' {
        Some('\n')
    } else if e == 'f' {
        Some('\x0c')
    } else if e == 'r' {
        Some('\r')
    } else if e == 'u' && n - j >= 6 && cs[j + 2] == '0' && cs[j + 3] == '0' {
        assert(s[2] == cs@[j + 2] && s[3] == cs@[j + 3]);
        assert(s[4] == cs@[j + 4] && s[5] == cs@[j + 5]);
        let h = hex_value_of(cs[j + 4]);
        let l = hex_value_of(cs[j + 5]);
        if 0 <= h && h <= 1 && 0 <= l {
            Some(((h * 16 + l) as u8) as char)
        } else {
            None
        }
    } else {
        if e == 'u' && n - j >= 6 {
            assert(s[2] == cs@[j + 2] && s[3] == cs@[j + 3]);
        }
        None
    }
}

proof fn lemma_prepend_assoc(a: Seq<char>, b: Seq<char>, o: Option<(Seq<char>, Seq<char>)>)
    ensures
        prepend(a, prepend(b, o)) == prepend(a + b, o),
{
    if let Some((t, r)) = o {
        assert(a + (b + t) == (a + b) + t);
    }
}

/// Reads a JSON string literal at `cs[i..]`.
pub fn read_string_at(cs: &Vec<char>, i: usize) -> (r: Option<(String, usize)>)
    requires
        i <= cs@.len(),
    ensures
        match read_string(cs@.skip(i as int)) {
            Some((t, rest)) => r matches Some((st, j)) && st@ == t && i <= j <= cs@.len()
                && cs@.skip(j as int) == rest,
            None => r is None,
        },
{
    let n = cs.len();
    if i >= n || cs[i] != '"' {
        return None;
    }
    assert(cs@.skip(i as int).skip(1) == cs@.skip(i + 1));
    assert(cs@.skip(i as int)[0] == '"');
    let mut acc = String::new();
    let mut j: usize = i + 1;
    assert(acc@ + Seq::<char>::empty() == Seq::<char>::empty());
    loop
        invariant
            n == cs@.len(),
            i + 1 <= j <= n,
            read_string(cs@.skip(i as int)) == read_string_body(cs@.skip(i + 1)),
            read_string_body(cs@.skip(i + 1)) == prepend(
                acc@,
                read_string_body(cs@.skip(j as int)),
            ),
        decreases n - j,
    {
        let ghost t = cs@.skip(j as int);
        if j == n {
            assert(t.len() == 0);
            return None;
        }
        let c = cs[j];
        assert(t[0] == c);
        if c == '"' {
            assert(t.skip(1) == cs@.skip(j + 1));
            assert(acc@ + Seq::<char>::empty() == acc@);
            return Some((acc, j + 1));
        } else if c == '\\' {
            match unescape_at(cs, j) {
                Some(u) => {
                    let k: usize = if cs[j + 1] == 'u' { 6 } else { 2 };
                    assert(t[1] == cs@[j + 1]);
                    assert(t.skip(escape_len(t)) == cs@.skip(j + k));
                    proof { lemma_prepend_assoc(acc@, seq![u], read_string_body(cs@.skip(j + k))); }
                    let ghost before = acc@;
                    push_char(&mut acc, u);
                    assert(acc@ == before + seq![u]);
                    j = j + k;
                },
                None => {
                    return None;
                },
            }
        } else if (c as u32) < 32 {
            return None;
        } else {
            assert(t.skip(1) == cs@.skip(j + 1));
            proof { lemma_prepend_assoc(acc@, seq![c], read_string_body(cs@.skip(j + 1))); }
            let ghost before = acc@;
            push_char(&mut acc, c);
            assert(acc@ == before + seq![c]);
            j = j + 1;
        }
    }
}

} // verus!
