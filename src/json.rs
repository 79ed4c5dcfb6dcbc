//! The JSON form of the source locators kept in the `metadata` columns,
//! with its decoder.

use vstd::prelude::*;
use crate::adapters::opt_text;
use crate::model::{BookMetadata, ChapterMetadata};
use crate::text::{all_digits, digits_value, matches_at, numeral_digits, occurs_at, parse_u64, text_eq};

verus! {

/// Relies on `String::push`: the character is appended.
#[verifier::external_body]
fn push_char(s: &mut String, c: char)
    ensures
        final(s)@ == old(s)@.push(c),
{
    s.push(c)
}

pub open spec fn hex_digit(v: int) -> char {
    if v == 0 {
        '0'
    } else if v == 1 {
        '1'
    } else if v == 2 {
        '2'
    } else if v == 3 {
        '3'
    } else if v == 4 {
        '4'
    } else if v == 5 {
        '5'
    } else if v == 6 {
        '6'
    } else if v == 7 {
        '7'
    } else if v == 8 {
        '8'
    } else if v == 9 {
        '9'
    } else if v == 10 {
        'a'
    } else if v == 11 {
        'b'
    } else if v == 12 {
        'c'
    } else if v == 13 {
        'd'
    } else if v == 14 {
        'e'
    } else {
        'f'
    }
}

pub open spec fn dec_digit(v: int) -> char {
    if v == 0 {
        '0'
    } else if v == 1 {
        '1'
    } else if v == 2 {
        '2'
    } else if v == 3 {
        '3'
    } else if v == 4 {
        '4'
    } else if v == 5 {
        '5'
    } else if v == 6 {
        '6'
    } else if v == 7 {
        '7'
    } else if v == 8 {
        '8'
    } else {
        '9'
    }
}

pub open spec fn hex_value(c: char) -> Option<int> {
    if c == '0' {
        Some(0)
    } else if c == '1' {
        Some(1)
    } else if c == '2' {
        Some(2)
    } else if c == '3' {
        Some(3)
    } else if c == '4' {
        Some(4)
    } else if c == '5' {
        Some(5)
    } else if c == '6' {
        Some(6)
    } else if c == '7' {
        Some(7)
    } else if c == '8' {
        Some(8)
    } else if c == '9' {
        Some(9)
    } else if c == 'a' {
        Some(10)
    } else if c == 'b' {
        Some(11)
    } else if c == 'c' {
        Some(12)
    } else if c == 'd' {
        Some(13)
    } else if c == 'e' {
        Some(14)
    } else if c == 'f' {
        Some(15)
    } else {
        None
    }
}

fn hex_char(v: u32) -> (c: char)
    requires
        v < 16,
    ensures
        c == hex_digit(v as int),
{
    if v == 0 {
        '0'
    } else if v == 1 {
        '1'
    } else if v == 2 {
        '2'
    } else if v == 3 {
        '3'
    } else if v == 4 {
        '4'
    } else if v == 5 {
        '5'
    } else if v == 6 {
        '6'
    } else if v == 7 {
        '7'
    } else if v == 8 {
        '8'
    } else if v == 9 {
        '9'
    } else if v == 10 {
        'a'
    } else if v == 11 {
        'b'
    } else if v == 12 {
        'c'
    } else if v == 13 {
        'd'
    } else if v == 14 {
        'e'
    } else {
        'f'
    }
}

fn dec_char(v: u64) -> (c: char)
    requires
        v < 10,
    ensures
        c == dec_digit(v as int),
{
    if v == 0 {
        '0'
    } else if v == 1 {
        '1'
    } else if v == 2 {
        '2'
    } else if v == 3 {
        '3'
    } else if v == 4 {
        '4'
    } else if v == 5 {
        '5'
    } else if v == 6 {
        '6'
    } else if v == 7 {
        '7'
    } else if v == 8 {
        '8'
    } else {
        '9'
    }
}

fn hex_value_of(c: char) -> (r: Option<u32>)
    ensures
        match hex_value(c) {
            Some(v) => r == Some(v as u32),
            None => r is None,
        },
{
    if c == '0' {
        Some(0)
    } else if c == '1' {
        Some(1)
    } else if c == '2' {
        Some(2)
    } else if c == '3' {
        Some(3)
    } else if c == '4' {
        Some(4)
    } else if c == '5' {
        Some(5)
    } else if c == '6' {
        Some(6)
    } else if c == '7' {
        Some(7)
    } else if c == '8' {
        Some(8)
    } else if c == '9' {
        Some(9)
    } else if c == 'a' {
        Some(10)
    } else if c == 'b' {
        Some(11)
    } else if c == 'c' {
        Some(12)
    } else if c == 'd' {
        Some(13)
    } else if c == 'e' {
        Some(14)
    } else if c == 'f' {
        Some(15)
    } else {
        None
    }
}

/// How a character is written inside a JSON string: quote, backslash and
/// control characters escaped, the short forms where JSON has them.
pub open spec fn esc_char(c: char) -> Seq<char> {
    if c == '"' {
        seq!['\\', '"']
    } else if c == '\\' {
        seq!['\\', '\\']
    } else if c == '\n' {
        seq!['\\', 'n']
    } else if c == '\r' {
        seq!['\\', 'r']
    } else if c == '\t' {
        seq!['\\', 't']
    } else if c == '\u{8}' {
        seq!['\\', 'b']
    } else if c == '\u{c}' {
        seq!['\\', 'f']
    } else if (c as u32) < 32 {
        seq!['\\', 'u', '0', '0', hex_digit((c as u32) as int / 16), hex_digit((c as u32) as int % 16)]
    } else {
        seq![c]
    }
}

/// The escaped form of a text.
pub open spec fn escape(s: Seq<char>) -> Seq<char>
    decreases s.len(),
{
    if s.len() == 0 {
        Seq::empty()
    } else {
        esc_char(s[0]) + escape(s.drop_first())
    }
}

/// A text as a JSON string literal.
pub open spec fn quoted(s: Seq<char>) -> Seq<char> {
    seq!['"'] + escape(s) + seq!['"']
}

/// The character that a one-letter escape stands for.
pub open spec fn short_escape(e: char) -> Option<char> {
    if e == '"' {
        Some('"')
    } else if e == '\\' {
        Some('\\')
    } else if e == 'n' {
        Some('\n')
    } else if e == 'r' {
        Some('\r')
    } else if e == 't' {
        Some('\t')
    } else if e == 'b' {
        Some('\u{8}')
    } else if e == 'f' {
        Some('\u{c}')
    } else {
        None
    }
}

/// The character encoded at `p` inside a JSON string, and how many
/// characters encode it.
pub open spec fn unit_at(t: Seq<char>, p: int) -> Option<(char, int)> {
    if p < 0 || p >= t.len() {
        None
    } else if t[p] == '\\' {
        if p + 1 >= t.len() {
            None
        } else if short_escape(t[p + 1]) is Some {
            Some((short_escape(t[p + 1])->0, 2))
        } else if t[p + 1] == 'u' && p + 5 < t.len() && t[p + 2] == '0' && t[p + 3] == '0'
            && hex_value(t[p + 4]) is Some && hex_value(t[p + 5]) is Some
            && hex_value(t[p + 4])->0 * 16 + hex_value(t[p + 5])->0 < 32 {
            Some((((hex_value(t[p + 4])->0 * 16 + hex_value(t[p + 5])->0) as u8) as char, 6))
        } else {
            None
        }
    } else if t[p] == '"' {
        None
    } else {
        Some((t[p], 1))
    }
}

/// The text of the JSON string whose content starts at `p`, and the position
/// after its closing quote.
pub open spec fn scan(t: Seq<char>, p: int) -> Option<(Seq<char>, int)>
    decreases t.len() - p,
{
    if p < 0 || p >= t.len() {
        None
    } else if t[p] == '"' {
        Some((Seq::empty(), p + 1))
    } else {
        match unit_at(t, p) {
            None => None,
            Some((c, w)) => match scan(t, p + w) {
                None => None,
                Some((s, e)) => Some((seq![c] + s, e)),
            },
        }
    }
}

proof fn lemma_hex_round_trip(v: int)
    requires
        0 <= v < 16,
    ensures
        hex_value(hex_digit(v)) == Some(v),
{
}

proof fn lemma_unit_at_escaped(t: Seq<char>, p: int, c: char)
    requires
        0 <= p,
        p + esc_char(c).len() < t.len(),
        t.subrange(p, p + esc_char(c).len()) == esc_char(c),
    ensures
        unit_at(t, p) == Some((c, esc_char(c).len() as int)),
        t[p] != '"',
{
    let e = esc_char(c);
    assert(t[p] == e[0]);
    assert(forall|k: int| 0 <= k < e.len() ==> t[p + k] == #[trigger] e[k]);
    if c != '"' && c != '\\' && c != '\n' && c != '\r' && c != '\t' && c != '\u{8}' && c != '\u{c}' && (c as u32) < 32 {
        let v = (c as u32) as int;
        lemma_hex_round_trip(v / 16);
        lemma_hex_round_trip(v % 16);
        assert(t[p + 4] == hex_digit(v / 16));
        assert(t[p + 5] == hex_digit(v % 16));
        assert((v / 16) * 16 + v % 16 == v);
        assert(((v as u8) as char) as u32 == c as u32);
    }
}

/// A JSON string literal at `p` reads back as its text.
proof fn lemma_scan_quoted(t: Seq<char>, p: int, s: Seq<char>)
    requires
        0 <= p,
        p + escape(s).len() + 1 <= t.len(),
        t.subrange(p, p + escape(s).len() + 1) == escape(s) + seq!['"'],
    ensures
        scan(t, p) == Some((s, p + escape(s).len() + 1)),
    decreases s.len(),
{
    if s.len() == 0 {
        assert(t[p] == (escape(s) + seq!['"'])[0]);
    } else {
        let c = s[0];
        let w = esc_char(c).len() as int;
        let rest = s.drop_first();
        assert(escape(s) == esc_char(c) + escape(rest));
        assert(t.subrange(p, p + w) =~= esc_char(c)) by {
            assert forall|k: int| 0 <= k < w implies t.subrange(p, p + w)[k] == esc_char(c)[k] by {
                assert(t.subrange(p, p + escape(s).len() + 1)[k] == (escape(s) + seq!['"'])[k]);
            }
        }
        lemma_unit_at_escaped(t, p, c);
        assert((escape(s) + seq!['"']) =~= esc_char(c) + (escape(rest) + seq!['"']));
        assert(t.subrange(p + w, p + w + escape(rest).len() + 1) =~= escape(rest) + seq!['"']) by {
            assert forall|k: int| 0 <= k < escape(rest).len() + 1 implies t.subrange(p + w, p + w + escape(rest).len() + 1)[k]
                == (escape(rest) + seq!['"'])[k] by {
                let big = escape(s) + seq!['"'];
                let small = escape(rest) + seq!['"'];
                assert(big == esc_char(c) + small);
                assert(big[w + k] == small[k]);
                assert(t.subrange(p, p + escape(s).len() + 1)[w + k] == big[w + k]);
                assert(t.subrange(p, p + escape(s).len() + 1)[w + k] == t[p + w + k]);
            }
        }
        lemma_scan_quoted(t, p + w, rest);
        assert(seq![c] + rest =~= s);
    }
}

proof fn lemma_escape_push(a: Seq<char>, c: char)
    ensures
        escape(a.push(c)) == escape(a) + esc_char(c),
    decreases a.len(),
{
    if a.len() == 0 {
        assert(a.push(c).drop_first() =~= Seq::<char>::empty());
        assert(a.push(c)[0] == c);
        assert(escape(Seq::<char>::empty()) =~= Seq::<char>::empty());
        assert(escape(a) =~= Seq::<char>::empty());
        assert(escape(a.push(c)) =~= esc_char(c));
    } else {
        assert(a.push(c).drop_first() =~= a.drop_first().push(c));
        lemma_escape_push(a.drop_first(), c);
        assert(escape(a.push(c)) =~= escape(a) + esc_char(c));
    }
}

fn push_escaped_char(out: &mut String, c: char)
    ensures
        final(out)@ == old(out)@ + esc_char(c),
{
    let ghost start = out@;
    if c == '"' {
        push_char(out, '\\');
        push_char(out, '"');
    } else if c == '\\' {
        push_char(out, '\\');
        push_char(out, '\\');
    } else if c == '\n' {
        push_char(out, '\\');
        push_char(out, 'n');
    } else if c == '\r' {
        push_char(out, '\\');
        push_char(out, 'r');
    } else if c == '\t' {
        push_char(out, '\\');
        push_char(out, 't');
    } else if c == '\u{8}' {
        push_char(out, '\\');
        push_char(out, 'b');
    } else if c == '\u{c}' {
        push_char(out, '\\');
        push_char(out, 'f');
    } else if (c as u32) < 32 {
        let v = c as u32;
        push_char(out, '\\');
        push_char(out, 'u');
        push_char(out, '0');
        push_char(out, '0');
        push_char(out, hex_char(v / 16));
        push_char(out, hex_char(v % 16));
    } else {
        push_char(out, c);
    }
    assert(out@ =~= start + esc_char(c));
}

/// Appends `s` as a JSON string literal.
fn push_quoted(out: &mut String, s: &str)
    ensures
        final(out)@ == old(out)@ + quoted(s@),
{
    let ghost start = out@;
    push_char(out, '"');
    let n = s.unicode_len();
    let mut i: usize = 0;
    while i < n
        invariant
            n == s@.len(),
            i <= n,
            out@ == start + seq!['"'] + escape(s@.subrange(0, i as int)),
        decreases n - i,
    {
        let c = s.get_char(i);
        push_escaped_char(out, c);
        proof {
            assert(s@.subrange(0, i + 1) =~= s@.subrange(0, i as int).push(c));
            lemma_escape_push(s@.subrange(0, i as int), c);
        }
        i = i + 1;
    }
    push_char(out, '"');
    assert(s@.subrange(0, i as int) =~= s@);
    assert(out@ =~= start + quoted(s@));
}

pub open spec fn prepend(o: Seq<char>, x: Option<(Seq<char>, int)>) -> Option<(Seq<char>, int)> {
    match x {
        None => None,
        Some((s, e)) => Some((o + s, e)),
    }
}

fn unit_at_exec(t: &str, n: usize, p: usize) -> (r: Option<(char, usize)>)
    requires
        n == t@.len(),
        p < n,
        t@[p as int] != '"',
    ensures
        match unit_at(t@, p as int) {
            None => r is None,
            Some((c, w)) => r == Some((c, w as usize)),
        },
{
    let c = t.get_char(p);
    if c != '\\' {
        return Some((c, 1));
    }
    if p + 1 >= n {
        return None;
    }
    let e = t.get_char(p + 1);
    if e == '"' {
        return Some(('"', 2));
    } else if e == '\\' {
        return Some(('\\', 2));
    } else if e == 'n' {
        return Some(('\n', 2));
    } else if e == 'r' {
        return Some(('\r', 2));
    } else if e == 't' {
        return Some(('\t', 2));
    } else if e == 'b' {
        return Some(('\u{8}', 2));
    } else if e == 'f' {
        return Some(('\u{c}', 2));
    }
    if e != 'u' || n - p <= 5 || t.get_char(p + 2) != '0' || t.get_char(p + 3) != '0' {
        return None;
    }
    match (hex_value_of(t.get_char(p + 4)), hex_value_of(t.get_char(p + 5))) {
        (Some(h), Some(l)) => {
            let v = h * 16 + l;
            if v < 32 {
                Some(((v as u8) as char, 6))
            } else {
                None
            }
        },
        _ => None,
    }
}

/// Reads the content of a JSON string that starts at `p`, just after its
/// opening quote; the position after the closing quote comes with it.
fn read_string(t: &str, p: usize) -> (r: Option<(String, usize)>)
    ensures
        match scan(t@, p as int) {
            None => r is None,
            Some((s, e)) => r matches Some((v, j)) && v@ == s && j == e,
        },
{
    let n = t.unicode_len();
    let mut out = String::new();
    let mut j: usize = p;
    proof {
        assert(Seq::<char>::empty() + Seq::<char>::empty() =~= Seq::<char>::empty());
        match scan(t@, p as int) {
            Some((s, e)) => { assert(Seq::<char>::empty() + s =~= s); },
            None => {},
        }
    }
    while j < n
        invariant
            n == t@.len(),
            p <= j,
            prepend(out@, scan(t@, j as int)) == scan(t@, p as int),
        decreases n - j,
    {
        let c = t.get_char(j);
        if c == '"' {
            proof {
                assert(out@ + Seq::<char>::empty() =~= out@);
            }
            return Some((out, j + 1));
        }
        match unit_at_exec(t, n, j) {
            None => {
                return None;
            },
            Some((d, w)) => {
                let ghost before = out@;
                push_char(&mut out, d);
                proof {
                    match scan(t@, j + w) {
                        Some((s, e)) => { assert(before + (seq![d] + s) =~= out@ + s); },
                        None => {},
                    }
                }
                j = j + w;
            },
        }
    }
    None
}

/// The decimal numeral of a number, without leading zeros.
pub open spec fn decimal(n: nat) -> Seq<char>
    decreases n,
{
    if n < 10 {
        seq![dec_digit(n as int)]
    } else {
        decimal(n / 10).push(dec_digit((n % 10) as int))
    }
}

proof fn lemma_dec_digit(d: int)
    requires
        0 <= d < 10,
    ensures
        dec_digit(d) as int - '0' as int == d,
        '0' <= dec_digit(d) && dec_digit(d) <= '9',
        dec_digit(d) != '+',
{
    if d == 0 {
    } else if d == 1 {
    } else if d == 2 {
    } else if d == 3 {
    } else if d == 4 {
    } else if d == 5 {
    } else if d == 6 {
    } else if d == 7 {
    } else if d == 8 {
    } else {
    }
}

proof fn lemma_decimal_numeral(n: nat)
    ensures
        decimal(n).len() >= 1,
        all_digits(decimal(n)),
        digits_value(decimal(n)) == n,
        decimal(n)[0] != '+',
    decreases n,
{
    lemma_dec_digit((n % 10) as int);
    if n < 10 {
        assert(decimal(n).drop_last() =~= Seq::<char>::empty());
        assert(digits_value(Seq::<char>::empty()) == 0);
    } else {
        lemma_decimal_numeral(n / 10);
        assert(decimal(n).drop_last() =~= decimal(n / 10));
        assert(decimal(n).last() == dec_digit((n % 10) as int));
    }
}

/// Appends the decimal numeral of `n`.
fn push_decimal(out: &mut String, n: u64)
    ensures
        final(out)@ == old(out)@ + decimal(n as nat),
    decreases n,
{
    let ghost start = out@;
    if n >= 10 {
        push_decimal(out, n / 10);
    }
    push_char(out, dec_char(n % 10));
    if n >= 10 {
        assert(out@ =~= start + decimal(n as nat));
    } else {
        assert(out@ =~= start + decimal(n as nat));
    }
}

pub open spec fn is_digit(c: char) -> bool {
    '0' <= c && c <= '9'
}

fn digit_at(t: &str, n: usize, e: usize) -> (r: bool)
    requires
        n == t@.len(),
        e < n,
    ensures
        r == is_digit(t@[e as int]),
{
    let c = t.get_char(e);
    '0' <= c && c <= '9'
}

/// Reads the run of digits at `p` as a number.
fn read_u64(t: &str, p: usize) -> (r: Option<(u64, usize)>)
    requires
        p <= t@.len(),
    ensures
        forall|v: u64| #![trigger decimal(v as nat)]
            occurs_at(t@, decimal(v as nat), p as int) && (p + decimal(v as nat).len() == t@.len() || !is_digit(
                t@[p + decimal(v as nat).len()],
            )) ==> r == Some((v, (p + decimal(v as nat).len()) as usize)),
{
    let n = t.unicode_len();
    let mut e: usize = p;
    while e < n && digit_at(t, n, e)
        invariant
            n == t@.len(),
            p <= e <= n,
            forall|k: int| p <= k < e ==> is_digit(#[trigger] t@[k]),
        decreases n - e,
    {
        e = e + 1;
    }
    let r = match parse_u64(t.substring_char(p, e)) {
        Some(v) => Some((v, e)),
        None => None,
    };
    proof {
        assert forall|v: u64| #![trigger decimal(v as nat)]
            occurs_at(t@, decimal(v as nat), p as int) && (p + decimal(v as nat).len() == t@.len() || !is_digit(
                t@[p + decimal(v as nat).len()],
            )) implies r == Some((v, (p + decimal(v as nat).len()) as usize)) by {
            let d = decimal(v as nat);
            lemma_decimal_numeral(v as nat);
            assert(forall|k: int| 0 <= k < d.len() ==> t@[p + k] == #[trigger] d[k]) by {
                assert forall|k: int| 0 <= k < d.len() implies t@[p + k] == #[trigger] d[k] by {
                    assert(t@.subrange(p as int, p + d.len())[k] == d[k]);
                }
            }
            if e < p + d.len() {
                assert(is_digit(d[e - p]));
            }
            if e > p + d.len() {
                assert(is_digit(t@[p + d.len()]));
            }
            assert(e == p + d.len());
            assert(t@.subrange(p as int, e as int) =~= d);
            assert(numeral_digits(d) == d);
        }
    }
    r
}

/// Matches the literal `lit` at `p`.
fn expect(t: &str, p: usize, lit: &str) -> (r: Option<usize>)
    ensures
        r == (if occurs_at(t@, lit@, p as int) {
            Some((p + lit@.len()) as usize)
        } else {
            None::<usize>
        }),
{
    let n = t.unicode_len();
    let l = lit.unicode_len();
    if p > n || l > n - p {
        return None;
    }
    if matches_at(t, lit, n, l, p) {
        Some(p + l)
    } else {
        None
    }
}

/// Reads a JSON string literal at `p`.
fn read_quoted(t: &str, p: usize) -> (r: Option<(String, usize)>)
    ensures
        forall|s: Seq<char>| #![trigger quoted(s)]
            occurs_at(t@, quoted(s), p as int) ==> (r matches Some((v, j)) && v@ == s && j == p + quoted(s).len()),
{
    let n = t.unicode_len();
    let q = expect(t, p, "\"");
    let r = match q {
        None => None,
        Some(q1) => read_string(t, q1),
    };
    proof {
        assert forall|s: Seq<char>| #![trigger quoted(s)]
            occurs_at(t@, quoted(s), p as int) implies (r matches Some((v, j)) && v@ == s && j == p + quoted(s).len()) by {
            reveal_strlit("\"");
            assert("\""@ =~= seq!['"']);
            let qs = quoted(s);
            assert(t@.subrange(p as int, p + 1) =~= seq!['"']) by {
                assert(t@.subrange(p as int, p + qs.len())[0] == qs[0]);
            }
            assert(t@.subrange(p + 1, p + 1 + escape(s).len() + 1) =~= escape(s) + seq!['"']) by {
                assert forall|k: int| 0 <= k < escape(s).len() + 1 implies t@.subrange(p + 1, p + 1 + escape(s).len() + 1)[k]
                    == (escape(s) + seq!['"'])[k] by {
                    assert(t@.subrange(p as int, p + qs.len())[k + 1] == qs[k + 1]);
                }
            }
            assert(occurs_at(t@, "\""@, p as int));
            lemma_scan_quoted(t@, p + 1, s);
            assert(p + 1 <= n);
            assert(q == Some((p + 1) as usize));
        }
    }
    r
}

proof fn lemma_occurs_in(t: Seq<char>, x: Seq<char>, y: Seq<char>, z: Seq<char>)
    requires
        t == x + y + z,
    ensures
        occurs_at(t, y, x.len() as int),
{
    assert(t.subrange(x.len() as int, (x.len() + y.len()) as int) =~= y);
}

/// The JSON column form of a book's source.
pub open spec fn book_json(m: BookMetadata) -> Seq<char> {
    match m {
        BookMetadata::RoyalRoad(n) => seq!['{'] + quoted("RoyalRoad"@) + seq![':'] + decimal(n as nat) + seq!['}'],
        BookMetadata::Pale => quoted("Pale"@),
        BookMetadata::TheWanderingInn => quoted("TheWanderingInn"@),
        BookMetadata::TheWanderingInnPatreon => quoted("TheWanderingInnPatreon"@),
        BookMetadata::TheDailyGrindPatreon => quoted("TheDailyGrindPatreon"@),
        BookMetadata::ApparatusOfChangePatreon => quoted("ApparatusOfChangePatreon"@),
    }
}

fn unit_book(name: &str) -> (r: Option<BookMetadata>)
    ensures
        name@ == "Pale"@ ==> r == Some(BookMetadata::Pale),
        name@ == "TheWanderingInn"@ ==> r == Some(BookMetadata::TheWanderingInn),
        name@ == "TheWanderingInnPatreon"@ ==> r == Some(BookMetadata::TheWanderingInnPatreon),
        name@ == "TheDailyGrindPatreon"@ ==> r == Some(BookMetadata::TheDailyGrindPatreon),
        name@ == "ApparatusOfChangePatreon"@ ==> r == Some(BookMetadata::ApparatusOfChangePatreon),
{
    proof {
        reveal_strlit("Pale");
        reveal_strlit("TheWanderingInn");
        reveal_strlit("TheWanderingInnPatreon");
        reveal_strlit("TheDailyGrindPatreon");
        reveal_strlit("ApparatusOfChangePatreon");
        assert("Pale"@.len() == 4);
        assert("TheWanderingInn"@.len() == 15);
        assert("TheWanderingInnPatreon"@.len() == 22);
        assert("TheDailyGrindPatreon"@.len() == 20);
        assert("ApparatusOfChangePatreon"@.len() == 24);
    }
    if text_eq(name, "Pale") {
        Some(BookMetadata::Pale)
    } else if text_eq(name, "TheWanderingInn") {
        Some(BookMetadata::TheWanderingInn)
    } else if text_eq(name, "TheWanderingInnPatreon") {
        Some(BookMetadata::TheWanderingInnPatreon)
    } else if text_eq(name, "TheDailyGrindPatreon") {
        Some(BookMetadata::TheDailyGrindPatreon)
    } else if text_eq(name, "ApparatusOfChangePatreon") {
        Some(BookMetadata::ApparatusOfChangePatreon)
    } else {
        None
    }
}

/// Reads a text that is exactly one JSON string literal.
fn read_whole_quoted(t: &str) -> (r: Option<String>)
    ensures
        forall|s: Seq<char>| #![trigger quoted(s)] t@ == quoted(s) ==> (r matches Some(v) && v@ == s),
        r is Some ==> t@.len() > 0 && t@[0] == '"',
{
    let n = t.unicode_len();
    if n == 0 || t.get_char(0) != '"' {
        return None;
    }
    let r = match read_quoted(t, 0) {
        Some((v, e)) => if e == n {
            Some(v)
        } else {
            None
        },
        None => None,
    };
    proof {
        assert forall|s: Seq<char>| #![trigger quoted(s)] t@ == quoted(s) implies (r matches Some(v) && v@ == s) by {
            lemma_occurs_in(t@, Seq::empty(), quoted(s), Seq::empty());
            assert(Seq::<char>::empty() + quoted(s) + Seq::<char>::empty() =~= quoted(s));
        }
    }
    r
}

impl BookMetadata {
    /// The JSON form of the source, as it is kept in the `metadata` column.
    pub fn json(&self) -> (r: String)
        ensures
            r@ == book_json(*self),
    {
        let mut out = String::new();
        match self {
            BookMetadata::RoyalRoad(n) => {
                push_char(&mut out, '{');
                push_quoted(&mut out, "RoyalRoad");
                push_char(&mut out, ':');
                push_decimal(&mut out, *n);
                push_char(&mut out, '}');
            },
            BookMetadata::Pale => push_quoted(&mut out, "Pale"),
            BookMetadata::TheWanderingInn => push_quoted(&mut out, "TheWanderingInn"),
            BookMetadata::TheWanderingInnPatreon => push_quoted(&mut out, "TheWanderingInnPatreon"),
            BookMetadata::TheDailyGrindPatreon => push_quoted(&mut out, "TheDailyGrindPatreon"),
            BookMetadata::ApparatusOfChangePatreon => push_quoted(&mut out, "ApparatusOfChangePatreon"),
        }
        assert(out@ =~= book_json(*self));
        out
    }

    /// Reads the JSON form back: the source whose JSON form `t` is, if any.
    /// Decoding the JSON of any source gives that source again.
    pub fn from_json(t: &str) -> (r: Option<BookMetadata>)
        ensures
            forall|m: BookMetadata| #[trigger] book_json(m) == t@ ==> r == Some(m),
            r matches Some(m) ==> book_json(m) == t@,
    {
        match Self::parse_json(t) {
            Some(m) => if text_eq(m.json().as_str(), t) {
                Some(m)
            } else {
                None
            },
            None => None,
        }
    }

    #[verifier::rlimit(80)]
    fn parse_json(t: &str) -> (r: Option<BookMetadata>)
        ensures
            forall|m: BookMetadata| #[trigger] book_json(m) == t@ ==> r == Some(m),
    {
        let n = t.unicode_len();
        let r = if n > 0 && t.get_char(0) == '"' {
            match read_whole_quoted(t) {
                Some(name) => unit_book(name.as_str()),
                None => None,
            }
        } else {
            match expect(t, 0, "{") {
                None => None,
                Some(pos1) => match read_quoted(t, pos1) {
                    None => None,
                    Some((name, pos2)) => match expect(t, pos2, ":") {
                        None => None,
                        Some(pos3) => if text_eq(name.as_str(), "RoyalRoad") {
                            match read_u64(t, pos3) {
                                None => None,
                                Some((v, pos4)) => match expect(t, pos4, "}") {
                                    Some(pos5) => if pos5 == n {
                                        Some(BookMetadata::RoyalRoad(v))
                                    } else {
                                        None
                                    },
                                    None => None,
                                },
                            }
                        } else {
                            None
                        },
                    },
                },
            }
        };
        proof {
            assert forall|m: BookMetadata| #[trigger] book_json(m) == t@ implies r == Some(m) by {
                reveal_strlit("{");
                reveal_strlit(":");
                reveal_strlit("}");
                reveal_strlit("RoyalRoad");
                match m {
                    BookMetadata::RoyalRoad(v) => {
                        let a = seq!['{'];
                        let b = quoted("RoyalRoad"@);
                        let c = seq![':'];
                        let d = decimal(v as nat);
                        let e = seq!['}'];
                        assert(t@[0] == '{');
                        assert(t@ =~= Seq::empty() + a + (b + c + d + e));
                        lemma_occurs_in(t@, Seq::empty(), a, b + c + d + e);
                        assert(t@ =~= a + b + (c + d + e));
                        lemma_occurs_in(t@, a, b, c + d + e);
                        assert(t@ =~= (a + b) + c + (d + e));
                        lemma_occurs_in(t@, a + b, c, d + e);
                        assert(t@ =~= (a + b + c) + d + e);
                        lemma_occurs_in(t@, a + b + c, d, e);
                        assert(t@ =~= (a + b + c + d) + e + Seq::empty());
                        lemma_occurs_in(t@, a + b + c + d, e, Seq::empty());
                        assert("{"@ =~= a);
                        assert(":"@ =~= c);
                        assert("}"@ =~= e);
                        assert(occurs_at(t@, quoted("RoyalRoad"@), 1));
                        assert(r == Some(m));
                        assert(t@[(a + b + c + d).len() as int] == '}');
                        assert(d == decimal(v as nat));
                    },
                    _ => {
                        assert(t@[0] == '"');
                        assert(r == Some(m));
                    },
                }
            }
        }
        r
    }
}

proof fn lemma_occurs_part(t: Seq<char>, p: int, x: Seq<char>, y: Seq<char>, z: Seq<char>)
    requires
        occurs_at(t, x + y + z, p),
    ensures
        occurs_at(t, y, p + x.len()),
        forall|k: int| 0 <= k < z.len() ==> t[p + x.len() + y.len() + k] == #[trigger] z[k],
{
    let w = x + y + z;
    assert forall|k: int| 0 <= k < y.len() implies t.subrange(p + x.len(), p + x.len() + y.len())[k] == y[k] by {
        assert(t.subrange(p, p + w.len())[x.len() + k] == w[x.len() + k]);
    }
    assert(t.subrange(p + x.len(), p + x.len() + y.len()) =~= y);
    assert forall|k: int| 0 <= k < z.len() implies t[p + x.len() + y.len() + k] == #[trigger] z[k] by {
        assert(t.subrange(p, p + w.len())[x.len() + y.len() + k] == w[x.len() + y.len() + k]);
    }
}

/// The optional password as it stands in the JSON form.
pub open spec fn password_json(pw: Option<Seq<char>>) -> Seq<char> {
    match pw {
        None => seq!['n', 'u', 'l', 'l'],
        Some(p) => quoted(p),
    }
}

pub open spec fn royalroad_tail(a: u64, b: u64) -> Seq<char> {
    quoted("royalroad_book_id"@) + seq![':'] + decimal(a as nat) + seq![','] + quoted("royalroad_chapter_id"@)
        + seq![':'] + decimal(b as nat) + seq!['}', '}']
}

pub open spec fn pale_tail(url: Seq<char>) -> Seq<char> {
    quoted("url"@) + seq![':'] + quoted(url) + seq!['}', '}']
}

pub open spec fn wandering_tail(url: Seq<char>, pw: Option<Seq<char>>) -> Seq<char> {
    quoted("url"@) + seq![':'] + quoted(url) + seq![','] + quoted("password"@) + seq![':'] + password_json(pw)
        + seq!['}', '}']
}

/// The JSON column form of a chapter's source locators.
pub open spec fn chapter_json(m: ChapterMetadata) -> Seq<char> {
    match m {
        ChapterMetadata::RoyalRoad { royalroad_book_id, royalroad_chapter_id } => seq!['{'] + quoted("RoyalRoad"@)
            + seq![':', '{'] + royalroad_tail(royalroad_book_id, royalroad_chapter_id),
        ChapterMetadata::Pale { url } => seq!['{'] + quoted("Pale"@) + seq![':', '{'] + pale_tail(url@),
        ChapterMetadata::TheWanderingInnPatreon { url, password } => seq!['{'] + quoted("TheWanderingInnPatreon"@)
            + seq![':', '{'] + wandering_tail(url@, opt_text(password)),
        ChapterMetadata::TheDailyGrindPatreon => quoted("TheDailyGrindPatreon"@),
        ChapterMetadata::ApparatusOfChangePatreon => quoted("ApparatusOfChangePatreon"@),
    }
}

/// Two chapter sources with the same variant and the same field texts.
pub open spec fn same_chapter_metadata(a: ChapterMetadata, b: ChapterMetadata) -> bool {
    match (a, b) {
        (
            ChapterMetadata::RoyalRoad { royalroad_book_id: x1, royalroad_chapter_id: y1 },
            ChapterMetadata::RoyalRoad { royalroad_book_id: x2, royalroad_chapter_id: y2 },
        ) => x1 == x2 && y1 == y2,
        (ChapterMetadata::Pale { url: u1 }, ChapterMetadata::Pale { url: u2 }) => u1@ == u2@,
        (
            ChapterMetadata::TheWanderingInnPatreon { url: u1, password: pw1 },
            ChapterMetadata::TheWanderingInnPatreon { url: u2, password: pw2 },
        ) => u1@ == u2@ && opt_text(pw1) == opt_text(pw2),
        (ChapterMetadata::TheDailyGrindPatreon, ChapterMetadata::TheDailyGrindPatreon) => true,
        (ChapterMetadata::ApparatusOfChangePatreon, ChapterMetadata::ApparatusOfChangePatreon) => true,
        _ => false,
    }
}

#[verifier::rlimit(80)]
fn royalroad_body(t: &str, p: usize, n: usize) -> (r: Option<ChapterMetadata>)
    requires
        n == t@.len(),
    ensures
        forall|a: u64, b: u64| #![trigger royalroad_tail(a, b)]
            occurs_at(t@, royalroad_tail(a, b), p as int) && p + royalroad_tail(a, b).len() == n ==> r == Some(
                ChapterMetadata::RoyalRoad { royalroad_book_id: a, royalroad_chapter_id: b },
            ),
{
    let r = match read_quoted(t, p) {
        None => None,
        Some((k1, pos1)) => match expect(t, pos1, ":") {
            None => None,
            Some(pos2) => match read_u64(t, pos2) {
                None => None,
                Some((a, pos3)) => match expect(t, pos3, ",") {
                    None => None,
                    Some(pos4) => match read_quoted(t, pos4) {
                        None => None,
                        Some((k2, pos5)) => match expect(t, pos5, ":") {
                            None => None,
                            Some(pos6) => match read_u64(t, pos6) {
                                None => None,
                                Some((b, pos7)) => match expect(t, pos7, "}}") {
                                    None => None,
                                    Some(pos8) => if pos8 == n && text_eq(k1.as_str(), "royalroad_book_id") && text_eq(
                                        k2.as_str(),
                                        "royalroad_chapter_id",
                                    ) {
                                        Some(ChapterMetadata::RoyalRoad { royalroad_book_id: a, royalroad_chapter_id: b })
                                    } else {
                                        None
                                    },
                                },
                            },
                        },
                    },
                },
            },
        },
    };
    proof {
        assert forall|a: u64, b: u64| #![trigger royalroad_tail(a, b)]
            occurs_at(t@, royalroad_tail(a, b), p as int) && p + royalroad_tail(a, b).len() == n implies r == Some(
                ChapterMetadata::RoyalRoad { royalroad_book_id: a, royalroad_chapter_id: b },
            ) by {
            reveal_strlit(":");
            reveal_strlit(",");
            reveal_strlit("}}");
            assert(":"@ =~= seq![':']);
            assert(","@ =~= seq![',']);
            assert("}}"@ =~= seq!['}', '}']);
            let q1 = quoted("royalroad_book_id"@);
            let c = seq![':'];
            let d1 = decimal(a as nat);
            let m = seq![','];
            let q2 = quoted("royalroad_chapter_id"@);
            let d2 = decimal(b as nat);
            let e = seq!['}', '}'];
            let pp = p as int;
            let tail = royalroad_tail(a, b);
            assert(tail =~= Seq::empty() + q1 + (c + d1 + m + q2 + c + d2 + e));
            lemma_occurs_part(t@, pp, Seq::empty(), q1, c + d1 + m + q2 + c + d2 + e);
            assert(tail =~= q1 + c + (d1 + m + q2 + c + d2 + e));
            lemma_occurs_part(t@, pp, q1, c, d1 + m + q2 + c + d2 + e);
            assert(tail =~= (q1 + c) + d1 + (m + q2 + c + d2 + e));
            lemma_occurs_part(t@, pp, q1 + c, d1, m + q2 + c + d2 + e);
            assert((m + q2 + c + d2 + e)[0] == ',');
            assert(tail =~= (q1 + c + d1) + m + (q2 + c + d2 + e));
            lemma_occurs_part(t@, pp, q1 + c + d1, m, q2 + c + d2 + e);
            assert(tail =~= (q1 + c + d1 + m) + q2 + (c + d2 + e));
            lemma_occurs_part(t@, pp, q1 + c + d1 + m, q2, c + d2 + e);
            assert(tail =~= (q1 + c + d1 + m + q2) + c + (d2 + e));
            lemma_occurs_part(t@, pp, q1 + c + d1 + m + q2, c, d2 + e);
            assert(tail =~= (q1 + c + d1 + m + q2 + c) + d2 + e);
            lemma_occurs_part(t@, pp, q1 + c + d1 + m + q2 + c, d2, e);
            assert(tail =~= (q1 + c + d1 + m + q2 + c + d2) + e + Seq::empty());
            lemma_occurs_part(t@, pp, q1 + c + d1 + m + q2 + c + d2, e, Seq::empty());
            assert(e[0] == '}');
            reveal_strlit("royalroad_book_id");
            reveal_strlit("royalroad_chapter_id");
        }
    }
    r
}

#[verifier::rlimit(80)]
fn pale_body(t: &str, p: usize, n: usize) -> (r: Option<ChapterMetadata>)
    requires
        n == t@.len(),
    ensures
        forall|u: Seq<char>| #![trigger pale_tail(u)]
            occurs_at(t@, pale_tail(u), p as int) && p + pale_tail(u).len() == n ==> (r matches Some(
                ChapterMetadata::Pale { url },
            ) && url@ == u),
{
    let r = match read_quoted(t, p) {
        None => None,
        Some((k1, pos1)) => match expect(t, pos1, ":") {
            None => None,
            Some(pos2) => match read_quoted(t, pos2) {
                None => None,
                Some((url, pos3)) => match expect(t, pos3, "}}") {
                    None => None,
                    Some(pos4) => if pos4 == n && text_eq(k1.as_str(), "url") {
                        Some(ChapterMetadata::Pale { url })
                    } else {
                        None
                    },
                },
            },
        },
    };
    proof {
        assert forall|u: Seq<char>| #![trigger pale_tail(u)]
            occurs_at(t@, pale_tail(u), p as int) && p + pale_tail(u).len() == n implies (r matches Some(
                ChapterMetadata::Pale { url },
            ) && url@ == u) by {
            reveal_strlit(":");
            reveal_strlit("}}");
            assert(":"@ =~= seq![':']);
            assert("}}"@ =~= seq!['}', '}']);
            let q1 = quoted("url"@);
            let c = seq![':'];
            let qu = quoted(u);
            let e = seq!['}', '}'];
            let pp = p as int;
            let tail = pale_tail(u);
            assert(tail =~= Seq::empty() + q1 + (c + qu + e));
            lemma_occurs_part(t@, pp, Seq::empty(), q1, c + qu + e);
            assert(tail =~= q1 + c + (qu + e));
            lemma_occurs_part(t@, pp, q1, c, qu + e);
            assert(tail =~= (q1 + c) + qu + e);
            lemma_occurs_part(t@, pp, q1 + c, qu, e);
            assert(tail =~= (q1 + c + qu) + e + Seq::empty());
            lemma_occurs_part(t@, pp, q1 + c + qu, e, Seq::empty());
        }
    }
    r
}

/// Reads an optional password: `null` or a string literal.
#[verifier::rlimit(80)]
fn read_password(t: &str, p: usize) -> (r: Option<(Option<String>, usize)>)
    ensures
        forall|pw: Option<Seq<char>>| #![trigger password_json(pw)]
            occurs_at(t@, password_json(pw), p as int) ==> (r matches Some((x, j)) && opt_text(x) == pw && j == p
                + password_json(pw).len()),
{
    let n = t.unicode_len();
    let r = match expect(t, p, "null") {
        Some(pos7) => Some((None, pos7)),
        None => match read_quoted(t, p) {
            Some((v, pos7)) => Some((Some(v), pos7)),
            None => None,
        },
    };
    proof {
        assert forall|pw: Option<Seq<char>>| #![trigger password_json(pw)]
            occurs_at(t@, password_json(pw), p as int) implies (r matches Some((x, j)) && opt_text(x) == pw && j == p
                + password_json(pw).len()) by {
            reveal_strlit("null");
            assert("null"@ =~= seq!['n', 'u', 'l', 'l']);
            assert(p + password_json(pw).len() <= n);
            match pw {
                None => {},
                Some(x) => {
                    let pj = password_json(pw);
                    assert(pj[0] == '"');
                    assert(t@.subrange(p as int, p + pj.len())[0] == pj[0]);
                    assert(!occurs_at(t@, "null"@, p as int)) by {
                        if occurs_at(t@, "null"@, p as int) {
                            assert(t@.subrange(p as int, p + 4)[0] == 'n');
                        }
                    }
                    assert(quoted(x) == pj);
                },
            }
        }
    }
    r
}

#[verifier::rlimit(80)]
fn wandering_body(t: &str, p: usize, n: usize) -> (r: Option<ChapterMetadata>)
    requires
        n == t@.len(),
    ensures
        forall|u: Seq<char>, pw: Option<Seq<char>>| #![trigger wandering_tail(u, pw)]
            occurs_at(t@, wandering_tail(u, pw), p as int) && p + wandering_tail(u, pw).len() == n ==> (r matches Some(
                ChapterMetadata::TheWanderingInnPatreon { url, password },
            ) && url@ == u && opt_text(password) == pw),
{
    let r = match read_quoted(t, p) {
        None => None,
        Some((k1, pos1)) => match expect(t, pos1, ":") {
            None => None,
            Some(pos2) => match read_quoted(t, pos2) {
                None => None,
                Some((url, pos3)) => match expect(t, pos3, ",") {
                    None => None,
                    Some(pos4) => match read_quoted(t, pos4) {
                        None => None,
                        Some((k2, pos5)) => match expect(t, pos5, ":") {
                            None => None,
                            Some(pos6) => {
                                match read_password(t, pos6) {
                                    None => None,
                                    Some((password, pos7)) => match expect(t, pos7, "}}") {
                                        None => None,
                                        Some(pos8) => if pos8 == n && text_eq(k1.as_str(), "url") && text_eq(
                                            k2.as_str(),
                                            "password",
                                        ) {
                                            Some(ChapterMetadata::TheWanderingInnPatreon { url, password })
                                        } else {
                                            None
                                        },
                                    },
                                }
                            },
                        },
                    },
                },
            },
        },
    };
    proof {
        assert forall|u: Seq<char>, pw: Option<Seq<char>>| #![trigger wandering_tail(u, pw)]
            occurs_at(t@, wandering_tail(u, pw), p as int) && p + wandering_tail(u, pw).len() == n implies (r matches Some(
                ChapterMetadata::TheWanderingInnPatreon { url, password },
            ) && url@ == u && opt_text(password) == pw) by {
            reveal_strlit(":");
            reveal_strlit(",");
            reveal_strlit("}}");
            assert(":"@ =~= seq![':']);
            assert(","@ =~= seq![',']);
            assert("}}"@ =~= seq!['}', '}']);
            let q1 = quoted("url"@);
            let c = seq![':'];
            let qu = quoted(u);
            let m = seq![','];
            let q2 = quoted("password"@);
            let pj = password_json(pw);
            let e = seq!['}', '}'];
            let pp = p as int;
            let tail = wandering_tail(u, pw);
            assert(tail =~= Seq::empty() + q1 + (c + qu + m + q2 + c + pj + e));
            lemma_occurs_part(t@, pp, Seq::empty(), q1, c + qu + m + q2 + c + pj + e);
            assert(tail =~= q1 + c + (qu + m + q2 + c + pj + e));
            lemma_occurs_part(t@, pp, q1, c, qu + m + q2 + c + pj + e);
            assert(tail =~= (q1 + c) + qu + (m + q2 + c + pj + e));
            lemma_occurs_part(t@, pp, q1 + c, qu, m + q2 + c + pj + e);
            assert(tail =~= (q1 + c + qu) + m + (q2 + c + pj + e));
            lemma_occurs_part(t@, pp, q1 + c + qu, m, q2 + c + pj + e);
            assert(tail =~= (q1 + c + qu + m) + q2 + (c + pj + e));
            lemma_occurs_part(t@, pp, q1 + c + qu + m, q2, c + pj + e);
            assert(tail =~= (q1 + c + qu + m + q2) + c + (pj + e));
            lemma_occurs_part(t@, pp, q1 + c + qu + m + q2, c, pj + e);
            assert(tail =~= (q1 + c + qu + m + q2 + c) + pj + e);
            lemma_occurs_part(t@, pp, q1 + c + qu + m + q2 + c, pj, e);
            assert(tail =~= (q1 + c + qu + m + q2 + c + pj) + e + Seq::empty());
            lemma_occurs_part(t@, pp, q1 + c + qu + m + q2 + c + pj, e, Seq::empty());
        }
    }
    r
}

fn unit_chapter(name: &str) -> (r: Option<ChapterMetadata>)
    ensures
        name@ == "TheDailyGrindPatreon"@ ==> r matches Some(ChapterMetadata::TheDailyGrindPatreon),
        name@ == "ApparatusOfChangePatreon"@ ==> r matches Some(ChapterMetadata::ApparatusOfChangePatreon),
{
    proof {
        reveal_strlit("TheDailyGrindPatreon");
        reveal_strlit("ApparatusOfChangePatreon");
        assert("TheDailyGrindPatreon"@.len() == 20);
        assert("ApparatusOfChangePatreon"@.len() == 24);
    }
    if text_eq(name, "TheDailyGrindPatreon") {
        Some(ChapterMetadata::TheDailyGrindPatreon)
    } else if text_eq(name, "ApparatusOfChangePatreon") {
        Some(ChapterMetadata::ApparatusOfChangePatreon)
    } else {
        None
    }
}

fn push_password(out: &mut String, pw: &Option<String>)
    ensures
        final(out)@ == old(out)@ + password_json(opt_text(*pw)),
{
    match pw {
        None => {
            let ghost start = out@;
            push_char(out, 'n');
            push_char(out, 'u');
            push_char(out, 'l');
            push_char(out, 'l');
            assert(out@ =~= start + seq!['n', 'u', 'l', 'l']);
        },
        Some(p) => push_quoted(out, p.as_str()),
    }
}

impl ChapterMetadata {
    /// The JSON form of the locators, as it is kept in the `metadata` column.
    pub fn json(&self) -> (r: String)
        ensures
            r@ == chapter_json(*self),
    {
        let mut out = String::new();
        match self {
            ChapterMetadata::RoyalRoad { royalroad_book_id, royalroad_chapter_id } => {
                push_char(&mut out, '{');
                push_quoted(&mut out, "RoyalRoad");
                push_char(&mut out, ':');
                push_char(&mut out, '{');
                push_quoted(&mut out, "royalroad_book_id");
                push_char(&mut out, ':');
                push_decimal(&mut out, *royalroad_book_id);
                push_char(&mut out, ',');
                push_quoted(&mut out, "royalroad_chapter_id");
                push_char(&mut out, ':');
                push_decimal(&mut out, *royalroad_chapter_id);
                push_char(&mut out, '}');
                push_char(&mut out, '}');
            },
            ChapterMetadata::Pale { url } => {
                push_char(&mut out, '{');
                push_quoted(&mut out, "Pale");
                push_char(&mut out, ':');
                push_char(&mut out, '{');
                push_quoted(&mut out, "url");
                push_char(&mut out, ':');
                push_quoted(&mut out, url.as_str());
                push_char(&mut out, '}');
                push_char(&mut out, '}');
            },
            ChapterMetadata::TheWanderingInnPatreon { url, password } => {
                push_char(&mut out, '{');
                push_quoted(&mut out, "TheWanderingInnPatreon");
                push_char(&mut out, ':');
                push_char(&mut out, '{');
                push_quoted(&mut out, "url");
                push_char(&mut out, ':');
                push_quoted(&mut out, url.as_str());
                push_char(&mut out, ',');
                push_quoted(&mut out, "password");
                push_char(&mut out, ':');
                push_password(&mut out, password);
                push_char(&mut out, '}');
                push_char(&mut out, '}');
            },
            ChapterMetadata::TheDailyGrindPatreon => push_quoted(&mut out, "TheDailyGrindPatreon"),
            ChapterMetadata::ApparatusOfChangePatreon => push_quoted(&mut out, "ApparatusOfChangePatreon"),
        }
        assert(out@ =~= chapter_json(*self));
        out
    }

    /// Reads the JSON form back: locators whose JSON form `t` is, if any.
    /// Decoding the JSON of any locators gives the same locators again.
    pub fn from_json(t: &str) -> (r: Option<ChapterMetadata>)
        ensures
            forall|m: ChapterMetadata| #[trigger] chapter_json(m) == t@ ==> (r matches Some(d) && same_chapter_metadata(
                d,
                m,
            )),
            r matches Some(d) ==> chapter_json(d) == t@,
    {
        match Self::parse_json(t) {
            Some(d) => if text_eq(d.json().as_str(), t) {
                Some(d)
            } else {
                None
            },
            None => None,
        }
    }

    #[verifier::rlimit(80)]
    fn parse_json(t: &str) -> (r: Option<ChapterMetadata>)
        ensures
            forall|m: ChapterMetadata| #[trigger] chapter_json(m) == t@ ==> (r matches Some(d) && same_chapter_metadata(
                d,
                m,
            )),
    {
        let n = t.unicode_len();
        let r = if n > 0 && t.get_char(0) == '"' {
            match read_whole_quoted(t) {
                Some(name) => unit_chapter(name.as_str()),
                None => None,
            }
        } else {
            match expect(t, 0, "{") {
                None => None,
                Some(pos1) => match read_quoted(t, pos1) {
                    None => None,
                    Some((name, pos2)) => match expect(t, pos2, ":{") {
                        None => None,
                        Some(pos3) => if text_eq(name.as_str(), "RoyalRoad") {
                            royalroad_body(t, pos3, n)
                        } else if text_eq(name.as_str(), "Pale") {
                            pale_body(t, pos3, n)
                        } else if text_eq(name.as_str(), "TheWanderingInnPatreon") {
                            wandering_body(t, pos3, n)
                        } else {
                            None
                        },
                    },
                },
            }
        };
        proof {
            assert forall|m: ChapterMetadata| #[trigger] chapter_json(m) == t@ implies (r matches Some(d)
                && same_chapter_metadata(d, m)) by {
                reveal_strlit("{");
                reveal_strlit(":{");
                reveal_strlit("RoyalRoad");
                reveal_strlit("Pale");
                reveal_strlit("TheWanderingInnPatreon");
                assert("{"@ =~= seq!['{']);
                assert(":{"@ =~= seq![':', '{']);
                assert("RoyalRoad"@.len() == 9);
                assert("Pale"@.len() == 4);
                assert("TheWanderingInnPatreon"@.len() == 22);
                let a = seq!['{'];
                let c = seq![':', '{'];
                match m {
                    ChapterMetadata::RoyalRoad { royalroad_book_id: x, royalroad_chapter_id: y } => {
                        let b = quoted("RoyalRoad"@);
                        let tail = royalroad_tail(x, y);
                        assert(t@[0] == '{');
                        assert(t@ =~= Seq::empty() + a + (b + c + tail));
                        lemma_occurs_in(t@, Seq::empty(), a, b + c + tail);
                        assert(t@ =~= a + b + (c + tail));
                        lemma_occurs_in(t@, a, b, c + tail);
                        assert(t@ =~= (a + b) + c + tail);
                        lemma_occurs_in(t@, a + b, c, tail);
                        assert(t@ =~= (a + b + c) + tail + Seq::empty());
                        lemma_occurs_in(t@, a + b + c, tail, Seq::empty());
                    },
                    ChapterMetadata::Pale { url } => {
                        let b = quoted("Pale"@);
                        let tail = pale_tail(url@);
                        assert(t@[0] == '{');
                        assert(t@ =~= Seq::empty() + a + (b + c + tail));
                        lemma_occurs_in(t@, Seq::empty(), a, b + c + tail);
                        assert(t@ =~= a + b + (c + tail));
                        lemma_occurs_in(t@, a, b, c + tail);
                        assert(t@ =~= (a + b) + c + tail);
                        lemma_occurs_in(t@, a + b, c, tail);
                        assert(t@ =~= (a + b + c) + tail + Seq::empty());
                        lemma_occurs_in(t@, a + b + c, tail, Seq::empty());
                    },
                    ChapterMetadata::TheWanderingInnPatreon { url, password } => {
                        let b = quoted("TheWanderingInnPatreon"@);
                        let tail = wandering_tail(url@, opt_text(password));
                        assert(t@[0] == '{');
                        assert(t@ =~= Seq::empty() + a + (b + c + tail));
                        lemma_occurs_in(t@, Seq::empty(), a, b + c + tail);
                        assert(t@ =~= a + b + (c + tail));
                        lemma_occurs_in(t@, a, b, c + tail);
                        assert(t@ =~= (a + b) + c + tail);
                        lemma_occurs_in(t@, a + b, c, tail);
                        assert(t@ =~= (a + b + c) + tail + Seq::empty());
                        lemma_occurs_in(t@, a + b + c, tail, Seq::empty());
                    },
                    _ => {
                        assert(t@[0] == '"');
                    },
                }
            }
        }
        r
    }
}

} // verus!
