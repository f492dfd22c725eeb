//! The pieces of the configuration file's format: whitespace, string
//! literals with `\"` and `\\` escapes, and unsigned decimal numbers.
//! Each executable function mirrors a spec-level reading of the text.
use vstd::prelude::*;

verus! {

use vstd::string::StrSliceExecFns;
use vstd::string::StringExecFns;
use crate::text::{digit_char, spec_decimal, str_eq};

/// The whitespace accepted between tokens.
pub open spec fn is_ws(c: char) -> bool {
    c == ' ' || c == '\n' || c == '\t' || c == '\r'
}

/// The first position at or after `i` that holds no whitespace.
pub open spec fn spec_skip_ws(s: Seq<char>, i: int) -> int
    decreases s.len() - i when 0 <= i <= s.len()
{
    if i < s.len() && is_ws(s[i]) {
        spec_skip_ws(s, i + 1)
    } else {
        i
    }
}

pub proof fn lemma_skip_ws_bounds(s: Seq<char>, i: int)
    requires
        0 <= i <= s.len(),
    ensures
        i <= spec_skip_ws(s, i) <= s.len(),
    decreases s.len() - i,
{
    if i < s.len() && is_ws(s[i]) {
        lemma_skip_ws_bounds(s, i + 1);
    }
}

fn ws_at(s: &str, j: usize) -> (r: bool)
    requires
        j < s@.len(),
    ensures
        r == is_ws(s@[j as int]),
{
    let c = s.get_char(j);
    c == ' ' || c == '\n' || c == '\t' || c == '\r'
}

/// Advances past whitespace.
pub fn skip_ws(s: &str, i: usize) -> (r: usize)
    requires
        i <= s@.len(),
    ensures
        r == spec_skip_ws(s@, i as int),
        i <= r <= s@.len(),
{
    let n = s.unicode_len();
    let mut j = i;
    while j < n && ws_at(s, j)
        invariant
            i <= j <= n,
            n == s@.len(),
            spec_skip_ws(s@, i as int) == spec_skip_ws(s@, j as int),
        decreases n - j,
    {
        j = j + 1;
    }
    j
}

/// What a backslash escape stands for: the two characters the renderer
/// escapes, and the standard single-character escapes.
pub open spec fn spec_unescape_char(c: char) -> Option<char> {
    if c == '"' {
        Some('"')
    } else if c == '\\' {
        Some('\\')
    } else if c == '/' {
        Some('/')
    } else if c == 'n' {
        Some('\n')
    } else if c == 't' {
        Some('\t')
    } else if c == 'r' {
        Some('\r')
    } else if c == 'b' {
        Some('\u{0008}')
    } else if c == 'f' {
        Some('\u{000C}')
    } else {
        None
    }
}

/// Reads a string literal's body starting just after the opening quote:
/// the content with escapes resolved, and the position just after the
/// closing quote. Absent a closing quote, or on an escape outside the
/// table above, the literal is refused.
pub open spec fn spec_parse_string_body(s: Seq<char>, i: int) -> Option<(Seq<char>, int)>
    decreases s.len() - i when 0 <= i <= s.len()
{
    if i >= s.len() {
        None
    } else if s[i] == '"' {
        Some((Seq::empty(), i + 1))
    } else if s[i] == '\\' {
        if i + 1 < s.len() && spec_unescape_char(s[i + 1]) is Some {
            match spec_parse_string_body(s, i + 2) {
                None => None,
                Some(p) => Some((seq![spec_unescape_char(s[i + 1])->Some_0] + p.0, p.1)),
            }
        } else {
            None
        }
    } else {
        match spec_parse_string_body(s, i + 1) {
            None => None,
            Some(p) => Some((seq![s[i]] + p.0, p.1)),
        }
    }
}

pub proof fn lemma_parse_string_body_bounds(s: Seq<char>, i: int)
    requires
        0 <= i <= s.len(),
        spec_parse_string_body(s, i) is Some,
    ensures
        i < spec_parse_string_body(s, i)->Some_0.1 <= s.len(),
    decreases s.len() - i,
{
    if i >= s.len() {
    } else if s[i] == '"' {
    } else if s[i] == '\\' {
        lemma_parse_string_body_bounds(s, i + 2);
    } else {
        lemma_parse_string_body_bounds(s, i + 1);
    }
}

fn unescaped_piece(c: char) -> (r: Option<&'static str>)
    ensures
        match spec_unescape_char(c) {
            None => r is None,
            Some(u) => r is Some && r->Some_0@ == seq![u],
        },
{
    proof {
        reveal_strlit("\"");
        reveal_strlit("\\");
        reveal_strlit("/");
        reveal_strlit("\n");
        reveal_strlit("\t");
        reveal_strlit("\r");
        reveal_strlit("\u{0008}");
        reveal_strlit("\u{000C}");
    }
    if c == '"' {
        proof {
            assert("\""@ =~= seq!['"']);
        }
        Some("\"")
    } else if c == '\\' {
        proof {
            assert("\\"@ =~= seq!['\\']);
        }
        Some("\\")
    } else if c == '/' {
        proof {
            assert("/"@ =~= seq!['/']);
        }
        Some("/")
    } else if c == 'n' {
        proof {
            assert("\n"@ =~= seq!['\n']);
        }
        Some("\n")
    } else if c == 't' {
        proof {
            assert("\t"@ =~= seq!['\t']);
        }
        Some("\t")
    } else if c == 'r' {
        proof {
            assert("\r"@ =~= seq!['\r']);
        }
        Some("\r")
    } else if c == 'b' {
        proof {
            assert("\u{0008}"@ =~= seq!['\u{0008}']);
        }
        Some("\u{0008}")
    } else if c == 'f' {
        proof {
            assert("\u{000C}"@ =~= seq!['\u{000C}']);
        }
        Some("\u{000C}")
    } else {
        None
    }
}

/// Reads a string literal's body, resolving escapes.
pub fn parse_string_body(s: &str, i: usize) -> (r: Option<(String, usize)>)
    requires
        i <= s@.len(),
    ensures
        match spec_parse_string_body(s@, i as int) {
            None => r is None,
            Some(p) => r is Some && r->Some_0.0@ == p.0 && r->Some_0.1 == p.1,
        },
    decreases s@.len() - i,
{
    let n = s.unicode_len();
    if i >= n {
        None
    } else {
        let c = s.get_char(i);
        if c == '"' {
            Some((String::new(), i + 1))
        } else if c == '\\' {
            if i + 1 < n {
                let c2 = s.get_char(i + 1);
                match unescaped_piece(c2) {
                    None => None,
                    Some(piece) => match parse_string_body(s, i + 2) {
                        None => None,
                        Some(p) => {
                            let mut out = piece.to_owned();
                            out.append(p.0.as_str());
                            proof {
                                assert(out@ =~= seq![spec_unescape_char(s@[i + 1])->Some_0]
                                    + p.0@);
                            }
                            Some((out, p.1))
                        },
                    },
                }
            } else {
                None
            }
        } else {
            match parse_string_body(s, i + 1) {
                None => None,
                Some(p) => {
                    let mut out = s.substring_char(i, i + 1).to_owned();
                    out.append(p.0.as_str());
                    proof {
                        assert(out@ =~= seq![s@[i as int]] + p.0@);
                    }
                    Some((out, p.1))
                },
            }
        }
    }
}

/// The digit value of a character, if it is one.
pub open spec fn digit_of(c: char) -> Option<nat> {
    if c == '0' {
        Some(0 as nat)
    } else if c == '1' {
        Some(1 as nat)
    } else if c == '2' {
        Some(2 as nat)
    } else if c == '3' {
        Some(3 as nat)
    } else if c == '4' {
        Some(4 as nat)
    } else if c == '5' {
        Some(5 as nat)
    } else if c == '6' {
        Some(6 as nat)
    } else if c == '7' {
        Some(7 as nat)
    } else if c == '8' {
        Some(8 as nat)
    } else if c == '9' {
        Some(9 as nat)
    } else {
        None
    }
}

fn digit_value(c: char) -> (r: Option<usize>)
    ensures
        match digit_of(c) {
            None => r is None,
            Some(d) => r == Some(d as usize),
        },
{
    if c == '0' {
        Some(0)
    } else if c == '1' {
        Some(1)
    } else if c == '2' {
        Some(2)
    } else if c == '3' {
        Some(3)
    } else if c == '4' {
        Some(4)
    } else if c == '5' {
        Some(5)
    } else if c == '6' {
        Some(6)
    } else if c == '7' {
        Some(7)
    } else if c == '8' {
        Some(8)
    } else if c == '9' {
        Some(9)
    } else {
        None
    }
}

/// Accumulates decimal digits from position `i` onward: the value read so
/// far and the first position past the digits.
pub open spec fn spec_parse_digits(s: Seq<char>, i: int, acc: nat) -> (nat, int)
    decreases s.len() - i when 0 <= i <= s.len()
{
    if i < s.len() && digit_of(s[i]) is Some {
        spec_parse_digits(s, i + 1, acc * 10 + digit_of(s[i])->Some_0)
    } else {
        (acc, i)
    }
}

pub proof fn lemma_parse_digits_ge(s: Seq<char>, i: int, acc: nat)
    requires
        0 <= i <= s.len(),
    ensures
        spec_parse_digits(s, i, acc).0 >= acc,
        i <= spec_parse_digits(s, i, acc).1 <= s.len(),
    decreases s.len() - i,
{
    if i < s.len() && digit_of(s[i]) is Some {
        lemma_parse_digits_ge(s, i + 1, acc * 10 + digit_of(s[i])->Some_0);
    }
}

fn parse_digits(s: &str, i: usize, acc: usize) -> (r: Option<(usize, usize)>)
    requires
        i <= s@.len(),
    ensures
        ({
            let p = spec_parse_digits(s@, i as int, acc as nat);
            if p.0 <= usize::MAX {
                r is Some && r->Some_0.0 == p.0 && r->Some_0.1 == p.1
            } else {
                r is None
            }
        }),
    decreases s@.len() - i,
{
    let n = s.unicode_len();
    if i < n {
        match digit_value(s.get_char(i)) {
            Some(d) => {
                let wide: u128 = acc as u128 * 10 + d as u128;
                if wide <= usize::MAX as u128 {
                    parse_digits(s, i + 1, acc * 10 + d)
                } else {
                    proof {
                        lemma_parse_digits_ge(s@, i + 1, acc as nat * 10 + d as nat);
                    }
                    None
                }
            },
            None => Some((acc, i)),
        }
    } else {
        Some((acc, i))
    }
}

/// A number at `i` starting with `0` may only be the single digit `0`:
/// a longer run with a leading zero is refused.
pub open spec fn spec_leading_zero(s: Seq<char>, i: int) -> bool {
    0 <= i && i + 1 < s.len() && s[i] == '0' && digit_of(s[i + 1]) is Some
}

/// Reads an unsigned decimal number: its value and the position past it.
/// There must be at least one digit, and no leading zero.
pub open spec fn spec_parse_number(s: Seq<char>, i: int) -> Option<(nat, int)> {
    if 0 <= i < s.len() && digit_of(s[i]) is Some && !spec_leading_zero(s, i) {
        Some(spec_parse_digits(s, i, 0))
    } else {
        None
    }
}

fn leading_zero_at(s: &str, i: usize) -> (r: bool)
    requires
        i < s@.len(),
    ensures
        r == spec_leading_zero(s@, i as int),
{
    let n = s.unicode_len();
    s.get_char(i) == '0' && n - i >= 2 && digit_at(s, i + 1)
}

/// Reads an unsigned decimal number. A value beyond the machine's range
/// is refused.
pub fn parse_number(s: &str, i: usize) -> (r: Option<(usize, usize)>)
    requires
        i <= s@.len(),
    ensures
        match spec_parse_number(s@, i as int) {
            None => r is None,
            Some(p) => if p.0 <= usize::MAX {
                r is Some && r->Some_0.0 == p.0 && r->Some_0.1 == p.1
            } else {
                r is None
            },
        },
{
    let n = s.unicode_len();
    if i < n && digit_value(s.get_char(i)).is_some() && !leading_zero_at(s, i) {
        parse_digits(s, i, 0)
    } else {
        None
    }
}

/// The first position at or after `i` that holds no digit.
pub open spec fn spec_skip_digits(s: Seq<char>, i: int) -> int
    decreases s.len() - i when 0 <= i <= s.len()
{
    if i < s.len() && digit_of(s[i]) is Some {
        spec_skip_digits(s, i + 1)
    } else {
        i
    }
}

pub proof fn lemma_skip_digits_bounds(s: Seq<char>, i: int)
    requires
        0 <= i <= s.len(),
    ensures
        i <= spec_skip_digits(s, i) <= s.len(),
    decreases s.len() - i,
{
    if i < s.len() && digit_of(s[i]) is Some {
        lemma_skip_digits_bounds(s, i + 1);
    }
}

fn digit_at(s: &str, j: usize) -> (r: bool)
    requires
        j < s@.len(),
    ensures
        r == (digit_of(s@[j as int]) is Some),
{
    digit_value(s.get_char(j)).is_some()
}

/// Advances past decimal digits.
fn skip_digits(s: &str, i: usize) -> (r: usize)
    requires
        i <= s@.len(),
    ensures
        r == spec_skip_digits(s@, i as int),
        i <= r <= s@.len(),
{
    let n = s.unicode_len();
    let mut j = i;
    while j < n && digit_at(s, j)
        invariant
            i <= j <= n,
            n == s@.len(),
            spec_skip_digits(s@, i as int) == spec_skip_digits(s@, j as int),
        decreases n - j,
    {
        j = j + 1;
    }
    j
}

/// The position just past one scalar value at `i`: a string literal, a
/// number, `true`, `false` or `null`. These are the values an
/// unrecognised key may carry; its content is not kept. A composite
/// value (object or array) is refused.
pub open spec fn spec_skip_value(s: Seq<char>, i: int) -> Option<int> {
    if !(0 <= i < s.len()) {
        None
    } else if s[i] == '"' {
        match spec_parse_string_body(s, i + 1) {
            None => None,
            Some(p) => Some(p.1),
        }
    } else if digit_of(s[i]) is Some {
        if spec_leading_zero(s, i) {
            None
        } else {
            Some(spec_skip_digits(s, i))
        }
    } else if s[i] == '-' && i + 1 < s.len() && digit_of(s[i + 1]) is Some {
        if spec_leading_zero(s, i + 1) {
            None
        } else {
            Some(spec_skip_digits(s, i + 1))
        }
    } else if i + 4 <= s.len() && s.subrange(i, i + 4) == "true"@ {
        Some(i + 4)
    } else if i + 5 <= s.len() && s.subrange(i, i + 5) == "false"@ {
        Some(i + 5)
    } else if i + 4 <= s.len() && s.subrange(i, i + 4) == "null"@ {
        Some(i + 4)
    } else {
        None
    }
}

pub proof fn lemma_skip_value_advances(s: Seq<char>, i: int)
    requires
        0 <= i <= s.len(),
        spec_skip_value(s, i) is Some,
    ensures
        i < spec_skip_value(s, i)->Some_0 <= s.len(),
{
    if i < s.len() && s[i] == '"' {
        lemma_parse_string_body_bounds(s, i + 1);
    } else if i < s.len() && digit_of(s[i]) is Some {
        lemma_skip_digits_bounds(s, i + 1);
    } else if i < s.len() && s[i] == '-' {
        lemma_skip_digits_bounds(s, i + 2);
    }
}

/// Advances past one scalar value.
pub fn skip_value(s: &str, i: usize) -> (r: Option<usize>)
    requires
        i <= s@.len(),
    ensures
        match spec_skip_value(s@, i as int) {
            None => r is None,
            Some(j) => r == Some(j as usize) && i < j <= s@.len(),
        },
{
    proof {
        reveal_strlit("true");
        reveal_strlit("false");
        reveal_strlit("null");
        if spec_skip_value(s@, i as int) is Some {
            lemma_skip_value_advances(s@, i as int);
        }
    }
    let n = s.unicode_len();
    if i >= n {
        return None;
    }
    let c = s.get_char(i);
    if c == '"' {
        match parse_string_body(s, i + 1) {
            None => None,
            Some(p) => Some(p.1),
        }
    } else if digit_value(c).is_some() {
        if leading_zero_at(s, i) {
            None
        } else {
            Some(skip_digits(s, i))
        }
    } else if c == '-' && n - i >= 2 && digit_at(s, i + 1) {
        if leading_zero_at(s, i + 1) {
            None
        } else {
            Some(skip_digits(s, i + 1))
        }
    } else if n - i >= 4 && str_eq(s.substring_char(i, i + 4), "true") {
        Some(i + 4)
    } else if n - i >= 5 && str_eq(s.substring_char(i, i + 5), "false") {
        Some(i + 5)
    } else if n - i >= 4 && str_eq(s.substring_char(i, i + 4), "null") {
        Some(i + 4)
    } else {
        None
    }
}

/// One character of a string rendered into the configuration file.
pub open spec fn spec_escape_char(c: char) -> Seq<char> {
    if c == '"' {
        seq!['\\', '"']
    } else if c == '\\' {
        seq!['\\', '\\']
    } else {
        seq![c]
    }
}

/// A string rendered into the configuration file: `"` and `\` are
/// preceded by a backslash, all else stands as it is.
pub open spec fn spec_escape(s: Seq<char>) -> Seq<char>
    decreases s.len(),
{
    if s.len() == 0 {
        Seq::empty()
    } else {
        spec_escape_char(s[0]) + spec_escape(s.drop_first())
    }
}

proof fn lemma_escape_push(p: Seq<char>, c: char)
    ensures
        spec_escape(p.push(c)) == spec_escape(p) + spec_escape_char(c),
    decreases p.len(),
{
    if p.len() == 0 {
        assert(p.push(c)[0] == c);
        assert(p.push(c).drop_first() =~= Seq::<char>::empty());
        assert(spec_escape(p.push(c)) == spec_escape_char(c) + spec_escape(
            Seq::<char>::empty(),
        ));
        assert(spec_escape(p.push(c)) =~= spec_escape(p) + spec_escape_char(c));
    } else {
        assert(p.push(c)[0] == p[0]);
        assert(p.push(c).drop_first() =~= p.drop_first().push(c));
        assert(spec_escape(p.push(c)) == spec_escape_char(p[0]) + spec_escape(
            p.drop_first().push(c),
        ));
        lemma_escape_push(p.drop_first(), c);
        assert(spec_escape(p.push(c)) =~= spec_escape(p) + spec_escape_char(c));
    }
}

/// Escaping a string with no `"` or `\` in it changes nothing.
pub proof fn lemma_escape_plain(d: Seq<char>)
    requires
        forall|j: int| 0 <= j < d.len() ==> d[j] != '"' && d[j] != '\\',
    ensures
        spec_escape(d) == d,
    decreases d.len(),
{
    if d.len() > 0 {
        lemma_escape_plain(d.drop_first());
        assert(spec_escape(d) =~= d);
    }
}

/// Reading a string literal whose body is the escaped form of `d`,
/// followed by the closing quote, recovers exactly `d`.
pub proof fn lemma_parse_escaped_string(s: Seq<char>, i: int, d: Seq<char>)
    requires
        0 <= i,
        i + spec_escape(d).len() < s.len(),
        s.subrange(i, i + spec_escape(d).len()) == spec_escape(d),
        s[i + spec_escape(d).len()] == '"',
    ensures
        spec_parse_string_body(s, i) == Some((d, i + spec_escape(d).len() + 1)),
    decreases d.len(),
{
    if d.len() == 0 {
        assert(d =~= Seq::<char>::empty());
        assert(s[i] == '"');
    } else {
        let c0 = d[0];
        let rest = d.drop_first();
        let e1 = spec_escape_char(c0);
        assert(spec_escape(d) == e1 + spec_escape(rest));
        let k = e1.len();
        let elen = spec_escape(d).len();
        let rlen = spec_escape(rest).len();
        assert(s.subrange(i, i + elen)[0] == s[i]);
        assert(s[i] == spec_escape(d)[0]);
        assert forall|j: int| 0 <= j < rlen implies s.subrange(i + k, (i + k) + rlen)[j]
            == spec_escape(rest)[j] by {
            assert(s.subrange(i + k, (i + k) + rlen)[j] == s[i + k + j]);
            assert(s.subrange(i, i + elen)[k + j] == s[i + k + j]);
            assert(spec_escape(d)[k + j] == spec_escape(rest)[j]);
        }
        assert(s.subrange(i + k, (i + k) + rlen) =~= spec_escape(rest));
        lemma_parse_escaped_string(s, i + k, rest);
        if c0 == '"' || c0 == '\\' {
            assert(e1 == seq!['\\', c0]);
            assert(s[i] == '\\');
            assert(s.subrange(i, i + elen)[1] == s[i + 1]);
            assert(s[i + 1] == spec_escape(d)[1]);
            assert(s[i + 1] == c0);
            assert(seq![c0] + rest =~= d);
        } else {
            assert(e1 == seq![c0]);
            assert(s[i] == c0);
            assert(seq![c0] + rest =~= d);
        }
    }
}

/// `10^k`.
pub open spec fn ten_pow(k: nat) -> nat
    decreases k,
{
    if k == 0 {
        1
    } else {
        10 * ten_pow((k - 1) as nat)
    }
}

/// A decimal rendering starts with a digit.
pub proof fn lemma_decimal_starts_with_digit(n: nat)
    ensures
        digit_of(spec_decimal(n)[0]) is Some,
    decreases n,
{
    if n < 10 {
        assert(spec_decimal(n)[0] == digit_char(n));
        assert(digit_of(digit_char(n)) is Some);
    } else {
        lemma_decimal_starts_with_digit(n / 10);
        assert(spec_decimal(n)[0] == spec_decimal(n / 10)[0]);
    }
}

/// The decimal rendering of a positive number never starts with `0`.
pub proof fn lemma_decimal_no_leading_zero(n: nat)
    requires
        n >= 1,
    ensures
        spec_decimal(n)[0] != '0',
    decreases n,
{
    if n >= 10 {
        lemma_decimal_no_leading_zero(n / 10);
        assert(spec_decimal(n / 10).len() >= 1);
        assert(spec_decimal(n)[0] == spec_decimal(n / 10)[0]);
    }
}

/// Reading digits across the decimal rendering of `n` folds `n` into
/// the accumulator and continues just past it.
pub proof fn lemma_parse_decimal_run(s: Seq<char>, i: int, acc: nat, n: nat)
    requires
        0 <= i,
        i + spec_decimal(n).len() <= s.len(),
        s.subrange(i, i + spec_decimal(n).len()) == spec_decimal(n),
    ensures
        spec_parse_digits(s, i, acc) == spec_parse_digits(
            s,
            i + spec_decimal(n).len(),
            acc * ten_pow(spec_decimal(n).len()) + n,
        ),
    decreases n,
{
    let dlen = spec_decimal(n).len();
    assert(s.subrange(i, i + dlen)[0] == s[i]);
    assert(s[i] == spec_decimal(n)[0]);
    if n < 10 {
        assert(spec_decimal(n) == seq![digit_char(n)]);
        assert(s[i] == digit_char(n));
        assert(digit_of(digit_char(n)) == Some(n));
        assert(ten_pow(0) == 1);
        assert(ten_pow(1) == 10);
        assert(spec_parse_digits(s, i, acc) == spec_parse_digits(s, i + 1, acc * 10 + n));
    } else {
        let q = n / 10;
        let r = n % 10;
        let k1 = spec_decimal(q).len();
        assert(spec_decimal(n) == spec_decimal(q).push(digit_char(r)));
        assert(dlen == k1 + 1);
        assert forall|j: int| 0 <= j < k1 implies s.subrange(i, i + k1)[j] == spec_decimal(
            q,
        )[j] by {
            assert(s.subrange(i, i + k1)[j] == s[i + j]);
            assert(s.subrange(i, i + dlen)[j] == s[i + j]);
            assert(spec_decimal(n)[j] == spec_decimal(q)[j]);
        }
        assert(s.subrange(i, i + k1) =~= spec_decimal(q));
        lemma_parse_decimal_run(s, i, acc, q);
        let a1 = acc * ten_pow(k1) + q;
        assert(s.subrange(i, i + dlen)[k1 as int] == s[i + k1]);
        assert(s[i + k1] == spec_decimal(n)[k1 as int]);
        assert(s[i + k1] == digit_char(r));
        assert(digit_of(digit_char(r)) == Some(r));
        assert(spec_parse_digits(s, i + k1, a1) == spec_parse_digits(s, i + k1 + 1, a1 * 10 + r));
        assert(ten_pow(dlen) == 10 * ten_pow(k1));
        assert(n == 10 * q + r) by {
            vstd::arithmetic::div_mod::lemma_fundamental_div_mod(n as int, 10);
        }
        assert(a1 * 10 + r == acc * ten_pow(dlen) + n) by (nonlinear_arith)
            requires
                a1 == acc * ten_pow(k1) + q,
                ten_pow(dlen) == 10 * ten_pow(k1),
                n == 10 * q + r,
        ;
    }
}

/// Renders a string for the configuration file, escaping `"` and `\`.
pub fn escape_string(s: &str) -> (r: String)
    ensures
        r@ == spec_escape(s@),
{
    let n = s.unicode_len();
    let mut out = String::new();
    let mut i: usize = 0;
    while i < n
        invariant
            i <= n,
            n == s@.len(),
            out@ == spec_escape(s@.take(i as int)),
        decreases n - i,
    {
        proof {
            reveal_strlit("\\\"");
            reveal_strlit("\\\\");
            assert("\\\""@ =~= seq!['\\', '"']);
            assert("\\\\"@ =~= seq!['\\', '\\']);
        }
        let c = s.get_char(i);
        if c == '"' {
            out.append("\\\"");
            proof {
                assert(spec_escape_char(s@[i as int]) == seq!['\\', '"']);
            }
        } else if c == '\\' {
            out.append("\\\\");
            proof {
                assert(spec_escape_char(s@[i as int]) == seq!['\\', '\\']);
            }
        } else {
            out.append(s.substring_char(i, i + 1));
            proof {
                assert(s@.subrange(i as int, i + 1) =~= seq![s@[i as int]]);
                assert(spec_escape_char(s@[i as int]) == seq![s@[i as int]]);
            }
        }
        proof {
            lemma_escape_push(s@.take(i as int), s@[i as int]);
            assert(s@.take(i as int).push(s@[i as int]) =~= s@.take(i + 1));
            assert(out@ == spec_escape(s@.take(i as int)) + spec_escape_char(s@[i as int]));
            assert(out@ =~= spec_escape(s@.take(i + 1)));
        }
        i = i + 1;
    }
    proof {
        assert(s@.take(n as int) =~= s@);
    }
    out
}

} // verus!
