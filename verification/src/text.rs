//! Text: decimal numbers, the order of strings, and searching.
//!
//! Sort keys of event rows end in a sequence number written with twenty
//! digits, so that the order of the keys as strings is the order of the
//! numbers. This module writes and reads such numbers and proves that fact.
//! It also compares and searches texts, and finds values by their names.

use vstd::arithmetic::div_mod::lemma_fundamental_div_mod;
use vstd::prelude::*;
use vstd::string::{StringExecFns, StringSliceAdditionalSpecFns};

verus! {

/// The character of a decimal digit.
pub open spec fn digit_char(d: int) -> char
    recommends
        0 <= d <= 9,
{
    (48 + d) as char
}

/// Whether a character is one of `0` to `9`.
pub open spec fn is_digit(c: char) -> bool {
    '0' <= c <= '9'
}

/// The value of a digit character.
pub open spec fn digit_value(c: char) -> int
    recommends
        is_digit(c),
{
    c as int - 48
}

/// Ten to the power `k`.
pub open spec fn pow10(k: nat) -> nat
    decreases k,
{
    if k == 0 {
        1
    } else {
        10 * pow10((k - 1) as nat)
    }
}

/// `n` in decimal, without leading zeros.
pub open spec fn decimal(n: nat) -> Seq<char>
    decreases n,
{
    if n < 10 {
        seq![digit_char(n as int)]
    } else {
        decimal(n / 10).push(digit_char((n % 10) as int))
    }
}

/// `n` in decimal with exactly `width` digits, zeros in front. Digits of `n`
/// above the width are dropped.
pub open spec fn padded(n: nat, width: nat) -> Seq<char>
    decreases width,
{
    if width == 0 {
        Seq::empty()
    } else {
        let unit = pow10((width - 1) as nat);
        seq![digit_char(((n / unit) % 10) as int)] + padded(n % unit, (width - 1) as nat)
    }
}

/// Whether every character of `s` is a digit.
pub open spec fn all_digits(s: Seq<char>) -> bool {
    forall|i: int| 0 <= i < s.len() ==> is_digit(#[trigger] s[i])
}

/// The number that a string of digits spells.
pub open spec fn digits_value(s: Seq<char>) -> nat
    decreases s.len(),
{
    if s.len() == 0 {
        0
    } else {
        (digits_value(s.drop_last()) * 10 + digit_value(s.last())) as nat
    }
}

/// The digits of a number text: the text without one plus sign in front.
pub open spec fn unsigned_digits(s: Seq<char>) -> Seq<char> {
    if s.len() > 0 && s[0] == '+' {
        s.drop_first()
    } else {
        s
    }
}

/// The unsigned number that a text spells, if it spells one that is at most
/// `max`: an optional plus sign, then one or more digits and nothing else.
pub open spec fn parse_unsigned(s: Seq<char>, max: nat) -> Option<nat> {
    let digits = unsigned_digits(s);
    if digits.len() > 0 && all_digits(digits) && digits_value(digits) <= max {
        Some(digits_value(digits))
    } else {
        None
    }
}

/// Strict order of strings: by the first character in which they differ,
/// characters compared by code point; a proper prefix comes first.
pub open spec fn lex_less(a: Seq<char>, b: Seq<char>) -> bool
    decreases a.len(),
{
    if b.len() == 0 {
        false
    } else if a.len() == 0 {
        true
    } else if a[0] == b[0] {
        lex_less(a.drop_first(), b.drop_first())
    } else {
        a[0] < b[0]
    }
}

/// Whether `prefix` stands at the start of `s`.
pub open spec fn has_prefix(s: Seq<char>, prefix: Seq<char>) -> bool {
    prefix.len() <= s.len() && s.subrange(0, prefix.len() as int) == prefix
}

/// A digit's character is a digit, and spells that digit.
pub proof fn lemma_digit_char(d: int)
    requires
        0 <= d <= 9,
    ensures
        digit_char(d) as int == 48 + d,
        is_digit(digit_char(d)),
        digit_value(digit_char(d)) == d,
{
}

/// No string comes before itself.
pub proof fn lemma_lex_less_irreflexive(a: Seq<char>)
    ensures
        !lex_less(a, a),
    decreases a.len(),
{
    if a.len() > 0 {
        lemma_lex_less_irreflexive(a.drop_first());
    }
}

/// The order of strings is transitive.
pub proof fn lemma_lex_less_transitive(a: Seq<char>, b: Seq<char>, c: Seq<char>)
    requires
        lex_less(a, b),
        lex_less(b, c),
    ensures
        lex_less(a, c),
    decreases a.len(),
{
    if a.len() > 0 && a[0] == b[0] && b[0] == c[0] {
        lemma_lex_less_transitive(a.drop_first(), b.drop_first(), c.drop_first());
    }
}

/// Of two different strings, one comes before the other.
pub proof fn lemma_lex_less_total(a: Seq<char>, b: Seq<char>)
    ensures
        a == b || lex_less(a, b) || lex_less(b, a),
    decreases a.len(),
{
    if a.len() > 0 && b.len() > 0 {
        if a[0] == b[0] {
            lemma_lex_less_total(a.drop_first(), b.drop_first());
            if a.drop_first() == b.drop_first() {
                assert(a =~= seq![a[0]] + a.drop_first());
                assert(b =~= seq![b[0]] + b.drop_first());
            }
        }
    } else if a.len() == 0 && b.len() == 0 {
        assert(a =~= b);
    }
}

/// A prefix that two strings share does not change their order.
pub proof fn lemma_lex_less_common_prefix(p: Seq<char>, a: Seq<char>, b: Seq<char>)
    ensures
        lex_less(p + a, p + b) == lex_less(a, b),
    decreases p.len(),
{
    if p.len() == 0 {
        assert(p + a =~= a);
        assert(p + b =~= b);
    } else {
        let q = p.drop_first();
        assert((p + a).drop_first() =~= q + a);
        assert((p + b).drop_first() =~= q + b);
        lemma_lex_less_common_prefix(q, a, b);
    }
}

/// Ten to any power is positive.
pub proof fn lemma_pow10_positive(k: nat)
    ensures
        pow10(k) > 0,
    decreases k,
{
    if k > 0 {
        lemma_pow10_positive((k - 1) as nat);
    }
}

/// Numbers that fit the width are ordered as their padded texts are.
pub proof fn lemma_padded_order(a: nat, b: nat, width: nat)
    requires
        a < pow10(width),
        b < pow10(width),
    ensures
        lex_less(padded(a, width), padded(b, width)) <==> a < b,
    decreases width,
{
    if width > 0 {
        let unit = pow10((width - 1) as nat);
        lemma_pow10_positive((width - 1) as nat);
        let qa = a / unit;
        let qb = b / unit;
        let ra = a % unit;
        let rb = b % unit;
        lemma_fundamental_div_mod(a as int, unit as int);
        lemma_fundamental_div_mod(b as int, unit as int);
        assert(qa < 10 && qb < 10) by (nonlinear_arith)
            requires
                a == unit * qa + ra,
                b == unit * qb + rb,
                a < 10 * unit,
                b < 10 * unit,
                0 <= ra,
                0 <= rb,
                unit > 0,
        ;
        let pa = padded(a, width);
        let pb = padded(b, width);
        let ta = padded(ra, (width - 1) as nat);
        let tb = padded(rb, (width - 1) as nat);
        lemma_digit_char((qa % 10) as int);
        lemma_digit_char((qb % 10) as int);
        assert(pa.drop_first() =~= ta);
        assert(pb.drop_first() =~= tb);
        lemma_padded_order(ra, rb, (width - 1) as nat);
        if qa == qb {
            assert(pa[0] == pb[0]);
        } else {
            assert(pa[0] != pb[0]);
            assert(pa[0] < pb[0] <==> qa < qb);
            assert(qa < qb ==> a < b) by (nonlinear_arith)
                requires
                    a == unit * qa + ra,
                    b == unit * qb + rb,
                    0 <= ra < unit,
                    0 <= rb < unit,
            ;
            assert(qb < qa ==> b < a) by (nonlinear_arith)
                requires
                    a == unit * qa + ra,
                    b == unit * qb + rb,
                    0 <= ra < unit,
                    0 <= rb < unit,
            ;
        }
    }
}

/// Different numbers have different padded texts, as long as they fit.
pub proof fn lemma_padded_injective(a: nat, b: nat, width: nat)
    requires
        a < pow10(width),
        b < pow10(width),
        padded(a, width) == padded(b, width),
    ensures
        a == b,
{
    lemma_padded_order(a, b, width);
    lemma_padded_order(b, a, width);
    lemma_lex_less_irreflexive(padded(a, width));
}

/// A decimal text is not empty and holds digits only.
pub proof fn lemma_decimal_digits(n: nat)
    ensures
        decimal(n).len() >= 1,
        all_digits(decimal(n)),
        n >= 10 ==> decimal(n).len() >= 2,
    decreases n,
{
    if n >= 10 {
        lemma_decimal_digits(n / 10);
        lemma_digit_char((n % 10) as int);
    } else {
        lemma_digit_char(n as int);
    }
}

/// Different numbers have different decimal texts.
pub proof fn lemma_decimal_injective(a: nat, b: nat)
    requires
        decimal(a) == decimal(b),
    ensures
        a == b,
    decreases a,
{
    lemma_decimal_digits(a);
    lemma_decimal_digits(b);
    if a >= 10 && b >= 10 {
        let da = decimal(a / 10);
        let db = decimal(b / 10);
        assert(da =~= decimal(a).drop_last());
        assert(db =~= decimal(b).drop_last());
        assert(decimal(a).last() == digit_char((a % 10) as int));
        assert(decimal(b).last() == digit_char((b % 10) as int));
        lemma_digit_char((a % 10) as int);
        lemma_digit_char((b % 10) as int);
        lemma_decimal_injective(a / 10, b / 10);
    } else if a < 10 && b < 10 {
        lemma_digit_char(a as int);
        lemma_digit_char(b as int);
        assert(decimal(a)[0] == digit_char(a as int));
        assert(decimal(b)[0] == digit_char(b as int));
    } else if a < 10 {
        assert(decimal(a).len() == 1);
    } else {
        assert(decimal(b).len() == 1);
    }
}

/// The two powers of ten that bound the 64-bit numbers.
pub proof fn lemma_pow10_values()
    ensures
        pow10(19) == 10_000_000_000_000_000_000nat,
        pow10(20) == 100_000_000_000_000_000_000nat,
{
    reveal_with_fuel(pow10, 21);
}

/// The text of one decimal digit.
fn digit_text(d: u8) -> (text: &'static str)
    requires
        d < 10,
    ensures
        text@ == seq![digit_char(d as int)],
{
    proof {
        reveal_strlit("0");
        reveal_strlit("1");
        reveal_strlit("2");
        reveal_strlit("3");
        reveal_strlit("4");
        reveal_strlit("5");
        reveal_strlit("6");
        reveal_strlit("7");
        reveal_strlit("8");
        reveal_strlit("9");
    }
    let text: &'static str = if d == 0 {
        "0"
    } else if d == 1 {
        "1"
    } else if d == 2 {
        "2"
    } else if d == 3 {
        "3"
    } else if d == 4 {
        "4"
    } else if d == 5 {
        "5"
    } else if d == 6 {
        "6"
    } else if d == 7 {
        "7"
    } else if d == 8 {
        "8"
    } else {
        "9"
    };
    assert(text@ =~= seq![digit_char(d as int)]);
    text
}

/// Appends `n` in decimal, without leading zeros.
pub fn push_decimal(out: &mut String, n: u64)
    ensures
        final(out)@ == old(out)@ + decimal(n as nat),
    decreases n,
{
    if n >= 10 {
        push_decimal(out, n / 10);
    }
    let d: u8 = (n % 10) as u8;
    out.append(digit_text(d));
    assert(out@ =~= old(out)@ + decimal(n as nat));
}

/// Appends `n` as twenty digits, zeros in front: wide enough for every
/// 64-bit number.
pub fn push_padded20(out: &mut String, n: u64)
    ensures
        final(out)@ == old(out)@ + padded(n as nat, 20),
{
    let mut unit: u64 = 10_000_000_000_000_000_000;
    let mut rest: u64 = n;
    let mut left: u32 = 20;
    proof {
        lemma_pow10_values();
    }
    while left > 0
        invariant
            0 <= left <= 20,
            left > 0 ==> unit == pow10((left - 1) as nat),
            old(out)@ + padded(n as nat, 20) == out@ + padded(rest as nat, left as nat),
        decreases left,
    {
        proof {
            lemma_pow10_positive((left - 1) as nat);
        }
        let d: u8 = ((rest / unit) % 10) as u8;
        let ghost before = out@;
        out.append(digit_text(d));
        let ghost tail = padded((rest % unit) as nat, (left - 1) as nat);
        assert(before + padded(rest as nat, left as nat) =~= out@ + tail);
        rest = rest % unit;
        left = left - 1;
        if left > 0 {
            proof {
                assert(pow10(left as nat) == 10 * pow10((left - 1) as nat));
            }
            unit = unit / 10;
        }
    }
    assert(out@ + padded(rest as nat, 0) =~= out@);
}

/// The value of the first digits of a text is at most the value of all of it.
pub proof fn lemma_digits_value_prefix(s: Seq<char>, k: int)
    requires
        0 <= k <= s.len(),
        all_digits(s),
    ensures
        digits_value(s.take(k)) <= digits_value(s),
    decreases s.len() - k,
{
    if k < s.len() {
        lemma_digits_value_prefix(s, k + 1);
        assert(s.take(k + 1).drop_last() =~= s.take(k));
        assert(s.take(k + 1).last() == s[k]);
    } else {
        assert(s.take(k) =~= s);
    }
}

/// The characters of a text.
pub fn chars_of(s: &str) -> (chars: Vec<char>)
    ensures
        chars@ == s@,
{
    let mut chars: Vec<char> = Vec::new();
    for c in it: s.chars()
        invariant
            chars@ == it.seq().take(it.index() as int),
            it.seq() == s@,
    {
        chars.push(c);
        assert(chars@ =~= it.seq().take(it.index() + 1));
    }
    assert(chars@ =~= s@);
    chars
}

/// Whether `pattern` stands in `s` at place `at`.
pub open spec fn occurs_at(s: Seq<char>, pattern: Seq<char>, at: int) -> bool {
    0 <= at && at + pattern.len() <= s.len() && s.subrange(at, at + pattern.len()) == pattern
}

/// Whether `pattern` stands somewhere in `s`.
pub open spec fn contains_text(s: Seq<char>, pattern: Seq<char>) -> bool {
    exists|at: int| occurs_at(s, pattern, at)
}

/// Whether `suffix` stands at the end of `s`.
pub open spec fn has_suffix(s: Seq<char>, suffix: Seq<char>) -> bool {
    suffix.len() <= s.len() && occurs_at(s, suffix, s.len() - suffix.len())
}

/// Whether `pattern` stands in `s` at place `at`.
fn matches_at(s: &Vec<char>, pattern: &Vec<char>, at: usize) -> (found: bool)
    requires
        at + pattern.len() <= s.len(),
    ensures
        found == occurs_at(s@, pattern@, at as int),
{
    let mut j: usize = 0;
    while j < pattern.len()
        invariant
            0 <= j <= pattern.len(),
            at + pattern.len() <= s.len(),
            s@.subrange(at as int, at + j) == pattern@.subrange(0, j as int),
        decreases pattern.len() - j,
    {
        if s[at + j] != pattern[j] {
            assert(s@.subrange(at as int, at + pattern.len())[j as int] == s@[at + j]);
            return false;
        }
        assert(s@.subrange(at as int, at + j + 1) =~= s@.subrange(at as int, at + j).push(
            s@[at + j],
        ));
        assert(pattern@.subrange(0, j + 1) =~= pattern@.subrange(0, j as int).push(
            pattern@[j as int],
        ));
        j = j + 1;
    }
    assert(pattern@.subrange(0, pattern.len() as int) =~= pattern@);
    true
}

/// Whether `pattern` stands somewhere in `s`.
pub fn contains(s: &str, pattern: &str) -> (found: bool)
    ensures
        found == contains_text(s@, pattern@),
{
    let text = chars_of(s);
    let sought = chars_of(pattern);
    if sought.len() > text.len() {
        return false;
    }
    let last: usize = text.len() - sought.len();
    let mut at: usize = 0;
    while at < last
        invariant
            0 <= at <= last,
            last == text.len() - sought.len(),
            text@ == s@,
            sought@ == pattern@,
            forall|k: int| 0 <= k < at ==> !occurs_at(s@, pattern@, k),
        decreases last - at,
    {
        if matches_at(&text, &sought, at) {
            return true;
        }
        at = at + 1;
    }
    matches_at(&text, &sought, last)
}

/// Whether `suffix` stands at the end of `s`.
pub fn ends_with(s: &str, suffix: &str) -> (found: bool)
    ensures
        found == has_suffix(s@, suffix@),
{
    let text = chars_of(s);
    let sought = chars_of(suffix);
    if sought.len() > text.len() {
        return false;
    }
    matches_at(&text, &sought, text.len() - sought.len())
}

/// Whether `prefix` stands at the start of `s`.
pub fn starts_with(s: &str, prefix: &str) -> (found: bool)
    ensures
        found == has_prefix(s@, prefix@),
{
    let text = chars_of(s);
    let sought = chars_of(prefix);
    if sought.len() > text.len() {
        return false;
    }
    matches_at(&text, &sought, 0)
}

/// Whether two texts are the same.
pub fn same_text(a: &str, b: &str) -> (same: bool)
    ensures
        same == (a@ == b@),
{
    let left = chars_of(a);
    let right = chars_of(b);
    if left.len() != right.len() {
        return false;
    }
    let same = matches_at(&left, &right, 0);
    proof {
        assert(a@.subrange(0, a@.len() as int) =~= a@);
    }
    same
}

/// Whether `a` comes before `b` in the order of strings.
pub fn text_less(a: &str, b: &str) -> (less: bool)
    ensures
        less == lex_less(a@, b@),
{
    let left = chars_of(a);
    let right = chars_of(b);
    let mut i: usize = 0;
    assert(a@.skip(0) =~= a@);
    assert(b@.skip(0) =~= b@);
    while i < left.len() && i < right.len()
        invariant
            0 <= i <= left.len(),
            i <= right.len(),
            left@ == a@,
            right@ == b@,
            lex_less(a@, b@) == lex_less(a@.skip(i as int), b@.skip(i as int)),
        decreases left.len() - i,
    {
        let ghost x = a@.skip(i as int);
        let ghost y = b@.skip(i as int);
        assert(x[0] == left@[i as int]);
        assert(y[0] == right@[i as int]);
        if left[i] != right[i] {
            return left[i] < right[i];
        }
        assert(x.drop_first() =~= a@.skip(i + 1));
        assert(y.drop_first() =~= b@.skip(i + 1));
        i = i + 1;
    }
    i < right.len()
}

/// Reads an unsigned number of at most 64 bits: an optional plus sign, then
/// one or more decimal digits. Anything else, or a number that does not fit,
/// gives `None`.
pub fn parse_u64(s: &str) -> (number: Option<u64>)
    ensures
        match parse_unsigned(s@, u64::MAX as nat) {
            Some(v) => number == Some(v as u64),
            None => number is None,
        },
{
    let ghost digits = unsigned_digits(s@);
    if !s.is_ascii() {
        proof {
            let i = choose|i: int| 0 <= i < s@.len() && !('\0' <= #[trigger] s@[i] <= '\u{7f}');
            if s@.len() > 0 && s@[0] == '+' {
                assert(i > 0);
                assert(digits[i - 1] == s@[i]);
                assert(!is_digit(digits[i - 1]));
            } else {
                assert(!is_digit(digits[i]));
            }
        }
        return None;
    }
    let bytes = s.as_bytes();
    proof {
        vstd::string::is_ascii_spec_bytes(s);
    }
    let n: usize = bytes.len();
    let mut i: usize = 0;
    if n > 0 && bytes[0] == 43u8 {
        i = 1;
    }
    let start: usize = i;
    assert(digits =~= s@.skip(start as int)) by {
        if start == 1 {
            assert(s@[0] as u8 == 43u8);
            assert(s@[0] == '+');
        } else if n > 0 {
            assert(s@[0] as u8 != 43u8);
        }
    }
    if i == n {
        return None;
    }
    let mut value: u64 = 0;
    while i < n
        invariant
            start <= i <= n,
            n == s@.len(),
            n == bytes@.len(),
            bytes@ =~= Seq::new(s@.len(), |k: int| s@[k] as u8),
            vstd::string::is_ascii(s),
            digits == s@.skip(start as int),
            digits == unsigned_digits(s@),
            all_digits(digits.take(i - start)),
            value == digits_value(digits.take(i - start)),
        decreases n - i,
    {
        let b: u8 = bytes[i];
        let ghost c = s@[i as int];
        assert(c == digits[i - start]);
        assert(b == c as u8);
        assert('\0' <= c <= '\u{7f}');
        if b < 48 || b > 57 {
            assert(!is_digit(c));
            return None;
        }
        let d: u64 = (b - 48) as u64;
        assert(d == digit_value(c));
        let ghost next = digits.take(i - start + 1);
        assert(next.drop_last() =~= digits.take(i - start));
        assert(next.last() == c);
        assert(all_digits(next)) by {
            assert forall|k: int| 0 <= k < next.len() implies is_digit(#[trigger] next[k]) by {
                if k < i - start {
                    assert(next[k] == digits.take(i - start)[k]);
                }
            }
        }
        if value > (u64::MAX - d) / 10 {
            proof {
                assert(digits_value(next) > u64::MAX);
                if all_digits(digits) {
                    lemma_digits_value_prefix(digits, i - start + 1);
                }
            }
            return None;
        }
        value = value * 10 + d;
        i = i + 1;
    }
    assert(digits.take(n - start) =~= digits);
    Some(value)
}

/// Reads an unsigned number of at most 32 bits, written as for
/// [`parse_u64`].
pub fn parse_u32(s: &str) -> (number: Option<u32>)
    ensures
        match parse_unsigned(s@, u32::MAX as nat) {
            Some(v) => number == Some(v as u32),
            None => number is None,
        },
{
    match parse_u64(s) {
        Some(v) => {
            if v <= 0xffff_ffff {
                Some(v as u32)
            } else {
                None
            }
        },
        None => {
            proof {
                let digits = unsigned_digits(s@);
                if digits.len() > 0 && all_digits(digits) {
                    assert(digits_value(digits) > u64::MAX);
                }
            }
            None
        },
    }
}

/// The place of the first of `names` that equals `name`, if any does.
pub open spec fn index_of(names: Seq<Seq<char>>, name: Seq<char>) -> Option<int>
    decreases names.len(),
{
    if names.len() == 0 {
        None
    } else if names[0] == name {
        Some(0)
    } else {
        match index_of(names.drop_first(), name) {
            Some(i) => Some(i + 1),
            None => None,
        }
    }
}

/// The names of named values, in order.
pub open spec fn names_of<V>(members: Seq<(String, V)>) -> Seq<Seq<char>> {
    members.map_values(|m: (String, V)| m.0@)
}

/// The value of the first member with the given name.
pub open spec fn member_of<V>(members: Seq<(Seq<char>, V)>, name: Seq<char>) -> Option<V> {
    match index_of(members.map_values(|m: (Seq<char>, V)| m.0), name) {
        Some(i) => Some(members[i].1),
        None => None,
    }
}

/// Where `index_of` finds a name, the name stands there and nowhere before.
pub proof fn lemma_index_of(names: Seq<Seq<char>>, name: Seq<char>)
    ensures
        match index_of(names, name) {
            Some(i) => 0 <= i < names.len() && names[i] == name && forall|j: int|
                0 <= j < i ==> names[j] != name,
            None => forall|j: int| 0 <= j < names.len() ==> names[j] != name,
        },
    decreases names.len(),
{
    if names.len() > 0 && names[0] != name {
        let rest = names.drop_first();
        lemma_index_of(rest, name);
        match index_of(rest, name) {
            Some(i) => {
                assert forall|j: int| 0 <= j < i + 1 implies names[j] != name by {
                    if j > 0 {
                        assert(names[j] == rest[j - 1]);
                    }
                }
            },
            None => {
                assert forall|j: int| 0 <= j < names.len() implies names[j] != name by {
                    if j > 0 {
                        assert(names[j] == rest[j - 1]);
                    }
                }
            },
        }
    }
}

/// Finds the first of the named values that has the given name.
pub fn find_member<V>(members: &Vec<(String, V)>, name: &str) -> (found: Option<usize>)
    ensures
        match index_of(names_of(members@), name@) {
            Some(i) => found == Some(i as usize) && 0 <= i < members.len(),
            None => found is None,
        },
{
    let ghost names = names_of(members@);
    let mut i: usize = 0;
    while i < members.len()
        invariant
            0 <= i <= members.len(),
            names == names_of(members@),
            forall|j: int| 0 <= j < i ==> names[j] != name@,
        decreases members.len() - i,
    {
        if same_text(members[i].0.as_str(), name) {
            proof {
                assert(names[i as int] == name@);
                lemma_index_of(names, name@);
            }
            return Some(i);
        }
        assert(names[i as int] != name@);
        i = i + 1;
    }
    proof {
        lemma_index_of(names, name@);
    }
    None
}

/// Every 64-bit number has at most twenty digits.
pub proof fn lemma_u64_fits_twenty_digits(n: u64)
    ensures
        (n as nat) < pow10(20),
{
    lemma_pow10_values();
}

} // verus!
