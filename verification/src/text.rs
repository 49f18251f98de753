//! Text: searching, decimal numbers, and the pieces of an address.

use vstd::prelude::*;
use vstd::string::*;

verus! {

/// Whether `pattern` occurs somewhere in `s`.
pub open spec fn has_text(s: Seq<char>, pattern: Seq<char>) -> bool {
    exists|i: int| has_text_at(s, pattern, i)
}

/// Whether `pattern` occurs in `s` at position `i`.
pub open spec fn has_text_at(s: Seq<char>, pattern: Seq<char>, i: int) -> bool {
    &&& 0 <= i
    &&& i + pattern.len() <= s.len()
    &&& s.subrange(i, i + pattern.len()) == pattern
}

/// Whether `s` begins with `prefix`.
pub open spec fn begins_with(s: Seq<char>, prefix: Seq<char>) -> bool {
    has_text_at(s, prefix, 0)
}

/// What is left of `s` behind its first `n` characters.
pub open spec fn behind(s: Seq<char>, n: nat) -> Seq<char> {
    s.subrange(n as int, s.len() as int)
}

/// The part of `s` in front of its first slash, or all of it.
pub open spec fn first_segment(s: Seq<char>) -> Seq<char>
    decreases s.len(),
{
    if s.len() == 0 || s[0] == '/' {
        Seq::empty()
    } else {
        seq![s[0]] + first_segment(s.drop_first())
    }
}

/// Whether `c` is one of the ten ASCII digits.
pub open spec fn is_digit(c: char) -> bool {
    '0' <= c && c <= '9'
}

/// The number that a run of digits writes in base ten.
pub open spec fn digits_value(s: Seq<char>) -> nat
    decreases s.len(),
{
    if s.len() == 0 {
        0
    } else {
        digits_value(s.drop_last()) * 10 + (s.last() as nat - '0' as nat) as nat
    }
}

/// Whether `s` holds at least one character, and digits only.
pub open spec fn all_digits(s: Seq<char>) -> bool {
    s.len() > 0 && forall|i: int| 0 <= i < s.len() ==> is_digit(#[trigger] s[i])
}

/// The whole number that `s` writes, where it writes one that fits: an optional
/// sign, then digits.
pub open spec fn parsed_i32(s: Seq<char>) -> Option<i32> {
    let signed = s.len() > 0 && (s[0] == '+' || s[0] == '-');
    let digits = if signed { s.drop_first() } else { s };
    let value: int = if signed && s[0] == '-' {
        -(digits_value(digits) as int)
    } else {
        digits_value(digits) as int
    };
    if all_digits(digits) && i32::MIN <= value <= i32::MAX {
        Some(value as i32)
    } else {
        None
    }
}

/// The digit that writes `d`.
pub open spec fn digit_char(d: nat) -> char {
    ('0' as nat + d) as char
}

/// The digits of `n` in base ten, without leading zeros.
pub open spec fn nat_text(n: nat) -> Seq<char>
    decreases n,
{
    if n < 10 {
        seq![digit_char(n)]
    } else {
        nat_text(n / 10) + seq![digit_char(n % 10)]
    }
}

/// A whole number as text in base ten, with a minus sign where it is negative.
pub open spec fn decimal_text(n: int) -> Seq<char> {
    if n < 0 {
        seq!['-'] + nat_text((-n) as nat)
    } else {
        nat_text(n as nat)
    }
}

/// `true` or `false`.
pub open spec fn bool_text(b: bool) -> Seq<char> {
    if b {
        "true"@
    } else {
        "false"@
    }
}

/// What occurs in a part of a text occurs in the text.
pub proof fn lemma_text_within(t: Seq<char>, s: Seq<char>, pattern: Seq<char>)
    requires
        has_text(t, s),
    ensures
        has_text(s, pattern) ==> has_text(t, pattern),
{
    if has_text(s, pattern) {
        let i = choose|i: int| has_text_at(t, s, i);
        let j = choose|j: int| has_text_at(s, pattern, j);
        assert(t.subrange(i + j, i + j + pattern.len()) =~= t.subrange(i, i + s.len()).subrange(
            j,
            j + pattern.len(),
        ));
        assert(has_text_at(t, pattern, i + j));
    }
}

/// The characters of `s`, in order.
pub fn chars_of(s: &str) -> (v: Vec<char>)
    ensures
        v@ == s@,
{
    let mut v: Vec<char> = Vec::new();
    for c in it: s.chars()
        invariant
            it.seq() == s@,
            v@ == s@.take(it.index()),
    {
        v.push(c);
    }
    v
}

/// Whether `s` and `other` hold the same characters.
pub fn text_is(s: &str, other: &str) -> (r: bool)
    ensures
        r == (s@ == other@),
{
    s.to_owned() == other.to_owned()
}

/// Whether `s[at..]` begins with all of `pattern`.
fn matches_at(s: &Vec<char>, pattern: &Vec<char>, at: usize) -> (r: bool)
    ensures
        r == has_text_at(s@, pattern@, at as int),
{
    if pattern.len() > s.len() || at > s.len() - pattern.len() {
        return false;
    }
    let mut i: usize = 0;
    while i < pattern.len()
        invariant
            i <= pattern.len(),
            at + pattern.len() <= s.len(),
            forall|j: int| 0 <= j < i ==> s@[at + j] == #[trigger] pattern@[j],
        decreases pattern.len() - i,
    {
        if s[at + i] != pattern[i] {
            assert(s@.subrange(at as int, at + pattern@.len())[i as int] != pattern@[i as int]);
            return false;
        }
        i = i + 1;
    }
    assert(s@.subrange(at as int, at + pattern@.len()) =~= pattern@);
    true
}

/// Whether `s` begins with `prefix`.
pub fn starts_with(s: &str, prefix: &str) -> (r: bool)
    ensures
        r == begins_with(s@, prefix@),
{
    matches_at(&chars_of(s), &chars_of(prefix), 0)
}

/// Whether `pattern` occurs in `s`.
pub fn contains(s: &str, pattern: &str) -> (r: bool)
    ensures
        r == has_text(s@, pattern@),
{
    let text = chars_of(s);
    let wanted = chars_of(pattern);
    if wanted.len() > text.len() {
        return false;
    }
    let last: usize = text.len() - wanted.len();
    let mut at: usize = 0;
    while at <= last
        invariant
            at <= last + 1,
            last == text.len() - wanted.len(),
            text@ == s@,
            wanted@ == pattern@,
            forall|i: int| 0 <= i < at ==> !has_text_at(s@, pattern@, i),
        decreases last + 1 - at,
    {
        if matches_at(&text, &wanted, at) {
            return true;
        }
        if at == last {
            return false;
        }
        at = at + 1;
    }
    false
}

/// What is left of `s` behind its first `n` characters.
pub fn rest_behind(s: &str, n: usize) -> (r: String)
    requires
        n <= s@.len(),
    ensures
        r@ == behind(s@, n as nat),
{
    s.substring_char(n, s.unicode_len()).to_owned()
}

/// The part of `s` in front of its first slash, or all of it.
pub fn up_to_slash(s: &str) -> (r: String)
    ensures
        r@ == first_segment(s@),
{
    let text = chars_of(s);
    let mut i: usize = 0;
    assert(s@.skip(0) =~= s@);
    assert(s@.take(0) + first_segment(s@.skip(0)) =~= first_segment(s@));
    while i < text.len() && text[i] != '/'
        invariant
            i <= text.len(),
            text@ == s@,
            s@.take(i as int) + first_segment(s@.skip(i as int)) == first_segment(s@),
        decreases text.len() - i,
    {
        proof {
            let tail = s@.skip(i as int);
            assert(tail.drop_first() =~= s@.skip(i + 1));
            assert(s@.take(i + 1) + first_segment(s@.skip(i + 1)) =~= s@.take(i as int) + (seq![
                tail[0],
            ] + first_segment(tail.drop_first())));
        }
        i = i + 1;
    }
    assert(s@.take(i as int) + first_segment(s@.skip(i as int)) =~= s@.take(i as int));
    s.substring_char(0, i).to_owned()
}

/// More digits write a number that is at least as large.
proof fn lemma_digits_value_grows(s: Seq<char>, n: int)
    requires
        0 <= n <= s.len(),
        forall|i: int| 0 <= i < s.len() ==> is_digit(#[trigger] s[i]),
    ensures
        digits_value(s.take(n)) <= digits_value(s),
    decreases s.len() - n,
{
    if n < s.len() {
        lemma_digits_value_grows(s, n + 1);
        assert(s.take(n + 1).drop_last() =~= s.take(n));
    } else {
        assert(s.take(n) =~= s);
    }
}

/// The number that the digits of `text` behind position `from` write, where there
/// are any, nothing else stands among them and it is at most `limit`.
fn read_digits(text: &Vec<char>, from: usize, limit: u64) -> (r: Option<u64>)
    requires
        from <= text.len(),
        limit <= 0x8000_0000,
    ensures
        r matches Some(n) ==> {
            &&& all_digits(text@.skip(from as int))
            &&& n == digits_value(text@.skip(from as int))
            &&& n <= limit
        },
        r is None ==> !all_digits(text@.skip(from as int)) || digits_value(
            text@.skip(from as int),
        ) > limit,
{
    let ghost all = text@.skip(from as int);
    let mut value: u64 = 0;
    let mut i: usize = from;
    assert(all.take(0) =~= Seq::<char>::empty());
    while i < text.len()
        invariant
            from <= i <= text.len(),
            limit <= 0x8000_0000,
            value <= limit,
            all == text@.skip(from as int),
            forall|j: int| 0 <= j < i - from ==> is_digit(#[trigger] all[j]),
            value == digits_value(all.take(i - from)),
        decreases text.len() - i,
    {
        let c: char = text[i];
        assert(all[i - from] == c);
        if c < '0' || c > '9' {
            assert(!is_digit(all[i - from]));
            return None;
        }
        let d: u64 = (c as u64) - ('0' as u64);
        proof {
            assert(all.take(i + 1 - from).drop_last() =~= all.take(i - from));
            assert(all.take(i + 1 - from).last() == c);
        }
        value = value * 10 + d;
        i = i + 1;
        if value > limit {
            proof {
                if all_digits(all) {
                    lemma_digits_value_grows(all, i - from);
                }
            }
            return None;
        }
    }
    assert(all.take(i - from) =~= all);
    if i == from {
        None
    } else {
        Some(value)
    }
}

/// The whole number that `s` writes, where it writes one that fits.
pub fn parse_i32(s: &str) -> (r: Option<i32>)
    ensures
        r == parsed_i32(s@),
{
    let text = chars_of(s);
    if text.len() == 0 {
        return None;
    }
    let first: char = text[0];
    assert(s@.skip(1) =~= s@.drop_first());
    assert(s@.skip(0) =~= s@);
    if first == '-' {
        match read_digits(&text, 1, 0x8000_0000) {
            Some(n) => Some((-(n as i64)) as i32),
            None => None,
        }
    } else if first == '+' {
        match read_digits(&text, 1, 0x7fff_ffff) {
            Some(n) => Some(n as i32),
            None => None,
        }
    } else {
        match read_digits(&text, 0, 0x7fff_ffff) {
            Some(n) => Some(n as i32),
            None => None,
        }
    }
}

/// The text of one digit.
fn digit(d: u64) -> (r: String)
    requires
        d < 10,
    ensures
        r@ == seq![digit_char(d as nat)],
{
    proof {
        reveal_strlit("0");
        reveal_strlit("1");
        reveal_strlit("2");
        reveal_strlit("3");
        reveal_strlit("4");
        reveal_strlit("5");
        reveal_strlit("6");
        reveal_strlit("7");
        reveal_strlit("8");
        reveal_strlit("9");
    }
    let text = if d == 0 {
        "0"
    } else if d == 1 {
        "1"
    } else if d == 2 {
        "2"
    } else if d == 3 {
        "3"
    } else if d == 4 {
        "4"
    } else if d == 5 {
        "5"
    } else if d == 6 {
        "6"
    } else if d == 7 {
        "7"
    } else if d == 8 {
        "8"
    } else {
        "9"
    };
    assert(text@ =~= seq![digit_char(d as nat)]);
    text.to_owned()
}

/// The digits of `n` in base ten.
pub fn natural(n: u64) -> (r: String)
    ensures
        r@ == nat_text(n as nat),
    decreases n,
{
    if n < 10 {
        digit(n)
    } else {
        let mut t = natural(n / 10);
        t.append(digit(n % 10).as_str());
        t
    }
}

/// `n` in base ten.
pub fn decimal(n: i64) -> (r: String)
    ensures
        r@ == decimal_text(n as int),
{
    if n < 0 {
        proof {
            reveal_strlit("-");
        }
        let magnitude: u64 = (-(n as i128)) as u64;
        let mut t = "-".to_owned();
        t.append(natural(magnitude).as_str());
        assert("-"@ =~= seq!['-']);
        t
    } else {
        natural(n as u64)
    }
}

/// `true` or `false`.
pub fn truth(b: bool) -> (r: String)
    ensures
        r@ == bool_text(b),
{
    if b {
        "true".to_owned()
    } else {
        "false".to_owned()
    }
}

/// The text of a number is never empty and holds digits only, and reads back as it.
pub proof fn lemma_nat_text_digits(n: nat)
    ensures
        all_digits(nat_text(n)),
        digits_value(nat_text(n)) == n,
    decreases n,
{
    if n < 10 {
        let t = nat_text(n);
        assert(t.drop_last() =~= Seq::<char>::empty());
        assert(digits_value(t.drop_last()) == 0);
        assert(t.last() == digit_char(n));
    } else {
        lemma_nat_text_digits(n / 10);
        let t = nat_text(n);
        assert(t.drop_last() =~= nat_text(n / 10));
        assert(t.last() == digit_char(n % 10));
        assert forall|i: int| 0 <= i < t.len() implies is_digit(#[trigger] t[i]) by {
            if i < t.len() - 1 {
                assert(t[i] == nat_text(n / 10)[i]);
            }
        }
    }
}

/// Every 32-bit number is read back from the text that writes it.
pub proof fn lemma_decimal_reads_back(n: i32)
    ensures
        parsed_i32(decimal_text(n as int)) == Some(n),
{
    if n < 0 {
        let magnitude = (-(n as int)) as nat;
        lemma_nat_text_digits(magnitude);
        assert(decimal_text(n as int).drop_first() =~= nat_text(magnitude));
    } else {
        lemma_nat_text_digits(n as nat);
        assert(is_digit(nat_text(n as nat)[0]));
    }
}

/// What stands between two texts is found there, and what is found stands between two
/// texts.
pub proof fn lemma_text_between(a: Seq<char>, s: Seq<char>, b: Seq<char>, t: Seq<char>)
    ensures
        has_text(a + s + b, s),
        has_text(t, s) <==> exists|i: int|
            0 <= i <= t.len() && t == #[trigger] t.take(i) + s + t.skip(i + s.len()),
        begins_with(s + b, s),
        begins_with(t, s) <==> t == s + t.skip(s.len() as int),
        behind(s + b, s.len()) == b,
{
    assert((a + s + b).subrange(a.len() as int, (a.len() + s.len()) as int) =~= s);
    assert(has_text_at(a + s + b, s, a.len() as int));
    assert((s + b).subrange(0, s.len() as int) =~= s);
    assert(behind(s + b, s.len()) =~= b);
    if has_text(t, s) {
        let i = choose|i: int| has_text_at(t, s, i);
        assert(t =~= t.take(i) + t.subrange(i, i + s.len()) + t.skip(i + s.len()));
        assert(t == t.take(i) + s + t.skip(i + s.len()));
    }
    if exists|i: int| 0 <= i <= t.len() && t == #[trigger] t.take(i) + s + t.skip(i + s.len()) {
        let i = choose|i: int|
            0 <= i <= t.len() && t == #[trigger] t.take(i) + s + t.skip(i + s.len());
        let whole = t.take(i) + s + t.skip(i + s.len());
        assert(whole.len() == t.len());
        assert(i + s.len() <= t.len()) by {
            if i + s.len() > t.len() {
                assert((t.take(i) + s).len() == i + s.len());
                assert(whole.len() >= (t.take(i) + s).len());
            }
        }
        assert(whole.subrange(i, i + s.len()) =~= s);
        assert(has_text_at(t, s, i));
    }
    if begins_with(t, s) {
        assert(t =~= t.subrange(0, s.len() as int) + t.skip(s.len() as int));
    }
    if t == s + t.skip(s.len() as int) {
        let whole = s + t.skip(s.len() as int);
        assert(whole.len() >= s.len());
        assert(whole.subrange(0, s.len() as int) =~= s);
    }
}

/// A number is written digit by digit, the last one behind those of its tenth part, and a
/// negative one with a minus sign in front.
pub proof fn lemma_written_numbers(n: nat, d: nat)
    requires
        d < 10,
    ensures
        nat_text(d).len() == 1,
        nat_text(d)[0] as u32 == 48 + d,
        n > 0 ==> nat_text(10 * n + d) == nat_text(n).push(nat_text(d)[0]),
        decimal_text(n as int) == nat_text(n),
        n > 0 ==> decimal_text(-(n as int)) == seq!['-'] + nat_text(n),
{
    if n > 0 {
        let m = 10 * n + d;
        assert(m / 10 == n && m % 10 == d);
        assert(nat_text(m) =~= nat_text(n).push(nat_text(d)[0]));
    }
}

/// A number is read from its digits, with any zeros or a sign in front, where it fits; and
/// from nothing else.
pub proof fn lemma_read_numbers(n: nat, s: Seq<char>, i: int)
    ensures
        parsed_i32(nat_text(n)) == (if n <= i32::MAX {
            Some(n as i32)
        } else {
            None
        }),
        parsed_i32(seq!['+'] + nat_text(n)) == parsed_i32(nat_text(n)),
        parsed_i32(seq!['-'] + nat_text(n)) == (if -(n as int) >= i32::MIN {
            Some((-(n as int)) as i32)
        } else {
            None
        }),
        parsed_i32(seq!['0'] + nat_text(n)) == parsed_i32(nat_text(n)),
        parsed_i32(Seq::empty()) is None,
        0 <= i < s.len() && !('0' <= s[i] && s[i] <= '9') && !(i == 0 && s.len() > 1 && (s[0] == '+'
            || s[0] == '-')) ==> parsed_i32(s) is None,
{
    let t = nat_text(n);
    lemma_nat_text_digits(n);
    assert(is_digit(t[0]));
    assert((seq!['+'] + t).drop_first() =~= t);
    assert((seq!['-'] + t).drop_first() =~= t);
    lemma_zero_in_front(t);
    let z = seq!['0'] + t;
    assert(all_digits(z)) by {
        assert forall|j: int| 0 <= j < z.len() implies is_digit(#[trigger] z[j]) by {
            if j > 0 {
                assert(z[j] == t[j - 1]);
            }
        }
    }
    assert(is_digit(z[0]));
    if 0 <= i < s.len() && !is_digit(s[i]) && !(i == 0 && s.len() > 1 && (s[0] == '+' || s[0]
        == '-')) {
        if s[0] == '+' || s[0] == '-' {
            if i > 0 {
                assert(s.drop_first()[i - 1] == s[i]);
            }
        }
    }
}

/// A zero in front of digits does not count.
proof fn lemma_zero_in_front(t: Seq<char>)
    ensures
        digits_value(seq!['0'] + t) == digits_value(t),
    decreases t.len(),
{
    let z = seq!['0'] + t;
    if t.len() == 0 {
        assert(z.drop_last() =~= Seq::<char>::empty());
        assert(digits_value(z.drop_last()) == 0);
        assert(z.last() == '0');
    } else {
        lemma_zero_in_front(t.drop_last());
        assert(z.drop_last() =~= seq!['0'] + t.drop_last());
        assert(z.last() == t.last());
    }
}

/// The first segment of a text reaches to its first slash, or to its end.
pub proof fn lemma_first_segment(s: Seq<char>, n: int)
    requires
        0 <= n <= s.len(),
        forall|i: int| 0 <= i < n ==> #[trigger] s[i] != '/',
        n < s.len() ==> s[n] == '/',
    ensures
        first_segment(s) == s.take(n),
    decreases n,
{
    if n > 0 {
        let rest = s.drop_first();
        assert forall|i: int| 0 <= i < n - 1 implies #[trigger] rest[i] != '/' by {
            assert(rest[i] == s[i + 1]);
        }
        lemma_first_segment(rest, n - 1);
        assert(seq![s[0]] + rest.take(n - 1) =~= s.take(n));
    } else {
        assert(s.take(0) =~= Seq::<char>::empty());
    }
}

} // verus!
