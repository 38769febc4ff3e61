//! Text primitives that the date types are built on: decimal numbers, fields
//! cut at a separator, and replacement of a token inside a template.
//!
//! Every operation is stated over `Seq<char>`, the view of a string, and the
//! executable functions work on `Vec<char>`.

use vstd::prelude::*;

verus! {

// Decimal numbers

/// Whether `c` is one of the ten decimal digits `0` to `9`.
pub open spec fn is_digit(c: char) -> bool {
    '0' <= c && c <= '9'
}

/// The character that writes the digit `d`.
pub open spec fn digit_char(d: nat) -> char
    recommends
        d < 10,
{
    ('0' as nat + d) as char
}

/// The digit that the character `c` writes.
pub open spec fn digit_value(c: char) -> nat
    recommends
        is_digit(c),
{
    (c as nat - '0' as nat) as nat
}

/// The decimal text of `n`: no sign, no padding, no leading zero except for
/// zero itself.
pub open spec fn decimal(n: nat) -> Seq<char>
    decreases n,
{
    if n < 10 {
        seq![digit_char(n)]
    } else {
        decimal(n / 10).push(digit_char(n % 10))
    }
}

/// The decimal text of `n`, with a leading `0` where it would otherwise be a
/// single digit.
pub open spec fn padded2(n: nat) -> Seq<char> {
    if n < 10 {
        seq!['0'] + decimal(n)
    } else {
        decimal(n)
    }
}

/// Whether `s` is a non-empty run of decimal digits.
pub open spec fn is_decimal(s: Seq<char>) -> bool {
    s.len() > 0 && forall|i: int| 0 <= i < s.len() ==> is_digit(#[trigger] s[i])
}

/// The number that a run of decimal digits writes, most significant digit
/// first. Leading zeros do not change it.
pub open spec fn decimal_value(s: Seq<char>) -> nat
    decreases s.len(),
{
    if s.len() == 0 {
        0
    } else {
        10 * decimal_value(s.drop_last()) + digit_value(s.last())
    }
}

/// What `s` reads as when at most `max` is wanted: the number it writes, if it
/// is a run of digits and the number does not exceed `max`.
pub open spec fn number_within(s: Seq<char>, max: nat) -> Option<nat> {
    if is_decimal(s) && decimal_value(s) <= max {
        Some(decimal_value(s))
    } else {
        None
    }
}

/// The decimal text of a number is a run of digits that writes that number.
pub proof fn lemma_decimal_round_trip(n: nat)
    ensures
        is_decimal(decimal(n)),
        decimal_value(decimal(n)) == n,
    decreases n,
{
    if n < 10 {
        assert(decimal_value(decimal(n).drop_last()) == 0);
    } else {
        lemma_decimal_round_trip(n / 10);
        assert(decimal(n).drop_last() =~= decimal(n / 10));
    }
}

/// The decimal text of a number below one hundred has one or two characters,
/// and that of a number below ten has one.
pub proof fn lemma_decimal_len(n: nat)
    ensures
        n < 10 ==> decimal(n).len() == 1,
        10 <= n < 100 ==> decimal(n).len() == 2,
        decimal(n).len() >= 1,
    decreases n,
{
    if n >= 10 {
        lemma_decimal_len(n / 10);
    }
}

/// Appending digits to a run of digits never makes the number smaller.
pub proof fn lemma_decimal_value_prefix(s: Seq<char>, k: int)
    requires
        0 <= k <= s.len(),
    ensures
        decimal_value(s.take(k)) <= decimal_value(s),
    decreases s.len(),
{
    if k == s.len() {
        assert(s.take(k) =~= s);
    } else {
        lemma_decimal_value_prefix(s.drop_last(), k);
        assert(s.drop_last().take(k) =~= s.take(k));
    }
}

/// The decimal text of a number, padded or not, holds digits only, and so
/// holds no character that is not a digit.
pub proof fn lemma_decimal_lacks(n: nat, c: char)
    requires
        !is_digit(c),
    ensures
        !decimal(n).contains(c),
        !padded2(n).contains(c),
{
    lemma_decimal_round_trip(n);
    if decimal(n).contains(c) {
        let k = choose|k: int| 0 <= k < decimal(n).len() && decimal(n)[k] == c;
        assert(is_digit(decimal(n)[k]));
    }
    if padded2(n).contains(c) {
        let k = choose|k: int| 0 <= k < padded2(n).len() && padded2(n)[k] == c;
        if n < 10 && k > 0 {
            assert(padded2(n)[k] == decimal(n)[k - 1]);
        }
    }
}

/// The padded text of a number reads as that number.
pub proof fn lemma_padded2_round_trip(n: nat, max: nat)
    requires
        n <= max,
    ensures
        number_within(padded2(n), max) == Some(n),
{
    lemma_decimal_round_trip(n);
    if n < 10 {
        lemma_decimal_len(n);
        let text = padded2(n);
        assert(decimal_value(text.drop_last().drop_last()) == 0);
        assert(decimal_value(text.drop_last()) == 0);
        assert forall|i: int| 0 <= i < text.len() implies is_digit(#[trigger] text[i]) by {
            if i > 0 {
                assert(text[i] == decimal(n)[i - 1]);
            }
        }
    }
}

/// The character that writes the digit `d`.
fn digit_to_char(d: u8) -> (c: char)
    requires
        d < 10,
    ensures
        c == digit_char(d as nat),
{
    (48u8 + d) as char
}

/// The digit that `c` writes, if it writes one.
fn char_to_digit(c: char) -> (d: Option<u8>)
    ensures
        d is Some <==> is_digit(c),
        d matches Some(v) ==> v == digit_value(c) && v < 10,
{
    if '0' <= c && c <= '9' {
        Some((c as u32 - '0' as u32) as u8)
    } else {
        None
    }
}

/// Appends the decimal text of `n` to `out`.
pub fn push_decimal(out: &mut Vec<char>, n: u64)
    ensures
        final(out)@ == old(out)@ + decimal(n as nat),
{
    let mut rev: Vec<char> = Vec::new();
    rev.push(digit_to_char((n % 10) as u8));
    let mut m: u64 = n / 10;
    while m > 0
        invariant
            rev@.len() > 0,
            decimal(n as nat) == (if m > 0 {
                decimal(m as nat)
            } else {
                Seq::<char>::empty()
            }) + rev@.reverse(),
        decreases m,
    {
        rev.push(digit_to_char((m % 10) as u8));
        m = m / 10;
    }
    let mut i: usize = rev.len();
    while i > 0
        invariant
            i <= rev@.len(),
            out@ == old(out)@ + rev@.reverse().take(rev@.len() - i),
        decreases i,
    {
        i = i - 1;
        out.push(rev[i]);
    }
}

/// Appends the decimal text of `n` to `out`, with a leading `0` where `n` is a
/// single digit.
pub fn push_padded2(out: &mut Vec<char>, n: u64)
    ensures
        final(out)@ == old(out)@ + padded2(n as nat),
{
    if n < 10 {
        out.push('0');
    }
    push_decimal(out, n);
}

/// Reads `s` as a decimal number of at most `max`.
///
/// The text must consist of digits only: an empty text, a sign, a blank or any
/// other character makes it unreadable, and so does a number above `max`.
pub fn parse_number(s: &Vec<char>, max: u64) -> (out: Option<u64>)
    ensures
        match out {
            Some(v) => number_within(s@, max as nat) == Some(v as nat),
            None => number_within(s@, max as nat) is None,
        },
{
    if s.len() == 0 {
        return None;
    }
    let mut acc: u64 = 0;
    let mut i: usize = 0;
    while i < s.len()
        invariant
            i <= s@.len(),
            forall|j: int| 0 <= j < i ==> is_digit(#[trigger] s@[j]),
            acc == decimal_value(s@.take(i as int)),
            acc <= max,
        decreases s@.len() - i,
    {
        let d: u8 = match char_to_digit(s[i]) {
            Some(d) => d,
            None => {
                return None;
            },
        };
        proof {
            assert(s@.take(i + 1).drop_last() =~= s@.take(i as int));
            lemma_decimal_value_prefix(s@, i + 1);
        }
        if d as u64 > max || acc > (max - d as u64) / 10 {
            return None;
        }
        acc = acc * 10 + d as u64;
        i = i + 1;
    }
    assert(s@.take(i as int) =~= s@);
    Some(acc)
}

// Fields

/// The fields of `s` when it is cut at every occurrence of `sep`, in order.
///
/// There is always one field more than there are separators: a text without a
/// separator is one field, and a separator at either end, or two in a row,
/// leave an empty field.
pub open spec fn fields(s: Seq<char>, sep: char) -> Seq<Seq<char>>
    decreases s.len(),
{
    if s.len() == 0 {
        seq![Seq::<char>::empty()]
    } else {
        let before = fields(s.drop_last(), sep);
        if s.last() == sep {
            before.push(Seq::<char>::empty())
        } else {
            before.drop_last().push(before.last().push(s.last()))
        }
    }
}

/// The number of times `c` occurs in `s`.
pub open spec fn occurrences(s: Seq<char>, c: char) -> nat
    decreases s.len(),
{
    if s.len() == 0 {
        0
    } else {
        occurrences(s.drop_last(), c) + if s.last() == c {
            1nat
        } else {
            0nat
        }
    }
}

/// The texts of `parts` written one after the other with `sep` between each
/// two of them.
pub open spec fn joined(parts: Seq<Seq<char>>, sep: char) -> Seq<char>
    decreases parts.len(),
{
    if parts.len() == 0 {
        Seq::<char>::empty()
    } else if parts.len() == 1 {
        parts[0]
    } else {
        joined(parts.drop_last(), sep).push(sep) + parts.last()
    }
}

/// The views of a vector of texts.
pub open spec fn texts(parts: Seq<Vec<char>>) -> Seq<Seq<char>> {
    parts.map_values(|p: Vec<char>| p@)
}

/// Cutting a text into fields loses nothing and leaves no separator behind:
/// there is one field more than there are separators, no field holds the
/// separator, and the fields joined by the separator are the text again.
pub proof fn lemma_fields_partition(s: Seq<char>, sep: char)
    ensures
        fields(s, sep).len() == occurrences(s, sep) + 1,
        forall|i: int| 0 <= i < fields(s, sep).len() ==> !(#[trigger] fields(s, sep)[i]).contains(sep),
        joined(fields(s, sep), sep) == s,
    decreases s.len(),
{
    if s.len() > 0 {
        let front = s.drop_last();
        let before = fields(front, sep);
        lemma_fields_partition(front, sep);
        assert(front.push(s.last()) =~= s);
        if s.last() == sep {
            let now = before.push(Seq::<char>::empty());
            assert(now.drop_last() =~= before);
        } else {
            let grown = before.last().push(s.last());
            let now = before.drop_last().push(grown);
            assert forall|i: int| 0 <= i < now.len() implies !(#[trigger] now[i]).contains(sep) by {
                if i == now.len() - 1 && grown.contains(sep) {
                    let k = choose|k: int| 0 <= k < grown.len() && grown[k] == sep;
                    assert(before.last()[k] == sep);
                }
            }
            if before.len() > 1 {
                assert(now.drop_last() =~= before.drop_last());
            }
        }
    }
}

/// A text that does not hold the separator is one field.
pub proof fn lemma_fields_single(s: Seq<char>, sep: char)
    requires
        !s.contains(sep),
    ensures
        fields(s, sep) == seq![s],
    decreases s.len(),
{
    if s.len() == 0 {
        assert(s =~= Seq::<char>::empty());
    } else {
        let front = s.drop_last();
        if front.contains(sep) {
            let k = choose|k: int| 0 <= k < front.len() && front[k] == sep;
            assert(s[k] == sep);
        }
        lemma_fields_single(front, sep);
        assert(s[s.len() - 1] != sep);
        assert(front.push(s.last()) =~= s);
    }
}

/// The fields of two texts joined by a separator are the fields of the first
/// followed by those of the second.
pub proof fn lemma_fields_concat(a: Seq<char>, b: Seq<char>, sep: char)
    ensures
        fields(a.push(sep) + b, sep) == fields(a, sep) + fields(b, sep),
    decreases b.len(),
{
    let whole = a.push(sep) + b;
    if b.len() == 0 {
        assert(whole.drop_last() =~= a);
    } else {
        lemma_fields_concat(a, b.drop_last(), sep);
        assert(whole.drop_last() =~= a.push(sep) + b.drop_last());
        lemma_fields_partition(b.drop_last(), sep);
    }
}

/// Cuts `s` at every occurrence of `sep`.
pub fn split(s: &Vec<char>, sep: char) -> (out: Vec<Vec<char>>)
    ensures
        texts(out@) == fields(s@, sep),
{
    let mut done: Vec<Vec<char>> = Vec::new();
    let mut current: Vec<char> = Vec::new();
    let mut i: usize = 0;
    while i < s.len()
        invariant
            i <= s@.len(),
            texts(done@).push(current@) == fields(s@.take(i as int), sep),
        decreases s@.len() - i,
    {
        let c: char = s[i];
        assert(s@.take(i + 1).drop_last() =~= s@.take(i as int));
        if c == sep {
            done.push(current);
            current = Vec::new();
        } else {
            current.push(c);
        }
        i = i + 1;
    }
    assert(s@.take(i as int) =~= s@);
    done.push(current);
    done
}

// Replacement

/// The text in which every occurrence of `pattern` in `s` has given way to
/// `with`: occurrences are found from the left and do not overlap, and what
/// was put in is not searched again. An empty pattern changes nothing.
pub open spec fn replace_all(s: Seq<char>, pattern: Seq<char>, with: Seq<char>) -> Seq<char>
    decreases s.len(),
{
    if pattern.len() == 0 || s.len() < pattern.len() {
        s
    } else if s.take(pattern.len() as int) == pattern {
        with + replace_all(s.skip(pattern.len() as int), pattern, with)
    } else {
        seq![s[0]] + replace_all(s.skip(1), pattern, with)
    }
}

/// Two texts that lack a character lack it when written one after the other.
pub proof fn lemma_concat_lacks(a: Seq<char>, b: Seq<char>, c: char)
    requires
        !a.contains(c),
        !b.contains(c),
    ensures
        !(a + b).contains(c),
{
    if (a + b).contains(c) {
        let k = choose|k: int| 0 <= k < (a + b).len() && (a + b)[k] == c;
        if k < a.len() {
            assert(a[k] == c);
        } else {
            assert(b[k - a.len()] == c);
        }
    }
}

/// Replacement leaves alone a stretch in which no occurrence can begin: a
/// text that lacks the first character of the pattern passes through
/// unchanged, and what follows it is replaced as if it stood alone.
pub proof fn lemma_replace_all_skips(
    a: Seq<char>,
    b: Seq<char>,
    pattern: Seq<char>,
    with: Seq<char>,
)
    requires
        pattern.len() > 0,
        !a.contains(pattern[0]),
    ensures
        replace_all(a + b, pattern, with) == a + replace_all(b, pattern, with),
    decreases a.len(),
{
    if a.len() == 0 {
        assert(a + b =~= b);
        assert(a + replace_all(b, pattern, with) =~= replace_all(b, pattern, with));
    } else {
        let whole = a + b;
        if a.skip(1).contains(pattern[0]) {
            let k = choose|k: int| 0 <= k < a.skip(1).len() && a.skip(1)[k] == pattern[0];
            assert(a[k + 1] == pattern[0]);
        }
        lemma_replace_all_skips(a.skip(1), b, pattern, with);
        assert(whole.skip(1) =~= a.skip(1) + b);
        assert(a[0] != pattern[0]);
        if whole.len() >= pattern.len() {
            assert(whole.take(pattern.len() as int)[0] == a[0]);
            assert(seq![a[0]] + (a.skip(1) + replace_all(b, pattern, with)) =~= a + replace_all(
                b,
                pattern,
                with,
            ));
        } else {
            assert(replace_all(b, pattern, with) == b);
        }
    }
}

/// Whether `pattern` stands in `s` at position `at`.
fn occurs_at(s: &Vec<char>, at: usize, pattern: &Vec<char>) -> (out: bool)
    requires
        at <= s@.len(),
    ensures
        out == (at + pattern@.len() <= s@.len() && s@.skip(at as int).take(pattern@.len() as int)
            == pattern@),
{
    if pattern.len() > s.len() - at {
        return false;
    }
    let mut k: usize = 0;
    while k < pattern.len()
        invariant
            k <= pattern.len(),
            at + pattern.len() <= s.len(),
            forall|j: int| 0 <= j < k ==> s@[at + j] == pattern@[j],
        decreases pattern@.len() - k,
    {
        if s[at + k] != pattern[k] {
            return false;
        }
        k = k + 1;
    }
    assert(s@.skip(at as int).take(pattern@.len() as int) =~= pattern@);
    true
}

/// Puts `with` in the place of every occurrence of `pattern` in `s`.
pub fn replace(s: &Vec<char>, pattern: &Vec<char>, with: &Vec<char>) -> (out: Vec<char>)
    ensures
        out@ == replace_all(s@, pattern@, with@),
{
    let mut out: Vec<char> = Vec::new();
    if pattern.len() == 0 {
        push_all(&mut out, s);
        return out;
    }
    let mut i: usize = 0;
    assert(s@.skip(0) =~= s@);
    while i < s.len()
        invariant
            i <= s@.len(),
            pattern@.len() > 0,
            out@ + replace_all(s@.skip(i as int), pattern@, with@) == replace_all(
                s@,
                pattern@,
                with@,
            ),
        decreases s@.len() - i,
    {
        let ghost rest = s@.skip(i as int);
        if occurs_at(s, i, pattern) {
            push_all(&mut out, with);
            assert(rest.skip(pattern@.len() as int) =~= s@.skip(i + pattern@.len()));
            i = i + pattern.len();
        } else {
            out.push(s[i]);
            assert(rest.skip(1) =~= s@.skip(i + 1));
            i = i + 1;
        }
    }
    out
}

// Strings and vectors of characters

/// The characters of `s`, one by one.
pub fn chars_of(s: &str) -> (out: Vec<char>)
    ensures
        out@ == s@,
{
    let mut out: Vec<char> = Vec::new();
    for c in it: s.chars()
        invariant
            out@ == it.seq().take(it.index()),
    {
        out.push(c);
    }
    out
}

/// Appends the characters of `more` to `out`.
pub fn push_str(out: &mut Vec<char>, more: &str)
    ensures
        final(out)@ == old(out)@ + more@,
{
    for c in it: more.chars()
        invariant
            out@ == old(out)@ + it.seq().take(it.index()),
    {
        out.push(c);
    }
}

/// Appends the characters of `more` to `out`.
pub fn push_all(out: &mut Vec<char>, more: &Vec<char>)
    ensures
        final(out)@ == old(out)@ + more@,
{
    let mut k: usize = 0;
    while k < more.len()
        invariant
            k <= more@.len(),
            out@ == old(out)@ + more@.take(k as int),
        decreases more@.len() - k,
    {
        out.push(more[k]);
        k = k + 1;
    }
}

/// Whether `a` and `b` hold the same characters in the same order.
pub fn same_text(a: &Vec<char>, b: &Vec<char>) -> (out: bool)
    ensures
        out == (a@ == b@),
{
    if a.len() != b.len() {
        return false;
    }
    let mut k: usize = 0;
    while k < a.len()
        invariant
            k <= a@.len(),
            a@.len() == b@.len(),
            forall|j: int| 0 <= j < k ==> a@[j] == b@[j],
        decreases a@.len() - k,
    {
        if a[k] != b[k] {
            return false;
        }
        k = k + 1;
    }
    assert(a@ =~= b@);
    true
}

/// Calls `String::from_iter` on the characters of `chars`.
///
/// Taken on trust, not proved: the string that comes back holds exactly
/// these characters, in this order.
#[verifier::external_body]
pub(crate) fn string_of(chars: &Vec<char>) -> (out: String)
    ensures
        out@ == chars@,
{
    String::from_iter(chars)
}

/// The upper-case form of a text as `str::to_uppercase` gives it. It follows
/// the Unicode case mappings, under which one character may become several,
/// and nothing is stated of it here but that it depends on the text alone.
pub uninterp spec fn uppercased(s: Seq<char>) -> Seq<char>;

/// Calls `str::to_uppercase` on `s`.
///
/// Taken on trust, not proved: what comes back depends on the characters of
/// `s` and on nothing else, so that it can be called `uppercased(s@)`.
#[verifier::external_body]
pub(crate) fn uppercase(s: &str) -> (out: String)
    ensures
        out@ == uppercased(s@),
{
    s.to_uppercase()
}

} // verus!
