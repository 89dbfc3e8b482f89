//! Text helpers over strings viewed as sequences of `char`.

use vstd::prelude::*;

verus! {

broadcast use vstd::string::group_string_axioms;

/// `String::push`: appends one character at the end of the string.
#[verifier::external_body]
fn push_char(s: &mut String, c: char)
    ensures
        final(s)@ == old(s)@.push(c),
{
    s.push(c);
}

/// The characters of `s`, in order.
pub fn chars_of(s: &str) -> (out: Vec<char>)
    ensures
        out@ == s@,
{
    let mut out: Vec<char> = Vec::new();
    for c in it: s.chars()
        invariant
            out@ == it.seq().take(it.index()),
    {
        out.push(c);
    }
    out
}

/// A string holding the characters `v[lo..hi]`.
pub fn string_of_range(v: &Vec<char>, lo: usize, hi: usize) -> (out: String)
    requires
        lo <= hi <= v.len(),
    ensures
        out@ == v@.subrange(lo as int, hi as int),
{
    let mut out = String::new();
    let mut i = lo;
    while i < hi
        invariant
            lo <= i <= hi <= v.len(),
            out@ == v@.subrange(lo as int, i as int),
        decreases hi - i,
    {
        push_char(&mut out, v[i]);
        assert(v@.subrange(lo as int, i + 1) == v@.subrange(lo as int, i as int).push(v@[i as int]));
        i = i + 1;
    }
    out
}

/// Appends `t` to `s`.
pub fn push_text(s: &mut String, t: &str)
    ensures
        final(s)@ == old(s)@ + t@,
{
    s.append(t);
}

/// Unicode `White_Space`: the characters that `str::trim` removes.
pub open spec fn is_white_space(c: char) -> bool {
    ||| '\u{9}' <= c <= '\u{d}'
    ||| c == ' '
    ||| c == '\u{85}'
    ||| c == '\u{a0}'
    ||| c == '\u{1680}'
    ||| '\u{2000}' <= c <= '\u{200a}'
    ||| c == '\u{2028}'
    ||| c == '\u{2029}'
    ||| c == '\u{202f}'
    ||| c == '\u{205f}'
    ||| c == '\u{3000}'
}

/// Whether `c` has the Unicode `White_Space` property.
pub fn is_whitespace(c: char) -> (b: bool)
    ensures
        b == is_white_space(c),
{
    ('\u{9}' <= c && c <= '\u{d}') || c == ' ' || c == '\u{85}' || c == '\u{a0}' || c == '\u{1680}'
        || ('\u{2000}' <= c && c <= '\u{200a}') || c == '\u{2028}' || c == '\u{2029}' || c
        == '\u{202f}' || c == '\u{205f}' || c == '\u{3000}'
}

/// `s` without its leading white space.
pub open spec fn trim_start(s: Seq<char>) -> Seq<char>
    decreases s.len(),
{
    if s.len() > 0 && is_white_space(s[0]) {
        trim_start(s.drop_first())
    } else {
        s
    }
}

/// `s` without its trailing white space.
pub open spec fn trim_end(s: Seq<char>) -> Seq<char>
    decreases s.len(),
{
    if s.len() > 0 && is_white_space(s.last()) {
        trim_end(s.drop_last())
    } else {
        s
    }
}

/// `s` without leading and trailing white space, as `str::trim` gives it.
pub open spec fn trimmed(s: Seq<char>) -> Seq<char> {
    trim_end(trim_start(s))
}

proof fn lemma_trim_start_shape(s: Seq<char>)
    ensures
        trim_start(s).len() == 0 || !is_white_space(trim_start(s)[0]),
    decreases s.len(),
{
    if s.len() > 0 && is_white_space(s[0]) {
        lemma_trim_start_shape(s.drop_first());
    }
}

proof fn lemma_trim_end_shape(s: Seq<char>)
    ensures
        trim_end(s).len() == 0 || !is_white_space(trim_end(s).last()),
        trim_end(s).len() <= s.len(),
        trim_end(s) == s.take(trim_end(s).len() as int),
    decreases s.len(),
{
    if s.len() > 0 && is_white_space(s.last()) {
        lemma_trim_end_shape(s.drop_last());
        let r = trim_end(s.drop_last());
        assert(s.drop_last().take(r.len() as int) == s.take(r.len() as int));
    } else {
        assert(s.take(s.len() as int) == s);
    }
}

/// Trimming twice is trimming once.
pub proof fn lemma_trimmed_idempotent(s: Seq<char>)
    ensures
        trimmed(trimmed(s)) == trimmed(s),
{
    let t = trim_start(s);
    let u = trim_end(t);
    lemma_trim_start_shape(s);
    lemma_trim_end_shape(t);
    if u.len() > 0 {
        assert(u[0] == t[0]);
    }
    assert(trim_start(u) == u);
    assert(trim_end(u) == u);
}

/// `s` with its leading and trailing white space removed.
pub fn trim(s: &str) -> (out: String)
    ensures
        out@ == trimmed(s@),
{
    let v = chars_of(s);
    let n = v.len();
    let mut lo: usize = 0;
    assert(v@.skip(0) == v@);
    while lo < n && is_whitespace(v[lo])
        invariant
            lo <= n == v@.len(),
            trim_start(v@) == trim_start(v@.skip(lo as int)),
        decreases n - lo,
    {
        assert(v@.skip(lo as int).drop_first() == v@.skip(lo + 1));
        lo = lo + 1;
    }
    assert(trim_start(v@) == v@.subrange(lo as int, n as int)) by {
        assert(v@.skip(lo as int) == v@.subrange(lo as int, n as int));
    }
    let mut hi: usize = n;
    while hi > lo && is_whitespace(v[hi - 1])
        invariant
            lo <= hi <= n == v@.len(),
            trim_end(v@.subrange(lo as int, n as int)) == trim_end(v@.subrange(lo as int, hi as int)),
        decreases hi - lo,
    {
        assert(v@.subrange(lo as int, hi as int).drop_last() == v@.subrange(lo as int, hi - 1));
        hi = hi - 1;
    }
    string_of_range(&v, lo, hi)
}

/// Whether `c` is an ASCII decimal digit.
pub open spec fn is_digit(c: char) -> bool {
    '0' <= c <= '9'
}

/// The value of the digit `c`.
pub open spec fn digit_value(c: char) -> int {
    c as int - '0' as int
}

/// The value of a string of decimal digits, most significant first.
pub open spec fn digits_value(s: Seq<char>) -> int
    decreases s.len(),
{
    if s.len() == 0 {
        0
    } else {
        digits_value(s.drop_last()) * 10 + digit_value(s.last())
    }
}

/// Whether every character of `s` is a decimal digit.
pub open spec fn all_digits(s: Seq<char>) -> bool {
    forall|i: int| 0 <= i < s.len() ==> is_digit(#[trigger] s[i])
}

/// The integer that `s` writes: an optional `+` or `-`, then one or more
/// decimal digits and nothing else.
pub open spec fn int_of_text(s: Seq<char>) -> Option<int> {
    let negative = s.len() > 0 && s[0] == '-';
    let signed = s.len() > 0 && (s[0] == '-' || s[0] == '+');
    let body = if signed { s.drop_first() } else { s };
    if body.len() > 0 && all_digits(body) {
        Some(if negative { -digits_value(body) } else { digits_value(body) })
    } else {
        None
    }
}

/// What `s.parse::<i64>()` gives: the integer that `s` writes, where it fits in an `i64`.
pub open spec fn i64_of_text(s: Seq<char>) -> Option<i64> {
    match int_of_text(s) {
        Some(v) => if i64::MIN <= v <= i64::MAX {
            Some(v as i64)
        } else {
            None
        },
        None => None,
    }
}

proof fn lemma_digits_value_nonneg(s: Seq<char>)
    requires
        all_digits(s),
    ensures
        digits_value(s) >= 0,
    decreases s.len(),
{
    if s.len() > 0 {
        assert(all_digits(s.drop_last())) by {
            assert forall|i: int| 0 <= i < s.drop_last().len() implies is_digit(
                #[trigger] s.drop_last()[i],
            ) by {
                assert(s.drop_last()[i] == s[i]);
            }
        }
        lemma_digits_value_nonneg(s.drop_last());
        assert(is_digit(s[s.len() - 1]));
    }
}

proof fn lemma_digits_value_prefix(s: Seq<char>, k: int)
    requires
        all_digits(s),
        0 <= k <= s.len(),
    ensures
        digits_value(s.take(k)) <= digits_value(s),
    decreases s.len(),
{
    if k < s.len() {
        let d = s.drop_last();
        assert(all_digits(d)) by {
            assert forall|i: int| 0 <= i < d.len() implies is_digit(#[trigger] d[i]) by {
                assert(d[i] == s[i]);
            }
        }
        lemma_digits_value_prefix(d, k);
        assert(d.take(k) == s.take(k));
        lemma_digits_value_nonneg(d);
        assert(is_digit(s[s.len() - 1]));
    } else {
        assert(s.take(k) == s);
    }
}

/// `s.parse::<i64>()`: the integer that `s` writes, or `None` where `s` writes no
/// integer or one that does not fit in an `i64`.
pub fn parse_i64(s: &str) -> (r: Option<i64>)
    ensures
        r == i64_of_text(s@),
{
    let v = chars_of(s);
    let n = v.len();
    let mut negative = false;
    let mut start: usize = 0;
    if n > 0 && v[0] == '-' {
        negative = true;
        start = 1;
    } else if n > 0 && v[0] == '+' {
        start = 1;
    }
    let ghost body = v@.subrange(start as int, n as int);
    assert(body == if start == 1 { v@.drop_first() } else { v@ });
    if start >= n {
        assert(body.len() == 0);
        return None;
    }
    let limit: u64 = if negative { 9223372036854775808 } else { 9223372036854775807 };
    let mut mag: u64 = 0;
    let mut overflow = false;
    let mut i: usize = start;
    while i < n
        invariant
            start <= i <= n == v@.len(),
            v@ == s@,
            body == v@.subrange(start as int, n as int),
            body == (if start == 1 { v@.drop_first() } else { v@ }),
            (start == 1) == (v@.len() > 0 && (v@[0] == '-' || v@[0] == '+')),
            negative == (v@.len() > 0 && v@[0] == '-'),
            limit == (if negative { 9223372036854775808u64 } else { 9223372036854775807u64 }),
            all_digits(body.take(i - start)),
            !overflow ==> mag == digits_value(body.take(i - start)),
            !overflow ==> mag <= limit,
            overflow ==> digits_value(body.take(i - start)) > limit,
        decreases n - i,
    {
        let c = v[i];
        if !('0' <= c && c <= '9') {
            assert(body[i - start] == c);
            assert(!all_digits(body));
            return None;
        }
        let d = (c as u32 - '0' as u32) as u64;
        let ghost prev = body.take(i - start);
        let ghost next = body.take(i - start + 1);
        assert(next.drop_last() == prev);
        assert(next.last() == c);
        assert(digits_value(next) == digits_value(prev) * 10 + d);
        if !overflow {
            if mag > (limit - d) / 10 {
                overflow = true;
            } else {
                mag = mag * 10 + d;
            }
        }
        assert(all_digits(next)) by {
            assert forall|j: int| 0 <= j < next.len() implies is_digit(#[trigger] next[j]) by {
                if j < prev.len() {
                    assert(next[j] == prev[j]);
                }
            }
        }
        i = i + 1;
    }
    assert(body.take(n - start) == body);
    if overflow {
        return None;
    }
    if negative {
        if mag == 9223372036854775808 {
            Some(i64::MIN)
        } else {
            Some(-(mag as i64))
        }
    } else {
        Some(mag as i64)
    }
}

/// The character of the decimal digit `d`.
pub open spec fn digit_char(d: int) -> char {
    if d == 0 {
        '0'
    } else if d == 1 {
        '1'
    } else if d == 2 {
        '2'
    } else if d == 3 {
        '3'
    } else if d == 4 {
        '4'
    } else if d == 5 {
        '5'
    } else if d == 6 {
        '6'
    } else if d == 7 {
        '7'
    } else if d == 8 {
        '8'
    } else {
        '9'
    }
}

fn digit_char_of(d: u64) -> (c: char)
    requires
        d < 10,
    ensures
        c == digit_char(d as int),
{
    match d {
        0 => '0',
        1 => '1',
        2 => '2',
        3 => '3',
        4 => '4',
        5 => '5',
        6 => '6',
        7 => '7',
        8 => '8',
        _ => '9',
    }
}

/// The decimal digits of `m`, most significant first, with no leading zero.
pub open spec fn nat_text(m: nat) -> Seq<char>
    decreases m,
{
    if m < 10 {
        seq![digit_char(m as int)]
    } else {
        nat_text(m / 10).push(digit_char((m % 10) as int))
    }
}

/// The decimal text of `n`, as `n.to_string()` writes it.
pub open spec fn int_text(n: int) -> Seq<char> {
    if n < 0 {
        seq!['-'] + nat_text((-n) as nat)
    } else {
        nat_text(n as nat)
    }
}

/// `n.to_string()`: the decimal text of `n`.
pub fn i64_to_text(n: i64) -> (out: String)
    ensures
        out@ == int_text(n as int),
{
    let mut m: u64 = if n < 0 {
        ((-(n + 1)) as u64) + 1
    } else {
        n as u64
    };
    let ghost mag: nat = m as nat;
    assert(mag == if n < 0 { -(n as int) } else { n as int });
    let mut suffix: Vec<char> = Vec::new();
    while m >= 10
        invariant
            nat_text(mag) == nat_text(m as nat) + suffix@,
        decreases m,
    {
        let c = digit_char_of(m % 10);
        let ghost old_suffix = suffix@;
        suffix.insert(0, c);
        assert(nat_text(m as nat) == nat_text((m / 10) as nat).push(c));
        assert(nat_text((m / 10) as nat) + suffix@ == nat_text((m / 10) as nat).push(c)
            + old_suffix);
        m = m / 10;
    }
    let mut out = String::new();
    if n < 0 {
        push_char(&mut out, '-');
    }
    push_char(&mut out, digit_char_of(m));
    let mut i: usize = 0;
    let ghost head = out@;
    while i < suffix.len()
        invariant
            i <= suffix@.len(),
            out@ == head + suffix@.take(i as int),
        decreases suffix.len() - i,
    {
        push_char(&mut out, suffix[i]);
        assert(suffix@.take(i + 1) == suffix@.take(i as int).push(suffix@[i as int]));
        i = i + 1;
    }
    assert(suffix@.take(suffix.len() as int) == suffix@);
    assert(nat_text(m as nat) == seq![digit_char(m as int)]);
    out
}

proof fn lemma_digit_char(d: int)
    requires
        0 <= d < 10,
    ensures
        is_digit(digit_char(d)),
        digit_value(digit_char(d)) == d,
{
    assert('0' as int == 48);
    assert('9' as int == 57);
    if d == 0 {
    } else if d == 1 {
        assert('1' as int == 49);
    } else if d == 2 {
        assert('2' as int == 50);
    } else if d == 3 {
        assert('3' as int == 51);
    } else if d == 4 {
        assert('4' as int == 52);
    } else if d == 5 {
        assert('5' as int == 53);
    } else if d == 6 {
        assert('6' as int == 54);
    } else if d == 7 {
        assert('7' as int == 55);
    } else if d == 8 {
        assert('8' as int == 56);
    }
}

proof fn lemma_nat_text(m: nat)
    ensures
        nat_text(m).len() > 0,
        all_digits(nat_text(m)),
        digits_value(nat_text(m)) == m,
    decreases m,
{
    if m < 10 {
        lemma_digit_char(m as int);
        assert(nat_text(m).drop_last() =~= Seq::<char>::empty());
        assert(digits_value(Seq::<char>::empty()) == 0);
    } else {
        lemma_digit_char((m % 10) as int);
        lemma_nat_text(m / 10);
        let t = nat_text(m);
        assert(t.drop_last() == nat_text(m / 10));
        assert forall|j: int| 0 <= j < t.len() implies is_digit(#[trigger] t[j]) by {
            if j < t.len() - 1 {
                assert(t[j] == nat_text(m / 10)[j]);
            }
        }
    }
}

/// `10` to the power `k`.
pub open spec fn pow10(k: nat) -> nat
    decreases k,
{
    if k == 0 {
        1
    } else {
        10 * pow10((k - 1) as nat)
    }
}

proof fn lemma_nat_text_len(m: nat, k: nat)
    requires
        k >= 1,
        m < pow10(k),
    ensures
        nat_text(m).len() <= k,
    decreases k,
{
    if m >= 10 {
        assert(k >= 2) by {
            if k == 1 {
                assert(pow10(1) == 10 * pow10(0));
            }
        }
        assert(m / 10 < pow10((k - 1) as nat));
        lemma_nat_text_len(m / 10, (k - 1) as nat);
    }
}

/// The decimal text of an `i64` has at most twenty characters.
pub proof fn lemma_int_text_short(n: int)
    requires
        i64::MIN <= n <= i64::MAX,
    ensures
        int_text(n).len() <= 20,
{
    reveal_with_fuel(pow10, 20);
    assert(pow10(19) == 10000000000000000000nat);
    if n < 0 {
        lemma_nat_text_len((-n) as nat, 19);
    } else {
        lemma_nat_text_len(n as nat, 19);
    }
}

/// Reading back the decimal text of an `i64` gives the same integer.
pub proof fn lemma_parse_of_text(n: i64)
    ensures
        i64_of_text(int_text(n as int)) == Some(n),
{
    if n < 0 {
        let t = int_text(n as int);
        lemma_nat_text((-n) as nat);
        assert(t.drop_first() == nat_text((-n) as nat));
    } else {
        lemma_nat_text(n as nat);
        let t = nat_text(n as nat);
        assert(is_digit(t[0]));
    }
}

/// A string holding the characters of `s`.
pub fn text_of(s: &str) -> (out: String)
    ensures
        out@ == s@,
{
    let mut out = String::new();
    push_text(&mut out, s);
    out
}

/// Whether `a` and `b` hold the same characters.
pub fn text_eq(a: &str, b: &str) -> (eq: bool)
    ensures
        eq == (a@ == b@),
{
    let va = chars_of(a);
    let vb = chars_of(b);
    if va.len() != vb.len() {
        return false;
    }
    let mut i: usize = 0;
    while i < va.len()
        invariant
            i <= va@.len() == vb@.len(),
            va@ == a@,
            vb@ == b@,
            forall|j: int| 0 <= j < i ==> va@[j] == vb@[j],
        decreases va.len() - i,
    {
        if va[i] != vb[i] {
            return false;
        }
        i = i + 1;
    }
    assert(va@ =~= vb@);
    true
}

/// The characters of `s` before its first space `' '`, or all of `s` where it has none.
pub open spec fn before_first_space(s: Seq<char>) -> Seq<char>
    decreases s.len(),
{
    if s.len() == 0 {
        s
    } else if s[0] == ' ' {
        Seq::empty()
    } else {
        seq![s[0]] + before_first_space(s.drop_first())
    }
}

/// The characters of `s` after its first space `' '`, or `None` where it has none.
pub open spec fn after_first_space(s: Seq<char>) -> Option<Seq<char>>
    decreases s.len(),
{
    if s.len() == 0 {
        None
    } else if s[0] == ' ' {
        Some(s.drop_first())
    } else {
        after_first_space(s.drop_first())
    }
}

proof fn lemma_first_space(s: Seq<char>, k: int)
    requires
        0 <= k <= s.len(),
        forall|j: int| 0 <= j < k ==> s[j] != ' ',
        k < s.len() ==> s[k] == ' ',
    ensures
        before_first_space(s) == s.take(k),
        after_first_space(s) == (if k < s.len() { Some(s.skip(k + 1)) } else { None }),
    decreases k,
{
    if k > 0 {
        let t = s.drop_first();
        lemma_first_space(t, k - 1);
        assert(seq![s[0]] + t.take(k - 1) == s.take(k));
        if k < s.len() {
            assert(t.skip(k) == s.skip(k + 1));
        }
    } else {
        assert(s.take(0) == Seq::<char>::empty());
        if s.len() > 0 {
            assert(s.skip(1) == s.drop_first());
        }
    }
}

/// A word without spaces, a space and the rest split into that word and that rest.
pub proof fn lemma_split_after_word(word: Seq<char>, rest: Seq<char>)
    requires
        forall|j: int| 0 <= j < word.len() ==> word[j] != ' ',
    ensures
        before_first_space(word + seq![' '] + rest) == word,
        after_first_space(word + seq![' '] + rest) == Some(rest),
{
    let s = word + seq![' '] + rest;
    lemma_first_space(s, word.len() as int);
    assert(s.take(word.len() as int) =~= word);
    assert(s.skip(word.len() + 1int) =~= rest);
}

/// `s.splitn(2, ' ')`: the part before the first space, and the part after it
/// where there is a space.
pub fn split_first_space(s: &str) -> (parts: (String, Option<String>))
    ensures
        parts.0@ == before_first_space(s@),
        parts.1 is Some == after_first_space(s@) is Some,
        parts.1 matches Some(rest) ==> after_first_space(s@) == Some(rest@),
{
    let v = chars_of(s);
    let n = v.len();
    let mut k: usize = 0;
    while k < n && v[k] != ' '
        invariant
            k <= n == v@.len(),
            forall|j: int| 0 <= j < k ==> v@[j] != ' ',
        decreases n - k,
    {
        k = k + 1;
    }
    proof {
        lemma_first_space(v@, k as int);
    }
    let head = string_of_range(&v, 0, k);
    assert(v@.subrange(0, k as int) == v@.take(k as int));
    if k < n {
        let rest = string_of_range(&v, k + 1, n);
        assert(v@.subrange(k + 1, n as int) == v@.skip(k + 1));
        (head, Some(rest))
    } else {
        (head, None)
    }
}

/// `n` spaces.
pub open spec fn spaces(n: nat) -> Seq<char> {
    Seq::new(n, |i: int| ' ')
}

/// `c` written `n` times.
pub open spec fn repeated(c: char, n: nat) -> Seq<char> {
    Seq::new(n, |i: int| c)
}

/// Appends `n` copies of `c` to `s`.
pub fn push_repeated(s: &mut String, c: char, n: usize)
    ensures
        final(s)@ == old(s)@ + repeated(c, n as nat),
{
    let ghost start = s@;
    let mut i: usize = 0;
    while i < n
        invariant
            i <= n,
            s@ == start + repeated(c, i as nat),
        decreases n - i,
    {
        push_char(s, c);
        assert(repeated(c, (i + 1) as nat) == repeated(c, i as nat).push(c));
        i = i + 1;
    }
}

/// `s` followed by spaces up to `width` characters, as `{:<width}` writes it.
pub open spec fn pad_right(s: Seq<char>, width: nat) -> Seq<char> {
    if s.len() < width {
        s + spaces((width - s.len()) as nat)
    } else {
        s
    }
}

/// `s` after spaces up to `width` characters, as `{:>width}` writes it.
pub open spec fn pad_left(s: Seq<char>, width: nat) -> Seq<char> {
    if s.len() < width {
        spaces((width - s.len()) as nat) + s
    } else {
        s
    }
}

/// Appends `t` to `s`, then spaces until `t` fills `width` characters.
pub fn push_padded_right(s: &mut String, t: &str, width: usize)
    ensures
        final(s)@ == old(s)@ + pad_right(t@, width as nat),
{
    let n = t.unicode_len();
    push_text(s, t);
    if n < width {
        push_repeated(s, ' ', width - n);
    }
}

/// Appends spaces to `s` until `t` would fill `width` characters, then `t`.
pub fn push_padded_left(s: &mut String, t: &str, width: usize)
    ensures
        final(s)@ == old(s)@ + pad_left(t@, width as nat),
{
    let n = t.unicode_len();
    if n < width {
        push_repeated(s, ' ', width - n);
    }
    push_text(s, t);
}

} // verus!
