//! Text primitives shared by the renderers: character access, trimming,
//! column padding, and exact decimal formatting of integer quantities.
//!
//! Every function is specified over `Seq<char>`, the view of `str` and
//! `String`, so widths and cut-off points count characters, never bytes.

use vstd::prelude::*;
use vstd::string::*;

verus! {

/// `String::push`: the character is appended at the end and nothing else changes.
#[verifier::external_body]
pub(crate) fn push_char(s: &mut String, c: char)
    ensures
        final(s)@ == old(s)@.push(c),
{
    s.push(c)
}

/// `==` on `str` (`PartialEq::eq`): two slices are equal exactly when they
/// hold the same characters.
pub assume_specification[ <str as PartialEq>::eq ](a: &str, b: &str) -> (r: bool)
    ensures
        r == (a@ == b@),
;

/// The characters that carry the Unicode `White_Space` property.
pub open spec fn is_whitespace(c: char) -> bool {
    let n = c as u32;
    ||| 0x09 <= n <= 0x0D
    ||| n == 0x20
    ||| n == 0x85
    ||| n == 0xA0
    ||| n == 0x1680
    ||| 0x2000 <= n <= 0x200A
    ||| n == 0x2028
    ||| n == 0x2029
    ||| n == 0x202F
    ||| n == 0x205F
    ||| n == 0x3000
}

/// A line is blank when it holds nothing but whitespace.
pub open spec fn is_blank(s: Seq<char>) -> bool {
    forall|i: int| 0 <= i < s.len() ==> is_whitespace(#[trigger] s[i])
}

/// Number of whitespace characters at the front of `s`.
pub open spec fn leading_whitespace(s: Seq<char>) -> nat
    decreases s.len(),
{
    if s.len() > 0 && is_whitespace(s[0]) {
        1 + leading_whitespace(s.skip(1))
    } else {
        0
    }
}

/// `s` without its leading whitespace.
pub open spec fn trim_start(s: Seq<char>) -> Seq<char> {
    s.skip(leading_whitespace(s) as int)
}

/// `n` copies of the space character.
pub open spec fn spaces(n: nat) -> Seq<char> {
    Seq::new(n, |i: int| ' ')
}

/// `n` copies of the digit zero.
pub open spec fn zeros(n: nat) -> Seq<char> {
    Seq::new(n, |i: int| '0')
}

/// `s` right-aligned in a column of `width` characters; longer text is kept whole.
pub open spec fn pad_start(s: Seq<char>, width: nat) -> Seq<char> {
    if s.len() >= width {
        s
    } else {
        spaces((width - s.len()) as nat) + s
    }
}

/// `s` left-aligned in a column of `width` characters; longer text is kept whole.
pub open spec fn pad_end(s: Seq<char>, width: nat) -> Seq<char> {
    if s.len() >= width {
        s
    } else {
        s + spaces((width - s.len()) as nat)
    }
}

/// The first `n` characters of `s`, or all of `s` when it is shorter.
pub open spec fn prefix(s: Seq<char>, n: nat) -> Seq<char> {
    if s.len() <= n {
        s
    } else {
        s.take(n as int)
    }
}

/// The decimal digit for `d < 10`.
pub open spec fn digit(d: nat) -> char {
    if d == 0 {
        '0'
    } else if d == 1 {
        '1'
    } else if d == 2 {
        '2'
    } else if d == 3 {
        '3'
    } else if d == 4 {
        '4'
    } else if d == 5 {
        '5'
    } else if d == 6 {
        '6'
    } else if d == 7 {
        '7'
    } else if d == 8 {
        '8'
    } else {
        '9'
    }
}

/// Decimal notation of `n`, most significant digit first, without leading zeros.
pub open spec fn decimal(n: nat) -> Seq<char>
    decreases n,
{
    if n < 10 {
        seq![digit(n)]
    } else {
        decimal(n / 10).push(digit(n % 10))
    }
}

/// `value / divisor` rounded to the nearest integer; a value exactly halfway
/// between two integers goes to the even one.
pub open spec fn round_half_even(value: nat, divisor: nat) -> nat
    recommends
        divisor > 0,
{
    let q = value / divisor;
    let r = value % divisor;
    if 2 * r > divisor || (2 * r == divisor && q % 2 == 1) {
        q + 1
    } else {
        q
    }
}

/// Fixed-point notation of `units / 10^places`: the digits of `units`, filled
/// with zeros on the left to at least `places + 1` digits, with a point before
/// the last `places` of them.
pub open spec fn fixed_point(units: nat, places: nat) -> Seq<char> {
    let d = decimal(units);
    let full = if d.len() > places {
        d
    } else {
        zeros((places + 1 - d.len()) as nat) + d
    };
    full.take(full.len() - places) + seq!['.'] + full.skip(full.len() - places)
}

/// Whether `pattern` stands in `s` at position `i`.
pub open spec fn occurs_at(s: Seq<char>, pattern: Seq<char>, i: int) -> bool {
    0 <= i && i + pattern.len() <= s.len() && s.subrange(i, i + pattern.len()) == pattern
}

/// Position of the first occurrence of `pattern` in `s`.
pub open spec fn first_occurrence(s: Seq<char>, pattern: Seq<char>) -> Option<int> {
    if exists|i: int| occurs_at(s, pattern, i) {
        Some(
            choose|i: int|
                occurs_at(s, pattern, i) && forall|j: int| j < i ==> !occurs_at(s, pattern, j),
        )
    } else {
        None
    }
}

/// Whether two strings hold the same characters.
pub fn same_text(a: &str, b: &str) -> (r: bool)
    ensures
        r == (a@ == b@),
{
    *a == *b
}

/// Whether `c` is a whitespace character.
pub fn char_is_whitespace(c: char) -> (b: bool)
    ensures
        b == is_whitespace(c),
{
    let n: u32 = c as u32;
    (0x09 <= n && n <= 0x0D) || n == 0x20 || n == 0x85 || n == 0xA0 || n == 0x1680 || (0x2000 <= n
        && n <= 0x200A) || n == 0x2028 || n == 0x2029 || n == 0x202F || n == 0x205F || n == 0x3000
}

/// The characters of `s`, in order.
pub fn chars_of(s: &str) -> (out: Vec<char>)
    ensures
        out@ == s@,
{
    let mut out: Vec<char> = Vec::new();
    for c in it: s.chars()
        invariant
            out@ == it.seq().take(it.index() as int),
    {
        out.push(c);
    }
    out
}

/// The string made of `chars[from..to]`.
pub fn string_of(chars: &Vec<char>, from: usize, to: usize) -> (out: String)
    requires
        from <= to <= chars.len(),
    ensures
        out@ == chars@.subrange(from as int, to as int),
{
    let mut out = String::new();
    let mut i: usize = from;
    while i < to
        invariant
            from <= i <= to <= chars.len(),
            out@ == chars@.subrange(from as int, i as int),
        decreases to - i,
    {
        push_char(&mut out, chars[i]);
        i += 1;
    }
    out
}

/// Appends `count` copies of `c` to `out`.
pub(crate) fn push_repeated(out: &mut String, c: char, count: usize)
    ensures
        final(out)@ == old(out)@ + Seq::new(count as nat, |i: int| c),
{
    let mut i: usize = 0;
    while i < count
        invariant
            i <= count,
            out@ == old(out)@ + Seq::new(i as nat, |j: int| c),
        decreases count - i,
    {
        push_char(out, c);
        i += 1;
    }
}

/// Whether `chars[from..to]` holds only whitespace.
pub fn all_whitespace(chars: &Vec<char>, from: usize, to: usize) -> (b: bool)
    requires
        from <= to <= chars.len(),
    ensures
        b == is_blank(chars@.subrange(from as int, to as int)),
{
    let ghost part = chars@.subrange(from as int, to as int);
    let mut i: usize = from;
    while i < to
        invariant
            from <= i <= to <= chars.len(),
            part == chars@.subrange(from as int, to as int),
            forall|j: int| 0 <= j < i - from ==> is_whitespace(#[trigger] part[j]),
        decreases to - i,
    {
        if !char_is_whitespace(chars[i]) {
            assert(part[i - from] == chars@[i as int]);
            return false;
        }
        assert(part[i - from] == chars@[i as int]);
        i += 1;
    }
    true
}

/// Length of the whitespace run that starts at `from`.
pub fn skip_whitespace(chars: &Vec<char>, from: usize) -> (count: usize)
    requires
        from <= chars.len(),
    ensures
        count == leading_whitespace(chars@.skip(from as int)),
        from + count <= chars.len(),
    decreases chars.len() - from,
{
    if from < chars.len() && char_is_whitespace(chars[from]) {
        assert(chars@.skip(from as int).skip(1) == chars@.skip(from + 1));
        1 + skip_whitespace(chars, from + 1)
    } else {
        0
    }
}

/// Finds the first occurrence of `pattern` in `chars`.
pub fn find(chars: &Vec<char>, pattern: &Vec<char>) -> (found: Option<usize>)
    ensures
        match found {
            Some(i) => {
                &&& first_occurrence(chars@, pattern@) == Some(i as int)
                &&& occurs_at(chars@, pattern@, i as int)
                &&& forall|j: int| j < i ==> !occurs_at(chars@, pattern@, j)
            },
            None => {
                &&& first_occurrence(chars@, pattern@) is None
                &&& forall|j: int| !occurs_at(chars@, pattern@, j)
            },
        },
{
    let n = chars.len();
    let m = pattern.len();
    if m > n {
        return None;
    }
    let mut i: usize = 0;
    while i <= n - m
        invariant
            n == chars.len(),
            m == pattern.len(),
            m <= n,
            forall|j: int| j < i ==> !occurs_at(chars@, pattern@, j),
        decreases n - m + 1 - i,
    {
        let mut k: usize = 0;
        while k < m && chars[i + k] == pattern[k]
            invariant
                n == chars.len(),
                m == pattern.len(),
                i + m <= n,
                k <= m,
                forall|t: int| 0 <= t < k ==> chars@[i + t] == pattern@[t],
            decreases m - k,
        {
            k += 1;
        }
        if k == m {
            proof {
                assert(chars@.subrange(i as int, i + m) =~= pattern@);
                lemma_first_occurrence(chars@, pattern@, i as int);
            }
            return Some(i);
        }
        proof {
            assert(chars@.subrange(i as int, i + m)[k as int] == chars@[i + k]);
        }
        i += 1;
    }
    None
}

/// An occurrence with none before it is the first one.
pub proof fn lemma_first_occurrence(s: Seq<char>, pattern: Seq<char>, i: int)
    requires
        occurs_at(s, pattern, i),
        forall|j: int| j < i ==> !occurs_at(s, pattern, j),
    ensures
        first_occurrence(s, pattern) == Some(i),
{
    let c = choose|c: int|
        occurs_at(s, pattern, c) && forall|j: int| j < c ==> !occurs_at(s, pattern, j);
    if c < i {
        assert(!occurs_at(s, pattern, c));
    } else if i < c {
        assert(!occurs_at(s, pattern, i));
    }
}

/// The first `n` characters of `s` as an owned string.
pub fn first_chars(s: &str, n: usize) -> (out: String)
    ensures
        out@ == prefix(s@, n as nat),
{
    let len = s.unicode_len();
    if len <= n {
        s.to_owned()
    } else {
        s.substring_char(0, n).to_owned()
    }
}

/// `s` right-aligned in `width` columns.
pub fn pad_left(s: &str, width: usize) -> (out: String)
    ensures
        out@ == pad_start(s@, width as nat),
{
    let len = s.unicode_len();
    let mut out = String::new();
    if len < width {
        push_repeated(&mut out, ' ', width - len);
    }
    out.append(s);
    out
}

/// `s` left-aligned in `width` columns.
pub fn pad_right(s: &str, width: usize) -> (out: String)
    ensures
        out@ == pad_end(s@, width as nat),
{
    let len = s.unicode_len();
    let mut out = s.to_owned();
    if len < width {
        push_repeated(&mut out, ' ', width - len);
    }
    out
}

fn digit_char(d: u8) -> (c: char)
    requires
        d < 10,
    ensures
        c == digit(d as nat),
{
    if d == 0 {
        '0'
    } else if d == 1 {
        '1'
    } else if d == 2 {
        '2'
    } else if d == 3 {
        '3'
    } else if d == 4 {
        '4'
    } else if d == 5 {
        '5'
    } else if d == 6 {
        '6'
    } else if d == 7 {
        '7'
    } else if d == 8 {
        '8'
    } else {
        '9'
    }
}

/// The decimal digits of `n`, most significant first.
pub fn decimal_chars(n: u128) -> (out: Vec<char>)
    ensures
        out@ == decimal(n as nat),
{
    let mut low: Vec<char> = Vec::new();
    let mut rest: u128 = n;
    let ghost mut tail: Seq<char> = Seq::empty();
    while rest >= 10
        invariant
            decimal(n as nat) == decimal(rest as nat) + tail,
            low@.len() == tail.len(),
            forall|j: int| 0 <= j < tail.len() ==> low@[j] == #[trigger] tail[tail.len() - 1 - j],
        decreases rest,
    {
        let d = digit_char((rest % 10) as u8);
        proof {
            let next = seq![d] + tail;
            assert(decimal(rest as nat) == decimal((rest / 10) as nat).push(d));
            assert(decimal((rest / 10) as nat).push(d) + tail == decimal((rest / 10) as nat)
                + next);
            assert forall|j: int| 0 <= j < next.len() implies low@.push(d)[j] == #[trigger] next[next.len()
                - 1 - j] by {
                if j < tail.len() {
                    assert(next[next.len() - 1 - j] == tail[tail.len() - 1 - j]);
                }
            }
            tail = next;
        }
        low.push(d);
        rest = rest / 10;
    }
    let mut out: Vec<char> = Vec::new();
    out.push(digit_char(rest as u8));
    let mut k: usize = low.len();
    while k > 0
        invariant
            k <= low.len(),
            low@.len() == tail.len(),
            forall|j: int| 0 <= j < tail.len() ==> low@[j] == #[trigger] tail[tail.len() - 1 - j],
            out@ == decimal(rest as nat) + tail.take(tail.len() - k),
            rest < 10,
        decreases k,
    {
        k -= 1;
        out.push(low[k]);
        proof {
            let t = tail.len() - 1 - k;
            assert(low@[k as int] == tail[tail.len() - 1 - k]);
            assert(tail.take(t + 1) == tail.take(t).push(tail[t]));
        }
    }
    assert(tail.take(tail.len() as int) == tail);
    out
}

/// Decimal notation of `n`.
pub fn decimal_string(n: u128) -> (out: String)
    ensures
        out@ == decimal(n as nat),
{
    let digits = decimal_chars(n);
    let out = string_of(&digits, 0, digits.len());
    assert(digits@.subrange(0, digits@.len() as int) == digits@);
    out
}

/// `value / divisor`, rounded half to even.
pub fn rounded_quotient(value: u128, divisor: u128) -> (q: u128)
    requires
        divisor > 0,
    ensures
        q == round_half_even(value as nat, divisor as nat),
{
    let q = value / divisor;
    let r = value % divisor;
    // `r > divisor - r` is `2r > divisor` without the doubling that could overflow.
    let up = r > divisor - r || (r == divisor - r && q % 2 == 1);
    if up {
        assert(q < u128::MAX) by (nonlinear_arith)
            requires
                q == value / divisor,
                r == value % divisor,
                r > 0,
                value <= u128::MAX,
                divisor > 0,
        {
            assert(value == divisor * (value / divisor) + value % divisor);
            if divisor == 1 {
                assert(value % divisor == 0);
            } else {
                assert(divisor * (value / divisor) >= 2 * (value / divisor));
            }
        }
        q + 1
    } else {
        q
    }
}

/// Fixed-point notation of `units / 10^places`.
pub fn fixed_point_string(units: u128, places: usize) -> (out: String)
    requires
        places < usize::MAX,
    ensures
        out@ == fixed_point(units as nat, places as nat),
{
    let digits = decimal_chars(units);
    let mut out = String::new();
    let ghost full: Seq<char>;
    if digits.len() > places {
        let cut = digits.len() - places;
        let whole = string_of(&digits, 0, cut);
        let frac = string_of(&digits, cut, digits.len());
        out.append(whole.as_str());
        push_char(&mut out, '.');
        out.append(frac.as_str());
        proof {
            assert(digits@.skip(cut as int) == digits@.subrange(cut as int, digits@.len() as int));
        }
    } else {
        let fill = places + 1 - digits.len();
        proof {
            full = zeros(fill as nat) + digits@;
            assert(full.take(full.len() - places) == seq!['0']);
            assert(full.skip(full.len() - places) == zeros((fill - 1) as nat) + digits@);
        }
        push_char(&mut out, '0');
        push_char(&mut out, '.');
        push_repeated(&mut out, '0', fill - 1);
        let frac = string_of(&digits, 0, digits.len());
        out.append(frac.as_str());
        proof {
            assert(digits@.subrange(0, digits@.len() as int) == digits@);
        }
    }
    out
}

} // verus!
