//! Character-level helpers shared by the command protocol and the status
//! messages: decimal rendering of integers, trimming, splitting and the
//! decimal integer syntax that the protocol accepts.
use vstd::prelude::*;

verus! {

/// The ASCII character of a decimal digit `d` (0 ..= 9).
pub open spec fn digit_char(d: int) -> char {
    (d + 48) as char
}

/// Decimal digits of a natural number, most significant first, without
/// leading zeros (zero itself is "0").
pub open spec fn unsigned_decimal(n: nat) -> Seq<char>
    decreases n,
{
    if n < 10 {
        seq![digit_char(n as int)]
    } else {
        unsigned_decimal(n / 10).push(digit_char((n % 10) as int))
    }
}

/// Decimal rendering of an integer: a leading '-' for negative values,
/// then the digits of its magnitude.
pub open spec fn signed_decimal(n: int) -> Seq<char> {
    if n < 0 {
        seq!['-'] + unsigned_decimal((-n) as nat)
    } else {
        unsigned_decimal(n as nat)
    }
}

fn digit_str(d: u32) -> (res: &'static str)
    requires
        d < 10,
    ensures
        res@ == seq![digit_char(d as int)],
{
    proof {
        reveal_strlit("0");
        reveal_strlit("1");
        reveal_strlit("2");
        reveal_strlit("3");
        reveal_strlit("4");
        reveal_strlit("5");
        reveal_strlit("6");
        reveal_strlit("7");
        reveal_strlit("8");
        reveal_strlit("9");
    }
    if d == 0 {
        "0"
    } else if d == 1 {
        "1"
    } else if d == 2 {
        "2"
    } else if d == 3 {
        "3"
    } else if d == 4 {
        "4"
    } else if d == 5 {
        "5"
    } else if d == 6 {
        "6"
    } else if d == 7 {
        "7"
    } else if d == 8 {
        "8"
    } else {
        "9"
    }
}

/// Renders `n` in decimal.
pub fn unsigned_decimal_string(n: u32) -> (res: String)
    ensures
        res@ == unsigned_decimal(n as nat),
    decreases n,
{
    if n < 10 {
        String::from_str(digit_str(n))
    } else {
        let mut res = unsigned_decimal_string(n / 10);
        res.append(digit_str(n % 10));
        res
    }
}

/// Renders `n` in decimal, as `{}` formatting of an `i8` does.
pub fn i8_decimal_string(n: i8) -> (res: String)
    ensures
        res@ == signed_decimal(n as int),
{
    if n < 0 {
        let magnitude: u32 = (-(n as i32)) as u32;
        let mut res = String::from_str("-");
        proof {
            reveal_strlit("-");
        }
        let digits = unsigned_decimal_string(magnitude);
        res.append(digits.as_str());
        res
    } else {
        unsigned_decimal_string(n as u32)
    }
}


/// The characters of `s`, in order.
pub fn chars_of(s: &str) -> (res: Vec<char>)
    ensures
        res@ == s@,
{
    broadcast use vstd::string::group_string_axioms;

    let mut res: Vec<char> = Vec::new();
    for c in it: s.chars()
        invariant
            it.seq() == s@,
            res@ == s@.take(it.index()),
    {
        res.push(c);
        assert(res@ == s@.take(it.index() + 1));
    }
    assert(res@ == s@.take(s@.len() as int));
    res
}


/// `char::is_whitespace`: the characters with the Unicode `White_Space`
/// property.
pub open spec fn is_whitespace(c: char) -> bool {
    let u = c as u32;
    ||| 0x9 <= u <= 0xd
    ||| u == 0x20
    ||| u == 0x85
    ||| u == 0xa0
    ||| u == 0x1680
    ||| 0x2000 <= u <= 0x200a
    ||| u == 0x2028
    ||| u == 0x2029
    ||| u == 0x202f
    ||| u == 0x205f
    ||| u == 0x3000
}

/// `char::is_ascii_control`: U+0000 ..= U+001F and U+007F.
pub open spec fn is_ascii_control(c: char) -> bool {
    let u = c as u32;
    u <= 0x1f || u == 0x7f
}

/// Which characters a trim removes.
#[derive(Clone, Copy, PartialEq, Eq, Structural)]
pub enum Trim {
    /// Unicode whitespace, as `str::trim`.
    Whitespace,
    /// ASCII control characters and Unicode whitespace.
    ControlOrWhitespace,
}

pub open spec fn trims(class: Trim, c: char) -> bool {
    match class {
        Trim::Whitespace => is_whitespace(c),
        Trim::ControlOrWhitespace => is_ascii_control(c) || is_whitespace(c),
    }
}

pub open spec fn trim_start(s: Seq<char>, class: Trim) -> Seq<char>
    decreases s.len(),
{
    if s.len() > 0 && trims(class, s[0]) {
        trim_start(s.drop_first(), class)
    } else {
        s
    }
}

pub open spec fn trim_end(s: Seq<char>, class: Trim) -> Seq<char>
    decreases s.len(),
{
    if s.len() > 0 && trims(class, s.last()) {
        trim_end(s.drop_last(), class)
    } else {
        s
    }
}

/// `s` without the leading and trailing characters of `class`.
pub open spec fn trim(s: Seq<char>, class: Trim) -> Seq<char> {
    trim_end(trim_start(s, class), class)
}

/// `str::split_once`: the text before and after the first occurrence of
/// `pat`, or `None` when `pat` does not occur.
pub open spec fn split_once(s: Seq<char>, pat: Seq<char>) -> Option<(Seq<char>, Seq<char>)>
    decreases s.len(),
{
    if s.len() < pat.len() {
        None
    } else if s.take(pat.len() as int) == pat {
        Some((Seq::empty(), s.skip(pat.len() as int)))
    } else if s.len() == 0 {
        None
    } else {
        match split_once(s.drop_first(), pat) {
            Some(parts) => Some((seq![s[0]] + parts.0, parts.1)),
            None => None,
        }
    }
}

/// The text before the first occurrence of `pat`, or all of `s`: the first
/// item of `s.split(pat)`.
pub open spec fn before_first(s: Seq<char>, pat: Seq<char>) -> Seq<char> {
    match split_once(s, pat) {
        Some(parts) => parts.0,
        None => s,
    }
}

pub open spec fn is_digit(c: char) -> bool {
    48 <= (c as u32) <= 57
}

/// The value of a sequence of decimal digits, most significant first.
pub open spec fn digits_value(d: Seq<char>) -> int
    decreases d.len(),
{
    if d.len() == 0 {
        0
    } else {
        digits_value(d.drop_last()) * 10 + ((d.last() as u32) - 48)
    }
}

/// Every character of `d` is an ASCII digit.
pub open spec fn all_digits(d: Seq<char>) -> bool {
    forall|i: int| 0 <= i < d.len() ==> is_digit(#[trigger] d[i])
}

/// A percentage written as one or more ASCII digits, without a sign, whose
/// value is at most 100; `None` for any other text.
pub open spec fn parse_percent(t: Seq<char>) -> Option<i8> {
    if t.len() > 0 && all_digits(t) && digits_value(t) <= 100 {
        Some(digits_value(t) as i8)
    } else {
        None
    }
}

proof fn lemma_trim_start(s: Seq<char>, class: Trim, k: int)
    requires
        0 <= k <= s.len(),
        forall|i: int| 0 <= i < k ==> trims(class, #[trigger] s[i]),
        k < s.len() ==> !trims(class, s[k]),
    ensures
        trim_start(s, class) == s.skip(k),
    decreases k,
{
    if k > 0 {
        lemma_trim_start(s.drop_first(), class, k - 1);
        assert(s.drop_first().skip(k - 1) =~= s.skip(k));
    } else {
        assert(s.skip(0) =~= s);
    }
}

proof fn lemma_trim_end(s: Seq<char>, class: Trim, k: int)
    requires
        0 <= k <= s.len(),
        forall|i: int| k <= i < s.len() ==> trims(class, #[trigger] s[i]),
        k > 0 ==> !trims(class, s[k - 1]),
    ensures
        trim_end(s, class) == s.take(k),
    decreases s.len() - k,
{
    if k < s.len() {
        lemma_trim_end(s.drop_last(), class, k);
        assert(s.drop_last().take(k) =~= s.take(k));
    } else {
        assert(s.take(k) =~= s);
    }
}

/// Every character of `s` is one that `class` trims.
pub open spec fn all_trimmed(s: Seq<char>, class: Trim) -> bool {
    forall|i: int| 0 <= i < s.len() ==> trims(class, #[trigger] s[i])
}

proof fn lemma_trim_start_prefix(p: Seq<char>, x: Seq<char>, class: Trim)
    requires
        all_trimmed(p, class),
    ensures
        trim_start(p + x, class) == trim_start(x, class),
    decreases p.len(),
{
    if p.len() == 0 {
        assert(p + x =~= x);
    } else {
        assert((p + x)[0] == p[0]);
        assert((p + x).drop_first() =~= p.drop_first() + x);
        lemma_trim_start_prefix(p.drop_first(), x, class);
    }
}

proof fn lemma_trim_end_suffix(x: Seq<char>, q: Seq<char>, class: Trim)
    requires
        all_trimmed(q, class),
    ensures
        trim_end(x + q, class) == trim_end(x, class),
    decreases q.len(),
{
    if q.len() == 0 {
        assert(x + q =~= x);
    } else {
        assert((x + q).last() == q.last());
        assert((x + q).drop_last() =~= x + q.drop_last());
        lemma_trim_end_suffix(x, q.drop_last(), class);
    }
}

proof fn lemma_trim_start_then_end(s: Seq<char>, q: Seq<char>, class: Trim)
    requires
        all_trimmed(q, class),
    ensures
        trim_end(trim_start(s + q, class), class) == trim_end(trim_start(s, class), class),
    decreases s.len(),
{
    if s.len() == 0 {
        assert(s + q =~= q);
        assert(q + Seq::<char>::empty() =~= q);
        lemma_trim_start_prefix(q, Seq::empty(), class);
    } else if trims(class, s[0]) {
        assert((s + q)[0] == s[0]);
        assert((s + q).drop_first() =~= s.drop_first() + q);
        lemma_trim_start_then_end(s.drop_first(), q, class);
    } else {
        assert((s + q)[0] == s[0]);
        lemma_trim_end_suffix(s, q, class);
    }
}

/// Characters of `class` around a text do not change what trimming it gives.
pub proof fn lemma_trim_ignores_padding(p: Seq<char>, s: Seq<char>, q: Seq<char>, class: Trim)
    requires
        all_trimmed(p, class),
        all_trimmed(q, class),
    ensures
        trim(p + s + q, class) == trim(s, class),
{
    assert(p + s + q =~= p + (s + q));
    lemma_trim_start_prefix(p, s + q, class);
    lemma_trim_start_then_end(s, q, class);
}

proof fn lemma_trim_start_shape(s: Seq<char>, class: Trim)
    ensures
        trim_start(s, class).len() > 0 ==> !trims(class, trim_start(s, class)[0]),
    decreases s.len(),
{
    if s.len() > 0 && trims(class, s[0]) {
        lemma_trim_start_shape(s.drop_first(), class);
    }
}

proof fn lemma_trim_end_shape(s: Seq<char>, class: Trim)
    ensures
        trim_end(s, class).len() <= s.len(),
        trim_end(s, class) == s.take(trim_end(s, class).len() as int),
        trim_end(s, class).len() > 0 ==> !trims(class, trim_end(s, class).last()),
    decreases s.len(),
{
    if s.len() > 0 && trims(class, s.last()) {
        lemma_trim_end_shape(s.drop_last(), class);
        assert(s.drop_last().take(trim_end(s, class).len() as int) =~= s.take(
            trim_end(s, class).len() as int,
        ));
    } else {
        assert(s.take(s.len() as int) =~= s);
    }
}

/// Trimming a text twice gives what trimming it once gives.
pub proof fn lemma_trim_idempotent(s: Seq<char>, class: Trim)
    ensures
        trim(trim(s, class), class) == trim(s, class),
{
    let y = trim_start(s, class);
    let t = trim_end(y, class);
    lemma_trim_start_shape(s, class);
    lemma_trim_end_shape(y, class);
    if t.len() > 0 {
        assert(y.take(t.len() as int)[0] == y[0]);
    }
    lemma_trim_start(t, class, 0);
    assert(t.skip(0) =~= t);
    lemma_trim_end(t, class, t.len() as int);
    assert(t.take(t.len() as int) =~= t);
}

/// A text that neither starts nor ends with a character of `class` is left
/// as it is by trimming.
pub proof fn lemma_trim_keeps(s: Seq<char>, class: Trim)
    requires
        s.len() > 0,
        !trims(class, s[0]),
        !trims(class, s.last()),
    ensures
        trim(s, class) == s,
{
    lemma_trim_start(s, class, 0);
    assert(s.skip(0) =~= s);
    lemma_trim_end(s, class, s.len() as int);
    assert(s.take(s.len() as int) =~= s);
}

/// The decimal rendering of a natural number is a non-empty run of ASCII
/// digits whose value is that number.
pub proof fn lemma_unsigned_decimal_value(n: nat)
    ensures
        unsigned_decimal(n).len() > 0,
        all_digits(unsigned_decimal(n)),
        digits_value(unsigned_decimal(n)) == n,
    decreases n,
{
    if n < 10 {
        let d = unsigned_decimal(n);
        assert(d.drop_last() =~= Seq::<char>::empty());
        assert((digit_char(n as int) as u32) == n + 48);
        assert(d.last() == digit_char(n as int));
        assert(digits_value(d) == digits_value(d.drop_last()) * 10 + ((d.last() as u32) - 48));
    } else {
        lemma_unsigned_decimal_value(n / 10);
        let d = unsigned_decimal(n);
        assert(d.drop_last() =~= unsigned_decimal(n / 10));
        assert((digit_char((n % 10) as int) as u32) == n % 10 + 48);
        assert(d.last() == digit_char((n % 10) as int));
        assert(digits_value(d) == digits_value(d.drop_last()) * 10 + ((d.last() as u32) - 48));
        assert(n / 10 * 10 + n % 10 == n);
        assert forall|i: int| 0 <= i < d.len() implies is_digit(#[trigger] d[i]) by {
            if i < d.len() - 1 {
                assert(d[i] == unsigned_decimal(n / 10)[i]);
            }
        }
    }
}

/// A whole number from 0 to 100 written in decimal reads back as itself.
pub proof fn lemma_percent_round_trip(n: nat)
    requires
        n <= 100,
    ensures
        parse_percent(unsigned_decimal(n)) == Some(n as i8),
{
    lemma_unsigned_decimal_value(n);
}

fn trims_char(class: Trim, c: char) -> (res: bool)
    ensures
        res == trims(class, c),
{
    let u: u32 = c as u32;
    let whitespace: bool = (0x9 <= u && u <= 0xd) || u == 0x20 || u == 0x85 || u == 0xa0
        || u == 0x1680 || (0x2000 <= u && u <= 0x200a) || u == 0x2028 || u == 0x2029
        || u == 0x202f || u == 0x205f || u == 0x3000;
    match class {
        Trim::Whitespace => whitespace,
        Trim::ControlOrWhitespace => u <= 0x1f || u == 0x7f || whitespace,
    }
}

/// The bounds of the window `v[lo..hi]` once the characters of `class` are
/// trimmed from both of its ends.
pub fn trim_window(v: &Vec<char>, lo: usize, hi: usize, class: Trim) -> (res: (usize, usize))
    requires
        lo <= hi <= v.len(),
    ensures
        lo <= res.0 <= res.1 <= hi,
        v@.subrange(res.0 as int, res.1 as int) == trim(v@.subrange(lo as int, hi as int), class),
{
    let mut a: usize = lo;
    while a < hi && trims_char(class, v[a])
        invariant
            lo <= a <= hi <= v.len(),
            forall|i: int| lo <= i < a ==> trims(class, #[trigger] v@[i]),
        decreases hi - a,
    {
        a = a + 1;
    }
    let mut b: usize = hi;
    while b > a && trims_char(class, v[b - 1])
        invariant
            lo <= a <= b <= hi <= v.len(),
            forall|i: int| b <= i < hi ==> trims(class, #[trigger] v@[i]),
        decreases b - a,
    {
        b = b - 1;
    }
    proof {
        let w = v@.subrange(lo as int, hi as int);
        lemma_trim_start(w, class, a - lo);
        let rest = w.skip(a - lo);
        assert(rest =~= v@.subrange(a as int, hi as int));
        lemma_trim_end(rest, class, b - a);
        assert(rest.take(b - a) =~= v@.subrange(a as int, b as int));
    }
    (a, b)
}


pub(crate) proof fn lemma_split_once_at(s: Seq<char>, pat: Seq<char>, k: int)
    requires
        pat.len() > 0,
        0 <= k <= s.len() - pat.len(),
        s.subrange(k, k + pat.len()) == pat,
        forall|i: int| 0 <= i < k ==> #[trigger] s.subrange(i, i + pat.len()) != pat,
    ensures
        split_once(s, pat) == Some((s.take(k), s.skip(k + pat.len()))),
    decreases k,
{
    if k == 0 {
        assert(s.take(pat.len() as int) =~= s.subrange(0, pat.len() as int));
        assert(s.take(0) =~= Seq::<char>::empty());
    } else {
        assert(s.take(pat.len() as int) =~= s.subrange(0, pat.len() as int));
        assert(s.subrange(0int, 0int + pat.len()) != pat);
        let t = s.drop_first();
        assert forall|i: int| 0 <= i < k - 1 implies #[trigger] t.subrange(i, i + pat.len()) != pat by {
            assert(t.subrange(i, i + pat.len()) =~= s.subrange(i + 1, i + 1 + pat.len()));
        }
        assert(t.subrange(k - 1, k - 1 + pat.len()) =~= s.subrange(k, k + pat.len()));
        lemma_split_once_at(t, pat, k - 1);
        assert(seq![s[0]] + t.take(k - 1) =~= s.take(k));
        assert(t.skip(k - 1 + pat.len()) =~= s.skip(k + pat.len()));
    }
}

pub(crate) proof fn lemma_split_once_none(s: Seq<char>, pat: Seq<char>)
    requires
        pat.len() > 0,
        forall|i: int| 0 <= i <= s.len() - pat.len() ==> #[trigger] s.subrange(i, i + pat.len()) != pat,
    ensures
        split_once(s, pat) is None,
    decreases s.len(),
{
    if s.len() >= pat.len() {
        assert(s.take(pat.len() as int) =~= s.subrange(0, pat.len() as int));
        assert(s.subrange(0int, 0int + pat.len()) != pat);
        let t = s.drop_first();
        assert forall|i: int| 0 <= i <= t.len() - pat.len() implies #[trigger] t.subrange(i, i + pat.len()) != pat by {
            assert(t.subrange(i, i + pat.len()) =~= s.subrange(i + 1, i + 1 + pat.len()));
        }
        lemma_split_once_none(t, pat);
    }
}

fn matches_at(v: &Vec<char>, k: usize, pat: &Vec<char>) -> (res: bool)
    requires
        k + pat.len() <= v.len(),
    ensures
        res == (v@.subrange(k as int, k + pat.len()) == pat@),
{
    let n: usize = pat.len();
    let mut j: usize = 0;
    while j < n
        invariant
            n == pat.len(),
            k + n <= v.len(),
            j <= n,
            forall|i: int| 0 <= i < j ==> v@[k + i] == pat@[i],
        decreases n - j,
    {
        if v[k + j] != pat[j] {
            assert(v@.subrange(k as int, k + n)[j as int] != pat@[j as int]);
            return false;
        }
        j = j + 1;
    }
    assert(v@.subrange(k as int, k + n) =~= pat@);
    true
}

/// Where the first occurrence of `pat` starts in the window `v[lo..hi]`.
pub fn find(v: &Vec<char>, lo: usize, hi: usize, pat: &Vec<char>) -> (res: Option<usize>)
    requires
        lo <= hi <= v.len(),
        pat.len() > 0,
    ensures
        match res {
            Some(k) => {
                &&& lo <= k
                &&& k + pat.len() <= hi
                &&& split_once(v@.subrange(lo as int, hi as int), pat@) == Some(
                    (v@.subrange(lo as int, k as int), v@.subrange(k + pat.len(), hi as int)),
                )
            },
            None => split_once(v@.subrange(lo as int, hi as int), pat@) is None,
        },
{
    let ghost w = v@.subrange(lo as int, hi as int);
    let n: usize = pat.len();
    if hi - lo < n {
        proof {
            lemma_split_once_none(w, pat@);
        }
        return None;
    }
    let mut k: usize = lo;
    while k <= hi - n
        invariant
            lo <= k <= hi - n + 1,
            n == pat.len(),
            n > 0,
            n <= hi - lo,
            hi <= v.len(),
            w == v@.subrange(lo as int, hi as int),
            forall|i: int| 0 <= i < k - lo ==> #[trigger] w.subrange(i, i + n) != pat@,
        decreases hi - n + 1 - k,
    {
        assert(w.subrange(k - lo, k - lo + n) =~= v@.subrange(k as int, k + n));
        if matches_at(v, k, pat) {
            proof {
                lemma_split_once_at(w, pat@, k - lo);
                assert(w.take(k - lo) =~= v@.subrange(lo as int, k as int));
                assert(w.skip(k - lo + n) =~= v@.subrange(k + n, hi as int));
            }
            return Some(k);
        }
        k = k + 1;
    }
    proof {
        lemma_split_once_none(w, pat@);
    }
    None
}

/// `parse_percent` on the window `v[lo..hi]`.
pub fn parse_percent_window(v: &Vec<char>, lo: usize, hi: usize) -> (res: Option<i8>)
    requires
        lo <= hi <= v.len(),
    ensures
        res == parse_percent(v@.subrange(lo as int, hi as int)),
        res matches Some(p) ==> 0 <= p <= 100,
{
    let ghost digits = v@.subrange(lo as int, hi as int);
    if lo == hi {
        return None;
    }
    // The value read so far, or 101 once it exceeds 100.
    let mut value: u32 = 0;
    let mut i: usize = lo;
    while i < hi
        invariant
            lo <= i <= hi <= v.len(),
            digits == v@.subrange(lo as int, hi as int),
            forall|j: int| 0 <= j < i - lo ==> is_digit(#[trigger] digits[j]),
            digits_value(digits.take(i - lo)) >= 0,
            digits_value(digits.take(i - lo)) <= 100 ==> value == digits_value(
                digits.take(i - lo),
            ),
            digits_value(digits.take(i - lo)) > 100 ==> value == 101,
        decreases hi - i,
    {
        let c: char = v[i];
        let code: u32 = c as u32;
        assert(digits[i - lo] == c);
        if code < 48 || code > 57 {
            assert(!is_digit(digits[i - lo]));
            return None;
        }
        let ghost before = digits.take(i - lo);
        assert(digits.take(i - lo + 1).drop_last() =~= before);
        assert(digits.take(i - lo + 1).last() == c);
        if value > 100 {
            value = 101;
        } else {
            value = value * 10 + (code - 48);
            if value > 100 {
                value = 101;
            }
        }
        i = i + 1;
    }
    assert(digits.take(hi - lo) =~= digits);
    if value <= 100 {
        Some(value as i8)
    } else {
        None
    }
}

} // verus!
