//! Character-level text handling: Unicode whitespace, trimming, decimal
//! integers, and conversions between `str`, `String` and char vectors.

use vstd::prelude::*;

verus! {

/// The Unicode `White_Space` property, which `char::is_whitespace` tests.
pub open spec fn is_white(c: char) -> bool {
    let n = c as u32;
    ||| (0x09 <= n && n <= 0x0D)
    ||| n == 0x20
    ||| n == 0x85
    ||| n == 0xA0
    ||| n == 0x1680
    ||| (0x2000 <= n && n <= 0x200A)
    ||| n == 0x2028
    ||| n == 0x2029
    ||| n == 0x202F
    ||| n == 0x205F
    ||| n == 0x3000
}

/// Whether `c` is white space in the Unicode sense.
pub fn is_whitespace(c: char) -> (b: bool)
    ensures
        b == is_white(c),
{
    let n = c as u32;
    (0x09 <= n && n <= 0x0D) || n == 0x20 || n == 0x85 || n == 0xA0 || n == 0x1680 || (0x2000
        <= n && n <= 0x200A) || n == 0x2028 || n == 0x2029 || n == 0x202F || n == 0x205F || n
        == 0x3000
}

/// Number of leading characters of `s` that satisfy `p`.
pub open spec fn lead_count(s: Seq<char>, p: spec_fn(char) -> bool) -> nat
    decreases s.len(),
{
    if s.len() > 0 && p(s[0]) {
        1 + lead_count(s.drop_first(), p)
    } else {
        0
    }
}

/// Number of trailing characters of `s` that satisfy `p`.
pub open spec fn trail_count(s: Seq<char>, p: spec_fn(char) -> bool) -> nat
    decreases s.len(),
{
    if s.len() > 0 && p(s.last()) {
        1 + trail_count(s.drop_last(), p)
    } else {
        0
    }
}

/// `s` without the leading run of characters that satisfy `p`.
pub open spec fn strip_start(s: Seq<char>, p: spec_fn(char) -> bool) -> Seq<char> {
    s.skip(lead_count(s, p) as int)
}

/// `s` without the trailing run of characters that satisfy `p`.
pub open spec fn strip_end(s: Seq<char>, p: spec_fn(char) -> bool) -> Seq<char> {
    s.take(s.len() - trail_count(s, p))
}

/// `s` without leading and trailing characters that satisfy `p`.
pub open spec fn strip(s: Seq<char>, p: spec_fn(char) -> bool) -> Seq<char> {
    strip_end(strip_start(s, p), p)
}

pub open spec fn white() -> spec_fn(char) -> bool {
    |c: char| is_white(c)
}

/// What `str::trim` returns: `s` without leading and trailing white space.
pub open spec fn trimmed(s: Seq<char>) -> Seq<char> {
    strip(s, white())
}

/// What `str::trim_start` returns.
pub open spec fn trimmed_start(s: Seq<char>) -> Seq<char> {
    strip_start(s, white())
}

/// The leading run is exactly the first index that fails `p`.
pub proof fn lemma_lead_count(s: Seq<char>, p: spec_fn(char) -> bool, k: int)
    requires
        0 <= k <= s.len(),
        forall|i: int| 0 <= i < k ==> #[trigger] p(s[i]),
        k < s.len() ==> !p(s[k]),
    ensures
        lead_count(s, p) == k,
    decreases s.len(),
{
    if s.len() > 0 && p(s[0]) {
        assert(k > 0);
        let t = s.drop_first();
        assert forall|i: int| 0 <= i < k - 1 implies #[trigger] p(t[i]) by {
            assert(t[i] == s[i + 1]);
        }
        if k - 1 < t.len() {
            assert(t[k - 1] == s[k]);
        }
        lemma_lead_count(t, p, k - 1);
    } else if s.len() > 0 {
        assert(k == 0);
    }
}

/// The trailing run is exactly the last stretch that satisfies `p`.
pub proof fn lemma_trail_count(s: Seq<char>, p: spec_fn(char) -> bool, k: int)
    requires
        0 <= k <= s.len(),
        forall|i: int| s.len() - k <= i < s.len() ==> #[trigger] p(s[i]),
        k < s.len() ==> !p(s[s.len() - 1 - k]),
    ensures
        trail_count(s, p) == k,
    decreases s.len(),
{
    if s.len() > 0 && p(s.last()) {
        if k == 0 {
            assert(s[s.len() - 1] == s.last());
        }
        assert(k > 0);
        let t = s.drop_last();
        assert forall|i: int| t.len() - (k - 1) <= i < t.len() implies #[trigger] p(t[i]) by {
            assert(t[i] == s[i]);
        }
        if k - 1 < t.len() {
            assert(t[t.len() - 1 - (k - 1)] == s[s.len() - 1 - k]);
        }
        lemma_trail_count(t, p, k - 1);
    } else if s.len() > 0 {
        if k > 0 {
            assert(s[s.len() - 1] == s.last());
        }
        assert(k == 0);
    }
}

/// Appends `c` to `s` (`String::push`).
#[verifier::external_body]
fn push_char(s: &mut String, c: char)
    ensures
        final(s)@ == old(s)@.push(c),
{
    s.push(c)
}

/// The characters of `s`, in order.
pub fn chars_of(s: &str) -> (v: Vec<char>)
    ensures
        v@ == s@,
{
    let mut v: Vec<char> = Vec::new();
    for c in it: s.chars()
        invariant
            v@ == it.seq().take(it.index() as int),
    {
        v.push(c);
    }
    v
}

/// A `String` that holds exactly `cs`.
pub fn string_of(cs: &[char]) -> (s: String)
    ensures
        s@ == cs@,
{
    let mut s = String::new();
    let mut i: usize = 0;
    while i < cs.len()
        invariant
            i <= cs.len(),
            s@ == cs@.take(i as int),
        decreases cs.len() - i,
    {
        push_char(&mut s, cs[i]);
        assert(cs@.take(i + 1) == cs@.take(i as int).push(cs@[i as int]));
        i = i + 1;
    }
    assert(cs@.take(cs.len() as int) == cs@);
    s
}

/// The characters of `s` from `lo` up to `hi`.
pub fn slice_chars(s: &[char], lo: usize, hi: usize) -> (r: Vec<char>)
    requires
        lo <= hi <= s.len(),
    ensures
        r@ == s@.subrange(lo as int, hi as int),
{
    let mut r: Vec<char> = Vec::new();
    let mut i = lo;
    while i < hi
        invariant
            lo <= i <= hi <= s.len(),
            r@ == s@.subrange(lo as int, i as int),
        decreases hi - i,
    {
        r.push(s[i]);
        assert(s@.subrange(lo as int, i + 1) == s@.subrange(lo as int, i as int).push(s@[i as int]));
        i = i + 1;
    }
    r
}

/// `s` without leading white space (`str::trim_start`).
pub fn trim_start(s: &[char]) -> (r: Vec<char>)
    ensures
        r@ == trimmed_start(s@),
{
    let mut i: usize = 0;
    while i < s.len() && is_whitespace(s[i])
        invariant
            i <= s.len(),
            forall|j: int| 0 <= j < i ==> #[trigger] is_white(s@[j]),
        decreases s.len() - i,
    {
        i = i + 1;
    }
    proof {
        assert forall|j: int| 0 <= j < i implies #[trigger] white()(s@[j]) by {
            assert(is_white(s@[j]));
        }
        lemma_lead_count(s@, white(), i as int);
    }
    slice_chars(s, i, s.len())
}

/// `s` without leading or trailing white space (`str::trim`).
pub fn trim(s: &[char]) -> (r: Vec<char>)
    ensures
        r@ == trimmed(s@),
{
    let t = trim_start(s);
    let mut k: usize = 0;
    while k < t.len() && is_whitespace(t[t.len() - 1 - k])
        invariant
            k <= t.len(),
            forall|j: int| t.len() - k <= j < t.len() ==> #[trigger] is_white(t@[j]),
        decreases t.len() - k,
    {
        k = k + 1;
    }
    proof {
        assert forall|j: int| t.len() - k <= j < t.len() implies #[trigger] white()(t@[j]) by {
            assert(is_white(t@[j]));
        }
        lemma_trail_count(t@, white(), k as int);
    }
    slice_chars(t.as_slice(), 0, t.len() - k)
}


/// The text of an optional string.
pub open spec fn opt_text(o: Option<&str>) -> Option<Seq<char>> {
    match o {
        Some(s) => Some(s@),
        None => None,
    }
}

/// The text of an optional `String`.
pub open spec fn opt_string_text(o: Option<String>) -> Option<Seq<char>> {
    match o {
        Some(s) => Some(s@),
        None => None,
    }
}

/// The texts of a list of strings.
pub open spec fn texts(v: Seq<String>) -> Seq<Seq<char>> {
    v.map_values(|s: String| s@)
}

/// An ASCII decimal digit.
pub open spec fn is_digit(c: char) -> bool {
    48 <= (c as u32) <= 57
}

pub open spec fn digit_val(c: char) -> int {
    (c as u32) - 48
}

pub open spec fn all_digits(s: Seq<char>) -> bool {
    forall|i: int| 0 <= i < s.len() ==> #[trigger] is_digit(s[i])
}

/// The value of a run of decimal digits, most significant first.
pub open spec fn digits_value(s: Seq<char>) -> int
    decreases s.len(),
{
    if s.len() == 0 {
        0
    } else {
        digits_value(s.drop_last()) * 10 + digit_val(s.last())
    }
}

/// The integer that `s` writes in decimal, as `str::parse` reads it: an
/// optional `+` or `-`, then one or more ASCII digits, nothing else.
pub open spec fn parse_int(s: Seq<char>) -> Option<int> {
    let neg = s.len() > 0 && s[0] == '-';
    let signed = s.len() > 0 && (s[0] == '-' || s[0] == '+');
    let body = if signed {
        s.drop_first()
    } else {
        s
    };
    if body.len() == 0 || !all_digits(body) {
        None
    } else if neg {
        Some(-digits_value(body))
    } else {
        Some(digits_value(body))
    }
}

/// What `s.parse::<i32>()` gives, as an `Option`.
pub open spec fn parse_i32_spec(s: Seq<char>) -> Option<i32> {
    match parse_int(s) {
        Some(v) => if i32::MIN <= v <= i32::MAX {
            Some(v as i32)
        } else {
            None
        },
        None => None,
    }
}

/// The decimal digit for `d`.
pub open spec fn digit_char(d: nat) -> char {
    ((d + 48) as u32) as char
}

/// The decimal digits of `n`, without leading zeros.
pub open spec fn dec(n: nat) -> Seq<char>
    decreases n,
{
    if n < 10 {
        seq![digit_char(n)]
    } else {
        dec(n / 10).push(digit_char(n % 10))
    }
}

/// `n` written in decimal, with a leading `-` when negative (as `format!` does).
pub open spec fn fmt_int(n: int) -> Seq<char> {
    if n < 0 {
        seq!['-'] + dec((-n) as nat)
    } else {
        dec(n as nat)
    }
}

proof fn lemma_digit_char(d: nat)
    requires
        d < 10,
    ensures
        is_digit(digit_char(d)),
        digit_val(digit_char(d)) == d,
{
    assert(((d + 48) as u32) as char as u32 == (d + 48) as u32);
}

proof fn lemma_digits_value_nonneg(s: Seq<char>)
    requires
        all_digits(s),
    ensures
        digits_value(s) >= 0,
    decreases s.len(),
{
    if s.len() > 0 {
        assert(is_digit(s[s.len() - 1]));
        assert(all_digits(s.drop_last())) by {
            assert forall|i: int| 0 <= i < s.drop_last().len() implies #[trigger] is_digit(
                s.drop_last()[i],
            ) by {
                assert(s.drop_last()[i] == s[i]);
            }
        }
        lemma_digits_value_nonneg(s.drop_last());
    }
}

/// A longer run of digits is worth at least as much as its prefix.
proof fn lemma_digits_value_prefix(s: Seq<char>, i: int)
    requires
        all_digits(s),
        0 <= i <= s.len(),
    ensures
        digits_value(s.take(i)) <= digits_value(s),
    decreases s.len() - i,
{
    if i < s.len() {
        lemma_digits_value_prefix(s, i + 1);
        let t = s.take(i + 1);
        assert(t.drop_last() == s.take(i));
        assert(is_digit(s[i]));
        assert(t.last() == s[i]);
        assert(all_digits(s.take(i))) by {
            assert forall|j: int| 0 <= j < s.take(i).len() implies #[trigger] is_digit(
                s.take(i)[j],
            ) by {
                assert(s.take(i)[j] == s[j]);
            }
        }
        lemma_digits_value_nonneg(s.take(i));
    } else {
        assert(s.take(i) == s);
    }
}

/// `dec` writes digits only, and reads back as the number it wrote.
pub proof fn lemma_dec(n: nat)
    ensures
        dec(n).len() >= 1,
        all_digits(dec(n)),
        digits_value(dec(n)) == n,
    decreases n,
{
    if n < 10 {
        lemma_digit_char(n);
        assert(dec(n).drop_last() =~= Seq::<char>::empty());
        assert(digits_value(dec(n).drop_last()) == 0);
        assert(dec(n).last() == digit_char(n));
    } else {
        lemma_dec(n / 10);
        lemma_digit_char(n % 10);
        let s = dec(n);
        assert(s.drop_last() == dec(n / 10));
        assert(s.last() == digit_char(n % 10));
        assert(digits_value(s) == digits_value(dec(n / 10)) * 10 + digit_val(digit_char(n % 10)));
        assert((n / 10) * 10 + n % 10 == n);
        assert forall|i: int| 0 <= i < s.len() implies #[trigger] is_digit(s[i]) by {
            if i < s.len() - 1 {
                assert(s[i] == dec(n / 10)[i]);
            }
        }
    }
}

/// Writing an `i32` in decimal and reading it back gives the same `i32`.
pub proof fn lemma_parse_fmt_i32(n: i32)
    ensures
        parse_i32_spec(fmt_int(n as int)) == Some(n),
{
    if n < 0 {
        let m = (-n) as nat;
        lemma_dec(m);
        let s = fmt_int(n as int);
        assert(s[0] == '-');
        assert(s.drop_first() == dec(m));
    } else {
        lemma_dec(n as nat);
        let s = dec(n as nat);
        lemma_digit_char(0);
        assert(is_digit(s[0]));
        assert(s[0] != '-' && s[0] != '+') by {
            assert(('-' as u32) == 45);
            assert(('+' as u32) == 43);
        }
    }
}

/// Whether `c` is an ASCII decimal digit.
pub fn is_ascii_digit(c: char) -> (b: bool)
    ensures
        b == is_digit(c),
{
    let n = c as u32;
    48 <= n && n <= 57
}

/// Reads a decimal `i32` as `str::parse::<i32>` does.
pub fn parse_i32(s: &[char]) -> (r: Option<i32>)
    ensures
        r == parse_i32_spec(s@),
{
    let n = s.len();
    if n == 0 {
        return None;
    }
    let neg = s[0] == '-';
    let start: usize = if s[0] == '-' || s[0] == '+' {
        1
    } else {
        0
    };
    let body = slice_chars(s, start, n);
    proof {
        if start == 1 {
            assert(body@ == s@.drop_first());
        } else {
            assert(body@ == s@);
        }
    }
    if body.len() == 0 {
        return None;
    }
    let mut acc: u64 = 0;
    let mut i: usize = 0;
    while i < body.len()
        invariant
            i <= body.len(),
            acc == digits_value(body@.take(i as int)),
            acc <= 2147483648,
            all_digits(body@.take(i as int)),
            n == s.len(),
            n > 0,
            neg == (s@[0] == '-'),
            (start == 1) == (s@[0] == '-' || s@[0] == '+'),
            body@ == (if start == 1 {
                s@.drop_first()
            } else {
                s@
            }),
        decreases body.len() - i,
    {
        let c = body[i];
        if !is_ascii_digit(c) {
            proof {
                assert(!all_digits(body@)) by {
                    assert(!is_digit(body@[i as int]));
                }
            }
            return None;
        }
        let d = (c as u32 - 48) as u64;
        proof {
            let t = body@.take(i + 1);
            assert(t.drop_last() == body@.take(i as int));
            assert(t.last() == c);
            assert(all_digits(t)) by {
                assert forall|j: int| 0 <= j < t.len() implies #[trigger] is_digit(t[j]) by {
                    if j < i {
                        assert(t[j] == body@.take(i as int)[j]);
                    }
                }
            }
        }
        let next = acc * 10 + d;
        if next > 2147483648 {
            proof {
                if all_digits(body@) {
                    lemma_digits_value_prefix(body@, i + 1);
                }
            }
            return None;
        }
        acc = next;
        i = i + 1;
    }
    proof {
        assert(body@.take(body.len() as int) == body@);
    }
    if neg {
        if acc == 2147483648 {
            Some(i32::MIN)
        } else {
            Some(-(acc as i32))
        }
    } else if acc > 2147483647 {
        None
    } else {
        Some(acc as i32)
    }
}

/// The decimal digits of `m`.
pub fn dec_digits(m: u64) -> (v: Vec<char>)
    ensures
        v@ == dec(m as nat),
    decreases m,
{
    let d = ((m % 10) as u32 + 48) as u8 as char;
    proof {
        assert(d == digit_char((m % 10) as nat));
    }
    if m < 10 {
        let mut v: Vec<char> = Vec::new();
        v.push(d);
        v
    } else {
        let mut v = dec_digits(m / 10);
        v.push(d);
        v
    }
}

/// `n` in decimal, as `format!("{n}")` writes an `i32`.
pub fn format_i32(n: i32) -> (s: String)
    ensures
        s@ == fmt_int(n as int),
{
    if n < 0 {
        let m = (0i64 - n as i64) as u64;
        let digits = dec_digits(m);
        let mut s = String::new();
        push_char(&mut s, '-');
        let rest = string_of(digits.as_slice());
        s.append(rest.as_str());
        s
    } else {
        let digits = dec_digits(n as u64);
        string_of(digits.as_slice())
    }
}

/// `n` in decimal, as `format!("{n}")` writes a `u32`.
pub fn format_u32(n: u32) -> (s: String)
    ensures
        s@ == fmt_int(n as int),
{
    let digits = dec_digits(n as u64);
    string_of(digits.as_slice())
}


/// The predicate "differs from `c`".
pub open spec fn other_than(c: char) -> spec_fn(char) -> bool {
    |x: char| x != c
}

/// Index of the first `c` in `s`, if any.
pub open spec fn find_char_spec(s: Seq<char>, c: char) -> Option<int> {
    let k = lead_count(s, other_than(c));
    if k < s.len() {
        Some(k as int)
    } else {
        None
    }
}

/// Index of the first `c` in `s` (`str::find` with a char, counted in chars).
pub fn find_char(s: &[char], c: char) -> (r: Option<usize>)
    ensures
        match r {
            Some(k) => k < s.len() && find_char_spec(s@, c) == Some(k as int),
            None => find_char_spec(s@, c) is None,
        },
{
    let mut i: usize = 0;
    while i < s.len() && s[i] != c
        invariant
            i <= s.len(),
            forall|j: int| 0 <= j < i ==> #[trigger] s@[j] != c,
        decreases s.len() - i,
    {
        i = i + 1;
    }
    proof {
        assert forall|j: int| 0 <= j < i implies #[trigger] other_than(c)(s@[j]) by {
            assert(s@[j] != c);
        }
        lemma_lead_count(s@, other_than(c), i as int);
    }
    if i < s.len() {
        Some(i)
    } else {
        None
    }
}

/// Whether `s` holds `c` anywhere.
pub fn contains_char(s: &[char], c: char) -> (b: bool)
    ensures
        b == s@.contains(c),
{
    match find_char(s, c) {
        Some(k) => {
            proof {
                lemma_lead_count_props(s@, other_than(c));
                assert(s@[k as int] == c);
            }
            true
        },
        None => {
            proof {
                lemma_lead_count_props(s@, other_than(c));
                assert forall|j: int| 0 <= j < s@.len() implies s@[j] != c by {
                    assert(other_than(c)(s@[j]));
                }
            }
            false
        },
    }
}

/// What `lead_count` counts: every counted character satisfies `p`, and the
/// next one, if any, does not.
pub proof fn lemma_lead_count_props(s: Seq<char>, p: spec_fn(char) -> bool)
    ensures
        lead_count(s, p) <= s.len(),
        forall|i: int| 0 <= i < lead_count(s, p) ==> #[trigger] p(s[i]),
        lead_count(s, p) < s.len() ==> !p(s[lead_count(s, p) as int]),
    decreases s.len(),
{
    if s.len() > 0 && p(s[0]) {
        let t = s.drop_first();
        lemma_lead_count_props(t, p);
        assert forall|i: int| 0 <= i < lead_count(s, p) implies #[trigger] p(s[i]) by {
            if i > 0 {
                assert(s[i] == t[i - 1]);
            }
        }
        if lead_count(s, p) < s.len() {
            assert(s[lead_count(s, p) as int] == t[lead_count(t, p) as int]);
        }
    }
}

/// Whether `s` and `t` hold the same characters.
pub fn chars_equal(s: &[char], t: &[char]) -> (b: bool)
    ensures
        b == (s@ == t@),
{
    if s.len() != t.len() {
        return false;
    }
    let mut i: usize = 0;
    while i < s.len()
        invariant
            i <= s.len(),
            s.len() == t.len(),
            forall|j: int| 0 <= j < i ==> s@[j] == t@[j],
        decreases s.len() - i,
    {
        if s[i] != t[i] {
            return false;
        }
        i = i + 1;
    }
    proof {
        assert(s@ =~= t@);
    }
    true
}

/// Whether the text of `s` equals the text of `t`.
pub fn str_equal(s: &str, t: &str) -> (b: bool)
    ensures
        b == (s@ == t@),
{
    let a = chars_of(s);
    let b = chars_of(t);
    chars_equal(a.as_slice(), b.as_slice())
}

/// `a` followed by `b`, as a new `String`.
pub fn cat(a: &str, b: &str) -> (s: String)
    ensures
        s@ == a@ + b@,
{
    String::from_str(a).concat(b)
}


/// A text that neither starts nor ends with white space is its own trim.
pub proof fn lemma_trimmed_plain(s: Seq<char>)
    requires
        s.len() > 0,
        !is_white(s[0]),
        !is_white(s.last()),
    ensures
        trimmed(s) == s,
{
    lemma_lead_count(s, white(), 0);
    assert(s.skip(0) =~= s);
    lemma_trail_count(s, white(), 0);
    assert(s.take(s.len() as int) =~= s);
}

/// `fmt_int` writes an optional `-` and then digits only, at least one.
pub proof fn lemma_fmt_int_shape(n: int)
    ensures
        fmt_int(n).len() >= 1,
        is_digit(fmt_int(n).last()),
        is_digit(fmt_int(n)[0]) || fmt_int(n)[0] == '-',
        forall|i: int| 0 <= i < fmt_int(n).len() ==> is_digit(#[trigger] fmt_int(n)[i]) || fmt_int(n)[i] == '-',
{
    if n < 0 {
        let m = (-n) as nat;
        lemma_dec(m);
        let s = fmt_int(n);
        assert(s[0] == '-');
        assert(s.last() == dec(m).last());
        assert(is_digit(dec(m)[dec(m).len() - 1]));
        assert forall|i: int| 0 <= i < s.len() implies is_digit(#[trigger] s[i]) || s[i] == '-' by {
            if i > 0 {
                assert(s[i] == dec(m)[i - 1]);
            }
        }
    } else {
        lemma_dec(n as nat);
        let s = dec(n as nat);
        assert(is_digit(s[s.len() - 1]));
        assert(is_digit(s[0]));
    }
}

} // verus!
