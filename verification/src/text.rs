//! Character-level helpers shared by the library: Unicode whitespace,
//! trimming, decimal formatting, and building `String`s from characters.
use vstd::prelude::*;

verus! {

/// Rust's `char::is_whitespace`: the Unicode `White_Space` property.
pub open spec fn is_ws(c: char) -> bool {
    ||| ('\u{9}' <= c && c <= '\u{d}')
    ||| c == ' '
    ||| c == '\u{85}'
    ||| c == '\u{a0}'
    ||| c == '\u{1680}'
    ||| ('\u{2000}' <= c && c <= '\u{200a}')
    ||| c == '\u{2028}'
    ||| c == '\u{2029}'
    ||| c == '\u{202f}'
    ||| c == '\u{205f}'
    ||| c == '\u{3000}'
}

pub fn is_whitespace(c: char) -> (r: bool)
    ensures
        r == is_ws(c),
{
    ('\u{9}' <= c && c <= '\u{d}') || c == ' ' || c == '\u{85}' || c == '\u{a0}' || c == '\u{1680}'
        || ('\u{2000}' <= c && c <= '\u{200a}') || c == '\u{2028}' || c == '\u{2029}' || c
        == '\u{202f}' || c == '\u{205f}' || c == '\u{3000}'
}

/// Rust's `char::is_ascii_digit`.
pub open spec fn is_digit(c: char) -> bool {
    '0' <= c && c <= '9'
}

/// Rust's `char::is_ascii_alphabetic`.
pub open spec fn is_ascii_alpha(c: char) -> bool {
    ('a' <= c && c <= 'z') || ('A' <= c && c <= 'Z')
}

/// Rust's `char::is_control`: the Unicode general category `Cc`.
pub open spec fn is_control(c: char) -> bool {
    c <= '\u{1f}' || ('\u{7f}' <= c && c <= '\u{9f}')
}

/// Rust's `char::to_ascii_uppercase`.
pub open spec fn upper(c: char) -> char {
    if 'a' <= c && c <= 'z' {
        ((c as u32) - 32) as char
    } else {
        c
    }
}

pub fn to_ascii_upper(c: char) -> (r: char)
    ensures
        r == upper(c),
{
    if 'a' <= c && c <= 'z' {
        ((c as u8) - 32) as char
    } else {
        c
    }
}

/// Two character sequences are equal up to ASCII case (`eq_ignore_ascii_case`).
pub open spec fn eq_ignore_case(a: Seq<char>, b: Seq<char>) -> bool {
    a.len() == b.len() && forall|i: int| 0 <= i < a.len() ==> upper(#[trigger] a[i]) == upper(b[i])
}

pub fn chars_eq_ignore_case(a: &Vec<char>, b: &Vec<char>) -> (r: bool)
    ensures
        r == eq_ignore_case(a@, b@),
{
    if a.len() != b.len() {
        return false;
    }
    let mut i: usize = 0;
    while i < a.len()
        invariant
            a.len() == b.len(),
            i <= a.len(),
            forall|k: int| 0 <= k < i ==> upper(#[trigger] a@[k]) == upper(b@[k]),
        decreases a.len() - i,
    {
        if to_ascii_upper(a[i]) != to_ascii_upper(b[i]) {
            return false;
        }
        i += 1;
    }
    true
}

/// Drops the leading characters that satisfy `p`.
pub open spec fn strip_front(s: Seq<char>, p: spec_fn(char) -> bool) -> Seq<char>
    decreases s.len(),
{
    if s.len() > 0 && p(s[0]) {
        strip_front(s.drop_first(), p)
    } else {
        s
    }
}

/// Drops the trailing characters that satisfy `p`.
pub open spec fn strip_back(s: Seq<char>, p: spec_fn(char) -> bool) -> Seq<char>
    decreases s.len(),
{
    if s.len() > 0 && p(s.last()) {
        strip_back(s.drop_last(), p)
    } else {
        s
    }
}

/// Rust's `str::trim_matches` with the predicate `p`.
pub open spec fn strip_both(s: Seq<char>, p: spec_fn(char) -> bool) -> Seq<char> {
    strip_back(strip_front(s, p), p)
}

/// Rust's `str::trim`.
pub open spec fn trim(s: Seq<char>) -> Seq<char> {
    strip_both(s, |c: char| is_ws(c))
}

/// Every character is whitespace (`s.trim().is_empty()`).
pub open spec fn is_blank(s: Seq<char>) -> bool {
    forall|i: int| 0 <= i < s.len() ==> is_ws(#[trigger] s[i])
}

pub proof fn lemma_strip_front(s: Seq<char>, p: spec_fn(char) -> bool, k: int)
    requires
        0 <= k <= s.len(),
        forall|i: int| 0 <= i < k ==> p(#[trigger] s[i]),
        k == s.len() || !p(s[k]),
    ensures
        strip_front(s, p) == s.subrange(k, s.len() as int),
    decreases k,
{
    if k == 0 {
        assert(s.subrange(0, s.len() as int) =~= s);
    } else {
        assert(p(s[0]));
        let t = s.drop_first();
        assert forall|i: int| 0 <= i < k - 1 implies p(#[trigger] t[i]) by {
            assert(t[i] == s[i + 1]);
        }
        lemma_strip_front(t, p, k - 1);
        assert(t.subrange(k - 1, t.len() as int) =~= s.subrange(k, s.len() as int));
    }
}

pub proof fn lemma_strip_back(s: Seq<char>, p: spec_fn(char) -> bool, k: int)
    requires
        0 <= k <= s.len(),
        forall|i: int| k <= i < s.len() ==> p(#[trigger] s[i]),
        k == 0 || !p(s[k - 1]),
    ensures
        strip_back(s, p) == s.subrange(0, k),
    decreases s.len() - k,
{
    if k == s.len() {
        assert(s.subrange(0, s.len() as int) =~= s);
    } else {
        assert(p(s.last()));
        let t = s.drop_last();
        assert forall|i: int| k <= i < t.len() implies p(#[trigger] t[i]) by {
            assert(t[i] == s[i]);
        }
        lemma_strip_back(t, p, k);
        assert(t.subrange(0, k) =~= s.subrange(0, k));
    }
}

/// A trimmed text is empty or starts and ends with non-whitespace.
pub proof fn lemma_trim_shape(s: Seq<char>)
    ensures
        trim(s).len() > 0 ==> !is_ws(trim(s)[0]) && !is_ws(trim(s).last()),
{
    let p = |c: char| is_ws(c);
    lemma_strip_front_shape(s, p);
    lemma_strip_back_shape(strip_front(s, p), p);
    let f = strip_front(s, p);
    let b = strip_back(f, p);
    if b.len() > 0 {
        lemma_strip_back_prefix(f, p);
        assert(b[0] == f[0]);
    }
}

proof fn lemma_strip_front_shape(s: Seq<char>, p: spec_fn(char) -> bool)
    ensures
        strip_front(s, p).len() > 0 ==> !p(strip_front(s, p)[0]),
    decreases s.len(),
{
    if s.len() > 0 && p(s[0]) {
        lemma_strip_front_shape(s.drop_first(), p);
    }
}

proof fn lemma_strip_back_shape(s: Seq<char>, p: spec_fn(char) -> bool)
    ensures
        strip_back(s, p).len() > 0 ==> !p(strip_back(s, p).last()),
    decreases s.len(),
{
    if s.len() > 0 && p(s.last()) {
        lemma_strip_back_shape(s.drop_last(), p);
    }
}

/// Stripping at the back keeps a prefix.
pub proof fn lemma_strip_back_prefix(s: Seq<char>, p: spec_fn(char) -> bool)
    ensures
        strip_back(s, p).len() <= s.len(),
        forall|i: int| 0 <= i < strip_back(s, p).len() ==> strip_back(s, p)[i] == s[i],
    decreases s.len(),
{
    if s.len() > 0 && p(s.last()) {
        lemma_strip_back_prefix(s.drop_last(), p);
        assert forall|i: int| 0 <= i < strip_back(s, p).len() implies strip_back(s, p)[i] == s[i] by {
            assert(s.drop_last()[i] == s[i]);
        }
    }
}

/// Stripping at the front keeps a suffix.
pub proof fn lemma_strip_front_suffix(s: Seq<char>, p: spec_fn(char) -> bool)
    ensures
        strip_front(s, p).len() <= s.len(),
        forall|i: int|
            0 <= i < strip_front(s, p).len() ==> strip_front(s, p)[i] == s[i + s.len()
                - strip_front(s, p).len()],
    decreases s.len(),
{
    if s.len() > 0 && p(s[0]) {
        lemma_strip_front_suffix(s.drop_first(), p);
    }
}

/// What is left after stripping both ends starts and ends with characters
/// outside `p`.
pub proof fn lemma_strip_both_shape(s: Seq<char>, p: spec_fn(char) -> bool)
    ensures
        strip_both(s, p).len() > 0 ==> !p(strip_both(s, p)[0]) && !p(strip_both(s, p).last()),
{
    lemma_strip_front_shape(s, p);
    let f = strip_front(s, p);
    lemma_strip_back_shape(f, p);
    let b = strip_back(f, p);
    if b.len() > 0 {
        lemma_strip_back_prefix(f, p);
        assert(b[0] == f[0]);
    }
}

/// A text that starts and ends outside `p` is left as it is.
pub proof fn lemma_strip_both_keeps(s: Seq<char>, p: spec_fn(char) -> bool)
    requires
        s.len() > 0 ==> !p(s[0]) && !p(s.last()),
    ensures
        strip_both(s, p) == s,
{
}

/// Every character left after stripping both ends was in the text.
pub proof fn lemma_strip_both_within(s: Seq<char>, p: spec_fn(char) -> bool)
    ensures
        forall|i: int|
            0 <= i < strip_both(s, p).len() ==> exists|j: int|
                0 <= j < s.len() && s[j] == #[trigger] strip_both(s, p)[i],
{
    let f = strip_front(s, p);
    lemma_strip_front_suffix(s, p);
    lemma_strip_back_prefix(f, p);
    assert forall|i: int| 0 <= i < strip_both(s, p).len() implies exists|j: int|
        0 <= j < s.len() && s[j] == #[trigger] strip_both(s, p)[i] by {
        let j = i + s.len() - f.len();
        assert(strip_both(s, p) == strip_back(f, p));
        assert(strip_back(f, p)[i] == f[i]);
        assert(f[i] == s[j]);
    }
}

/// The characters of a string, in order.
pub fn chars_of(s: &str) -> (v: Vec<char>)
    ensures
        v@ == s@,
{
    let mut v: Vec<char> = Vec::new();
    for c in it: s.chars()
        invariant
            v@ == it.seq().take(it.index() as int),
            it.seq() == s@,
    {
        v.push(c);
    }
    v
}

/// `String::push`: appends one character.
#[verifier::external_body]
pub fn push_char(s: &mut String, c: char)
    ensures
        final(s)@ == old(s)@.push(c),
{
    s.push(c);
}

/// Appends the characters `v[from..to]` to `s`.
pub fn push_chars(s: &mut String, v: &[char], from: usize, to: usize)
    requires
        from <= to <= v@.len(),
    ensures
        final(s)@ == old(s)@ + v@.subrange(from as int, to as int),
{
    let mut i = from;
    while i < to
        invariant
            from <= i <= to <= v@.len(),
            s@ == old(s)@ + v@.subrange(from as int, i as int),
        decreases to - i,
    {
        push_char(s, v[i]);
        assert(v@.subrange(from as int, i + 1) =~= v@.subrange(from as int, i as int).push(v@[i as int]));
        i += 1;
    }
}

/// A `String` holding the characters of `v`.
pub fn string_from_chars(v: &[char]) -> (s: String)
    ensures
        s@ == v@,
{
    let mut s = String::new();
    push_chars(&mut s, v, 0, v.len());
    assert(v@.subrange(0, v@.len() as int) =~= v@);
    s
}

/// Appends a string slice.
pub fn push_str(s: &mut String, t: &str)
    ensures
        final(s)@ == old(s)@ + t@,
{
    let v = chars_of(t);
    push_chars(s, v.as_slice(), 0, v.len());
    assert(v@.subrange(0, v@.len() as int) =~= v@);
}

/// Bounds `[lo, hi)` of the part of `v` left after trimming characters
/// that are whitespace (`dots == false`), or that are `' '` or `'.'` (`dots == true`).
pub open spec fn trim_pred(dots: bool) -> spec_fn(char) -> bool {
    if dots {
        |c: char| c == ' ' || c == '.'
    } else {
        |c: char| is_ws(c)
    }
}

fn matches_trim(c: char, dots: bool) -> (r: bool)
    ensures
        r == (trim_pred(dots))(c),
{
    if dots {
        c == ' ' || c == '.'
    } else {
        is_whitespace(c)
    }
}

pub fn trim_bounds(v: &[char], dots: bool) -> (r: (usize, usize))
    ensures
        r.0 <= r.1 <= v@.len(),
        v@.subrange(r.0 as int, r.1 as int) == strip_both(v@, trim_pred(dots)),
{
    let ghost p = trim_pred(dots);
    let n = v.len();
    let mut lo: usize = 0;
    while lo < n && matches_trim(v[lo], dots)
        invariant
            lo <= n == v@.len(),
            p == trim_pred(dots),
            forall|i: int| 0 <= i < lo ==> p(#[trigger] v@[i]),
        decreases n - lo,
    {
        lo += 1;
    }
    proof {
        lemma_strip_front(v@, p, lo as int);
    }
    let ghost front = v@.subrange(lo as int, n as int);
    let mut hi: usize = n;
    while hi > lo && matches_trim(v[hi - 1], dots)
        invariant
            lo <= hi <= n == v@.len(),
            p == trim_pred(dots),
            forall|i: int| hi <= i < n ==> p(#[trigger] v@[i]),
        decreases hi - lo,
    {
        hi -= 1;
    }
    proof {
        assert forall|i: int| hi - lo <= i < front.len() implies p(#[trigger] front[i]) by {
            assert(front[i] == v@[i + lo]);
        }
        if hi > lo {
            assert(front[hi - lo - 1] == v@[hi - 1]);
        }
        lemma_strip_back(front, p, hi - lo);
        assert(front.subrange(0, hi - lo) =~= v@.subrange(lo as int, hi as int));
    }
    (lo, hi)
}

/// `str::trim`, as characters.
pub fn trim_chars(v: &[char]) -> (r: Vec<char>)
    ensures
        r@ == trim(v@),
{
    let (lo, hi) = trim_bounds(v, false);
    let mut r: Vec<char> = Vec::new();
    let mut i = lo;
    while i < hi
        invariant
            lo <= i <= hi <= v@.len(),
            r@ == v@.subrange(lo as int, i as int),
        decreases hi - i,
    {
        r.push(v[i]);
        assert(v@.subrange(lo as int, i + 1) =~= v@.subrange(lo as int, i as int).push(v@[i as int]));
        i += 1;
    }
    assert(trim_pred(false) == (|c: char| is_ws(c)));
    r
}

/// `s.trim().is_empty()`.
pub fn is_blank_str(s: &str) -> (r: bool)
    ensures
        r == is_blank(s@),
{
    let v = chars_of(s);
    let mut i: usize = 0;
    while i < v.len()
        invariant
            i <= v@.len(),
            v@ == s@,
            forall|k: int| 0 <= k < i ==> is_ws(#[trigger] v@[k]),
        decreases v.len() - i,
    {
        if !is_whitespace(v[i]) {
            return false;
        }
        i += 1;
    }
    true
}

/// The decimal digit character for `d < 10`.
pub open spec fn digit_char(d: nat) -> char {
    ((48 + d) as u32) as char
}

/// The decimal text of a natural number, as `Display` prints it.
pub open spec fn decimal(n: nat) -> Seq<char>
    decreases n,
{
    if n < 10 {
        seq![digit_char(n)]
    } else {
        decimal(n / 10).push(digit_char(n % 10))
    }
}

/// The decimal text of an integer, with a leading `-` when negative.
pub open spec fn int_decimal(x: int) -> Seq<char> {
    if x < 0 {
        seq!['-'] + decimal((-x) as nat)
    } else {
        decimal(x as nat)
    }
}

fn digit(d: u64) -> (c: char)
    requires
        d < 10,
    ensures
        c == digit_char(d as nat),
{
    ((48 + d) as u8) as char
}

/// The decimal characters of `n`.
pub fn decimal_chars(n: u64) -> (v: Vec<char>)
    ensures
        v@ == decimal(n as nat),
{
    let mut m = n;
    let mut digits: Vec<char> = Vec::new();
    while m >= 10
        invariant
            decimal(n as nat) == decimal(m as nat) + digits@,
        decreases m,
    {
        let c = digit(m % 10);
        let ghost old_digits = digits@;
        digits.insert(0, c);
        assert(digits@ =~= seq![c] + old_digits);
        assert(decimal(m as nat) == decimal((m / 10) as nat).push(c));
        assert(decimal((m / 10) as nat) + digits@ =~= decimal((m / 10) as nat).push(c) + old_digits);
        m = m / 10;
    }
    let c = digit(m);
    let ghost old_digits = digits@;
    digits.insert(0, c);
    assert(digits@ =~= seq![c] + old_digits);
    digits
}

/// `n.to_string()` for an unsigned integer.
pub fn u64_to_string(n: u64) -> (s: String)
    ensures
        s@ == decimal(n as nat),
{
    let v = decimal_chars(n);
    string_from_chars(v.as_slice())
}

/// `x.to_string()` for a signed integer.
pub fn i64_to_string(x: i64) -> (s: String)
    ensures
        s@ == int_decimal(x as int),
{
    let mut s = String::new();
    if x < 0 {
        push_char(&mut s, '-');
        let mag: u64 = (-(x as i128)) as u64;
        let v = decimal_chars(mag);
        push_chars(&mut s, v.as_slice(), 0, v.len());
        assert(v@.subrange(0, v@.len() as int) =~= v@);
        assert(s@ =~= seq!['-'] + decimal((-x) as nat));
    } else {
        let v = decimal_chars(x as u64);
        push_chars(&mut s, v.as_slice(), 0, v.len());
        assert(v@.subrange(0, v@.len() as int) =~= v@);
        assert(s@ =~= decimal(x as nat));
    }
    s
}

} // verus!
