//! Character-level text utilities over `Seq<char>` views: whitespace,
//! trimming, searching, and decimal integers.
use vstd::prelude::*;

verus! {

// ───────────────────────── whitespace ─────────────────────────

/// The Unicode `White_Space` property, as `char::is_whitespace` documents it.
pub open spec fn is_ws(c: char) -> bool {
    let u = c as u32;
    ||| (0x9 <= u && u <= 0xd)
    ||| u == 0x20
    ||| u == 0x85
    ||| u == 0xa0
    ||| u == 0x1680
    ||| (0x2000 <= u && u <= 0x200a)
    ||| u == 0x2028
    ||| u == 0x2029
    ||| u == 0x202f
    ||| u == 0x205f
    ||| u == 0x3000
}

/// Whether `c` is whitespace.
pub fn is_whitespace(c: char) -> (b: bool)
    ensures
        b == is_ws(c),
{
    let u = c as u32;
    (0x9 <= u && u <= 0xd) || u == 0x20 || u == 0x85 || u == 0xa0 || u == 0x1680 || (0x2000 <= u
        && u <= 0x200a) || u == 0x2028 || u == 0x2029 || u == 0x202f || u == 0x205f || u == 0x3000
}

/// The first index at or after `i` whose character is not whitespace (or `s.len()`).
pub open spec fn skip_ws(s: Seq<char>, i: int) -> int
    decreases s.len() - i,
{
    if 0 <= i < s.len() && is_ws(s[i]) {
        skip_ws(s, i + 1)
    } else {
        i
    }
}

/// The end of `s.take(j)` once its trailing whitespace is removed.
pub open spec fn ws_end(s: Seq<char>, j: int) -> int
    decreases j,
{
    if 0 < j <= s.len() && is_ws(s[j - 1]) {
        ws_end(s, j - 1)
    } else {
        j
    }
}

/// `s` without its leading whitespace.
pub open spec fn trim_start(s: Seq<char>) -> Seq<char> {
    s.subrange(skip_ws(s, 0), s.len() as int)
}

/// `s` without its trailing whitespace.
pub open spec fn trim_end(s: Seq<char>) -> Seq<char> {
    s.subrange(0, ws_end(s, s.len() as int))
}

/// `s` without leading and trailing whitespace.
pub open spec fn trim(s: Seq<char>) -> Seq<char> {
    trim_end(trim_start(s))
}

/// Whether `s` holds no whitespace character.
pub open spec fn no_ws(s: Seq<char>) -> bool {
    forall|k: int| 0 <= k < s.len() ==> !is_ws(#[trigger] s[k])
}

pub proof fn lemma_skip_ws(s: Seq<char>, i: int)
    requires
        0 <= i <= s.len(),
    ensures
        i <= skip_ws(s, i) <= s.len(),
        forall|k: int| i <= k < skip_ws(s, i) ==> is_ws(#[trigger] s[k]),
        skip_ws(s, i) < s.len() ==> !is_ws(s[skip_ws(s, i)]),
    decreases s.len() - i,
{
    if i < s.len() && is_ws(s[i]) {
        lemma_skip_ws(s, i + 1);
    }
}

pub proof fn lemma_ws_end(s: Seq<char>, j: int)
    requires
        0 <= j <= s.len(),
    ensures
        0 <= ws_end(s, j) <= j,
        forall|k: int| ws_end(s, j) <= k < j ==> is_ws(#[trigger] s[k]),
        ws_end(s, j) > 0 ==> !is_ws(s[ws_end(s, j) - 1]),
    decreases j,
{
    if 0 < j && is_ws(s[j - 1]) {
        lemma_ws_end(s, j - 1);
    }
}

/// A sequence with no whitespace at either end is its own trim.
pub proof fn lemma_trim_noop(s: Seq<char>)
    requires
        s.len() > 0 ==> !is_ws(s[0]) && !is_ws(s[s.len() - 1]),
    ensures
        trim(s) == s,
        trim_start(s) == s,
        trim_end(s) == s,
{
    assert(s.subrange(0, s.len() as int) =~= s);
}

/// Trailing whitespace before a non-whitespace character at the end.
pub proof fn lemma_trim_end_concat(a: Seq<char>, b: Seq<char>)
    requires
        a.len() > 0,
        !is_ws(a[a.len() - 1]),
        forall|k: int| 0 <= k < b.len() ==> is_ws(#[trigger] b[k]),
    ensures
        trim_end(a + b) == a,
{
    let s = a + b;
    lemma_ws_end(s, s.len() as int);
    let r = ws_end(s, s.len() as int);
    if r > a.len() {
        assert(s[r - 1] == b[r - 1 - a.len()]);
    }
    if r < a.len() {
        assert(s[a.len() - 1] == a[a.len() - 1]);
    }
    assert(s.subrange(0, r) =~= a);
}

/// The index in `v` at or after `i` of the first non-whitespace character.
pub fn skip_ws_from(v: &Vec<char>, i: usize) -> (r: usize)
    requires
        i <= v.len(),
    ensures
        r == skip_ws(v@, i as int),
        i <= r <= v.len(),
{
    let mut j = i;
    while j < v.len() && is_whitespace(v[j])
        invariant
            i <= j <= v.len(),
            skip_ws(v@, j as int) == skip_ws(v@, i as int),
        decreases v.len() - j,
    {
        j = j + 1;
    }
    j
}

/// The elements of `v` from `lo` up to `hi`.
pub fn sub_chars(v: &Vec<char>, lo: usize, hi: usize) -> (r: Vec<char>)
    requires
        lo <= hi <= v.len(),
    ensures
        r@ == v@.subrange(lo as int, hi as int),
{
    let mut r: Vec<char> = Vec::new();
    let mut k = lo;
    while k < hi
        invariant
            lo <= k <= hi <= v.len(),
            r@ == v@.subrange(lo as int, k as int),
        decreases hi - k,
    {
        r.push(v[k]);
        k = k + 1;
        assert(r@ =~= v@.subrange(lo as int, k as int));
    }
    r
}

/// `v` without its leading whitespace.
pub fn trim_start_chars(v: &Vec<char>) -> (r: Vec<char>)
    ensures
        r@ == trim_start(v@),
{
    let start = skip_ws_from(v, 0);
    sub_chars(v, start, v.len())
}

/// `v` without leading and trailing whitespace.
pub fn trim_chars(v: &Vec<char>) -> (r: Vec<char>)
    ensures
        r@ == trim(v@),
{
    let t = trim_start_chars(v);
    let mut j = t.len();
    while j > 0 && is_whitespace(t[j - 1])
        invariant
            j <= t.len(),
            ws_end(t@, j as int) == ws_end(t@, t@.len() as int),
        decreases j,
    {
        j = j - 1;
    }
    sub_chars(&t, 0, j)
}

// ───────────────────────── searching ─────────────────────────

/// The first index at or after `i` that holds `c` (or `s.len()`).
pub open spec fn find_from(s: Seq<char>, c: char, i: int) -> int
    decreases s.len() - i,
{
    if i >= s.len() {
        s.len() as int
    } else if s[i] == c {
        i
    } else {
        find_from(s, c, i + 1)
    }
}

/// The first index of `c` in `s` (or `s.len()` when `c` does not occur).
pub open spec fn find(s: Seq<char>, c: char) -> int {
    find_from(s, c, 0)
}

/// The first index at or after `i` that holds one of `a`, `b`, `c` (or `s.len()`).
pub open spec fn find3_from(s: Seq<char>, a: char, b: char, c: char, i: int) -> int
    decreases s.len() - i,
{
    if i >= s.len() {
        s.len() as int
    } else if s[i] == a || s[i] == b || s[i] == c {
        i
    } else {
        find3_from(s, a, b, c, i + 1)
    }
}

/// The first index in `s` of one of `a`, `b`, `c` (or `s.len()`).
pub open spec fn find3(s: Seq<char>, a: char, b: char, c: char) -> int {
    find3_from(s, a, b, c, 0)
}

/// Whether `c` occurs in `s`.
pub open spec fn has_char(s: Seq<char>, c: char) -> bool {
    exists|k: int| 0 <= k < s.len() && s[k] == c
}

pub proof fn lemma_find_from(s: Seq<char>, c: char, i: int)
    requires
        0 <= i <= s.len(),
    ensures
        i <= find_from(s, c, i) <= s.len(),
        forall|k: int| i <= k < find_from(s, c, i) ==> #[trigger] s[k] != c,
        find_from(s, c, i) < s.len() ==> s[find_from(s, c, i)] == c,
    decreases s.len() - i,
{
    if i < s.len() && s[i] != c {
        lemma_find_from(s, c, i + 1);
    }
}

pub proof fn lemma_find(s: Seq<char>, c: char)
    ensures
        0 <= find(s, c) <= s.len(),
        forall|k: int| 0 <= k < find(s, c) ==> #[trigger] s[k] != c,
        find(s, c) < s.len() ==> s[find(s, c)] == c,
        find(s, c) < s.len() <==> has_char(s, c),
{
    lemma_find_from(s, c, 0);
    if has_char(s, c) {
        let k = choose|k: int| 0 <= k < s.len() && s[k] == c;
        assert(find(s, c) <= k);
    }
}

pub proof fn lemma_find3_from(s: Seq<char>, a: char, b: char, c: char, i: int)
    requires
        0 <= i <= s.len(),
    ensures
        i <= find3_from(s, a, b, c, i) <= s.len(),
        forall|k: int|
            i <= k < find3_from(s, a, b, c, i) ==> #[trigger] s[k] != a && s[k] != b && s[k] != c,
        find3_from(s, a, b, c, i) < s.len() ==> (s[find3_from(s, a, b, c, i)] == a || s[find3_from(
            s,
            a,
            b,
            c,
            i,
        )] == b || s[find3_from(s, a, b, c, i)] == c),
    decreases s.len() - i,
{
    if i < s.len() && !(s[i] == a || s[i] == b || s[i] == c) {
        lemma_find3_from(s, a, b, c, i + 1);
    }
}

/// The index in `v` of the first occurrence of `c` at or after `i` (or `v.len()`).
pub fn find_char_from(v: &Vec<char>, c: char, i: usize) -> (r: usize)
    requires
        i <= v.len(),
    ensures
        r as int == find_from(v@, c, i as int),
        i <= r <= v.len(),
{
    let mut j = i;
    while j < v.len() && v[j] != c
        invariant
            i <= j <= v.len(),
            find_from(v@, c, j as int) == find_from(v@, c, i as int),
        decreases v.len() - j,
    {
        j = j + 1;
    }
    j
}

/// The index in `v` of the first of `a`, `b`, `c` at or after `i` (or `v.len()`).
pub fn find_any3_from(v: &Vec<char>, a: char, b: char, c: char, i: usize) -> (r: usize)
    requires
        i <= v.len(),
    ensures
        r as int == find3_from(v@, a, b, c, i as int),
        i <= r <= v.len(),
{
    let mut j = i;
    while j < v.len() && v[j] != a && v[j] != b && v[j] != c
        invariant
            i <= j <= v.len(),
            find3_from(v@, a, b, c, j as int) == find3_from(v@, a, b, c, i as int),
        decreases v.len() - j,
    {
        j = j + 1;
    }
    j
}

/// Whether `v` starts with the characters of `p`.
pub fn starts_with_chars(v: &Vec<char>, p: &Vec<char>) -> (b: bool)
    ensures
        b == (p@.len() <= v@.len() && v@.subrange(0, p@.len() as int) == p@),
{
    if p.len() > v.len() {
        return false;
    }
    let mut k: usize = 0;
    while k < p.len()
        invariant
            k <= p.len() <= v.len(),
            v@.subrange(0, k as int) == p@.subrange(0, k as int),
        decreases p.len() - k,
    {
        if v[k] != p[k] {
            assert(v@.subrange(0, p@.len() as int)[k as int] != p@[k as int]);
            return false;
        }
        k = k + 1;
        assert(v@.subrange(0, k as int) =~= p@.subrange(0, k as int));
    }
    assert(p@.subrange(0, p@.len() as int) =~= p@);
    true
}

// ───────────────────────── strings ─────────────────────────

/// Whether `a` and `b` hold the same characters.
pub fn same_chars(a: &Vec<char>, b: &Vec<char>) -> (r: bool)
    ensures
        r == (a@ == b@),
{
    if a.len() != b.len() {
        return false;
    }
    let mut k: usize = 0;
    while k < a.len()
        invariant
            k <= a.len() == b.len(),
            forall|j: int| 0 <= j < k ==> a@[j] == b@[j],
        decreases a.len() - k,
    {
        if a[k] != b[k] {
            return false;
        }
        k = k + 1;
    }
    assert(a@ =~= b@);
    true
}


/// Appends `c` to `s`, through `String::push`.
#[verifier::external_body]
pub(crate) fn push_char(s: &mut String, c: char)
    ensures
        final(s)@ == old(s)@.push(c),
{
    s.push(c)
}

/// The characters of `s`, in order.
pub fn chars_of(s: &str) -> (v: Vec<char>)
    ensures
        v@ == s@,
{
    let mut v: Vec<char> = Vec::new();
    for c in it: s.chars()
        invariant
            v@ == it.seq().take(it.index() as int),
            it.seq() == s@,
    {
        v.push(c);
    }
    v
}

/// Appends the characters of `v` to `s`.
pub fn push_chars(s: &mut String, v: &Vec<char>)
    ensures
        final(s)@ == old(s)@ + v@,
{
    let ghost start = s@;
    let mut k: usize = 0;
    while k < v.len()
        invariant
            k <= v.len(),
            s@ == start + v@.subrange(0, k as int),
        decreases v.len() - k,
    {
        push_char(s, v[k]);
        k = k + 1;
        assert(s@ =~= start + v@.subrange(0, k as int));
    }
    assert(v@.subrange(0, v@.len() as int) =~= v@);
}

/// The string whose characters are `v`.
pub fn string_of(v: &Vec<char>) -> (s: String)
    ensures
        s@ == v@,
{
    let mut s = String::new();
    push_chars(&mut s, v);
    assert(s@ =~= v@);
    s
}

/// An owned copy of `s`.
pub fn owned(s: &str) -> (r: String)
    ensures
        r@ == s@,
{
    let v = chars_of(s);
    string_of(&v)
}

/// Appends the characters of `t` to `s`.
pub fn push_str(s: &mut String, t: &str)
    ensures
        final(s)@ == old(s)@ + t@,
{
    let v = chars_of(t);
    push_chars(s, &v);
}

// ───────────────────────── decimal integers ─────────────────────────

/// The ASCII digit for `d < 10`.
pub open spec fn digit_char(d: nat) -> char {
    if d == 0 {
        '0'
    } else if d == 1 {
        '1'
    } else if d == 2 {
        '2'
    } else if d == 3 {
        '3'
    } else if d == 4 {
        '4'
    } else if d == 5 {
        '5'
    } else if d == 6 {
        '6'
    } else if d == 7 {
        '7'
    } else if d == 8 {
        '8'
    } else {
        '9'
    }
}

/// The value of an ASCII digit.
pub open spec fn digit_value(c: char) -> int {
    (c as int) - ('0' as int)
}

/// Whether `c` is an ASCII digit.
pub open spec fn is_digit(c: char) -> bool {
    '0' <= c && c <= '9'
}

/// The shortest decimal digits of `n`.
pub open spec fn digits_of(n: nat) -> Seq<char>
    decreases n,
{
    if n < 10 {
        seq![digit_char(n)]
    } else {
        digits_of(n / 10).push(digit_char(n % 10))
    }
}

/// The decimal text of `n`, as `i64`'s `Display` writes it.
pub open spec fn decimal(n: int) -> Seq<char> {
    if n < 0 {
        seq!['-'] + digits_of((-n) as nat)
    } else {
        digits_of(n as nat)
    }
}

/// The value of a sequence of ASCII digits.
pub open spec fn digits_value(s: Seq<char>) -> int
    decreases s.len(),
{
    if s.len() == 0 {
        0
    } else {
        digits_value(s.drop_last()) * 10 + digit_value(s.last())
    }
}

/// Whether every character of `s` is an ASCII digit.
pub open spec fn all_digits(s: Seq<char>) -> bool {
    forall|k: int| 0 <= k < s.len() ==> is_digit(#[trigger] s[k])
}

/// What `str::parse::<i64>` gives back: an optional sign, then at least one
/// digit, within the range of `i64`; `None` for any other text.
pub open spec fn parse_i64_spec(s: Seq<char>) -> Option<i64> {
    let neg = s.len() > 0 && s[0] == '-';
    let signed = s.len() > 0 && (s[0] == '-' || s[0] == '+');
    let body = if signed {
        s.drop_first()
    } else {
        s
    };
    let v = if neg {
        -digits_value(body)
    } else {
        digits_value(body)
    };
    if body.len() == 0 || !all_digits(body) || v < i64::MIN || v > i64::MAX {
        None
    } else {
        Some(v as i64)
    }
}

pub proof fn lemma_digit_char(d: nat)
    requires
        d < 10,
    ensures
        digit_value(digit_char(d)) == d,
        is_digit(digit_char(d)),
{
}

pub proof fn lemma_digits_of(n: nat)
    ensures
        digits_of(n).len() > 0,
        all_digits(digits_of(n)),
        digits_value(digits_of(n)) == n,
    decreases n,
{
    if n < 10 {
        lemma_digit_char(n);
        assert(digits_of(n).drop_last() =~= Seq::<char>::empty());
        assert(digits_value(Seq::<char>::empty()) == 0);
        assert(digits_value(digits_of(n)) == digits_value(digits_of(n).drop_last()) * 10
            + digit_value(digits_of(n).last()));
    }
    if n >= 10 {
        lemma_digits_of(n / 10);
        let s = digits_of(n);
        assert(s.drop_last() =~= digits_of(n / 10));
        lemma_digit_char(n % 10);
        assert(n == (n / 10) * 10 + n % 10);
        assert(s.last() == digit_char(n % 10));
        assert(digits_value(s) == digits_value(s.drop_last()) * 10 + digit_value(s.last()));
        assert forall|k: int| 0 <= k < s.len() implies is_digit(#[trigger] s[k]) by {
            if k < s.len() - 1 {
                assert(s[k] == digits_of(n / 10)[k]);
            }
        }
    }
}

pub proof fn lemma_digits_value_nonneg(s: Seq<char>)
    requires
        all_digits(s),
    ensures
        digits_value(s) >= 0,
    decreases s.len(),
{
    if s.len() > 0 {
        assert(is_digit(s[s.len() - 1]));
        lemma_digits_value_nonneg(s.drop_last());
    }
}

/// Extending a digit sequence never lowers its value.
pub proof fn lemma_digits_value_prefix(s: Seq<char>, i: int)
    requires
        all_digits(s),
        0 <= i <= s.len(),
    ensures
        digits_value(s.take(i)) <= digits_value(s),
    decreases s.len() - i,
{
    if i < s.len() {
        lemma_digits_value_prefix(s, i + 1);
        let t = s.take(i + 1);
        assert(t.drop_last() =~= s.take(i));
        assert(is_digit(s[i]));
        lemma_digits_value_nonneg(s.take(i));
    } else {
        assert(s.take(i) =~= s);
    }
}

/// Parsing the decimal text of an `i64` gives it back.
pub proof fn lemma_parse_decimal(n: i64)
    ensures
        parse_i64_spec(decimal(n as int)) == Some(n),
{
    let s = decimal(n as int);
    if n < 0 {
        lemma_digits_of((-n) as nat);
        assert(s.drop_first() =~= digits_of((-n) as nat));
    } else {
        lemma_digits_of(n as nat);
        let d = digits_of(n as nat);
        assert(d[0] != '-' && d[0] != '+') by {
            assert(is_digit(d[0]));
        }
    }
}

/// The ASCII digit for `d`.
fn digit_to_char(d: u64) -> (c: char)
    requires
        d < 10,
    ensures
        c == digit_char(d as nat),
{
    match d {
        0 => '0',
        1 => '1',
        2 => '2',
        3 => '3',
        4 => '4',
        5 => '5',
        6 => '6',
        7 => '7',
        8 => '8',
        _ => '9',
    }
}

/// Appends the decimal digits of `m` to `out`.
fn push_digits(out: &mut Vec<char>, m: u64)
    ensures
        final(out)@ == old(out)@ + digits_of(m as nat),
    decreases m,
{
    if m >= 10 {
        push_digits(out, m / 10);
    }
    let c = digit_to_char(m % 10);
    out.push(c);
    assert(out@ =~= old(out)@ + digits_of(m as nat));
}

/// The decimal digits of `n`, as `u64`'s `Display` writes them.
pub fn decimal_u64_chars(n: u64) -> (v: Vec<char>)
    ensures
        v@ == digits_of(n as nat),
{
    let mut v: Vec<char> = Vec::new();
    push_digits(&mut v, n);
    assert(v@ =~= digits_of(n as nat));
    v
}

/// The decimal text of `n`, as `i64`'s `Display` writes it.
pub fn decimal_chars(n: i64) -> (v: Vec<char>)
    ensures
        v@ == decimal(n as int),
{
    let mut v: Vec<char> = Vec::new();
    if n < 0 {
        v.push('-');
        let m: u64 = (-(n as i128)) as u64;
        push_digits(&mut v, m);
    } else {
        push_digits(&mut v, n as u64);
    }
    assert(v@ =~= decimal(n as int));
    v
}

/// `str::parse::<i64>` on the characters of `v`.
pub fn parse_i64(v: &Vec<char>) -> (r: Option<i64>)
    ensures
        r == parse_i64_spec(v@),
{
    let n = v.len();
    let neg = n > 0 && v[0] == '-';
    let signed = n > 0 && (v[0] == '-' || v[0] == '+');
    let start: usize = if signed {
        1
    } else {
        0
    };
    let ghost body = if signed {
        v@.drop_first()
    } else {
        v@
    };
    assert(body =~= v@.subrange(start as int, n as int));
    if start == n {
        return None;
    }
    let limit: i128 = if neg {
        0x8000_0000_0000_0000
    } else {
        0x7fff_ffff_ffff_ffff
    };
    let mut acc: i128 = 0;
    let mut k = start;
    while k < n
        invariant
            start <= k <= n == v.len(),
            body == v@.subrange(start as int, n as int),
            all_digits(body.take(k - start)),
            acc == digits_value(body.take(k - start)),
            0 <= acc <= limit,
            neg == (v@.len() > 0 && v@[0] == '-'),
            signed == (v@.len() > 0 && (v@[0] == '-' || v@[0] == '+')),
            start == (if signed {
                1int
            } else {
                0int
            }),
            body == (if signed {
                v@.drop_first()
            } else {
                v@
            }),
            limit == (if neg {
                0x8000_0000_0000_0000int
            } else {
                0x7fff_ffff_ffff_ffffint
            }),
        decreases n - k,
    {
        let c = v[k];
        if !('0' <= c && c <= '9') {
            proof {
                assert(body[k - start] == c);
                assert(!all_digits(body));
            }
            return None;
        }
        let d = (c as u32 - '0' as u32) as i128;
        let ghost prev = body.take(k - start);
        let ghost next = body.take(k - start + 1);
        assert(next.drop_last() =~= prev);
        assert(next.last() == c);
        acc = acc * 10 + d;
        k = k + 1;
        assert(all_digits(next)) by {
            assert forall|j: int| 0 <= j < next.len() implies is_digit(#[trigger] next[j]) by {
                if j < next.len() - 1 {
                    assert(next[j] == prev[j]);
                }
            }
        }
        if acc > limit {
            proof {
                if all_digits(body) {
                    lemma_digits_value_prefix(body, k - start);
                }
            }
            return None;
        }
    }
    assert(body.take(n - start) =~= body);
    if neg {
        Some((-acc) as i64)
    } else {
        Some(acc as i64)
    }
}

// ───────────────────────── paths ─────────────────────────

/// `base` joined with `rel`, as `Path::join` does on Unix: an absolute `rel`
/// replaces `base`; otherwise a `/` separates them unless `base` is empty or
/// already ends with one.
pub open spec fn path_join_spec(base: Seq<char>, rel: Seq<char>) -> Seq<char> {
    if rel.len() > 0 && rel[0] == '/' {
        rel
    } else if base.len() == 0 || base[base.len() - 1] == '/' {
        base + rel
    } else {
        base + seq!['/'] + rel
    }
}

/// `base` joined with `rel` (see [`path_join_spec`]).
pub fn path_join(base: &str, rel: &str) -> (r: String)
    ensures
        r@ == path_join_spec(base@, rel@),
{
    let b = chars_of(base);
    let rv = chars_of(rel);
    if rv.len() > 0 && rv[0] == '/' {
        return string_of(&rv);
    }
    let mut s = string_of(&b);
    if !(b.len() == 0 || b[b.len() - 1] == '/') {
        push_char(&mut s, '/');
    }
    push_chars(&mut s, &rv);
    s
}

} // verus!
