//! Character-level helpers shared by the filter, path and identity rules.
use vstd::prelude::*;

verus! {

/// Unicode `White_Space`, the set that `char::is_whitespace` (and so
/// `str::trim`) tests for.
pub open spec fn is_ws(c: char) -> bool {
    let n = c as u32;
    ||| 0x09 <= n <= 0x0D
    ||| n == 0x20
    ||| n == 0x85
    ||| n == 0xA0
    ||| n == 0x1680
    ||| 0x2000 <= n <= 0x200A
    ||| n == 0x2028
    ||| n == 0x2029
    ||| n == 0x202F
    ||| n == 0x205F
    ||| n == 0x3000
}

/// `s` with its leading whitespace removed, as `str::trim_start` gives it.
pub open spec fn trim_start(s: Seq<char>) -> Seq<char>
    decreases s.len(),
{
    if s.len() > 0 && is_ws(s[0]) {
        trim_start(s.drop_first())
    } else {
        s
    }
}

/// `s` with its trailing whitespace removed, as `str::trim_end` gives it.
pub open spec fn trim_end(s: Seq<char>) -> Seq<char>
    decreases s.len(),
{
    if s.len() > 0 && is_ws(s.last()) {
        trim_end(s.drop_last())
    } else {
        s
    }
}

/// `str::trim`.
pub open spec fn trim(s: Seq<char>) -> Seq<char> {
    trim_end(trim_start(s))
}

pub open spec fn all_ws(s: Seq<char>) -> bool {
    forall|i: int| 0 <= i < s.len() ==> is_ws(#[trigger] s[i])
}

pub proof fn lemma_trim_start_empty(s: Seq<char>)
    ensures
        (trim_start(s).len() == 0) == all_ws(s),
        trim_start(s).len() > 0 ==> !is_ws(trim_start(s)[0]),
        trim_start(s).len() <= s.len(),
        trim_start(s) == s.subrange(s.len() - trim_start(s).len(), s.len() as int),
    decreases s.len(),
{
    if s.len() > 0 && is_ws(s[0]) {
        lemma_trim_start_empty(s.drop_first());
        assert forall|i: int| 0 <= i < s.len() && all_ws(s.drop_first()) implies is_ws(
            #[trigger] s[i],
        ) by {
            if i > 0 {
                assert(s[i] == s.drop_first()[i - 1]);
            }
        }
        let t = s.drop_first();
        assert(t.subrange(t.len() - trim_start(t).len(), t.len() as int) =~= s.subrange(
            s.len() - trim_start(t).len(),
            s.len() as int,
        ));
    } else {
        assert(s.subrange(0, s.len() as int) =~= s);
    }
}

pub proof fn lemma_trim_end_shape(s: Seq<char>)
    ensures
        (trim_end(s).len() == 0) == all_ws(s),
        trim_end(s).len() > 0 ==> !is_ws(trim_end(s).last()),
        trim_end(s).len() <= s.len(),
        trim_end(s) == s.subrange(0, trim_end(s).len() as int),
    decreases s.len(),
{
    if s.len() > 0 && is_ws(s.last()) {
        lemma_trim_end_shape(s.drop_last());
        assert forall|i: int| 0 <= i < s.len() && all_ws(s.drop_last()) implies is_ws(
            #[trigger] s[i],
        ) by {
            if i < s.len() - 1 {
                assert(s[i] == s.drop_last()[i]);
            }
        }
        let t = s.drop_last();
        assert(t.subrange(0, trim_end(t).len() as int) =~= s.subrange(
            0,
            trim_end(t).len() as int,
        ));
    } else {
        assert(s.subrange(0, s.len() as int) =~= s);
    }
}

/// What `str::trim` leaves says exactly when a row is blank and when it
/// carries padding at either end.
pub proof fn lemma_trim_facts(s: Seq<char>)
    ensures
        (trim(s).len() == 0) == all_ws(s),
        (trim(s) == s) == (s.len() == 0 || (!is_ws(s[0]) && !is_ws(s.last()))),
{
    lemma_trim_start_empty(s);
    let a = trim_start(s);
    lemma_trim_end_shape(a);
    if all_ws(s) {
        assert(a.len() == 0);
        assert(trim_end(a).len() == 0);
    } else {
        assert(a.len() > 0);
        assert forall|i: int| 0 <= i < a.len() implies is_ws(#[trigger] a[i]) == is_ws(
            s[s.len() - a.len() + i],
        ) by {}
        if all_ws(a) {
            assert(is_ws(a[0]));
            assert(false);
        }
    }
    if s.len() > 0 && !is_ws(s[0]) && !is_ws(s.last()) {
        assert(a == s);
        assert(trim_end(a) == a);
    }
    if trim(s) == s && s.len() > 0 {
        if is_ws(s[0]) {
            assert(a.len() < s.len());
        } else {
            assert(a == s);
            if is_ws(s.last()) {
                assert(trim_end(a).len() < a.len());
            }
        }
    }
}

/// `char::is_whitespace`.
pub fn is_whitespace(c: char) -> (r: bool)
    ensures
        r == is_ws(c),
{
    let n = c as u32;
    (0x09 <= n && n <= 0x0D) || n == 0x20 || n == 0x85 || n == 0xA0 || n == 0x1680 || (0x2000
        <= n && n <= 0x200A) || n == 0x2028 || n == 0x2029 || n == 0x202F || n == 0x205F || n
        == 0x3000
}

/// The characters of a string, in order.
pub fn char_vec(s: &str) -> (v: Vec<char>)
    ensures
        v@ == s@,
{
    broadcast use vstd::string::axiom_spec_iter;

    let mut v: Vec<char> = Vec::new();
    for c in it: s.chars()
        invariant
            it.seq() == s@,
            v@ == it.seq().take(it.index() as int),
    {
        v.push(c);
    }
    v
}

/// The string made of the given characters: `String::from_iter` over them
/// (through `Iterator::collect`).
#[verifier::external_body]
pub(crate) fn string_from_chars(v: &Vec<char>) -> (s: String)
    ensures
        s@ == v@,
{
    v.iter().collect()
}

/// `s.contains(c)`.
pub fn contains_char(s: &str, c: char) -> (r: bool)
    ensures
        r == s@.contains(c),
{
    let v = char_vec(s);
    let mut i: usize = 0;
    while i < v.len()
        invariant
            v@ == s@,
            i <= v.len(),
            forall|j: int| 0 <= j < i ==> v@[j] != c,
        decreases v.len() - i,
    {
        if v[i] == c {
            return true;
        }
        i = i + 1;
    }
    false
}

/// Whether `s` is empty after `str::trim`.
pub fn is_blank(s: &str) -> (r: bool)
    ensures
        r == (trim(s@).len() == 0),
{
    proof {
        lemma_trim_facts(s@);
    }
    let v = char_vec(s);
    let mut i: usize = 0;
    while i < v.len()
        invariant
            v@ == s@,
            i <= v.len(),
            forall|j: int| 0 <= j < i ==> is_ws(#[trigger] v@[j]),
        decreases v.len() - i,
    {
        if !is_whitespace(v[i]) {
            assert(!is_ws(s@[i as int]));
            assert(!all_ws(s@));
            proof { lemma_trim_facts(s@); }
            return false;
        }
        i = i + 1;
    }
    true
}

/// Whether `s` equals `s.trim()`: it has no whitespace at either end.
pub fn is_trimmed(s: &str) -> (r: bool)
    ensures
        r == (trim(s@) == s@),
{
    proof {
        lemma_trim_facts(s@);
    }
    let v = char_vec(s);
    if v.len() == 0 {
        return true;
    }
    !is_whitespace(v[0]) && !is_whitespace(v[v.len() - 1])
}

/// Whether `s` begins with `prefix`.
pub open spec fn has_prefix(s: Seq<char>, prefix: Seq<char>) -> bool {
    prefix.len() <= s.len() && s.subrange(0, prefix.len() as int) == prefix
}

pub fn starts_with(s: &str, prefix: &str) -> (r: bool)
    ensures
        r == has_prefix(s@, prefix@),
{
    let v = char_vec(s);
    let p = char_vec(prefix);
    if p.len() > v.len() {
        return false;
    }
    let mut i: usize = 0;
    while i < p.len()
        invariant
            v@ == s@,
            p@ == prefix@,
            p.len() <= v.len(),
            i <= p.len(),
            forall|j: int| 0 <= j < i ==> v@[j] == p@[j],
        decreases p.len() - i,
    {
        if v[i] != p[i] {
            assert(s@.subrange(0, prefix@.len() as int)[i as int] != prefix@[i as int]);
            return false;
        }
        i = i + 1;
    }
    assert(s@.subrange(0, prefix@.len() as int) =~= prefix@);
    true
}

/// Whether two strings hold the same characters.
pub fn same_text(a: &str, b: &str) -> (r: bool)
    ensures
        r == (a@ == b@),
{
    let v = char_vec(a);
    let w = char_vec(b);
    if v.len() != w.len() {
        return false;
    }
    let mut i: usize = 0;
    while i < v.len()
        invariant
            v@ == a@,
            w@ == b@,
            v.len() == w.len(),
            i <= v.len(),
            forall|j: int| 0 <= j < i ==> v@[j] == w@[j],
        decreases v.len() - i,
    {
        if v[i] != w[i] {
            return false;
        }
        i = i + 1;
    }
    assert(a@ =~= b@);
    true
}

/// A copy of a string with the same characters.
pub fn copy_text(s: &str) -> (r: String)
    ensures
        r@ == s@,
{
    let v = char_vec(s);
    string_from_chars(&v)
}

/// Concatenation of two strings.
pub fn concat(a: &str, b: &str) -> (r: String)
    ensures
        r@ == a@ + b@,
{
    let mut v = char_vec(a);
    let w = char_vec(b);
    let mut i: usize = 0;
    while i < w.len()
        invariant
            w@ == b@,
            i <= w.len(),
            v@ == a@ + b@.subrange(0, i as int),
        decreases w.len() - i,
    {
        v.push(w[i]);
        i = i + 1;
        assert(a@ + b@.subrange(0, i as int) =~= (a@ + b@.subrange(0, (i - 1) as int)).push(
            b@[i - 1],
        ));
    }
    assert(b@.subrange(0, b@.len() as int) =~= b@);
    string_from_chars(&v)
}

/// `str::trim`.
pub fn trim_text(s: &str) -> (r: String)
    ensures
        r@ == trim(s@),
{
    let v = char_vec(s);
    let n = v.len();
    let mut start: usize = 0;
    assert(s@.skip(0) =~= s@);
    while start < n && is_whitespace(v[start])
        invariant
            start <= n,
            n == v@.len(),
            v@ == s@,
            trim_start(s@) == trim_start(s@.skip(start as int)),
        decreases n - start,
    {
        assert(s@.skip(start as int).drop_first() =~= s@.skip(start + 1));
        start = start + 1;
    }
    let ghost a = s@.skip(start as int);
    assert(trim_start(a) == a) by {
        if start < n {
            assert(a[0] == v@[start as int]);
        } else {
            assert(a.len() == 0);
        }
    }
    let mut end: usize = n;
    assert(a.take(n - start) =~= a);
    while end > start && is_whitespace(v[end - 1])
        invariant
            start <= end <= n,
            n == v@.len(),
            v@ == s@,
            a == s@.skip(start as int),
            trim_end(a) == trim_end(a.take(end - start)),
        decreases end,
    {
        assert(a.take(end - start).drop_last() =~= a.take(end - start - 1));
        assert(a.take(end - start).last() == v@[end - 1]);
        end = end - 1;
    }
    assert(trim_end(a.take(end - start)) == a.take(end - start)) by {
        if end > start {
            assert(a.take(end - start).last() == v@[end - 1]);
        } else {
            assert(a.take(0).len() == 0);
        }
    }
    let mut out: Vec<char> = Vec::new();
    let mut k: usize = start;
    while k < end
        invariant
            start <= k <= end <= n,
            n == v@.len(),
            out@ == v@.subrange(start as int, k as int),
        decreases end - k,
    {
        out.push(v[k]);
        k = k + 1;
        assert(out@ =~= v@.subrange(start as int, k as int));
    }
    assert(out@ =~= a.take(end - start));
    string_from_chars(&out)
}

/// `a`, then `x`, then `b`.
pub fn concat3(a: &str, x: &str, b: &str) -> (r: String)
    ensures
        r@ == a@ + x@ + b@,
{
    let ax = concat(a, x);
    concat(ax.as_str(), b)
}

/// Whether a list of strings holds one with the same characters as `s`.
pub fn contains_text(v: &Vec<String>, s: &str) -> (r: bool)
    ensures
        r == v@.map_values(|t: String| t@).contains(s@),
{
    let ghost tv = v@.map_values(|t: String| t@);
    let mut i: usize = 0;
    while i < v.len()
        invariant
            i <= v.len(),
            tv == v@.map_values(|t: String| t@),
            forall|j: int| 0 <= j < i ==> tv[j] != s@,
        decreases v.len() - i,
    {
        if same_text(v[i].as_str(), s) {
            assert(tv[i as int] == s@);
            return true;
        }
        i = i + 1;
    }
    false
}

/// `s` with every leading and trailing `c` removed (`str::trim_matches(c)`).
pub open spec fn strip_start(s: Seq<char>, c: char) -> Seq<char>
    decreases s.len(),
{
    if s.len() > 0 && s[0] == c {
        strip_start(s.drop_first(), c)
    } else {
        s
    }
}

pub open spec fn strip_end(s: Seq<char>, c: char) -> Seq<char>
    decreases s.len(),
{
    if s.len() > 0 && s.last() == c {
        strip_end(s.drop_last(), c)
    } else {
        s
    }
}

pub open spec fn trim_matches(s: Seq<char>, c: char) -> Seq<char> {
    strip_end(strip_start(s, c), c)
}

pub proof fn lemma_strip_start_shape(s: Seq<char>, c: char)
    ensures
        strip_start(s, c).len() == 0 || strip_start(s, c)[0] != c,
        strip_start(s, c).len() <= s.len(),
        strip_start(s, c) == s.subrange(s.len() - strip_start(s, c).len(), s.len() as int),
    decreases s.len(),
{
    if s.len() > 0 && s[0] == c {
        lemma_strip_start_shape(s.drop_first(), c);
        let t = s.drop_first();
        assert(t.subrange(t.len() - strip_start(t, c).len(), t.len() as int) =~= s.subrange(
            s.len() - strip_start(t, c).len(),
            s.len() as int,
        ));
    } else {
        assert(s.subrange(0, s.len() as int) =~= s);
    }
}

pub proof fn lemma_strip_end_shape(s: Seq<char>, c: char)
    ensures
        strip_end(s, c).len() == 0 || strip_end(s, c).last() != c,
        strip_end(s, c).len() <= s.len(),
        strip_end(s, c) == s.subrange(0, strip_end(s, c).len() as int),
    decreases s.len(),
{
    if s.len() > 0 && s.last() == c {
        lemma_strip_end_shape(s.drop_last(), c);
        let t = s.drop_last();
        assert(t.subrange(0, strip_end(t, c).len() as int) =~= s.subrange(0, strip_end(t, c).len() as int));
    } else {
        assert(s.subrange(0, s.len() as int) =~= s);
    }
}

/// What `trim_matches` leaves neither starts nor ends with `c`, and a text
/// that neither starts nor ends with `c` is left as it is.
pub proof fn lemma_trim_matches_shape(s: Seq<char>, c: char)
    ensures
        trim_matches(s, c).len() == 0 || (trim_matches(s, c)[0] != c && trim_matches(s, c).last() != c),
        (s.len() == 0 || (s[0] != c && s.last() != c)) ==> trim_matches(s, c) == s,
{
    let a = strip_start(s, c);
    lemma_strip_start_shape(s, c);
    lemma_strip_end_shape(a, c);
    let r = strip_end(a, c);
    if r.len() > 0 {
        assert(r[0] == a[0]);
    }
}

proof fn lemma_strip_start_index(s: Seq<char>, c: char, i: int)
    requires
        0 <= i <= s.len(),
        forall|j: int| 0 <= j < i ==> s[j] == c,
    ensures
        strip_start(s, c) == strip_start(s.subrange(i, s.len() as int), c),
    decreases i,
{
    if i > 0 {
        assert(s.drop_first().subrange(i - 1, s.drop_first().len() as int) =~= s.subrange(
            i,
            s.len() as int,
        ));
        lemma_strip_start_index(s.drop_first(), c, i - 1);
    } else {
        assert(s.subrange(0, s.len() as int) =~= s);
    }
}

proof fn lemma_strip_end_index(s: Seq<char>, c: char, e: int)
    requires
        0 <= e <= s.len(),
        forall|j: int| e <= j < s.len() ==> s[j] == c,
    ensures
        strip_end(s, c) == strip_end(s.subrange(0, e), c),
    decreases s.len() - e,
{
    if e < s.len() {
        assert(s.drop_last().subrange(0, e) =~= s.subrange(0, e));
        lemma_strip_end_index(s.drop_last(), c, e);
    } else {
        assert(s.subrange(0, s.len() as int) =~= s);
    }
}

/// The characters of `s` with every leading and trailing `c` removed.
pub fn trim_char_vec(v: &Vec<char>, c: char) -> (r: Vec<char>)
    ensures
        r@ == trim_matches(v@, c),
{
    let mut start: usize = 0;
    while start < v.len() && v[start] == c
        invariant
            start <= v.len(),
            forall|j: int| 0 <= j < start ==> v@[j] == c,
        decreases v.len() - start,
    {
        start = start + 1;
    }
    proof {
        lemma_strip_start_index(v@, c, start as int);
    }
    let ghost rest = v@.subrange(start as int, v.len() as int);
    assert(strip_start(rest, c) == rest);
    let mut end: usize = v.len();
    while end > start && v[end - 1] == c
        invariant
            start <= end <= v.len(),
            forall|j: int| end <= j < v.len() ==> v@[j] == c,
        decreases end,
    {
        end = end - 1;
    }
    proof {
        lemma_strip_end_index(rest, c, (end - start) as int);
        assert(rest.subrange(0, (end - start) as int) =~= v@.subrange(start as int, end as int));
    }
    let mut out: Vec<char> = Vec::new();
    let mut i: usize = start;
    while i < end
        invariant
            start <= i <= end <= v.len(),
            out@ == v@.subrange(start as int, i as int),
        decreases end - i,
    {
        out.push(v[i]);
        i = i + 1;
        assert(out@ =~= v@.subrange(start as int, i as int));
    }
    out
}

/// `s.trim_matches(c)`.
pub fn trim_char(s: &str, c: char) -> (r: String)
    ensures
        r@ == trim_matches(s@, c),
{
    let v = char_vec(s);
    let t = trim_char_vec(&v, c);
    string_from_chars(&t)
}

// ---------------------------------------------------------------------------
// Numbers written out as text.
pub open spec fn digit_char(d: int) -> char {
    seq!['0', '1', '2', '3', '4', '5', '6', '7', '8', '9', 'a', 'b', 'c', 'd', 'e', 'f'][d]
}

/// The decimal digits of `n`, most significant first, with no padding.
pub open spec fn decimal_digits(n: nat) -> Seq<char>
    decreases n,
{
    if n < 10 {
        seq![digit_char(n as int)]
    } else {
        decimal_digits(n / 10).push(digit_char((n % 10) as int))
    }
}

/// `n.to_string()` for a signed integer.
pub open spec fn decimal(n: int) -> Seq<char> {
    if n < 0 {
        seq!['-'] + decimal_digits((-n) as nat)
    } else {
        decimal_digits(n as nat)
    }
}

/// `n` as exactly `width` lower-case hexadecimal digits, zero-padded on the
/// left (the low `4 * width` bits).
pub open spec fn hex_digits(n: nat, width: nat) -> Seq<char>
    decreases width,
{
    if width == 0 {
        Seq::empty()
    } else {
        hex_digits(n / 16, (width - 1) as nat).push(digit_char((n % 16) as int))
    }
}

pub proof fn lemma_hex_len(n: nat, width: nat)
    ensures
        hex_digits(n, width).len() == width,
    decreases width,
{
    if width > 0 {
        lemma_hex_len(n / 16, (width - 1) as nat);
    }
}

/// The value of a lowercase hexadecimal digit.
pub open spec fn digit_value(c: char) -> int {
    if '0' <= c <= '9' {
        c as int - '0' as int
    } else {
        c as int - 'a' as int + 10
    }
}

pub proof fn lemma_digit_value(d: int)
    requires
        0 <= d < 16,
    ensures
        digit_value(digit_char(d)) == d,
{
    let t = seq!['0', '1', '2', '3', '4', '5', '6', '7', '8', '9', 'a', 'b', 'c', 'd', 'e', 'f'];
    assert(digit_char(d) == t[d]);
    if d == 0 {
        assert(t[0] == '0');
    } else if d == 1 {
        assert(t[1] == '1');
    } else if d == 2 {
        assert(t[2] == '2');
    } else if d == 3 {
        assert(t[3] == '3');
    } else if d == 4 {
        assert(t[4] == '4');
    } else if d == 5 {
        assert(t[5] == '5');
    } else if d == 6 {
        assert(t[6] == '6');
    } else if d == 7 {
        assert(t[7] == '7');
    } else if d == 8 {
        assert(t[8] == '8');
    } else if d == 9 {
        assert(t[9] == '9');
    } else if d == 10 {
        assert(t[10] == 'a');
    } else if d == 11 {
        assert(t[11] == 'b');
    } else if d == 12 {
        assert(t[12] == 'c');
    } else if d == 13 {
        assert(t[13] == 'd');
    } else if d == 14 {
        assert(t[14] == 'e');
    } else {
        assert(t[15] == 'f');
    }
}

pub open spec fn pow16(w: nat) -> nat
    decreases w,
{
    if w == 0 {
        1
    } else {
        16 * pow16((w - 1) as nat)
    }
}

/// Fixed-width hexadecimal text determines a number below `16^width`.
pub proof fn lemma_hex_injective(n: nat, m: nat, width: nat)
    requires
        n < pow16(width),
        m < pow16(width),
        hex_digits(n, width) == hex_digits(m, width),
    ensures
        n == m,
    decreases width,
{
    if width > 0 {
        let w1 = (width - 1) as nat;
        let p = pow16(w1);
        assert(hex_digits(n, width).drop_last() =~= hex_digits(n / 16, w1));
        assert(hex_digits(m, width).drop_last() =~= hex_digits(m / 16, w1));
        assert(n / 16 < p && m / 16 < p) by (nonlinear_arith)
            requires
                n < 16 * p,
                m < 16 * p,
        ;
        lemma_hex_injective(n / 16, m / 16, w1);
        lemma_digit_value((n % 16) as int);
        lemma_digit_value((m % 16) as int);
        assert(hex_digits(n, width).last() == digit_char((n % 16) as int));
        assert(hex_digits(m, width).last() == digit_char((m % 16) as int));
        assert(n == 16 * (n / 16) + n % 16) by (nonlinear_arith);
        assert(m == 16 * (m / 16) + m % 16) by (nonlinear_arith);
    }
}

fn digit_of(d: u64) -> (c: char)
    requires
        d < 16,
    ensures
        c == digit_char(d as int),
{
    let table = ['0', '1', '2', '3', '4', '5', '6', '7', '8', '9', 'a', 'b', 'c', 'd', 'e', 'f'];
    assert(table@ =~= seq!['0', '1', '2', '3', '4', '5', '6', '7', '8', '9', 'a', 'b', 'c', 'd', 'e', 'f']);
    table[d as usize]
}

fn push_decimal(v: &mut Vec<char>, n: u64)
    ensures
        final(v)@ == old(v)@ + decimal_digits(n as nat),
    decreases n,
{
    if n >= 10 {
        push_decimal(v, n / 10);
    }
    let d = digit_of(n % 10);
    v.push(d);
    assert(final(v)@ =~= old(v)@ + decimal_digits(n as nat));
}

/// The decimal text of `n`.
pub fn decimal_chars(n: i64) -> (r: Vec<char>)
    ensures
        r@ == decimal(n as int),
{
    let mut v: Vec<char> = Vec::new();
    if n < 0 {
        v.push('-');
        let m: i128 = -(n as i128);
        push_decimal(&mut v, m as u64);
        assert(v@ =~= seq!['-'] + decimal_digits((-n) as nat));
    } else {
        push_decimal(&mut v, n as u64);
        assert(v@ =~= decimal_digits(n as nat));
    }
    v
}

/// `n.to_string()`.
pub fn decimal_string(n: i64) -> (r: String)
    ensures
        r@ == decimal(n as int),
{
    let v = decimal_chars(n);
    string_from_chars(&v)
}

fn push_hex(v: &mut Vec<char>, n: u64, width: u64)
    ensures
        final(v)@ == old(v)@ + hex_digits(n as nat, width as nat),
    decreases width,
{
    if width > 0 {
        push_hex(v, n / 16, width - 1);
        let d = digit_of(n % 16);
        v.push(d);
        assert(final(v)@ =~= old(v)@ + hex_digits(n as nat, width as nat));
    } else {
        assert(final(v)@ =~= old(v)@ + hex_digits(n as nat, width as nat));
    }
}

/// `format!("{n:016x}")`.
pub fn hex16_chars(n: u64) -> (r: Vec<char>)
    ensures
        r@ == hex_digits(n as nat, 16),
        r@.len() == 16,
{
    let mut v: Vec<char> = Vec::new();
    push_hex(&mut v, n, 16);
    proof {
        lemma_hex_len(n as nat, 16);
    }
    assert(v@ =~= hex_digits(n as nat, 16));
    v
}

} // verus!
