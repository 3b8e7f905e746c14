//! Character and byte helpers shared by the protocol parsers: trimming,
//! ASCII case folding, substring search and decimal numbers.
use vstd::prelude::*;

verus! {

/// `char::is_whitespace`: the Unicode White_Space property.
pub open spec fn is_white(c: char) -> bool {
    let u = c as u32;
    u == 0x20 || (0x09 <= u && u <= 0x0d) || u == 0x85 || u == 0xa0 || u == 0x1680 || (0x2000
        <= u && u <= 0x200a) || u == 0x2028 || u == 0x2029 || u == 0x202f || u == 0x205f || u
        == 0x3000
}

/// Leading white space removed.
pub open spec fn trim_start(s: Seq<char>) -> Seq<char>
    decreases s.len(),
{
    if s.len() > 0 && is_white(s[0]) {
        trim_start(s.drop_first())
    } else {
        s
    }
}

/// Trailing white space removed.
pub open spec fn trim_end(s: Seq<char>) -> Seq<char>
    decreases s.len(),
{
    if s.len() > 0 && is_white(s.last()) {
        trim_end(s.drop_last())
    } else {
        s
    }
}

/// `str::trim`.
pub open spec fn trim(s: Seq<char>) -> Seq<char> {
    trim_end(trim_start(s))
}

/// `char::to_ascii_lowercase`.
pub open spec fn lower_char(c: char) -> char {
    if 'A' <= c && c <= 'Z' {
        ((c as u32) + 32) as char
    } else {
        c
    }
}

/// `str::to_ascii_lowercase`.
pub open spec fn ascii_lower(s: Seq<char>) -> Seq<char> {
    s.map_values(|c: char| lower_char(c))
}

/// `needle` occurs in `hay` starting at `i`.
pub open spec fn occurs_at<T>(hay: Seq<T>, needle: Seq<T>, i: int) -> bool {
    0 <= i && i + needle.len() <= hay.len() && hay.subrange(i, i + needle.len()) == needle
}

/// `needle` occurs somewhere in `hay`.
pub open spec fn seq_contains<T>(hay: Seq<T>, needle: Seq<T>) -> bool {
    exists|i: int| occurs_at(hay, needle, i)
}

/// The characters of a string, in order.
pub fn chars_of(s: &str) -> (v: Vec<char>)
    ensures
        v@ == s@,
{
    let mut v: Vec<char> = Vec::new();
    for c in it: s.chars()
        invariant
            v@ == it.seq().take(it.index() as int),
            it.seq() == s@,
    {
        v.push(c);
    }
    v
}


/// `char::is_whitespace`.
pub fn is_white_char(c: char) -> (r: bool)
    ensures
        r == is_white(c),
{
    let u = c as u32;
    u == 0x20 || (0x09 <= u && u <= 0x0d) || u == 0x85 || u == 0xa0 || u == 0x1680 || (0x2000
        <= u && u <= 0x200a) || u == 0x2028 || u == 0x2029 || u == 0x202f || u == 0x205f || u
        == 0x3000
}

proof fn lemma_trim_start_skip(s: Seq<char>, i: int)
    requires
        0 <= i <= s.len(),
        forall|k: int| 0 <= k < i ==> is_white(#[trigger] s[k]),
    ensures
        trim_start(s) == trim_start(s.subrange(i, s.len() as int)),
    decreases i,
{
    if i > 0 {
        assert(s.drop_first().subrange(i - 1, s.drop_first().len() as int) =~= s.subrange(
            i,
            s.len() as int,
        ));
        lemma_trim_start_skip(s.drop_first(), i - 1);
    } else {
        assert(s.subrange(0, s.len() as int) =~= s);
    }
}

proof fn lemma_trim_end_skip(s: Seq<char>, j: int)
    requires
        0 <= j <= s.len(),
        forall|k: int| j <= k < s.len() ==> is_white(#[trigger] s[k]),
    ensures
        trim_end(s) == trim_end(s.subrange(0, j)),
    decreases s.len() - j,
{
    if j < s.len() {
        assert(s.drop_last().subrange(0, j) =~= s.subrange(0, j));
        lemma_trim_end_skip(s.drop_last(), j);
    } else {
        assert(s.subrange(0, j) =~= s);
    }
}

/// `str::trim` on a character sequence.
#[verifier::spinoff_prover]
pub fn trim_chars(v: &[char]) -> (r: Vec<char>)
    ensures
        r@ == trim(v@),
{
    let n = v.len();
    let mut i: usize = 0;
    while i < n && is_white_char(v[i])
        invariant
            i <= n == v@.len(),
            forall|k: int| 0 <= k < i ==> is_white(#[trigger] v@[k]),
        decreases n - i,
    {
        i = i + 1;
    }
    let mut j: usize = n;
    while j > i && is_white_char(v[j - 1])
        invariant
            i <= j <= n == v@.len(),
            forall|k: int| j <= k < n ==> is_white(#[trigger] v@[k]),
        decreases j,
    {
        j = j - 1;
    }
    proof {
        lemma_trim_start_skip(v@, i as int);
        let t = v@.subrange(i as int, n as int);
        if i < n {
            assert(t[0] == v@[i as int]);
        }
        assert(trim_start(t) == t);
        lemma_trim_end_skip(t, (j - i) as int);
        assert(t.subrange(0, (j - i) as int) =~= v@.subrange(i as int, j as int));
        let u = v@.subrange(i as int, j as int);
        if j > i {
            assert(u.last() == v@[j - 1]);
        }
        assert(trim_end(u) == u);
    }
    let mut r: Vec<char> = Vec::new();
    let mut k: usize = i;
    while k < j
        invariant
            i <= k <= j <= n == v@.len(),
            r@ == v@.subrange(i as int, k as int),
        decreases j - k,
    {
        r.push(v[k]);
        k = k + 1;
        assert(r@ =~= v@.subrange(i as int, k as int));
    }
    r
}

/// `char::to_ascii_lowercase`.
pub fn lower_char_exec(c: char) -> (r: char)
    ensures
        r == lower_char(c),
{
    if 'A' <= c && c <= 'Z' {
        let b = c as u8;
        ((b + 32) as u8) as char
    } else {
        c
    }
}

/// `str::to_ascii_lowercase` on a character sequence.
pub fn lower_chars(v: &[char]) -> (r: Vec<char>)
    ensures
        r@ == ascii_lower(v@),
{
    let mut r: Vec<char> = Vec::new();
    for i in 0..v.len()
        invariant
            r@ == ascii_lower(v@.take(i as int)),
    {
        r.push(lower_char_exec(v[i]));
        assert(ascii_lower(v@.take(i + 1)) =~= ascii_lower(v@.take(i as int)).push(
            lower_char(v@[i as int]),
        ));
    }
    assert(v@.take(v@.len() as int) =~= v@);
    r
}

/// The characters of `s`, trimmed and lowered to ASCII lower case.
pub fn trimmed_lower(s: &str) -> (r: Vec<char>)
    ensures
        r@ == ascii_lower(trim(s@)),
{
    let v = chars_of(s);
    let t = trim_chars(v.as_slice());
    lower_chars(t.as_slice())
}

/// Equality of two character sequences.
pub fn chars_eq(a: &[char], b: &[char]) -> (r: bool)
    ensures
        r == (a@ == b@),
{
    if a.len() != b.len() {
        return false;
    }
    let mut i: usize = 0;
    while i < a.len()
        invariant
            a@.len() == b@.len(),
            i <= a@.len(),
            forall|k: int| 0 <= k < i ==> a@[k] == b@[k],
        decreases a@.len() - i,
    {
        if a[i] != b[i] {
            return false;
        }
        i = i + 1;
    }
    assert(a@ =~= b@);
    true
}

/// True when the characters in `a` spell the string `s`.
pub fn chars_eq_str(a: &[char], s: &str) -> (r: bool)
    ensures
        r == (a@ == s@),
{
    let b = chars_of(s);
    chars_eq(a, b.as_slice())
}

/// Equality of two strings' texts.
pub fn str_eq(a: &str, b: &str) -> (r: bool)
    ensures
        r == (a@ == b@),
{
    let x = chars_of(a);
    chars_eq_str(x.as_slice(), b)
}

/// Whether `needle` occurs in `hay` at position `at`.
pub fn chars_at(hay: &[char], needle: &[char], at: usize) -> (r: bool)
    ensures
        r == occurs_at(hay@, needle@, at as int),
{
    if at > hay.len() || needle.len() > hay.len() - at {
        return false;
    }
    let mut k: usize = 0;
    while k < needle.len()
        invariant
            at + needle@.len() <= hay@.len() <= usize::MAX,
            k <= needle@.len(),
            forall|m: int| 0 <= m < k ==> hay@[at + m] == needle@[m],
        decreases needle@.len() - k,
    {
        if hay[at + k] != needle[k] {
            assert(hay@.subrange(at as int, at + needle@.len())[k as int] != needle@[k as int]);
            return false;
        }
        k = k + 1;
    }
    assert(hay@.subrange(at as int, at + needle@.len()) =~= needle@);
    true
}

/// Whether `needle` occurs in `hay` at position `at` (bytes).
pub fn bytes_at(hay: &[u8], needle: &[u8], at: usize) -> (r: bool)
    ensures
        r == occurs_at(hay@, needle@, at as int),
{
    if at > hay.len() || needle.len() > hay.len() - at {
        return false;
    }
    let mut k: usize = 0;
    while k < needle.len()
        invariant
            at + needle@.len() <= hay@.len() <= usize::MAX,
            k <= needle@.len(),
            forall|m: int| 0 <= m < k ==> hay@[at + m] == needle@[m],
        decreases needle@.len() - k,
    {
        if hay[at + k] != needle[k] {
            assert(hay@.subrange(at as int, at + needle@.len())[k as int] != needle@[k as int]);
            return false;
        }
        k = k + 1;
    }
    assert(hay@.subrange(at as int, at + needle@.len()) =~= needle@);
    true
}

/// No occurrence of `needle` in `hay` starts in `[from, i)`.
pub open spec fn none_before<T>(hay: Seq<T>, needle: Seq<T>, from: int, i: int) -> bool {
    forall|k: int| from <= k < i ==> !occurs_at(hay, needle, k)
}

/// No occurrence of `needle` in `hay` starts at or after `from`.
pub open spec fn none_from<T>(hay: Seq<T>, needle: Seq<T>, from: int) -> bool {
    forall|k: int| from <= k ==> !occurs_at(hay, needle, k)
}

/// Index of the first occurrence of `needle` in `hay` at or after `from`.
pub fn find_chars(hay: &[char], needle: &[char], from: usize) -> (r: Option<usize>)
    ensures
        r matches Some(i) ==> from <= i && occurs_at(hay@, needle@, i as int) && none_before(
            hay@,
            needle@,
            from as int,
            i as int,
        ),
        r is None ==> none_from(hay@, needle@, from as int),
{
    let mut i: usize = from;
    while i < hay.len()
        invariant
            from <= i,
            none_before(hay@, needle@, from as int, i as int),
        decreases hay@.len() - i,
    {
        if chars_at(hay, needle, i) {
            return Some(i);
        }
        i = i + 1;
    }
    if i == hay.len() && chars_at(hay, needle, i) {
        return Some(i);
    }
    None
}

/// Index of the first occurrence of `needle` in `hay` at or after `from` (bytes).
pub fn find_bytes(hay: &[u8], needle: &[u8], from: usize) -> (r: Option<usize>)
    ensures
        r matches Some(i) ==> from <= i && occurs_at(hay@, needle@, i as int) && none_before(
            hay@,
            needle@,
            from as int,
            i as int,
        ),
        r is None ==> none_from(hay@, needle@, from as int),
{
    let mut i: usize = from;
    while i < hay.len()
        invariant
            from <= i,
            none_before(hay@, needle@, from as int, i as int),
        decreases hay@.len() - i,
    {
        if bytes_at(hay, needle, i) {
            return Some(i);
        }
        i = i + 1;
    }
    if i == hay.len() && bytes_at(hay, needle, i) {
        return Some(i);
    }
    None
}

/// `str::contains` on character sequences.
pub fn contains_chars(hay: &[char], needle: &[char]) -> (r: bool)
    ensures
        r == seq_contains(hay@, needle@),
{
    match find_chars(hay, needle, 0) {
        Some(i) => {
            assert(occurs_at(hay@, needle@, i as int));
            true
        },
        None => false,
    }
}

/// `needle` occurs in the character sequence `hay`.
pub fn contains_str(hay: &[char], needle: &str) -> (r: bool)
    ensures
        r == seq_contains(hay@, needle@),
{
    let n = chars_of(needle);
    contains_chars(hay, n.as_slice())
}

/// `[u8]::windows(..).any(..)`: `needle` occurs in `hay`.
pub fn contains_bytes(hay: &[u8], needle: &[u8]) -> (r: bool)
    ensures
        r == seq_contains(hay@, needle@),
{
    match find_bytes(hay, needle, 0) {
        Some(i) => {
            assert(occurs_at(hay@, needle@, i as int));
            true
        },
        None => false,
    }
}


/// The character of a decimal digit.
pub open spec fn digit_char(d: nat) -> char {
    (d + 48) as char
}

/// Decimal notation of `n`, as `u64`'s `Display` writes it.
pub open spec fn decimal(n: nat) -> Seq<char>
    decreases n,
{
    if n < 10 {
        seq![digit_char(n)]
    } else {
        decimal(n / 10).push(digit_char(n % 10))
    }
}

/// Decimal notation is made of ASCII digits.
pub proof fn lemma_decimal_digits(n: nat)
    ensures
        forall|i: int|
            0 <= i < decimal(n).len() ==> (#[trigger] decimal(n)[i] as u32) < 128 && is_digit(
                decimal(n)[i],
            ),
    decreases n,
{
    if n >= 10 {
        lemma_decimal_digits(n / 10);
        lemma_digit_char((n % 10) as nat);
        let p = decimal(n / 10);
        assert(decimal(n) == p.push(digit_char((n % 10) as nat)));
        assert forall|i: int| 0 <= i < decimal(n).len() implies (#[trigger] decimal(n)[i] as u32)
            < 128 && is_digit(decimal(n)[i]) by {
            if i < p.len() {
                assert(decimal(n)[i] == p[i]);
            }
        }
    } else {
        lemma_digit_char(n);
    }
}

proof fn lemma_digit_char(d: nat)
    requires
        d < 10,
    ensures
        (digit_char(d) as u32) == d + 48,
        is_digit(digit_char(d)),
{
}

/// The digits of `decimal(n)` are worth `n`.
pub proof fn lemma_decimal_value(n: nat)
    ensures
        digits_value(decimal(n)) == n,
    decreases n,
{
    if n < 10 {
        lemma_digit_char(n);
        assert(decimal(n).drop_last() =~= Seq::<char>::empty());
        assert(decimal(n).last() == digit_char(n));
        assert((digit_char(n) as nat) == n + 48);
        assert(digits_value(Seq::<char>::empty()) == 0);
        assert(digits_value(decimal(n)) == digits_value(decimal(n).drop_last()) * 10 + ((
        decimal(n).last() as nat) - 48) as nat);
    } else {
        lemma_decimal_value(n / 10);
        lemma_digit_char(n % 10);
        assert(decimal(n).drop_last() =~= decimal(n / 10));
        assert(decimal(n).last() == digit_char(n % 10));
        assert((digit_char(n % 10) as nat) == n % 10 + 48);
        assert((n / 10) * 10 + n % 10 == n) by (nonlinear_arith);
        assert(digits_value(decimal(n)) == digits_value(decimal(n).drop_last()) * 10 + ((
        decimal(n).last() as nat) - 48) as nat);
    }
}

/// `decimal(n)` parses back to `n` when `n` fits.
pub proof fn lemma_parse_decimal(n: nat, max: nat)
    requires
        n <= max,
    ensures
        parse_uint(decimal(n), max) == Some(n),
{
    lemma_decimal_digits(n);
    lemma_decimal_value(n);
    assert(decimal(n).len() > 0);
    assert(is_digit(decimal(n)[0]));
    assert(unsigned_body(decimal(n)) == decimal(n));
}

/// Decimal notation of `n`.
pub fn decimal_chars(n: u64) -> (r: Vec<char>)
    ensures
        r@ == decimal(n as nat),
    decreases n,
{
    if n < 10 {
        let c = ((n as u8) + 48) as char;
        let mut v: Vec<char> = Vec::new();
        v.push(c);
        assert(v@ =~= seq![digit_char(n as nat)]);
        v
    } else {
        let mut v = decimal_chars(n / 10);
        let c = (((n % 10) as u8) + 48) as char;
        v.push(c);
        v
    }
}

/// A string made of the given characters.
#[verifier::external_body]
pub(crate) fn string_from_chars(v: &[char]) -> (r: String)
    ensures
        r@ == v@,
{
    v.iter().collect()
}

/// Decimal notation of `n` as a string.
pub fn decimal_string(n: u64) -> (r: String)
    ensures
        r@ == decimal(n as nat),
{
    let v = decimal_chars(n);
    string_from_chars(v.as_slice())
}

/// ASCII digit.
pub open spec fn is_digit(c: char) -> bool {
    '0' <= c && c <= '9'
}

/// Value of a sequence of decimal digits.
pub open spec fn digits_value(s: Seq<char>) -> nat
    decreases s.len(),
{
    if s.len() == 0 {
        0
    } else {
        digits_value(s.drop_last()) * 10 + ((s.last() as nat) - 48) as nat
    }
}

/// The digits of an unsigned number: `s` without one leading `+`.
pub open spec fn unsigned_body(s: Seq<char>) -> Seq<char> {
    if s.len() > 0 && s[0] == '+' {
        s.drop_first()
    } else {
        s
    }
}

/// All characters are ASCII digits.
pub open spec fn all_digits(d: Seq<char>) -> bool {
    forall|i: int| 0 <= i < d.len() ==> is_digit(#[trigger] d[i])
}

/// `str::parse` for an unsigned integer type whose largest value is `max`:
/// an optional `+`, then one or more ASCII digits, with a value at most `max`.
pub open spec fn parse_uint(s: Seq<char>, max: nat) -> Option<nat> {
    let d = unsigned_body(s);
    if d.len() > 0 && all_digits(d) && digits_value(d) <= max {
        Some(digits_value(d))
    } else {
        None
    }
}

proof fn lemma_digits_value_monotone(s: Seq<char>, i: int)
    requires
        0 <= i <= s.len(),
        forall|k: int| 0 <= k < s.len() ==> is_digit(#[trigger] s[k]),
    ensures
        digits_value(s.take(i)) <= digits_value(s),
    decreases s.len() - i,
{
    if i < s.len() {
        lemma_digits_value_monotone(s, i + 1);
        assert(s.take(i + 1).drop_last() =~= s.take(i));
    } else {
        assert(s.take(i) =~= s);
    }
}

/// Parse the characters as an unsigned integer no larger than `max`.
#[verifier::spinoff_prover]
pub fn parse_uint_chars(s: &[char], max: u64) -> (r: Option<u64>)
    ensures
        r matches Some(v) ==> parse_uint(s@, max as nat) == Some(v as nat),
        r is None ==> parse_uint(s@, max as nat) is None,
{
    let start: usize = if s.len() > 0 && s[0] == '+' {
        1
    } else {
        0
    };
    let ghost d = unsigned_body(s@);
    assert(d =~= s@.subrange(start as int, s@.len() as int));
    if start >= s.len() {
        return None;
    }
    let mut acc: u64 = 0;
    let mut i: usize = start;
    while i < s.len()
        invariant
            start <= i <= s@.len(),
            d == unsigned_body(s@),
            d =~= s@.subrange(start as int, s@.len() as int),
            forall|k: int| 0 <= k < i - start ==> is_digit(#[trigger] d[k]),
            acc as nat == digits_value(d.take(i - start)),
            acc <= max,
        decreases s@.len() - i,
    {
        let c = s[i];
        if !('0' <= c && c <= '9') {
            assert(!is_digit(d[i - start]));
            assert(!all_digits(d));
            return None;
        }
        let dv = (c as u64) - 48;
        assert(d.take(i + 1 - start).drop_last() =~= d.take(i - start));
        if dv > max || acc > (max - dv) / 10 {
            proof {
                assert(digits_value(d.take(i + 1 - start)) == acc * 10 + dv);
                assert(acc * 10 + dv > max) by (nonlinear_arith)
                    requires
                        dv > max || acc > (max - dv) / 10,
                ;
                if all_digits(d) {
                    lemma_digits_value_monotone(d, i + 1 - start);
                }
            }
            return None;
        }
        acc = acc * 10 + dv;
        i = i + 1;
    }
    assert(d.take(d.len() as int) =~= d);
    Some(acc)
}


/// `cur` glued to the front of the first piece of `pieces`.
pub open spec fn prepend_first(cur: Seq<char>, pieces: Seq<Seq<char>>) -> Seq<Seq<char>> {
    pieces.update(0, cur + pieces[0])
}

/// `str::split(c)`: the pieces of `s` between occurrences of `c` (never empty).
pub open spec fn split(s: Seq<char>, c: char) -> Seq<Seq<char>>
    decreases s.len(),
{
    if s.len() == 0 {
        seq![Seq::<char>::empty()]
    } else if s[0] == c {
        seq![Seq::<char>::empty()] + split(s.drop_first(), c)
    } else {
        prepend_first(seq![s[0]], split(s.drop_first(), c))
    }
}

pub proof fn lemma_split_len(s: Seq<char>, c: char)
    ensures
        split(s, c).len() >= 1,
    decreases s.len(),
{
    if s.len() > 0 {
        lemma_split_len(s.drop_first(), c);
    }
}

/// Text in which `c` does not occur splits into itself alone.
pub proof fn lemma_split_absent(s: Seq<char>, c: char)
    requires
        forall|i: int| 0 <= i < s.len() ==> s[i] != c,
    ensures
        split(s, c) == seq![s],
    decreases s.len(),
{
    if s.len() > 0 {
        lemma_split_absent(s.drop_first(), c);
        assert(seq![s[0]] + s.drop_first() =~= s);
        assert(prepend_first(seq![s[0]], seq![s.drop_first()]) =~= seq![s]);
    } else {
        assert(s =~= Seq::<char>::empty());
    }
}

/// A first piece free of `c`, then `c`, then the rest: the first piece
/// followed by the pieces of the rest.
pub proof fn lemma_split_first(a: Seq<char>, c: char, b: Seq<char>)
    requires
        forall|i: int| 0 <= i < a.len() ==> a[i] != c,
    ensures
        split(a + seq![c] + b, c) == seq![a] + split(b, c),
    decreases a.len(),
{
    let s = a + seq![c] + b;
    lemma_split_len(b, c);
    if a.len() == 0 {
        assert(a =~= Seq::<char>::empty());
        assert(s[0] == c);
        assert(s.drop_first() =~= b);
        assert(seq![Seq::<char>::empty()] + split(b, c) =~= seq![a] + split(b, c));
    } else {
        let t = a.drop_first();
        lemma_split_first(t, c, b);
        assert(s[0] == a[0]);
        assert(s.drop_first() =~= t + seq![c] + b);
        assert(seq![a[0]] + t =~= a);
        assert(prepend_first(seq![a[0]], seq![t] + split(b, c)) =~= seq![a] + split(b, c));
    }
}

/// The views of a sequence of character vectors.
pub open spec fn views(v: Seq<Vec<char>>) -> Seq<Seq<char>> {
    v.map_values(|x: Vec<char>| x@)
}

/// `str::split(c)` on a character sequence.
#[verifier::spinoff_prover]
pub fn split_chars(s: &[char], c: char) -> (r: Vec<Vec<char>>)
    ensures
        views(r@) == split(s@, c),
{
    let mut pieces: Vec<Vec<char>> = Vec::new();
    let mut cur: Vec<char> = Vec::new();
    let mut i: usize = 0;
    proof {
        lemma_split_len(s@, c);
        assert(s@.subrange(0, s@.len() as int) =~= s@);
        assert(prepend_first(cur@, split(s@, c)) =~= split(s@, c));
    }
    while i < s.len()
        invariant
            i <= s@.len(),
            split(s@, c) =~= views(pieces@) + prepend_first(
                cur@,
                split(s@.subrange(i as int, s@.len() as int), c),
            ),
        decreases s@.len() - i,
    {
        let ghost rest = s@.subrange(i as int, s@.len() as int);
        let ghost next = s@.subrange(i + 1, s@.len() as int);
        assert(rest.drop_first() =~= next);
        proof {
            lemma_split_len(next, c);
        }
        let ghost l = split(next, c);
        if s[i] == c {
            let done = cur;
            let ghost before = views(pieces@);
            pieces.push(done);
            assert(views(pieces@) =~= before.push(done@));
            cur = Vec::new();
            assert(prepend_first(done@, split(rest, c)) =~= seq![done@] + l);
            assert(prepend_first(cur@, l) =~= l);
        } else {
            let ghost old_cur = cur@;
            let ghost x = s@[i as int];
            cur.push(s[i]);
            assert(old_cur + (seq![x] + l[0]) =~= cur@ + l[0]);
            assert(prepend_first(old_cur, prepend_first(seq![x], l)) =~= prepend_first(cur@, l));
        }
        i = i + 1;
    }
    assert(s@.subrange(i as int, s@.len() as int) =~= Seq::<char>::empty());
    let ghost before = views(pieces@);
    let ghost last = cur@;
    pieces.push(cur);
    assert(views(pieces@) =~= before.push(last));
    assert(prepend_first(last, seq![Seq::<char>::empty()]) =~= seq![last]);
    pieces
}


/// `std::str::from_utf8`, owned: the text of `b` when it is valid UTF-8.
#[verifier::external_body]
pub(crate) fn utf8_text(b: &[u8]) -> (r: Option<String>)
    ensures
        r is Some <==> vstd::utf8::valid_utf8(b@),
        r matches Some(s) ==> s@ == vstd::utf8::decode_utf8(b@),
{
    match std::str::from_utf8(b) {
        Ok(s) => Some(s.to_owned()),
        Err(_) => None,
    }
}

/// The characters of `b` when it is valid UTF-8.
pub fn utf8_chars(b: &[u8]) -> (r: Option<Vec<char>>)
    ensures
        r is Some <==> vstd::utf8::valid_utf8(b@),
        r matches Some(v) ==> v@ == vstd::utf8::decode_utf8(b@),
{
    match utf8_text(b) {
        Some(s) => Some(chars_of(s.as_str())),
        None => None,
    }
}

/// The first index `i >= from` where `needle` occurs in `hay`.
pub open spec fn find_from<T>(hay: Seq<T>, needle: Seq<T>, from: int) -> Option<int> {
    if exists|i: int| from <= i && occurs_at(hay, needle, i) && none_before(hay, needle, from, i) {
        Some(
            choose|i: int|
                from <= i && occurs_at(hay, needle, i) && none_before(hay, needle, from, i),
        )
    } else {
        None
    }
}

/// What `find_chars`/`find_bytes` report is `find_from`.
pub proof fn lemma_find_from<T>(hay: Seq<T>, needle: Seq<T>, from: int, r: Option<int>)
    requires
        r matches Some(i) ==> from <= i && occurs_at(hay, needle, i) && none_before(
            hay,
            needle,
            from,
            i,
        ),
        r is None ==> none_from(hay, needle, from),
    ensures
        find_from(hay, needle, from) == r,
{
    match r {
        Some(i) => {
            let j = choose|j: int|
                from <= j && occurs_at(hay, needle, j) && none_before(hay, needle, from, j);
            assert(from <= j && occurs_at(hay, needle, j) && none_before(hay, needle, from, j));
            if j < i {
                assert(!occurs_at(hay, needle, j));
            }
            if i < j {
                assert(!occurs_at(hay, needle, i));
            }
        },
        None => {
            if exists|i: int| from <= i && occurs_at(hay, needle, i) && none_before(hay, needle, from, i) {
                let j = choose|j: int|
                    from <= j && occurs_at(hay, needle, j) && none_before(hay, needle, from, j);
                assert(!occurs_at(hay, needle, j));
            }
        },
    }
}

/// `find_from` never answers before `from`.
pub proof fn lemma_find_from_ge<T>(hay: Seq<T>, needle: Seq<T>, from: int)
    ensures
        find_from(hay, needle, from) matches Some(i) ==> from <= i && occurs_at(hay, needle, i),
{
    if exists|i: int| from <= i && occurs_at(hay, needle, i) && none_before(hay, needle, from, i) {
        let j = choose|j: int|
            from <= j && occurs_at(hay, needle, j) && none_before(hay, needle, from, j);
        assert(from <= j && occurs_at(hay, needle, j));
    }
}

/// `find_bytes` as a total function on spec values.
pub fn find_bytes_spec(hay: &[u8], needle: &[u8], from: usize) -> (r: Option<usize>)
    ensures
        match find_from(hay@, needle@, from as int) {
            Some(i) => r == Some(i as usize) && from <= i,
            None => r is None,
        },
{
    let r = find_bytes(hay, needle, from);
    proof {
        let g: Option<int> = match r {
            Some(i) => Some(i as int),
            None => None,
        };
        lemma_find_from(hay@, needle@, from as int, g);
    }
    r
}


/// `find_chars` as a total function on spec values.
pub fn find_chars_spec(hay: &[char], needle: &[char], from: usize) -> (r: Option<usize>)
    ensures
        match find_from(hay@, needle@, from as int) {
            Some(i) => r == Some(i as usize) && from <= i,
            None => r is None,
        },
{
    let r = find_chars(hay, needle, from);
    proof {
        let g: Option<int> = match r {
            Some(i) => Some(i as int),
            None => None,
        };
        lemma_find_from(hay@, needle@, from as int, g);
    }
    r
}


/// `str::contains` on two strings.
pub fn str_contains(hay: &str, needle: &str) -> (r: bool)
    ensures
        r == seq_contains(hay@, needle@),
{
    let h = chars_of(hay);
    contains_str(h.as_slice(), needle)
}

/// ASCII lower case of `s` contains `needle`.
pub fn lower_contains(s: &[char], needle: &str) -> (r: bool)
    ensures
        r == seq_contains(ascii_lower(s@), needle@),
{
    let l = lower_chars(s);
    contains_str(l.as_slice(), needle)
}

/// How XML text writes one character; `"` is escaped only when `quot`.
pub open spec fn escape_char(c: char, quot: bool) -> Seq<char> {
    if c == '&' {
        seq!['&', 'a', 'm', 'p', ';']
    } else if c == '<' {
        seq!['&', 'l', 't', ';']
    } else if c == '>' {
        seq!['&', 'g', 't', ';']
    } else if quot && c == '"' {
        seq!['&', 'q', 'u', 'o', 't', ';']
    } else {
        seq![c]
    }
}

/// `s` with `&`, `<`, `>` (and `"` when `quot`) written as entities.
pub open spec fn xml_escaped(s: Seq<char>, quot: bool) -> Seq<char>
    decreases s.len(),
{
    if s.len() == 0 {
        Seq::<char>::empty()
    } else {
        xml_escaped(s.drop_last(), quot) + escape_char(s.last(), quot)
    }
}

fn push_escaped(out: &mut Vec<char>, c: char, quot: bool)
    ensures
        final(out)@ == old(out)@ + escape_char(c, quot),
{
    let ghost before = out@;
    if c == '&' {
        out.push('&');
        out.push('a');
        out.push('m');
        out.push('p');
        out.push(';');
    } else if c == '<' {
        out.push('&');
        out.push('l');
        out.push('t');
        out.push(';');
    } else if c == '>' {
        out.push('&');
        out.push('g');
        out.push('t');
        out.push(';');
    } else if quot && c == '"' {
        out.push('&');
        out.push('q');
        out.push('u');
        out.push('o');
        out.push('t');
        out.push(';');
    } else {
        out.push(c);
    }
    assert(out@ =~= before + escape_char(c, quot));
}

/// Escape text for an XML element body (and attribute values when `quot`).
pub fn xml_escape(s: &str, quot: bool) -> (r: String)
    ensures
        r@ == xml_escaped(s@, quot),
{
    let v = chars_of(s);
    let mut out: Vec<char> = Vec::new();
    for i in 0..v.len()
        invariant
            v@ == s@,
            out@ == xml_escaped(v@.take(i as int), quot),
    {
        push_escaped(&mut out, v[i], quot);
        assert(v@.take(i + 1).drop_last() =~= v@.take(i as int));
    }
    assert(v@.take(v@.len() as int) =~= v@);
    string_from_chars(out.as_slice())
}

/// `str::replace(pat, rep)` for a non-empty pattern: every occurrence, left
/// to right and without overlap, replaced.
pub open spec fn replace_all(s: Seq<char>, pat: Seq<char>, rep: Seq<char>) -> Seq<char>
    decreases s.len(),
{
    if s.len() == 0 {
        s
    } else if pat.len() > 0 && occurs_at(s, pat, 0) {
        rep + replace_all(s.skip(pat.len() as int), pat, rep)
    } else {
        seq![s[0]] + replace_all(s.drop_first(), pat, rep)
    }
}

/// `str::replace` on character sequences.
pub fn replace_chars(s: &[char], pat: &[char], rep: &[char]) -> (r: Vec<char>)
    ensures
        r@ == replace_all(s@, pat@, rep@),
{
    let mut out: Vec<char> = Vec::new();
    let mut i: usize = 0;
    assert(s@.skip(0) =~= s@);
    assert(out@ + replace_all(s@, pat@, rep@) =~= replace_all(s@, pat@, rep@));
    while i < s.len()
        invariant
            i <= s@.len(),
            out@ + replace_all(s@.skip(i as int), pat@, rep@) == replace_all(s@, pat@, rep@),
        decreases s@.len() - i,
    {
        let ghost rest = s@.skip(i as int);
        let ghost before = out@;
        if pat.len() > 0 && chars_at(s, pat, i) {
            assert(rest.subrange(0, pat@.len() as int) =~= s@.subrange(i as int, i + pat@.len()));
            assert(occurs_at(rest, pat@, 0));
            assert(rest.skip(pat@.len() as int) =~= s@.skip(i + pat@.len()));
            out.extend_from_slice(rep);
            assert(before + (rep@ + replace_all(rest.skip(pat@.len() as int), pat@, rep@))
                =~= out@ + replace_all(rest.skip(pat@.len() as int), pat@, rep@));
            i = i + pat.len();
        } else {
            proof {
                if pat@.len() > 0 && occurs_at(rest, pat@, 0int) {
                    assert(rest.subrange(0, pat@.len() as int) =~= s@.subrange(i as int, i + pat@.len()));
                }
            }
            assert(rest.drop_first() =~= s@.skip(i + 1));
            out.push(s[i]);
            assert(before + (seq![rest[0]] + replace_all(rest.drop_first(), pat@, rep@))
                =~= out@ + replace_all(rest.drop_first(), pat@, rep@));
            i = i + 1;
        }
    }
    assert(s@.skip(i as int) =~= Seq::<char>::empty());
    assert(out@ + Seq::<char>::empty() =~= out@);
    out
}

/// `str::parse::<u32>` on a string.
pub fn parse_u32(s: &str) -> (r: Option<u32>)
    ensures
        r matches Some(v) ==> parse_uint(s@, 0xffff_ffff) == Some(v as nat),
        r is None ==> parse_uint(s@, 0xffff_ffff) is None,
{
    let v = chars_of(s);
    match parse_uint_chars(v.as_slice(), 0xffff_ffff) {
        Some(n) => Some(n as u32),
        None => None,
    }
}


/// `s` with every trailing copy of `p` removed (`trim_end_matches`).
pub open spec fn strip_suffix_all(s: Seq<char>, p: Seq<char>) -> Seq<char>
    decreases s.len(),
{
    if p.len() > 0 && s.len() >= p.len() && s.skip(s.len() - p.len()) == p {
        strip_suffix_all(s.take(s.len() - p.len()), p)
    } else {
        s
    }
}

/// `trim_end_matches` on character sequences.
pub fn strip_suffix_all_exec(s: &[char], p: &str) -> (r: Vec<char>)
    ensures
        r@ == strip_suffix_all(s@, p@),
{
    let pv = chars_of(p);
    let mut k: usize = s.len();
    assert(s@.take(k as int) =~= s@);
    while pv.len() > 0 && pv.len() <= k && chars_at(s, pv.as_slice(), k - pv.len())
        invariant
            pv@ == p@,
            k <= s@.len(),
            strip_suffix_all(s@, p@) == strip_suffix_all(s@.take(k as int), p@),
        decreases k,
    {
        let ghost cur = s@.take(k as int);
        assert(cur.skip(cur.len() - pv@.len()) =~= s@.subrange(k - pv@.len(), k as int));
        assert(cur.take(cur.len() - pv@.len()) =~= s@.take(k - pv@.len()));
        k = k - pv.len();
    }
    let ghost cur = s@.take(k as int);
    proof {
        if pv@.len() > 0 && cur.len() >= pv@.len() && cur.skip(cur.len() - pv@.len()) == pv@ {
            assert(cur.skip(cur.len() - pv@.len()) =~= s@.subrange(k - pv@.len(), k as int));
        }
    }
    let mut out: Vec<char> = Vec::new();
    out.extend_from_slice(&s[0..k]);
    assert(out@ =~= cur);
    out
}

} // verus!
