//! Text as the game reads it: characters of a line, white space, trimming,
//! and the UTF-8 length of a text.
use vstd::prelude::*;
use vstd::string::*;

verus! {

/// The characters with the Unicode property White_Space, which
/// `char::is_whitespace` tests.
pub open spec fn spec_is_white_space(c: char) -> bool {
    ('\u{9}' <= c <= '\u{d}') || c == ' ' || c == '\u{85}' || c == '\u{a0}' || c == '\u{1680}' || ('\u{2000}'
        <= c <= '\u{200a}') || c == '\u{2028}' || c == '\u{2029}' || c == '\u{202f}' || c == '\u{205f}' || c
        == '\u{3000}'
}

pub fn is_white_space(c: char) -> (r: bool)
    ensures
        r == spec_is_white_space(c),
{
    ('\u{9}' <= c && c <= '\u{d}') || c == ' ' || c == '\u{85}' || c == '\u{a0}' || c == '\u{1680}' || ('\u{2000}'
        <= c && c <= '\u{200a}') || c == '\u{2028}' || c == '\u{2029}' || c == '\u{202f}' || c == '\u{205f}'
        || c == '\u{3000}'
}

/// `s` without its leading white space.
pub open spec fn trim_start(s: Seq<char>) -> Seq<char>
    decreases s.len(),
{
    if s.len() > 0 && spec_is_white_space(s[0]) {
        trim_start(s.drop_first())
    } else {
        s
    }
}

/// `s` without its trailing white space.
pub open spec fn trim_end(s: Seq<char>) -> Seq<char>
    decreases s.len(),
{
    if s.len() > 0 && spec_is_white_space(s.last()) {
        trim_end(s.drop_last())
    } else {
        s
    }
}

/// `s` without leading and trailing white space, as `str::trim` gives it.
pub open spec fn trim(s: Seq<char>) -> Seq<char> {
    trim_end(trim_start(s))
}

/// The number of bytes that the UTF-8 encoding of `c` takes.
pub open spec fn utf8_width(c: char) -> int {
    if (c as u32) < 0x80 {
        1
    } else if (c as u32) < 0x800 {
        2
    } else if (c as u32) < 0x10000 {
        3
    } else {
        4
    }
}

/// The number of bytes of the UTF-8 encoding of `s`, which `str::len` gives.
pub open spec fn utf8_len(s: Seq<char>) -> int
    decreases s.len(),
{
    if s.len() == 0 {
        0
    } else {
        utf8_len(s.drop_last()) + utf8_width(s.last())
    }
}

/// The characters of a string slice.
pub fn chars_of(s: &str) -> (v: Vec<char>)
    ensures
        v@ == s@,
{
    let n = s.unicode_len();
    let mut v: Vec<char> = Vec::new();
    let mut i: usize = 0;
    while i < n
        invariant
            0 <= i <= n,
            n == s@.len(),
            v@ == s@.take(i as int),
        decreases n - i,
    {
        let c = s.get_char(i);
        v.push(c);
        i += 1;
        assert(v@ =~= s@.take(i as int));
    }
    assert(v@ =~= s@);
    v
}

/// The last character of a text without trailing white space is no white space.
pub proof fn lemma_trim_end_last(x: Seq<char>)
    ensures
        trim_end(x).len() > 0 ==> !spec_is_white_space(trim_end(x).last()),
    decreases x.len(),
{
    if x.len() > 0 && spec_is_white_space(x.last()) {
        lemma_trim_end_last(x.drop_last());
    }
}

/// Trimming a trimmed text changes nothing.
pub proof fn lemma_trim_idempotent_shape(line: Seq<char>)
    ensures
        trim(line) == trim_end(trim_start(trim(line))),
{
    lemma_trim_start_fixed(line);
}

/// A trimmed text has no white space to take off at either end.
pub proof fn lemma_trim_start_fixed(line: Seq<char>)
    ensures
        trim_start(trim(line)) == trim(line),
        trim_end(trim(line)) == trim(line),
{
    lemma_trim_start_first(line);
    lemma_trim_end_keeps_first(trim_start(line));
    let t = trim(line);
    if t.len() > 0 {
        assert(!spec_is_white_space(t[0]));
    }
    lemma_trim_end_last(trim_start(line));
    assert(trim_end(t) == t) by {
        if t.len() > 0 {
            assert(!spec_is_white_space(t.last()));
        }
    }
}

/// The first character of a text without leading white space is no white space.
pub proof fn lemma_trim_start_first(x: Seq<char>)
    ensures
        trim_start(x).len() > 0 ==> !spec_is_white_space(trim_start(x)[0]),
    decreases x.len(),
{
    if x.len() > 0 && spec_is_white_space(x[0]) {
        lemma_trim_start_first(x.drop_first());
    }
}

proof fn lemma_trim_end_keeps_first(x: Seq<char>)
    ensures
        trim_end(x).len() > 0 ==> trim_end(x)[0] == x[0],
        trim_end(x).len() <= x.len(),
    decreases x.len(),
{
    if x.len() > 0 && spec_is_white_space(x.last()) {
        lemma_trim_end_keeps_first(x.drop_last());
    }
}

/// Trimming the front of `u + w`: when `u` has a character other than
/// white space the front of `u` is trimmed and `w` kept, else `w` is trimmed.
pub proof fn lemma_trim_start_concat(u: Seq<char>, w: Seq<char>)
    ensures
        trim_start(u + w) == (if trim_start(u).len() > 0 {
            trim_start(u) + w
        } else {
            trim_start(w)
        }),
        trim_start(u).len() <= u.len(),
    decreases u.len(),
{
    if u.len() == 0 {
        assert(u + w =~= w);
    } else {
        assert((u + w)[0] == u[0]);
        if spec_is_white_space(u[0]) {
            assert((u + w).drop_first() =~= u.drop_first() + w);
            lemma_trim_start_concat(u.drop_first(), w);
        }
    }
}

/// Trimming the back of `w + v`: when `v` has a character other than white
/// space the back of `v` is trimmed and `w` kept, else `w` is trimmed.
pub proof fn lemma_trim_end_concat(w: Seq<char>, v: Seq<char>)
    ensures
        trim_end(w + v) == (if trim_end(v).len() > 0 {
            w + trim_end(v)
        } else {
            trim_end(w)
        }),
        trim_end(v).len() <= v.len(),
    decreases v.len(),
{
    if v.len() == 0 {
        assert(w + v =~= w);
    } else {
        assert((w + v).last() == v.last());
        if spec_is_white_space(v.last()) {
            assert((w + v).drop_last() =~= w + v.drop_last());
            lemma_trim_end_concat(w, v.drop_last());
        }
    }
}

proof fn lemma_trim_start_skip(s: Seq<char>, i: int)
    requires
        0 <= i < s.len(),
        spec_is_white_space(s[i]),
    ensures
        trim_start(s.subrange(i, s.len() as int)) == trim_start(s.subrange(i + 1, s.len() as int)),
{
    assert(s.subrange(i, s.len() as int).drop_first() =~= s.subrange(i + 1, s.len() as int));
}

proof fn lemma_trim_end_skip(s: Seq<char>, j: int)
    requires
        0 < j <= s.len(),
        spec_is_white_space(s[j - 1]),
    ensures
        trim_end(s.take(j)) == trim_end(s.take(j - 1)),
{
    assert(s.take(j).drop_last() =~= s.take(j - 1));
}

/// Where the text without leading and trailing white space starts and ends.
pub fn trim_bounds(s: &Vec<char>) -> (r: (usize, usize))
    ensures
        r.0 <= r.1 <= s@.len(),
        s@.subrange(r.0 as int, r.1 as int) == trim(s@),
{
    let n = s.len();
    let mut a: usize = 0;
    assert(s@.subrange(0, n as int) =~= s@);
    while a < n && is_white_space(s[a])
        invariant
            0 <= a <= n,
            n == s@.len(),
            trim_start(s@) == trim_start(s@.subrange(a as int, n as int)),
        decreases n - a,
    {
        proof {
            lemma_trim_start_skip(s@, a as int);
        }
        a += 1;
    }
    let ghost rest = s@.subrange(a as int, n as int);
    assert(trim_start(rest) == rest);
    let mut b: usize = n;
    assert(rest.take(n - a) =~= rest);
    while b > a && is_white_space(s[b - 1])
        invariant
            a <= b <= n,
            n == s@.len(),
            rest == s@.subrange(a as int, n as int),
            trim_end(rest) == trim_end(rest.take(b - a)),
        decreases b,
    {
        proof {
            lemma_trim_end_skip(rest, b - a);
        }
        b -= 1;
    }
    assert(trim_end(rest.take(b - a)) == rest.take(b - a));
    assert(rest.take(b - a) =~= s@.subrange(a as int, b as int));
    (a, b)
}

/// The characters of `s` from index a to index b.
pub fn slice_chars(s: &Vec<char>, a: usize, b: usize) -> (t: Vec<char>)
    requires
        a <= b <= s@.len(),
    ensures
        t@ == s@.subrange(a as int, b as int),
{
    let mut t: Vec<char> = Vec::new();
    let mut k: usize = a;
    while k < b
        invariant
            a <= k <= b <= s@.len(),
            t@ == s@.subrange(a as int, k as int),
        decreases b - k,
    {
        t.push(s[k]);
        k += 1;
        assert(t@ =~= s@.subrange(a as int, k as int));
    }
    t
}

/// The characters of `s` without leading and trailing white space.
pub fn trim_chars(s: &Vec<char>) -> (t: Vec<char>)
    ensures
        t@ == trim(s@),
{
    let (a, b) = trim_bounds(s);
    slice_chars(s, a, b)
}

/// `s` without leading and trailing white space, as a slice of it.
pub fn trim_str(s: &str) -> (t: &str)
    ensures
        t@ == trim(s@),
{
    let chars = chars_of(s);
    let (a, b) = trim_bounds(&chars);
    s.substring_char(a, b)
}

/// Whether a character is not a dash.
pub open spec fn not_dash(c: char) -> bool {
    c != '-'
}

/// The characters of `s` without the dashes in it.
pub fn remove_dashes(s: &Vec<char>) -> (t: Vec<char>)
    ensures
        t@ == s@.filter(|c: char| not_dash(c)),
{
    let mut t: Vec<char> = Vec::new();
    let mut i: usize = 0;
    while i < s.len()
        invariant
            0 <= i <= s.len(),
            t@ == s@.take(i as int).filter(|c: char| not_dash(c)),
        decreases s.len() - i,
    {
        proof {
            s@.take(i as int).lemma_filter_push(s@[i as int], |c: char| not_dash(c));
            assert(s@.take(i + 1) =~= s@.take(i as int).push(s@[i as int]));
        }
        if s[i] != '-' {
            t.push(s[i]);
        }
        i += 1;
    }
    assert(s@.take(s.len() as int) =~= s@);
    t
}

proof fn lemma_utf8_len_at_least_len(s: Seq<char>)
    ensures
        utf8_len(s) >= s.len(),
    decreases s.len(),
{
    if s.len() > 0 {
        lemma_utf8_len_at_least_len(s.drop_last());
    }
}

/// Whether the UTF-8 encoding of `s` takes exactly `n` bytes (for n <= 4).
pub fn utf8_len_is(s: &Vec<char>, n: usize) -> (r: bool)
    requires
        n <= 4,
    ensures
        r == (utf8_len(s@) == n),
{
    proof {
        lemma_utf8_len_at_least_len(s@);
    }
    if s.len() > 4 {
        return false;
    }
    let mut total: usize = 0;
    let mut i: usize = 0;
    while i < s.len()
        invariant
            0 <= i <= s.len() <= 4,
            total == utf8_len(s@.take(i as int)),
            total <= 4 * i,
        decreases s.len() - i,
    {
        let c = s[i];
        let w: usize = if (c as u32) < 0x80 {
            1
        } else if (c as u32) < 0x800 {
            2
        } else if (c as u32) < 0x10000 {
            3
        } else {
            4
        };
        assert(s@.take(i + 1).drop_last() =~= s@.take(i as int));
        total = total + w;
        i += 1;
    }
    assert(s@.take(s.len() as int) =~= s@);
    total == n
}


/// Whether `s` begins with `p`.
pub open spec fn starts_with(s: Seq<char>, p: Seq<char>) -> bool {
    p.len() <= s.len() && s.take(p.len() as int) == p
}

/// Whether `p` occurs in `s`.
pub open spec fn contains_text(s: Seq<char>, p: Seq<char>) -> bool {
    exists|k: int| 0 <= k && k + p.len() <= s.len() && #[trigger] s.subrange(k, k + p.len()) == p
}

/// Whether the characters of `v` are those of `lit`.
pub fn same_text(v: &Vec<char>, lit: &str) -> (r: bool)
    ensures
        r == (v@ == lit@),
{
    let n = lit.unicode_len();
    if v.len() != n {
        return false;
    }
    let mut i: usize = 0;
    while i < n
        invariant
            0 <= i <= n,
            n == lit@.len(),
            v@.len() == n,
            forall|k: int| 0 <= k < i ==> v@[k] == lit@[k],
        decreases n - i,
    {
        if v[i] != lit.get_char(i) {
            return false;
        }
        i += 1;
    }
    assert(v@ =~= lit@);
    true
}

/// Whether `v` begins with the characters of `lit`.
pub fn begins_with(v: &Vec<char>, lit: &str) -> (r: bool)
    ensures
        r == starts_with(v@, lit@),
{
    let n = lit.unicode_len();
    if v.len() < n {
        return false;
    }
    let mut i: usize = 0;
    while i < n
        invariant
            0 <= i <= n,
            n == lit@.len(),
            v@.len() >= n,
            forall|k: int| 0 <= k < i ==> v@[k] == lit@[k],
        decreases n - i,
    {
        if v[i] != lit.get_char(i) {
            assert(v@.take(n as int)[i as int] != lit@[i as int]);
            return false;
        }
        i += 1;
    }
    assert(v@.take(n as int) =~= lit@);
    true
}

/// Whether the characters of `lit` occur in `v`.
pub fn has_text(v: &Vec<char>, lit: &str) -> (r: bool)
    ensures
        r == contains_text(v@, lit@),
{
    let n = lit.unicode_len();
    let p = chars_of(lit);
    if v.len() < n {
        assert forall|k: int| 0 <= k && k + lit@.len() <= v@.len() implies #[trigger] v@.subrange(k, k + lit@.len())
            != lit@ by {}
        return false;
    }
    let mut k: usize = 0;
    let vl = v.len();
    while k <= vl - n
        invariant
            n == lit@.len(),
            p@ == lit@,
            n <= v@.len(),
            vl == v@.len(),
            k <= v@.len() - n + 1,
            forall|t: int| 0 <= t < k ==> #[trigger] v@.subrange(t, t + n) != lit@,
        decreases v@.len() - k,
    {
        let mut i: usize = 0;
        let mut same = true;
        while i < n
            invariant
                0 <= i <= n,
                n == lit@.len(),
                p@ == lit@,
                k + n <= vl,
                vl == v@.len(),
                same == forall|t: int| 0 <= t < i ==> v@[k + t] == lit@[t],
            decreases n - i,
        {
            if v[k + i] != p[i] {
                same = false;
            }
            i += 1;
        }
        if same {
            assert(v@.subrange(k as int, k + n) =~= lit@);
            return true;
        }
        assert(v@.subrange(k as int, k + n) != lit@) by {
            let t = choose|t: int| 0 <= t < n && v@[k + t] != lit@[t];
            assert(v@.subrange(k as int, k + n)[t] != lit@[t]);
        }
        k += 1;
    }
    false
}

/// Splitting `s` into words at white space, from index k on; `start` is
/// the index where the current word began, or -1 between words.
pub open spec fn words_from(s: Seq<char>, k: int, start: int) -> Seq<Seq<char>>
    decreases s.len() - k,
{
    if k >= s.len() || k < 0 {
        if start >= 0 {
            seq![s.subrange(start, s.len() as int)]
        } else {
            seq![]
        }
    } else if spec_is_white_space(s[k]) {
        if start >= 0 {
            seq![s.subrange(start, k)] + words_from(s, k + 1, -1)
        } else {
            words_from(s, k + 1, -1)
        }
    } else if start >= 0 {
        words_from(s, k + 1, start)
    } else {
        words_from(s, k + 1, k)
    }
}

/// The words of `s`: its maximal runs of characters other than white
/// space, as `str::split_whitespace` gives them.
pub open spec fn words(s: Seq<char>) -> Seq<Seq<char>> {
    words_from(s, 0, -1)
}

pub open spec fn views(v: Seq<Vec<char>>) -> Seq<Seq<char>> {
    v.map_values(|w: Vec<char>| w@)
}

/// The words of `s`.
pub fn split_words(s: &Vec<char>) -> (out: Vec<Vec<char>>)
    ensures
        views(out@) == words(s@),
{
    let n = s.len();
    let mut out: Vec<Vec<char>> = Vec::new();
    let mut cur: Vec<char> = Vec::new();
    let mut in_word = false;
    let mut start: usize = 0;
    let mut k: usize = 0;
    while k < n
        invariant
            0 <= k <= n,
            n == s@.len(),
            in_word ==> start < k,
            in_word ==> cur@ == s@.subrange(start as int, k as int),
            words(s@) == views(out@) + words_from(s@, k as int, if in_word { start as int } else { -1 }),
        decreases n - k,
    {
        let c = s[k];
        let ghost before = views(out@);
        if is_white_space(c) {
            if in_word {
                out.push(cur);
                cur = Vec::new();
                assert(views(out@) =~= before + seq![s@.subrange(start as int, k as int)]);
                in_word = false;
            }
        } else {
            if !in_word {
                in_word = true;
                start = k;
                cur = Vec::new();
            }
            cur.push(c);
            assert(cur@ =~= s@.subrange(start as int, k + 1));
        }
        k += 1;
    }
    if in_word {
        let ghost before = views(out@);
        out.push(cur);
        assert(views(out@) =~= before + seq![s@.subrange(start as int, n as int)]);
    } else {
        assert(views(out@) =~= views(out@) + Seq::<Seq<char>>::empty());
    }
    out
}

/// The value of a text of decimal digits.
pub open spec fn digits_value(s: Seq<char>) -> int
    decreases s.len(),
{
    if s.len() == 0 {
        0
    } else {
        digits_value(s.drop_last()) * 10 + (s.last() as int - 48)
    }
}

pub open spec fn all_digits(s: Seq<char>) -> bool {
    forall|i: int| 0 <= i < s.len() ==> '0' <= #[trigger] s[i] <= '9'
}

/// What `str::parse::<i32>` gives: an optional sign '+' or '-', then one or
/// more decimal digits, with a value that fits in `i32`; None otherwise.
pub open spec fn spec_parse_i32(s: Seq<char>) -> Option<i32> {
    let neg = s.len() > 0 && s[0] == '-';
    let body = if s.len() > 0 && (s[0] == '-' || s[0] == '+') {
        s.drop_first()
    } else {
        s
    };
    if body.len() == 0 || !all_digits(body) {
        None
    } else {
        let v = if neg {
            -digits_value(body)
        } else {
            digits_value(body)
        };
        if i32::MIN <= v <= i32::MAX {
            Some(v as i32)
        } else {
            None
        }
    }
}

proof fn lemma_digits_value_grows(s: Seq<char>, k: int)
    requires
        all_digits(s),
        0 <= k <= s.len(),
    ensures
        digits_value(s) >= digits_value(s.take(k)),
        digits_value(s.take(k)) >= 0,
    decreases s.len(),
{
    if s.len() == k {
        assert(s.take(k) =~= s);
        lemma_digits_value_nonneg(s);
    } else {
        lemma_digits_value_grows(s.drop_last(), k);
        assert(s.drop_last().take(k) =~= s.take(k));
        lemma_digits_value_nonneg(s.drop_last());
    }
}

proof fn lemma_digits_value_nonneg(s: Seq<char>)
    requires
        all_digits(s),
    ensures
        digits_value(s) >= 0,
    decreases s.len(),
{
    if s.len() > 0 {
        lemma_digits_value_nonneg(s.drop_last());
    }
}

proof fn lemma_digit_step(b: Seq<char>, k: int)
    requires
        0 <= k < b.len(),
        all_digits(b.take(k)),
        '0' <= b[k] <= '9',
    ensures
        all_digits(b.take(k + 1)),
        digits_value(b.take(k + 1)) == digits_value(b.take(k)) * 10 + (b[k] as int - 48),
{
    assert(b.take(k + 1).drop_last() =~= b.take(k));
    assert(b.take(k + 1).last() == b[k]);
}

/// The value of the digits of s from index `first` on, when they are all
/// decimal digits and the value is at most 2^31.
fn digits_from(s: &Vec<char>, first: usize) -> (r: Option<i64>)
    requires
        first <= s@.len(),
    ensures
        r is Some <==> (all_digits(s@.subrange(first as int, s@.len() as int)) && digits_value(
            s@.subrange(first as int, s@.len() as int),
        ) <= 2147483648),
        r matches Some(v) ==> v == digits_value(s@.subrange(first as int, s@.len() as int)) && v >= 0,
{
    let n = s.len();
    let ghost b = s@.subrange(first as int, n as int);
    let mut acc: i64 = 0;
    let mut i: usize = first;
    assert(b.take(0) =~= Seq::<char>::empty());
    while i < n
        invariant
            first <= i <= n,
            n == s@.len(),
            b == s@.subrange(first as int, n as int),
            all_digits(b.take(i - first)),
            acc == digits_value(b.take(i - first)),
            0 <= acc <= 2147483648,
        decreases n - i,
    {
        let c = s[i];
        assert(b[i - first] == c);
        if !('0' <= c && c <= '9') {
            return None;
        }
        proof {
            lemma_digit_step(b, i - first);
        }
        let next = acc * 10 + (c as u32 - '0' as u32) as i64;
        if next > 2147483648 {
            proof {
                if all_digits(b) {
                    lemma_digits_value_grows(b, i + 1 - first);
                }
            }
            return None;
        }
        acc = next;
        i += 1;
    }
    assert(b.take(n - first) =~= b);
    Some(acc)
}

/// Reads a whole text as an `i32` the way `str::parse::<i32>` does.
pub fn parse_i32(s: &Vec<char>) -> (r: Option<i32>)
    ensures
        r == spec_parse_i32(s@),
{
    let n = s.len();
    let neg = n > 0 && s[0] == '-';
    let first: usize = if n > 0 && (s[0] == '-' || s[0] == '+') { 1 } else { 0 };
    let ghost body = if s@.len() > 0 && (s@[0] == '-' || s@[0] == '+') {
        s@.drop_first()
    } else {
        s@
    };
    assert(body =~= s@.subrange(first as int, n as int));
    if first == n {
        return None;
    }
    match digits_from(s, first) {
        None => None,
        Some(acc) => {
            if neg {
                Some((-acc) as i32)
            } else if acc > 2147483647 {
                None
            } else {
                Some(acc as i32)
            }
        },
    }
}

/// The decimal digits of a natural number.
pub open spec fn nat_digits(n: nat) -> Seq<char>
    decreases n,
{
    if n < 10 {
        seq![(n + 48) as char]
    } else {
        nat_digits(n / 10) + seq![((n % 10) + 48) as char]
    }
}

/// The decimal text of an integer, with '-' before a negative one.
pub open spec fn decimal(n: int) -> Seq<char> {
    if n < 0 {
        seq!['-'] + nat_digits((-n) as nat)
    } else {
        nat_digits(n as nat)
    }
}

/// The text of a decimal digit.
fn digit_str(d: u64) -> (s: &'static str)
    requires
        d < 10,
    ensures
        s@ == seq![(d + 48) as char],
{
    if d == 0 {
        proof {
            reveal_strlit("0");
        }
        "0"
    } else if d == 1 {
        proof {
            reveal_strlit("1");
        }
        "1"
    } else if d == 2 {
        proof {
            reveal_strlit("2");
        }
        "2"
    } else if d == 3 {
        proof {
            reveal_strlit("3");
        }
        "3"
    } else if d == 4 {
        proof {
            reveal_strlit("4");
        }
        "4"
    } else if d == 5 {
        proof {
            reveal_strlit("5");
        }
        "5"
    } else if d == 6 {
        proof {
            reveal_strlit("6");
        }
        "6"
    } else if d == 7 {
        proof {
            reveal_strlit("7");
        }
        "7"
    } else if d == 8 {
        proof {
            reveal_strlit("8");
        }
        "8"
    } else {
        proof {
            reveal_strlit("9");
        }
        "9"
    }
}

/// Appends the decimal text of `n` to `out`.
pub fn push_decimal(out: &mut String, n: i64)
    requires
        n > i64::MIN,
    ensures
        final(out)@ == old(out)@ + decimal(n as int),
{
    if n < 0 {
        proof {
            reveal_strlit("-");
        }
        out.append("-");
        push_nat(out, (-n) as u64);
        assert(final(out)@ =~= old(out)@ + decimal(n as int));
    } else {
        push_nat(out, n as u64);
    }
}

fn push_nat(out: &mut String, n: u64)
    ensures
        final(out)@ == old(out)@ + nat_digits(n as nat),
    decreases n,
{
    if n < 10 {
        out.append(digit_str(n));
    } else {
        push_nat(out, n / 10);
        let ghost mid = out@;
        out.append(digit_str(n % 10));
        assert(out@ =~= old(out)@ + nat_digits(n as nat));
    }
}


/// `s` with every occurrence of `p` taken out, from left to right without
/// overlaps, as `str::replace(p, "")` gives it.
pub open spec fn remove_all(s: Seq<char>, p: Seq<char>) -> Seq<char>
    decreases s.len(),
{
    if p.len() == 0 || s.len() < p.len() {
        s
    } else if s.take(p.len() as int) == p {
        remove_all(s.skip(p.len() as int), p)
    } else {
        seq![s[0]] + remove_all(s.drop_first(), p)
    }
}

/// `s` with every occurrence of the characters of `lit` taken out.
pub fn remove_text(s: &Vec<char>, lit: &str) -> (t: Vec<char>)
    ensures
        t@ == remove_all(s@, lit@),
{
    let p = chars_of(lit);
    let n = p.len();
    let len = s.len();
    let mut t: Vec<char> = Vec::new();
    let mut k: usize = 0;
    if n == 0 {
        return slice_chars(s, 0, len);
    }
    assert(s@.subrange(0, len as int) =~= s@);
    assert(t@ + remove_all(s@, p@) =~= remove_all(s@, p@));
    while k < len
        invariant
            0 <= k <= len,
            len == s@.len(),
            n == p@.len() > 0,
            p@ == lit@,
            remove_all(s@, p@) == t@ + remove_all(s@.subrange(k as int, len as int), p@),
        ensures
            len - k < n,
            remove_all(s@, p@) == t@ + remove_all(s@.subrange(k as int, len as int), p@),
        decreases len - k,
    {
        let ghost rest = s@.subrange(k as int, len as int);
        if len - k < n {
            break;
        }
        let mut i: usize = 0;
        let mut same = true;
        while i < n
            invariant
                0 <= i <= n,
                n == p@.len(),
                k + n <= len,
                len == s@.len(),
                same == forall|j: int| 0 <= j < i ==> s@[k + j] == p@[j],
            decreases n - i,
        {
            if s[k + i] != p[i] {
                same = false;
            }
            i += 1;
        }
        if same {
            assert(rest.take(n as int) =~= p@);
            assert(rest.skip(n as int) =~= s@.subrange(k + n, len as int));
            assert(remove_all(rest, p@) == remove_all(s@.subrange(k + n, len as int), p@));
            k += n;
        } else {
            assert(rest.take(n as int) != p@) by {
                let j = choose|j: int| 0 <= j < n && s@[k + j] != p@[j];
                assert(rest.take(n as int)[j] != p@[j]);
            }
            assert(rest.drop_first() =~= s@.subrange(k + 1, len as int));
            let ghost before = t@;
            t.push(s[k]);
            assert(t@ =~= before + seq![rest[0]]);
            assert(remove_all(rest, p@) == seq![rest[0]] + remove_all(s@.subrange(k + 1, len as int), p@));
            assert(before + remove_all(rest, p@) =~= t@ + remove_all(s@.subrange(k + 1, len as int), p@));
            k += 1;
        }
    }
    let ghost rest = s@.subrange(k as int, len as int);
    assert(remove_all(rest, p@) == rest);
    let tail = slice_chars(s, k, len);
    let ghost before = t@;
    let mut t = t;
    let mut i: usize = 0;
    while i < tail.len()
        invariant
            0 <= i <= tail@.len(),
            tail@ == rest,
            t@ == before + tail@.take(i as int),
        decreases tail@.len() - i,
    {
        t.push(tail[i]);
        i += 1;
        assert(t@ =~= before + tail@.take(i as int));
    }
    assert(tail@.take(tail@.len() as int) =~= rest);
    t
}

/// Unicode's Alphabetic-or-Numeric test of a character, which
/// `char::is_alphanumeric` makes.
pub uninterp spec fn alphanumeric(c: char) -> bool;

/// Calls `char::is_alphanumeric` (std): whether `c` is alphabetic or
/// numeric by Unicode. Stated: the result is `alphanumeric(c)`, and on ASCII
/// it holds of the letters and digits only. The Unicode tables for other
/// characters are not written out here.
#[verifier::external_body]
fn char_is_alphanumeric(c: char) -> (r: bool)
    ensures
        r == alphanumeric(c),
        (c as u32) < 128 ==> (r == (('a' <= c <= 'z') || ('A' <= c <= 'Z') || ('0' <= c <= '9'))),
{
    c.is_alphanumeric()
}

/// The alphanumeric test of a character: below 128 the ASCII letters and
/// digits, above by Unicode's tables (`alphanumeric`).
pub open spec fn is_alnum(c: char) -> bool {
    if (c as u32) < 128 {
        ('a' <= c <= 'z') || ('A' <= c <= 'Z') || ('0' <= c <= '9')
    } else {
        alphanumeric(c)
    }
}

/// The shape of a move typed without its dash: four bytes, a lower-case
/// letter and a digit first.
pub open spec fn short_move_shape(t: Seq<char>) -> bool {
    &&& utf8_len(t) == 4
    &&& t.len() >= 2
    &&& 'a' <= t[0] <= 'z'
    &&& '0' <= t[1] <= '9'
}

/// Whether a trimmed line looks like a move typed without its dash: of
/// that shape, and every character alphanumeric.
pub open spec fn looks_like_short_move(t: Seq<char>) -> bool {
    &&& short_move_shape(t)
    &&& forall|i: int| 0 <= i < t.len() ==> is_alnum(#[trigger] t[i])
}

/// `t` with a dash put after its first two characters.
pub open spec fn dashed(t: Seq<char>) -> Seq<char> {
    t.take(2) + seq!['-'] + t.skip(2)
}

/// A line as the game reads it: without white space around it, and with a
/// dash put after the first two characters when it looks like a move typed
/// without one ("e2e4" becomes "e2-e4").
pub open spec fn normalized_input(line: Seq<char>) -> Seq<char> {
    let t = trim(line);
    if looks_like_short_move(t) {
        dashed(t)
    } else {
        t
    }
}

/// Puts the dash into a trimmed line `t` of the shape of a short move,
/// given whether all its characters are alphanumeric; other lines are
/// returned as they are.
pub fn dash_short_move(t: &str, all_alnum: bool) -> (res: String)
    ensures
        res@ == (if short_move_shape(t@) && all_alnum {
            dashed(t@)
        } else {
            t@
        }),
{
    let chars = chars_of(t);
    if utf8_len_is(&chars, 4) && all_alnum && chars.len() >= 2 && 'a' <= chars[0] && chars[0] <= 'z'
        && '0' <= chars[1] && chars[1] <= '9' {
        let n = chars.len();
        let mut res = String::from_str(t.substring_char(0, 2));
        proof {
            reveal_strlit("-");
        }
        res.append("-");
        res.append(t.substring_char(2, n));
        assert(res@ =~= dashed(t@));
        res
    } else {
        String::from_str(t)
    }
}

/// The text that the game takes from a line read at the prompt.
pub fn normalize_input(line: &str) -> (res: String)
    ensures
        res@ == normalized_input(line@),
{
    let t = trim_str(line);
    let chars = chars_of(t);
    let mut all_alnum = true;
    let mut i: usize = 0;
    while i < chars.len()
        invariant
            0 <= i <= chars@.len(),
            all_alnum == forall|k: int| 0 <= k < i ==> is_alnum(#[trigger] chars@[k]),
        decreases chars@.len() - i,
    {
        if !char_is_alphanumeric(chars[i]) {
            all_alnum = false;
        }
        i += 1;
    }
    dash_short_move(t, all_alnum)
}

/// Whether an answer asks for a new game: lowered to lower case, the answer
/// without white space around it is "s", which holds exactly of "s" and "S".
pub open spec fn asks_new_game(answer: Seq<char>) -> bool {
    trim(answer) == seq!['s'] || trim(answer) == seq!['S']
}

pub fn wants_new_game(answer: &str) -> (r: bool)
    ensures
        r == asks_new_game(answer@),
{
    let chars = chars_of(answer);
    let t = trim_chars(&chars);
    if t.len() == 1 {
        assert(t@ =~= seq![t@[0]]);
    }
    t.len() == 1 && (t[0] == 's' || t[0] == 'S')
}


/// Calls `String::push` (std), which appends one character to the string.
#[verifier::external_body]
fn string_push(s: &mut String, c: char)
    ensures
        final(s)@ == old(s)@.push(c),
{
    s.push(c);
}

/// A string holding the characters of `v`.
pub fn chars_to_string(v: &Vec<char>) -> (s: String)
    ensures
        s@ == v@,
{
    let mut s = String::new();
    let mut i: usize = 0;
    while i < v.len()
        invariant
            0 <= i <= v@.len(),
            s@ == v@.take(i as int),
        decreases v@.len() - i,
    {
        string_push(&mut s, v[i]);
        i += 1;
        assert(s@ =~= v@.take(i as int));
    }
    assert(v@.take(v@.len() as int) =~= v@);
    s
}

/// Appends the characters of `v` to `s`.
pub fn append_chars(s: &mut String, v: &Vec<char>)
    ensures
        final(s)@ == old(s)@ + v@,
{
    let mut i: usize = 0;
    while i < v.len()
        invariant
            0 <= i <= v@.len(),
            s@ == old(s)@ + v@.take(i as int),
        decreases v@.len() - i,
    {
        string_push(s, v[i]);
        i += 1;
        assert(s@ =~= old(s)@ + v@.take(i as int));
    }
    assert(v@.take(v@.len() as int) =~= v@);
}

/// Reading through a word: from k to e the characters are not white space
/// and s[e] is, so the word from k to e comes first.
pub proof fn lemma_words_skip_word(s: Seq<char>, k: int, e: int)
    requires
        0 <= k < e < s.len(),
        forall|i: int| k <= i < e ==> !spec_is_white_space(#[trigger] s[i]),
        spec_is_white_space(s[e]),
    ensures
        words_from(s, k, -1) == seq![s.subrange(k, e)] + words_from(s, e + 1, -1),
{
    lemma_words_in_word(s, k + 1, e, k);
}

proof fn lemma_words_in_word(s: Seq<char>, i: int, e: int, k: int)
    requires
        0 <= k < i <= e < s.len(),
        forall|t: int| k <= t < e ==> !spec_is_white_space(#[trigger] s[t]),
        spec_is_white_space(s[e]),
    ensures
        words_from(s, i, k) == seq![s.subrange(k, e)] + words_from(s, e + 1, -1),
    decreases e - i,
{
    if i < e {
        lemma_words_in_word(s, i + 1, e, k);
    }
}

/// A text that has a character other than white space at or after k has a
/// word from k on.
pub proof fn lemma_words_nonempty(s: Seq<char>, k: int, m: int)
    requires
        0 <= k <= m < s.len(),
        !spec_is_white_space(s[m]),
    ensures
        words_from(s, k, -1).len() >= 1,
    decreases m - k,
{
    if spec_is_white_space(s[k]) {
        lemma_words_nonempty(s, k + 1, m);
    } else {
        lemma_words_in_any_word(s, k + 1, k);
    }
}

proof fn lemma_words_in_any_word(s: Seq<char>, i: int, start: int)
    requires
        0 <= start < i <= s.len(),
    ensures
        words_from(s, i, start).len() >= 1,
    decreases s.len() - i,
{
    if i < s.len() && !spec_is_white_space(s[i]) {
        lemma_words_in_any_word(s, i + 1, start);
    }
}

} // verus!
