//! Verified text utilities for the line-oriented ASCII protocol:
//! whitespace trimming, case-insensitive command matching, substring
//! search, decimal rendering and JSON string escaping.

use vstd::prelude::*;

verus! {

/// ASCII whitespace, the characters the protocol strips from the ends of
/// a received line.
pub open spec fn is_ws(c: char) -> bool {
    c == ' ' || c == '\t' || c == '\n' || c == '\r' || c == '\u{b}' || c == '\u{c}'
}

/// `s` without its leading whitespace.
pub open spec fn trim_front(s: Seq<char>) -> Seq<char>
    decreases s.len(),
{
    if s.len() > 0 && is_ws(s[0]) {
        trim_front(s.skip(1))
    } else {
        s
    }
}

/// `s` without its trailing whitespace.
pub open spec fn trim_back(s: Seq<char>) -> Seq<char>
    decreases s.len(),
{
    if s.len() > 0 && is_ws(s[s.len() - 1]) {
        trim_back(s.take(s.len() - 1))
    } else {
        s
    }
}

/// `s` without leading and trailing whitespace.
pub open spec fn spec_trim(s: Seq<char>) -> Seq<char> {
    trim_back(trim_front(s))
}

/// If the first `i` characters are whitespace, trimming the front of `s`
/// trims the front of `s.skip(i)`.
proof fn lemma_trim_front_skip(s: Seq<char>, i: int)
    requires
        0 <= i <= s.len(),
        forall|j: int| 0 <= j < i ==> is_ws(s[j]),
    ensures
        trim_front(s) == trim_front(s.skip(i)),
    decreases i,
{
    if i > 0 {
        assert(s.skip(1).skip(i - 1) =~= s.skip(i));
        lemma_trim_front_skip(s.skip(1), i - 1);
    } else {
        assert(s.skip(0) =~= s);
    }
}

/// A sequence whose first character is not whitespace is already
/// front-trimmed.
proof fn lemma_trim_front_noop(s: Seq<char>)
    requires
        s.len() == 0 || !is_ws(s[0]),
    ensures
        trim_front(s) == s,
{
}

/// If every character from `i` on is whitespace, trimming the back of `s`
/// trims the back of `s.take(i)`.
proof fn lemma_trim_back_take(s: Seq<char>, i: int)
    requires
        0 <= i <= s.len(),
        forall|j: int| i <= j < s.len() ==> is_ws(s[j]),
    ensures
        trim_back(s) == trim_back(s.take(i)),
    decreases s.len() - i,
{
    if i < s.len() {
        assert(s.take(s.len() - 1).take(i) =~= s.take(i));
        lemma_trim_back_take(s.take(s.len() - 1), i);
    } else {
        assert(s.take(s.len() as int) =~= s);
    }
}

/// A sequence whose last character is not whitespace is already
/// back-trimmed.
proof fn lemma_trim_back_noop(s: Seq<char>)
    requires
        s.len() == 0 || !is_ws(s[s.len() - 1]),
    ensures
        trim_back(s) == s,
{
}

/// Strips leading and trailing whitespace from a line, as the session
/// handler does before dispatching on it.
pub fn trim_line<'a>(s: &'a str) -> (r: &'a str)
    ensures
        r@ == spec_trim(s@),
{
    let n = s.unicode_len();
    let mut start: usize = 0;
    while start < n && is_ws_exec(s.get_char(start))
        invariant
            0 <= start <= n,
            n == s@.len(),
            forall|j: int| 0 <= j < start ==> is_ws(s@[j]),
        decreases n - start,
    {
        start = start + 1;
    }
    let mut end: usize = n;
    while end > start && is_ws_exec(s.get_char(end - 1))
        invariant
            start <= end <= n,
            n == s@.len(),
            forall|j: int| 0 <= j < start ==> is_ws(s@[j]),
            forall|j: int| end <= j < n ==> is_ws(s@[j]),
        decreases end,
    {
        end = end - 1;
    }
    let r = s.substring_char(start, end);
    proof {
        lemma_trim_front_skip(s@, start as int);
        let f = s@.skip(start as int);
        lemma_trim_back_take(f, end - start);
        assert(f.take(end - start) =~= s@.subrange(start as int, end as int));
        let t = f.take(end - start);
        if start < end {
            assert(!is_ws(t[0]));
            assert(!is_ws(t[t.len() - 1]));
        }
        lemma_trim_front_noop(t);
        lemma_trim_back_noop(t);
    }
    r
}

/// Whether `c` is ASCII whitespace.
fn is_ws_exec(c: char) -> (r: bool)
    ensures
        r == is_ws(c),
{
    c == ' ' || c == '\t' || c == '\n' || c == '\r' || c == '\u{b}' || c == '\u{c}'
}

/// `c` read case-insensitively equals the lower-case letter `l`: either
/// the characters are equal, or `c` is the ASCII upper-case form of `l`.
pub open spec fn ci_eq(c: char, l: char) -> bool {
    c == l || (65 <= c as u32 <= 90 && c as u32 + 32 == l as u32)
}

/// `p` (all lower case) is a case-insensitive prefix of `s`.
pub open spec fn ci_prefix(s: Seq<char>, p: Seq<char>) -> bool {
    p.len() <= s.len() && forall|i: int| 0 <= i < p.len() ==> ci_eq(s[i], p[i])
}

/// Case-insensitive prefix test: does `s` start with the lower-case
/// ASCII word `p`, in any capitalisation?
pub fn starts_with_ci(s: &str, p: &str) -> (r: bool)
    ensures
        r == ci_prefix(s@, p@),
{
    let n = s.unicode_len();
    let m = p.unicode_len();
    if m > n {
        return false;
    }
    let mut i: usize = 0;
    while i < m
        invariant
            0 <= i <= m <= n,
            n == s@.len(),
            m == p@.len(),
            forall|j: int| 0 <= j < i ==> ci_eq(s@[j], p@[j]),
        decreases m - i,
    {
        let c = s.get_char(i);
        let l = p.get_char(i);
        let cu = c as u32;
        let lu = l as u32;
        if !(c == l || (65 <= cu && cu <= 90 && cu + 32 == lu)) {
            return false;
        }
        i = i + 1;
    }
    true
}

/// `p` is a (case-sensitive) prefix of `s`.
pub open spec fn is_prefix(s: Seq<char>, p: Seq<char>) -> bool {
    p.len() <= s.len() && s.subrange(0, p.len() as int) == p
}

/// Case-sensitive prefix test.
pub fn starts_with(s: &str, p: &str) -> (r: bool)
    ensures
        r == is_prefix(s@, p@),
{
    let n = s.unicode_len();
    let m = p.unicode_len();
    if m > n {
        return false;
    }
    let mut i: usize = 0;
    while i < m
        invariant
            0 <= i <= m <= n,
            n == s@.len(),
            m == p@.len(),
            forall|j: int| 0 <= j < i ==> s@[j] == p@[j],
        decreases m - i,
    {
        if s.get_char(i) != p.get_char(i) {
            proof {
                assert(s@.subrange(0, m as int)[i as int] != p@[i as int]);
            }
            return false;
        }
        i = i + 1;
    }
    proof {
        assert(s@.subrange(0, m as int) =~= p@);
    }
    true
}

/// Character-for-character equality of two string slices.
pub fn str_eq(a: &str, b: &str) -> (r: bool)
    ensures
        r == (a@ == b@),
{
    let n = a.unicode_len();
    let m = b.unicode_len();
    if n != m {
        proof {
            assert(a@ != b@) by {
                if a@ == b@ {
                    assert(a@.len() == b@.len());
                }
            }
        }
        return false;
    }
    let mut i: usize = 0;
    while i < n
        invariant
            0 <= i <= n,
            n == a@.len(),
            n == b@.len(),
            forall|j: int| 0 <= j < i ==> a@[j] == b@[j],
        decreases n - i,
    {
        if a.get_char(i) != b.get_char(i) {
            return false;
        }
        i = i + 1;
    }
    proof {
        assert(a@ =~= b@);
    }
    true
}

/// Whole-string ASCII case-insensitive equality against the lower-case
/// word `p`.
pub open spec fn ci_equal(s: Seq<char>, p: Seq<char>) -> bool {
    s.len() == p.len() && ci_prefix(s, p)
}

/// Does `s`, lowered, equal the lower-case ASCII word `p`?
pub fn equals_ci(s: &str, p: &str) -> (r: bool)
    ensures
        r == ci_equal(s@, p@),
{
    if s.unicode_len() != p.unicode_len() {
        return false;
    }
    starts_with_ci(s, p)
}

/// `p` occurs in `s` starting at position `i`.
pub open spec fn occurs_at(s: Seq<char>, p: Seq<char>, i: int) -> bool {
    0 <= i && i + p.len() <= s.len() && s.subrange(i, i + p.len()) == p
}

/// `p` occurs somewhere in `s`.
pub open spec fn contains_seq(s: Seq<char>, p: Seq<char>) -> bool {
    exists|i: int| occurs_at(s, p, i)
}

/// Substring search: does `p` occur anywhere in `s`?
pub fn contains_str(s: &str, p: &str) -> (r: bool)
    ensures
        r == contains_seq(s@, p@),
{
    let n = s.unicode_len();
    let m = p.unicode_len();
    if m > n {
        proof {
            assert(forall|i: int| !occurs_at(s@, p@, i));
        }
        return false;
    }
    if m == 0 {
        proof {
            assert(s@.subrange(0, 0) =~= p@);
            assert(occurs_at(s@, p@, 0));
        }
        return true;
    }
    let mut i: usize = 0;
    while i <= n - m
        invariant
            1 <= m <= n,
            0 <= i <= n - m + 1,
            n == s@.len(),
            m == p@.len(),
            forall|k: int| 0 <= k < i ==> !occurs_at(s@, p@, k),
        decreases n - m - i + 1,
    {
        let mut j: usize = 0;
        let mut matched = true;
        while j < m
            invariant
                0 <= j <= m,
                i + m <= n,
                n == s@.len(),
                m == p@.len(),
                matched ==> forall|k: int| 0 <= k < j ==> s@[i + k] == p@[k],
                !matched ==> !occurs_at(s@, p@, i as int),
            decreases m - j,
        {
            if s.get_char(i + j) != p.get_char(j) {
                proof {
                    if occurs_at(s@, p@, i as int) {
                        assert(s@.subrange(i as int, i + m)[j as int] == p@[j as int]);
                    }
                }
                matched = false;
                j = m;
            } else {
                j = j + 1;
            }
        }
        if matched {
            proof {
                assert(s@.subrange(i as int, i + m) =~= p@);
                assert(occurs_at(s@, p@, i as int));
            }
            return true;
        }
        i = i + 1;
    }
    proof {
        assert(forall|k: int| !occurs_at(s@, p@, k));
    }
    false
}

/// The characters of `s` from position `k` on; empty if `s` is shorter
/// than `k`.
pub open spec fn skip_chars(s: Seq<char>, k: int) -> Seq<char> {
    if k <= s.len() {
        s.skip(k)
    } else {
        Seq::<char>::empty()
    }
}

/// Returns the tail of `s` from character position `k` on (empty when the
/// line is shorter than `k`).
pub fn suffix_from<'a>(s: &'a str, k: usize) -> (r: &'a str)
    ensures
        r@ == skip_chars(s@, k as int),
{
    let n = s.unicode_len();
    if k > n {
        let e = s.substring_char(n, n);
        proof {
            assert(e@ =~= Seq::<char>::empty());
        }
        e
    } else {
        let r = s.substring_char(k, n);
        proof {
            assert(r@ =~= s@.skip(k as int));
        }
        r
    }
}

/// The decimal digit character for `d` (< 10).
pub open spec fn digit_char(d: int) -> char {
    if d == 0 {
        '0'
    } else if d == 1 {
        '1'
    } else if d == 2 {
        '2'
    } else if d == 3 {
        '3'
    } else if d == 4 {
        '4'
    } else if d == 5 {
        '5'
    } else if d == 6 {
        '6'
    } else if d == 7 {
        '7'
    } else if d == 8 {
        '8'
    } else {
        '9'
    }
}

/// The decimal representation of `n`, most significant digit first.
pub open spec fn dec_seq(n: nat) -> Seq<char>
    decreases n,
{
    if n < 10 {
        seq![digit_char(n as int)]
    } else {
        dec_seq(n / 10).push(digit_char((n % 10) as int))
    }
}

/// One decimal digit as a string slice.
fn digit_str(d: u64) -> (r: &'static str)
    requires
        d < 10,
    ensures
        r@ == seq![digit_char(d as int)],
{
    proof {
        reveal_strlit("0");
        reveal_strlit("1");
        reveal_strlit("2");
        reveal_strlit("3");
        reveal_strlit("4");
        reveal_strlit("5");
        reveal_strlit("6");
        reveal_strlit("7");
        reveal_strlit("8");
        reveal_strlit("9");
    }
    if d == 0 {
        "0"
    } else if d == 1 {
        "1"
    } else if d == 2 {
        "2"
    } else if d == 3 {
        "3"
    } else if d == 4 {
        "4"
    } else if d == 5 {
        "5"
    } else if d == 6 {
        "6"
    } else if d == 7 {
        "7"
    } else if d == 8 {
        "8"
    } else {
        "9"
    }
}

/// Renders `n` in decimal.
pub fn u64_to_string(n: u64) -> (r: String)
    ensures
        r@ == dec_seq(n as nat),
    decreases n,
{
    if n < 10 {
        String::from_str(digit_str(n))
    } else {
        let mut s = u64_to_string(n / 10);
        s.append(digit_str(n % 10));
        s
    }
}

/// How a character appears inside a JSON string literal: quote and
/// backslash get a backslash escape, everything else stands as itself.
pub open spec fn esc_char(c: char) -> Seq<char> {
    if c == '"' || c == '\\' {
        seq!['\\', c]
    } else {
        seq![c]
    }
}

/// A whole sequence escaped for use inside a JSON string literal.
pub open spec fn esc_seq(s: Seq<char>) -> Seq<char>
    decreases s.len(),
{
    if s.len() == 0 {
        Seq::<char>::empty()
    } else {
        esc_char(s[0]) + esc_seq(s.skip(1))
    }
}

/// Escaping distributes over taking one more character at the front.
proof fn lemma_esc_take(s: Seq<char>, i: int)
    requires
        0 <= i < s.len(),
    ensures
        esc_seq(s.take(i + 1)) == esc_seq(s.take(i)) + esc_char(s[i]),
    decreases i,
{
    let t = s.take(i + 1);
    if i == 0 {
        assert(t.len() == 1);
        assert(t[0] == s[0]);
        assert(t.skip(1) =~= Seq::<char>::empty());
        assert(esc_seq(Seq::<char>::empty()) =~= Seq::<char>::empty());
        assert(esc_seq(t) == esc_char(t[0]) + esc_seq(t.skip(1)));
        assert(esc_char(s[0]) + esc_seq(Seq::<char>::empty()) =~= esc_char(s[0]));
        assert(s.take(0) =~= Seq::<char>::empty());
        assert(esc_seq(s.take(0)) + esc_char(s[0]) =~= esc_char(s[0]));
    } else {
        lemma_esc_take(s.skip(1), i - 1);
        assert(t.skip(1) =~= s.skip(1).take(i));
        assert(s.take(i).skip(1) =~= s.skip(1).take(i - 1));
        assert(esc_seq(s.take(i + 1)) == esc_char(s[0]) + esc_seq(s.skip(1).take(i)));
        assert(esc_seq(s.take(i)) == esc_char(s[0]) + esc_seq(s.skip(1).take(i - 1)));
        assert(esc_char(s[0]) + (esc_seq(s.skip(1).take(i - 1)) + esc_char(s[i]))
            =~= (esc_char(s[0]) + esc_seq(s.skip(1).take(i - 1))) + esc_char(s[i]));
        assert(s.skip(1)[i - 1] == s[i]);
    }
}

/// Appends `s`, escaped for a JSON string literal, to `out`.
pub fn append_escaped(out: &mut String, s: &str)
    ensures
        final(out)@ == old(out)@ + esc_seq(s@),
{
    let n = s.unicode_len();
    let mut i: usize = 0;
    proof {
        assert(s@.take(0) =~= Seq::<char>::empty());
        assert(out@ + esc_seq(s@.take(0)) =~= out@);
    }
    let ghost start = out@;
    while i < n
        invariant
            0 <= i <= n,
            n == s@.len(),
            out@ == start + esc_seq(s@.take(i as int)),
        decreases n - i,
    {
        let c = s.get_char(i);
        if c == '"' || c == '\\' {
            out.append("\\");
            proof {
                reveal_strlit("\\");
            }
        }
        let piece = s.substring_char(i, i + 1);
        out.append(piece);
        proof {
            lemma_esc_take(s@, i as int);
            assert(piece@ =~= seq![s@[i as int]]);
            if s@[i as int] == '"' || s@[i as int] == '\\' {
                assert(start + esc_seq(s@.take(i as int)) + seq!['\\'] + piece@
                    =~= start + esc_seq(s@.take(i + 1)));
            } else {
                assert(start + esc_seq(s@.take(i as int)) + piece@
                    =~= start + esc_seq(s@.take(i + 1)));
            }
        }
        i = i + 1;
    }
    proof {
        assert(s@.take(n as int) =~= s@);
    }
}

} // verus!
