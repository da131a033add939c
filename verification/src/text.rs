//! Character-sequence utilities: ASCII lowercasing and substring search.
//!
//! The benchmark classifies resolver errors by a case-insensitive substring
//! match on their message text; these helpers give that match an exact
//! specification over `Seq<char>`.

use vstd::prelude::*;
use vstd::string::*;

verus! {

broadcast use vstd::string::group_string_axioms;

/// ASCII lowercase of a single character; non-ASCII characters are unchanged.
pub open spec fn lower_char(c: char) -> char {
    if 'A' <= c && c <= 'Z' {
        (((c as u8) + 32) as char)
    } else {
        c
    }
}

/// ASCII lowercase of a character sequence.
pub open spec fn lower_seq(s: Seq<char>) -> Seq<char> {
    s.map_values(|c: char| lower_char(c))
}

/// The needle occurs in the haystack starting at index `i`.
pub open spec fn contains_at(h: Seq<char>, n: Seq<char>, i: int) -> bool {
    0 <= i && i + n.len() <= h.len() && h.subrange(i, i + n.len() as int) == n
}

/// The needle occurs somewhere in the haystack.
pub open spec fn contains_seq(h: Seq<char>, n: Seq<char>) -> bool {
    exists|i: int| contains_at(h, n, i)
}

/// Collect the characters of a string slice into a vector.
pub fn str_chars(s: &str) -> (v: Vec<char>)
    ensures
        v@ == s@,
{
    let n = s.unicode_len();
    let mut v: Vec<char> = Vec::new();
    let mut i: usize = 0;
    while i < n
        invariant
            i <= n,
            n == s@.len(),
            v@ =~= s@.subrange(0, i as int),
        decreases n - i,
    {
        let c = s.get_char(i);
        v.push(c);
        assert(v@ =~= s@.subrange(0, i + 1 as int));
        i += 1;
    }
    assert(v@ =~= s@);
    v
}

/// ASCII-lowercase one character.
pub fn to_lower_char(c: char) -> (r: char)
    ensures
        r == lower_char(c),
{
    if 'A' <= c && c <= 'Z' {
        ((c as u8) + 32) as char
    } else {
        c
    }
}

/// ASCII-lowercase every character of the vector.
pub fn to_lower(v: &Vec<char>) -> (r: Vec<char>)
    ensures
        r@ == lower_seq(v@),
{
    let mut r: Vec<char> = Vec::new();
    let mut i: usize = 0;
    while i < v.len()
        invariant
            i <= v@.len(),
            r@.len() == i,
            forall|k: int| 0 <= k < i ==> r@[k] == lower_char(v@[k]),
        decreases v@.len() - i,
    {
        r.push(to_lower_char(v[i]));
        i += 1;
    }
    assert(r@ =~= lower_seq(v@));
    r
}

/// Are two character vectors equal as sequences?
pub fn chars_eq(a: &Vec<char>, b: &Vec<char>) -> (r: bool)
    ensures
        r == (a@ == b@),
{
    if a.len() != b.len() {
        return false;
    }
    let mut i: usize = 0;
    while i < a.len()
        invariant
            a@.len() == b@.len(),
            i <= a@.len(),
            forall|k: int| 0 <= k < i ==> a@[k] == b@[k],
        decreases a@.len() - i,
    {
        if a[i] != b[i] {
            return false;
        }
        i += 1;
    }
    assert(a@ =~= b@);
    true
}

/// Does the needle match the haystack at position `i`?
fn match_at(h: &Vec<char>, n: &Vec<char>, i: usize) -> (r: bool)
    requires
        i + n@.len() <= h@.len(),
    ensures
        r == contains_at(h@, n@, i as int),
{
    let hl: usize = h.len();
    let mut j: usize = 0;
    while j < n.len()
        invariant
            hl == h@.len(),
            i + n@.len() <= h@.len(),
            j <= n@.len(),
            forall|k: int| 0 <= k < j ==> h@[i + k] == n@[k],
        decreases n@.len() - j,
    {
        if h[i + j] != n[j] {
            assert(h@.subrange(i as int, i + n@.len() as int)[j as int] == h@[i + j]);
            return false;
        }
        j += 1;
    }
    assert(h@.subrange(i as int, i + n@.len() as int) =~= n@);
    true
}

/// Substring search: does the needle occur anywhere in the haystack?
pub fn contains_sub(h: &Vec<char>, n: &Vec<char>) -> (r: bool)
    ensures
        r == contains_seq(h@, n@),
{
    if n.len() > h.len() {
        return false;
    }
    let last = h.len() - n.len();
    let mut i: usize = 0;
    loop
        invariant
            n@.len() <= h@.len(),
            last == h@.len() - n@.len(),
            i <= last,
            forall|k: int| 0 <= k < i ==> !contains_at(h@, n@, k),
        decreases last - i,
    {
        if match_at(h, n, i) {
            return true;
        }
        if i == last {
            assert(forall|k: int| !contains_at(h@, n@, k));
            return false;
        }
        i += 1;
    }
}

/// The text contains, case-insensitively, the word "timeout" or the phrase
/// "timed out".
pub open spec fn is_timeout_text(s: Seq<char>) -> bool {
    contains_seq(lower_seq(s), "timeout"@) || contains_seq(lower_seq(s), "timed out"@)
}

/// Classify an error message as a timeout by case-insensitive substring match.
pub fn text_is_timeout(s: &str) -> (r: bool)
    ensures
        r == is_timeout_text(s@),
{
    let chars = str_chars(s);
    let lowered = to_lower(&chars);
    let n1 = str_chars("timeout");
    let n2 = str_chars("timed out");
    contains_sub(&lowered, &n1) || contains_sub(&lowered, &n2)
}

} // verus!

verus! {

/// ASCII whitespace.
pub open spec fn is_space(c: char) -> bool {
    c == ' ' || c == '\t' || c == '\r' || c == '\n'
}

/// Index of the first occurrence of `sep`, or -1 when it does not occur.
pub open spec fn find_char(s: Seq<char>, sep: char) -> int
    decreases s.len(),
{
    if s.len() == 0 {
        -1
    } else if s.first() == sep {
        0
    } else {
        let r = find_char(s.drop_first(), sep);
        if r < 0 {
            -1
        } else {
            r + 1
        }
    }
}

/// `find_char` returns the first occurrence, or -1 when there is none.
pub proof fn lemma_find_char(s: Seq<char>, sep: char)
    ensures
        find_char(s, sep) < 0 ==> forall|k: int| 0 <= k < s.len() ==> s[k] != sep,
        find_char(s, sep) >= 0 ==> {
            &&& find_char(s, sep) < s.len()
            &&& s[find_char(s, sep)] == sep
            &&& forall|k: int| 0 <= k < find_char(s, sep) ==> s[k] != sep
        },
    decreases s.len(),
{
    if s.len() > 0 && s.first() != sep {
        lemma_find_char(s.drop_first(), sep);
        let r = find_char(s.drop_first(), sep);
        if r >= 0 {
            assert forall|k: int| 0 <= k < r + 1 implies s[k] != sep by {
                if k > 0 {
                    assert(s.drop_first()[k - 1] != sep);
                }
            }
        } else {
            assert forall|k: int| 0 <= k < s.len() implies s[k] != sep by {
                if k > 0 {
                    assert(s.drop_first()[k - 1] != sep);
                }
            }
        }
    }
}

/// The parts of `s` between occurrences of `sep`; always at least one part.
pub open spec fn split_char(s: Seq<char>, sep: char) -> Seq<Seq<char>>
    decreases s.len(),
{
    let i = find_char(s, sep);
    if 0 <= i < s.len() {
        seq![s.subrange(0, i)] + split_char(s.subrange(i + 1, s.len() as int), sep)
    } else {
        seq![s]
    }
}

/// The views of a sequence of character vectors.
pub open spec fn views(ps: Seq<Vec<char>>) -> Seq<Seq<char>> {
    ps.map_values(|p: Vec<char>| p@)
}

/// Copy a subrange of a character vector.
pub fn subrange_to_vec(v: &Vec<char>, a: usize, b: usize) -> (r: Vec<char>)
    requires
        a <= b <= v@.len(),
    ensures
        r@ == v@.subrange(a as int, b as int),
{
    let mut r: Vec<char> = Vec::new();
    let mut i: usize = a;
    while i < b
        invariant
            a <= i <= b <= v@.len(),
            r@ =~= v@.subrange(a as int, i as int),
        decreases b - i,
    {
        r.push(v[i]);
        assert(r@ =~= v@.subrange(a as int, i + 1 as int));
        i += 1;
    }
    assert(r@ =~= v@.subrange(a as int, b as int));
    r
}

/// Find the first occurrence of `sep` at or after `from`.
pub fn find_char_vec(v: &Vec<char>, from: usize, sep: char) -> (r: Option<usize>)
    requires
        from <= v@.len(),
    ensures
        match r {
            Some(i) => from <= i < v@.len() && v@[i as int] == sep && forall|k: int|
                from <= k < i ==> v@[k] != sep,
            None => forall|k: int| from <= k < v@.len() ==> v@[k] != sep,
        },
{
    let mut i: usize = from;
    while i < v.len()
        invariant
            from <= i <= v@.len(),
            forall|k: int| from <= k < i ==> v@[k] != sep,
        decreases v@.len() - i,
    {
        if v[i] == sep {
            return Some(i);
        }
        i += 1;
    }
    None
}

/// Split a character vector on a separator character.
pub fn split_char_vec(v: &Vec<char>, sep: char) -> (r: Vec<Vec<char>>)
    ensures
        views(r@) == split_char(v@, sep),
{
    let n = v.len();
    let mut parts: Vec<Vec<char>> = Vec::new();
    let mut start: usize = 0;
    proof {
        assert(views(parts@) =~= Seq::<Seq<char>>::empty());
        assert(v@.subrange(0, n as int) =~= v@);
        assert(views(parts@) + split_char(v@, sep) =~= split_char(v@, sep));
    }
    loop
        invariant
            start <= n,
            n == v@.len(),
            split_char(v@, sep) == views(parts@) + split_char(
                v@.subrange(start as int, n as int),
                sep,
            ),
        decreases n - start,
    {
        let ghost rest = v@.subrange(start as int, n as int);
        match find_char_vec(v, start, sep) {
            None => {
                proof {
                    lemma_find_char(rest, sep);
                    if find_char(rest, sep) >= 0 {
                        let f = find_char(rest, sep);
                        assert(rest[f] == v@[start + f]);
                        assert(false);
                    }
                    assert(split_char(rest, sep) == seq![rest]);
                }
                let part = subrange_to_vec(v, start, n);
                parts.push(part);
                proof {
                    assert(views(parts@) =~= views(parts@.drop_last()) + seq![rest]);
                    assert(views(parts@) == split_char(v@, sep));
                }
                return parts;
            },
            Some(i) => {
                proof {
                    lemma_find_char(rest, sep);
                    let f = find_char(rest, sep);
                    if f < 0 {
                        assert(rest[i - start] == v@[i as int]);
                        assert(false);
                    }
                    if f < i - start {
                        assert(rest[f] == v@[start + f]);
                        assert(false);
                    }
                    if f > i - start {
                        assert(rest[i - start] == v@[i as int]);
                        assert(false);
                    }
                    assert(f == i - start);
                    assert(split_char(rest, sep) == seq![rest.subrange(0, f)] + split_char(
                        rest.subrange(f + 1, rest.len() as int),
                        sep,
                    ));
                    assert(rest.subrange(0, f) =~= v@.subrange(start as int, i as int));
                    assert(rest.subrange(f + 1, rest.len() as int) =~= v@.subrange(
                        i + 1 as int,
                        n as int,
                    ));
                }
                let ghost head = v@.subrange(start as int, i as int);
                let ghost tail = v@.subrange(i + 1 as int, n as int);
                let part = subrange_to_vec(v, start, i);
                parts.push(part);
                proof {
                    assert(views(parts@) =~= views(parts@.drop_last()) + seq![head]);
                    assert((views(parts@.drop_last()) + seq![head]) + split_char(tail, sep)
                        =~= views(parts@.drop_last()) + (seq![head] + split_char(tail, sep)));
                }
                start = i + 1;
            },
        }
    }
}

} // verus!

verus! {

/// `s` with leading ASCII whitespace removed.
pub open spec fn trim_start_spec(s: Seq<char>) -> Seq<char>
    decreases s.len(),
{
    if s.len() == 0 {
        s
    } else if is_space(s.first()) {
        trim_start_spec(s.drop_first())
    } else {
        s
    }
}

/// `s` with trailing ASCII whitespace removed.
pub open spec fn trim_end_spec(s: Seq<char>) -> Seq<char>
    decreases s.len(),
{
    if s.len() == 0 {
        s
    } else if is_space(s.last()) {
        trim_end_spec(s.drop_last())
    } else {
        s
    }
}

/// `s` with leading and trailing ASCII whitespace removed.
pub open spec fn trim_spec(s: Seq<char>) -> Seq<char> {
    trim_end_spec(trim_start_spec(s))
}

/// Dropping leading whitespace up to the first non-space index is exactly
/// `trim_start_spec`.
proof fn lemma_trim_start(s: Seq<char>, a: int)
    requires
        0 <= a <= s.len(),
        forall|k: int| 0 <= k < a ==> is_space(s[k]),
        a < s.len() ==> !is_space(s[a]),
    ensures
        trim_start_spec(s) == s.subrange(a, s.len() as int),
    decreases a,
{
    if a == 0 {
        if s.len() == 0 {
            assert(s.subrange(0, 0) =~= s);
        } else {
            assert(!is_space(s.first()));
            assert(s.subrange(0, s.len() as int) =~= s);
        }
    } else {
        assert(is_space(s[0]));
        lemma_trim_start(s.drop_first(), a - 1);
        assert(s.drop_first().subrange(a - 1, s.drop_first().len() as int) =~= s.subrange(
            a,
            s.len() as int,
        ));
    }
}

/// Dropping trailing whitespace after the last non-space index is exactly
/// `trim_end_spec`.
proof fn lemma_trim_end(s: Seq<char>, b: int)
    requires
        0 <= b <= s.len(),
        forall|k: int| b <= k < s.len() ==> is_space(s[k]),
        b > 0 ==> !is_space(s[b - 1]),
    ensures
        trim_end_spec(s) == s.subrange(0, b),
    decreases s.len() - b,
{
    if b == s.len() {
        if s.len() == 0 {
            assert(s.subrange(0, 0) =~= s);
        } else {
            assert(!is_space(s.last()));
            assert(s.subrange(0, s.len() as int) =~= s);
        }
    } else {
        assert(is_space(s.last()));
        lemma_trim_end(s.drop_last(), b);
        assert(s.drop_last().subrange(0, b) =~= s.subrange(0, b));
    }
}

/// Is this character ASCII whitespace?
pub fn char_is_space(c: char) -> (r: bool)
    ensures
        r == is_space(c),
{
    c == ' ' || c == '\t' || c == '\r' || c == '\n'
}

/// Remove leading and trailing ASCII whitespace.
pub fn trim_vec(v: &Vec<char>) -> (r: Vec<char>)
    ensures
        r@ == trim_spec(v@),
{
    let n = v.len();
    let mut a: usize = 0;
    while a < n && char_is_space(v[a])
        invariant
            a <= n,
            n == v@.len(),
            forall|k: int| 0 <= k < a ==> is_space(v@[k]),
        decreases n - a,
    {
        a += 1;
    }
    proof {
        lemma_trim_start(v@, a as int);
    }
    let ghost t = v@.subrange(a as int, n as int);
    let mut b: usize = n;
    while b > a && char_is_space(v[b - 1])
        invariant
            a <= b <= n,
            n == v@.len(),
            forall|k: int| b <= k < n ==> is_space(v@[k]),
        decreases b,
    {
        b -= 1;
    }
    proof {
        assert forall|k: int| (b - a) <= k < t.len() implies is_space(t[k]) by {
            assert(t[k] == v@[a + k]);
        }
        if b > a {
            assert(t[b - a - 1] == v@[b - 1]);
        }
        lemma_trim_end(t, b - a as int);
        assert(t.subrange(0, b - a as int) =~= v@.subrange(a as int, b as int));
    }
    subrange_to_vec(v, a, b)
}

/// An ASCII decimal digit.
pub open spec fn is_digit(c: char) -> bool {
    '0' <= c && c <= '9'
}

/// The value of an ASCII decimal digit.
pub open spec fn digit_val(c: char) -> int {
    c as int - '0' as int
}

/// Every character of `s` is a decimal digit.
pub open spec fn all_digits(s: Seq<char>) -> bool {
    forall|k: int| 0 <= k < s.len() ==> is_digit(#[trigger] s[k])
}

/// The value of a decimal digit string.
pub open spec fn dec_val(s: Seq<char>) -> int
    decreases s.len(),
{
    if s.len() == 0 {
        0
    } else {
        dec_val(s.drop_last()) * 10 + digit_val(s.last())
    }
}

/// The value of a digit string is no less than the value of any of its
/// prefixes, and never negative.
proof fn lemma_dec_val_prefix(s: Seq<char>, i: int)
    requires
        all_digits(s),
        0 <= i <= s.len(),
    ensures
        0 <= dec_val(s.subrange(0, i)) <= dec_val(s),
    decreases s.len() - i,
{
    if i == s.len() {
        assert(s.subrange(0, i) =~= s);
        lemma_dec_val_nonneg(s);
    } else {
        lemma_dec_val_prefix(s, i + 1);
        let p = s.subrange(0, i + 1);
        assert(p.drop_last() =~= s.subrange(0, i));
        assert(all_digits(p.drop_last()));
        lemma_dec_val_nonneg(p.drop_last());
        assert(is_digit(s[i]));
        assert(p.last() == s[i]);
        let q = dec_val(s.subrange(0, i));
        assert(q * 10 >= q) by (nonlinear_arith)
            requires
                q >= 0,
        ;
    }
}

/// The value of a digit string is never negative.
proof fn lemma_dec_val_nonneg(s: Seq<char>)
    requires
        all_digits(s),
    ensures
        dec_val(s) >= 0,
    decreases s.len(),
{
    if s.len() > 0 {
        assert(all_digits(s.drop_last()));
        lemma_dec_val_nonneg(s.drop_last());
        assert(is_digit(s.last()));
        let q = dec_val(s.drop_last());
        assert(q * 10 >= 0) by (nonlinear_arith)
            requires
                q >= 0,
        ;
    }
}

/// Parse a decimal digit string into a value, rejecting values above `max`.
/// Succeeds exactly on nonempty all-digit strings whose value is at most
/// `max`.
pub fn parse_dec(v: &Vec<char>, max: u64) -> (r: Option<u64>)
    ensures
        match r {
            Some(x) => v@.len() >= 1 && all_digits(v@) && x == dec_val(v@) && x <= max,
            None => !(v@.len() >= 1 && all_digits(v@) && dec_val(v@) <= max),
        },
{
    if v.len() == 0 {
        return None;
    }
    let mut x: u64 = 0;
    let mut i: usize = 0;
    while i < v.len()
        invariant
            i <= v@.len(),
            v@.len() >= 1,
            forall|k: int| 0 <= k < i ==> is_digit(#[trigger] v@[k]),
            x == dec_val(v@.subrange(0, i as int)),
            x <= max,
        decreases v@.len() - i,
    {
        let c = v[i];
        if !('0' <= c && c <= '9') {
            return None;
        }
        proof {
            assert(v@.subrange(0, i + 1 as int).drop_last() =~= v@.subrange(0, i as int));
            assert(v@.subrange(0, i + 1 as int).last() == v@[i as int]);
        }
        let d: u64 = (c as u32 as u64) - 48;
        let wide: u128 = (x as u128) * 10 + (d as u128);
        if wide > (max as u128) {
            proof {
                let p = v@.subrange(0, i + 1 as int);
                assert(dec_val(p) == x * 10 + d);
                if v@.len() >= 1 && all_digits(v@) && dec_val(v@) <= max {
                    lemma_dec_val_prefix(v@, i + 1);
                }
            }
            return None;
        }
        x = wide as u64;
        i += 1;
    }
    proof {
        assert(v@.subrange(0, v@.len() as int) =~= v@);
    }
    Some(x)
}

/// An ASCII hexadecimal digit.
pub open spec fn is_hex_digit(c: char) -> bool {
    ('0' <= c && c <= '9') || ('a' <= c && c <= 'f') || ('A' <= c && c <= 'F')
}

/// The value of an ASCII hexadecimal digit.
pub open spec fn hex_digit_val(c: char) -> int {
    if '0' <= c && c <= '9' {
        c as int - '0' as int
    } else if 'a' <= c && c <= 'f' {
        c as int - 'a' as int + 10
    } else {
        c as int - 'A' as int + 10
    }
}

/// Every character of `s` is a hexadecimal digit.
pub open spec fn all_hex_digits(s: Seq<char>) -> bool {
    forall|k: int| 0 <= k < s.len() ==> is_hex_digit(#[trigger] s[k])
}

/// The value of a hexadecimal digit string.
pub open spec fn hex_val(s: Seq<char>) -> int
    decreases s.len(),
{
    if s.len() == 0 {
        0
    } else {
        hex_val(s.drop_last()) * 16 + hex_digit_val(s.last())
    }
}

/// A hexadecimal string of at most four digits has a 16-bit value.
pub proof fn lemma_hex_val_tight(s: Seq<char>)
    requires
        all_hex_digits(s),
    ensures
        0 <= hex_val(s),
        s.len() <= 1 ==> hex_val(s) < 0x10,
        s.len() <= 2 ==> hex_val(s) < 0x100,
        s.len() <= 3 ==> hex_val(s) < 0x1000,
        s.len() <= 4 ==> hex_val(s) < 0x10000,
    decreases s.len(),
{
    if s.len() > 0 {
        assert(all_hex_digits(s.drop_last()));
        lemma_hex_val_tight(s.drop_last());
        assert(is_hex_digit(s.last()));
        let q = hex_val(s.drop_last());
        let d = hex_digit_val(s.last());
        assert(0 <= d < 16);
        assert(q * 16 >= 0) by (nonlinear_arith)
            requires
                q >= 0,
        ;
        if s.len() <= 2 {
            assert(q * 16 + d < 0x100) by (nonlinear_arith)
                requires
                    0 <= q < 0x10,
                    d < 16,
            ;
        }
        if s.len() <= 3 {
            assert(q * 16 + d < 0x1000) by (nonlinear_arith)
                requires
                    0 <= q < 0x100,
                    d < 16,
            ;
        }
        if s.len() <= 4 {
            assert(q * 16 + d < 0x10000) by (nonlinear_arith)
                requires
                    0 <= q < 0x1000,
                    d < 16,
            ;
        }
    }
}

/// Parse a hexadecimal digit string of one to `max_len` digits (at most
/// four). Succeeds exactly on nonempty all-hex strings within that length.
pub fn parse_hex(v: &Vec<char>, max_len: usize) -> (r: Option<u16>)
    requires
        1 <= max_len <= 4,
    ensures
        match r {
            Some(x) => 1 <= v@.len() <= max_len && all_hex_digits(v@) && x == hex_val(v@),
            None => !(1 <= v@.len() <= max_len && all_hex_digits(v@)),
        },
{
    if v.len() == 0 || v.len() > max_len {
        return None;
    }
    let mut x: u16 = 0;
    let mut i: usize = 0;
    while i < v.len()
        invariant
            i <= v@.len(),
            1 <= v@.len() <= max_len <= 4,
            forall|k: int| 0 <= k < i ==> is_hex_digit(#[trigger] v@[k]),
            x == hex_val(v@.subrange(0, i as int)),
            x < 0x10000,
        decreases v@.len() - i,
    {
        proof {
            lemma_hex_val_tight(v@.subrange(0, i as int));
        }
        let c = v[i];
        let d: u16 = if '0' <= c && c <= '9' {
            ((c as u32 as u64) - 48) as u16
        } else if 'a' <= c && c <= 'f' {
            ((c as u32 as u64) - 97 + 10) as u16
        } else if 'A' <= c && c <= 'F' {
            ((c as u32 as u64) - 65 + 10) as u16
        } else {
            return None;
        };
        proof {
            assert(v@.subrange(0, i + 1 as int).drop_last() =~= v@.subrange(0, i as int));
            assert(v@.subrange(0, i + 1 as int).last() == v@[i as int]);
            lemma_hex_val_tight(v@.subrange(0, i + 1 as int));
        }
        x = x * 16 + d;
        i += 1;
    }
    proof {
        assert(v@.subrange(0, v@.len() as int) =~= v@);
    }
    Some(x)
}

} // verus!

verus! {

/// The character of a decimal digit value.
pub open spec fn digit_char(d: int) -> char {
    if d == 0 {
        '0'
    } else if d == 1 {
        '1'
    } else if d == 2 {
        '2'
    } else if d == 3 {
        '3'
    } else if d == 4 {
        '4'
    } else if d == 5 {
        '5'
    } else if d == 6 {
        '6'
    } else if d == 7 {
        '7'
    } else if d == 8 {
        '8'
    } else {
        '9'
    }
}

/// The decimal representation of a number, most significant digit first.
pub open spec fn dec_str(n: int) -> Seq<char>
    decreases n,
{
    if n < 10 {
        seq![digit_char(n)]
    } else {
        dec_str(n / 10).push(digit_char(n % 10))
    }
}

/// The one-character string of a decimal digit value.
fn digit_lit(d: u64) -> (r: &'static str)
    requires
        d < 10,
    ensures
        r@ == seq![digit_char(d as int)],
{
    proof {
        reveal_strlit("0");
        reveal_strlit("1");
        reveal_strlit("2");
        reveal_strlit("3");
        reveal_strlit("4");
        reveal_strlit("5");
        reveal_strlit("6");
        reveal_strlit("7");
        reveal_strlit("8");
        reveal_strlit("9");
        assert(seq![digit_char(0)] =~= "0"@);
        assert(seq![digit_char(1)] =~= "1"@);
        assert(seq![digit_char(2)] =~= "2"@);
        assert(seq![digit_char(3)] =~= "3"@);
        assert(seq![digit_char(4)] =~= "4"@);
        assert(seq![digit_char(5)] =~= "5"@);
        assert(seq![digit_char(6)] =~= "6"@);
        assert(seq![digit_char(7)] =~= "7"@);
        assert(seq![digit_char(8)] =~= "8"@);
        assert(seq![digit_char(9)] =~= "9"@);
    }
    if d == 0 {
        "0"
    } else if d == 1 {
        "1"
    } else if d == 2 {
        "2"
    } else if d == 3 {
        "3"
    } else if d == 4 {
        "4"
    } else if d == 5 {
        "5"
    } else if d == 6 {
        "6"
    } else if d == 7 {
        "7"
    } else if d == 8 {
        "8"
    } else {
        "9"
    }
}

/// The decimal representation of a number as a string.
pub fn u64_to_string(n: u64) -> (r: String)
    ensures
        r@ == dec_str(n as int),
    decreases n,
{
    if n < 10 {
        String::from_str(digit_lit(n))
    } else {
        proof {
            vstd::arithmetic::div_mod::lemma_div_is_strictly_smaller(n as int, 10);
        }
        let head = u64_to_string(n / 10);
        let r = head.concat(digit_lit(n % 10));
        proof {
            assert(r@ =~= dec_str((n / 10) as int).push(digit_char((n % 10) as int)));
        }
        r
    }
}

} // verus!

verus! {

/// Find the first occurrence of `sep` in `[from, to)`.
pub fn find_char_in(v: &Vec<char>, from: usize, to: usize, sep: char) -> (r: Option<usize>)
    requires
        from <= to <= v@.len(),
    ensures
        match r {
            Some(i) => from <= i < to && v@[i as int] == sep && forall|k: int|
                from <= k < i ==> v@[k] != sep,
            None => forall|k: int| from <= k < to ==> v@[k] != sep,
        },
{
    let mut i: usize = from;
    while i < to
        invariant
            from <= i <= to <= v@.len(),
            forall|k: int| from <= k < i ==> v@[k] != sep,
        decreases to - i,
    {
        if v[i] == sep {
            return Some(i);
        }
        i += 1;
    }
    None
}

/// The bounds within `[lo, hi)` after trimming ASCII whitespace from both
/// ends: the subrange they delimit is the trimmed text.
pub fn trim_bounds(v: &Vec<char>, lo: usize, hi: usize) -> (r: (usize, usize))
    requires
        lo <= hi <= v@.len(),
    ensures
        lo <= r.0 <= r.1 <= hi,
        v@.subrange(r.0 as int, r.1 as int) == trim_spec(v@.subrange(lo as int, hi as int)),
{
    let ghost s = v@.subrange(lo as int, hi as int);
    let mut a: usize = lo;
    while a < hi && char_is_space(v[a])
        invariant
            lo <= a <= hi,
            hi <= v@.len(),
            forall|k: int| lo <= k < a ==> is_space(v@[k]),
        decreases hi - a,
    {
        a += 1;
    }
    proof {
        assert forall|k: int| 0 <= k < a - lo implies is_space(s[k]) by {
            assert(s[k] == v@[lo + k]);
        }
        if a < hi {
            assert(s[a - lo] == v@[a as int]);
        }
        lemma_trim_start(s, a - lo);
        assert(s.subrange(a - lo, s.len() as int) =~= v@.subrange(a as int, hi as int));
    }
    let ghost t = v@.subrange(a as int, hi as int);
    let mut b: usize = hi;
    while b > a && char_is_space(v[b - 1])
        invariant
            a <= b <= hi,
            hi <= v@.len(),
            forall|k: int| b <= k < hi ==> is_space(v@[k]),
        decreases b,
    {
        b -= 1;
    }
    proof {
        assert forall|k: int| (b - a) <= k < t.len() implies is_space(t[k]) by {
            assert(t[k] == v@[a + k]);
        }
        if b > a {
            assert(t[b - a - 1] == v@[b - 1]);
        }
        lemma_trim_end(t, b - a as int);
        assert(t.subrange(0, b - a as int) =~= v@.subrange(a as int, b as int));
    }
    (a, b)
}

} // verus!

verus! {

/// Index of the first ASCII whitespace character, or -1 when there is none.
pub open spec fn find_space(s: Seq<char>) -> int
    decreases s.len(),
{
    if s.len() == 0 {
        -1
    } else if is_space(s.first()) {
        0
    } else {
        let r = find_space(s.drop_first());
        if r < 0 {
            -1
        } else {
            r + 1
        }
    }
}

/// `find_space` returns the first whitespace position, or -1 when there is
/// none.
pub proof fn lemma_find_space(s: Seq<char>)
    ensures
        find_space(s) < 0 ==> forall|k: int| 0 <= k < s.len() ==> !is_space(#[trigger] s[k]),
        find_space(s) >= 0 ==> {
            &&& find_space(s) < s.len()
            &&& is_space(s[find_space(s)])
            &&& forall|k: int| 0 <= k < find_space(s) ==> !is_space(#[trigger] s[k])
        },
    decreases s.len(),
{
    if s.len() > 0 && !is_space(s.first()) {
        lemma_find_space(s.drop_first());
        let r = find_space(s.drop_first());
        if r >= 0 {
            assert forall|k: int| 0 <= k < r + 1 implies !is_space(#[trigger] s[k]) by {
                if k > 0 {
                    assert(!is_space(s.drop_first()[k - 1]));
                }
            }
        } else {
            assert forall|k: int| 0 <= k < s.len() implies !is_space(#[trigger] s[k]) by {
                if k > 0 {
                    assert(!is_space(s.drop_first()[k - 1]));
                }
            }
        }
    }
}

/// The whitespace-separated words of `s`, in order, without empty words.
pub open spec fn split_ws(s: Seq<char>) -> Seq<Seq<char>>
    decreases s.len(),
{
    if s.len() == 0 {
        Seq::empty()
    } else if is_space(s.first()) {
        split_ws(s.drop_first())
    } else {
        let e = find_space(s);
        if 0 <= e < s.len() {
            seq![s.subrange(0, e)] + split_ws(s.subrange(e, s.len() as int))
        } else {
            seq![s]
        }
    }
}

/// Split a character vector into whitespace-separated words.
pub fn split_ws_vec(v: &Vec<char>) -> (r: Vec<Vec<char>>)
    ensures
        views(r@) == split_ws(v@),
{
    let n = v.len();
    let mut parts: Vec<Vec<char>> = Vec::new();
    let mut pos: usize = 0;
    proof {
        assert(v@.subrange(0, n as int) =~= v@);
        assert(views(parts@) =~= Seq::<Seq<char>>::empty());
        assert(views(parts@) + split_ws(v@) =~= split_ws(v@));
    }
    loop
        invariant
            pos <= n,
            n == v@.len(),
            split_ws(v@) == views(parts@) + split_ws(v@.subrange(pos as int, n as int)),
        decreases n - pos + 1,
    {
        // skip whitespace
        let ghost pos0 = pos;
        while pos < n && char_is_space(v[pos])
            invariant
                pos0 <= pos <= n,
                n == v@.len(),
                split_ws(v@) == views(parts@) + split_ws(v@.subrange(pos as int, n as int)),
            decreases n - pos,
        {
            proof {
                assert(v@.subrange(pos as int, n as int).drop_first() =~= v@.subrange(
                    pos + 1 as int,
                    n as int,
                ));
            }
            pos += 1;
        }
        if pos == n {
            proof {
                assert(v@.subrange(pos as int, n as int) =~= Seq::<char>::empty());
                assert(split_ws(v@.subrange(pos as int, n as int)) =~= Seq::<Seq<char>>::empty());
                assert(views(parts@) =~= views(parts@) + Seq::<Seq<char>>::empty());
            }
            return parts;
        }
        // scan the word
        let start = pos;
        let mut e: usize = pos;
        while e < n && !char_is_space(v[e])
            invariant
                start <= e <= n,
                n == v@.len(),
                forall|k: int| start <= k < e ==> !is_space(#[trigger] v@[k]),
            decreases n - e,
        {
            e += 1;
        }
        let ghost rest = v@.subrange(start as int, n as int);
        proof {
            assert(start < n);
            assert(!is_space(v@[start as int]));
            if e == start {
                assert(false);
            }
            lemma_find_space(rest);
            let f = find_space(rest);
            if e < n {
                if f < 0 {
                    assert(!is_space(rest[e - start]));
                    assert(rest[e - start] == v@[e as int]);
                    assert(false);
                }
                if f < e - start {
                    assert(is_space(rest[f]));
                    assert(rest[f] == v@[start + f]);
                    assert(false);
                }
                if f > e - start {
                    assert(!is_space(rest[e - start]));
                    assert(rest[e - start] == v@[e as int]);
                    assert(false);
                }
                assert(f == e - start);
                assert(split_ws(rest) == seq![rest.subrange(0, f)] + split_ws(
                    rest.subrange(f, rest.len() as int),
                ));
                assert(rest.subrange(0, f) =~= v@.subrange(start as int, e as int));
                assert(rest.subrange(f, rest.len() as int) =~= v@.subrange(e as int, n as int));
            } else {
                if f >= 0 {
                    assert(is_space(rest[f]));
                    assert(rest[f] == v@[start + f]);
                    assert(false);
                }
                assert(split_ws(rest) == seq![rest]);
                assert(rest =~= v@.subrange(start as int, e as int));
                assert(v@.subrange(e as int, n as int) =~= Seq::<char>::empty());
                assert(split_ws(v@.subrange(e as int, n as int)) =~= Seq::<Seq<char>>::empty());
            }
        }
        let word = subrange_to_vec(v, start, e);
        parts.push(word);
        proof {
            assert(views(parts@) =~= views(parts@.drop_last()) + seq![
                v@.subrange(start as int, e as int),
            ]);
            assert((views(parts@.drop_last()) + seq![v@.subrange(start as int, e as int)])
                + split_ws(v@.subrange(e as int, n as int)) =~= views(parts@.drop_last()) + (seq![
                v@.subrange(start as int, e as int),
            ] + split_ws(v@.subrange(e as int, n as int))));
        }
        pos = e;
    }
}

/// `p` is a prefix of `s`.
pub open spec fn has_prefix(s: Seq<char>, p: Seq<char>) -> bool {
    p.len() <= s.len() && s.subrange(0, p.len() as int) == p
}

/// Does the vector start with the given prefix?
pub fn chars_has_prefix(v: &Vec<char>, p: &Vec<char>) -> (r: bool)
    ensures
        r == has_prefix(v@, p@),
{
    if p.len() > v.len() {
        return false;
    }
    let mut i: usize = 0;
    while i < p.len()
        invariant
            p@.len() <= v@.len(),
            i <= p@.len(),
            forall|k: int| 0 <= k < i ==> v@[k] == p@[k],
        decreases p@.len() - i,
    {
        if v[i] != p[i] {
            assert(v@.subrange(0, p@.len() as int)[i as int] == v@[i as int]);
            return false;
        }
        i += 1;
    }
    assert(v@.subrange(0, p@.len() as int) =~= p@);
    true
}

/// Is every character a hexadecimal digit?
pub fn all_hex(v: &Vec<char>) -> (r: bool)
    ensures
        r == all_hex_digits(v@),
{
    let mut i: usize = 0;
    while i < v.len()
        invariant
            i <= v@.len(),
            forall|k: int| 0 <= k < i ==> is_hex_digit(#[trigger] v@[k]),
        decreases v@.len() - i,
    {
        let c = v[i];
        if !(('0' <= c && c <= '9') || ('a' <= c && c <= 'f') || ('A' <= c && c <= 'F')) {
            return false;
        }
        i += 1;
    }
    true
}

} // verus!
