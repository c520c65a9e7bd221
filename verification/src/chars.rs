//! Character-sequence scanning and decimal numerals, over `str` and `String`.

use vstd::prelude::*;
use vstd::string::*;

verus! {

/// Index of the first `c` in `s` at or after `i`.
pub open spec fn find_char_from(s: Seq<char>, c: char, i: int) -> Option<int>
    decreases s.len() - i,
{
    if i < 0 || i >= s.len() {
        None
    } else if s[i] == c {
        Some(i)
    } else {
        find_char_from(s, c, i + 1)
    }
}

/// What the first `c` at or after `i` is: a `c`, with none between `i` and it.
pub proof fn lemma_find_char_found(s: Seq<char>, c: char, i: int)
    ensures
        find_char_from(s, c, i) matches Some(k) ==> i <= k < s.len() && s[k] == c && forall|
            j: int,
        |
            i <= j < k ==> s[j] != c,
        find_char_from(s, c, i) is None && 0 <= i ==> forall|j: int| i <= j < s.len() ==> s[j] != c,
    decreases s.len() - i,
{
    if i >= 0 && i < s.len() && s[i] != c {
        lemma_find_char_found(s, c, i + 1);
    }
}

/// With no `c` in `a` and `b` empty or starting with `c`, the first `c` in `a + b` at or after
/// `i <= a.len()` is where `b` starts.
pub proof fn lemma_find_char_concat(a: Seq<char>, b: Seq<char>, c: char, i: int)
    requires
        0 <= i <= a.len(),
        forall|j: int| 0 <= j < a.len() ==> a[j] != c,
        b.len() > 0 ==> b[0] == c,
    ensures
        find_char_from(a + b, c, i) == (if b.len() > 0 {
            Some(a.len() as int)
        } else {
            None::<int>
        }),
    decreases a.len() - i,
{
    if i < a.len() {
        assert((a + b)[i] == a[i]);
        lemma_find_char_concat(a, b, c, i + 1);
    } else if b.len() > 0 {
        assert((a + b)[i] == b[0]);
    }
}

/// Index of the last `c` in `s` before position `n`.
pub open spec fn rfind_char_before(s: Seq<char>, c: char, n: int) -> Option<int>
    decreases n,
{
    if n <= 0 || n > s.len() {
        None
    } else if s[n - 1] == c {
        Some(n - 1)
    } else {
        rfind_char_before(s, c, n - 1)
    }
}

/// Index of the last `c` in `s`.
pub open spec fn rfind_char(s: Seq<char>, c: char) -> Option<int> {
    rfind_char_before(s, c, s.len() as int)
}

/// The ASCII digit character for `d < 10`.
pub open spec fn digit_char(d: int) -> char {
    (d + 48) as char
}

pub open spec fn is_digit(c: char) -> bool {
    '0' <= c && c <= '9'
}

pub open spec fn all_digits(s: Seq<char>) -> bool {
    forall|i: int| 0 <= i < s.len() ==> is_digit(#[trigger] s[i])
}

/// The number that a string of ASCII digits spells in base ten.
pub open spec fn decimal_value(s: Seq<char>) -> int
    decreases s.len(),
{
    if s.len() == 0 {
        0
    } else {
        decimal_value(s.drop_last()) * 10 + (s.last() as int - 48)
    }
}

/// The shortest base-ten numeral of `n`.
pub open spec fn decimal_chars(n: nat) -> Seq<char>
    decreases n,
{
    if n < 10 {
        seq![digit_char(n as int)]
    } else {
        decimal_chars(n / 10).push(digit_char((n % 10) as int))
    }
}

/// The numeral of `n` is a non-empty string of digits that spells `n`.
pub proof fn lemma_decimal_chars(n: nat)
    ensures
        decimal_chars(n).len() >= 1,
        all_digits(decimal_chars(n)),
        decimal_value(decimal_chars(n)) == n,
    decreases n,
{
    if n >= 10 {
        lemma_decimal_chars(n / 10);
        let s = decimal_chars(n);
        assert(s.drop_last() == decimal_chars(n / 10));
        let d = (n % 10) as int;
        assert(digit_char(d) as int == d + 48);
        assert(n == (n / 10) * 10 + d);
        assert(s.last() == digit_char(d));
        assert(decimal_value(s) == decimal_value(s.drop_last()) * 10 + (s.last() as int - 48));
    } else {
        let s = decimal_chars(n);
        assert(s.last() == digit_char(n as int));
        assert(decimal_value(s) == decimal_value(s.drop_last()) * 10 + (s.last() as int - 48));
        assert(decimal_chars(n).drop_last() =~= Seq::<char>::empty());
        assert(digit_char(n as int) as int == n + 48);
    }
}

/// A prefix of a digit string spells a number no larger than the whole.
pub proof fn lemma_decimal_prefix_le(s: Seq<char>, k: int)
    requires
        all_digits(s),
        0 <= k <= s.len(),
    ensures
        0 <= decimal_value(s.take(k)) <= decimal_value(s),
    decreases s.len(),
{
    if s.len() > 0 {
        let init = s.drop_last();
        assert(all_digits(init)) by {
            assert forall|i: int| 0 <= i < init.len() implies is_digit(#[trigger] init[i]) by {
                assert(init[i] == s[i]);
            }
        }
        assert(is_digit(s[s.len() - 1]));
        if k == s.len() {
            assert(s.take(k) =~= s);
            lemma_decimal_prefix_le(init, init.len() as int);
            assert(init.take(init.len() as int) =~= init);
        } else {
            lemma_decimal_prefix_le(init, k);
            assert(init.take(k) =~= s.take(k));
            lemma_decimal_prefix_le(init, init.len() as int);
            assert(init.take(init.len() as int) =~= init);
        }
    } else {
        assert(s.take(k) =~= s);
    }
}

/// Calls `String::push`: the string gains `c` at its end.
#[verifier::external_body]
fn push_char(s: &mut String, c: char)
    ensures
        final(s)@ == old(s)@.push(c),
{
    s.push(c);
}

/// Whether `c` is uppercase, by the Unicode `Uppercase` property that `char::is_uppercase`
/// reads.
pub uninterp spec fn unicode_uppercase(c: char) -> bool;

/// Calls `char::is_uppercase`.
#[verifier::external_body]
fn is_uppercase(c: char) -> (r: bool)
    ensures
        r == unicode_uppercase(c),
{
    c.is_uppercase()
}

/// `c` with ASCII `A`..`Z` mapped to `a`..`z`.
pub open spec fn ascii_lower(c: char) -> char {
    if 'A' <= c && c <= 'Z' {
        ((c as u32) + 32) as char
    } else {
        c
    }
}

/// The snake-case form of `name`: an `_` before every uppercase character but the first,
/// and ASCII letters lowered.
pub open spec fn spec_snake_case(name: Seq<char>) -> Seq<char>
    decreases name.len(),
{
    if name.len() == 0 {
        Seq::empty()
    } else {
        let c = name.last();
        let sep = if unicode_uppercase(c) && name.len() > 1 {
            seq!['_']
        } else {
            Seq::empty()
        };
        spec_snake_case(name.drop_last()) + sep + seq![ascii_lower(c)]
    }
}

/// The snake-case form of a type name (`FlexString` gives `flex_string`).
pub fn snake_case(name: &str) -> (r: String)
    ensures
        r@ == spec_snake_case(name@),
{
    let cs = chars_of(name);
    let n = cs.len();
    let mut out: Vec<char> = Vec::new();
    let mut i: usize = 0;
    while i < n
        invariant
            n == cs@.len(),
            cs@ == name@,
            i <= n,
            out@ == spec_snake_case(name@.take(i as int)),
        decreases n - i,
    {
        let c = cs[i];
        if is_uppercase(c) && i > 0 {
            out.push('_');
        }
        let lower: char = if 'A' <= c && c <= 'Z' {
            ((c as u8) + 32) as char
        } else {
            c
        };
        proof {
            if 'A' <= c && c <= 'Z' {
                assert(lower == ascii_lower(c));
            }
        }
        out.push(lower);
        proof {
            let t = name@.take(i + 1);
            assert(t.drop_last() =~= name@.take(i as int));
            assert(t.last() == c);
        }
        i = i + 1;
        assert(out@ =~= spec_snake_case(name@.take(i as int)));
    }
    assert(name@.take(n as int) =~= name@);
    string_of(out.as_slice())
}

/// Calls `Vec::shrink_to_fit`, which gives back unused capacity and keeps the contents.
#[verifier::external_body]
pub(crate) fn shrink_vec(v: &mut Vec<u8>)
    ensures
        final(v)@ == old(v)@,
{
    v.shrink_to_fit();
}

/// The characters of `s`.
pub fn chars_of(s: &str) -> (r: Vec<char>)
    ensures
        r@ == s@,
{
    let n = s.unicode_len();
    let mut v: Vec<char> = Vec::new();
    let mut i: usize = 0;
    while i < n
        invariant
            n == s@.len(),
            i <= n,
            v@ == s@.take(i as int),
        decreases n - i,
    {
        let c = s.get_char(i);
        v.push(c);
        i = i + 1;
        assert(v@ =~= s@.take(i as int));
    }
    assert(s@.take(n as int) =~= s@);
    v
}

/// The string of the characters `cs`.
pub fn string_of(cs: &[char]) -> (r: String)
    ensures
        r@ == cs@,
{
    let mut s = String::new();
    let n = cs.len();
    let mut i: usize = 0;
    while i < n
        invariant
            n == cs@.len(),
            i <= n,
            s@ == cs@.take(i as int),
        decreases n - i,
    {
        push_char(&mut s, cs[i]);
        i = i + 1;
        assert(s@ =~= cs@.take(i as int));
    }
    assert(cs@.take(n as int) =~= cs@);
    s
}

/// Append the characters of `s` to `out`.
pub fn extend_chars(out: &mut Vec<char>, s: &str)
    ensures
        final(out)@ == old(out)@ + s@,
{
    let cs = chars_of(s);
    let n = cs.len();
    let mut i: usize = 0;
    while i < n
        invariant
            n == cs@.len(),
            cs@ == s@,
            i <= n,
            out@ == old(out)@ + s@.take(i as int),
        decreases n - i,
    {
        out.push(cs[i]);
        i = i + 1;
        assert(out@ =~= old(out)@ + s@.take(i as int));
    }
    assert(s@.take(n as int) =~= s@);
}

/// Index of the first `c` in `s` at or after `from`.
pub fn find_char(s: &[char], c: char, from: usize) -> (r: Option<usize>)
    ensures
        r matches Some(i) ==> find_char_from(s@, c, from as int) == Some(i as int),
        r is None ==> find_char_from(s@, c, from as int) is None,
{
    let n = s.len();
    let mut i: usize = from;
    if i >= n {
        return None;
    }
    while i < n
        invariant
            n == s@.len(),
            from <= i <= n,
            find_char_from(s@, c, from as int) == find_char_from(s@, c, i as int),
        decreases n - i,
    {
        if s[i] == c {
            return Some(i);
        }
        i = i + 1;
    }
    None
}

/// Index of the last `c` in `s`.
pub fn rfind_char_in(s: &[char], c: char) -> (r: Option<usize>)
    ensures
        r matches Some(i) ==> rfind_char(s@, c) == Some(i as int),
        r is None ==> rfind_char(s@, c) is None,
{
    let mut n: usize = s.len();
    while n > 0
        invariant
            n <= s@.len(),
            rfind_char(s@, c) == rfind_char_before(s@, c, n as int),
        decreases n,
    {
        if s[n - 1] == c {
            return Some(n - 1);
        }
        n = n - 1;
    }
    None
}

/// Append the base-ten numeral of `n` to `out`.
pub fn push_decimal(out: &mut Vec<char>, n: u64)
    ensures
        final(out)@ == old(out)@ + decimal_chars(n as nat),
    decreases n,
{
    if n >= 10 {
        push_decimal(out, n / 10);
    }
    let d: u8 = (n % 10) as u8;
    assert(d < 10);
    let c: char = (d + 48) as char;
    assert(c == digit_char(d as int));
    out.push(c);
    assert(out@ =~= old(out)@ + decimal_chars(n as nat));
}

/// The value of the digit string `s` when it fits in a `u16`; `None` when `s` is empty,
/// holds a non-digit, or spells a larger number.
pub fn parse_u16(s: &[char]) -> (r: Option<u16>)
    ensures
        r matches Some(v) ==> s@.len() > 0 && all_digits(s@) && decimal_value(s@) == v,
        r is None ==> !(s@.len() > 0 && all_digits(s@) && decimal_value(s@) <= u16::MAX),
{
    let n = s.len();
    if n == 0 {
        return None;
    }
    let mut i: usize = 0;
    while i < n
        invariant
            n == s@.len(),
            i <= n,
            all_digits(s@.take(i as int)),
        decreases n - i,
    {
        let c = s[i];
        if !('0' <= c && c <= '9') {
            assert(!is_digit(s@[i as int]));
            return None;
        }
        i = i + 1;
        assert(all_digits(s@.take(i as int))) by {
            assert forall|k: int| 0 <= k < i implies is_digit(#[trigger] s@.take(i as int)[k]) by {
                if k < i - 1 {
                    assert(s@.take(i as int)[k] == s@.take(i - 1)[k]);
                }
            }
        }
    }
    assert(s@.take(n as int) =~= s@);
    let mut v: u32 = 0;
    let mut k: usize = 0;
    while k < n
        invariant
            n == s@.len(),
            k <= n,
            all_digits(s@),
            v == decimal_value(s@.take(k as int)),
            v <= u16::MAX,
        decreases n - k,
    {
        let c = s[k];
        assert(is_digit(s@[k as int]));
        let d: u32 = (c as u32) - 48;
        let nv: u32 = v * 10 + d;
        proof {
            let t = s@.take(k + 1);
            assert(t.drop_last() =~= s@.take(k as int));
            assert(t.last() == c);
        }
        if nv > 65535 {
            proof {
                lemma_decimal_prefix_le(s@, k + 1);
            }
            return None;
        }
        v = nv;
        k = k + 1;
    }
    Some(v as u16)
}

} // verus!
