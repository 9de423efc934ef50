//! Character-level text helpers shared by the rest of the library.
//!
//! Strings are modelled by their views, `Seq<char>`.
use vstd::prelude::*;
use vstd::string::*;

verus! {

/// `pat` occurs in `s` starting at position `i`.
pub open spec fn occurs_at(s: Seq<char>, pat: Seq<char>, i: int) -> bool {
    0 <= i && i + pat.len() <= s.len() && s.subrange(i, i + pat.len()) == pat
}

/// `pat` is a substring of `s` (the empty pattern occurs in every string).
pub open spec fn has_substring(s: Seq<char>, pat: Seq<char>) -> bool {
    exists|i: int| occurs_at(s, pat, i)
}

/// `s` begins with `pre`.
pub open spec fn has_prefix(s: Seq<char>, pre: Seq<char>) -> bool {
    pre.len() <= s.len() && s.take(pre.len() as int) == pre
}

/// `s` ends with `suf`.
pub open spec fn has_suffix(s: Seq<char>, suf: Seq<char>) -> bool {
    suf.len() <= s.len() && s.skip(s.len() - suf.len()) == suf
}

/// The characters of a string, in order.
pub fn chars_of(s: &str) -> (v: Vec<char>)
    ensures
        v@ == s@,
{
    let mut v: Vec<char> = Vec::new();
    broadcast use vstd::string::group_string_axioms;
    for c in it: s.chars()
        invariant
            v@ == it.seq().take(it.index() as int),
            it.seq() == s@,
    {
        v.push(c);
    }
    assert(v@ =~= s@);
    v
}

/// Appends one character to a string (`String::push`).
#[verifier::external_body]
pub(crate) fn push_char(s: &mut String, c: char)
    ensures
        final(s)@ == old(s)@.push(c),
{
    s.push(c);
}

/// A string holding exactly the given characters.
pub fn string_from_chars(v: &[char]) -> (s: String)
    ensures
        s@ == v@,
{
    let mut s = String::new();
    let mut i: usize = 0;
    while i < v.len()
        invariant
            i <= v.len(),
            s@ == v@.take(i as int),
        decreases v.len() - i,
    {
        push_char(&mut s, v[i]);
        assert(v@.take(i + 1) =~= v@.take(i as int).push(v@[i as int]));
        i = i + 1;
    }
    assert(v@.take(v.len() as int) =~= v@);
    s
}

/// A string holding the characters `v[from..to]`.
pub fn string_from_range(v: &[char], from: usize, to: usize) -> (s: String)
    requires
        from <= to <= v.len(),
    ensures
        s@ == v@.subrange(from as int, to as int),
{
    let mut s = String::new();
    let mut i: usize = from;
    while i < to
        invariant
            from <= i <= to,
            to <= v.len(),
            s@ == v@.subrange(from as int, i as int),
        decreases to - i,
    {
        push_char(&mut s, v[i]);
        assert(v@.subrange(from as int, i + 1) =~= v@.subrange(from as int, i as int).push(
            v@[i as int],
        ));
        i = i + 1;
    }
    s
}

/// A fresh copy of a string literal or slice.
pub fn owned(s: &str) -> (r: String)
    ensures
        r@ == s@,
{
    String::from_str(s)
}

/// Whether the pattern occurs in `s` at position `i` (executable form).
pub fn matches_at(s: &[char], pat: &[char], i: usize) -> (b: bool)
    requires
        i <= s.len(),
    ensures
        b == occurs_at(s@, pat@, i as int),
{
    if pat.len() > s.len() - i {
        return false;
    }
    let mut k: usize = 0;
    while k < pat.len()
        invariant
            k <= pat.len(),
            i + pat.len() <= s.len(),
            forall|j: int| 0 <= j < k ==> s@[i + j] == pat@[j],
        decreases pat.len() - k,
    {
        if s[i + k] != pat[k] {
            assert(s@.subrange(i as int, i + pat.len())[k as int] != pat@[k as int]);
            return false;
        }
        k = k + 1;
    }
    assert(s@.subrange(i as int, i + pat.len()) =~= pat@);
    true
}

/// Whether `pat` is a substring of `s` (`str::contains` on the characters).
pub fn contains_chars(s: &[char], pat: &[char]) -> (b: bool)
    ensures
        b == has_substring(s@, pat@),
{
    let mut i: usize = 0;
    loop
        invariant
            i <= s.len(),
            forall|j: int| 0 <= j < i ==> !occurs_at(s@, pat@, j),
        ensures
            forall|j: int| 0 <= j <= s.len() ==> !occurs_at(s@, pat@, j),
        decreases s.len() - i,
    {
        if matches_at(s, pat, i) {
            return true;
        }
        if i == s.len() {
            break;
        }
        i = i + 1;
    }
    assert forall|j: int| !occurs_at(s@, pat@, j) by {
        if 0 <= j && j + pat@.len() <= s@.len() {
            assert(j <= s.len());
        }
    }
    false
}

/// Whether `pat` is a substring of `s`.
pub fn str_contains(s: &str, pat: &str) -> (b: bool)
    ensures
        b == has_substring(s@, pat@),
{
    let sv = chars_of(s);
    let pv = chars_of(pat);
    contains_chars(sv.as_slice(), pv.as_slice())
}

/// Whether `s` begins with `pre`.
pub fn chars_start_with(s: &[char], pre: &[char]) -> (b: bool)
    ensures
        b == has_prefix(s@, pre@),
{
    let r = matches_at(s, pre, 0);
    proof {
        if pre@.len() <= s@.len() {
            assert(s@.subrange(0, pre@.len() as int) =~= s@.take(pre@.len() as int));
        }
    }
    r
}

/// Whether two strings hold the same characters.
pub fn str_eq(a: &str, b: &str) -> (r: bool)
    ensures
        r == (a@ == b@),
{
    let av = chars_of(a);
    let bv = chars_of(b);
    if av.len() != bv.len() {
        return false;
    }
    let r = matches_at(av.as_slice(), bv.as_slice(), 0);
    assert(av@.subrange(0, bv@.len() as int) =~= av@);
    r
}

/// Characters with the Unicode `White_Space` property (`char::is_whitespace`).
pub open spec fn is_ws(c: char) -> bool {
    let v = c as u32;
    (9 <= v <= 13) || v == 32 || v == 0x85 || v == 0xa0 || v == 0x1680 || (0x2000 <= v <= 0x200a)
        || v == 0x2028 || v == 0x2029 || v == 0x202f || v == 0x205f || v == 0x3000
}

/// Whether a character is Unicode white space.
pub fn is_whitespace_char(c: char) -> (b: bool)
    ensures
        b == is_ws(c),
{
    let v = c as u32;
    (9 <= v && v <= 13) || v == 32 || v == 0x85 || v == 0xa0 || v == 0x1680 || (0x2000 <= v && v
        <= 0x200a) || v == 0x2028 || v == 0x2029 || v == 0x202f || v == 0x205f || v == 0x3000
}

/// Index of the first white-space character, or the length.
pub open spec fn first_ws(s: Seq<char>) -> int
    decreases s.len(),
{
    if s.len() == 0 {
        0
    } else if is_ws(s[0]) {
        0
    } else {
        1 + first_ws(s.skip(1))
    }
}

pub proof fn lemma_first_ws_range(s: Seq<char>)
    ensures
        0 <= first_ws(s) <= s.len(),
        s.len() > 0 && !is_ws(s[0]) ==> first_ws(s) >= 1,
    decreases s.len(),
{
    if s.len() > 0 && !is_ws(s[0]) {
        lemma_first_ws_range(s.skip(1));
    }
}

proof fn lemma_first_ws_at(s: Seq<char>, k: int)
    requires
        0 <= k <= s.len(),
        forall|j: int| 0 <= j < k ==> !is_ws(s[j]),
        k < s.len() ==> is_ws(s[k]),
    ensures
        first_ws(s) == k,
    decreases k,
{
    if k > 0 {
        assert forall|j: int| 0 <= j < k - 1 implies !is_ws(s.skip(1)[j]) by {
            assert(s.skip(1)[j] == s[j + 1]);
        }
        if k < s.len() {
            assert(s.skip(1)[k - 1] == s[k]);
        }
        lemma_first_ws_at(s.skip(1), k - 1);
    }
}

/// The words of a text as `str::split_whitespace` yields them: maximal runs of
/// non-white-space characters.
pub open spec fn words(s: Seq<char>) -> Seq<Seq<char>>
    decreases s.len(),
{
    if s.len() == 0 {
        Seq::empty()
    } else if is_ws(s[0]) {
        words(s.skip(1))
    } else {
        let k = first_ws(s);
        proof {
            lemma_first_ws_range(s);
        }
        seq![s.take(k)] + words(s.skip(k))
    }
}

/// The words of a text (see [`words`]).
pub fn split_whitespace(text: &str) -> (r: Vec<String>)
    ensures
        r@.map_values(|w: String| w@) == words(text@),
{
    let v = chars_of(text);
    let n = v.len();
    let mut r: Vec<String> = Vec::new();
    let mut i: usize = 0;
    let ghost mut done: Seq<Seq<char>> = Seq::empty();
    assert(v@.skip(0) =~= v@);
    while i < n
        invariant
            i <= n == v@.len(),
            v@ == text@,
            words(text@) == done + words(v@.skip(i as int)),
            r@.map_values(|w: String| w@) == done,
        decreases n - i,
    {
        let ghost rest = v@.skip(i as int);
        if is_whitespace_char(v[i]) {
            assert(rest.skip(1) =~= v@.skip(i + 1));
            i = i + 1;
        } else {
            let mut k = i;
            while k < n && !is_whitespace_char(v[k])
                invariant
                    i <= k <= n == v@.len(),
                    forall|j: int| i <= j < k ==> !is_ws(v@[j]),
                decreases n - k,
            {
                k = k + 1;
            }
            proof {
                lemma_first_ws_at(rest, k - i);
                assert(rest.take(k - i) =~= v@.subrange(i as int, k as int));
                assert(rest.skip(k - i) =~= v@.skip(k as int));
            }
            let w = string_from_range(v.as_slice(), i, k);
            let ghost before = r@;
            r.push(w);
            proof {
                assert(r@.map_values(|w: String| w@) =~= before.map_values(|w: String| w@).push(
                    v@.subrange(i as int, k as int),
                ));
                done = done.push(v@.subrange(i as int, k as int));
                assert(seq![v@.subrange(i as int, k as int)] + words(v@.skip(k as int)) == words(rest));
                assert(done + words(v@.skip(k as int)) =~= (done.drop_last() + seq![
                    v@.subrange(i as int, k as int),
                ]) + words(v@.skip(k as int)));
            }
            i = k;
        }
    }
    assert(v@.skip(n as int) =~= Seq::<char>::empty());
    assert(done + Seq::<Seq<char>>::empty() =~= done);
    r
}

// ── Decimal numbers ─────────────────────────────────────────────────

/// The character of a decimal digit.
pub open spec fn digit_char(d: int) -> char {
    if d == 0 {
        '0'
    } else if d == 1 {
        '1'
    } else if d == 2 {
        '2'
    } else if d == 3 {
        '3'
    } else if d == 4 {
        '4'
    } else if d == 5 {
        '5'
    } else if d == 6 {
        '6'
    } else if d == 7 {
        '7'
    } else if d == 8 {
        '8'
    } else {
        '9'
    }
}

/// The decimal digits of a natural number, without leading zeros.
pub open spec fn decimal(n: nat) -> Seq<char>
    decreases n,
{
    if n < 10 {
        seq![digit_char(n as int)]
    } else {
        decimal(n / 10).push(digit_char((n % 10) as int))
    }
}

/// `n` zeros.
pub open spec fn zeros(n: int) -> Seq<char> {
    Seq::new(if n > 0 { n as nat } else { 0 }, |i: int| '0')
}

/// The digits of `n`, with zeros in front up to `width` characters (`{:0width$}`).
pub open spec fn padded(n: nat, width: int) -> Seq<char> {
    zeros(width - decimal(n).len()) + decimal(n)
}

/// A signed number with sign-aware zero padding to `width` characters, the sign
/// counted in the width (`{:0width$}`).
pub open spec fn padded_signed(v: int, width: int) -> Seq<char> {
    if v < 0 {
        seq!['-'] + padded((-v) as nat, width - 1)
    } else {
        padded(v as nat, width)
    }
}

fn digit(d: u64) -> (c: char)
    requires
        d < 10,
    ensures
        c == digit_char(d as int),
{
    if d == 0 {
        '0'
    } else if d == 1 {
        '1'
    } else if d == 2 {
        '2'
    } else if d == 3 {
        '3'
    } else if d == 4 {
        '4'
    } else if d == 5 {
        '5'
    } else if d == 6 {
        '6'
    } else if d == 7 {
        '7'
    } else if d == 8 {
        '8'
    } else {
        '9'
    }
}

/// The decimal digits of a number.
pub fn decimal_chars(n: u64) -> (v: Vec<char>)
    ensures
        v@ == decimal(n as nat),
    decreases n,
{
    if n < 10 {
        let mut v = Vec::new();
        v.push(digit(n));
        v
    } else {
        let mut v = decimal_chars(n / 10);
        v.push(digit(n % 10));
        v
    }
}

/// A number with zeros in front up to `width` characters.
pub fn format_padded(n: u64, width: usize) -> (s: String)
    ensures
        s@ == padded(n as nat, width as int),
{
    let d = decimal_chars(n);
    let mut s = String::new();
    let mut k: usize = d.len();
    let ghost mut count: int = 0;
    while k < width
        invariant
            d.len() <= k <= width || width <= d.len() == k,
            s@ == zeros(k - d.len()),
        decreases width - k,
    {
        push_char(&mut s, '0');
        assert(s@ =~= zeros(k + 1 - d.len()));
        k = k + 1;
    }
    assert(s@ =~= zeros(width - d@.len()));
    let tail = string_from_chars(d.as_slice());
    s.append(tail.as_str());
    s
}

/// A signed number with sign-aware zero padding (see [`padded_signed`]).
pub fn format_padded_signed(v: i64, width: usize) -> (s: String)
    ensures
        s@ == padded_signed(v as int, width as int),
{
    if v < 0 {
        let mag: u64 = if v == i64::MIN {
            0x8000_0000_0000_0000
        } else {
            (-v) as u64
        };
        let w = if width > 0 {
            width - 1
        } else {
            0
        };
        let body = format_padded(mag, w);
        let mut s = String::new();
        push_char(&mut s, '-');
        s.append(body.as_str());
        proof {
            if width == 0 {
                assert(zeros(width - 1 - decimal(mag as nat).len()) =~= zeros(
                    0 - decimal(mag as nat).len(),
                ));
            }
        }
        s
    } else {
        format_padded(v as u64, width)
    }
}

} // verus!
