//! Finding the JSON document in a model's answer that may hold other text around it.
use vstd::prelude::*;
use vstd::string::*;
use crate::facts::opt_view;
use crate::text::{chars_of, is_ws, occurs_at, is_whitespace_char, matches_at, string_from_range};

verus! {

/// The first position in `k..n` where `p` holds, or -1.
pub open spec fn first_pos_from(k: int, n: int, p: spec_fn(int) -> bool) -> int
    decreases n - k,
{
    if k >= n {
        -1
    } else if p(k) {
        k
    } else {
        first_pos_from(k + 1, n, p)
    }
}

/// The last position below `n` where `p` holds, or -1.
pub open spec fn last_pos_below(n: int, p: spec_fn(int) -> bool) -> int
    decreases n,
{
    if n <= 0 {
        -1
    } else if p(n - 1) {
        n - 1
    } else {
        last_pos_below(n - 1, p)
    }
}

proof fn lemma_first_pos_found(k: int, n: int, p: spec_fn(int) -> bool, i: int)
    requires
        k <= i < n,
        p(i),
        forall|j: int| #![trigger p(j)] k <= j < i ==> !p(j),
    ensures
        first_pos_from(k, n, p) == i,
    decreases i - k,
{
    if k < i {
        lemma_first_pos_found(k + 1, n, p, i);
    }
}

proof fn lemma_first_pos_absent(k: int, n: int, p: spec_fn(int) -> bool)
    requires
        forall|j: int| #![trigger p(j)] k <= j < n ==> !p(j),
    ensures
        first_pos_from(k, n, p) == -1,
    decreases n - k,
{
    if k < n {
        lemma_first_pos_absent(k + 1, n, p);
    }
}

proof fn lemma_last_pos_found(n: int, p: spec_fn(int) -> bool, i: int)
    requires
        0 <= i < n,
        p(i),
        forall|j: int| #![trigger p(j)] i < j < n ==> !p(j),
    ensures
        last_pos_below(n, p) == i,
    decreases n - i,
{
    if i < n - 1 {
        lemma_last_pos_found(n - 1, p, i);
    }
}

proof fn lemma_last_pos_absent(n: int, p: spec_fn(int) -> bool)
    requires
        forall|j: int| #![trigger p(j)] 0 <= j < n ==> !p(j),
    ensures
        last_pos_below(n, p) == -1,
    decreases n,
{
    if n > 0 {
        lemma_last_pos_absent(n - 1, p);
    }
}

/// A document the JSON parser accepts (`serde_json::from_str::<serde_json::Value>` is
/// `Ok`).
pub uninterp spec fn json_parses(s: Seq<char>) -> bool;

/// Whether the text is a JSON document (`serde_json::from_str::<serde_json::Value>`).
/// The answer is named by [`json_parses`], a function of the text alone.
#[verifier::external_body]
fn parses_as_json(s: &str) -> (b: bool)
    ensures
        b == json_parses(s@),
{
    serde_json::from_str::<serde_json::Value>(s).is_ok()
}

/// `c` equals the pattern character `p`, an upper-case ASCII letter matching its
/// lower-case form.
pub open spec fn ci_eq(c: char, p: char) -> bool {
    c == p || ('a' <= p <= 'z' && (c as u32) + 32 == (p as u32))
}

/// A "```json" fence, in any letter case, starts at `i`.
pub open spec fn fence_at(s: Seq<char>, i: int) -> bool {
    0 <= i && i + 7 <= s.len() && forall|j: int| 0 <= j < 7 ==> ci_eq(#[trigger] s[i + j], "```json"@[j])
}

/// The text without leading and trailing white space (`str::trim`).
pub open spec fn trim_ws(s: Seq<char>) -> Seq<char> {
    let a = first_pos_from(0, s.len() as int, |i: int| !is_ws(s[i]));
    let b = last_pos_below(s.len() as int, |i: int| !is_ws(s[i]));
    if a < 0 {
        Seq::empty()
    } else {
        s.subrange(a, b + 1)
    }
}

/// The text of a fenced block: after the first "```json" fence, up to the next "```",
/// trimmed.
pub open spec fn fence_candidate(s: Seq<char>) -> Option<Seq<char>> {
    let i = first_pos_from(0, s.len() as int, |i: int| fence_at(s, i));
    if i < 0 {
        None
    } else {
        let after = s.skip(i + 7);
        let e = first_pos_from(0, after.len() as int, |k: int| occurs_at(after, "```"@, k));
        if e < 0 {
            None
        } else {
            Some(trim_ws(after.take(e)))
        }
    }
}

/// The text from the first `{` to the last `}`, when the last comes after the first.
pub open spec fn brace_candidate(s: Seq<char>) -> Option<Seq<char>> {
    let a = first_pos_from(0, s.len() as int, |i: int| s[i] == '{');
    let b = last_pos_below(s.len() as int, |i: int| s[i] == '}');
    if a >= 0 && b >= 0 && b > a {
        Some(s.subrange(a, b + 1))
    } else {
        None
    }
}

/// The JSON text of an answer: the whole answer if it parses, else the fenced block if
/// it parses, else the braced span if it parses.
pub open spec fn extracted_json(s: Seq<char>) -> Option<Seq<char>> {
    if json_parses(s) {
        Some(s)
    } else if fence_candidate(s) is Some && json_parses(fence_candidate(s)->0) {
        fence_candidate(s)
    } else if brace_candidate(s) is Some && json_parses(brace_candidate(s)->0) {
        brace_candidate(s)
    } else {
        None
    }
}

fn trimmed(v: &[char], from: usize, to: usize) -> (r: String)
    requires
        from <= to <= v.len(),
    ensures
        r@ == trim_ws(v@.subrange(from as int, to as int)),
{
    let ghost s = v@.subrange(from as int, to as int);
    let ghost pa = |i: int| !is_ws(s[i]);
    let mut a = from;
    while a < to && is_whitespace_char(v[a])
        invariant
            from <= a <= to <= v.len(),
            s == v@.subrange(from as int, to as int),
            pa == (|i: int| !is_ws(s[i])),
            forall|j: int| #![trigger pa(j)] 0 <= j < a - from ==> !pa(j),
        decreases to - a,
    {
        a = a + 1;
    }
    if a == to {
        proof {
            lemma_first_pos_absent(0, s.len() as int, pa);
        }
        return String::new();
    }
    proof {
        lemma_first_pos_found(0, s.len() as int, pa, a - from);
    }
    let mut b = to;
    while b > a && is_whitespace_char(v[b - 1])
        invariant
            from <= a < b <= to <= v.len(),
            s == v@.subrange(from as int, to as int),
            pa == (|i: int| !is_ws(s[i])),
            !is_ws(v@[a as int]),
            forall|j: int| #![trigger pa(j)] b - from <= j < s.len() ==> !pa(j),
        decreases b - a,
    {
        b = b - 1;
    }
    proof {
        lemma_last_pos_found(s.len() as int, pa, b - from - 1);
    }
    let r = string_from_range(v, a, b);
    assert(v@.subrange(a as int, b as int) =~= s.subrange(a - from, b - from));
    r
}

/// Whether `c` equals the pattern character `p` up to ASCII letter case (see [`ci_eq`]).
fn ci_char_eq(c: char, p: char) -> (b: bool)
    ensures
        b == ci_eq(c, p),
{
    if c == p {
        return true;
    }
    if 'a' <= p && p <= 'z' {
        let cu = c as u32;
        let pu = p as u32;
        cu < pu && pu - cu == 32
    } else {
        false
    }
}

/// Whether the seven characters at `i` match the pattern up to ASCII letter case.
fn fence_matches(v: &[char], i: usize, pat: &[char]) -> (b: bool)
    requires
        i + 7 <= v.len(),
        pat@ == "```json"@,
    ensures
        b == fence_at(v@, i as int),
{
    proof {
        reveal_strlit("```json");
    }
    let n = v.len();
    let mut j: usize = 0;
    while j < 7
        invariant
            j <= 7,
            n == v@.len(),
            i + 7 <= v@.len(),
            pat@ == "```json"@,
            pat@.len() == 7,
            forall|m: int| 0 <= m < j ==> ci_eq(#[trigger] v@[i + m], "```json"@[m]),
        decreases 7 - j,
    {
        if !ci_char_eq(v[i + j], pat[j]) {
            return false;
        }
        j = j + 1;
    }
    true
}

/// Position of the first "```json" fence, in any letter case.
fn find_fence(v: &[char]) -> (r: Option<usize>)
    ensures
        match r {
            Some(i) => i as int == first_pos_from(0, v@.len() as int, |i: int| fence_at(v@, i))
                && i + 7 <= v@.len(),
            None => first_pos_from(0, v@.len() as int, |i: int| fence_at(v@, i)) == -1,
        },
{
    let ghost p = |i: int| fence_at(v@, i);
    let pat = chars_of("```json");
    proof {
        reveal_strlit("```json");
    }
    let mut i: usize = 0;
    while i < v.len()
        invariant
            i <= v@.len(),
            pat@ == "```json"@,
            pat@.len() == 7,
            p == (|i: int| fence_at(v@, i)),
            forall|j: int| #![trigger p(j)] 0 <= j < i ==> !p(j),
        decreases v.len() - i,
    {
        if v.len() - i >= 7 && fence_matches(v, i, pat.as_slice()) {
            proof {
                lemma_first_pos_found(0, v@.len() as int, p, i as int);
            }
            return Some(i);
        }
        i = i + 1;
    }
    proof {
        lemma_first_pos_absent(0, v@.len() as int, p);
    }
    None
}

/// Position of the first occurrence of `pat` at or after `from` in `v`, relative to `from`.
fn find_after(v: &[char], from: usize, pat: &[char]) -> (r: Option<usize>)
    requires
        from <= v.len(),
    ensures
        match r {
            Some(e) => e as int == first_pos_from(
                0,
                v@.skip(from as int).len() as int,
                |k: int| occurs_at(v@.skip(from as int), pat@, k),
            ) && from + e + pat@.len() <= v@.len(),
            None => first_pos_from(
                0,
                v@.skip(from as int).len() as int,
                |k: int| occurs_at(v@.skip(from as int), pat@, k),
            ) == -1,
        },
{
    let ghost after = v@.skip(from as int);
    let ghost p = |k: int| occurs_at(after, pat@, k);
    let mut i = from;
    while i < v.len()
        invariant
            from <= i <= v@.len(),
            after == v@.skip(from as int),
            p == (|k: int| occurs_at(after, pat@, k)),
            forall|j: int| #![trigger p(j)] 0 <= j < i - from ==> !p(j),
        decreases v.len() - i,
    {
        let m = matches_at(v, pat, i);
        proof {
            if i + pat@.len() <= v@.len() {
                assert(after.subrange(i - from, i - from + pat@.len()) =~= v@.subrange(
                    i as int,
                    i + pat@.len(),
                ));
            }
        }
        if m {
            proof {
                lemma_first_pos_found(0, after.len() as int, p, i - from);
            }
            return Some(i - from);
        }
        i = i + 1;
    }
    proof {
        lemma_first_pos_absent(0, after.len() as int, p);
    }
    None
}

/// The fenced-block candidate of an answer (see [`fence_candidate`]).
fn fence_text(v: &Vec<char>) -> (r: Option<String>)
    ensures
        opt_view(r) == fence_candidate(v@),
{
    let n = v.len();
    assert(n == v@.len());
    match find_fence(v.as_slice()) {
        Some(i) => {
            let start = i + 7;
            let close = chars_of("```");
            proof {
                reveal_strlit("```");
            }
            match find_after(v.as_slice(), start, close.as_slice()) {
                Some(e) => {
                    let t = trimmed(v.as_slice(), start, start + e);
                    assert(v@.subrange(start as int, start + e) =~= v@.skip(start as int).take(
                        e as int,
                    ));
                    Some(t)
                },
                None => None,
            }
        },
        None => None,
    }
}

/// The braced-span candidate of an answer (see [`brace_candidate`]).
fn brace_text(v: &Vec<char>) -> (r: Option<String>)
    ensures
        opt_view(r) == brace_candidate(v@),
{
    let n = v.len();
    let ghost pa = |i: int| v@[i] == '{';
    let ghost pb = |i: int| v@[i] == '}';
    let mut a: usize = 0;
    while a < n && v[a] != '{'
        invariant
            a <= n == v@.len(),
            pa == (|i: int| v@[i] == '{'),
            forall|j: int| #![trigger pa(j)] 0 <= j < a ==> !pa(j),
        decreases n - a,
    {
        a = a + 1;
    }
    if a == n {
        proof {
            lemma_first_pos_absent(0, n as int, pa);
        }
        return None;
    }
    proof {
        lemma_first_pos_found(0, n as int, pa, a as int);
    }
    let mut b: usize = n;
    while b > 0 && v[b - 1] != '}'
        invariant
            b <= n == v@.len(),
            pb == (|i: int| v@[i] == '}'),
            forall|j: int| #![trigger pb(j)] b <= j < n ==> !pb(j),
        decreases b,
    {
        b = b - 1;
    }
    if b == 0 {
        proof {
            lemma_last_pos_absent(n as int, pb);
        }
        return None;
    }
    proof {
        lemma_last_pos_found(n as int, pb, b - 1);
    }
    if b - 1 > a {
        Some(string_from_range(v.as_slice(), a, b))
    } else {
        None
    }
}

/// The two fallback texts of an answer: the trimmed fenced block and the braced span
/// (see [`fence_candidate`] and [`brace_candidate`]).
pub fn json_candidates(text: &str) -> (r: (Option<String>, Option<String>))
    ensures
        opt_view(r.0) == fence_candidate(text@),
        opt_view(r.1) == brace_candidate(text@),
{
    let v = chars_of(text);
    (fence_text(&v), brace_text(&v))
}

/// The JSON text chosen once it is known which texts parse: the whole answer, else the
/// fenced block, else the braced span, each only when it parses.
pub open spec fn chosen_json(
    text: Seq<char>,
    whole_parses: bool,
    fence: Option<Seq<char>>,
    fence_parses: bool,
    brace: Option<Seq<char>>,
    brace_parses: bool,
) -> Option<Seq<char>> {
    if whole_parses {
        Some(text)
    } else if fence is Some && fence_parses {
        fence
    } else if brace is Some && brace_parses {
        brace
    } else {
        None
    }
}

/// Chooses the JSON text of an answer given which texts parse (see [`chosen_json`]).
pub fn choose_json_text(
    text: &str,
    whole_parses: bool,
    fence: Option<String>,
    fence_parses: bool,
    brace: Option<String>,
    brace_parses: bool,
) -> (r: Option<String>)
    ensures
        opt_view(r) == chosen_json(text@, whole_parses, opt_view(fence), fence_parses, opt_view(brace), brace_parses),
{
    if whole_parses {
        return Some(String::from_str(text));
    }
    match fence {
        Some(f) => {
            if fence_parses {
                return Some(f);
            }
        },
        None => {},
    }
    match brace {
        Some(b) => {
            if brace_parses {
                return Some(b);
            }
        },
        None => {},
    }
    None
}

/// The JSON text of a model's answer (see [`extracted_json`]). Letter case in the fence
/// is compared for ASCII letters.
pub fn extract_json_text(text: &str) -> (r: Option<String>)
    ensures
        opt_view(r) == extracted_json(text@),
{
    let whole = parses_as_json(text);
    if whole {
        return choose_json_text(text, true, None, false, None, false);
    }
    let (fence, brace) = json_candidates(text);
    let fence_ok = match &fence {
        Some(f) => parses_as_json(f.as_str()),
        None => false,
    };
    let brace_ok = if fence_ok {
        false
    } else {
        match &brace {
            Some(b) => parses_as_json(b.as_str()),
            None => false,
        }
    };
    choose_json_text(text, false, fence, fence_ok, brace, brace_ok)
}

} // verus!
