//! Character-level text utilities: whitespace trimming, the token-count
//! approximation, and API-key masking.

use vstd::prelude::*;

verus! {

/// The whitespace characters the engine trims from protocol lines.
/// Deliberately the ASCII set: the event protocol only ever pads lines with
/// spaces, tabs and CR/LF, so exotic Unicode whitespace is left alone.
pub open spec fn is_ws(c: char) -> bool {
    c == ' ' || c == '\t' || c == '\r' || c == '\n'
}

/// Every character of `s` is whitespace (an empty `s` counts).
pub open spec fn all_ws(s: Seq<char>) -> bool {
    forall|i: int| 0 <= i < s.len() ==> is_ws(s[i])
}

pub open spec fn trim_front(s: Seq<char>) -> Seq<char>
    decreases s.len(),
{
    if s.len() > 0 && is_ws(s[0]) {
        trim_front(s.drop_first())
    } else {
        s
    }
}

pub open spec fn trim_back(s: Seq<char>) -> Seq<char>
    decreases s.len(),
{
    if s.len() > 0 && is_ws(s.last()) {
        trim_back(s.drop_last())
    } else {
        s
    }
}

/// `s` with leading and trailing whitespace removed.
pub open spec fn trim_ws(s: Seq<char>) -> Seq<char> {
    trim_back(trim_front(s))
}

proof fn lemma_trim_front_subrange(s: Seq<char>, k: int)
    requires
        0 <= k <= s.len(),
        forall|j: int| 0 <= j < k ==> is_ws(s[j]),
        k == s.len() || !is_ws(s[k]),
    ensures
        trim_front(s) == s.subrange(k, s.len() as int),
    decreases k,
{
    if k == 0 {
        assert(s.subrange(0, s.len() as int) =~= s);
    } else {
        let t = s.drop_first();
        assert(forall|j: int| 0 <= j < k - 1 ==> is_ws(#[trigger] t[j]));
        lemma_trim_front_subrange(t, k - 1);
        assert(t.subrange(k - 1, t.len() as int) =~= s.subrange(k, s.len() as int));
    }
}

proof fn lemma_trim_back_subrange(s: Seq<char>, k: int)
    requires
        0 <= k <= s.len(),
        forall|j: int| k <= j < s.len() ==> is_ws(s[j]),
        k == 0 || !is_ws(s[k - 1]),
    ensures
        trim_back(s) == s.subrange(0, k),
    decreases s.len(),
{
    if k == s.len() {
        if s.len() == 0 || !is_ws(s.last()) {
            assert(s.subrange(0, s.len() as int) =~= s);
        } else {
            assert(!is_ws(s[k - 1]));
            assert(false);
        }
    } else {
        let t = s.drop_last();
        lemma_trim_back_subrange(t, k);
        assert(t.subrange(0, k) =~= s.subrange(0, k));
    }
}

fn is_ws_char(c: char) -> (r: bool)
    ensures
        r == is_ws(c),
{
    c == ' ' || c == '\t' || c == '\r' || c == '\n'
}

/// Remove leading and trailing whitespace from a character vector.
pub fn trim_chars(v: &Vec<char>) -> (r: Vec<char>)
    ensures
        r@ == trim_ws(v@),
{
    let n = v.len();
    let mut start: usize = 0;
    while start < n && is_ws_char(v[start])
        invariant
            n == v@.len(),
            0 <= start <= n,
            forall|j: int| 0 <= j < start ==> is_ws(v@[j]),
        decreases n - start,
    {
        start = start + 1;
    }
    let mut end: usize = n;
    while end > start && is_ws_char(v[end - 1])
        invariant
            n == v@.len(),
            start <= end <= n,
            forall|j: int| end <= j < n ==> is_ws(v@[j]),
        decreases end,
    {
        end = end - 1;
    }
    let mut out: Vec<char> = Vec::new();
    let mut i: usize = start;
    while i < end
        invariant
            n == v@.len(),
            start <= i <= end <= n,
            out@ == v@.subrange(start as int, i as int),
        decreases end - i,
    {
        out.push(v[i]);
        assert(out@ =~= v@.subrange(start as int, i + 1 as int));
        i = i + 1;
    }
    proof {
        lemma_trim_front_subrange(v@, start as int);
        let t = v@.subrange(start as int, n as int);
        assert(forall|j: int| end - start <= j < t.len() ==> is_ws(#[trigger] t[j]));
        if end > start {
            assert(!is_ws(t[end - start - 1]));
        }
        lemma_trim_back_subrange(t, end - start);
        assert(t.subrange(0, end - start) =~= v@.subrange(start as int, end as int));
    }
    out
}

/// Test whether every character is whitespace (true of the empty string).
pub fn chars_all_ws(v: &Vec<char>) -> (r: bool)
    ensures
        r == all_ws(v@),
{
    let mut i: usize = 0;
    while i < v.len()
        invariant
            0 <= i <= v@.len(),
            forall|j: int| 0 <= j < i ==> is_ws(v@[j]),
        decreases v@.len() - i,
    {
        if !is_ws_char(v[i]) {
            return false;
        }
        i = i + 1;
    }
    true
}

/// Relies on str::chars: the iterator yields exactly the characters of the
/// string, i.e. its view.
#[verifier::external_body]
pub(crate) fn string_chars(s: &str) -> (r: Vec<char>)
    ensures
        r@ == s@,
{
    s.chars().collect()
}

/// Relies on String's FromIterator impl: collecting characters builds the
/// string made of exactly those characters.
#[verifier::external_body]
pub(crate) fn chars_to_string(v: &Vec<char>) -> (r: String)
    ensures
        r@ == v@,
{
    v.iter().collect()
}

/// Concatenate two string slices.
pub fn concat_strs(a: &str, b: &str) -> (r: String)
    ensures
        r@ == a@ + b@,
{
    let mut cs = string_chars(a);
    let mut cb = string_chars(b);
    cs.append(&mut cb);
    chars_to_string(&cs)
}

/// The token-count approximation: the character count divided by 3.7,
/// rounded up — computed exactly over integers as ceil(10 * n / 37).
pub open spec fn spec_token_count(s: Seq<char>) -> int {
    (10 * s.len() as int + 36) / 37
}

/// Approximate the token count of a text.
pub fn rough_token_count(text: &str) -> (r: i64)
    ensures
        r == spec_token_count(text@),
{
    let cs = string_chars(text);
    let n = cs.len();
    let t: u128 = (10u128 * (n as u128) + 36) / 37;
    proof {
        assert(10 * (n as int) + 36 < 37 * 0x8000_0000_0000_0000) by (nonlinear_arith)
            requires n <= u64::MAX;
        assert(t < 0x8000_0000_0000_0000) by (nonlinear_arith)
            requires
                t == (10 * (n as int) + 36) / 37,
                10 * (n as int) + 36 < 37 * 0x8000_0000_0000_0000,
                n >= 0;
    }
    t as i64
}

/// The masked image of an API key: short keys are replaced whole; longer
/// keys keep their first and last four characters. The mask is deliberately
/// character-based, so it is total: a byte-based cut could land inside a
/// multi-byte character. The two readings agree on ASCII keys, which is
/// what API keys are in practice.
pub open spec fn spec_mask(s: Seq<char>) -> Seq<char> {
    if s.len() <= 8 {
        seq!['*', '*', '*', '*', '*', '*', '*', '*']
    } else {
        s.subrange(0, 4) + seq!['*', '*', '*'] + s.subrange(s.len() - 4, s.len() as int)
    }
}

/// Mask an API key for display.
pub fn mask_api_key(raw: &str) -> (r: String)
    ensures
        r@ == spec_mask(raw@),
{
    let cs = string_chars(raw);
    let n = cs.len();
    if n <= 8 {
        let masked = "********".to_owned();
        proof {
            reveal_strlit("********");
            assert(masked@ =~= spec_mask(raw@));
        }
        masked
    } else {
        let mut out: Vec<char> = Vec::new();
        let mut i: usize = 0;
        while i < 4
            invariant
                n == cs@.len(),
                n > 8,
                0 <= i <= 4,
                out@ == cs@.subrange(0, i as int),
            decreases 4 - i,
        {
            out.push(cs[i]);
            assert(out@ =~= cs@.subrange(0, i + 1 as int));
            i = i + 1;
        }
        out.push('*');
        out.push('*');
        out.push('*');
        let mut j: usize = n - 4;
        while j < n
            invariant
                n == cs@.len(),
                n > 8,
                n - 4 <= j <= n,
                out@ == cs@.subrange(0, 4) + seq!['*', '*', '*'] + cs@.subrange(
                    n - 4,
                    j as int,
                ),
            decreases n - j,
        {
            out.push(cs[j]);
            assert(out@ =~= cs@.subrange(0, 4) + seq!['*', '*', '*'] + cs@.subrange(
                n - 4,
                j + 1 as int,
            ));
            j = j + 1;
        }
        chars_to_string(&out)
    }
}

} // verus!
