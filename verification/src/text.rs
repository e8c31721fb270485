//! Character-level text handling: decoding, trimming, splitting, number parsing.

use vstd::prelude::*;
use vstd::utf8::{decode_utf8, valid_utf8};

verus! {

/// The Unicode `White_Space` property, which `char::is_whitespace`,
/// `str::trim` and `str::split_whitespace` go by.
pub open spec fn is_space(c: char) -> bool {
    let u = c as u32;
    ||| 0x09 <= u <= 0x0d
    ||| u == 0x20
    ||| u == 0x85
    ||| u == 0xa0
    ||| u == 0x1680
    ||| 0x2000 <= u <= 0x200a
    ||| u == 0x2028
    ||| u == 0x2029
    ||| u == 0x202f
    ||| u == 0x205f
    ||| u == 0x3000
}

/// Whether `c` is Unicode white space.
pub fn char_is_space(c: char) -> (r: bool)
    ensures
        r == is_space(c),
{
    let u = c as u32;
    (0x09 <= u && u <= 0x0d) || u == 0x20 || u == 0x85 || u == 0xa0 || u == 0x1680 || (0x2000
        <= u && u <= 0x200a) || u == 0x2028 || u == 0x2029 || u == 0x202f || u == 0x205f || u
        == 0x3000
}

/// `i` is the length of the white-space run at the start of `s`.
pub open spec fn is_lead_len(s: Seq<char>, i: int) -> bool {
    &&& 0 <= i <= s.len()
    &&& forall|j: int| 0 <= j < i ==> is_space(#[trigger] s[j])
    &&& i == s.len() || !is_space(s[i])
}

/// `i` is the length of the white-space run at the end of `s`.
pub open spec fn is_trail_len(s: Seq<char>, i: int) -> bool {
    &&& 0 <= i <= s.len()
    &&& forall|j: int| s.len() - i <= j < s.len() ==> is_space(#[trigger] s[j])
    &&& i == s.len() || !is_space(s[s.len() - 1 - i])
}

/// Number of white-space characters at the start of `s`.
pub open spec fn lead_len(s: Seq<char>) -> int {
    choose|i: int| #[trigger] is_lead_len(s, i)
}

/// Number of white-space characters at the end of `s`.
pub open spec fn trail_len(s: Seq<char>) -> int {
    choose|i: int| #[trigger] is_trail_len(s, i)
}

/// `s` without its leading and trailing white space (`str::trim`).
pub open spec fn trim(s: Seq<char>) -> Seq<char> {
    if lead_len(s) == s.len() {
        Seq::empty()
    } else {
        s.subrange(lead_len(s), s.len() - trail_len(s))
    }
}

proof fn lemma_lead_len(s: Seq<char>, i: int)
    requires
        0 <= i <= s.len(),
        forall|j: int| 0 <= j < i ==> is_space(#[trigger] s[j]),
        i == s.len() || !is_space(s[i]),
    ensures
        lead_len(s) == i,
{
    assert(is_lead_len(s, i));
    let k = lead_len(s);
    if k < i {
        assert(is_space(s[k]));
    }
    if i < k {
        assert(is_space(s[i]));
    }
}

proof fn lemma_trail_len(s: Seq<char>, i: int)
    requires
        0 <= i <= s.len(),
        forall|j: int| s.len() - i <= j < s.len() ==> is_space(#[trigger] s[j]),
        i == s.len() || !is_space(s[s.len() - 1 - i]),
    ensures
        trail_len(s) == i,
{
    assert(is_trail_len(s, i));
    let k = trail_len(s);
    if k < i {
        assert(is_space(s[s.len() - 1 - k]));
    }
    if i < k {
        assert(is_space(s[s.len() - 1 - i]));
    }
}

/// `s` without leading and trailing white space.
pub fn trim_chars(s: &[char]) -> (r: Vec<char>)
    ensures
        r@ == trim(s@),
{
    let n = s.len();
    let mut a: usize = 0;
    while a < n && char_is_space(s[a])
        invariant
            n == s@.len(),
            a <= n,
            forall|j: int| 0 <= j < a ==> is_space(#[trigger] s@[j]),
        decreases n - a,
    {
        a = a + 1;
    }
    proof {
        lemma_lead_len(s@, a as int);
    }
    let mut r: Vec<char> = Vec::new();
    if a == n {
        return r;
    }
    let mut b: usize = n;
    while b > a && char_is_space(s[b - 1])
        invariant
            n == s@.len(),
            a < n,
            !is_space(s@[a as int]),
            a <= b <= n,
            forall|j: int| b <= j < n ==> is_space(#[trigger] s@[j]),
        decreases b,
    {
        b = b - 1;
    }
    proof {
        lemma_trail_len(s@, (n - b) as int);
    }
    let mut k: usize = a;
    while k < b
        invariant
            a <= k <= b <= n == s@.len(),
            r@ == s@.subrange(a as int, k as int),
        decreases b - k,
    {
        r.push(s[k]);
        k = k + 1;
    }
    r
}


/// Words of `s` split at white space, where `cur` is the word being read
/// (`str::split_whitespace`).
pub open spec fn words_from(s: Seq<char>, cur: Seq<char>) -> Seq<Seq<char>>
    decreases s.len(),
{
    if s.len() == 0 {
        if cur.len() == 0 {
            Seq::empty()
        } else {
            seq![cur]
        }
    } else if is_space(s[0]) {
        if cur.len() == 0 {
            words_from(s.drop_first(), cur)
        } else {
            seq![cur] + words_from(s.drop_first(), Seq::empty())
        }
    } else {
        words_from(s.drop_first(), cur.push(s[0]))
    }
}

/// The non-empty runs of non-white-space characters of `s`, in order.
pub open spec fn words(s: Seq<char>) -> Seq<Seq<char>> {
    words_from(s, Seq::empty())
}

/// The views of a vector of character vectors.
pub open spec fn char_vecs_view(v: Seq<Vec<char>>) -> Seq<Seq<char>> {
    v.map_values(|w: Vec<char>| w@)
}

/// Splits `s` into its white-space separated words.
pub fn split_whitespace(s: &[char]) -> (r: Vec<Vec<char>>)
    ensures
        char_vecs_view(r@) == words(s@),
{
    let n = s.len();
    let mut out: Vec<Vec<char>> = Vec::new();
    let mut cur: Vec<char> = Vec::new();
    let mut i: usize = 0;
    assert(s@.skip(0) =~= s@);
    while i < n
        invariant
            n == s@.len(),
            i <= n,
            words(s@) == char_vecs_view(out@) + words_from(s@.skip(i as int), cur@),
        decreases n - i,
    {
        let c = s[i];
        let ghost rest = s@.skip(i as int);
        assert(rest[0] == c);
        assert(rest.drop_first() =~= s@.skip(i + 1));
        if char_is_space(c) {
            if cur.len() > 0 {
                let ghost before = char_vecs_view(out@);
                let w = cur;
                cur = Vec::new();
                out.push(w);
                assert(char_vecs_view(out@) =~= before + seq![w@]);
                assert(cur@ =~= Seq::<char>::empty());
            }
        } else {
            cur.push(c);
        }
        i = i + 1;
    }
    assert(s@.skip(n as int) =~= Seq::<char>::empty());
    if cur.len() > 0 {
        let ghost before = char_vecs_view(out@);
        out.push(cur);
        assert(char_vecs_view(out@) =~= before + seq![cur@]);
    } else {
        assert(char_vecs_view(out@) =~= char_vecs_view(out@) + Seq::<Seq<char>>::empty());
    }
    out
}

/// `s` holds `": "` at position `p`.
pub open spec fn is_sep_at(s: Seq<char>, p: int) -> bool {
    0 <= p && p + 1 < s.len() && s[p] == ':' && s[p + 1] == ' '
}

/// `p` is the first position of `": "` in `s`.
pub open spec fn is_first_sep(s: Seq<char>, p: int) -> bool {
    is_sep_at(s, p) && forall|q: int| 0 <= q < p ==> !#[trigger] is_sep_at(s, q)
}

/// The first position of `": "` in `s`, if there is one.
pub open spec fn first_sep(s: Seq<char>) -> Option<int> {
    if exists|p: int| is_sep_at(s, p) {
        Some(choose|p: int| #[trigger] is_first_sep(s, p))
    } else {
        None
    }
}

proof fn lemma_first_sep_found(s: Seq<char>, p: int)
    requires
        is_first_sep(s, p),
    ensures
        first_sep(s) == Some(p),
{
    assert(is_sep_at(s, p));
    let k = choose|k: int| #[trigger] is_first_sep(s, k);
    assert(is_first_sep(s, k));
    if k < p {
        assert(!is_sep_at(s, k));
    }
    if p < k {
        assert(!is_sep_at(s, p));
    }
}

/// Position of the first `": "` in `s` (what `splitn(2, ": ")` splits at).
pub fn find_separator(s: &[char]) -> (r: Option<usize>)
    ensures
        match r {
            Some(p) => first_sep(s@) == Some(p as int) && is_first_sep(s@, p as int),
            None => first_sep(s@) is None,
        },
{
    let n = s.len();
    let mut i: usize = 0;
    while i < n && n - i > 1
        invariant
            n == s@.len(),
            forall|q: int| 0 <= q < i ==> !#[trigger] is_sep_at(s@, q),
        decreases n - i,
    {
        if s[i] == ':' && s[i + 1] == ' ' {
            proof {
                lemma_first_sep_found(s@, i as int);
            }
            return Some(i);
        }
        i = i + 1;
    }
    assert forall|p: int| !is_sep_at(s@, p) by {
        if 0 <= p < i {
        }
    }
    None
}

/// Value of a string of decimal digits.
pub open spec fn digits_value(s: Seq<char>) -> nat
    decreases s.len(),
{
    if s.len() == 0 {
        0
    } else {
        digits_value(s.drop_last()) * 10 + ((s.last() as u32) - ('0' as u32)) as nat
    }
}

/// Every character of `s` is an ASCII decimal digit.
pub open spec fn all_digits(s: Seq<char>) -> bool {
    forall|i: int| 0 <= i < s.len() ==> '0' <= #[trigger] s[i] <= '9'
}

/// What `str::parse::<usize>` gives: an optional `+`, then one or more
/// ASCII digits whose value fits in `usize`.
pub open spec fn parse_usize_spec(s: Seq<char>) -> Option<usize> {
    let d = if s.len() > 0 && s[0] == '+' {
        s.drop_first()
    } else {
        s
    };
    if d.len() > 0 && all_digits(d) && digits_value(d) <= usize::MAX {
        Some(digits_value(d) as usize)
    } else {
        None
    }
}

proof fn lemma_digits_value_grows(s: Seq<char>, i: int)
    requires
        0 <= i <= s.len(),
        all_digits(s),
    ensures
        digits_value(s.take(i)) <= digits_value(s),
    decreases s.len() - i,
{
    if i < s.len() {
        lemma_digits_value_grows(s, i + 1);
        assert(s.take(i + 1).drop_last() =~= s.take(i));
        assert(s.take(i + 1).last() == s[i]);
        assert('0' <= s[i]);
    } else {
        assert(s.take(i) =~= s);
    }
}

/// Parses a decimal `usize` as `str::parse::<usize>` does.
pub fn parse_usize(s: &[char]) -> (r: Option<usize>)
    ensures
        r == parse_usize_spec(s@),
{
    let n = s.len();
    let mut start: usize = 0;
    if n > 0 && s[0] == '+' {
        start = 1;
    }
    let ghost d = if s@.len() > 0 && s@[0] == '+' {
        s@.drop_first()
    } else {
        s@
    };
    assert(d =~= s@.skip(start as int));
    assert(parse_usize_spec(s@) == (if d.len() > 0 && all_digits(d) && digits_value(d)
        <= usize::MAX {
        Some(digits_value(d) as usize)
    } else {
        None
    }));
    if start == n {
        return None;
    }
    let mut acc: usize = 0;
    let mut i: usize = start;
    assert(d.take(0) =~= Seq::<char>::empty());
    while i < n
        invariant
            start <= i <= n == s@.len(),
            start < n,
            d =~= s@.skip(start as int),
            parse_usize_spec(s@) == (if d.len() > 0 && all_digits(d) && digits_value(d)
                <= usize::MAX {
                Some(digits_value(d) as usize)
            } else {
                None
            }),
            forall|j: int| start <= j < i ==> '0' <= #[trigger] s@[j] <= '9',
            acc == digits_value(d.take(i - start)),
        decreases n - i,
    {
        let c = s[i];
        if !('0' <= c && c <= '9') {
            assert(!all_digits(d)) by {
                assert(d[i - start] == c);
            }
            assert(parse_usize_spec(s@) is None);
            return None;
        }
        let v = (c as u32 - '0' as u32) as usize;
        assert(d.take(i - start + 1).drop_last() =~= d.take(i - start));
        assert(d.take(i - start + 1).last() == c);
        assert(digits_value(d.take(i - start + 1)) == acc * 10 + v);
        match acc.checked_mul(10) {
            Some(m) => match m.checked_add(v) {
                Some(t) => {
                    acc = t;
                },
                None => {
                    proof {
                        if all_digits(d) {
                            lemma_digits_value_grows(d, i - start + 1);
                        }
                    }
                    assert(parse_usize_spec(s@) is None);
                    return None;
                },
            },
            None => {
                proof {
                    if all_digits(d) {
                        lemma_digits_value_grows(d, i - start + 1);
                    }
                }
                return None;
            },
        }
        i = i + 1;
    }
    assert(d.take(n - start) =~= d);
    Some(acc)
}


/// `s` ends with `suffix`.
pub open spec fn ends_with(s: Seq<char>, suffix: Seq<char>) -> bool {
    suffix.len() <= s.len() && s.subrange(s.len() - suffix.len(), s.len() as int) == suffix
}

/// Whether `s` ends with `suffix`.
pub fn chars_end_with(s: &[char], suffix: &[char]) -> (r: bool)
    ensures
        r == ends_with(s@, suffix@),
{
    let n = s.len();
    let k = suffix.len();
    if k > n {
        return false;
    }
    let mut i: usize = 0;
    while i < k
        invariant
            k <= n,
            n == s@.len(),
            k == suffix@.len(),
            i <= k,
            forall|j: int| 0 <= j < i ==> s@[n - k + j] == suffix@[j],
        decreases k - i,
    {
        if s[n - k + i] != suffix[i] {
            assert(s@.subrange(n - k, n as int)[i as int] != suffix@[i as int]);
            return false;
        }
        i = i + 1;
    }
    assert(s@.subrange(n - k, n as int) =~= suffix@);
    true
}

/// Whether `s` and `t` hold the same characters.
pub fn chars_equal(s: &[char], t: &[char]) -> (r: bool)
    ensures
        r == (s@ == t@),
{
    if s.len() != t.len() {
        return false;
    }
    let r = chars_end_with(s, t);
    proof {
        assert(s@.subrange(0, s@.len() as int) =~= s@);
    }
    r
}

/// The characters of `s`.
pub fn chars_of(s: &str) -> (r: Vec<char>)
    ensures
        r@ == s@,
{
    broadcast use vstd::string::group_string_axioms;

    let mut r: Vec<char> = Vec::new();
    for c in it: s.chars()
        invariant
            it.seq() == s@,
            r@.len() == it.index(),
            r@ == s@.take(r@.len() as int),
    {
        r.push(c);
        assert(r@ =~= s@.take(r@.len() as int));
    }
    assert(r@ =~= s@);
    r
}

/// What `String::from_utf8_lossy` makes of `bytes`.
pub uninterp spec fn utf8_lossy(bytes: Seq<u8>) -> Seq<char>;

/// Unicode lower case of `s`, as `str::to_lowercase` computes it.
pub uninterp spec fn unicode_lowercase(s: Seq<char>) -> Seq<char>;

/// Decodes `bytes` with `String::from_utf8_lossy`. Claimed: the characters are
/// `utf8_lossy(bytes)`, and, since only invalid sequences are replaced, valid
/// UTF-8 decodes to its characters. Which character stands for an invalid
/// sequence is left to the name.
#[verifier::external_body]
pub(crate) fn decode_lossy(bytes: &[u8]) -> (r: Vec<char>)
    ensures
        r@ == utf8_lossy(bytes@),
        valid_utf8(bytes@) ==> r@ == decode_utf8(bytes@),
{
    String::from_utf8_lossy(bytes).chars().collect()
}

/// Lower-cases `s` with `str::to_lowercase`. Claimed: the result is
/// `unicode_lowercase(s)`; the Unicode case tables are left to the name.
#[verifier::external_body]
pub(crate) fn lowercase(s: &[char]) -> (r: Vec<char>)
    ensures
        r@ == unicode_lowercase(s@),
{
    s.iter().collect::<String>().to_lowercase().chars().collect()
}

/// Collects `s` into a `String` (`FromIterator<&char>`). Claimed: the string
/// holds exactly these characters.
#[verifier::external_body]
pub(crate) fn string_from_chars(s: &[char]) -> (r: String)
    ensures
        r@ == s@,
{
    s.iter().collect()
}


/// Trimmed text neither starts nor ends with white space, and is the part of
/// the text that follows its leading white space.
pub proof fn lemma_trim_clean(s: Seq<char>)
    ensures
        trim(s).len() > 0 ==> !is_space(trim(s)[0]) && !is_space(trim(s).last()),
        0 <= lead_len(s) <= lead_len(s) + trim(s).len() <= s.len(),
        trim(s) == s.subrange(lead_len(s), lead_len(s) + trim(s).len()),
{
    let a = lead_len(s);
    let b = trail_len(s);
    assert(is_lead_len(s, a)) by {
        lemma_lead_exists(s);
    }
    assert(is_trail_len(s, b)) by {
        lemma_trail_exists(s);
    }
    if a == s.len() {
        assert(s.subrange(a, a) =~= trim(s));
    } else {
        assert(b < s.len()) by {
            if b == s.len() {
                assert(is_space(s[a]));
            }
        }
        assert(a <= s.len() - 1 - b) by {
            if a > s.len() - 1 - b {
                assert(is_space(s[s.len() - 1 - b]));
            }
        }
        assert(trim(s) =~= s.subrange(a, a + trim(s).len()));
    }
}

proof fn lemma_lead_exists(s: Seq<char>)
    ensures
        exists|i: int| is_lead_len(s, i),
{
    lemma_lead_from(s, 0);
}

proof fn lemma_lead_from(s: Seq<char>, k: int)
    requires
        0 <= k <= s.len(),
        forall|j: int| 0 <= j < k ==> is_space(#[trigger] s[j]),
    ensures
        exists|i: int| is_lead_len(s, i),
    decreases s.len() - k,
{
    if k == s.len() || !is_space(s[k]) {
        assert(is_lead_len(s, k));
    } else {
        lemma_lead_from(s, k + 1);
    }
}

proof fn lemma_trail_exists(s: Seq<char>)
    ensures
        exists|i: int| is_trail_len(s, i),
{
    lemma_trail_from(s, 0);
}

proof fn lemma_trail_from(s: Seq<char>, k: int)
    requires
        0 <= k <= s.len(),
        forall|j: int| s.len() - k <= j < s.len() ==> is_space(#[trigger] s[j]),
    ensures
        exists|i: int| is_trail_len(s, i),
    decreases s.len() - k,
{
    if k == s.len() || !is_space(s[s.len() - 1 - k]) {
        assert(is_trail_len(s, k));
    } else {
        lemma_trail_from(s, k + 1);
    }
}

} // verus!
