//! Character-level helpers on string slices: white space, trimming,
//! comparison, the first occurrence of a character and lower-casing.

use vstd::prelude::*;

verus! {

/// The characters that carry the Unicode `White_Space` property.
pub open spec fn is_white_space(c: char) -> bool {
    ||| ('\u{9}' <= c && c <= '\u{d}')
    ||| c == ' '
    ||| c == '\u{85}'
    ||| c == '\u{a0}'
    ||| c == '\u{1680}'
    ||| ('\u{2000}' <= c && c <= '\u{200a}')
    ||| c == '\u{2028}'
    ||| c == '\u{2029}'
    ||| c == '\u{202f}'
    ||| c == '\u{205f}'
    ||| c == '\u{3000}'
}

/// Whether every character of `s` is white space.
pub open spec fn all_white_space(s: Seq<char>) -> bool {
    forall|i: int| 0 <= i < s.len() ==> is_white_space(#[trigger] s[i])
}

/// The number of white-space characters that `s` starts with.
pub open spec fn leading_white_space(s: Seq<char>) -> nat
    decreases s.len(),
{
    if s.len() > 0 && is_white_space(s[0]) {
        1 + leading_white_space(s.drop_first())
    } else {
        0
    }
}

/// The number of white-space characters that `s` ends with.
pub open spec fn trailing_white_space(s: Seq<char>) -> nat
    decreases s.len(),
{
    if s.len() > 0 && is_white_space(s.last()) {
        1 + trailing_white_space(s.drop_last())
    } else {
        0
    }
}

/// `s` without its leading and its trailing white space.
pub open spec fn trimmed(s: Seq<char>) -> Seq<char> {
    let rest = s.skip(leading_white_space(s) as int);
    rest.take(rest.len() - trailing_white_space(rest))
}

/// `i` is the position of the first `c` in `s`.
pub open spec fn is_first_index_of(s: Seq<char>, c: char, i: int) -> bool {
    &&& 0 <= i < s.len()
    &&& s[i] == c
    &&& forall|j: int| 0 <= j < i ==> s[j] != c
}

/// The position of the first `c` in `s`, if there is one.
pub open spec fn first_index_of(s: Seq<char>, c: char) -> Option<int> {
    if exists|i: int| is_first_index_of(s, c, i) {
        Some(choose|i: int| is_first_index_of(s, c, i))
    } else {
        None
    }
}

/// Whether every character of `s` is ASCII.
pub open spec fn is_ascii_text(s: Seq<char>) -> bool {
    forall|i: int| 0 <= i < s.len() ==> #[trigger] s[i] <= '\u{7f}'
}

/// The lower-case form of an ASCII character: `A` to `Z` become `a` to `z`,
/// every other character stays.
pub open spec fn ascii_lower(c: char) -> char {
    if 'A' <= c && c <= 'Z' {
        ((c as u32) + 32) as char
    } else {
        c
    }
}

/// The lower-case form of a text that holds characters beyond ASCII, as
/// `str::to_lowercase` computes it from the Unicode case tables; nothing more
/// of it is stated here.
pub uninterp spec fn lowercase_beyond_ascii(s: Seq<char>) -> Seq<char>;

/// The lower-case form of a text, as `str::to_lowercase` computes it: on
/// ASCII text, each letter `A` to `Z` becomes `a` to `z` and every other
/// character stays; beyond ASCII, the Unicode case tables decide.
pub open spec fn lowercase(s: Seq<char>) -> Seq<char> {
    if is_ascii_text(s) {
        s.map_values(|c: char| ascii_lower(c))
    } else {
        lowercase_beyond_ascii(s)
    }
}

pub proof fn lemma_leading_white_space(s: Seq<char>)
    ensures
        leading_white_space(s) <= s.len(),
        forall|i: int| 0 <= i < leading_white_space(s) ==> is_white_space(#[trigger] s[i]),
        leading_white_space(s) < s.len() ==> !is_white_space(s[leading_white_space(s) as int]),
    decreases s.len(),
{
    if s.len() > 0 && is_white_space(s[0]) {
        let rest = s.drop_first();
        lemma_leading_white_space(rest);
        assert forall|i: int| 0 <= i < leading_white_space(s) implies is_white_space(
            #[trigger] s[i],
        ) by {
            if i > 0 {
                assert(s[i] == rest[i - 1]);
            }
        }
        if leading_white_space(s) < s.len() {
            assert(s[leading_white_space(s) as int] == rest[leading_white_space(rest) as int]);
        }
    }
}

pub proof fn lemma_trailing_white_space(s: Seq<char>)
    ensures
        trailing_white_space(s) <= s.len(),
        forall|i: int|
            s.len() - trailing_white_space(s) <= i < s.len() ==> is_white_space(#[trigger] s[i]),
        trailing_white_space(s) < s.len() ==> !is_white_space(
            s[s.len() - trailing_white_space(s) - 1],
        ),
    decreases s.len(),
{
    if s.len() > 0 && is_white_space(s.last()) {
        let rest = s.drop_last();
        lemma_trailing_white_space(rest);
        assert forall|i: int|
            s.len() - trailing_white_space(s) <= i < s.len() implies is_white_space(
            #[trigger] s[i],
        ) by {
            if i < s.len() - 1 {
                assert(s[i] == rest[i]);
            }
        }
        if trailing_white_space(s) < s.len() {
            assert(s[s.len() - trailing_white_space(s) - 1] == rest[rest.len()
                - trailing_white_space(rest) - 1]);
        }
    }
}

/// Whenever `s[a..b]` is framed by white space and neither starts nor ends
/// with white space, it is what trimming `s` leaves.
pub proof fn lemma_trimmed_is_framed_part(s: Seq<char>, a: int, b: int)
    requires
        0 <= a <= b <= s.len(),
        forall|i: int| 0 <= i < a ==> is_white_space(#[trigger] s[i]),
        forall|i: int| b <= i < s.len() ==> is_white_space(#[trigger] s[i]),
        a < b ==> !is_white_space(s[a]) && !is_white_space(s[b - 1]),
    ensures
        trimmed(s) == s.subrange(a, b),
{
    lemma_leading_white_space(s);
    let lead = leading_white_space(s) as int;
    if a < b {
        if lead < a {
            assert(is_white_space(s[lead]));
        }
        if lead > a {
            assert(is_white_space(s[a]));
        }
        assert(lead == a);
    } else {
        if lead < s.len() {
            assert(is_white_space(s[lead]));
        }
        assert(lead == s.len());
    }
    let rest = s.skip(lead);
    lemma_trailing_white_space(rest);
    let trail = trailing_white_space(rest) as int;
    let k = s.len() - b;
    if a < b {
        if trail < k {
            assert(rest[rest.len() - trail - 1] == s[s.len() - trail - 1]);
        }
        if trail > k {
            assert(rest[rest.len() - k - 1] == s[b - 1]);
        }
        assert(trail == k);
    } else {
        assert(rest.len() == 0);
    }
    assert(trimmed(s) =~= s.subrange(a, b));
}

/// What trimming leaves neither begins nor ends with white space.
pub proof fn lemma_trimmed_ends(s: Seq<char>)
    ensures
        trimmed(s).len() > 0 ==> !is_white_space(trimmed(s)[0]) && !is_white_space(
            trimmed(s).last(),
        ),
{
    lemma_leading_white_space(s);
    let lead = leading_white_space(s) as int;
    let rest = s.skip(lead);
    lemma_trailing_white_space(rest);
    let t = trimmed(s);
    if t.len() > 0 {
        assert(t[0] == rest[0]);
        assert(rest[0] == s[lead]);
        assert(t.last() == rest[rest.len() - trailing_white_space(rest) - 1]);
    }
}

/// Trimming looks through white space added before and after.
pub proof fn lemma_trimmed_ignores_padding(before: Seq<char>, s: Seq<char>, after: Seq<char>)
    requires
        all_white_space(before),
        all_white_space(after),
    ensures
        trimmed(before + s + after) == trimmed(s),
{
    lemma_leading_white_space(s);
    let a = leading_white_space(s) as int;
    let rest = s.skip(a);
    lemma_trailing_white_space(rest);
    let b = s.len() - trailing_white_space(rest);
    if a < s.len() {
        assert(rest[0] == s[a]);
        assert(trailing_white_space(rest) < rest.len());
        assert(s[b - 1] == rest[rest.len() - trailing_white_space(rest) - 1]);
    }
    assert forall|i: int| b <= i < s.len() implies is_white_space(#[trigger] s[i]) by {
        assert(s[i] == rest[i - a]);
    }
    lemma_trimmed_is_framed_part(s, a, b);
    let whole = before + s + after;
    let p = before.len() as int;
    assert forall|i: int| 0 <= i < p + a implies is_white_space(#[trigger] whole[i]) by {
        if i >= p {
            assert(whole[i] == s[i - p]);
        }
    }
    assert forall|i: int| p + b <= i < whole.len() implies is_white_space(#[trigger] whole[i]) by {
        if i < p + s.len() {
            assert(whole[i] == s[i - p]);
        } else {
            assert(whole[i] == after[i - p - s.len()]);
        }
    }
    if a < b {
        assert(whole[p + a] == s[a]);
        assert(whole[p + b - 1] == s[b - 1]);
    }
    lemma_trimmed_is_framed_part(whole, p + a, p + b);
    assert(whole.subrange(p + a, p + b) =~= s.subrange(a, b));
}

/// Whether `c` is white space.
pub fn char_is_white_space(c: char) -> (res: bool)
    ensures
        res == is_white_space(c),
{
    ('\u{9}' <= c && c <= '\u{d}') || c == ' ' || c == '\u{85}' || c == '\u{a0}' || c
        == '\u{1680}' || ('\u{2000}' <= c && c <= '\u{200a}') || c == '\u{2028}' || c
        == '\u{2029}' || c == '\u{202f}' || c == '\u{205f}' || c == '\u{3000}'
}

/// `s` without its leading and trailing white space.
pub fn trim(s: &str) -> (res: &str)
    ensures
        res@ == trimmed(s@),
{
    let n = s.unicode_len();
    let mut start: usize = 0;
    while start < n
        invariant
            n == s@.len(),
            start <= n,
            forall|i: int| 0 <= i < start ==> is_white_space(#[trigger] s@[i]),
        ensures
            start <= n,
            forall|i: int| 0 <= i < start ==> is_white_space(#[trigger] s@[i]),
            start < n ==> !is_white_space(s@[start as int]),
        decreases n - start,
    {
        if !char_is_white_space(s.get_char(start)) {
            break;
        }
        start = start + 1;
    }
    let mut end: usize = n;
    while end > start
        invariant
            n == s@.len(),
            start <= end <= n,
            forall|i: int| end <= i < n ==> is_white_space(#[trigger] s@[i]),
        ensures
            start <= end <= n,
            forall|i: int| end <= i < n ==> is_white_space(#[trigger] s@[i]),
            start < end ==> !is_white_space(s@[end - 1]),
        decreases end - start,
    {
        if !char_is_white_space(s.get_char(end - 1)) {
            break;
        }
        end = end - 1;
    }
    proof {
        lemma_trimmed_is_framed_part(s@, start as int, end as int);
    }
    s.substring_char(start, end)
}

/// Whether the two slices hold the same characters.
pub fn str_equals(a: &str, b: &str) -> (res: bool)
    ensures
        res == (a@ == b@),
{
    let n = a.unicode_len();
    let m = b.unicode_len();
    if n != m {
        return false;
    }
    let mut i: usize = 0;
    while i < n
        invariant
            n == a@.len(),
            m == b@.len(),
            n == m,
            i <= n,
            forall|j: int| 0 <= j < i ==> a@[j] == b@[j],
        decreases n - i,
    {
        if a.get_char(i) != b.get_char(i) {
            return false;
        }
        i = i + 1;
    }
    assert(a@ =~= b@);
    true
}

/// The position of the first `c` in `s`, if there is one.
pub fn find_char(s: &str, c: char) -> (res: Option<usize>)
    ensures
        match res {
            Some(i) => first_index_of(s@, c) == Some(i as int),
            None => first_index_of(s@, c) == None::<int>,
        },
{
    let n = s.unicode_len();
    let mut i: usize = 0;
    while i < n
        invariant
            n == s@.len(),
            i <= n,
            forall|j: int| 0 <= j < i ==> s@[j] != c,
        decreases n - i,
    {
        if s.get_char(i) == c {
            proof {
                assert(is_first_index_of(s@, c, i as int));
                let k = choose|k: int| is_first_index_of(s@, c, k);
                if k < i {
                    assert(s@[k] != c);
                }
                if k > i {
                    assert(s@[i as int] != c);
                }
            }
            return Some(i);
        }
        i = i + 1;
    }
    None
}

/// Lower-cases `s` with the standard library's `str::to_lowercase`. Trusted:
/// the contract claims that on ASCII text the result maps `A` to `Z` to `a`
/// to `z` and keeps every other character (the Unicode lower-case mapping of
/// ASCII), and that otherwise the result depends on the text alone (the
/// function does not consult the locale), named `lowercase_beyond_ascii`;
/// which non-ASCII characters it maps to which is not stated.
#[verifier::external_body]
pub(crate) fn to_lowercase(s: &str) -> (res: String)
    ensures
        is_ascii_text(s@) ==> res@ == s@.map_values(|c: char| ascii_lower(c)),
        !is_ascii_text(s@) ==> res@ == lowercase_beyond_ascii(s@),
{
    s.to_lowercase()
}

/// The lower-case form of `s`.
pub fn lowercased(s: &str) -> (res: String)
    ensures
        res@ == lowercase(s@),
{
    to_lowercase(s)
}

/// The lower-case forms of the release channels' names.
pub proof fn lemma_channel_words_lowercase()
    ensures
        lowercase("Stable"@) == "stable"@,
        lowercase("Beta"@) == "beta"@,
        lowercase("Dev"@) == "dev"@,
        lowercase("Canary"@) == "canary"@,
        lowercase("stable"@) == "stable"@,
        lowercase("beta"@) == "beta"@,
        lowercase("dev"@) == "dev"@,
        lowercase("canary"@) == "canary"@,
{
    reveal_strlit("Stable");
    reveal_strlit("Beta");
    reveal_strlit("Dev");
    reveal_strlit("Canary");
    reveal_strlit("stable");
    reveal_strlit("beta");
    reveal_strlit("dev");
    reveal_strlit("canary");
    assert(lowercase("Stable"@) =~= "stable"@);
    assert(lowercase("Beta"@) =~= "beta"@);
    assert(lowercase("Dev"@) =~= "dev"@);
    assert(lowercase("Canary"@) =~= "canary"@);
    assert(lowercase("stable"@) =~= "stable"@);
    assert(lowercase("beta"@) =~= "beta"@);
    assert(lowercase("dev"@) =~= "dev"@);
    assert(lowercase("canary"@) =~= "canary"@);
}

} // verus!
