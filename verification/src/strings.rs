//! Verified text helpers: splitting, trimming, searching and digit parsing
//! over `&str` and `String`, each pinned to a spec-level model of the same
//! operation.

use vstd::prelude::*;

use vstd::string::StrSliceExecFns;

verus! {

/// Splitting at every occurrence of `sep`, keeping empty parts, exactly as
/// the standard splitter does: the empty text yields one empty part.
pub open spec fn split_spec(s: Seq<char>, sep: char) -> Seq<Seq<char>>
    decreases s.len(),
{
    if s.len() == 0 {
        seq![s]
    } else {
        let rest = split_spec(s.drop_last(), sep);
        if s.last() == sep {
            rest + seq![Seq::<char>::empty()]
        } else {
            rest.update(rest.len() - 1, rest.last().push(s.last()))
        }
    }
}

/// A split always yields at least one part.
pub proof fn lemma_split_spec_len(s: Seq<char>, sep: char)
    ensures
        split_spec(s, sep).len() >= 1,
    decreases s.len(),
{
    if s.len() > 0 {
        lemma_split_spec_len(s.drop_last(), sep);
    }
}

/// Splits `s` at every occurrence of `sep`, keeping empty parts.
pub fn split_char(s: &str, sep: char) -> (r: Vec<String>)
    ensures
        r.deep_view() == split_spec(s@, sep),
        r.len() >= 1,
{
    let len = s.unicode_len();
    let mut parts: Vec<String> = Vec::new();
    let mut word_start: usize = 0;
    let mut i: usize = 0;
    proof {
        assert(s@.take(0) =~= Seq::<char>::empty());
        assert(s@.subrange(0, 0) =~= Seq::<char>::empty());
        assert(parts.deep_view() =~= Seq::<Seq<char>>::empty());
        assert(Seq::<Seq<char>>::empty().push(Seq::<char>::empty()) =~= split_spec(s@.take(0), sep));
    }
    while i < len
        invariant
            0 <= word_start <= i <= len,
            len == s@.len(),
            parts.deep_view().push(s@.subrange(word_start as int, i as int)) == split_spec(
                s@.take(i as int),
                sep,
            ),
        decreases len - i,
    {
        let c = s.get_char(i);
        proof {
            assert(s@.take(i + 1).drop_last() =~= s@.take(i as int));
            assert(s@.take(i + 1).last() == s@[i as int]);
            lemma_split_spec_len(s@.take(i as int), sep);
        }
        if c == sep {
            let word = s.substring_char(word_start, i).to_owned();
            parts.push(word);
            proof {
                let before = split_spec(s@.take(i as int), sep);
                assert(split_spec(s@.take(i + 1), sep) =~= before + seq![Seq::<char>::empty()]);
                assert(s@.subrange(i + 1, i + 1) =~= Seq::<char>::empty());
                assert(parts.deep_view().push(s@.subrange(i + 1, i + 1)) =~= split_spec(
                    s@.take(i + 1),
                    sep,
                ));
            }
            word_start = i + 1;
        } else {
            proof {
                let before = split_spec(s@.take(i as int), sep);
                assert(before.last() == s@.subrange(word_start as int, i as int));
                assert(s@.subrange(word_start as int, i + 1) =~= s@.subrange(
                    word_start as int,
                    i as int,
                ).push(s@[i as int]));
                assert(parts.deep_view().push(s@.subrange(word_start as int, i + 1)) =~= split_spec(
                    s@.take(i + 1),
                    sep,
                ));
            }
        }
        i = i + 1;
    }
    let word = s.substring_char(word_start, len).to_owned();
    parts.push(word);
    proof {
        assert(s@.take(len as int) =~= s@);
        assert(parts.deep_view() =~= split_spec(s@, sep));
        lemma_split_spec_len(s@, sep);
    }
    parts
}

/// Ascii whitespace, the characters the trimmer strips from either end.
pub open spec fn is_space_char(c: char) -> bool {
    c == ' ' || c == '\t' || c == '\r' || c == '\n' || c == '\u{b}' || c == '\u{c}'
}

/// The text with leading and trailing whitespace removed.
pub open spec fn trim_spec(s: Seq<char>) -> Seq<char>
    decreases s.len(),
{
    if s.len() == 0 {
        s
    } else if is_space_char(s.first()) {
        trim_spec(s.drop_first())
    } else if is_space_char(s.last()) {
        trim_spec(s.drop_last())
    } else {
        s
    }
}

fn is_space(c: char) -> (r: bool)
    ensures
        r == is_space_char(c),
{
    c == ' ' || c == '\t' || c == '\r' || c == '\n' || c == '\u{b}' || c == '\u{c}'
}

/// Strips whitespace from both ends of `s`.
pub fn trim(s: &str) -> (r: String)
    ensures
        r@ == trim_spec(s@),
{
    let len = s.unicode_len();
    let mut a: usize = 0;
    proof {
        assert(s@.skip(0) =~= s@);
    }
    while a < len && is_space(s.get_char(a))
        invariant
            0 <= a <= len,
            len == s@.len(),
            trim_spec(s@) == trim_spec(s@.skip(a as int)),
        decreases len - a,
    {
        proof {
            assert(s@.skip(a as int).first() == s@[a as int]);
            assert(s@.skip(a as int).drop_first() =~= s@.skip(a + 1));
        }
        a = a + 1;
    }
    if a == len {
        proof {
            assert(s@.skip(len as int) =~= Seq::<char>::empty());
        }
        return String::new();
    }
    let mut b: usize = len;
    proof {
        assert(s@.skip(a as int) =~= s@.subrange(a as int, len as int));
    }
    while b > a + 1 && is_space(s.get_char(b - 1))
        invariant
            a < b <= len,
            len == s@.len(),
            a < len,
            !is_space_char(s@[a as int]),
            trim_spec(s@) == trim_spec(s@.subrange(a as int, b as int)),
        decreases b,
    {
        proof {
            let part = s@.subrange(a as int, b as int);
            assert(part.first() == s@[a as int]);
            assert(part.last() == s@[b - 1]);
            assert(part.drop_last() =~= s@.subrange(a as int, b - 1));
        }
        b = b - 1;
    }
    proof {
        let part = s@.subrange(a as int, b as int);
        assert(part.first() == s@[a as int]);
        assert(part.last() == s@[b - 1]);
        if b == a + 1 {
            assert(part.last() == part.first());
        }
        assert(trim_spec(part) == part);
    }
    s.substring_char(a, b).to_owned()
}

/// Whether the text begins with the given prefix.
pub open spec fn has_prefix(s: Seq<char>, p: Seq<char>) -> bool {
    s.len() >= p.len() && s.take(p.len() as int) == p
}

/// True exactly when `s` begins with `prefix`.
pub fn starts_with(s: &str, prefix: &str) -> (r: bool)
    ensures
        r == has_prefix(s@, prefix@),
{
    let n = prefix.unicode_len();
    if s.unicode_len() < n {
        return false;
    }
    let mut i: usize = 0;
    while i < n
        invariant
            0 <= i <= n,
            n == prefix@.len(),
            s@.len() >= n,
            forall|j: int| 0 <= j < i ==> s@[j] == prefix@[j],
        decreases n - i,
    {
        if s.get_char(i) != prefix.get_char(i) {
            proof {
                assert(s@.take(n as int)[i as int] != prefix@[i as int]);
            }
            return false;
        }
        i = i + 1;
    }
    proof {
        assert(s@.take(n as int) =~= prefix@);
    }
    true
}

/// True exactly when the two texts hold the same characters.
pub fn str_eq(a: &str, b: &str) -> (r: bool)
    ensures
        r == (a@ == b@),
{
    let n = a.unicode_len();
    if b.unicode_len() != n {
        return false;
    }
    let mut i: usize = 0;
    while i < n
        invariant
            0 <= i <= n,
            n == a@.len() == b@.len(),
            forall|j: int| 0 <= j < i ==> a@[j] == b@[j],
        decreases n - i,
    {
        if a.get_char(i) != b.get_char(i) {
            return false;
        }
        i = i + 1;
    }
    proof {
        assert(a@ =~= b@);
    }
    true
}

/// True exactly when some list entry holds the characters of `w`.
pub fn words_contain(words: &Vec<String>, w: &str) -> (r: bool)
    ensures
        r == words.deep_view().contains(w@),
{
    let mut i: usize = 0;
    while i < words.len()
        invariant
            0 <= i <= words.len(),
            forall|j: int| 0 <= j < i ==> words.deep_view()[j] != w@,
        decreases words.len() - i,
    {
        if str_eq(words[i].as_str(), w) {
            proof {
                assert(words.deep_view()[i as int] == w@);
            }
            return true;
        }
        i = i + 1;
    }
    false
}

/// True exactly when `c` occurs in `s`.
pub fn contains_char(s: &str, c: char) -> (r: bool)
    ensures
        r == s@.contains(c),
{
    let len = s.unicode_len();
    let mut i: usize = 0;
    while i < len
        invariant
            0 <= i <= len,
            len == s@.len(),
            forall|j: int| 0 <= j < i ==> s@[j] != c,
        decreases len - i,
    {
        if s.get_char(i) == c {
            return true;
        }
        i = i + 1;
    }
    false
}

/// How often `c` occurs in `s`.
pub open spec fn count_char_spec(s: Seq<char>, c: char) -> int
    decreases s.len(),
{
    if s.len() == 0 {
        0
    } else {
        count_char_spec(s.drop_last(), c) + if s.last() == c {
            1int
        } else {
            0int
        }
    }
}

/// The count never exceeds the length.
pub proof fn lemma_count_char_le_len(s: Seq<char>, c: char)
    ensures
        0 <= count_char_spec(s, c) <= s.len(),
    decreases s.len(),
{
    if s.len() > 0 {
        lemma_count_char_le_len(s.drop_last(), c);
    }
}

/// Counts the occurrences of `c` in `s`.
pub fn count_char(s: &str, c: char) -> (r: usize)
    ensures
        r == count_char_spec(s@, c),
{
    let len = s.unicode_len();
    let mut n: usize = 0;
    let mut i: usize = 0;
    proof {
        assert(s@.take(0) =~= Seq::<char>::empty());
    }
    while i < len
        invariant
            0 <= i <= len,
            len == s@.len(),
            n == count_char_spec(s@.take(i as int), c),
            n <= i,
        decreases len - i,
    {
        proof {
            assert(s@.take(i + 1).drop_last() =~= s@.take(i as int));
            lemma_count_char_le_len(s@.take(i as int), c);
        }
        if s.get_char(i) == c {
            n = n + 1;
        }
        i = i + 1;
    }
    proof {
        assert(s@.take(len as int) =~= s@);
    }
    n
}


/// A decimal digit.
pub open spec fn is_digit(c: char) -> bool {
    48 <= c as u32 <= 57
}

/// The value of one decimal digit.
pub open spec fn digit_val(c: char) -> int {
    c as u32 - 48
}

/// Every character is a decimal digit.
pub open spec fn all_digits(s: Seq<char>) -> bool {
    forall|i: int| 0 <= i < s.len() ==> is_digit(#[trigger] s[i])
}

/// The number the digit string denotes.
pub open spec fn digits_val(s: Seq<char>) -> int
    decreases s.len(),
{
    if s.len() == 0 {
        0
    } else {
        digits_val(s.drop_last()) * 10 + digit_val(s.last())
    }
}

/// A digit string denotes a number, never something negative.
pub proof fn lemma_digits_val_nonneg(s: Seq<char>)
    requires
        all_digits(s),
    ensures
        digits_val(s) >= 0,
    decreases s.len(),
{
    if s.len() > 0 {
        assert(all_digits(s.drop_last()));
        lemma_digits_val_nonneg(s.drop_last());
    }
}

/// Dropping trailing digits never grows the denoted number.
pub proof fn lemma_digits_prefix_le(s: Seq<char>, k: int)
    requires
        all_digits(s),
        0 <= k <= s.len(),
    ensures
        digits_val(s.take(k)) <= digits_val(s),
    decreases s.len() - k,
{
    if k < s.len() {
        lemma_digits_prefix_le(s, k + 1);
        assert(s.take(k + 1).drop_last() =~= s.take(k));
        assert(s.take(k + 1).last() == s[k]);
        assert(all_digits(s.take(k)));
        lemma_digits_val_nonneg(s.take(k));
    } else {
        assert(s.take(k) =~= s);
    }
}

/// What the standard parser makes of the text as an unsigned machine
/// integer: an optional leading plus sign, then at least one digit, and the
/// denoted number must fit.
pub open spec fn parse_usize_spec(s: Seq<char>) -> Option<int> {
    let body = if s.len() > 0 && s[0] == '+' {
        s.drop_first()
    } else {
        s
    };
    if body.len() > 0 && all_digits(body) && digits_val(body) <= usize::MAX {
        Some(digits_val(body))
    } else {
        None
    }
}

/// Parses an unsigned machine integer: an optional leading plus sign, then
/// at least one digit; anything else, or a number too large to fit, is
/// rejected.
pub fn parse_usize(s: &str) -> (r: Option<usize>)
    ensures
        match parse_usize_spec(s@) {
            Some(v) => r is Some && r->0 as int == v,
            None => r is None,
        },
{
    let len = s.unicode_len();
    let has_sign = len >= 1 && s.get_char(0) == '+';
    let start: usize = if has_sign {
        1
    } else {
        0
    };
    let ghost body = if s@.len() > 0 && s@[0] == '+' {
        s@.drop_first()
    } else {
        s@
    };
    proof {
        assert(body =~= s@.skip(start as int));
    }
    if start >= len {
        return None;
    }
    let mut val: usize = 0;
    let mut i = start;
    proof {
        assert(body.take(0) =~= Seq::<char>::empty());
    }
    while i < len
        invariant
            start <= i <= len,
            len == s@.len(),
            start == (if s@.len() > 0 && s@[0] == '+' {
                1int
            } else {
                0int
            }),
            start < len,
            body == (if s@.len() > 0 && s@[0] == '+' {
                s@.drop_first()
            } else {
                s@
            }),
            body == s@.skip(start as int),
            body.len() == len - start,
            all_digits(body.take(i - start)),
            val as int == digits_val(body.take(i - start)),
        decreases len - i,
    {
        let c = s.get_char(i);
        let cu = c as u32;
        proof {
            assert(body[i - start] == s@[i as int]);
        }
        if !(48 <= cu && cu <= 57) {
            proof {
                assert(!is_digit(body[i - start]));
                assert(!all_digits(body));
            }
            return None;
        }
        let d: usize = (cu - 48) as usize;
        proof {
            assert(body.take(i - start + 1).drop_last() =~= body.take(i - start));
            assert(body.take(i - start + 1).last() == body[i - start]);
        }
        if val > (usize::MAX - d) / 10 {
            proof {
                let q = (usize::MAX - d) / 10;
                vstd::arithmetic::div_mod::lemma_fundamental_div_mod(
                    (usize::MAX - d) as int,
                    10,
                );
                assert(10 * (val as int) + d > usize::MAX);
                if all_digits(body) {
                    lemma_digits_prefix_le(body, i - start + 1);
                    assert(digits_val(body.take(i - start + 1)) == 10 * (val as int) + d);
                    assert(digits_val(body) > usize::MAX);
                }
            }
            return None;
        }
        proof {
            let q = (usize::MAX - d) / 10;
            vstd::arithmetic::div_mod::lemma_fundamental_div_mod((usize::MAX - d) as int, 10);
            assert(10 * (val as int) + d <= usize::MAX);
        }
        val = val * 10 + d;
        i = i + 1;
    }
    proof {
        assert(body.take(len - start) =~= body);
    }
    Some(val)
}


/// Whether `p` occurs in `s` as a contiguous run of characters.
pub open spec fn has_substring(s: Seq<char>, p: Seq<char>) -> bool {
    exists|k: int| 0 <= k <= s.len() - p.len() && #[trigger] s.subrange(k, k + p.len()) == p
}

/// True exactly when the characters of `p`, in order, stand at position `k`
/// of `s`.
fn match_at(s: &str, p: &str, k: usize) -> (r: bool)
    requires
        k + p@.len() <= s@.len(),
    ensures
        r == (s@.subrange(k as int, k + p@.len()) == p@),
{
    let slen = s.unicode_len();
    let m = p.unicode_len();
    let mut j: usize = 0;
    while j < m
        invariant
            0 <= j <= m,
            m == p@.len(),
            slen == s@.len(),
            k + m <= slen,
            forall|y: int| 0 <= y < j ==> s@[k + y] == p@[y],
        decreases m - j,
    {
        if s.get_char(k + j) != p.get_char(j) {
            proof {
                assert(s@.subrange(k as int, k + p@.len())[j as int] != p@[j as int]);
            }
            return false;
        }
        j = j + 1;
    }
    proof {
        assert(s@.subrange(k as int, k + p@.len()) =~= p@);
    }
    true
}

/// True exactly when `pat` occurs in `s` as a contiguous run of characters.
pub fn contains_str(s: &str, pat: &str) -> (r: bool)
    ensures
        r == has_substring(s@, pat@),
{
    let n = s.unicode_len();
    let m = pat.unicode_len();
    if m > n {
        return false;
    }
    if m == 0 {
        proof {
            assert(s@.subrange(0int, 0int + pat@.len() as int) =~= pat@);
            assert(has_substring(s@, pat@));
        }
        return true;
    }
    let mut k: usize = 0;
    while k <= n - m
        invariant
            0 <= k <= n - m + 1,
            n == s@.len(),
            m == pat@.len(),
            1 <= m <= n,
            forall|x: int| 0 <= x < k ==> #[trigger] s@.subrange(x, x + pat@.len()) != pat@,
        decreases n - m + 1 - k,
    {
        if match_at(s, pat, k) {
            proof {
                assert(has_substring(s@, pat@));
            }
            return true;
        }
        k = k + 1;
    }
    false
}

} // verus!
