//! Character-sequence utilities shared by the parser, the date extractor
//! and the server: substring search, delimiter splitting, character
//! classes, trimming, and decimal digits.
use vstd::prelude::*;

verus! {

/// The delimiter `d` occurs in `s` at position `i`.
pub open spec fn match_at(s: Seq<char>, d: Seq<char>, i: int) -> bool {
    &&& 0 <= i
    &&& i + d.len() <= s.len()
    &&& s.subrange(i, i + d.len() as int) == d
}

/// The position of the leftmost occurrence of `d` in `s`, or -1 when
/// there is none.
pub open spec fn first_match(s: Seq<char>, d: Seq<char>) -> int
    decreases s.len(),
{
    if d.len() > s.len() {
        -1
    } else if s.subrange(0, d.len() as int) == d {
        0
    } else if s.len() == 0 {
        -1
    } else {
        let r = first_match(s.drop_first(), d);
        if r == -1 {
            -1
        } else {
            r + 1
        }
    }
}

/// `first_match` is the leftmost occurrence: a match where it points, and
/// no match anywhere to the left; -1 means no match at all.
pub proof fn lemma_first_match(s: Seq<char>, d: Seq<char>)
    ensures
        first_match(s, d) == -1 || first_match(s, d) >= 0,
        first_match(s, d) == -1 ==> forall|i: int| !match_at(s, d, i),
        first_match(s, d) >= 0 ==> match_at(s, d, first_match(s, d)) && (forall|i: int|
            0 <= i < first_match(s, d) ==> !match_at(s, d, i)),
    decreases s.len(),
{
    if d.len() > s.len() {
        assert(forall|i: int| match_at(s, d, i) ==> i + d.len() <= s.len());
    } else if s.subrange(0, d.len() as int) == d {
        assert(match_at(s, d, 0));
    } else if s.len() == 0 {
        assert(forall|i: int| !match_at(s, d, i));
    } else {
        let t = s.drop_first();
        lemma_first_match(t, d);
        assert(!match_at(s, d, 0));
        assert forall|i: int| 1 <= i && i + d.len() <= s.len() implies match_at(s, d, i)
            == match_at(t, d, i - 1) by {
            assert(t.subrange(i - 1, i - 1 + d.len() as int) =~= s.subrange(
                i,
                i + d.len() as int,
            ));
        }
        let r = first_match(t, d);
        if r == -1 {
            assert forall|i: int| !match_at(s, d, i) by {
                if 1 <= i && i + d.len() <= s.len() {
                    assert(!match_at(t, d, i - 1));
                }
            }
        } else {
            assert(match_at(s, d, r + 1));
            assert forall|i: int| 0 <= i < r + 1 implies !match_at(s, d, i) by {
                if i >= 1 {
                    assert(!match_at(t, d, i - 1));
                }
            }
        }
    }
}

/// A position that carries a match, with none to its left, is where
/// `first_match` points.
pub proof fn lemma_first_match_from_evidence(s: Seq<char>, d: Seq<char>, k: int)
    requires
        match_at(s, d, k),
        forall|i: int| 0 <= i < k ==> !match_at(s, d, i),
    ensures
        first_match(s, d) == k,
{
    lemma_first_match(s, d);
    let fm = first_match(s, d);
    if fm == -1 {
        assert(!match_at(s, d, k));
    } else {
        if fm < k {
            assert(!match_at(s, d, fm));
        }
        if k < fm {
            assert(!match_at(s, d, k));
        }
    }
}

/// When no position carries a match, `first_match` reports none.
pub proof fn lemma_first_match_none(s: Seq<char>, d: Seq<char>)
    requires
        d.len() > 0,
        forall|i: int| 0 <= i < s.len() ==> !match_at(s, d, i),
    ensures
        first_match(s, d) == -1,
{
    lemma_first_match(s, d);
    let fm = first_match(s, d);
    if fm >= 0 {
        assert(match_at(s, d, fm));
        assert(fm < s.len());
        assert(!match_at(s, d, fm));
    }
}

/// The segments of `s` between consecutive occurrences of the delimiter
/// `d`, leftmost first; a string without the delimiter is one segment.
pub open spec fn split_by(s: Seq<char>, d: Seq<char>) -> Seq<Seq<char>>
    recommends
        d.len() > 0,
    decreases s.len(),
{
    let fm = first_match(s, d);
    if fm < 0 || d.len() <= 0 || fm + d.len() > s.len() {
        seq![s]
    } else {
        seq![s.subrange(0, fm)] + split_by(s.subrange(fm + d.len(), s.len() as int), d)
    }
}

/// Splitting always yields at least one segment.
pub proof fn lemma_split_by_len(s: Seq<char>, d: Seq<char>)
    ensures
        split_by(s, d).len() >= 1,
    decreases s.len(),
{
    let fm = first_match(s, d);
    if !(fm < 0 || d.len() <= 0 || fm + d.len() > s.len()) {
        lemma_split_by_len(s.subrange(fm + d.len(), s.len() as int), d);
    }
}

/// Whether the delimiter `d` occurs in `s` at character position `i`.
fn is_match_at(s: &str, d: &str, i: usize) -> (r: bool)
    requires
        i + d@.len() <= s@.len(),
        s@.len() <= usize::MAX,
    ensures
        r == match_at(s@, d@, i as int),
{
    let dn = d.unicode_len();
    let mut j: usize = 0;
    while j < dn
        invariant
            j <= dn,
            dn == d@.len(),
            i + dn <= s@.len(),
            s@.len() <= usize::MAX,
            forall|k: int| 0 <= k < j ==> s@[i + k] == d@[k],
        decreases dn - j,
    {
        if s.get_char(i + j) != d.get_char(j) {
            assert(s@.subrange(i as int, i + d@.len() as int)[j as int] == s@[i + j]);
            return false;
        }
        j += 1;
    }
    assert(s@.subrange(i as int, i + d@.len() as int) =~= d@);
    true
}

/// Splits `s` on every occurrence of the delimiter `d`, leftmost first.
pub fn split_str(s: &str, d: &str) -> (r: Vec<String>)
    requires
        d@.len() > 0,
    ensures
        r@.len() == split_by(s@, d@).len(),
        forall|i: int| 0 <= i < r@.len() ==> #[trigger] r@[i]@ == split_by(s@, d@)[i],
{
    let n = s.unicode_len();
    let dn = d.unicode_len();
    let mut parts: Vec<String> = Vec::new();
    let mut start: usize = 0;
    let mut i: usize = 0;
    proof {
        assert(s@.subrange(0, n as int) =~= s@);
        assert(parts@.map_values(|p: String| p@) + split_by(s@, d@) =~= split_by(s@, d@));
    }
    while dn <= n && i <= n - dn
        invariant
            dn == d@.len(),
            n == s@.len(),
            dn > 0,
            start <= i <= n,
            forall|j: int| start <= j < i ==> !match_at(s@, d@, j),
            split_by(s@, d@) == parts@.map_values(|p: String| p@) + split_by(
                s@.subrange(start as int, n as int),
                d@,
            ),
        decreases n - i,
    {
        if is_match_at(s, d, i) {
            let ghost suffix = s@.subrange(start as int, n as int);
            let ghost k = i - start;
            let ghost old_map = parts@.map_values(|p: String| p@);
            proof {
                assert forall|j: int| 0 <= j && j + dn <= suffix.len() implies match_at(
                    suffix,
                    d@,
                    j,
                ) == match_at(s@, d@, start + j) by {
                    assert(suffix.subrange(j, j + d@.len() as int) =~= s@.subrange(
                        start + j,
                        start + j + d@.len() as int,
                    ));
                }
                assert(match_at(suffix, d@, k));
                lemma_first_match_from_evidence(suffix, d@, k);
                assert(suffix.subrange(0, k) =~= s@.subrange(start as int, i as int));
                assert(suffix.subrange(k + dn, suffix.len() as int) =~= s@.subrange(
                    (i + dn) as int,
                    n as int,
                ));
                assert(split_by(suffix, d@) == seq![s@.subrange(start as int, i as int)]
                    + split_by(s@.subrange((i + dn) as int, n as int), d@));
            }
            let part = String::from_str(s.substring_char(start, i));
            parts.push(part);
            proof {
                assert(parts@.map_values(|p: String| p@) =~= old_map.push(
                    s@.subrange(start as int, i as int),
                ));
                assert(old_map.push(s@.subrange(start as int, i as int)) + split_by(
                    s@.subrange((i + dn) as int, n as int),
                    d@,
                ) =~= old_map + split_by(suffix, d@));
            }
            start = i + dn;
            i = start;
        } else {
            i += 1;
        }
    }
    let ghost suffix = s@.subrange(start as int, n as int);
    proof {
        assert forall|j: int| 0 <= j < suffix.len() implies !match_at(suffix, d@, j) by {
            if j + dn <= suffix.len() {
                assert(suffix.subrange(j, j + d@.len() as int) =~= s@.subrange(
                    start + j,
                    start + j + d@.len() as int,
                ));
                if start + j < i {
                    assert(!match_at(s@, d@, start + j));
                } else {
                    assert(start + j + dn > n);
                }
            }
        }
        lemma_first_match_none(suffix, d@);
    }
    let ghost old_map = parts@.map_values(|p: String| p@);
    let last = String::from_str(s.substring_char(start, n));
    parts.push(last);
    proof {
        assert(split_by(suffix, d@) == seq![suffix]);
        assert(parts@.map_values(|p: String| p@) =~= old_map.push(suffix));
        assert(old_map.push(suffix) =~= old_map + seq![suffix]);
        assert(split_by(s@, d@) =~= parts@.map_values(|p: String| p@));
    }
    parts
}

/// The characters with the Unicode `White_Space` property, the set that
/// `str::trim` and `str::split_whitespace` go by.
pub open spec fn is_space_char(c: char) -> bool {
    ||| c == '\u{0009}'
    ||| c == '\u{000A}'
    ||| c == '\u{000B}'
    ||| c == '\u{000C}'
    ||| c == '\u{000D}'
    ||| c == ' '
    ||| c == '\u{0085}'
    ||| c == '\u{00A0}'
    ||| c == '\u{1680}'
    ||| (0x2000 <= c as u32 && c as u32 <= 0x200A)
    ||| c == '\u{2028}'
    ||| c == '\u{2029}'
    ||| c == '\u{202F}'
    ||| c == '\u{205F}'
    ||| c == '\u{3000}'
}

/// Whether `c` is a whitespace character.
pub fn is_space(c: char) -> (r: bool)
    ensures
        r == is_space_char(c),
{
    let v = c as u32;
    v == 0x0009 || v == 0x000A || v == 0x000B || v == 0x000C || v == 0x000D || v == 0x0020 || v
        == 0x0085 || v == 0x00A0 || v == 0x1680 || (0x2000 <= v && v <= 0x200A) || v == 0x2028 || v
        == 0x2029 || v == 0x202F || v == 0x205F || v == 0x3000
}

/// Whether `c` is a decimal digit.
pub open spec fn is_digit_char(c: char) -> bool {
    48 <= c as u32 && c as u32 <= 57
}

/// The numeric value of a decimal digit.
pub open spec fn digit_val(c: char) -> nat
    recommends
        is_digit_char(c),
{
    (c as u32 - 48) as nat
}

/// Relies on String::push: appends one character at the end of the string.
#[verifier::external_body]
pub fn push_char(s: &mut String, c: char)
    ensures
        final(s)@ == old(s)@.push(c),
{
    s.push(c);
}

/// `s` with every `/` removed.
pub open spec fn strip_slashes(s: Seq<char>) -> Seq<char>
    decreases s.len(),
{
    if s.len() == 0 {
        Seq::empty()
    } else if s[0] == '/' {
        strip_slashes(s.drop_first())
    } else {
        seq![s[0]] + strip_slashes(s.drop_first())
    }
}

/// Removing slashes commutes with appending one character.
pub proof fn lemma_strip_slashes_push(s: Seq<char>, c: char)
    ensures
        strip_slashes(s.push(c)) == if c == '/' {
            strip_slashes(s)
        } else {
            strip_slashes(s).push(c)
        },
    decreases s.len(),
{
    if s.len() == 0 {
        assert(s.push(c).drop_first() =~= Seq::<char>::empty());
        if c != '/' {
            assert(seq![c] + strip_slashes(Seq::<char>::empty()) =~= strip_slashes(s).push(c));
        }
    } else {
        assert(s.push(c).drop_first() =~= s.drop_first().push(c));
        lemma_strip_slashes_push(s.drop_first(), c);
        if s[0] != '/' {
            if c == '/' {
                assert(seq![s[0]] + strip_slashes(s.drop_first()) =~= strip_slashes(s));
            } else {
                assert(seq![s[0]] + strip_slashes(s.drop_first()).push(c) =~= (seq![s[0]]
                    + strip_slashes(s.drop_first())).push(c));
            }
        }
    }
}

/// No slash survives the stripping.
pub proof fn lemma_strip_slashes_no_slash(s: Seq<char>)
    ensures
        forall|i: int| 0 <= i < strip_slashes(s).len() ==> strip_slashes(s)[i] != '/',
    decreases s.len(),
{
    if s.len() > 0 {
        lemma_strip_slashes_no_slash(s.drop_first());
        if s[0] != '/' {
            let t = seq![s[0]] + strip_slashes(s.drop_first());
            assert forall|i: int| 0 <= i < t.len() implies t[i] != '/' by {
                if i > 0 {
                    assert(t[i] == strip_slashes(s.drop_first())[i - 1]);
                }
            }
        }
    }
}

/// A string without slashes is left unchanged.
pub proof fn lemma_strip_slashes_id(s: Seq<char>)
    requires
        forall|i: int| 0 <= i < s.len() ==> s[i] != '/',
    ensures
        strip_slashes(s) == s,
    decreases s.len(),
{
    if s.len() > 0 {
        assert(forall|i: int| 0 <= i < s.drop_first().len() ==> s.drop_first()[i] != '/');
        lemma_strip_slashes_id(s.drop_first());
        assert(seq![s[0]] + s.drop_first() =~= s);
    }
}

/// Returns `s` with every `/` removed.
pub fn remove_slash_chars(s: &str) -> (r: String)
    ensures
        r@ == strip_slashes(s@),
{
    let n = s.unicode_len();
    let mut out = String::new();
    let mut i: usize = 0;
    proof {
        assert(s@.subrange(0, 0) =~= Seq::<char>::empty());
    }
    while i < n
        invariant
            n == s@.len(),
            i <= n,
            out@ == strip_slashes(s@.subrange(0, i as int)),
        decreases n - i,
    {
        let c = s.get_char(i);
        proof {
            assert(s@.subrange(0, i + 1) =~= s@.subrange(0, i as int).push(s@[i as int]));
            lemma_strip_slashes_push(s@.subrange(0, i as int), s@[i as int]);
        }
        if c != '/' {
            push_char(&mut out, c);
        }
        i += 1;
    }
    proof {
        assert(s@.subrange(0, n as int) =~= s@);
    }
    out
}

/// How many whitespace characters `s` starts with.
pub open spec fn leading_spaces(s: Seq<char>) -> nat
    decreases s.len(),
{
    if s.len() == 0 || !is_space_char(s[0]) {
        0
    } else {
        1 + leading_spaces(s.drop_first())
    }
}

/// How many whitespace characters `s` ends with.
pub open spec fn trailing_spaces(s: Seq<char>) -> nat
    decreases s.len(),
{
    if s.len() == 0 || !is_space_char(s.last()) {
        0
    } else {
        1 + trailing_spaces(s.drop_last())
    }
}

/// `s` with leading and trailing whitespace removed, as `str::trim`
/// leaves it.
pub open spec fn trimmed(s: Seq<char>) -> Seq<char> {
    let a = leading_spaces(s) as int;
    let rest = s.subrange(a, s.len() as int);
    rest.subrange(0, rest.len() - trailing_spaces(rest))
}

/// The count of leading whitespace is pinned by the characters.
pub proof fn lemma_leading_spaces_char(s: Seq<char>, k: int)
    requires
        0 <= k <= s.len(),
        forall|j: int| 0 <= j < k ==> is_space_char(s[j]),
        k == s.len() || !is_space_char(s[k]),
    ensures
        leading_spaces(s) == k,
    decreases s.len(),
{
    if s.len() > 0 && k > 0 {
        lemma_leading_spaces_char(s.drop_first(), k - 1);
    }
}

/// The count of trailing whitespace is pinned by the characters.
pub proof fn lemma_trailing_spaces_char(s: Seq<char>, m: int)
    requires
        0 <= m <= s.len(),
        forall|j: int| s.len() - m <= j < s.len() ==> is_space_char(s[j]),
        m == s.len() || !is_space_char(s[s.len() - 1 - m]),
    ensures
        trailing_spaces(s) == m,
    decreases s.len(),
{
    if s.len() > 0 && m > 0 {
        lemma_trailing_spaces_char(s.drop_last(), m - 1);
    }
}

/// Returns `s` without its leading and trailing whitespace.
pub fn trim_str<'a>(s: &'a str) -> (r: &'a str)
    ensures
        r@ == trimmed(s@),
{
    let n = s.unicode_len();
    let mut i: usize = 0;
    while i < n && is_space(s.get_char(i))
        invariant
            n == s@.len(),
            i <= n,
            forall|j: int| 0 <= j < i ==> is_space_char(s@[j]),
        decreases n - i,
    {
        i += 1;
    }
    let mut j: usize = n;
    while j > i && is_space(s.get_char(j - 1))
        invariant
            n == s@.len(),
            i <= j <= n,
            forall|k: int| j <= k < n ==> is_space_char(s@[k]),
        decreases j,
    {
        j -= 1;
    }
    proof {
        lemma_leading_spaces_char(s@, i as int);
        let rest = s@.subrange(i as int, n as int);
        lemma_trailing_spaces_char(rest, n - j);
        assert(rest.subrange(0, rest.len() - (n - j)) =~= s@.subrange(i as int, j as int));
    }
    s.substring_char(i, j)
}

/// Length of the run of decimal digits that `s` starts with.
pub open spec fn digit_run_len(s: Seq<char>) -> nat
    decreases s.len(),
{
    if s.len() == 0 || !is_digit_char(s[0]) {
        0
    } else {
        1 + digit_run_len(s.drop_first())
    }
}

/// The digit run is part of the string.
pub proof fn lemma_digit_run_len_le(s: Seq<char>)
    ensures
        digit_run_len(s) <= s.len(),
    decreases s.len(),
{
    if s.len() > 0 && is_digit_char(s[0]) {
        lemma_digit_run_len_le(s.drop_first());
    }
}

/// The length of the leading digit run is pinned by the characters.
pub proof fn lemma_digit_run_len_char(s: Seq<char>, k: int)
    requires
        0 <= k <= s.len(),
        forall|j: int| 0 <= j < k ==> is_digit_char(s[j]),
        k == s.len() || !is_digit_char(s[k]),
    ensures
        digit_run_len(s) == k,
    decreases s.len(),
{
    if s.len() > 0 && k > 0 {
        lemma_digit_run_len_char(s.drop_first(), k - 1);
    }
}

/// A prefix of digits is never longer than the leading digit run.
pub proof fn lemma_digit_run_len_ge(s: Seq<char>, k: int)
    requires
        0 <= k <= s.len(),
        forall|j: int| 0 <= j < k ==> is_digit_char(s[j]),
    ensures
        digit_run_len(s) >= k,
    decreases s.len(),
{
    if s.len() > 0 && k > 0 {
        lemma_digit_run_len_ge(s.drop_first(), k - 1);
    }
}

/// The maximal runs of decimal digits in `s`, left to right.
pub open spec fn digit_runs(s: Seq<char>) -> Seq<Seq<char>>
    decreases s.len(),
    via digit_runs_dec
{
    if s.len() == 0 {
        Seq::empty()
    } else if !is_digit_char(s[0]) {
        digit_runs(s.drop_first())
    } else {
        let k = digit_run_len(s) as int;
        seq![s.subrange(0, k)] + digit_runs(s.subrange(k, s.len() as int))
    }
}

#[via_fn]
proof fn digit_runs_dec(s: Seq<char>) {
    lemma_digit_run_len_le(s);
}

/// Length of the run of non-whitespace characters that `s` starts with.
pub open spec fn token_len(s: Seq<char>) -> nat
    decreases s.len(),
{
    if s.len() == 0 || is_space_char(s[0]) {
        0
    } else {
        1 + token_len(s.drop_first())
    }
}

/// The token is part of the string.
pub proof fn lemma_token_len_le(s: Seq<char>)
    ensures
        token_len(s) <= s.len(),
    decreases s.len(),
{
    if s.len() > 0 && !is_space_char(s[0]) {
        lemma_token_len_le(s.drop_first());
    }
}

/// The length of the leading token is pinned by the characters.
pub proof fn lemma_token_len_char(s: Seq<char>, k: int)
    requires
        0 <= k <= s.len(),
        forall|j: int| 0 <= j < k ==> !is_space_char(s[j]),
        k == s.len() || is_space_char(s[k]),
    ensures
        token_len(s) == k,
    decreases s.len(),
{
    if s.len() > 0 && k > 0 {
        lemma_token_len_char(s.drop_first(), k - 1);
    }
}

/// The whitespace-separated words of `s`, left to right, as
/// `str::split_whitespace` yields them.
pub open spec fn ws_tokens(s: Seq<char>) -> Seq<Seq<char>>
    decreases s.len(),
    via ws_tokens_dec
{
    if s.len() == 0 {
        Seq::empty()
    } else if is_space_char(s[0]) {
        ws_tokens(s.drop_first())
    } else {
        let k = token_len(s) as int;
        seq![s.subrange(0, k)] + ws_tokens(s.subrange(k, s.len() as int))
    }
}

#[via_fn]
proof fn ws_tokens_dec(s: Seq<char>) {
    lemma_token_len_le(s);
}

/// The number a sequence of decimal digits denotes.
pub open spec fn digits_val(s: Seq<char>) -> nat
    decreases s.len(),
{
    if s.len() == 0 {
        0
    } else {
        digits_val(s.drop_last()) * 10 + digit_val(s.last())
    }
}

/// A prefix of a digit sequence denotes no more than the whole.
pub proof fn lemma_digits_val_take_le(s: Seq<char>, k: int)
    requires
        0 <= k <= s.len(),
    ensures
        digits_val(s.take(k)) <= digits_val(s),
    decreases s.len(),
{
    if k == s.len() {
        assert(s.take(k) =~= s);
    } else {
        assert(s.drop_last().take(k) =~= s.take(k));
        lemma_digits_val_take_le(s.drop_last(), k);
    }
}

/// The decimal digit character for `n`.
pub open spec fn digit_of(n: nat) -> char
    recommends
        n < 10,
{
    if n == 0 {
        '0'
    } else if n == 1 {
        '1'
    } else if n == 2 {
        '2'
    } else if n == 3 {
        '3'
    } else if n == 4 {
        '4'
    } else if n == 5 {
        '5'
    } else if n == 6 {
        '6'
    } else if n == 7 {
        '7'
    } else if n == 8 {
        '8'
    } else {
        '9'
    }
}

/// The decimal digits of `n`, most significant first, without leading
/// zeros (`0` itself is the single digit `0`).
pub open spec fn dec_digits(n: nat) -> Seq<char>
    decreases n,
{
    if n < 10 {
        seq![digit_of(n)]
    } else {
        dec_digits(n / 10).push(digit_of(n % 10))
    }
}

/// Appends the decimal digit character for `n`.
pub fn push_digit(out: &mut String, n: u32)
    requires
        n < 10,
    ensures
        final(out)@ == old(out)@.push(digit_of(n as nat)),
{
    let c = if n == 0 {
        '0'
    } else if n == 1 {
        '1'
    } else if n == 2 {
        '2'
    } else if n == 3 {
        '3'
    } else if n == 4 {
        '4'
    } else if n == 5 {
        '5'
    } else if n == 6 {
        '6'
    } else if n == 7 {
        '7'
    } else if n == 8 {
        '8'
    } else {
        '9'
    };
    push_char(out, c);
}

/// Appends the decimal rendering of `n`.
pub fn push_u32_dec(out: &mut String, n: u32)
    ensures
        final(out)@ == old(out)@ + dec_digits(n as nat),
    decreases n,
{
    if n < 10 {
        push_digit(out, n);
        proof {
            assert(old(out)@.push(digit_of(n as nat)) =~= old(out)@ + dec_digits(n as nat));
        }
    } else {
        push_u32_dec(out, n / 10);
        push_digit(out, n % 10);
        proof {
            assert((old(out)@ + dec_digits((n / 10) as nat)).push(digit_of((n % 10) as nat))
                =~= old(out)@ + dec_digits(n as nat));
        }
    }
}

} // verus!
