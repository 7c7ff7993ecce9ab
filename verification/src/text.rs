//! Text sanitization primitives: character removal, escape-pair removal,
//! whitespace trimming, and substring search (exact and ASCII-case-insensitive).
//! Every boundary where untrusted text enters the system funnels through the
//! cleaner built from these pieces.

use vstd::prelude::*;

verus! {

/// Characters that are stripped outright by the cleaner.
pub open spec fn is_break_char(c: char) -> bool {
    c == '\n' || c == '\r' || c == '\t'
}

/// The whitespace alphabet used for trimming and for bounding URLs found in
/// free text: the Unicode white-space code points, the set `char::is_whitespace`
/// accepts.
pub open spec fn is_space_char(c: char) -> bool {
    ||| c == ' ' || c == '\t' || c == '\n' || c == '\r'
    ||| c as u32 == 0x0B || c as u32 == 0x0C
    ||| c as u32 == 0x85 || c as u32 == 0xA0
    ||| c as u32 == 0x1680
    ||| 0x2000 <= c as u32 <= 0x200A
    ||| c as u32 == 0x2028 || c as u32 == 0x2029 || c as u32 == 0x202F || c as u32 == 0x205F
    ||| c as u32 == 0x3000
}

/// Executable form of [`is_space_char`].
pub fn space_char(c: char) -> (r: bool)
    ensures
        r == is_space_char(c),
{
    let u = c as u32;
    c == ' ' || c == '\t' || c == '\n' || c == '\r' || u == 0x0B || u == 0x0C || u == 0x85 || u
        == 0xA0 || u == 0x1680 || (0x2000 <= u && u <= 0x200A) || u == 0x2028 || u == 0x2029 || u
        == 0x202F || u == 0x205F || u == 0x3000
}

/// `s` with every occurrence of the character `c` removed.
pub open spec fn remove_char(s: Seq<char>, c: char) -> Seq<char>
    decreases s.len(),
{
    if s.len() == 0 {
        Seq::empty()
    } else if s[0] == c {
        remove_char(s.skip(1), c)
    } else {
        seq![s[0]] + remove_char(s.skip(1), c)
    }
}

/// `s` with every two-character sequence backslash-`c` removed, scanning left
/// to right over non-overlapping occurrences.
pub open spec fn remove_escaped(s: Seq<char>, c: char) -> Seq<char>
    decreases s.len(),
{
    if s.len() == 0 {
        Seq::empty()
    } else if s.len() >= 2 && s[0] == '\\' && s[1] == c {
        remove_escaped(s.skip(2), c)
    } else {
        seq![s[0]] + remove_escaped(s.skip(1), c)
    }
}

/// `s` without its leading whitespace.
pub open spec fn trim_start(s: Seq<char>) -> Seq<char>
    decreases s.len(),
{
    if s.len() > 0 && is_space_char(s[0]) {
        trim_start(s.skip(1))
    } else {
        s
    }
}

/// `s` without its trailing whitespace.
pub open spec fn trim_end(s: Seq<char>) -> Seq<char>
    decreases s.len(),
{
    if s.len() > 0 && is_space_char(s.last()) {
        trim_end(s.drop_last())
    } else {
        s
    }
}

/// `s` without leading or trailing whitespace.
pub open spec fn spec_trim(s: Seq<char>) -> Seq<char> {
    trim_end(trim_start(s))
}

/// The canonical cleaner: newline, carriage-return and tab characters are
/// removed, then the escape pairs `\n`, `\r`, `\t` written as two characters,
/// then the result is trimmed.
pub open spec fn spec_clean(s: Seq<char>) -> Seq<char> {
    spec_trim(
        remove_escaped(
            remove_escaped(
                remove_escaped(
                    remove_char(remove_char(remove_char(s, '\n'), '\r'), '\t'),
                    'n',
                ),
                'r',
            ),
            't',
        ),
    )
}

/// Relies on `String::push`: appends exactly the one character to the string.
#[verifier::external_body]
pub(crate) fn push_char(s: &mut String, c: char)
    ensures
        final(s)@ == old(s)@.push(c),
{
    s.push(c);
}

/// Removes every occurrence of `c` from `s`.
pub fn remove_char_str(s: &str, c: char) -> (r: String)
    ensures
        r@ == remove_char(s@, c),
{
    let n = s.unicode_len();
    let mut out = String::new();
    let mut i: usize = 0;
    proof {
        assert(s@.skip(0) =~= s@);
        assert(out@ + remove_char(s@, c) =~= remove_char(s@, c));
    }
    while i < n
        invariant
            n == s@.len(),
            i <= n,
            remove_char(s@, c) == out@ + remove_char(s@.skip(i as int), c),
        decreases n - i,
    {
        let ch = s.get_char(i);
        proof {
            assert(s@.skip(i as int).len() > 0);
            assert(s@.skip(i as int)[0] == s@[i as int]);
            assert(s@.skip(i as int).skip(1) =~= s@.skip(i as int + 1));
        }
        if ch == c {
            proof {
                assert(remove_char(s@.skip(i as int), c) == remove_char(s@.skip(i as int + 1), c));
            }
        } else {
            let ghost prev = out@;
            push_char(&mut out, ch);
            proof {
                assert(remove_char(s@.skip(i as int), c) == seq![ch] + remove_char(
                    s@.skip(i as int + 1),
                    c,
                ));
                assert(out@ =~= prev + seq![ch]);
                assert(prev + (seq![ch] + remove_char(s@.skip(i as int + 1), c)) =~= out@
                    + remove_char(s@.skip(i as int + 1), c));
            }
        }
        i = i + 1;
    }
    proof {
        assert(s@.skip(n as int) =~= Seq::<char>::empty());
        assert(out@ + Seq::<char>::empty() =~= out@);
    }
    out
}

/// Removes every backslash-`c` pair from `s`, left to right.
pub fn remove_escaped_str(s: &str, c: char) -> (r: String)
    ensures
        r@ == remove_escaped(s@, c),
{
    let n = s.unicode_len();
    let mut out = String::new();
    let mut i: usize = 0;
    proof {
        assert(s@.skip(0) =~= s@);
        assert(out@ + remove_escaped(s@, c) =~= remove_escaped(s@, c));
    }
    while i < n
        invariant
            n == s@.len(),
            i <= n,
            remove_escaped(s@, c) == out@ + remove_escaped(s@.skip(i as int), c),
        decreases n - i,
    {
        let ch = s.get_char(i);
        proof {
            assert(s@.skip(i as int).len() > 0);
            assert(s@.skip(i as int)[0] == s@[i as int]);
            assert(s@.skip(i as int).skip(1) =~= s@.skip(i as int + 1));
        }
        if ch == '\\' && i + 1 < n && s.get_char(i + 1) == c {
            proof {
                assert(s@.skip(i as int)[1] == s@[i as int + 1]);
                assert(s@.skip(i as int).skip(2) =~= s@.skip(i as int + 2));
                assert(remove_escaped(s@.skip(i as int), c) == remove_escaped(
                    s@.skip(i as int + 2),
                    c,
                ));
            }
            i = i + 2;
        } else {
            proof {
                if s@.skip(i as int).len() >= 2 {
                    assert(s@.skip(i as int)[1] == s@[i as int + 1]);
                }
                assert(remove_escaped(s@.skip(i as int), c) == seq![ch] + remove_escaped(
                    s@.skip(i as int + 1),
                    c,
                ));
            }
            let ghost prev = out@;
            push_char(&mut out, ch);
            proof {
                assert(out@ =~= prev + seq![ch]);
                assert(prev + (seq![ch] + remove_escaped(s@.skip(i as int + 1), c)) =~= out@
                    + remove_escaped(s@.skip(i as int + 1), c));
            }
            i = i + 1;
        }
    }
    proof {
        assert(s@.skip(n as int) =~= Seq::<char>::empty());
        assert(out@ + Seq::<char>::empty() =~= out@);
    }
    out
}

/// Removes leading and trailing whitespace from `s`.
pub fn trim_str(s: &str) -> (r: String)
    ensures
        r@ == spec_trim(s@),
{
    let n = s.unicode_len();
    let mut a: usize = 0;
    proof {
        assert(s@.skip(0) =~= s@);
    }
    while a < n && space_char(s.get_char(a))
        invariant
            n == s@.len(),
            a <= n,
            trim_start(s@) == trim_start(s@.skip(a as int)),
        decreases n - a,
    {
        proof {
            assert(s@.skip(a as int).len() > 0);
            assert(s@.skip(a as int)[0] == s@[a as int]);
            assert(s@.skip(a as int).skip(1) =~= s@.skip(a as int + 1));
        }
        a = a + 1;
    }
    proof {
        if a < n {
            assert(s@.skip(a as int)[0] == s@[a as int]);
        }
        assert(trim_start(s@.skip(a as int)) == s@.skip(a as int));
    }
    let ghost t = s@.skip(a as int);
    let mut b: usize = n;
    proof {
        assert(t.take(n - a as int) =~= t);
    }
    while b > a && space_char(s.get_char(b - 1))
        invariant
            n == s@.len(),
            a <= b <= n,
            t == s@.skip(a as int),
            trim_end(t) == trim_end(t.take(b - a as int)),
        decreases b,
    {
        proof {
            let k = b - a as int;
            assert(t.take(k).len() == k);
            assert(t.take(k).last() == t[k - 1]);
            assert(t[k - 1] == s@[b - 1 as int]);
            assert(t.take(k).drop_last() =~= t.take(k - 1));
            assert(trim_end(t.take(k)) == trim_end(t.take(k - 1)));
        }
        b = b - 1;
    }
    proof {
        let k = b - a as int;
        if b > a {
            assert(t.take(k).last() == t[k - 1]);
            assert(t[k - 1] == s@[b - 1 as int]);
        }
        assert(trim_end(t.take(k)) == t.take(k));
        assert(t.take(k) =~= s@.subrange(a as int, b as int));
    }
    let r = s.substring_char(a, b);
    r.to_owned()
}

/// ASCII-case-insensitive character equality: equal outright, or equal up to
/// the 32-point offset between an ASCII capital and its small letter.
pub open spec fn spec_eq_ci(a: char, b: char) -> bool {
    ||| a == b
    ||| (65 <= a as u32 <= 90 && a as u32 + 32 == b as u32)
    ||| (65 <= b as u32 <= 90 && b as u32 + 32 == a as u32)
}

/// Executable form of [`spec_eq_ci`].
pub fn eq_ci(a: char, b: char) -> (r: bool)
    ensures
        r == spec_eq_ci(a, b),
{
    let au = a as u32;
    let bu = b as u32;
    a == b || (65 <= au && au <= 90 && au + 32 == bu) || (65 <= bu && bu <= 90 && bu + 32 == au)
}

/// The pattern `p` occurs in `s` at position `i`, character for character.
pub open spec fn matches_at(s: Seq<char>, p: Seq<char>, i: int) -> bool {
    &&& 0 <= i
    &&& i + p.len() <= s.len()
    &&& forall|j: int| 0 <= j < p.len() ==> s[i + j] == p[j]
}

/// The pattern `p` occurs in `s` at position `i`, up to ASCII case.
pub open spec fn matches_ci_at(s: Seq<char>, p: Seq<char>, i: int) -> bool {
    &&& 0 <= i
    &&& i + p.len() <= s.len()
    &&& forall|j: int| 0 <= j < p.len() ==> spec_eq_ci(s[i + j], p[j])
}

/// The first position at or after `i` where `p` occurs in `s`, if any.
pub open spec fn first_match_from(s: Seq<char>, p: Seq<char>, i: int) -> Option<int>
    recommends
        0 <= i,
    decreases s.len() - i,
{
    if i < 0 || i + p.len() > s.len() {
        None
    } else if matches_at(s, p, i) {
        Some(i)
    } else {
        first_match_from(s, p, i + 1)
    }
}

/// The first position at or after `i` where `p` occurs in `s` up to ASCII
/// case, if any.
pub open spec fn first_ci_match_from(s: Seq<char>, p: Seq<char>, i: int) -> Option<int>
    recommends
        0 <= i,
    decreases s.len() - i,
{
    if i < 0 || i + p.len() > s.len() {
        None
    } else if matches_ci_at(s, p, i) {
        Some(i)
    } else {
        first_ci_match_from(s, p, i + 1)
    }
}

/// `p` occurs somewhere in `s`.
pub open spec fn spec_contains_pat(s: Seq<char>, p: Seq<char>) -> bool {
    first_match_from(s, p, 0) is Some
}

/// The last position at or before `i` where `p` occurs in `s`, if any.
pub open spec fn last_match_before(s: Seq<char>, p: Seq<char>, i: int) -> Option<int>
    decreases i + 1,
{
    if i < 0 {
        None
    } else if matches_at(s, p, i) {
        Some(i)
    } else {
        last_match_before(s, p, i - 1)
    }
}

/// The position of the last occurrence of the character `c` in `s`, if any.
pub open spec fn rfind_char(s: Seq<char>, c: char) -> Option<int>
    decreases s.len(),
{
    if s.len() == 0 {
        None
    } else if s.last() == c {
        Some(s.len() - 1)
    } else {
        rfind_char(s.drop_last(), c)
    }
}

/// The suffix of `s` after the last occurrence of `c`; all of `s` when `c`
/// does not occur.
pub open spec fn after_last_char(s: Seq<char>, c: char) -> Seq<char> {
    match rfind_char(s, c) {
        Option::None => s,
        Option::Some(i) => s.skip(i + 1),
    }
}

/// The suffix of `s` after the end of the last occurrence of the pattern `p`;
/// all of `s` when `p` does not occur.
pub open spec fn after_last_pat(s: Seq<char>, p: Seq<char>) -> Seq<char> {
    match last_match_before(s, p, s.len() - p.len()) {
        Option::None => s,
        Option::Some(i) => s.skip(i + p.len()),
    }
}

/// Whether two strings hold the same characters.
pub fn str_eq(a: &str, b: &str) -> (r: bool)
    ensures
        r == (a@ == b@),
{
    let n = a.unicode_len();
    let m = b.unicode_len();
    if n != m {
        return false;
    }
    let mut i: usize = 0;
    while i < n
        invariant
            n == a@.len(),
            n == b@.len(),
            i <= n,
            forall|j: int| 0 <= j < i ==> a@[j] == b@[j],
        decreases n - i,
    {
        if a.get_char(i) != b.get_char(i) {
            return false;
        }
        i = i + 1;
    }
    proof {
        assert(a@ =~= b@);
    }
    true
}

/// Whether `p` occurs in `s` at position `i`, character for character.
pub fn match_at(s: &str, p: &str, i: usize) -> (r: bool)
    requires
        i + p@.len() <= s@.len(),
    ensures
        r == matches_at(s@, p@, i as int),
{
    let n = s.unicode_len();
    let m = p.unicode_len();
    let mut j: usize = 0;
    while j < m
        invariant
            n == s@.len(),
            m == p@.len(),
            j <= m,
            i + m <= n,
            forall|jj: int| 0 <= jj < j ==> s@[i + jj] == p@[jj],
        decreases m - j,
    {
        if s.get_char(i + j) != p.get_char(j) {
            return false;
        }
        j = j + 1;
    }
    true
}

/// Whether `p` occurs in `s` at position `i`, up to ASCII case.
pub fn match_ci_at(s: &str, p: &str, i: usize) -> (r: bool)
    requires
        i + p@.len() <= s@.len(),
    ensures
        r == matches_ci_at(s@, p@, i as int),
{
    let n = s.unicode_len();
    let m = p.unicode_len();
    let mut j: usize = 0;
    while j < m
        invariant
            n == s@.len(),
            m == p@.len(),
            j <= m,
            i + m <= n,
            forall|jj: int| 0 <= jj < j ==> spec_eq_ci(s@[i + jj], p@[jj]),
        decreases m - j,
    {
        if !eq_ci(s.get_char(i + j), p.get_char(j)) {
            return false;
        }
        j = j + 1;
    }
    true
}

/// The position of the first occurrence of `p` in `s`, if any.
pub fn find_pat(s: &str, p: &str) -> (r: Option<usize>)
    ensures
        r is Some <==> first_match_from(s@, p@, 0) is Some,
        r is Some ==> r->0 as int == first_match_from(s@, p@, 0)->0,
        r matches Some(i) ==> i + p@.len() <= s@.len(),
{
    let n = s.unicode_len();
    let m = p.unicode_len();
    if m > n {
        return None;
    }
    let mut i: usize = 0;
    while i <= n - m
        invariant
            n == s@.len(),
            m == p@.len(),
            m <= n,
            i <= n - m + 1,
            first_match_from(s@, p@, 0) == first_match_from(s@, p@, i as int),
        decreases n - i,
    {
        if match_at(s, p, i) {
            return Some(i);
        }
        i = i + 1;
    }
    None
}

/// The position of the first occurrence of `p` in `s` up to ASCII case, if
/// any.
pub fn find_pat_ci(s: &str, p: &str) -> (r: Option<usize>)
    ensures
        r is Some <==> first_ci_match_from(s@, p@, 0) is Some,
        r is Some ==> r->0 as int == first_ci_match_from(s@, p@, 0)->0,
        r matches Some(i) ==> i + p@.len() <= s@.len(),
{
    let n = s.unicode_len();
    let m = p.unicode_len();
    if m > n {
        return None;
    }
    let mut i: usize = 0;
    while i <= n - m
        invariant
            n == s@.len(),
            m == p@.len(),
            m <= n,
            i <= n - m + 1,
            first_ci_match_from(s@, p@, 0) == first_ci_match_from(s@, p@, i as int),
        decreases n - i,
    {
        if match_ci_at(s, p, i) {
            return Some(i);
        }
        i = i + 1;
    }
    None
}

/// Whether `p` occurs somewhere in `s`.
pub fn contains_pat(s: &str, p: &str) -> (r: bool)
    ensures
        r == spec_contains_pat(s@, p@),
{
    find_pat(s, p).is_some()
}

/// The suffix of `s` after the last occurrence of the character `c`.
pub fn suffix_after_last_char(s: &str, c: char) -> (r: String)
    ensures
        r@ == after_last_char(s@, c),
{
    let n = s.unicode_len();
    let mut b: usize = n;
    proof {
        assert(s@.take(n as int) =~= s@);
    }
    while b > 0
        invariant
            n == s@.len(),
            b <= n,
            rfind_char(s@, c) == rfind_char(s@.take(b as int), c),
        decreases b,
    {
        proof {
            let k = b as int;
            assert(s@.take(k).len() == k);
            assert(s@.take(k).last() == s@[k - 1]);
            assert(s@.take(k).drop_last() =~= s@.take(k - 1));
        }
        if s.get_char(b - 1) == c {
            let r = s.substring_char(b, n);
            proof {
                assert(rfind_char(s@.take(b as int), c) == Some(b - 1 as int));
                assert(s@.subrange(b as int, n as int) =~= s@.skip(b as int));
            }
            return r.to_owned();
        }
        b = b - 1;
    }
    proof {
        assert(s@.take(0) =~= Seq::<char>::empty());
        assert(rfind_char(s@, c) is None);
    }
    s.to_owned()
}

/// The suffix of `s` after the end of the last occurrence of the pattern `p`.
pub fn suffix_after_last_pat(s: &str, p: &str) -> (r: String)
    requires
        p@.len() > 0,
    ensures
        r@ == after_last_pat(s@, p@),
{
    let n = s.unicode_len();
    let m = p.unicode_len();
    if m > n {
        proof {
            let start = s@.len() - p@.len();
            assert forall|i: int| i <= start implies last_match_before(s@, p@, i) is None by {
                lemma_no_match_below(s@, p@, i);
            }
        }
        return s.to_owned();
    }
    let mut i: usize = n - m;
    loop
        invariant
            n == s@.len(),
            m == p@.len(),
            0 < m <= n,
            i <= n - m,
            last_match_before(s@, p@, n - m as int) == last_match_before(s@, p@, i as int),
        decreases i,
    {
        if match_at(s, p, i) {
            let r = s.substring_char(i + m, n);
            proof {
                assert(last_match_before(s@, p@, i as int) == Some(i as int));
                assert(s@.subrange(i + m as int, n as int) =~= s@.skip(i + m));
            }
            return r.to_owned();
        }
        if i == 0 {
            proof {
                assert(last_match_before(s@, p@, 0) == last_match_before(s@, p@, -1));
            }
            return s.to_owned();
        }
        i = i - 1;
    }
}

/// No occurrence of a pattern longer than the text can start at or before `i`.
proof fn lemma_no_match_below(s: Seq<char>, p: Seq<char>, i: int)
    requires
        p.len() > s.len(),
    ensures
        last_match_before(s, p, i) is None,
    decreases i + 1,
{
    if i >= 0 {
        lemma_no_match_below(s, p, i - 1);
    }
}

/// Applies the canonical cleaner to `s`.
pub fn clean_str(s: &str) -> (r: String)
    ensures
        r@ == spec_clean(s@),
{
    let s1 = remove_char_str(s, '\n');
    let s2 = remove_char_str(s1.as_str(), '\r');
    let s3 = remove_char_str(s2.as_str(), '\t');
    let s4 = remove_escaped_str(s3.as_str(), 'n');
    let s5 = remove_escaped_str(s4.as_str(), 'r');
    let s6 = remove_escaped_str(s5.as_str(), 't');
    trim_str(s6.as_str())
}

/// Text on which the cleaner has nothing left to do: no break characters, no
/// two-character escape pair, and no whitespace at either end.
pub open spec fn is_clean_text(s: Seq<char>) -> bool {
    &&& forall|i: int| 0 <= i < s.len() ==> !is_break_char(#[trigger] s[i])
    &&& forall|i: int|
        0 <= i < s.len() - 1 ==> !(#[trigger] s[i] == '\\' && (s[i + 1] == 'n' || s[i + 1] == 'r'
            || s[i + 1] == 't'))
    &&& s.len() > 0 ==> !is_space_char(s[0]) && !is_space_char(s.last())
}

proof fn lemma_remove_char_id(s: Seq<char>, c: char)
    requires
        forall|i: int| 0 <= i < s.len() ==> #[trigger] s[i] != c,
    ensures
        remove_char(s, c) == s,
    decreases s.len(),
{
    if s.len() > 0 {
        lemma_remove_char_id(s.skip(1), c);
        assert(seq![s[0]] + s.skip(1) =~= s);
    } else {
        assert(remove_char(s, c) =~= s);
    }
}

proof fn lemma_remove_char_removes(s: Seq<char>, c: char)
    ensures
        forall|i: int| 0 <= i < remove_char(s, c).len() ==> #[trigger] remove_char(s, c)[i] != c,
    decreases s.len(),
{
    if s.len() > 0 {
        lemma_remove_char_removes(s.skip(1), c);
        let r = remove_char(s, c);
        let rr = remove_char(s.skip(1), c);
        assert forall|i: int| 0 <= i < r.len() implies r[i] != c by {
            if s[0] == c {
                assert(r[i] == rr[i]);
            } else if i > 0 {
                assert(r[i] == rr[i - 1]);
            }
        }
    }
}

proof fn lemma_remove_char_preserves(s: Seq<char>, c: char, x: char)
    requires
        forall|i: int| 0 <= i < s.len() ==> #[trigger] s[i] != x,
    ensures
        forall|i: int| 0 <= i < remove_char(s, c).len() ==> #[trigger] remove_char(s, c)[i] != x,
    decreases s.len(),
{
    if s.len() > 0 {
        assert(forall|i: int| 0 <= i < s.skip(1).len() ==> #[trigger] s.skip(1)[i] != x);
        lemma_remove_char_preserves(s.skip(1), c, x);
        let r = remove_char(s, c);
        let rr = remove_char(s.skip(1), c);
        assert forall|i: int| 0 <= i < r.len() implies r[i] != x by {
            if s[0] == c {
                assert(r[i] == rr[i]);
            } else if i > 0 {
                assert(r[i] == rr[i - 1]);
            } else {
                assert(r[0] == s[0]);
            }
        }
    }
}

proof fn lemma_remove_escaped_id(s: Seq<char>, c: char)
    requires
        forall|i: int| 0 <= i < s.len() - 1 ==> !(#[trigger] s[i] == '\\' && s[i + 1] == c),
    ensures
        remove_escaped(s, c) == s,
    decreases s.len(),
{
    if s.len() > 0 {
        assert(forall|i: int|
            0 <= i < s.skip(1).len() - 1 ==> !(#[trigger] s.skip(1)[i] == '\\' && s.skip(1)[i + 1]
                == c));
        lemma_remove_escaped_id(s.skip(1), c);
        assert(seq![s[0]] + s.skip(1) =~= s);
    } else {
        assert(remove_escaped(s, c) =~= s);
    }
}

proof fn lemma_trim_start_preserves(s: Seq<char>, x: char)
    requires
        forall|i: int| 0 <= i < s.len() ==> #[trigger] s[i] != x,
    ensures
        forall|i: int| 0 <= i < trim_start(s).len() ==> #[trigger] trim_start(s)[i] != x,
    decreases s.len(),
{
    if s.len() > 0 && is_space_char(s[0]) {
        assert(forall|i: int| 0 <= i < s.skip(1).len() ==> #[trigger] s.skip(1)[i] != x);
        lemma_trim_start_preserves(s.skip(1), x);
        assert(trim_start(s) == trim_start(s.skip(1)));
    }
}

proof fn lemma_trim_end_preserves(s: Seq<char>, x: char)
    requires
        forall|i: int| 0 <= i < s.len() ==> #[trigger] s[i] != x,
    ensures
        forall|i: int| 0 <= i < trim_end(s).len() ==> #[trigger] trim_end(s)[i] != x,
    decreases s.len(),
{
    if s.len() > 0 && is_space_char(s.last()) {
        assert(forall|i: int| 0 <= i < s.drop_last().len() ==> #[trigger] s.drop_last()[i] != x);
        lemma_trim_end_preserves(s.drop_last(), x);
        assert(trim_end(s) == trim_end(s.drop_last()));
    }
}

proof fn lemma_trim_start_no_lead(s: Seq<char>)
    ensures
        trim_start(s).len() > 0 ==> !is_space_char(trim_start(s)[0]),
    decreases s.len(),
{
    if s.len() > 0 && is_space_char(s[0]) {
        lemma_trim_start_no_lead(s.skip(1));
    }
}

proof fn lemma_trim_end_no_trail(s: Seq<char>)
    ensures
        trim_end(s).len() > 0 ==> !is_space_char(trim_end(s).last()),
    decreases s.len(),
{
    if s.len() > 0 && is_space_char(s.last()) {
        lemma_trim_end_no_trail(s.drop_last());
    }
}

proof fn lemma_trim_end_keeps_first(s: Seq<char>)
    ensures
        trim_end(s).len() > 0 ==> trim_end(s)[0] == s[0],
    decreases s.len(),
{
    if s.len() > 0 && is_space_char(s.last()) {
        lemma_trim_end_keeps_first(s.drop_last());
    }
}

proof fn lemma_trim_id(s: Seq<char>)
    requires
        s.len() > 0 ==> !is_space_char(s[0]) && !is_space_char(s.last()),
    ensures
        spec_trim(s) == s,
{
}

/// Cleaning is a no-op on text that is already clean: the cleaner never
/// disturbs content that carries no break characters, no written-out escape
/// pairs, and no surrounding whitespace.
pub proof fn lemma_clean_fixed_point(s: Seq<char>)
    requires
        is_clean_text(s),
    ensures
        spec_clean(s) == s,
{
    assert(forall|i: int| 0 <= i < s.len() ==> #[trigger] s[i] != '\n');
    assert(forall|i: int| 0 <= i < s.len() ==> #[trigger] s[i] != '\r');
    assert(forall|i: int| 0 <= i < s.len() ==> #[trigger] s[i] != '\t');
    lemma_remove_char_id(s, '\n');
    lemma_remove_char_id(s, '\r');
    lemma_remove_char_id(s, '\t');
    lemma_remove_escaped_id(s, 'n');
    lemma_remove_escaped_id(s, 'r');
    lemma_remove_escaped_id(s, 't');
    lemma_trim_id(s);
}

/// On text free of backslashes, cleaning twice is the same as cleaning once.
/// (With backslashes present, removing one escape pair may bring a new pair
/// together, so a second pass can still shorten the text.)
pub proof fn lemma_clean_idempotent(s: Seq<char>)
    requires
        forall|i: int| 0 <= i < s.len() ==> #[trigger] s[i] != '\\',
    ensures
        spec_clean(spec_clean(s)) == spec_clean(s),
{
    let t0 = remove_char(remove_char(remove_char(s, '\n'), '\r'), '\t');
    lemma_remove_char_removes(remove_char(remove_char(s, '\n'), '\r'), '\t');
    lemma_remove_char_removes(remove_char(s, '\n'), '\r');
    lemma_remove_char_removes(s, '\n');
    lemma_remove_char_preserves(remove_char(s, '\n'), '\r', '\n');
    lemma_remove_char_preserves(remove_char(remove_char(s, '\n'), '\r'), '\t', '\n');
    lemma_remove_char_preserves(remove_char(remove_char(s, '\n'), '\r'), '\t', '\r');
    lemma_remove_char_preserves(s, '\n', '\\');
    lemma_remove_char_preserves(remove_char(s, '\n'), '\r', '\\');
    lemma_remove_char_preserves(remove_char(remove_char(s, '\n'), '\r'), '\t', '\\');
    // No backslash survives, so the escape-pair passes are the identity.
    lemma_remove_escaped_id(t0, 'n');
    lemma_remove_escaped_id(t0, 'r');
    lemma_remove_escaped_id(t0, 't');
    let t = spec_trim(t0);
    lemma_trim_start_preserves(t0, '\n');
    lemma_trim_start_preserves(t0, '\r');
    lemma_trim_start_preserves(t0, '\t');
    lemma_trim_start_preserves(t0, '\\');
    lemma_trim_end_preserves(trim_start(t0), '\n');
    lemma_trim_end_preserves(trim_start(t0), '\r');
    lemma_trim_end_preserves(trim_start(t0), '\t');
    lemma_trim_end_preserves(trim_start(t0), '\\');
    lemma_trim_start_no_lead(t0);
    lemma_trim_end_keeps_first(trim_start(t0));
    lemma_trim_end_no_trail(trim_start(t0));
    assert(is_clean_text(t));
    lemma_clean_fixed_point(t);
}

} // verus!
