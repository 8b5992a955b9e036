//! Small verified text utilities: whitespace trimming, decimal parsing,
//! field extraction and prefix tests, as the pipeline's parsers need them.

use vstd::prelude::*;
use vstd::string::StrSliceExecFns;

verus! {

/// An ASCII whitespace character, as the trimming here understands it.
pub open spec fn is_space(c: char) -> bool {
    c == ' ' || c == '\t' || c == '\n' || c == '\r'
}

/// `s` without its leading whitespace.
pub open spec fn drop_leading(s: Seq<char>) -> Seq<char>
    decreases s.len(),
{
    if s.len() == 0 {
        s
    } else if is_space(s[0]) {
        drop_leading(s.drop_first())
    } else {
        s
    }
}

/// `s` without its trailing whitespace.
pub open spec fn drop_trailing(s: Seq<char>) -> Seq<char>
    decreases s.len(),
{
    if s.len() == 0 {
        s
    } else if is_space(s.last()) {
        drop_trailing(s.drop_last())
    } else {
        s
    }
}

/// `s` without leading and trailing whitespace.
pub open spec fn trim_spec(s: Seq<char>) -> Seq<char> {
    drop_trailing(drop_leading(s))
}

/// A run of leading whitespace ends exactly where the first non-space
/// character stands.
pub proof fn lemma_drop_leading(s: Seq<char>, k: int)
    requires
        0 <= k <= s.len(),
        forall|t: int| 0 <= t < k ==> is_space(s[t]),
        k == s.len() || !is_space(s[k]),
    ensures
        drop_leading(s) == s.subrange(k, s.len() as int),
    decreases k,
{
    if k == 0 {
        if s.len() == 0 || !is_space(s[0]) {
            assert(s.subrange(0, s.len() as int) =~= s);
        }
    } else {
        let s2 = s.drop_first();
        assert(s2 =~= s.subrange(1, s.len() as int));
        lemma_drop_leading(s2, k - 1);
        assert(s2.subrange(k - 1, s2.len() as int) =~= s.subrange(k, s.len() as int));
    }
}

/// A run of trailing whitespace starts exactly after the last non-space
/// character.
pub proof fn lemma_drop_trailing(s: Seq<char>, k: int)
    requires
        0 <= k <= s.len(),
        forall|t: int| k <= t < s.len() ==> is_space(s[t]),
        k == 0 || !is_space(s[k - 1]),
    ensures
        drop_trailing(s) == s.subrange(0, k),
    decreases s.len() - k,
{
    if k == s.len() {
        if s.len() == 0 || !is_space(s.last()) {
            assert(s.subrange(0, s.len() as int) =~= s);
        } else {
            assert(!is_space(s[k - 1]));
            assert(false);
        }
    } else {
        let s2 = s.drop_last();
        assert(s2 =~= s.subrange(0, s.len() - 1));
        lemma_drop_trailing(s2, k);
        assert(s2.subrange(0, k) =~= s.subrange(0, k));
    }
}

/// `s` with surrounding whitespace removed.
pub fn trimmed(s: &str) -> (r: String)
    ensures
        r@ == trim_spec(s@),
{
    let n: usize = s.unicode_len();
    let mut i: usize = 0;
    loop
        invariant_except_break
            n == s@.len(),
            i <= n,
            forall|t: int| 0 <= t < i ==> is_space(s@[t]),
        ensures
            n == s@.len(),
            i <= n,
            forall|t: int| 0 <= t < i ==> is_space(s@[t]),
            i == n || !is_space(s@[i as int]),
        decreases n - i,
    {
        if i >= n {
            break;
        }
        let c = s.get_char(i);
        if !(c == ' ' || c == '\t' || c == '\n' || c == '\r') {
            break;
        }
        i += 1;
    }
    let mut j: usize = n;
    loop
        invariant_except_break
            n == s@.len(),
            i <= j <= n,
            forall|t: int| j <= t < n ==> is_space(s@[t]),
        ensures
            n == s@.len(),
            i <= j <= n,
            forall|t: int| j <= t < n ==> is_space(s@[t]),
            j == i || !is_space(s@[j - 1]),
        decreases j,
    {
        if j <= i {
            break;
        }
        let c = s.get_char(j - 1);
        if !(c == ' ' || c == '\t' || c == '\n' || c == '\r') {
            break;
        }
        j -= 1;
    }
    let part = s.substring_char(i, j);
    let r = part.to_owned();
    proof {
        lemma_drop_leading(s@, i as int);
        let d = s@.subrange(i as int, n as int);
        if j == i {
            lemma_drop_trailing(d, 0);
        } else {
            lemma_drop_trailing(d, j - i);
        }
        assert(d.subrange(0, j - i) =~= s@.subrange(i as int, j as int));
    }
    r
}

/// A decimal digit.
pub open spec fn is_digit(c: char) -> bool {
    48 <= c as u32 <= 57
}

/// Every character of `s` is a decimal digit.
pub open spec fn all_digits(s: Seq<char>) -> bool {
    forall|i: int| 0 <= i < s.len() ==> is_digit(#[trigger] s[i])
}

/// The numeric value of a digit string.
pub open spec fn digits_val(s: Seq<char>) -> int
    decreases s.len(),
{
    if s.len() == 0 {
        0
    } else {
        digits_val(s.drop_last()) * 10 + (s.last() as u32 - 48)
    }
}

/// A digit string's value is never negative.
pub proof fn lemma_digits_val_nonneg(s: Seq<char>)
    requires
        all_digits(s),
    ensures
        digits_val(s) >= 0,
    decreases s.len(),
{
    if s.len() > 0 {
        assert(all_digits(s.drop_last()));
        lemma_digits_val_nonneg(s.drop_last());
    }
}

/// Extending a digit string never shrinks its value: a prefix that already
/// exceeds a bound keeps the whole string above it.
pub proof fn lemma_digits_val_grows(s: Seq<char>, i: int)
    requires
        all_digits(s),
        0 <= i <= s.len(),
    ensures
        digits_val(s) >= digits_val(s.take(i)),
    decreases s.len() - i,
{
    if i < s.len() {
        lemma_digits_val_grows(s, i + 1);
        assert(s.take(i + 1).drop_last() =~= s.take(i));
        assert(s.take(i + 1).last() == s[i]);
        assert(is_digit(s[i]));
        assert(digits_val(s.take(i + 1)) == digits_val(s.take(i)) * 10 + (s[i] as u32 - 48));
        assert(all_digits(s.take(i)));
        lemma_digits_val_nonneg(s.take(i));
    } else {
        assert(s.take(i) =~= s);
    }
}

/// Parse a decimal `u32`: the whole string must be one or more digits and
/// the value must fit, exactly as stated in the result.
pub fn parse_u32(s: &str) -> (r: Option<u32>)
    ensures
        match r {
            Some(v) => s@.len() > 0 && all_digits(s@) && digits_val(s@) == v,
            None => s@.len() == 0 || !all_digits(s@) || digits_val(s@) > u32::MAX,
        },
{
    let n: usize = s.unicode_len();
    if n == 0 {
        return None;
    }
    let mut acc: u64 = 0;
    let mut i: usize = 0;
    while i < n
        invariant
            n == s@.len(),
            i <= n,
            all_digits(s@.take(i as int)),
            acc == digits_val(s@.take(i as int)),
            acc <= u32::MAX,
        decreases n - i,
    {
        let c = s.get_char(i);
        let cv = c as u32;
        if cv < 48 || cv > 57 {
            proof {
                assert(!is_digit(s@[i as int]));
            }
            return None;
        }
        let d: u64 = (cv - 48) as u64;
        let next: u64 = acc * 10 + d;
        proof {
            assert(s@.take(i + 1).drop_last() =~= s@.take(i as int));
            assert(s@.take(i + 1).last() == s@[i as int]);
        }
        if next > 0xffff_ffff {
            proof {
                assert(digits_val(s@.take(i + 1)) == next);
                if all_digits(s@) {
                    lemma_digits_val_grows(s@, i + 1);
                }
            }
            return None;
        }
        acc = next;
        i += 1;
    }
    proof {
        assert(s@.take(n as int) =~= s@);
    }
    Some(acc as u32)
}

/// Whether `s` begins with `p`.
pub open spec fn starts_with(s: Seq<char>, p: Seq<char>) -> bool {
    s.len() >= p.len() && s.subrange(0, p.len() as int) == p
}

/// Prefix test over characters.
pub fn str_starts_with(s: &str, p: &str) -> (r: bool)
    ensures
        r == starts_with(s@, p@),
{
    let sn: usize = s.unicode_len();
    let pn: usize = p.unicode_len();
    if sn < pn {
        return false;
    }
    let mut i: usize = 0;
    while i < pn
        invariant
            sn == s@.len(),
            pn == p@.len(),
            pn <= sn,
            i <= pn,
            forall|t: int| 0 <= t < i ==> s@[t] == p@[t],
        decreases pn - i,
    {
        if s.get_char(i) != p.get_char(i) {
            proof {
                assert(s@.subrange(0, pn as int)[i as int] != p@[i as int]);
            }
            return false;
        }
        i += 1;
    }
    proof {
        assert(s@.subrange(0, pn as int) =~= p@);
    }
    true
}

/// Character-for-character string equality.
pub fn str_eq(a: &str, b: &str) -> (r: bool)
    ensures
        r == (a@ == b@),
{
    let sa = a.to_owned();
    let sb = b.to_owned();
    sa == sb
}

/// The smallest index of `c` in `s` at or after `from`, or the length when
/// `c` does not occur there.
pub open spec fn index_of_from(s: Seq<char>, c: char, from: int) -> int
    decreases s.len() - from,
{
    if from < 0 || from >= s.len() {
        s.len() as int
    } else if s[from] == c {
        from
    } else {
        index_of_from(s, c, from + 1)
    }
}

/// A scan that passes no occurrence and stops on one (or at the end)
/// computes `index_of_from`.
pub proof fn lemma_index_of_from(s: Seq<char>, c: char, from: int, i: int)
    requires
        0 <= from <= i <= s.len(),
        forall|t: int| from <= t < i ==> s[t] != c,
        i == s.len() || s[i] == c,
    ensures
        index_of_from(s, c, from) == i,
    decreases i - from,
{
    if from < i {
        lemma_index_of_from(s, c, from + 1, i);
    }
}

/// `l` without one trailing carriage return, as line splitting drops it.
pub open spec fn strip_cr(l: Seq<char>) -> Seq<char> {
    if l.len() > 0 && l.last() == '\r' {
        l.drop_last()
    } else {
        l
    }
}

/// The lines of `s` from position `from` on: the segments between newline
/// characters, each without its line ending.  No trailing empty line is
/// produced for text that ends in a newline.
pub open spec fn lines_from(s: Seq<char>, from: int) -> Seq<Seq<char>>
    decreases s.len() - from,
{
    if from < 0 || from >= s.len() {
        Seq::empty()
    } else {
        let i = index_of_from(s, '\n', from);
        if from <= i < s.len() {
            seq![strip_cr(s.subrange(from, i))] + lines_from(s, i + 1)
        } else {
            seq![strip_cr(s.subrange(from, s.len() as int))]
        }
    }
}

/// Split `s` into its lines.
pub fn split_lines(s: &str) -> (r: Vec<String>)
    ensures
        r.deep_view() == lines_from(s@, 0),
{
    let n: usize = s.unicode_len();
    let mut r: Vec<String> = Vec::new();
    let mut start: usize = 0;
    while start < n
        invariant
            n == s@.len(),
            start <= n,
            r.deep_view() + lines_from(s@, start as int) == lines_from(s@, 0),
        decreases n - start,
    {
        let mut j: usize = start;
        loop
            invariant_except_break
                n == s@.len(),
                start <= j <= n,
                forall|t: int| start <= t < j ==> s@[t] != '\n',
            ensures
                n == s@.len(),
                start <= j <= n,
                forall|t: int| start <= t < j ==> s@[t] != '\n',
                j == n || s@[j as int] == '\n',
            decreases n - j,
        {
            if j >= n {
                break;
            }
            if s.get_char(j) == '\n' {
                break;
            }
            j += 1;
        }
        proof {
            lemma_index_of_from(s@, '\n', start as int, j as int);
        }
        let mut end: usize = j;
        if end > start && s.get_char(end - 1) == '\r' {
            end = end - 1;
        }
        let seg = s.substring_char(start, end);
        let ghost r0 = r.deep_view();
        r.push(seg.to_owned());
        proof {
            if end < j {
                assert(s@.subrange(start as int, j as int).last() == '\r');
                assert(s@.subrange(start as int, j as int).drop_last() =~= s@.subrange(
                    start as int,
                    end as int,
                ));
            } else {
                assert(s@.subrange(start as int, j as int).len() == 0 || s@.subrange(
                    start as int,
                    j as int,
                ).last() != '\r');
            }
            assert(strip_cr(s@.subrange(start as int, j as int)) == s@.subrange(
                start as int,
                end as int,
            ));
            assert(r.deep_view() =~= r0.push(s@.subrange(start as int, end as int)));
            if j < n {
                assert(lines_from(s@, start as int) == seq![
                    strip_cr(s@.subrange(start as int, j as int)),
                ] + lines_from(s@, j + 1));
                assert(r.deep_view() + lines_from(s@, j + 1) =~= lines_from(s@, 0));
            } else {
                assert(lines_from(s@, start as int) == seq![
                    strip_cr(s@.subrange(start as int, j as int)),
                ]);
                assert(lines_from(s@, n as int) =~= Seq::<Seq<char>>::empty());
                assert(r.deep_view() + lines_from(s@, n as int) =~= lines_from(s@, 0));
            }
        }
        start = if j < n {
            j + 1
        } else {
            n
        };
    }
    proof {
        assert(lines_from(s@, start as int) =~= Seq::<Seq<char>>::empty());
        assert(r.deep_view() =~= lines_from(s@, 0));
    }
    r
}

/// The second space-separated field of `s`: the text between the first
/// space and the next space (or the end).  `None` when `s` holds no space.
pub open spec fn second_field(s: Seq<char>) -> Option<Seq<char>> {
    let a = index_of_from(s, ' ', 0);
    if a == s.len() {
        None
    } else {
        Some(s.subrange(a + 1, index_of_from(s, ' ', a + 1)))
    }
}

/// Extract the second space-separated field of `s`, trimmed.
pub fn second_field_trimmed(s: &str) -> (r: Option<String>)
    ensures
        match r {
            Some(v) => second_field(s@) is Some && v@ == trim_spec(second_field(s@)->0),
            None => second_field(s@) is None,
        },
{
    let n: usize = s.unicode_len();
    let mut a: usize = 0;
    loop
        invariant_except_break
            n == s@.len(),
            a <= n,
            forall|t: int| 0 <= t < a ==> s@[t] != ' ',
        ensures
            n == s@.len(),
            a <= n,
            forall|t: int| 0 <= t < a ==> s@[t] != ' ',
            a == n || s@[a as int] == ' ',
        decreases n - a,
    {
        if a >= n {
            break;
        }
        if s.get_char(a) == ' ' {
            break;
        }
        a += 1;
    }
    proof {
        lemma_index_of_from(s@, ' ', 0, a as int);
    }
    if a == n {
        return None;
    }
    let mut b: usize = a + 1;
    loop
        invariant_except_break
            n == s@.len(),
            a + 1 <= b <= n,
            forall|t: int| a + 1 <= t < b ==> s@[t] != ' ',
        ensures
            n == s@.len(),
            a + 1 <= b <= n,
            forall|t: int| a + 1 <= t < b ==> s@[t] != ' ',
            b == n || s@[b as int] == ' ',
        decreases n - b,
    {
        if b >= n {
            break;
        }
        if s.get_char(b) == ' ' {
            break;
        }
        b += 1;
    }
    proof {
        lemma_index_of_from(s@, ' ', a + 1, b as int);
    }
    let field = s.substring_char(a + 1, b);
    Some(trimmed(field))
}

} // verus!
