use vstd::prelude::*;

verus! {

/// Whether `pat` occurs in `s` starting at `i`.
pub open spec fn matches_at(s: Seq<char>, pat: Seq<char>, i: int) -> bool {
    0 <= i && i + pat.len() <= s.len() && s.subrange(i, i + pat.len()) == pat
}

/// The first position at or after `i` where `pat` occurs in `s`.
pub open spec fn find_from(s: Seq<char>, pat: Seq<char>, i: int) -> Option<int>
    decreases s.len() - i,
{
    if i < 0 || i >= s.len() || i + pat.len() > s.len() {
        None
    } else if matches_at(s, pat, i) {
        Some(i)
    } else {
        find_from(s, pat, i + 1)
    }
}

/// The last position at or before `i` where `pat` occurs in `s`.
pub open spec fn rfind_from(s: Seq<char>, pat: Seq<char>, i: int) -> Option<int>
    decreases i + 1,
{
    if i < 0 {
        None
    } else if matches_at(s, pat, i) {
        Some(i)
    } else {
        rfind_from(s, pat, i - 1)
    }
}

/// The pieces of `s` from `j` on, cut at each occurrence of `pat`, left to
/// right, as `str::split` cuts them.
pub open spec fn split_from(s: Seq<char>, pat: Seq<char>, j: int) -> Seq<Seq<char>>
    decreases s.len() - j,
{
    if pat.len() == 0 || j < 0 || j > s.len() {
        seq![s.subrange(j, s.len() as int)]
    } else {
        match find_from(s, pat, j) {
            None => seq![s.subrange(j, s.len() as int)],
            Some(i) => if i < j || i + pat.len() > s.len() {
                seq![]
            } else {
                seq![s.subrange(j, i)] + split_from(s, pat, i + pat.len())
            },
        }
    }
}

/// `s` cut at each occurrence of `pat`.
pub open spec fn split(s: Seq<char>, pat: Seq<char>) -> Seq<Seq<char>> {
    split_from(s, pat, 0)
}

/// `s` cut at the last occurrence of `pat`, as `str::rsplit_once` cuts it.
pub open spec fn rsplit_once(s: Seq<char>, pat: Seq<char>) -> Option<(Seq<char>, Seq<char>)> {
    match rfind_from(s, pat, s.len() - pat.len()) {
        None => None,
        Some(k) => Some((s.subrange(0, k), s.subrange(k + pat.len(), s.len() as int))),
    }
}

/// `s` cut at the first occurrence of `pat`, as `str::split_once` cuts it.
pub open spec fn split_once(s: Seq<char>, pat: Seq<char>) -> Option<(Seq<char>, Seq<char>)> {
    match find_from(s, pat, 0) {
        None => None,
        Some(k) => Some((s.subrange(0, k), s.subrange(k + pat.len(), s.len() as int))),
    }
}

pub proof fn lemma_find_from_bounds(s: Seq<char>, pat: Seq<char>, i: int)
    requires
        0 <= i,
    ensures
        find_from(s, pat, i) matches Some(k) ==> i <= k && matches_at(s, pat, k),
        find_from(s, pat, i) is None ==> forall|k: int| i <= k < s.len() ==> !matches_at(s, pat, k),
    decreases s.len() - i,
{
    if i < 0 || i >= s.len() || i + pat.len() > s.len() {
    } else if matches_at(s, pat, i) {
    } else {
        lemma_find_from_bounds(s, pat, i + 1);
    }
}

pub proof fn lemma_rfind_from_bounds(s: Seq<char>, pat: Seq<char>, i: int)
    ensures
        rfind_from(s, pat, i) matches Some(k) ==> 0 <= k <= i && matches_at(s, pat, k),
    decreases i + 1,
{
    if i >= 0 && !matches_at(s, pat, i) {
        lemma_rfind_from_bounds(s, pat, i - 1);
    }
}

/// The characters of `s`.
pub fn chars_of(s: &str) -> (r: Vec<char>)
    ensures
        r@ == s@,
{
    broadcast use vstd::string::group_string_axioms;

    let mut r: Vec<char> = Vec::new();
    for c in it: s.chars()
        invariant
            r@ == it.seq().subrange(0, it.index() as int),
    {
        r.push(c);
    }
    assert(r@ =~= s@);
    r
}

/// Whether `pat` occurs in `s` starting at `i`.
pub fn matches_at_exec(s: &[char], pat: &[char], i: usize) -> (r: bool)
    ensures
        r == matches_at(s@, pat@, i as int),
{
    if i > s.len() || pat.len() > s.len() - i {
        return false;
    }
    let mut k: usize = 0;
    while k < pat.len()
        invariant
            i + pat@.len() <= s@.len(),
            k <= pat@.len(),
            forall|m: int| 0 <= m < k ==> s@[i + m] == pat@[m],
        decreases pat@.len() - k,
    {
        assert(i + k < s.len());
        if s[i + k] != pat[k] {
            assert(s@.subrange(i as int, i + pat@.len())[k as int] != pat@[k as int]);
            return false;
        }
        k = k + 1;
    }
    assert(s@.subrange(i as int, i + pat@.len()) =~= pat@);
    true
}

/// The first position at or after `i` where `pat` occurs in `s`.
pub fn find_from_exec(s: &[char], pat: &[char], i: usize) -> (r: Option<usize>)
    ensures
        r matches Some(k) ==> find_from(s@, pat@, i as int) == Some(k as int),
        r is None ==> find_from(s@, pat@, i as int) is None,
{
    let mut j = i;
    while j < s.len() && pat.len() <= s.len() - j
        invariant
            i <= j,
            find_from(s@, pat@, i as int) == find_from(s@, pat@, j as int),
        decreases s@.len() - j,
    {
        if matches_at_exec(s, pat, j) {
            return Some(j);
        }
        j = j + 1;
    }
    None
}

/// The last position at or before `i` where `pat` occurs in `s`.
pub fn rfind_from_exec(s: &[char], pat: &[char], i: usize) -> (r: Option<usize>)
    ensures
        r matches Some(k) ==> rfind_from(s@, pat@, i as int) == Some(k as int),
        r is None ==> rfind_from(s@, pat@, i as int) is None,
{
    let mut j = i;
    loop
        invariant
            rfind_from(s@, pat@, i as int) == rfind_from(s@, pat@, j as int),
        decreases j,
    {
        if matches_at_exec(s, pat, j) {
            return Some(j);
        }
        if j == 0 {
            assert(rfind_from(s@, pat@, -1) is None);
            return None;
        }
        j = j - 1;
    }
}

/// The characters of `s` from `a` up to `b`.
pub fn slice(s: &[char], a: usize, b: usize) -> (r: Vec<char>)
    requires
        a <= b <= s@.len(),
    ensures
        r@ == s@.subrange(a as int, b as int),
{
    let mut r: Vec<char> = Vec::new();
    let mut k = a;
    while k < b
        invariant
            a <= k <= b <= s@.len(),
            r@ == s@.subrange(a as int, k as int),
        decreases b - k,
    {
        r.push(s[k]);
        assert(r@ =~= s@.subrange(a as int, k + 1 as int));
        k = k + 1;
    }
    r
}

/// `s` cut at each occurrence of the non-empty `pat`.
pub fn split_exec(s: &[char], pat: &[char]) -> (r: Vec<Vec<char>>)
    requires
        pat@.len() > 0,
    ensures
        r@.map_values(|v: Vec<char>| v@) == split(s@, pat@),
{
    let mut r: Vec<Vec<char>> = Vec::new();
    let mut j: usize = 0;
    loop
        invariant
            pat@.len() > 0,
            j <= s@.len(),
            r@.map_values(|v: Vec<char>| v@) + split_from(s@, pat@, j as int) == split(s@, pat@),
        decreases s@.len() - j,
    {
        proof {
            lemma_find_from_bounds(s@, pat@, j as int);
        }
        match find_from_exec(s, pat, j) {
            None => {
                let piece = slice(s, j, s.len());
                let ghost before = r@;
                r.push(piece);
                assert(r@.map_values(|v: Vec<char>| v@) =~= before.map_values(|v: Vec<char>| v@)
                    + split_from(s@, pat@, j as int));
                return r;
            },
            Some(i) => {
                assert(matches_at(s@, pat@, i as int));
                assert(i + pat.len() <= s.len());
                let piece = slice(s, j, i);
                let ghost before = r@;
                r.push(piece);
                assert(r@.map_values(|v: Vec<char>| v@) =~= before.map_values(|v: Vec<char>| v@)
                    + seq![s@.subrange(j as int, i as int)]);
                j = i + pat.len();
            },
        }
    }
}

/// Whether the two character sequences are equal.
pub fn eq_chars(a: &[char], b: &[char]) -> (r: bool)
    ensures
        r == (a@ == b@),
{
    if a.len() != b.len() {
        return false;
    }
    let mut k: usize = 0;
    while k < a.len()
        invariant
            a@.len() == b@.len(),
            k <= a@.len(),
            forall|m: int| 0 <= m < k ==> a@[m] == b@[m],
        decreases a@.len() - k,
    {
        if a[k] != b[k] {
            return false;
        }
        k = k + 1;
    }
    assert(a@ =~= b@);
    true
}


pub open spec fn is_digit(c: char) -> bool {
    '0' <= c && c <= '9'
}

pub open spec fn all_digits(s: Seq<char>) -> bool {
    forall|i: int| 0 <= i < s.len() ==> is_digit(#[trigger] s[i])
}

/// The number the decimal digits `s` write.
pub open spec fn digits_value(s: Seq<char>) -> int
    decreases s.len(),
{
    if s.len() == 0 {
        0
    } else {
        digits_value(s.drop_last()) * 10 + (s.last() as int - '0' as int)
    }
}

/// What `str::parse` gives for an unsigned integer type whose largest value
/// is `max`: an optional `+`, then one or more decimal digits whose value is
/// at most `max`.
pub open spec fn parse_unsigned(s: Seq<char>, max: int) -> Option<int> {
    let d = if s.len() > 0 && s[0] == '+' {
        s.drop_first()
    } else {
        s
    };
    if d.len() > 0 && all_digits(d) && digits_value(d) <= max {
        Some(digits_value(d))
    } else {
        None
    }
}

pub proof fn lemma_digits_value_prefix(s: Seq<char>, k: int)
    requires
        all_digits(s),
        0 <= k <= s.len(),
    ensures
        digits_value(s.subrange(0, k)) <= digits_value(s),
        0 <= digits_value(s.subrange(0, k)),
    decreases s.len(),
{
    if k == s.len() {
        assert(s.subrange(0, k) =~= s);
        lemma_digits_value_nonneg(s);
    } else {
        assert(all_digits(s.drop_last()));
        lemma_digits_value_prefix(s.drop_last(), k);
        assert(s.drop_last().subrange(0, k) =~= s.subrange(0, k));
        lemma_digits_value_nonneg(s.drop_last());
    }
}

pub proof fn lemma_digits_value_nonneg(s: Seq<char>)
    requires
        all_digits(s),
    ensures
        0 <= digits_value(s),
    decreases s.len(),
{
    if s.len() > 0 {
        assert(all_digits(s.drop_last()));
        lemma_digits_value_nonneg(s.drop_last());
    }
}

/// Parses `s` as `str::parse` parses an unsigned integer no larger than `max`.
pub fn parse_unsigned_exec(s: &[char], max: u64) -> (r: Option<u64>)
    ensures
        r matches Some(v) ==> parse_unsigned(s@, max as int) == Some(v as int),
        r is None ==> parse_unsigned(s@, max as int) is None,
{
    let start: usize = if s.len() > 0 && s[0] == '+' {
        1
    } else {
        0
    };
    let ghost d = s@.subrange(start as int, s@.len() as int);
    assert(d =~= (if s@.len() > 0 && s@[0] == '+' {
        s@.drop_first()
    } else {
        s@
    }));
    if start == s.len() {
        return None;
    }
    let mut val: u64 = 0;
    let mut k: usize = start;
    while k < s.len()
        invariant
            start <= k <= s@.len(),
            d == s@.subrange(start as int, s@.len() as int),
            d == (if s@.len() > 0 && s@[0] == '+' {
                s@.drop_first()
            } else {
                s@
            }),
            all_digits(s@.subrange(start as int, k as int)),
            val as int == digits_value(s@.subrange(start as int, k as int)),
            val <= max,
        decreases s@.len() - k,
    {
        let c = s[k];
        let ghost pre = s@.subrange(start as int, k as int);
        assert(s@.subrange(start as int, k + 1 as int) =~= pre.push(c));
        assert(s@.subrange(start as int, k + 1 as int).drop_last() =~= pre);
        if !('0' <= c && c <= '9') {
            assert(d[k - start] == c);
            assert(!is_digit(d[k - start]));
            return None;
        }
        let digit = (c as u32 - '0' as u32) as u64;
        let next = (val as u128) * 10 + digit as u128;
        if next > max as u128 {
            proof {
                let full = s@.subrange(start as int, k + 1 as int);
                assert(full.drop_last() =~= pre);
                assert(full.last() == c);
                assert(digits_value(full) == digits_value(pre) * 10 + (c as int - '0' as int));
                if all_digits(d) {
                    assert(d.subrange(0, k + 1 - start) =~= full);
                    lemma_digits_value_prefix(d, k + 1 - start);
                }
            }
            return None;
        }
        val = next as u64;
        k = k + 1;
    }
    assert(s@.subrange(start as int, k as int) =~= d);
    Some(val)
}

/// The ASCII lower-case form of a character, as `char::to_ascii_lowercase`
/// gives it.
pub open spec fn lower(c: char) -> char {
    if 'A' <= c && c <= 'Z' {
        ((c as u32) + 32) as char
    } else {
        c
    }
}

/// The ASCII lower-case form of `s`, as `str::to_ascii_lowercase` gives it.
pub open spec fn lower_all(s: Seq<char>) -> Seq<char> {
    s.map_values(|c: char| lower(c))
}

pub fn to_ascii_lowercase(s: &[char]) -> (r: Vec<char>)
    ensures
        r@ == lower_all(s@),
{
    let mut r: Vec<char> = Vec::new();
    for k in 0..s.len()
        invariant
            r@ == lower_all(s@.subrange(0, k as int)),
    {
        let c = s[k];
        let l = if 'A' <= c && c <= 'Z' {
            ((c as u8) + 32) as char
        } else {
            c
        };
        assert(l == lower(c));
        r.push(l);
        assert(lower_all(s@.subrange(0, k + 1 as int)) =~= lower_all(s@.subrange(0, k as int)).push(c).map_values(|c: char| lower(c)).subrange(0, k + 1 as int));
        assert(r@ =~= lower_all(s@.subrange(0, k + 1 as int)));
    }
    assert(s@.subrange(0, s@.len() as int) =~= s@);
    r
}

/// Whether `pat` occurs anywhere in `s`, as `str::contains` answers.
pub open spec fn contains(s: Seq<char>, pat: Seq<char>) -> bool {
    exists|i: int| matches_at(s, pat, i)
}

pub fn contains_exec(s: &[char], pat: &[char]) -> (r: bool)
    ensures
        r == contains(s@, pat@),
{
    let mut i: usize = 0;
    loop
        invariant
            i <= s@.len(),
            forall|k: int| 0 <= k < i ==> !matches_at(s@, pat@, k),
        decreases s@.len() - i,
    {
        if matches_at_exec(s, pat, i) {
            return true;
        }
        if i == s.len() {
            assert forall|k: int| !matches_at(s@, pat@, k) by {
                if 0 <= k < i {
                }
            }
            return false;
        }
        i = i + 1;
    }
}

/// Whether `s` begins with `pat`.
pub open spec fn starts_with(s: Seq<char>, pat: Seq<char>) -> bool {
    pat.len() <= s.len() && s.subrange(0, pat.len() as int) == pat
}

pub fn starts_with_exec(s: &[char], pat: &[char]) -> (r: bool)
    ensures
        r == starts_with(s@, pat@),
{
    matches_at_exec(s, pat, 0)
}

/// The characters `char::is_whitespace` accepts: Unicode's `White_Space`.
pub open spec fn is_whitespace(c: char) -> bool {
    ||| ('\u{9}' <= c && c <= '\u{d}')
    ||| c == ' '
    ||| c == '\u{85}'
    ||| c == '\u{a0}'
    ||| c == '\u{1680}'
    ||| ('\u{2000}' <= c && c <= '\u{200a}')
    ||| c == '\u{2028}'
    ||| c == '\u{2029}'
    ||| c == '\u{202f}'
    ||| c == '\u{205f}'
    ||| c == '\u{3000}'
}

pub fn is_whitespace_exec(c: char) -> (r: bool)
    ensures
        r == is_whitespace(c),
{
    ('\u{9}' <= c && c <= '\u{d}') || c == ' ' || c == '\u{85}' || c == '\u{a0}' || c
        == '\u{1680}' || ('\u{2000}' <= c && c <= '\u{200a}') || c == '\u{2028}' || c
        == '\u{2029}' || c == '\u{202f}' || c == '\u{205f}' || c == '\u{3000}'
}

/// Where `s` starts once leading whitespace is skipped.
pub open spec fn trim_start_at(s: Seq<char>, i: int) -> int
    decreases s.len() - i,
{
    if i < s.len() && is_whitespace(s[i]) {
        trim_start_at(s, i + 1)
    } else {
        i
    }
}

/// Where `s` ends once trailing whitespace from `j` down is dropped.
pub open spec fn trim_end_at(s: Seq<char>, lo: int, j: int) -> int
    decreases j - lo,
{
    if j > lo && is_whitespace(s[j - 1]) {
        trim_end_at(s, lo, j - 1)
    } else {
        j
    }
}

/// `s` without leading and trailing whitespace, as `str::trim` gives it.
pub open spec fn trim(s: Seq<char>) -> Seq<char> {
    let a = trim_start_at(s, 0);
    s.subrange(a, trim_end_at(s, a, s.len() as int))
}

pub proof fn lemma_trim_bounds(s: Seq<char>, i: int, lo: int, j: int)
    requires
        0 <= i <= s.len(),
        0 <= lo <= j <= s.len(),
    ensures
        i <= trim_start_at(s, i) <= s.len(),
        lo <= trim_end_at(s, lo, j) <= j,
    decreases s.len() - i + j - lo,
{
    if i < s.len() && is_whitespace(s[i]) {
        lemma_trim_bounds(s, i + 1, lo, j);
    } else if j > lo && is_whitespace(s[j - 1]) {
        lemma_trim_bounds(s, i, lo, j - 1);
    }
}

pub fn trim_exec(s: &[char]) -> (r: Vec<char>)
    ensures
        r@ == trim(s@),
{
    let mut a: usize = 0;
    while a < s.len() && is_whitespace_exec(s[a])
        invariant
            a <= s@.len(),
            trim_start_at(s@, 0) == trim_start_at(s@, a as int),
        decreases s@.len() - a,
    {
        a = a + 1;
    }
    let mut b: usize = s.len();
    while b > a && is_whitespace_exec(s[b - 1])
        invariant
            a <= b <= s@.len(),
            trim_start_at(s@, 0) == a,
            trim_end_at(s@, a as int, s@.len() as int) == trim_end_at(s@, a as int, b as int),
        decreases b - a,
    {
        b = b - 1;
    }
    slice(s, a, b)
}


/// `parts` joined with `sep` between each two of them.
pub open spec fn join(parts: Seq<Seq<char>>, sep: Seq<char>) -> Seq<char>
    decreases parts.len(),
{
    if parts.len() == 0 {
        Seq::empty()
    } else if parts.len() == 1 {
        parts[0]
    } else {
        join(parts.drop_last(), sep) + sep + parts.last()
    }
}

/// `s` with each occurrence of the non-empty `pat` replaced by `rep`, left
/// to right, as `str::replace` does it.
pub open spec fn replace(s: Seq<char>, pat: Seq<char>, rep: Seq<char>) -> Seq<char> {
    join(split(s, pat), rep)
}

/// `s` without any occurrence of the character `c`.
pub open spec fn without_char(s: Seq<char>, c: char) -> Seq<char> {
    s.filter(|x: char| x != c)
}

/// `s` cut at the first occurrence of `pat`.
pub fn split_once_exec(s: &[char], pat: &[char]) -> (r: Option<(Vec<char>, Vec<char>)>)
    requires
        pat@.len() > 0,
    ensures
        r is None <==> split_once(s@, pat@) is None,
        r matches Some((a, b)) ==> split_once(s@, pat@) == Some((a@, b@)),
{
    proof {
        lemma_find_from_bounds(s@, pat@, 0);
    }
    match find_from_exec(s, pat, 0) {
        None => None,
        Some(k) => {
            assert(matches_at(s@, pat@, k as int));
            let n = s.len();
            let m = pat.len();
            assert(k + m <= n);
            let a = slice(s, 0, k);
            let b = slice(s, k + m, n);
            Some((a, b))
        },
    }
}

/// `s` cut at the last occurrence of `pat`.
pub fn rsplit_once_exec(s: &[char], pat: &[char]) -> (r: Option<(Vec<char>, Vec<char>)>)
    requires
        pat@.len() > 0,
    ensures
        r is None <==> rsplit_once(s@, pat@) is None,
        r matches Some((a, b)) ==> rsplit_once(s@, pat@) == Some((a@, b@)),
{
    if pat.len() > s.len() {
        assert(rfind_from(s@, pat@, s@.len() - pat@.len()) is None) by {
            lemma_rfind_from_bounds(s@, pat@, s@.len() - pat@.len());
        }
        return None;
    }
    proof {
        lemma_rfind_from_bounds(s@, pat@, s@.len() - pat@.len());
    }
    match rfind_from_exec(s, pat, s.len() - pat.len()) {
        None => None,
        Some(k) => {
            let a = slice(s, 0, k);
            let b = slice(s, k + pat.len(), s.len());
            Some((a, b))
        },
    }
}

/// The pieces joined with `sep` between each two of them.
pub fn join_exec(parts: &Vec<Vec<char>>, sep: &[char]) -> (r: Vec<char>)
    ensures
        r@ == join(parts@.map_values(|v: Vec<char>| v@), sep@),
{
    let ghost ps = parts@.map_values(|v: Vec<char>| v@);
    let mut r: Vec<char> = Vec::new();
    let mut i: usize = 0;
    while i < parts.len()
        invariant
            i <= parts@.len(),
            ps == parts@.map_values(|v: Vec<char>| v@),
            r@ == join(ps.subrange(0, i as int), sep@),
        decreases parts@.len() - i,
    {
        let ghost before = r@;
        if i > 0 {
            let mut k: usize = 0;
            while k < sep.len()
                invariant
                    k <= sep@.len(),
                    r@ == before + sep@.subrange(0, k as int),
                decreases sep@.len() - k,
            {
                r.push(sep[k]);
                assert(r@ =~= before + sep@.subrange(0, k + 1 as int));
                k = k + 1;
            }
        }
        let ghost mid = r@;
        let part = &parts[i];
        let mut k: usize = 0;
        while k < part.len()
            invariant
                k <= part@.len(),
                r@ == mid + part@.subrange(0, k as int),
            decreases part@.len() - k,
        {
            r.push(part[k]);
            assert(r@ =~= mid + part@.subrange(0, k + 1 as int));
            k = k + 1;
        }
        proof {
            let sub = ps.subrange(0, i + 1 as int);
            assert(sub.drop_last() =~= ps.subrange(0, i as int));
            assert(part@.subrange(0, part@.len() as int) =~= part@);
            if i > 0 {
                assert(sep@.subrange(0, sep@.len() as int) =~= sep@);
                assert(r@ =~= join(sub.drop_last(), sep@) + sep@ + sub.last());
            } else {
                assert(r@ =~= sub[0]);
            }
        }
        i = i + 1;
    }
    assert(ps.subrange(0, parts@.len() as int) =~= ps);
    r
}

/// `s` with each occurrence of the non-empty `pat` replaced by `rep`.
pub fn replace_exec(s: &[char], pat: &[char], rep: &[char]) -> (r: Vec<char>)
    requires
        pat@.len() > 0,
    ensures
        r@ == replace(s@, pat@, rep@),
{
    let parts = split_exec(s, pat);
    join_exec(&parts, rep)
}

/// `s` without any occurrence of `c`.
pub fn without_char_exec(s: &[char], c: char) -> (r: Vec<char>)
    ensures
        r@ == without_char(s@, c),
{
    let mut r: Vec<char> = Vec::new();
    let mut k: usize = 0;
    while k < s.len()
        invariant
            k <= s@.len(),
            r@ == without_char(s@.subrange(0, k as int), c),
        decreases s@.len() - k,
    {
        proof {
            let t = s@.subrange(0, k + 1 as int);
            assert(t.drop_last() =~= s@.subrange(0, k as int));
            reveal_with_fuel(Seq::filter, 1);
        }
        if s[k] != c {
            r.push(s[k]);
        }
        k = k + 1;
    }
    assert(s@.subrange(0, s@.len() as int) =~= s@);
    r
}

/// Appends a character to a string.
#[verifier::external_body]
fn push_char(s: &mut String, c: char)
    ensures
        final(s)@ == old(s)@.push(c),
{
    s.push(c);
}

/// The string of the given characters.
pub fn string_of(cs: &[char]) -> (r: String)
    ensures
        r@ == cs@,
{
    let mut r = String::new();
    let mut k: usize = 0;
    while k < cs.len()
        invariant
            k <= cs@.len(),
            r@ == cs@.subrange(0, k as int),
        decreases cs@.len() - k,
    {
        push_char(&mut r, cs[k]);
        assert(r@ =~= cs@.subrange(0, k + 1 as int));
        k = k + 1;
    }
    assert(cs@.subrange(0, cs@.len() as int) =~= cs@);
    r
}


/// Cutting at a non-empty pattern gives at least one piece.
pub proof fn lemma_split_from_nonempty(s: Seq<char>, pat: Seq<char>, j: int)
    requires
        pat.len() > 0,
        0 <= j <= s.len(),
    ensures
        split_from(s, pat, j).len() >= 1,
    decreases s.len() - j,
{
    lemma_find_from_bounds(s, pat, j);
    if let Some(i) = find_from(s, pat, j) {
        lemma_split_from_nonempty(s, pat, i + pat.len());
    }
}

/// A line without the carriage return that may end it.
pub open spec fn strip_cr(l: Seq<char>) -> Seq<char> {
    if l.len() > 0 && l.last() == '\r' {
        l.drop_last()
    } else {
        l
    }
}

/// The lines of `s`, as `str::lines` gives them: cut at each line feed, a
/// line that a line feed ends without its carriage return, and no empty
/// line after a final line feed.
pub open spec fn lines(s: Seq<char>) -> Seq<Seq<char>> {
    let parts = split(s, seq!['\n']);
    let ended = parts.drop_last().map_values(|l: Seq<char>| strip_cr(l));
    if parts.last().len() == 0 {
        ended
    } else {
        ended.push(parts.last())
    }
}

/// The lines of `s`.
pub fn lines_exec(s: &[char]) -> (r: Vec<Vec<char>>)
    ensures
        r@.map_values(|v: Vec<char>| v@) == lines(s@),
{
    let nl: Vec<char> = vec!['\n'];
    assert(nl@ =~= seq!['\n']);
    let parts = split_exec(s, &nl);
    proof {
        lemma_split_from_nonempty(s@, seq!['\n'], 0);
    }
    let ghost ps = parts@.map_values(|v: Vec<char>| v@);
    let n = parts.len();
    let mut r: Vec<Vec<char>> = Vec::new();
    let mut i: usize = 0;
    while i + 1 < n
        invariant
            n == parts@.len(),
            n >= 1,
            i + 1 <= n,
            ps == parts@.map_values(|v: Vec<char>| v@),
            r@.map_values(|v: Vec<char>| v@) == ps.subrange(0, i as int).map_values(
                |l: Seq<char>| strip_cr(l),
            ),
        decreases n - i,
    {
        let l = &parts[i];
        let m = l.len();
        let line = if m > 0 && l[m - 1] == '\r' {
            slice(l, 0, m - 1)
        } else {
            slice(l, 0, m)
        };
        proof {
            assert(ps[i as int] == l@);
            assert(l@.subrange(0, m as int) =~= l@);
            assert(l@.subrange(0, m - 1) =~= l@.drop_last());
            assert(line@ == strip_cr(ps[i as int]));
        }
        let ghost before = r@;
        r.push(line);
        proof {
            assert(r@.map_values(|v: Vec<char>| v@) =~= before.map_values(|v: Vec<char>| v@).push(
                line@,
            ));
            assert(ps.subrange(0, i + 1 as int).map_values(|l: Seq<char>| strip_cr(l))
                =~= ps.subrange(0, i as int).map_values(|l: Seq<char>| strip_cr(l)).push(
                strip_cr(ps[i as int]),
            ));
        }
        i = i + 1;
    }
    assert(ps.subrange(0, n - 1) =~= ps.drop_last());
    let last = &parts[n - 1];
    assert(ps.last() == last@);
    if last.len() > 0 {
        let ghost before = r@;
        r.push(slice(last, 0, last.len()));
        assert(last@.subrange(0, last@.len() as int) =~= last@);
        assert(r@.map_values(|v: Vec<char>| v@) =~= before.map_values(|v: Vec<char>| v@).push(
            last@,
        ));
    }
    r
}

} // verus!
