//! Character-level string helpers shared by the rest of the library.
//!
//! Strings are reasoned about through their view, a `Seq<char>`.
use vstd::prelude::*;

verus! {

/// Appends one character to a string (`String::push`).
#[verifier::external_body]
pub fn push_char(s: &mut String, c: char)
    ensures
        final(s)@ == old(s)@.push(c),
{
    s.push(c);
}

/// The characters of `s`, in order.
pub fn chars_of(s: &str) -> (v: Vec<char>)
    ensures
        v@ == s@,
{
    let mut v: Vec<char> = Vec::new();
    let n = s.unicode_len();
    let mut i: usize = 0;
    while i < n
        invariant
            n == s@.len(),
            i <= n,
            v@ == s@.subrange(0, i as int),
        decreases n - i,
    {
        let c = s.get_char(i);
        v.push(c);
        i = i + 1;
        assert(v@ == s@.subrange(0, i as int));
    }
    assert(s@.subrange(0, n as int) == s@);
    v
}

/// The string made of `v`'s characters.
pub fn string_from_chars(v: &[char]) -> (s: String)
    ensures
        s@ == v@,
{
    let mut s = String::new();
    let mut i: usize = 0;
    while i < v.len()
        invariant
            i <= v@.len(),
            s@ == v@.subrange(0, i as int),
        decreases v@.len() - i,
    {
        push_char(&mut s, v[i]);
        i = i + 1;
        assert(s@ == v@.subrange(0, i as int));
    }
    assert(v@.subrange(0, v@.len() as int) == v@);
    s
}


/// Unicode `White_Space` (the set `char::is_whitespace` and `str::trim` use).
pub open spec fn is_white_space(c: char) -> bool {
    ||| ('\u{9}' <= c && c <= '\u{d}')
    ||| c == ' '
    ||| c == '\u{85}'
    ||| c == '\u{a0}'
    ||| c == '\u{1680}'
    ||| ('\u{2000}' <= c && c <= '\u{200a}')
    ||| c == '\u{2028}'
    ||| c == '\u{2029}'
    ||| c == '\u{202f}'
    ||| c == '\u{205f}'
    ||| c == '\u{3000}'
}

/// Whether `c` is Unicode white space.
pub fn white_space(c: char) -> (b: bool)
    ensures
        b == is_white_space(c),
{
    ('\u{9}' <= c && c <= '\u{d}') || c == ' ' || c == '\u{85}' || c == '\u{a0}' || c == '\u{1680}'
        || ('\u{2000}' <= c && c <= '\u{200a}') || c == '\u{2028}' || c == '\u{2029}' || c
        == '\u{202f}' || c == '\u{205f}' || c == '\u{3000}'
}

/// `s` without its leading white space.
pub open spec fn trim_start(s: Seq<char>) -> Seq<char>
    decreases s.len(),
{
    if s.len() > 0 && is_white_space(s[0]) {
        trim_start(s.drop_first())
    } else {
        s
    }
}

/// `s` without its trailing white space.
pub open spec fn trim_end(s: Seq<char>) -> Seq<char>
    decreases s.len(),
{
    if s.len() > 0 && is_white_space(s.last()) {
        trim_end(s.drop_last())
    } else {
        s
    }
}

/// `s` without leading and trailing white space (`str::trim`).
pub open spec fn trim(s: Seq<char>) -> Seq<char> {
    trim_end(trim_start(s))
}

/// The characters of `s` between `start` and `end`.
pub fn char_range(v: &Vec<char>, start: usize, end: usize) -> (out: Vec<char>)
    requires
        start <= end <= v@.len(),
    ensures
        out@ == v@.subrange(start as int, end as int),
{
    let mut out: Vec<char> = Vec::new();
    let mut i: usize = start;
    while i < end
        invariant
            start <= i <= end,
            end <= v@.len(),
            out@ == v@.subrange(start as int, i as int),
        decreases end - i,
    {
        out.push(v[i]);
        i = i + 1;
        assert(out@ == v@.subrange(start as int, i as int));
    }
    out
}

/// The characters of `v` without leading and trailing white space.
pub fn trim_vec(v: &Vec<char>) -> (out: Vec<char>)
    ensures
        out@ == trim(v@),
{
    let n = v.len();
    let mut i: usize = 0;
    assert(v@.subrange(0, n as int) == v@);
    while i < n && white_space(v[i])
        invariant
            n == v@.len(),
            i <= n,
            trim_start(v@) == trim_start(v@.subrange(i as int, n as int)),
        decreases n - i,
    {
        assert(v@.subrange(i as int, n as int).drop_first() == v@.subrange(i + 1, n as int));
        i = i + 1;
    }
    assert(trim_start(v@.subrange(i as int, n as int)) == v@.subrange(i as int, n as int));
    let mut j: usize = n;
    while j > i && white_space(v[j - 1])
        invariant
            n == v@.len(),
            i <= j <= n,
            trim_end(v@.subrange(i as int, n as int)) == trim_end(v@.subrange(i as int, j as int)),
        decreases j - i,
    {
        assert(v@.subrange(i as int, j as int).drop_last() == v@.subrange(i as int, j - 1));
        j = j - 1;
    }
    assert(trim_end(v@.subrange(i as int, j as int)) == v@.subrange(i as int, j as int));
    char_range(v, i, j)
}

/// The characters of `s` without leading and trailing white space.
pub fn trimmed_chars(s: &str) -> (out: Vec<char>)
    ensures
        out@ == trim(s@),
{
    let v = chars_of(s);
    trim_vec(&v)
}

/// Whether two character vectors hold the same characters.
pub fn same_chars(a: &Vec<char>, b: &Vec<char>) -> (r: bool)
    ensures
        r == (a@ == b@),
{
    if a.len() != b.len() {
        return false;
    }
    let mut i: usize = 0;
    while i < a.len()
        invariant
            a@.len() == b@.len(),
            i <= a@.len(),
            forall|k: int| 0 <= k < i ==> a@[k] == b@[k],
        decreases a@.len() - i,
    {
        if a[i] != b[i] {
            return false;
        }
        i = i + 1;
    }
    assert(a@ == b@);
    true
}

/// Whether `needle` occurs in `hay`.
pub open spec fn contains_seq(hay: Seq<char>, needle: Seq<char>) -> bool {
    exists|i: int| 0 <= i && i + needle.len() <= hay.len() && #[trigger] hay.subrange(i, i + needle.len()) == needle
}

/// Whether the characters `needle` occur in `hay`.
pub fn chars_contain(hay: &Vec<char>, needle: &Vec<char>) -> (r: bool)
    ensures
        r == contains_seq(hay@, needle@),
{
    let n = needle.len();
    let len = hay.len();
    if n > len {
        return false;
    }
    let last: usize = len - n;
    let mut i: usize = 0;
    while i < last
        invariant
            n == needle@.len(),
            len == hay@.len(),
            last + n == len,
            i <= last,
            forall|k: int| 0 <= k < i ==> #[trigger] hay@.subrange(k, k + n) != needle@,
        decreases last - i,
    {
        let part = char_range(hay, i, i + n);
        if same_chars(&part, needle) {
            return true;
        }
        i = i + 1;
    }
    let part = char_range(hay, last, len);
    if same_chars(&part, needle) {
        return true;
    }
    proof {
        if contains_seq(hay@, needle@) {
            let k = choose|k: int| 0 <= k && k + needle@.len() <= hay@.len() && #[trigger] hay@.subrange(k, k + needle@.len()) == needle@;
            if k < last {
                assert(hay@.subrange(k, k + n) != needle@);
            }
        }
    }
    false
}

/// The parts of `s` between occurrences of `sep` (`str::split`): one more
/// part than there are separators, empty parts included.
pub open spec fn split_on(s: Seq<char>, sep: char) -> Seq<Seq<char>>
    decreases s.len(),
{
    if s.len() == 0 {
        seq![Seq::empty()]
    } else {
        let prev = split_on(s.drop_last(), sep);
        if s.last() == sep {
            prev.push(Seq::empty())
        } else {
            prev.update(prev.len() - 1, prev.last().push(s.last()))
        }
    }
}

pub proof fn lemma_split_nonempty(s: Seq<char>, sep: char)
    ensures
        split_on(s, sep).len() >= 1,
    decreases s.len(),
{
    if s.len() > 0 {
        lemma_split_nonempty(s.drop_last(), sep);
    }
}

/// The first part is no longer than the text, and when there are several
/// parts it is followed by a separator inside the text.
pub proof fn lemma_first_part_len(s: Seq<char>, sep: char)
    ensures
        split_on(s, sep)[0].len() <= s.len(),
        split_on(s, sep).len() > 1 ==> split_on(s, sep)[0].len() + 1 <= s.len(),
    decreases s.len(),
{
    lemma_split_nonempty(s, sep);
    if s.len() > 0 {
        lemma_first_part_len(s.drop_last(), sep);
        lemma_split_nonempty(s.drop_last(), sep);
    }
}

/// Splits `s` at every `sep`.
pub fn split_chars(s: &Vec<char>, sep: char) -> (parts: Vec<Vec<char>>)
    ensures
        parts@.map_values(|p: Vec<char>| p@) == split_on(s@, sep),
{
    let mut parts: Vec<Vec<char>> = Vec::new();
    parts.push(Vec::new());
    let mut i: usize = 0;
    assert(parts@.map_values(|p: Vec<char>| p@) == split_on(s@.subrange(0, 0), sep));
    while i < s.len()
        invariant
            i <= s@.len(),
            parts@.len() >= 1,
            parts@.map_values(|p: Vec<char>| p@) == split_on(s@.subrange(0, i as int), sep),
        decreases s@.len() - i,
    {
        let ghost prev = parts@.map_values(|p: Vec<char>| p@);
        assert(s@.subrange(0, i + 1).drop_last() == s@.subrange(0, i as int));
        let c = s[i];
        if c == sep {
            parts.push(Vec::new());
            assert(parts@.map_values(|p: Vec<char>| p@) == prev.push(Seq::empty()));
        } else {
            let last = parts.len() - 1;
            let mut cur = parts.remove(last);
            cur.push(c);
            parts.push(cur);
            assert(parts@.map_values(|p: Vec<char>| p@) == prev.update(prev.len() - 1, prev.last().push(c)));
        }
        i = i + 1;
    }
    assert(s@.subrange(0, s@.len() as int) == s@);
    parts
}

/// Number of bytes of the UTF-8 encoding of `c`.
pub fn utf8_width(c: char) -> (w: u64)
    ensures
        w == vstd::utf8::encode_scalar(c as u32).len(),
{
    let v = c as u32;
    if v <= 0x7f {
        1
    } else if v <= 0x7ff {
        2
    } else if v <= 0xffff && !(0xd800 <= v && v <= 0xdfff) {
        3
    } else {
        4
    }
}

proof fn lemma_encode_suffix_le(v: Seq<char>, i: int)
    requires
        0 <= i <= v.len(),
    ensures
        vstd::utf8::encode_utf8(v.subrange(i, v.len() as int)).len() <= vstd::utf8::encode_utf8(v).len(),
    decreases i,
{
    if i > 0 {
        lemma_encode_suffix_le(v, i - 1);
        let t = v.subrange(i - 1, v.len() as int);
        assert(t.drop_first() == v.subrange(i, v.len() as int));
    } else {
        assert(v.subrange(0, v.len() as int) == v);
    }
}

/// Whether the UTF-8 encoding of `v` is longer than `limit` bytes.
pub fn utf8_longer_than(v: &Vec<char>, limit: u64) -> (r: bool)
    requires
        limit < u64::MAX - 4,
    ensures
        r == (vstd::utf8::encode_utf8(v@).len() > limit),
{
    let n = v.len();
    let mut acc: u64 = 0;
    let mut i: usize = n;
    assert(v@.subrange(n as int, n as int).len() == 0);
    while i > 0
        invariant
            i <= n,
            n == v@.len(),
            limit < u64::MAX - 4,
            acc == vstd::utf8::encode_utf8(v@.subrange(i as int, n as int)).len(),
            acc <= limit,
        decreases i,
    {
        let w = utf8_width(v[i - 1]);
        proof {
            let t = v@.subrange(i - 1, n as int);
            assert(t.drop_first() == v@.subrange(i as int, n as int));
            assert(t[0] == v@[i - 1]);
        }
        acc = acc + w;
        i = i - 1;
        if acc > limit {
            proof {
                lemma_encode_suffix_le(v@, i as int);
            }
            return true;
        }
    }
    assert(v@.subrange(0, n as int) == v@);
    false
}

/// Whether `s` begins with `p`.
pub open spec fn starts_with(s: Seq<char>, p: Seq<char>) -> bool {
    p.len() <= s.len() && s.subrange(0, p.len() as int) == p
}

/// `v` without its trailing white space.
pub fn trim_end_chars(v: &Vec<char>) -> (out: Vec<char>)
    ensures
        out@ == trim_end(v@),
{
    let n = v.len();
    let mut j: usize = n;
    assert(v@.subrange(0, n as int) == v@);
    while j > 0 && white_space(v[j - 1])
        invariant
            n == v@.len(),
            j <= n,
            trim_end(v@) == trim_end(v@.subrange(0, j as int)),
        decreases j,
    {
        assert(v@.subrange(0, j as int).drop_last() == v@.subrange(0, j - 1));
        j = j - 1;
    }
    assert(trim_end(v@.subrange(0, j as int)) == v@.subrange(0, j as int));
    char_range(v, 0, j)
}

/// Index of the first `c` in `s` at or after `i`.
pub open spec fn first_index_of(s: Seq<char>, c: char, i: int) -> Option<int>
    decreases s.len() - i,
{
    if i < 0 || i >= s.len() {
        None
    } else if s[i] == c {
        Some(i)
    } else {
        first_index_of(s, c, i + 1)
    }
}

/// A found index lies at or after `i` and holds `c`.
pub proof fn lemma_first_index_after(s: Seq<char>, c: char, i: int)
    requires
        0 <= i,
    ensures
        match first_index_of(s, c, i) {
            Some(k) => i <= k < s.len() && s[k] == c,
            None => true,
        },
    decreases s.len() - i,
{
    if i < s.len() && s[i] != c {
        lemma_first_index_after(s, c, i + 1);
    }
}

/// The first index of `c` in `v` at or after `i`.
pub fn find_char_from(v: &Vec<char>, c: char, i: usize) -> (r: Option<usize>)
    ensures
        match r {
            Some(k) => first_index_of(v@, c, i as int) == Some(k as int),
            None => first_index_of(v@, c, i as int) is None,
        },
{
    let mut k: usize = i;
    while k < v.len()
        invariant
            i <= k,
            first_index_of(v@, c, i as int) == first_index_of(v@, c, k as int),
        decreases v@.len() - k,
    {
        if v[k] == c {
            return Some(k);
        }
        k = k + 1;
    }
    None
}

/// A line without the carriage return of a `\r\n` ending.
pub open spec fn strip_cr(l: Seq<char>) -> Seq<char> {
    if l.len() > 0 && l.last() == '\r' {
        l.drop_last()
    } else {
        l
    }
}

/// The lines of a text as `str::lines` yields them: split at `\n`, a `\r`
/// before it removed, and no empty line after a final `\n`.
pub open spec fn str_lines(s: Seq<char>) -> Seq<Seq<char>> {
    let parts = split_on(s, '\n');
    if s.len() == 0 {
        Seq::empty()
    } else if s.last() == '\n' {
        parts.drop_last().map_values(|l: Seq<char>| strip_cr(l))
    } else {
        parts.drop_last().map_values(|l: Seq<char>| strip_cr(l)).push(parts.last())
    }
}

/// The lines of `s` (`str::lines`).
pub fn lines_of(s: &str) -> (r: Vec<Vec<char>>)
    ensures
        r@.map_values(|l: Vec<char>| l@) == str_lines(s@),
{
    let v = chars_of(s);
    let parts = split_chars(&v, '\n');
    proof {
        lemma_split_nonempty(v@, '\n');
    }
    let ghost pv = parts@.map_values(|p: Vec<char>| p@);
    let mut r: Vec<Vec<char>> = Vec::new();
    if v.len() == 0 {
        assert(r@.map_values(|l: Vec<char>| l@) =~= str_lines(s@));
        return r;
    }
    let last = parts.len() - 1;
    let mut i: usize = 0;
    while i < last
        invariant
            last + 1 == parts@.len(),
            pv == parts@.map_values(|p: Vec<char>| p@),
            pv == split_on(v@, '\n'),
            i <= last,
            r@.map_values(|l: Vec<char>| l@) == pv.drop_last().subrange(0, i as int).map_values(|l: Seq<char>| strip_cr(l)),
        decreases last - i,
    {
        let p = &parts[i];
        assert(pv[i as int] == p@);
        let n = p.len();
        let line = if n > 0 && p[n - 1] == '\r' {
            char_range(p, 0, n - 1)
        } else {
            char_range(p, 0, n)
        };
        assert(p@.subrange(0, n as int) == p@);
        assert(line@ == strip_cr(p@));
        let ghost before = r@.map_values(|l: Vec<char>| l@);
        r.push(line);
        assert(r@.map_values(|l: Vec<char>| l@) == before.push(strip_cr(p@)));
        assert(pv.drop_last().subrange(0, i + 1) == pv.drop_last().subrange(0, i as int).push(pv[i as int]));
        i = i + 1;
    }
    assert(pv.drop_last().subrange(0, last as int) == pv.drop_last());
    if v[v.len() - 1] != '\n' {
        let p = char_range(&parts[last], 0, parts[last].len());
        assert(parts@[last as int]@.subrange(0, parts@[last as int]@.len() as int) == parts@[last as int]@);
        let ghost before = r@.map_values(|l: Vec<char>| l@);
        r.push(p);
        assert(r@.map_values(|l: Vec<char>| l@) == before.push(pv.last()));
    }
    r
}

/// Whether the characters `v` begin with those of `p`.
pub fn chars_start_with(v: &Vec<char>, p: &str) -> (r: bool)
    ensures
        r == starts_with(v@, p@),
{
    let pv = chars_of(p);
    if pv.len() > v.len() {
        return false;
    }
    let head = char_range(v, 0, pv.len());
    same_chars(&head, &pv)
}

/// Whether `s` ends with `p`.
pub open spec fn ends_with(s: Seq<char>, p: Seq<char>) -> bool {
    p.len() <= s.len() && s.subrange(s.len() - p.len(), s.len() as int) == p
}

/// Whether the characters `v` end with those of `p`.
pub fn chars_end_with(v: &Vec<char>, p: &str) -> (r: bool)
    ensures
        r == ends_with(v@, p@),
{
    let pv = chars_of(p);
    if pv.len() > v.len() {
        return false;
    }
    let tail = char_range(v, v.len() - pv.len(), v.len());
    same_chars(&tail, &pv)
}

/// Appends the characters of `t` to `s`.
pub fn push_all(s: &mut String, t: &str)
    ensures
        final(s)@ == old(s)@ + t@,
{
    let tv = chars_of(t);
    let mut i: usize = 0;
    while i < tv.len()
        invariant
            i <= tv@.len(),
            tv@ == t@,
            s@ == old(s)@ + tv@.subrange(0, i as int),
        decreases tv@.len() - i,
    {
        push_char(s, tv[i]);
        assert(old(s)@ + tv@.subrange(0, i + 1) == (old(s)@ + tv@.subrange(0, i as int)).push(tv@[i as int]));
        i = i + 1;
    }
    assert(tv@.subrange(0, tv@.len() as int) == tv@);
}

/// Unicode lower case of a text, as `str::to_lowercase` computes it.
pub uninterp spec fn lowercase(s: Seq<char>) -> Seq<char>;

/// `str::to_lowercase`. The contract claims only that the result is the one
/// `lowercase` names for `s`.
#[verifier::external_body]
pub(crate) fn to_lowercase(s: &str) -> (r: String)
    ensures
        r@ == lowercase(s@),
{
    s.to_lowercase()
}

/// Lexicographic order of texts by character (the order of `String`'s
/// comparison, since UTF-8 keeps the order of code points).
pub open spec fn chars_lt(a: Seq<char>, b: Seq<char>) -> bool
    decreases a.len(),
{
    if a.len() == 0 {
        b.len() > 0
    } else if b.len() == 0 {
        false
    } else if a[0] != b[0] {
        a[0] < b[0]
    } else {
        chars_lt(a.drop_first(), b.drop_first())
    }
}

pub proof fn lemma_chars_lt_irreflexive_asym(a: Seq<char>, b: Seq<char>)
    ensures
        !(chars_lt(a, b) && chars_lt(b, a)),
        !chars_lt(a, a),
    decreases a.len(),
{
    if a.len() > 0 && b.len() > 0 && a[0] == b[0] {
        lemma_chars_lt_irreflexive_asym(a.drop_first(), b.drop_first());
    }
    if a.len() > 0 {
        lemma_chars_lt_irreflexive_asym(a.drop_first(), a.drop_first());
    }
}

pub proof fn lemma_chars_lt_trans(a: Seq<char>, b: Seq<char>, c: Seq<char>)
    requires
        chars_lt(a, b),
        chars_lt(b, c),
    ensures
        chars_lt(a, c),
    decreases a.len(),
{
    if a.len() > 0 && b.len() > 0 && c.len() > 0 && a[0] == b[0] && b[0] == c[0] {
        lemma_chars_lt_trans(a.drop_first(), b.drop_first(), c.drop_first());
    }
}

pub proof fn lemma_chars_lt_total(a: Seq<char>, b: Seq<char>)
    ensures
        a != b ==> chars_lt(a, b) || chars_lt(b, a),
    decreases a.len(),
{
    if a.len() > 0 && b.len() > 0 && a[0] == b[0] {
        lemma_chars_lt_total(a.drop_first(), b.drop_first());
        if a.drop_first() == b.drop_first() {
            assert(a == seq![a[0]] + a.drop_first());
            assert(b == seq![b[0]] + b.drop_first());
        }
    }
    if a.len() == 0 && b.len() == 0 {
        assert(a == b);
    }
}

/// Whether `a` comes before `b` by character.
pub fn chars_less(a: &Vec<char>, b: &Vec<char>) -> (r: bool)
    ensures
        r == chars_lt(a@, b@),
{
    let mut i: usize = 0;
    assert(a@.subrange(0, a@.len() as int) == a@);
    assert(b@.subrange(0, b@.len() as int) == b@);
    while i < a.len() && i < b.len() && a[i] == b[i]
        invariant
            i <= a@.len(),
            i <= b@.len(),
            chars_lt(a@, b@) == chars_lt(a@.subrange(i as int, a@.len() as int), b@.subrange(i as int, b@.len() as int)),
        decreases a@.len() - i,
    {
        assert(a@.subrange(i as int, a@.len() as int).drop_first() == a@.subrange(i + 1, a@.len() as int));
        assert(b@.subrange(i as int, b@.len() as int).drop_first() == b@.subrange(i + 1, b@.len() as int));
        i = i + 1;
    }
    if i == a.len() {
        i < b.len()
    } else if i == b.len() {
        false
    } else {
        a[i] < b[i]
    }
}

/// The ASCII digit for `d < 10`.
pub open spec fn digit_char(d: nat) -> char {
    (d + 48) as char
}

/// Decimal representation of `n`, without leading zeros.
pub open spec fn decimal(n: nat) -> Seq<char>
    decreases n,
{
    if n < 10 {
        seq![digit_char(n)]
    } else {
        decimal(n / 10).push(digit_char(n % 10))
    }
}

/// Decimal representation of `n` (`n.to_string()`).
pub fn u64_to_decimal(n: u64) -> (s: String)
    ensures
        s@ == decimal(n as nat),
    decreases n,
{
    if n < 10 {
        let mut s = String::new();
        let c = ((n as u8) + 48u8) as char;
        assert(c == digit_char(n as nat));
        push_char(&mut s, c);
        s
    } else {
        let mut s = u64_to_decimal(n / 10);
        let c = (((n % 10) as u8) + 48u8) as char;
        assert(c == digit_char((n % 10) as nat));
        push_char(&mut s, c);
        s
    }
}

/// `s` right-aligned in a field of `width` characters (spaces on the left).
pub open spec fn pad_left(s: Seq<char>, width: nat) -> Seq<char> {
    if s.len() >= width {
        s
    } else {
        Seq::new((width - s.len()) as nat, |_i: int| ' ') + s
    }
}

/// Right-aligns `s` in a field of `width` characters.
pub fn pad_left_exec(s: &str, width: usize) -> (out: String)
    ensures
        out@ == pad_left(s@, width as nat),
{
    let n = s.unicode_len();
    let mut out = String::new();
    let mut i: usize = n;
    while i < width
        invariant
            n == s@.len(),
            n <= i,
            n >= width ==> i == n,
            n < width ==> i <= width,
            out@ == Seq::new((i - n) as nat, |_i: int| ' '),
        decreases width - i,
    {
        push_char(&mut out, ' ');
        i = i + 1;
        assert(out@ =~= Seq::new((i - n) as nat, |_i: int| ' '));
    }
    let ghost pad = out@;
    out.append(s);
    proof {
        if n >= width {
            assert(pad =~= Seq::<char>::empty());
            assert(out@ =~= s@);
        } else {
            assert(i == width);
        }
    }
    out
}


/// Number of occurrences of `c` in `s`.
pub open spec fn count_char(s: Seq<char>, c: char) -> nat
    decreases s.len(),
{
    if s.len() == 0 {
        0
    } else {
        count_char(s.drop_last(), c) + if s.last() == c {
            1nat
        } else {
            0nat
        }
    }
}

proof fn lemma_count_char_le(s: Seq<char>, c: char)
    ensures
        count_char(s, c) <= s.len(),
    decreases s.len(),
{
    if s.len() > 0 {
        lemma_count_char_le(s.drop_last(), c);
    }
}

/// Number of occurrences of `c` in `s`.
pub fn count_chars(s: &str, c: char) -> (n: usize)
    ensures
        n == count_char(s@, c),
{
    let chars = chars_of(s);
    let mut n: usize = 0;
    let mut i: usize = 0;
    while i < chars.len()
        invariant
            i <= chars@.len(),
            chars@ == s@,
            n == count_char(chars@.subrange(0, i as int), c),
            n <= i,
        decreases chars@.len() - i,
    {
        assert(chars@.subrange(0, i + 1).drop_last() == chars@.subrange(0, i as int));
        if chars[i] == c {
            n = n + 1;
        }
        i = i + 1;
    }
    assert(chars@.subrange(0, chars@.len() as int) == chars@);
    n
}

/// Number of lines of a text as an editor shows it: one for the empty text,
/// otherwise the lines that `str::lines` yields (a final newline does not
/// start another line).
pub open spec fn spec_line_count(s: Seq<char>) -> nat {
    if s.len() == 0 {
        1
    } else {
        count_char(s, '\n') + if s.last() == '\n' {
            0nat
        } else {
            1nat
        }
    }
}

/// Number of lines an editor shows for `text` (at least one).
pub fn line_count(text: &str) -> (n: usize)
    ensures
        n == spec_line_count(text@),
        n >= 1,
{
    let chars = chars_of(text);
    if chars.len() == 0 {
        return 1;
    }
    let mut newlines: usize = 0;
    let mut i: usize = 0;
    while i < chars.len()
        invariant
            i <= chars@.len(),
            chars@ == text@,
            newlines == count_char(chars@.subrange(0, i as int), '\n'),
            newlines <= i,
        decreases chars@.len() - i,
    {
        assert(chars@.subrange(0, i + 1).drop_last() == chars@.subrange(0, i as int));
        if chars[i] == '\n' {
            newlines = newlines + 1;
        }
        i = i + 1;
    }
    assert(chars@.subrange(0, chars@.len() as int) == chars@);
    let last = chars[chars.len() - 1];
    proof {
        lemma_count_char_le(chars@.drop_last(), '\n');
    }
    if last == '\n' {
        newlines
    } else {
        newlines + 1
    }
}

/// `lines` joined with newline separators.
pub open spec fn join_lines(lines: Seq<Seq<char>>) -> Seq<char>
    decreases lines.len(),
{
    if lines.len() == 0 {
        Seq::empty()
    } else if lines.len() == 1 {
        lines[0]
    } else {
        join_lines(lines.drop_last()) + seq!['\n'] + lines.last()
    }
}

/// Views of a sequence of strings.
pub open spec fn string_views(v: Seq<String>) -> Seq<Seq<char>> {
    v.map_values(|s: String| s@)
}

/// Views of a pushed sequence.
pub proof fn lemma_string_views_push(v: Seq<String>, x: String)
    ensures
        string_views(v.push(x)) == string_views(v).push(x@),
{
    assert(string_views(v.push(x)) =~= string_views(v).push(x@));
}

/// Views of a prefix extended by one element.
pub proof fn lemma_string_views_prefix(v: Seq<String>, i: int)
    requires
        0 <= i < v.len(),
    ensures
        string_views(v.subrange(0, i + 1)) == string_views(v.subrange(0, i)).push(v[i]@),
{
    assert(v.subrange(0, i + 1) == v.subrange(0, i).push(v[i]));
    lemma_string_views_push(v.subrange(0, i), v[i]);
}

/// Joins `lines` with newline separators.
pub fn join_with_newlines(lines: &Vec<String>) -> (out: String)
    ensures
        out@ == join_lines(string_views(lines@)),
{
    let mut out = String::new();
    let mut i: usize = 0;
    while i < lines.len()
        invariant
            i <= lines@.len(),
            out@ == join_lines(string_views(lines@.subrange(0, i as int))),
        decreases lines@.len() - i,
    {
        let ghost before = string_views(lines@.subrange(0, i as int));
        if i > 0 {
            push_char(&mut out, '\n');
        }
        out.append(lines[i].as_str());
        proof {
            let now = string_views(lines@.subrange(0, i + 1));
            assert(now.drop_last() == before);
            assert(now.last() == lines@[i as int]@);
            if i == 0 {
                assert(now.len() == 1);
                assert(out@ == now[0]);
            }
        }
        i = i + 1;
    }
    assert(lines@.subrange(0, lines@.len() as int) == lines@);
    out
}

} // verus!
