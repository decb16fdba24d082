//! Character-level string operations shared by the library.
//!
//! Every function here works on the `Seq<char>` view of its arguments, so the
//! contracts elsewhere in the crate can speak of strings as sequences.

use vstd::prelude::*;
use vstd::string::*;

verus! {

/// The view of an optional string.
pub open spec fn opt_view(s: Option<String>) -> Option<Seq<char>> {
    match s {
        Some(t) => Some(t@),
        None => None,
    }
}

/// A string holding exactly the one character `c`.
pub open spec fn is_single(s: Seq<char>, c: char) -> bool {
    s.len() == 1 && s[0] == c
}

/// Whether `s` holds exactly the one character `c`.
pub fn text_is_char(s: &str, c: char) -> (b: bool)
    ensures
        b == is_single(s@, c),
{
    let n = s.unicode_len();
    if n != 1 {
        return false;
    }
    s.get_char(0) == c
}

/// Whether the character `c` occurs in `s`.
pub fn contains_char(s: &str, c: char) -> (b: bool)
    ensures
        b == s@.contains(c),
{
    let n = s.unicode_len();
    let mut i: usize = 0;
    while i < n
        invariant
            n == s@.len(),
            i <= n,
            forall|j: int| 0 <= j < i ==> s@[j] != c,
        decreases n - i,
    {
        if s.get_char(i) == c {
            assert(s@[i as int] == c);
            return true;
        }
        i = i + 1;
    }
    false
}

/// A fresh string holding `a` followed by `b`.
pub fn concat(a: &str, b: &str) -> (r: String)
    ensures
        r@ == a@ + b@,
{
    let mut r = a.to_owned();
    r.append(b);
    r
}

/// A fresh string holding the characters of `s` from `from` up to `to`.
pub fn char_range(s: &str, from: usize, to: usize) -> (r: String)
    requires
        from <= to <= s@.len(),
    ensures
        r@ == s@.subrange(from as int, to as int),
{
    s.substring_char(from, to).to_owned()
}

/// A fresh string holding `s` without its last character.
pub fn without_last_char(s: &str) -> (r: String)
    requires
        s@.len() > 0,
    ensures
        r@ == s@.drop_last(),
{
    let n = s.unicode_len();
    char_range(s, 0, n - 1)
}

/// A fresh string holding `s` without its first character.
pub fn without_first_char(s: &str) -> (r: String)
    requires
        s@.len() > 0,
    ensures
        r@ == s@.drop_first(),
{
    let n = s.unicode_len();
    char_range(s, 1, n)
}

/// Whether `a` and `b` hold the same characters.
pub fn text_equals(a: &str, b: &str) -> (r: bool)
    ensures
        r == (a@ == b@),
{
    let n = a.unicode_len();
    if n != b.unicode_len() {
        return false;
    }
    let mut i: usize = 0;
    while i < n
        invariant
            n == a@.len(),
            n == b@.len(),
            i <= n,
            forall|j: int| 0 <= j < i ==> a@[j] == b@[j],
        decreases n - i,
    {
        if a.get_char(i) != b.get_char(i) {
            return false;
        }
        i = i + 1;
    }
    assert(a@ =~= b@);
    true
}

/// Whether `s` begins with `prefix`.
pub open spec fn has_prefix(s: Seq<char>, prefix: Seq<char>) -> bool {
    prefix.len() <= s.len() && s.subrange(0, prefix.len() as int) == prefix
}

/// Whether `s` begins with `prefix`.
pub fn starts_with(s: &str, prefix: &str) -> (r: bool)
    ensures
        r == has_prefix(s@, prefix@),
{
    let n = prefix.unicode_len();
    if n > s.unicode_len() {
        return false;
    }
    let mut i: usize = 0;
    while i < n
        invariant
            n == prefix@.len(),
            n <= s@.len(),
            i <= n,
            forall|j: int| 0 <= j < i ==> s@[j] == prefix@[j],
        decreases n - i,
    {
        if s.get_char(i) != prefix.get_char(i) {
            assert(s@.subrange(0, n as int)[i as int] != prefix@[i as int]);
            return false;
        }
        i = i + 1;
    }
    assert(s@.subrange(0, n as int) =~= prefix@);
    true
}

/// The characters of `s`, one pass over the string.
pub fn chars_of(s: &str) -> (v: Vec<char>)
    ensures
        v@ == s@,
{
    broadcast use vstd::string::group_string_axioms;
    let mut v: Vec<char> = Vec::new();
    for c in it: s.chars()
        invariant
            v@ == it.seq().take(it.index() as int),
    {
        v.push(c);
    }
    v
}

/// `parts` separated by `sep`.
pub open spec fn join_with(parts: Seq<Seq<char>>, sep: Seq<char>) -> Seq<char>
    decreases parts.len(),
{
    if parts.len() == 0 {
        Seq::empty()
    } else if parts.len() == 1 {
        parts[0]
    } else {
        join_with(parts.drop_last(), sep) + sep + parts.last()
    }
}

/// `parts` separated by `sep`.
pub fn join(parts: &Vec<String>, sep: &str) -> (r: String)
    ensures
        r@ == join_with(parts.deep_view(), sep@),
{
    let n = parts.len();
    if n == 0 {
        return String::new();
    }
    let mut r = parts[0].clone();
    let mut i: usize = 1;
    assert(parts.deep_view().take(1) =~= seq![parts.deep_view()[0]]);
    while i < n
        invariant
            n == parts.len(),
            1 <= i <= n,
            r@ == join_with(parts.deep_view().take(i as int), sep@),
        decreases n - i,
    {
        r.append(sep);
        r.append(parts[i].as_str());
        assert(parts.deep_view().take(i + 1).drop_last() =~= parts.deep_view().take(i as int));
        i = i + 1;
    }
    assert(parts.deep_view().take(n as int) =~= parts.deep_view());
    r
}

/// `String::push`: appends one character.
#[verifier::external_body]
fn push_char(s: &mut String, c: char)
    ensures
        final(s)@ == old(s)@.push(c),
{
    s.push(c);
}

/// A fresh string holding `chars[lo..hi]`.
pub fn string_of(chars: &Vec<char>, lo: usize, hi: usize) -> (s: String)
    requires
        lo <= hi <= chars@.len(),
    ensures
        s@ == chars@.subrange(lo as int, hi as int),
{
    let mut s = String::new();
    let mut i = lo;
    while i < hi
        invariant
            lo <= i <= hi <= chars@.len(),
            s@ == chars@.subrange(lo as int, i as int),
        decreases hi - i,
    {
        push_char(&mut s, chars[i]);
        assert(s@ =~= chars@.subrange(lo as int, i + 1));
        i = i + 1;
    }
    s
}

/// Whether `c` has the Unicode `White_Space` property, the test behind
/// `char::is_whitespace`, `str::split_whitespace` and `str::trim`.
pub open spec fn is_white_space(c: char) -> bool {
    let u = c as u32;
    (0x09 <= u <= 0x0d) || u == 0x20 || u == 0x85 || u == 0xa0 || u == 0x1680 || (0x2000 <= u
        <= 0x200a) || u == 0x2028 || u == 0x2029 || u == 0x202f || u == 0x205f || u == 0x3000
}

/// Whether `c` has the Unicode `White_Space` property.
pub fn white_space(c: char) -> (b: bool)
    ensures
        b == is_white_space(c),
{
    let u = c as u32;
    (0x09 <= u && u <= 0x0d) || u == 0x20 || u == 0x85 || u == 0xa0 || u == 0x1680 || (0x2000 <= u
        && u <= 0x200a) || u == 0x2028 || u == 0x2029 || u == 0x202f || u == 0x205f || u == 0x3000
}

/// Where the word starting at `i` ends: the first white space at or after
/// `i`, or the end of `s`.
pub open spec fn word_end(s: Seq<char>, i: nat) -> nat
    decreases s.len() - i,
{
    if i >= s.len() || is_white_space(s[i as int]) {
        i
    } else {
        word_end(s, i + 1)
    }
}

/// A word ends at or after where it starts, and within the text.
pub proof fn lemma_word_end_bounds(s: Seq<char>, i: nat)
    ensures
        i <= word_end(s, i),
        i <= s.len() ==> word_end(s, i) <= s.len(),
    decreases s.len() - i,
{
    if i < s.len() && !is_white_space(s[i as int]) {
        lemma_word_end_bounds(s, i + 1);
    }
}

/// The words of `s` from `i` on: the maximal runs of characters that are not
/// white space, as `str::split_whitespace` yields them.
pub open spec fn words_from(s: Seq<char>, i: nat) -> Seq<Seq<char>>
    decreases s.len() - i,
{
    if i >= s.len() {
        Seq::empty()
    } else if is_white_space(s[i as int]) {
        words_from(s, i + 1)
    } else {
        let j = word_end(s, i + 1);
        proof {
            lemma_word_end_bounds(s, i + 1);
        }
        seq![s.subrange(i as int, j as int)] + words_from(s, j)
    }
}

/// The words of `s`, as `str::split_whitespace` yields them.
pub open spec fn words(s: Seq<char>) -> Seq<Seq<char>> {
    words_from(s, 0)
}

proof fn lemma_words_shift(t: Seq<char>, lo: nat, hi: nat, i: nat)
    requires
        lo <= i <= hi <= t.len(),
    ensures
        word_end(t.subrange(lo as int, hi as int), (i - lo) as nat) + lo == word_end_in(t, i, hi),
        words_from(t.subrange(lo as int, hi as int), (i - lo) as nat) == words_in(t, i, hi),
    decreases hi - i,
{
    let s = t.subrange(lo as int, hi as int);
    if i < hi {
        lemma_words_shift(t, lo, hi, i + 1);
        if !is_white_space(t[i as int]) {
            lemma_word_end_in_bounds(t, i + 1, hi);
            lemma_words_shift(t, lo, hi, word_end_in(t, i + 1, hi));
            assert(t.subrange(i as int, word_end_in(t, i + 1, hi) as int) =~= s.subrange(
                (i - lo) as int,
                (word_end_in(t, i + 1, hi) - lo) as int,
            ));
        }
    }
}

/// `word_end` over the window `t[..hi]`.
spec fn word_end_in(t: Seq<char>, i: nat, hi: nat) -> nat
    decreases hi - i,
{
    if i >= hi || is_white_space(t[i as int]) {
        i
    } else {
        word_end_in(t, i + 1, hi)
    }
}

proof fn lemma_word_end_in_bounds(t: Seq<char>, i: nat, hi: nat)
    ensures
        i <= word_end_in(t, i, hi),
        i <= hi ==> word_end_in(t, i, hi) <= hi,
    decreases hi - i,
{
    if i < hi && !is_white_space(t[i as int]) {
        lemma_word_end_in_bounds(t, i + 1, hi);
    }
}

/// `words_from` over the window `t[..hi]`.
spec fn words_in(t: Seq<char>, i: nat, hi: nat) -> Seq<Seq<char>>
    decreases hi - i,
{
    if i >= hi {
        Seq::empty()
    } else if is_white_space(t[i as int]) {
        words_in(t, i + 1, hi)
    } else {
        let j = word_end_in(t, i + 1, hi);
        proof {
            lemma_word_end_in_bounds(t, i + 1, hi);
        }
        seq![t.subrange(i as int, j as int)] + words_in(t, j, hi)
    }
}

/// The words of `chars[lo..hi]`, as `str::split_whitespace` yields them.
pub fn split_words(chars: &Vec<char>, lo: usize, hi: usize) -> (ws: Vec<String>)
    requires
        lo <= hi <= chars@.len(),
    ensures
        ws.deep_view() == words(chars@.subrange(lo as int, hi as int)),
{
    let mut ws: Vec<String> = Vec::new();
    let mut i = lo;
    while i < hi
        invariant
            lo <= i <= hi <= chars@.len(),
            words_in(chars@, lo as nat, hi as nat) == ws.deep_view() + words_in(
                chars@,
                i as nat,
                hi as nat,
            ),
        decreases hi - i,
    {
        if white_space(chars[i]) {
            i = i + 1;
        } else {
            let mut j = i + 1;
            while j < hi && !white_space(chars[j])
                invariant
                    i < j <= hi <= chars@.len(),
                    word_end_in(chars@, (i + 1) as nat, hi as nat) == word_end_in(
                        chars@,
                        j as nat,
                        hi as nat,
                    ),
                decreases hi - j,
            {
                j = j + 1;
            }
            let w = string_of(chars, i, j);
            let ghost before = ws.deep_view();
            ws.push(w);
            assert(ws.deep_view() =~= before.push(chars@.subrange(i as int, j as int)));
            assert(ws.deep_view() + words_in(chars@, j as nat, hi as nat) =~= before + words_in(
                chars@,
                i as nat,
                hi as nat,
            ));
            i = j;
        }
    }
    assert(ws.deep_view() + words_in(chars@, i as nat, hi as nat) =~= ws.deep_view());
    proof {
        lemma_words_shift(chars@, lo as nat, hi as nat, lo as nat);
    }
    ws
}

/// The first newline at or after `i`, or the end of `t`.
pub open spec fn line_end(t: Seq<char>, i: nat) -> nat
    decreases t.len() - i,
{
    if i >= t.len() || t[i as int] == '\n' {
        i
    } else {
        line_end(t, i + 1)
    }
}

/// A line ends at or after where it starts, and within the text.
pub proof fn lemma_line_end_bounds(t: Seq<char>, i: nat)
    ensures
        i <= line_end(t, i),
        i <= t.len() ==> line_end(t, i) <= t.len(),
    decreases t.len() - i,
{
    if i < t.len() && t[i as int] != '\n' {
        lemma_line_end_bounds(t, i + 1);
    }
}

/// The line from `i` to the line end `j`, without the `\r` of a `\r\n`.
pub open spec fn line_at(t: Seq<char>, i: nat, j: nat) -> Seq<char> {
    if i < j < t.len() && t[j - 1] == '\r' {
        t.subrange(i as int, j - 1)
    } else {
        t.subrange(i as int, j as int)
    }
}

/// The lines of `t` from `i` on, as `str::lines` yields them: split at
/// `\n` or `\r\n`, the last line ending optional.
pub open spec fn lines_from(t: Seq<char>, i: nat) -> Seq<Seq<char>>
    decreases t.len() - i,
{
    if i >= t.len() {
        Seq::empty()
    } else {
        let j = line_end(t, i);
        proof {
            lemma_line_end_bounds(t, i);
        }
        seq![line_at(t, i, j)] + if j < t.len() {
            lines_from(t, j + 1)
        } else {
            Seq::empty()
        }
    }
}

/// The lines of `t`, as `str::lines` yields them.
pub open spec fn text_lines(t: Seq<char>) -> Seq<Seq<char>> {
    lines_from(t, 0)
}

/// The end of the line that starts at `i`.
pub fn find_line_end(chars: &Vec<char>, i: usize) -> (j: usize)
    requires
        i <= chars@.len(),
    ensures
        j == line_end(chars@, i as nat),
        i <= j <= chars@.len(),
{
    let mut j = i;
    while j < chars.len() && chars[j] != '\n'
        invariant
            i <= j <= chars@.len(),
            line_end(chars@, i as nat) == line_end(chars@, j as nat),
        decreases chars@.len() - j,
    {
        j = j + 1;
    }
    j
}

/// Whether `chars[lo..hi]` begins with `prefix`.
pub fn range_has_prefix(chars: &Vec<char>, lo: usize, hi: usize, prefix: &Vec<char>) -> (b: bool)
    requires
        lo <= hi <= chars@.len(),
    ensures
        b == has_prefix(chars@.subrange(lo as int, hi as int), prefix@),
{
    let m = prefix.len();
    if m > hi - lo {
        return false;
    }
    let mut k: usize = 0;
    while k < m
        invariant
            m == prefix@.len(),
            lo + m <= hi <= chars@.len(),
            k <= m,
            forall|q: int| 0 <= q < k ==> chars@[lo + q] == prefix@[q],
        decreases m - k,
    {
        if chars[lo + k] != prefix[k] {
            assert(chars@.subrange(lo as int, hi as int).subrange(0, m as int)[k as int] != prefix@[k as int]);
            return false;
        }
        k = k + 1;
    }
    assert(chars@.subrange(lo as int, hi as int).subrange(0, m as int) =~= prefix@);
    true
}

/// Whether `pat` occurs in `t` at `i`.
pub open spec fn matches_at(t: Seq<char>, i: int, pat: Seq<char>) -> bool {
    0 <= i && i + pat.len() <= t.len() && t.subrange(i, i + pat.len()) == pat
}

/// The first occurrence of `pat` in `t` at or after `i`, as `str::find`
/// reports it on `t[i..]` (but counted from the start of `t`).
pub open spec fn find_from(t: Seq<char>, i: nat, pat: Seq<char>) -> Option<nat>
    decreases t.len() + 1 - i,
{
    if i + pat.len() > t.len() {
        None
    } else if matches_at(t, i as int, pat) {
        Some(i)
    } else {
        find_from(t, i + 1, pat)
    }
}

/// A match found from `i` lies at or after `i`, inside the text.
pub proof fn lemma_find_from_bounds(t: Seq<char>, i: nat, pat: Seq<char>)
    ensures
        find_from(t, i, pat) matches Some(k) ==> i <= k && k + pat.len() <= t.len() && matches_at(
            t,
            k as int,
            pat,
        ),
    decreases t.len() + 1 - i,
{
    if i + pat.len() <= t.len() && !matches_at(t, i as int, pat) {
        lemma_find_from_bounds(t, i + 1, pat);
    }
}

/// The first occurrence of `pat` in `chars` at or after `i`.
pub fn find_in(chars: &Vec<char>, i: usize, pat: &Vec<char>) -> (r: Option<usize>)
    requires
        i <= chars@.len(),
    ensures
        r is None <==> find_from(chars@, i as nat, pat@) is None,
        r matches Some(k) ==> find_from(chars@, i as nat, pat@) == Some(k as nat),
        r matches Some(k) ==> i <= k && k + pat@.len() <= chars@.len(),
{
    let n = chars.len();
    let m = pat.len();
    if m > n {
        return None;
    }
    if i > n - m {
        return None;
    }
    let mut k = i;
    while k < n - m
        invariant
            n == chars@.len(),
            m == pat@.len(),
            m <= n,
            i <= k <= n - m,
            find_from(chars@, i as nat, pat@) == find_from(chars@, k as nat, pat@),
        decreases n - m - k,
    {
        assert(chars@.subrange(k as int, n as int).subrange(0, m as int) =~= chars@.subrange(
            k as int,
            k + m,
        ));
        if range_has_prefix(chars, k, n, pat) {
            return Some(k);
        }
        k = k + 1;
    }
    assert(chars@.subrange(k as int, n as int).subrange(0, m as int) =~= chars@.subrange(
        k as int,
        k + m,
    ));
    if range_has_prefix(chars, k, n, pat) {
        return Some(k);
    }
    assert(find_from(chars@, (k + 1) as nat, pat@) == None::<nat>);
    None
}

/// `s` without its leading white space.
pub open spec fn trim_front(s: Seq<char>) -> Seq<char>
    decreases s.len(),
{
    if s.len() > 0 && is_white_space(s[0]) {
        trim_front(s.drop_first())
    } else {
        s
    }
}

/// `s` without its trailing white space.
pub open spec fn trim_back(s: Seq<char>) -> Seq<char>
    decreases s.len(),
{
    if s.len() > 0 && is_white_space(s.last()) {
        trim_back(s.drop_last())
    } else {
        s
    }
}

/// `s` without leading and trailing white space, as `str::trim` gives it.
pub open spec fn trimmed(s: Seq<char>) -> Seq<char> {
    trim_back(trim_front(s))
}

/// `chars[lo..hi]` trimmed, as a fresh string.
pub fn trimmed_string(chars: &Vec<char>, lo: usize, hi: usize) -> (s: String)
    requires
        lo <= hi <= chars@.len(),
    ensures
        s@ == trimmed(chars@.subrange(lo as int, hi as int)),
{
    let mut a = lo;
    while a < hi && white_space(chars[a])
        invariant
            lo <= a <= hi <= chars@.len(),
            trim_front(chars@.subrange(lo as int, hi as int)) == trim_front(
                chars@.subrange(a as int, hi as int),
            ),
        decreases hi - a,
    {
        assert(chars@.subrange(a as int, hi as int).drop_first() =~= chars@.subrange(
            a + 1,
            hi as int,
        ));
        a = a + 1;
    }
    let mut b = hi;
    while b > a && white_space(chars[b - 1])
        invariant
            lo <= a <= b <= hi <= chars@.len(),
            trimmed(chars@.subrange(lo as int, hi as int)) == trim_back(
                chars@.subrange(a as int, b as int),
            ),
        decreases b - a,
    {
        assert(chars@.subrange(a as int, b as int).drop_last() =~= chars@.subrange(
            a as int,
            b - 1,
        ));
        b = b - 1;
    }
    string_of(chars, a, b)
}

} // verus!
