//! String helpers shared by the other modules, with their specifications.

use vstd::prelude::*;

verus! {

/// The characters of a string slice, in order.
pub(crate) fn chars_of(s: &str) -> (v: Vec<char>)
    ensures
        v@ == s@,
{
    broadcast use vstd::string::group_string_axioms;

    let mut v: Vec<char> = Vec::new();
    for c in it: s.chars()
        invariant
            v@.len() == it.index(),
            forall|j: int| 0 <= j < v@.len() ==> v@[j] == it.seq()[j],
    {
        v.push(c);
    }
    assert(v@ =~= s@);
    v
}

/// Appends one character to a string.
#[verifier::external_body]
pub(crate) fn push_char(s: &mut String, c: char)
    ensures
        final(s)@ == old(s)@.push(c),
{
    s.push(c)
}

/// Appends a string slice to a string.
pub(crate) fn push_str(s: &mut String, t: &str)
    ensures
        final(s)@ == old(s)@ + t@,
{
    s.append(t)
}

/// The decimal digit for `d` (`0 <= d < 10`).
pub open spec fn digit_char(d: nat) -> char {
    if d == 0 { '0' }
    else if d == 1 { '1' }
    else if d == 2 { '2' }
    else if d == 3 { '3' }
    else if d == 4 { '4' }
    else if d == 5 { '5' }
    else if d == 6 { '6' }
    else if d == 7 { '7' }
    else if d == 8 { '8' }
    else { '9' }
}

/// The decimal notation of a natural number, without leading zeros.
pub open spec fn decimal(n: nat) -> Seq<char>
    decreases n,
{
    if n < 10 {
        seq![digit_char(n)]
    } else {
        decimal(n / 10).push(digit_char(n % 10))
    }
}

fn digit(d: u64) -> (c: char)
    requires
        d < 10,
    ensures
        c == digit_char(d as nat),
{
    if d == 0 { '0' }
    else if d == 1 { '1' }
    else if d == 2 { '2' }
    else if d == 3 { '3' }
    else if d == 4 { '4' }
    else if d == 5 { '5' }
    else if d == 6 { '6' }
    else if d == 7 { '7' }
    else if d == 8 { '8' }
    else { '9' }
}

/// Appends the decimal notation of `n` to a character buffer.
pub fn push_decimal_chars(out: &mut Vec<char>, n: u64)
    ensures
        final(out)@ == old(out)@ + decimal(n as nat),
    decreases n,
{
    if n < 10 {
        out.push(digit(n));
    } else {
        push_decimal_chars(out, n / 10);
        out.push(digit(n % 10));
    }
}

/// Appends the decimal notation of `n`.
pub fn push_decimal(out: &mut String, n: u64)
    ensures
        final(out)@ == old(out)@ + decimal(n as nat),
    decreases n,
{
    if n < 10 {
        push_char(out, digit(n));
    } else {
        push_decimal(out, n / 10);
        push_char(out, digit(n % 10));
    }
}

} // verus!

verus! {

/// The characters of a character slice gathered into a string.
pub(crate) fn string_from_chars(v: &[char]) -> (s: String)
    ensures
        s@ == v@,
{
    let mut s = String::new();
    let mut i: usize = 0;
    while i < v.len()
        invariant
            i <= v@.len(),
            s@ == v@.take(i as int),
        decreases v@.len() - i,
    {
        push_char(&mut s, v[i]);
        i += 1;
        assert(s@ =~= v@.take(i as int));
    }
    assert(v@.take(v@.len() as int) =~= v@);
    s
}

/// An ASCII character.
pub open spec fn is_ascii_char(c: char) -> bool {
    c <= '\u{7f}'
}

/// Every character is ASCII.
pub open spec fn is_ascii_text(s: Seq<char>) -> bool {
    forall|i: int| 0 <= i < s.len() ==> is_ascii_char(#[trigger] s[i])
}

/// An ASCII lower-case letter.
pub open spec fn is_ascii_lower(c: char) -> bool {
    'a' <= c && c <= 'z'
}

/// An ASCII upper-case letter.
pub open spec fn is_ascii_upper(c: char) -> bool {
    'A' <= c && c <= 'Z'
}

/// An ASCII digit.
pub open spec fn is_ascii_digit_char(c: char) -> bool {
    '0' <= c && c <= '9'
}

/// The upper-case form of an ASCII letter; other characters unchanged.
pub open spec fn ascii_upper(c: char) -> char {
    if is_ascii_lower(c) {
        ((c as u32) - 32) as char
    } else {
        c
    }
}

/// The lower-case form of an ASCII letter; other characters unchanged.
pub open spec fn ascii_lower(c: char) -> char {
    if is_ascii_upper(c) {
        ((c as u32) + 32) as char
    } else {
        c
    }
}

/// Name for what `str::to_uppercase` returns on text that is not all ASCII:
/// the Unicode upper-case mapping.
pub uninterp spec fn unicode_uppercase(s: Seq<char>) -> Seq<char>;

/// Name for what `str::to_lowercase` returns on text that is not all ASCII:
/// the Unicode lower-case mapping.
pub uninterp spec fn unicode_lowercase(s: Seq<char>) -> Seq<char>;

/// Name for what `char::is_alphanumeric` returns on a character that is not
/// ASCII (Unicode `Alphabetic` or `Numeric`).
pub uninterp spec fn unicode_alphanumeric(c: char) -> bool;

/// What `str::to_uppercase` returns: on ASCII text each letter `a`-`z`
/// becomes `A`-`Z` and every other character stays; otherwise the Unicode
/// mapping.
pub open spec fn uppercase(s: Seq<char>) -> Seq<char> {
    if is_ascii_text(s) {
        s.map_values(|c: char| ascii_upper(c))
    } else {
        unicode_uppercase(s)
    }
}

/// What `str::to_lowercase` returns: on ASCII text each letter `A`-`Z`
/// becomes `a`-`z` and every other character stays; otherwise the Unicode
/// mapping.
pub open spec fn lowercase(s: Seq<char>) -> Seq<char> {
    if is_ascii_text(s) {
        s.map_values(|c: char| ascii_lower(c))
    } else {
        unicode_lowercase(s)
    }
}

/// What `char::is_alphanumeric` returns: among ASCII characters exactly the
/// letters and digits; otherwise the Unicode properties.
pub open spec fn is_alphanumeric(c: char) -> bool {
    if is_ascii_char(c) {
        is_ascii_lower(c) || is_ascii_upper(c) || is_ascii_digit_char(c)
    } else {
        unicode_alphanumeric(c)
    }
}

/// `str::to_uppercase`. Claimed: the result is `uppercase` of the argument:
/// on ASCII text the ASCII letters upper-cased (the std documentation of
/// `to_ascii_uppercase` points to `to_uppercase` for upper-casing ASCII and
/// non-ASCII alike), otherwise the Unicode mapping, left to std.
#[verifier::external_body]
pub(crate) fn to_uppercase(s: &str) -> (r: String)
    ensures
        r@ == uppercase(s@),
        !is_ascii_text(s@) ==> r@ == unicode_uppercase(s@),
{
    s.to_uppercase()
}

/// `str::to_lowercase`. Claimed: the result is `lowercase` of the argument:
/// on ASCII text the ASCII letters lower-cased, otherwise the Unicode
/// mapping, left to std.
#[verifier::external_body]
pub(crate) fn to_lowercase(s: &str) -> (r: String)
    ensures
        r@ == lowercase(s@),
        !is_ascii_text(s@) ==> r@ == unicode_lowercase(s@),
{
    s.to_lowercase()
}

/// `char::is_alphanumeric`. Claimed: the result is `is_alphanumeric(c)`:
/// for an ASCII character, whether it is a letter or a digit (the Unicode
/// `Alphabetic` and `Numeric` characters of ASCII).
#[verifier::external_body]
pub(crate) fn char_is_alphanumeric(c: char) -> (b: bool)
    ensures
        b == is_alphanumeric(c),
        !is_ascii_char(c) ==> b == unicode_alphanumeric(c),
{
    c.is_alphanumeric()
}

/// The upper-case form of one character, for an ASCII character.
fn ascii_upper_of(c: char) -> (r: char)
    requires
        is_ascii_char(c),
    ensures
        r == ascii_upper(c),
{
    if 'a' <= c && c <= 'z' {
        let b: u8 = c as u8;
        let u: u8 = b - 32;
        assert(u as u32 == (c as u32) - 32);
        u as char
    } else {
        c
    }
}

/// The lower-case form of one character, for an ASCII character.
fn ascii_lower_of(c: char) -> (r: char)
    requires
        is_ascii_char(c),
    ensures
        r == ascii_lower(c),
{
    if 'A' <= c && c <= 'Z' {
        let b: u8 = c as u8;
        let u: u8 = b + 32;
        assert(u as u32 == (c as u32) + 32);
        u as char
    } else {
        c
    }
}

/// Whether every character is ASCII.
fn all_ascii(v: &[char]) -> (r: bool)
    ensures
        r == is_ascii_text(v@),
{
    let mut i: usize = 0;
    while i < v.len()
        invariant
            i <= v@.len(),
            forall|k: int| 0 <= k < i ==> is_ascii_char(#[trigger] v@[k]),
        decreases v@.len() - i,
    {
        if v[i] > '\u{7f}' {
            return false;
        }
        i += 1;
    }
    true
}

/// Upper-case mapping of a character sequence, as characters: ASCII text is
/// mapped here, other text by std.
pub(crate) fn upper_chars(v: &[char]) -> (r: Vec<char>)
    ensures
        r@ == uppercase(v@),
{
    if all_ascii(v) {
        let mut r: Vec<char> = Vec::new();
        let mut i: usize = 0;
        while i < v.len()
            invariant
                i <= v@.len(),
                is_ascii_text(v@),
                r@ == v@.take(i as int).map_values(|c: char| ascii_upper(c)),
            decreases v@.len() - i,
        {
            r.push(ascii_upper_of(v[i]));
            i += 1;
            assert(r@ =~= v@.take(i as int).map_values(|c: char| ascii_upper(c)));
        }
        assert(v@.take(v@.len() as int) =~= v@);
        r
    } else {
        let s = string_from_chars(v);
        let u = to_uppercase(s.as_str());
        chars_of(u.as_str())
    }
}

/// Lower-case mapping of a character sequence, as characters: ASCII text is
/// mapped here, other text by std.
pub(crate) fn lower_chars(v: &[char]) -> (r: Vec<char>)
    ensures
        r@ == lowercase(v@),
{
    if all_ascii(v) {
        let mut r: Vec<char> = Vec::new();
        let mut i: usize = 0;
        while i < v.len()
            invariant
                i <= v@.len(),
                is_ascii_text(v@),
                r@ == v@.take(i as int).map_values(|c: char| ascii_lower(c)),
            decreases v@.len() - i,
        {
            r.push(ascii_lower_of(v[i]));
            i += 1;
            assert(r@ =~= v@.take(i as int).map_values(|c: char| ascii_lower(c)));
        }
        assert(v@.take(v@.len() as int) =~= v@);
        r
    } else {
        let s = string_from_chars(v);
        let u = to_lowercase(s.as_str());
        chars_of(u.as_str())
    }
}

/// Lower-case mapping of a string.
pub(crate) fn lower_string(s: &str) -> (r: String)
    ensures
        r@ == lowercase(s@),
{
    let c = chars_of(s);
    let l = lower_chars(c.as_slice());
    string_from_chars(l.as_slice())
}

/// Characters that may form an SQL word: alphanumerics and `_`.
pub open spec fn is_word_char(c: char) -> bool {
    is_alphanumeric(c) || c == '_'
}

pub(crate) fn word_char(c: char) -> (b: bool)
    ensures
        b == is_word_char(c),
{
    if c <= '\u{7f}' {
        ('a' <= c && c <= 'z') || ('A' <= c && c <= 'Z') || ('0' <= c && c <= '9') || c == '_'
    } else {
        char_is_alphanumeric(c) || c == '_'
    }
}

/// Unicode `White_Space`, the set that `char::is_whitespace` tests.
pub open spec fn is_whitespace(c: char) -> bool {
    let n = c as u32;
    ||| 0x09 <= n <= 0x0D
    ||| n == 0x20
    ||| n == 0x85
    ||| n == 0xA0
    ||| n == 0x1680
    ||| 0x2000 <= n <= 0x200A
    ||| n == 0x2028
    ||| n == 0x2029
    ||| n == 0x202F
    ||| n == 0x205F
    ||| n == 0x3000
}

pub fn whitespace(c: char) -> (b: bool)
    ensures
        b == is_whitespace(c),
{
    let n = c as u32;
    (0x09 <= n && n <= 0x0D) || n == 0x20 || n == 0x85 || n == 0xA0 || n == 0x1680 || (0x2000
        <= n && n <= 0x200A) || n == 0x2028 || n == 0x2029 || n == 0x202F || n == 0x205F || n
        == 0x3000
}

/// `p` is a prefix of `s`.
pub open spec fn starts_with(s: Seq<char>, p: Seq<char>) -> bool {
    p.len() <= s.len() && s.subrange(0, p.len() as int) == p
}

/// `p` is a suffix of `s`.
pub open spec fn ends_with(s: Seq<char>, p: Seq<char>) -> bool {
    p.len() <= s.len() && s.subrange(s.len() - p.len(), s.len() as int) == p
}

/// `p` occurs in `s` starting at index `i`.
pub open spec fn occurs_at(s: Seq<char>, p: Seq<char>, i: int) -> bool {
    0 <= i && i + p.len() <= s.len() && s.subrange(i, i + p.len()) == p
}

/// `p` occurs somewhere in `s`.
pub open spec fn contains_seq(s: Seq<char>, p: Seq<char>) -> bool {
    exists|i: int| occurs_at(s, p, i)
}

pub fn chars_eq(a: &[char], b: &[char]) -> (r: bool)
    ensures
        r == (a@ == b@),
{
    if a.len() != b.len() {
        return false;
    }
    let mut i: usize = 0;
    while i < a.len()
        invariant
            a@.len() == b@.len(),
            i <= a@.len(),
            forall|j: int| 0 <= j < i ==> a@[j] == b@[j],
        decreases a@.len() - i,
    {
        if a[i] != b[i] {
            return false;
        }
        i += 1;
    }
    assert(a@ =~= b@);
    true
}

/// Whether `p` occurs in `s` at `start`.
fn matches_at(s: &[char], p: &[char], start: usize) -> (r: bool)
    requires
        start + p@.len() <= s@.len(),
    ensures
        r == occurs_at(s@, p@, start as int),
{
    let mut j: usize = 0;
    while j < p.len()
        invariant
            start + p@.len() <= s@.len(),
            s@.len() == s.len(),
            j <= p@.len(),
            forall|k: int| 0 <= k < j ==> s@[start + k] == p@[k],
        decreases p@.len() - j,
    {
        if s[start + j] != p[j] {
            assert(s@.subrange(start as int, start + p@.len())[j as int] != p@[j as int]);
            return false;
        }
        j += 1;
    }
    assert(s@.subrange(start as int, start + p@.len()) =~= p@);
    true
}

pub fn starts_with_chars(s: &[char], p: &[char]) -> (r: bool)
    ensures
        r == starts_with(s@, p@),
{
    if p.len() > s.len() {
        false
    } else {
        matches_at(s, p, 0)
    }
}

pub fn ends_with_chars(s: &[char], p: &[char]) -> (r: bool)
    ensures
        r == ends_with(s@, p@),
{
    if p.len() > s.len() {
        false
    } else {
        matches_at(s, p, s.len() - p.len())
    }
}

pub fn contains_chars(s: &[char], p: &[char]) -> (r: bool)
    ensures
        r == contains_seq(s@, p@),
{
    if p.len() > s.len() {
        return false;
    }
    let last = s.len() - p.len();
    let mut i: usize = 0;
    while i < last
        invariant
            last == s@.len() - p@.len(),
            i <= last,
            forall|k: int| 0 <= k < i ==> !occurs_at(s@, p@, k),
        decreases last - i,
    {
        if matches_at(s, p, i) {
            return true;
        }
        i += 1;
    }
    matches_at(s, p, last)
}

/// The longest suffix of `s` made of word characters.
pub open spec fn trailing_word(s: Seq<char>) -> Seq<char>
    decreases s.len(),
{
    if s.len() > 0 && is_word_char(s.last()) {
        trailing_word(s.drop_last()).push(s.last())
    } else {
        seq![]
    }
}

proof fn lemma_trailing_word_split(s: Seq<char>, j: int)
    requires
        0 <= j <= s.len(),
        forall|k: int| j <= k < s.len() ==> is_word_char(s[k]),
    ensures
        trailing_word(s) == trailing_word(s.subrange(0, j)) + s.subrange(j, s.len() as int),
    decreases s.len() - j,
{
    if j < s.len() {
        lemma_trailing_word_split(s.drop_last(), j);
        assert(s.drop_last().subrange(0, j) =~= s.subrange(0, j));
        assert(s.drop_last().subrange(j, s.len() - 1).push(s.last()) =~= s.subrange(
            j,
            s.len() as int,
        ));
    } else {
        assert(s.subrange(0, j) =~= s);
        assert(s.subrange(j, s.len() as int) =~= Seq::<char>::empty());
    }
}

/// Number of word characters at the end of `s`.
pub fn trailing_word_len(s: &[char]) -> (n: usize)
    ensures
        n == trailing_word(s@).len(),
        n <= s@.len(),
        trailing_word(s@) == s@.subrange(s@.len() - n, s@.len() as int),
{
    let mut j = s.len();
    while j > 0 && word_char(s[j - 1])
        invariant
            j <= s@.len(),
            forall|k: int| j <= k < s@.len() ==> is_word_char(s@[k]),
        decreases j,
    {
        j -= 1;
    }
    proof {
        lemma_trailing_word_split(s@, j as int);
        let pre = s@.subrange(0, j as int);
        if j > 0 {
            assert(pre.last() == s@[j - 1]);
        }
        assert(trailing_word(pre) =~= Seq::<char>::empty());
    }
    s.len() - j
}

/// Index of the last occurrence of `c` in `s`.
pub open spec fn last_index_of(s: Seq<char>, c: char) -> Option<int>
    decreases s.len(),
{
    if s.len() == 0 {
        None
    } else if s.last() == c {
        Some(s.len() - 1)
    } else {
        last_index_of(s.drop_last(), c)
    }
}

pub fn rfind_char(s: &[char], c: char) -> (r: Option<usize>)
    ensures
        r matches Some(i) ==> last_index_of(s@, c) == Some(i as int) && i < s@.len(),
        r is None ==> last_index_of(s@, c) is None,
{
    let mut j = s.len();
    assert(s@.subrange(0, j as int) =~= s@);
    while j > 0
        invariant
            j <= s@.len(),
            last_index_of(s@, c) == last_index_of(s@.subrange(0, j as int), c),
        decreases j,
    {
        proof {
            assert(s@.subrange(0, j as int).drop_last() =~= s@.subrange(0, j - 1));
        }
        if s[j - 1] == c {
            return Some(j - 1);
        }
        j -= 1;
    }
    proof {
        assert(s@.subrange(0, 0) =~= Seq::<char>::empty());
    }
    None
}

} // verus!

verus! {

/// Lexicographic order on character sequences, comparing code points; this
/// is the order of `str`'s `Ord` (UTF-8 preserves code-point order).
pub open spec fn lex_le(a: Seq<char>, b: Seq<char>) -> bool
    decreases a.len(),
{
    if a.len() == 0 {
        true
    } else if b.len() == 0 {
        false
    } else if a[0] != b[0] {
        (a[0] as int) < (b[0] as int)
    } else {
        lex_le(a.drop_first(), b.drop_first())
    }
}

pub proof fn lemma_lex_total(a: Seq<char>, b: Seq<char>)
    ensures
        lex_le(a, b) || lex_le(b, a),
    decreases a.len(),
{
    if a.len() > 0 && b.len() > 0 && a[0] == b[0] {
        lemma_lex_total(a.drop_first(), b.drop_first());
    }
}

pub proof fn lemma_lex_trans(a: Seq<char>, b: Seq<char>, c: Seq<char>)
    requires
        lex_le(a, b),
        lex_le(b, c),
    ensures
        lex_le(a, c),
    decreases a.len(),
{
    if a.len() > 0 && b.len() > 0 && c.len() > 0 && a[0] == b[0] && b[0] == c[0] {
        lemma_lex_trans(a.drop_first(), b.drop_first(), c.drop_first());
    }
}

pub fn lex_le_chars(a: &[char], b: &[char]) -> (r: bool)
    ensures
        r == lex_le(a@, b@),
{
    let mut i: usize = 0;
    proof {
        assert(a@.skip(0) =~= a@);
        assert(b@.skip(0) =~= b@);
    }
    while i < a.len() && i < b.len() && a[i] == b[i]
        invariant
            i <= a@.len(),
            i <= b@.len(),
            lex_le(a@, b@) == lex_le(a@.skip(i as int), b@.skip(i as int)),
        decreases a@.len() - i,
    {
        proof {
            assert(a@.skip(i as int).drop_first() =~= a@.skip(i + 1));
            assert(b@.skip(i as int).drop_first() =~= b@.skip(i + 1));
        }
        i += 1;
    }
    if i == a.len() {
        true
    } else if i == b.len() {
        false
    } else {
        a[i] < b[i]
    }
}

} // verus!

verus! {

/// The characters of `s` from `lo` up to (not including) `hi`.
pub fn sub_chars(s: &[char], lo: usize, hi: usize) -> (r: Vec<char>)
    requires
        lo <= hi <= s@.len(),
    ensures
        r@ == s@.subrange(lo as int, hi as int),
{
    let mut r: Vec<char> = Vec::new();
    let mut i = lo;
    while i < hi
        invariant
            lo <= i <= hi,
            hi <= s@.len(),
            r@ == s@.subrange(lo as int, i as int),
        decreases hi - i,
    {
        r.push(s[i]);
        i += 1;
        assert(r@ =~= s@.subrange(lo as int, i as int));
    }
    r
}

} // verus!

verus! {

/// `s` cut at each `c` (the pieces of `str::split`; always at least one).
pub open spec fn split_on(s: Seq<char>, c: char) -> Seq<Seq<char>>
    decreases s.len(),
{
    if s.len() == 0 {
        seq![seq![]]
    } else {
        let r = split_on(s.drop_last(), c);
        if s.last() == c {
            r.push(seq![])
        } else {
            r.update(r.len() - 1, r.last().push(s.last()))
        }
    }
}

pub proof fn lemma_split_on_len(s: Seq<char>, c: char)
    ensures
        split_on(s, c).len() >= 1,
    decreases s.len(),
{
    if s.len() > 0 {
        lemma_split_on_len(s.drop_last(), c);
    }
}

/// Drops one `\r` at the end.
pub open spec fn strip_cr(l: Seq<char>) -> Seq<char> {
    if l.len() > 0 && l.last() == '\r' {
        l.drop_last()
    } else {
        l
    }
}

/// The lines of `s` as `str::lines` yields them: split at `\n`, a `\r` before
/// a `\n` dropped, and no empty last line after a final `\n`.
pub open spec fn lines(s: Seq<char>) -> Seq<Seq<char>> {
    let parts = split_on(s, '\n');
    let n = parts.len();
    let ended = parts.drop_last().map_values(|l: Seq<char>| strip_cr(l));
    if parts[n - 1].len() == 0 {
        ended
    } else {
        ended.push(parts[n - 1])
    }
}

/// `s` without leading whitespace.
pub open spec fn trim_start(s: Seq<char>) -> Seq<char>
    decreases s.len(),
{
    if s.len() > 0 && is_whitespace(s[0]) {
        trim_start(s.drop_first())
    } else {
        s
    }
}

/// `s` without trailing whitespace.
pub open spec fn trim_end(s: Seq<char>) -> Seq<char>
    decreases s.len(),
{
    if s.len() > 0 && is_whitespace(s.last()) {
        trim_end(s.drop_last())
    } else {
        s
    }
}

/// `s` without leading and trailing whitespace (`str::trim`).
pub open spec fn trim(s: Seq<char>) -> Seq<char> {
    trim_end(trim_start(s))
}

/// Parts joined with `sep` between consecutive parts.
pub open spec fn join(parts: Seq<Seq<char>>, sep: Seq<char>) -> Seq<char>
    decreases parts.len(),
{
    if parts.len() == 0 {
        seq![]
    } else if parts.len() == 1 {
        parts[0]
    } else {
        join(parts.drop_last(), sep) + sep + parts.last()
    }
}

/// The whitespace-separated words of `s` (`str::split_whitespace`).
pub open spec fn words(s: Seq<char>) -> Seq<Seq<char>>
    decreases s.len(),
{
    if s.len() == 0 {
        seq![]
    } else {
        let r = words(s.drop_last());
        if is_whitespace(s.last()) {
            r
        } else if s.len() >= 2 && !is_whitespace(s[s.len() - 2]) && r.len() > 0 {
            r.update(r.len() - 1, r.last().push(s.last()))
        } else {
            r.push(seq![s.last()])
        }
    }
}

pub fn trim_start_chars(s: &[char]) -> (r: Vec<char>)
    ensures
        r@ == trim_start(s@),
{
    let mut i: usize = 0;
    assert(s@.skip(0) =~= s@);
    while i < s.len() && whitespace(s[i])
        invariant
            i <= s@.len(),
            trim_start(s@) == trim_start(s@.skip(i as int)),
        decreases s@.len() - i,
    {
        assert(s@.skip(i as int).drop_first() =~= s@.skip(i + 1));
        i += 1;
    }
    let r = sub_chars(s, i, s.len());
    assert(r@ =~= s@.skip(i as int));
    r
}

pub fn trim_end_chars(s: &[char]) -> (r: Vec<char>)
    ensures
        r@ == trim_end(s@),
{
    let mut j: usize = s.len();
    assert(s@.subrange(0, j as int) =~= s@);
    while j > 0 && whitespace(s[j - 1])
        invariant
            j <= s@.len(),
            trim_end(s@) == trim_end(s@.subrange(0, j as int)),
        decreases j,
    {
        assert(s@.subrange(0, j as int).drop_last() =~= s@.subrange(0, j - 1));
        j -= 1;
    }
    sub_chars(s, 0, j)
}

pub fn trim_chars(s: &[char]) -> (r: Vec<char>)
    ensures
        r@ == trim(s@),
{
    let a = trim_start_chars(s);
    trim_end_chars(a.as_slice())
}

/// Joins the parts with `sep`.
pub fn join_chars(parts: &Vec<Vec<char>>, sep: &[char]) -> (r: Vec<char>)
    ensures
        r@ == join(parts@.map_values(|p: Vec<char>| p@), sep@),
{
    let ghost ps = parts@.map_values(|p: Vec<char>| p@);
    let mut r: Vec<char> = Vec::new();
    let mut i: usize = 0;
    while i < parts.len()
        invariant
            i <= parts@.len(),
            ps == parts@.map_values(|p: Vec<char>| p@),
            r@ == join(ps.take(i as int), sep@),
        decreases parts@.len() - i,
    {
        proof {
            assert(ps.take(i + 1).drop_last() =~= ps.take(i as int));
        }
        if i > 0 {
            append_chars(&mut r, sep);
        }
        append_chars(&mut r, parts[i].as_slice());
        i += 1;
        proof {
            if i == 1 {
                assert(r@ =~= join(ps.take(1), sep@));
            }
        }
    }
    assert(ps.take(parts@.len() as int) =~= ps);
    r
}

/// Appends the characters of `t`.
pub fn append_chars(r: &mut Vec<char>, t: &[char])
    ensures
        final(r)@ == old(r)@ + t@,
{
    let mut i: usize = 0;
    while i < t.len()
        invariant
            i <= t@.len(),
            r@ == old(r)@ + t@.subrange(0, i as int),
        decreases t@.len() - i,
    {
        r.push(t[i]);
        i += 1;
        assert(r@ =~= old(r)@ + t@.subrange(0, i as int));
    }
    assert(t@.subrange(0, t@.len() as int) =~= t@);
}

} // verus!

verus! {

/// Views of a vector of character vectors.
pub open spec fn vecs_view(v: Seq<Vec<char>>) -> Seq<Seq<char>> {
    v.map_values(|p: Vec<char>| p@)
}

/// The pieces of `s` cut at each `c`.
pub fn split_chars(s: &[char], c: char) -> (r: Vec<Vec<char>>)
    ensures
        vecs_view(r@) == split_on(s@, c),
{
    let mut done: Vec<Vec<char>> = Vec::new();
    let mut cur: Vec<char> = Vec::new();
    let mut i: usize = 0;
    assert(vecs_view(done@).push(cur@) =~= split_on(s@.take(0), c));
    while i < s.len()
        invariant
            i <= s@.len(),
            vecs_view(done@).push(cur@) == split_on(s@.take(i as int), c),
        decreases s@.len() - i,
    {
        assert(s@.take(i + 1).drop_last() =~= s@.take(i as int));
        let ghost prev = vecs_view(done@).push(cur@);
        if s[i] == c {
            done.push(cur);
            cur = Vec::new();
            assert(vecs_view(done@).push(cur@) =~= prev.push(seq![]));
        } else {
            cur.push(s[i]);
            assert(vecs_view(done@).push(cur@) =~= prev.update(
                prev.len() - 1,
                prev.last().push(s@[i as int]),
            ));
        }
        i += 1;
    }
    assert(s@.take(s@.len() as int) =~= s@);
    let ghost before = vecs_view(done@);
    done.push(cur);
    assert(vecs_view(done@) =~= before.push(cur@));
    done
}

/// Drops one `\r` at the end.
pub fn strip_cr_chars(l: Vec<char>) -> (r: Vec<char>)
    ensures
        r@ == strip_cr(l@),
{
    let mut l = l;
    if l.len() > 0 && l[l.len() - 1] == '\r' {
        l.pop();
    }
    l
}

/// The lines of `s`, as `str::lines` yields them.
pub fn lines_chars(s: &[char]) -> (r: Vec<Vec<char>>)
    ensures
        vecs_view(r@) == lines(s@),
{
    let parts = split_chars(s, '\n');
    proof {
        lemma_split_on_len(s@, '\n');
    }
    let n = parts.len();
    let mut r: Vec<Vec<char>> = Vec::new();
    let ghost pv = vecs_view(parts@);
    let mut i: usize = 0;
    while i + 1 < n
        invariant
            n == parts@.len(),
            n >= 1,
            pv == vecs_view(parts@),
            i + 1 <= n,
            r@.len() == i,
            forall|k: int| 0 <= k < i ==> r@[k]@ == strip_cr(pv[k]),
        decreases n - i,
    {
        let raw = sub_chars(parts[i].as_slice(), 0, parts[i].len());
        assert(raw@ =~= pv[i as int]);
        let line = strip_cr_chars(raw);
        r.push(line);
        i += 1;
    }
    let ghost ended = pv.drop_last().map_values(|l: Seq<char>| strip_cr(l));
    assert(vecs_view(r@) =~= ended);
    if parts[n - 1].len() > 0 {
        let last = sub_chars(parts[n - 1].as_slice(), 0, parts[n - 1].len());
        assert(last@ =~= pv[n - 1]);
        r.push(last);
        assert(vecs_view(r@) =~= ended.push(pv[n - 1]));
    }
    r
}

/// The whitespace-separated words of `s`.
pub fn words_chars(s: &[char]) -> (r: Vec<Vec<char>>)
    ensures
        vecs_view(r@) == words(s@),
{
    let mut r: Vec<Vec<char>> = Vec::new();
    let mut i: usize = 0;
    assert(vecs_view(r@) =~= words(s@.take(0)));
    while i < s.len()
        invariant
            i <= s@.len(),
            vecs_view(r@) == words(s@.take(i as int)),
            forall|k: int| 0 <= k < r@.len() ==> r@[k]@.len() > 0,
            i > 0 && !is_whitespace(s@[i - 1]) ==> r@.len() > 0,
        decreases s@.len() - i,
    {
        let ghost t = s@.take(i + 1);
        assert(t.drop_last() =~= s@.take(i as int));
        let ghost prev = vecs_view(r@);
        if whitespace(s[i]) {
        } else if i >= 1 && !whitespace(s[i - 1]) && r.len() > 0 {
            let last = r.len() - 1;
            let mut w = sub_chars(r[last].as_slice(), 0, r[last].len());
            assert(w@ =~= prev[last as int]);
            w.push(s[i]);
            r.set(last, w);
            assert(vecs_view(r@) =~= prev.update(prev.len() - 1, prev.last().push(s@[i as int])));
        } else {
            let mut w: Vec<char> = Vec::new();
            w.push(s[i]);
            r.push(w);
            assert(vecs_view(r@) =~= prev.push(seq![s@[i as int]]));
        }
        i += 1;
    }
    assert(s@.take(s@.len() as int) =~= s@);
    r
}

} // verus!

verus! {

/// Upper-casing ASCII text works character by character: it keeps the
/// length, turns each letter `a`-`z` into its capital and keeps every other
/// character; so it distributes over concatenation, is idempotent, and
/// lower-casing afterwards gives the lower-case form of the text.
pub proof fn law_uppercase_ascii(a: Seq<char>, b: Seq<char>)
    requires
        is_ascii_text(a),
        is_ascii_text(b),
    ensures
        uppercase(a + b) == uppercase(a) + uppercase(b),
        uppercase(a).len() == a.len(),
        is_ascii_text(uppercase(a)),
        forall|i: int|
            0 <= i < a.len() ==> (is_ascii_lower(a[i]) ==> is_ascii_upper(#[trigger] uppercase(a)[i])
                && uppercase(a)[i] as u32 == a[i] as u32 - 32),
        forall|i: int| 0 <= i < a.len() && !is_ascii_lower(a[i]) ==> #[trigger] uppercase(a)[i] == a[i],
        uppercase(uppercase(a)) == uppercase(a),
        lowercase(uppercase(a)) == lowercase(a),
{
    let ab = a + b;
    assert(is_ascii_text(ab)) by {
        assert forall|i: int| 0 <= i < ab.len() implies is_ascii_char(#[trigger] ab[i]) by {
            if i < a.len() {
                assert(ab[i] == a[i]);
            } else {
                assert(ab[i] == b[i - a.len()]);
            }
        }
    }
    assert(uppercase(ab) =~= uppercase(a) + uppercase(b));
    let u = uppercase(a);
    assert(is_ascii_text(u)) by {
        assert forall|i: int| 0 <= i < u.len() implies is_ascii_char(#[trigger] u[i]) by {
            assert(is_ascii_char(a[i]));
        }
    }
    assert(uppercase(u) =~= u);
    assert(lowercase(u) =~= lowercase(a));
}

/// Lower-casing ASCII text works character by character: it keeps the
/// length, turns each letter `A`-`Z` into its small letter and keeps every
/// other character; so it distributes over concatenation, is idempotent,
/// and upper-casing afterwards gives the upper-case form of the text.
pub proof fn law_lowercase_ascii(a: Seq<char>, b: Seq<char>)
    requires
        is_ascii_text(a),
        is_ascii_text(b),
    ensures
        lowercase(a + b) == lowercase(a) + lowercase(b),
        lowercase(a).len() == a.len(),
        is_ascii_text(lowercase(a)),
        forall|i: int|
            0 <= i < a.len() ==> (is_ascii_upper(a[i]) ==> is_ascii_lower(#[trigger] lowercase(a)[i])
                && lowercase(a)[i] as u32 == a[i] as u32 + 32),
        forall|i: int| 0 <= i < a.len() && !is_ascii_upper(a[i]) ==> #[trigger] lowercase(a)[i] == a[i],
        lowercase(lowercase(a)) == lowercase(a),
        uppercase(lowercase(a)) == uppercase(a),
{
    let ab = a + b;
    assert(is_ascii_text(ab)) by {
        assert forall|i: int| 0 <= i < ab.len() implies is_ascii_char(#[trigger] ab[i]) by {
            if i < a.len() {
                assert(ab[i] == a[i]);
            } else {
                assert(ab[i] == b[i - a.len()]);
            }
        }
    }
    assert(lowercase(ab) =~= lowercase(a) + lowercase(b));
    let l = lowercase(a);
    assert(is_ascii_text(l)) by {
        assert forall|i: int| 0 <= i < l.len() implies is_ascii_char(#[trigger] l[i]) by {
            assert(is_ascii_char(a[i]));
        }
    }
    assert(lowercase(l) =~= l);
    assert(uppercase(l) =~= uppercase(a));
}

/// Among ASCII characters, the word characters of SQL are exactly the
/// letters of either case, the digits and `_`.
pub proof fn law_ascii_word_chars(c: char)
    requires
        is_ascii_char(c),
    ensures
        is_word_char(c) <==> is_ascii_lower(c) || is_ascii_upper(c) || is_ascii_digit_char(c) || c
            == '_',
        is_word_char(c) == is_word_char(ascii_upper(c)),
        is_word_char(c) == is_word_char(ascii_lower(c)),
{
}

} // verus!
