//! Character-level text operations used by the retriever and the prompt
//! builders: whitespace, trimming, substring search, prefix and suffix
//! stripping, splitting into words and decimal rendering of integers.
use vstd::prelude::*;
use vstd::utf8::is_ascii_chars;

verus! {

// ---------------------------------------------------------------------------
// Whitespace
// ---------------------------------------------------------------------------

/// The Unicode `White_Space` property (PropList.txt), which is what
/// `char::is_whitespace` tests.
pub open spec fn is_white_space(c: char) -> bool {
    let u = c as u32;
    ||| 0x09 <= u <= 0x0D
    ||| u == 0x20
    ||| u == 0x85
    ||| u == 0xA0
    ||| u == 0x1680
    ||| 0x2000 <= u <= 0x200A
    ||| u == 0x2028
    ||| u == 0x2029
    ||| u == 0x202F
    ||| u == 0x205F
    ||| u == 0x3000
}

/// Whether `c` is a whitespace character.
pub fn is_white_space_char(c: char) -> (b: bool)
    ensures
        b == is_white_space(c),
{
    let u = c as u32;
    (0x09 <= u && u <= 0x0D) || u == 0x20 || u == 0x85 || u == 0xA0 || u == 0x1680 || (0x2000 <= u
        && u <= 0x200A) || u == 0x2028 || u == 0x2029 || u == 0x202F || u == 0x205F || u == 0x3000
}

// ---------------------------------------------------------------------------
// Conversions between strings and character vectors
// ---------------------------------------------------------------------------

/// The characters of a string slice, in order.
pub fn chars_of(s: &str) -> (v: Vec<char>)
    ensures
        v@ == s@,
{
    let mut v: Vec<char> = Vec::new();
    for c in it: s.chars()
        invariant
            it.seq() == s@,
            v@ == it.seq().take(it.index() as int),
    {
        v.push(c);
    }
    v
}

/// Appends the characters of `s` to `out`.
pub fn push_str(out: &mut Vec<char>, s: &str)
    ensures
        final(out)@ == old(out)@ + s@,
{
    let mut chars = chars_of(s);
    out.append(&mut chars);
}

/// `String::push` appends one character to a string.
pub assume_specification[ String::push ](s: &mut String, ch: char)
    ensures
        final(s)@ == old(s)@.push(ch),
;

/// The string of the given characters, in order.
pub fn string_from_chars(v: &Vec<char>) -> (s: String)
    ensures
        s@ == v@,
{
    let mut s = String::new();
    for i in 0..v.len()
        invariant
            s@ == v@.take(i as int),
    {
        s.push(v[i]);
        proof {
            assert(v@.take(i + 1) =~= v@.take(i as int).push(v@[i as int]));
        }
    }
    proof {
        assert(v@.take(v@.len() as int) =~= v@);
    }
    s
}

/// Names what `str::to_lowercase` returns for a string: the Unicode
/// lowercase mapping of every character, which depends on the Unicode
/// tables of the standard library and on the string alone.
pub uninterp spec fn lowercase_of(s: Seq<char>) -> Seq<char>;

/// The ASCII lower-case form of a character: `A`-`Z` become `a`-`z`, every
/// other character stays.
pub open spec fn ascii_lower_char(c: char) -> char {
    if 65 <= c as u32 <= 90 {
        ((c as u32) + 32) as char
    } else {
        c
    }
}

/// The ASCII upper-case form of a character: `a`-`z` become `A`-`Z`, every
/// other character stays.
pub open spec fn ascii_upper_char(c: char) -> char {
    if 97 <= c as u32 <= 122 {
        ((c as u32) - 32) as char
    } else {
        c
    }
}

/// `s` with `A`-`Z` turned into `a`-`z` (`str::to_ascii_lowercase`).
pub open spec fn ascii_lowercase(s: Seq<char>) -> Seq<char> {
    s.map_values(|c: char| ascii_lower_char(c))
}

/// `s` with `a`-`z` turned into `A`-`Z` (`str::to_ascii_uppercase`).
pub open spec fn ascii_uppercase(s: Seq<char>) -> Seq<char> {
    s.map_values(|c: char| ascii_upper_char(c))
}

/// Law: an ASCII string in upper case has the same lower-case form as the
/// string itself, and stays ASCII.
pub proof fn lemma_ascii_case_folds(s: Seq<char>)
    requires
        is_ascii_chars(s),
    ensures
        is_ascii_chars(ascii_uppercase(s)),
        ascii_lowercase(ascii_uppercase(s)) == ascii_lowercase(s),
{
    let u = ascii_uppercase(s);
    assert forall|i: int| 0 <= i < u.len() implies '\0' <= #[trigger] u[i] <= '\u{7f}' by {
        assert('\0' <= s[i] <= '\u{7f}');
        assert(s[i] as u32 <= 127);
    }
    assert forall|i: int| 0 <= i < s.len() implies #[trigger] ascii_lowercase(u)[i]
        == ascii_lowercase(s)[i] by {
        let c = s[i];
        if 97 <= c as u32 <= 122 {
            assert(((c as u32) - 32) as char as u32 == (c as u32) - 32);
            assert((((c as u32) - 32) + 32) as char == c);
        }
    }
    assert(ascii_lowercase(u) =~= ascii_lowercase(s));
}

/// The ASCII lower-case forms of a list of words.
pub open spec fn ascii_lowercase_words(words: Seq<Seq<char>>) -> Seq<Seq<char>> {
    words.map_values(|w: Seq<char>| ascii_lowercase(w))
}

proof fn lemma_split_state_ascii_lowercase(s: Seq<char>)
    ensures
        split_state(ascii_lowercase(s)) == (
            ascii_lowercase_words(split_state(s).0),
            ascii_lowercase(split_state(s).1),
        ),
    decreases s.len(),
{
    if s.len() > 0 {
        let l = ascii_lowercase(s);
        lemma_split_state_ascii_lowercase(s.drop_last());
        assert(l.drop_last() =~= ascii_lowercase(s.drop_last()));
        let (done, cur) = split_state(s.drop_last());
        let c = s.last();
        assert(l.last() == ascii_lower_char(c));
        assert(is_white_space(ascii_lower_char(c)) == is_white_space(c));
        assert(ascii_lowercase_words(done.push(cur)) =~= ascii_lowercase_words(done).push(
            ascii_lowercase(cur),
        ));
        assert(ascii_lowercase(cur.push(c)) =~= ascii_lowercase(cur).push(ascii_lower_char(c)));
        assert(ascii_lowercase(Seq::<char>::empty()) =~= Seq::<char>::empty());
    }
}

/// Law: the words of the ASCII lower-case form of a string are the ASCII
/// lower-case forms of its words.
pub proof fn lemma_split_whitespace_ascii_lowercase(s: Seq<char>)
    ensures
        split_whitespace(ascii_lowercase(s)) == ascii_lowercase_words(split_whitespace(s)),
{
    lemma_split_state_ascii_lowercase(s);
    let (done, cur) = split_state(s);
    assert(ascii_lowercase_words(done.push(cur)) =~= ascii_lowercase_words(done).push(
        ascii_lowercase(cur),
    ));
}

/// Law: lists of words that hold the same words, as often, still do after
/// both are lower-cased.
pub proof fn lemma_ascii_lowercase_words_multiset(w1: Seq<Seq<char>>, w2: Seq<Seq<char>>)
    requires
        w1.to_multiset() == w2.to_multiset(),
    ensures
        ascii_lowercase_words(w1).to_multiset() == ascii_lowercase_words(w2).to_multiset(),
    decreases w1.len(),
{
    broadcast use vstd::seq_lib::group_to_multiset_ensures;

    if w1.len() == 0 {
        assert(w2.to_multiset().len() == 0);
        assert(w2.len() == 0);
        assert(ascii_lowercase_words(w1) =~= ascii_lowercase_words(w2));
    } else {
        let a = w1.last();
        let rest = w1.drop_last();
        assert(rest.push(a) =~= w1);
        assert(w1.to_multiset() =~= rest.to_multiset().insert(a));
        assert(w2.to_multiset().count(a) > 0);
        assert(w2.contains(a));
        let i = choose|i: int| 0 <= i < w2.len() && w2[i] == a;
        let rest2 = w2.remove(i);
        assert(rest2.to_multiset() =~= w2.to_multiset().remove(a));
        assert(rest2.to_multiset() =~= rest.to_multiset());
        lemma_ascii_lowercase_words_multiset(rest, rest2);
        let m1 = ascii_lowercase_words(w1);
        let m2 = ascii_lowercase_words(w2);
        assert(m1 =~= ascii_lowercase_words(rest).push(ascii_lowercase(a)));
        assert(m2.remove(i) =~= ascii_lowercase_words(rest2));
        assert(m2[i] == ascii_lowercase(a));
        assert(m2.remove(i).to_multiset() =~= m2.to_multiset().remove(ascii_lowercase(a)));
        assert(m2.to_multiset().count(ascii_lowercase(a)) > 0) by {
            assert(m2.contains(ascii_lowercase(a))) by {
                assert(m2[i] == ascii_lowercase(a));
            }
        }
        assert(m1.to_multiset() =~= m2.to_multiset());
    }
}

/// Calls `str::to_lowercase`; its result is `lowercase_of` of the argument.
/// For an ASCII string that is the string with `A`-`Z` turned into `a`-`z`,
/// as the Unicode lower-case mapping of ASCII letters gives.
#[verifier::external_body]
pub fn to_lowercase(s: &str) -> (r: String)
    ensures
        r@ == lowercase_of(s@),
        is_ascii_chars(s@) ==> r@ == ascii_lowercase(s@),
{
    s.to_lowercase()
}

/// The characters `v[a..b]` as a new vector.
pub fn copy_range(v: &Vec<char>, a: usize, b: usize) -> (r: Vec<char>)
    requires
        a <= b <= v@.len(),
    ensures
        r@ == v@.subrange(a as int, b as int),
{
    let mut r: Vec<char> = Vec::new();
    let mut i = a;
    while i < b
        invariant
            a <= i <= b <= v@.len(),
            r@ == v@.subrange(a as int, i as int),
        decreases b - i,
    {
        r.push(v[i]);
        proof {
            assert(v@.subrange(a as int, i + 1) =~= v@.subrange(a as int, i as int).push(v@[i as int]));
        }
        i = i + 1;
    }
    r
}

// ---------------------------------------------------------------------------
// Trimming (`str::trim`)
// ---------------------------------------------------------------------------

/// `s` without its leading whitespace.
pub open spec fn trim_start(s: Seq<char>) -> Seq<char>
    decreases s.len(),
{
    if s.len() > 0 && is_white_space(s[0]) {
        trim_start(s.drop_first())
    } else {
        s
    }
}

/// `s` without its trailing whitespace.
pub open spec fn trim_end(s: Seq<char>) -> Seq<char>
    decreases s.len(),
{
    if s.len() > 0 && is_white_space(s.last()) {
        trim_end(s.drop_last())
    } else {
        s
    }
}

/// `s` without leading and trailing whitespace.
pub open spec fn trim(s: Seq<char>) -> Seq<char> {
    trim_end(trim_start(s))
}

proof fn lemma_trim_start_shape(s: Seq<char>)
    ensures
        trim_start(s).len() > 0 ==> !is_white_space(trim_start(s)[0]),
    decreases s.len(),
{
    if s.len() > 0 && is_white_space(s[0]) {
        lemma_trim_start_shape(s.drop_first());
    }
}

proof fn lemma_trim_end_shape(s: Seq<char>)
    ensures
        trim_end(s).len() <= s.len(),
        trim_end(s) =~= s.subrange(0, trim_end(s).len() as int),
        trim_end(s).len() > 0 ==> !is_white_space(trim_end(s).last()),
    decreases s.len(),
{
    if s.len() > 0 && is_white_space(s.last()) {
        lemma_trim_end_shape(s.drop_last());
    }
}

/// Law: trimming a trimmed string changes nothing.
pub proof fn lemma_trim_idempotent(s: Seq<char>)
    ensures
        trim(trim(s)) == trim(s),
{
    let t = trim_start(s);
    let u = trim_end(t);
    lemma_trim_start_shape(s);
    lemma_trim_end_shape(t);
    if u.len() > 0 {
        assert(u[0] == t[0]);
    }
    assert(trim_start(u) == u);
}

/// Removes leading and trailing whitespace.
pub fn trim_chars(s: &Vec<char>) -> (t: Vec<char>)
    ensures
        t@ == trim(s@),
{
    let n = s.len();
    let mut a: usize = 0;
    assert(s@.subrange(0, n as int) =~= s@);
    while a < n && is_white_space_char(s[a])
        invariant
            a <= n,
            n == s@.len(),
            trim_start(s@) == trim_start(s@.subrange(a as int, n as int)),
        decreases n - a,
    {
        proof {
            assert(s@.subrange(a as int, n as int).drop_first() =~= s@.subrange(a + 1, n as int));
        }
        a = a + 1;
    }
    assert(trim_start(s@) == s@.subrange(a as int, n as int));
    let mut b: usize = n;
    while b > a && is_white_space_char(s[b - 1])
        invariant
            a <= b <= n,
            n == s@.len(),
            trim(s@) == trim_end(s@.subrange(a as int, b as int)),
        decreases b,
    {
        proof {
            assert(s@.subrange(a as int, b as int).drop_last() =~= s@.subrange(a as int, b - 1));
        }
        b = b - 1;
    }
    copy_range(s, a, b)
}

// ---------------------------------------------------------------------------
// Substring search (`str::contains`, `str::starts_with`, `str::ends_with`)
// ---------------------------------------------------------------------------

/// `needle` occurs in `hay` starting at index `i`.
pub open spec fn occurs_at(hay: Seq<char>, needle: Seq<char>, i: int) -> bool {
    &&& 0 <= i
    &&& i + needle.len() <= hay.len()
    &&& hay.subrange(i, i + needle.len()) == needle
}

/// `needle` is a substring of `hay` (the empty string is a substring of
/// every string).
pub open spec fn contains_seq(hay: Seq<char>, needle: Seq<char>) -> bool {
    exists|i: int| occurs_at(hay, needle, i)
}

/// Whether `needle` occurs in `hay` at index `i`.
pub fn occurs_at_exec(hay: &Vec<char>, needle: &Vec<char>, i: usize) -> (b: bool)
    ensures
        b == occurs_at(hay@, needle@, i as int),
{
    let n = hay.len();
    let m = needle.len();
    if i > n || m > n - i {
        return false;
    }
    let mut k: usize = 0;
    while k < m
        invariant
            k <= m,
            m == needle@.len(),
            n == hay@.len(),
            i + m <= n,
            forall|t: int| 0 <= t < k ==> hay@[i + t] == needle@[t],
        decreases m - k,
    {
        if hay[i + k] != needle[k] {
            proof {
                assert(hay@.subrange(i as int, i + m)[k as int] != needle@[k as int]);
            }
            return false;
        }
        k = k + 1;
    }
    proof {
        assert(hay@.subrange(i as int, i + m) =~= needle@);
    }
    true
}

/// Whether `needle` is a substring of `hay`.
pub fn contains_chars(hay: &Vec<char>, needle: &Vec<char>) -> (b: bool)
    ensures
        b == contains_seq(hay@, needle@),
{
    let n = hay.len();
    let m = needle.len();
    if m > n {
        assert forall|j: int| !occurs_at(hay@, needle@, j) by {}
        return false;
    }
    if m == 0 {
        assert(hay@.subrange(0, 0) =~= needle@);
        assert(occurs_at(hay@, needle@, 0));
        return true;
    }
    let mut i: usize = 0;
    while i <= n - m
        invariant
            0 < m <= n,
            n == hay@.len(),
            m == needle@.len(),
            i <= n - m + 1,
            forall|j: int| 0 <= j < i ==> !occurs_at(hay@, needle@, j),
        decreases n - m + 1 - i,
    {
        if occurs_at_exec(hay, needle, i) {
            assert(occurs_at(hay@, needle@, i as int));
            return true;
        }
        i = i + 1;
    }
    assert forall|j: int| !occurs_at(hay@, needle@, j) by {}
    false
}

/// Whether two character sequences are equal.
pub fn chars_equal(a: &Vec<char>, b: &Vec<char>) -> (r: bool)
    ensures
        r == (a@ == b@),
{
    if a.len() != b.len() {
        return false;
    }
    let r = occurs_at_exec(a, b, 0);
    proof {
        assert(a@.subrange(0, a@.len() as int) =~= a@);
    }
    r
}

/// `s` without the prefix `p`, when `s` starts with `p` (`str::strip_prefix`).
pub open spec fn strip_prefix(s: Seq<char>, p: Seq<char>) -> Option<Seq<char>> {
    if occurs_at(s, p, 0) {
        Some(s.subrange(p.len() as int, s.len() as int))
    } else {
        None
    }
}

/// `s` without the suffix `p`, when `s` ends with `p` (`str::strip_suffix`).
pub open spec fn strip_suffix(s: Seq<char>, p: Seq<char>) -> Option<Seq<char>> {
    if occurs_at(s, p, s.len() - p.len()) {
        Some(s.subrange(0, s.len() - p.len()))
    } else {
        None
    }
}

/// Removes the prefix `p` from `s`, if `s` starts with it.
pub fn strip_prefix_chars(s: &Vec<char>, p: &Vec<char>) -> (r: Option<Vec<char>>)
    ensures
        r is Some <==> strip_prefix(s@, p@) is Some,
        r matches Some(v) ==> strip_prefix(s@, p@) == Some(v@),
{
    if occurs_at_exec(s, p, 0) {
        Some(copy_range(s, p.len(), s.len()))
    } else {
        None
    }
}

/// Removes the suffix `p` from `s`, if `s` ends with it.
pub fn strip_suffix_chars(s: &Vec<char>, p: &Vec<char>) -> (r: Option<Vec<char>>)
    ensures
        r is Some <==> strip_suffix(s@, p@) is Some,
        r matches Some(v) ==> strip_suffix(s@, p@) == Some(v@),
{
    if p.len() > s.len() {
        return None;
    }
    let start = s.len() - p.len();
    if occurs_at_exec(s, p, start) {
        Some(copy_range(s, 0, start))
    } else {
        None
    }
}

// ---------------------------------------------------------------------------
// Splitting into words (`str::split_whitespace`)
// ---------------------------------------------------------------------------

/// Reading `s` from left to right: the words completed so far and the word
/// being read (empty between words).
pub open spec fn split_state(s: Seq<char>) -> (Seq<Seq<char>>, Seq<char>)
    decreases s.len(),
{
    if s.len() == 0 {
        (Seq::empty(), Seq::empty())
    } else {
        let (done, cur) = split_state(s.drop_last());
        if is_white_space(s.last()) {
            if cur.len() > 0 {
                (done.push(cur), Seq::empty())
            } else {
                (done, cur)
            }
        } else {
            (done, cur.push(s.last()))
        }
    }
}

/// The maximal runs of non-whitespace characters of `s`, in order.
pub open spec fn split_whitespace(s: Seq<char>) -> Seq<Seq<char>> {
    let (done, cur) = split_state(s);
    if cur.len() > 0 {
        done.push(cur)
    } else {
        done
    }
}

/// The contents of a sequence of character vectors.
pub open spec fn char_vecs_view(v: Seq<Vec<char>>) -> Seq<Seq<char>> {
    v.map_values(|w: Vec<char>| w@)
}

/// Splits `s` into its whitespace-separated words.
pub fn split_whitespace_chars(s: &Vec<char>) -> (words: Vec<Vec<char>>)
    ensures
        char_vecs_view(words@) == split_whitespace(s@),
{
    let mut done: Vec<Vec<char>> = Vec::new();
    let mut cur: Vec<char> = Vec::new();
    let n = s.len();
    let mut i: usize = 0;
    while i < n
        invariant
            i <= n,
            n == s@.len(),
            split_state(s@.take(i as int)) == (char_vecs_view(done@), cur@),
        decreases n - i,
    {
        let c = s[i];
        proof {
            assert(s@.take(i + 1).drop_last() =~= s@.take(i as int));
        }
        if is_white_space_char(c) {
            if cur.len() > 0 {
                let ghost old_done = done@;
                let word = cur;
                cur = Vec::new();
                done.push(word);
                proof {
                    assert(char_vecs_view(done@) =~= char_vecs_view(old_done).push(word@));
                }
            }
        } else {
            cur.push(c);
        }
        i = i + 1;
    }
    proof {
        assert(s@.take(n as int) =~= s@);
    }
    if cur.len() > 0 {
        let ghost old_done = done@;
        done.push(cur);
        proof {
            assert(char_vecs_view(done@) =~= char_vecs_view(old_done).push(cur@));
        }
    }
    done
}

// ---------------------------------------------------------------------------
// Decimal rendering of integers
// ---------------------------------------------------------------------------

/// The decimal digit character for `d < 10`.
pub open spec fn digit_char(d: nat) -> char {
    if d == 0 {
        '0'
    } else if d == 1 {
        '1'
    } else if d == 2 {
        '2'
    } else if d == 3 {
        '3'
    } else if d == 4 {
        '4'
    } else if d == 5 {
        '5'
    } else if d == 6 {
        '6'
    } else if d == 7 {
        '7'
    } else if d == 8 {
        '8'
    } else {
        '9'
    }
}

/// The decimal representation of `n`, without leading zeros.
pub open spec fn decimal(n: nat) -> Seq<char>
    decreases n,
{
    if n < 10 {
        seq![digit_char(n)]
    } else {
        decimal(n / 10).push(digit_char(n % 10))
    }
}

/// The decimal representation of `n`, with a leading `-` when negative.
pub open spec fn signed_decimal(n: int) -> Seq<char> {
    if n < 0 {
        seq!['-'] + decimal((-n) as nat)
    } else {
        decimal(n as nat)
    }
}

fn digit(d: u64) -> (c: char)
    requires
        d < 10,
    ensures
        c == digit_char(d as nat),
{
    if d == 0 {
        '0'
    } else if d == 1 {
        '1'
    } else if d == 2 {
        '2'
    } else if d == 3 {
        '3'
    } else if d == 4 {
        '4'
    } else if d == 5 {
        '5'
    } else if d == 6 {
        '6'
    } else if d == 7 {
        '7'
    } else if d == 8 {
        '8'
    } else {
        '9'
    }
}

/// Appends the decimal representation of `n` to `out`.
pub fn push_decimal(n: u64, out: &mut Vec<char>)
    ensures
        final(out)@ == old(out)@ + decimal(n as nat),
    decreases n,
{
    if n >= 10 {
        push_decimal(n / 10, out);
    }
    out.push(digit(n % 10));
    proof {
        assert(old(out)@ + decimal(n as nat) =~= (if n >= 10 {
            old(out)@ + decimal((n / 10) as nat)
        } else {
            old(out)@
        }).push(digit_char((n % 10) as nat)));
    }
}

/// The decimal representation of a signed integer.
pub fn signed_decimal_chars(n: i64) -> (r: Vec<char>)
    ensures
        r@ == signed_decimal(n as int),
{
    let mut r: Vec<char> = Vec::new();
    if n < 0 {
        r.push('-');
        let magnitude: u64 = (0i128 - (n as i128)) as u64;
        push_decimal(magnitude, &mut r);
    } else {
        push_decimal(n as u64, &mut r);
    }
    r
}

} // verus!
