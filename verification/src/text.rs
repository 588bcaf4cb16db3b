//! Character-level text model shared by the detectors, parsers and formatters.
//!
//! Strings are modelled by their character sequences (`Seq<char>`); executable code works
//! on `Vec<char>` copies of them.
use vstd::prelude::*;

verus! {

/// The characters with the Unicode `White_Space` property, which is what
/// `char::is_whitespace` tests.
pub open spec fn is_space(c: char) -> bool {
    ||| c == '\t'
    ||| c == '\n'
    ||| c == '\u{0B}'
    ||| c == '\u{0C}'
    ||| c == '\r'
    ||| c == ' '
    ||| c == '\u{85}'
    ||| c == '\u{A0}'
    ||| c == '\u{1680}'
    ||| ('\u{2000}' <= c && c <= '\u{200A}')
    ||| c == '\u{2028}'
    ||| c == '\u{2029}'
    ||| c == '\u{202F}'
    ||| c == '\u{205F}'
    ||| c == '\u{3000}'
}

/// `char::is_whitespace`.
pub fn char_is_space(c: char) -> (b: bool)
    ensures
        b == is_space(c),
{
    c == '\t' || c == '\n' || c == '\u{0B}' || c == '\u{0C}' || c == '\r' || c == ' ' || c
        == '\u{85}' || c == '\u{A0}' || c == '\u{1680}' || ('\u{2000}' <= c && c <= '\u{200A}')
        || c == '\u{2028}' || c == '\u{2029}' || c == '\u{202F}' || c == '\u{205F}' || c
        == '\u{3000}'
}

/// `char::is_ascii_hexdigit`.
pub open spec fn is_hex_digit(c: char) -> bool {
    ('0' <= c && c <= '9') || ('a' <= c && c <= 'f') || ('A' <= c && c <= 'F')
}

/// `char::is_ascii_digit`.
pub open spec fn is_digit(c: char) -> bool {
    '0' <= c && c <= '9'
}

/// Number of bytes of the UTF-8 encoding of one character.
pub open spec fn utf8_width(c: char) -> nat {
    if (c as u32) < 0x80 {
        1
    } else if (c as u32) < 0x800 {
        2
    } else if (c as u32) < 0x10000 {
        3
    } else {
        4
    }
}

/// Number of bytes of the UTF-8 encoding of a character sequence (what `str::len` returns).
pub open spec fn utf8_len(s: Seq<char>) -> nat
    decreases s.len(),
{
    if s.len() == 0 {
        0
    } else {
        utf8_len(s.drop_last()) + utf8_width(s.last())
    }
}

pub open spec fn starts_with(s: Seq<char>, p: Seq<char>) -> bool {
    p.len() <= s.len() && s.take(p.len() as int) == p
}

/// `p` occurs in `s` at position `i`.
pub open spec fn occurs_at(s: Seq<char>, p: Seq<char>, i: int) -> bool {
    0 <= i && i + p.len() <= s.len() && s.subrange(i, i + p.len()) == p
}

/// `p` occurs somewhere in `s` (`str::contains` with a string pattern).
pub open spec fn contains_seq(s: Seq<char>, p: Seq<char>) -> bool {
    exists|i: int| occurs_at(s, p, i)
}

/// The character sets that the trimming functions strip.
#[derive(Clone, Copy, PartialEq, Eq, Debug)]
pub enum TrimSet {
    /// `char::is_whitespace`, as `str::trim` strips.
    Space,
    /// Quotes, brackets and punctuation around a link.
    LinkPunct,
    /// Quotes, brackets and punctuation around a colour code.
    ColorPunct,
    /// The same around a functional colour notation, except the closing parenthesis, which
    /// ends the notation.
    NotationPunct,
}

pub open spec fn in_trim_set(set: TrimSet, c: char) -> bool {
    match set {
        TrimSet::Space => is_space(c),
        TrimSet::LinkPunct => c == '"' || c == '\'' || c == '`' || c == '(' || c == ')' || c == '['
            || c == ']' || c == '<' || c == '>' || c == '{' || c == '}' || c == ',' || c == ';'
            || c == '.',
        TrimSet::ColorPunct => c == '"' || c == '\'' || c == '`' || c == '(' || c == ')' || c
            == '[' || c == ']' || c == '{' || c == '}' || c == ',' || c == ';' || c == ':',
        TrimSet::NotationPunct => c == '"' || c == '\'' || c == '`' || c == '(' || c == '[' || c
            == ']' || c == '{' || c == '}' || c == ',' || c == ';' || c == ':',
    }
}

pub fn char_in_trim_set(set: TrimSet, c: char) -> (b: bool)
    ensures
        b == in_trim_set(set, c),
{
    match set {
        TrimSet::Space => char_is_space(c),
        TrimSet::LinkPunct => c == '"' || c == '\'' || c == '`' || c == '(' || c == ')' || c == '['
            || c == ']' || c == '<' || c == '>' || c == '{' || c == '}' || c == ',' || c == ';'
            || c == '.',
        TrimSet::ColorPunct => c == '"' || c == '\'' || c == '`' || c == '(' || c == ')' || c
            == '[' || c == ']' || c == '{' || c == '}' || c == ',' || c == ';' || c == ':',
        TrimSet::NotationPunct => c == '"' || c == '\'' || c == '`' || c == '(' || c == '[' || c
            == ']' || c == '{' || c == '}' || c == ',' || c == ';' || c == ':',
    }
}

/// Number of leading characters of `s` that are in `set`.
pub open spec fn lead_len(s: Seq<char>, set: TrimSet) -> nat
    decreases s.len(),
{
    if s.len() > 0 && in_trim_set(set, s[0]) {
        1 + lead_len(s.drop_first(), set)
    } else {
        0
    }
}

/// Number of trailing characters of `s` that are in `set`.
pub open spec fn trail_len(s: Seq<char>, set: TrimSet) -> nat
    decreases s.len(),
{
    if s.len() > 0 && in_trim_set(set, s.last()) {
        1 + trail_len(s.drop_last(), set)
    } else {
        0
    }
}

/// `str::trim_matches` with the characters of `set`: strips them from both ends.
pub open spec fn trim(s: Seq<char>, set: TrimSet) -> Seq<char> {
    let t = s.skip(lead_len(s, set) as int);
    t.take(t.len() - trail_len(t, set))
}

pub proof fn lemma_lead_len_bound(s: Seq<char>, set: TrimSet)
    ensures
        lead_len(s, set) <= s.len(),
        forall|k: int| 0 <= k < lead_len(s, set) ==> in_trim_set(set, #[trigger] s[k]),
        lead_len(s, set) < s.len() ==> !in_trim_set(set, s[lead_len(s, set) as int]),
    decreases s.len(),
{
    if s.len() > 0 && in_trim_set(set, s[0]) {
        lemma_lead_len_bound(s.drop_first(), set);
        assert forall|k: int| 0 <= k < lead_len(s, set) implies in_trim_set(set, #[trigger] s[k]) by {
            if k > 0 {
                assert(s[k] == s.drop_first()[k - 1]);
            }
        }
    }
}

pub proof fn lemma_trail_len_bound(s: Seq<char>, set: TrimSet)
    ensures
        trail_len(s, set) <= s.len(),
        forall|k: int|
            s.len() - trail_len(s, set) <= k < s.len() ==> in_trim_set(set, #[trigger] s[k]),
        trail_len(s, set) < s.len() ==> !in_trim_set(set, s[s.len() - trail_len(s, set) - 1]),
    decreases s.len(),
{
    if s.len() > 0 && in_trim_set(set, s.last()) {
        lemma_trail_len_bound(s.drop_last(), set);
        assert forall|k: int| s.len() - trail_len(s, set) <= k < s.len() implies in_trim_set(
            set,
            #[trigger] s[k],
        ) by {
            if k < s.len() - 1 {
                assert(s[k] == s.drop_last()[k]);
            }
        }
    }
}

/// Proves `lead_len` from its characterisation.
pub proof fn lemma_lead_len_is(s: Seq<char>, set: TrimSet, n: nat)
    requires
        n <= s.len(),
        forall|k: int| 0 <= k < n ==> in_trim_set(set, #[trigger] s[k]),
        n < s.len() ==> !in_trim_set(set, s[n as int]),
    ensures
        lead_len(s, set) == n,
    decreases n,
{
    if n > 0 {
        assert(in_trim_set(set, s[0]));
        assert forall|k: int| 0 <= k < n - 1 implies in_trim_set(
            set,
            #[trigger] s.drop_first()[k],
        ) by {
            assert(s.drop_first()[k] == s[k + 1]);
        }
        if n - 1 < s.drop_first().len() {
            assert(s.drop_first()[n - 1] == s[n as int]);
        }
        lemma_lead_len_is(s.drop_first(), set, (n - 1) as nat);
    }
}

/// Proves `trail_len` from its characterisation.
pub proof fn lemma_trail_len_is(s: Seq<char>, set: TrimSet, n: nat)
    requires
        n <= s.len(),
        forall|k: int| s.len() - n <= k < s.len() ==> in_trim_set(set, #[trigger] s[k]),
        n < s.len() ==> !in_trim_set(set, s[s.len() - n - 1]),
    ensures
        trail_len(s, set) == n,
    decreases n,
{
    if n > 0 {
        assert(in_trim_set(set, s[s.len() - 1]));
        let d = s.drop_last();
        assert forall|k: int| d.len() - (n - 1) <= k < d.len() implies in_trim_set(
            set,
            #[trigger] d[k],
        ) by {
            assert(d[k] == s[k]);
        }
        if n - 1 < d.len() {
            assert(d[d.len() - (n - 1) - 1] == s[s.len() - n - 1]);
        }
        lemma_trail_len_is(d, set, (n - 1) as nat);
    }
}

/// A trimmed sequence neither starts nor ends with a character of the set.
pub proof fn lemma_trim_ends(s: Seq<char>, set: TrimSet)
    ensures
        trim(s, set).len() > 0 ==> !in_trim_set(set, trim(s, set)[0]) && !in_trim_set(
            set,
            trim(s, set).last(),
        ),
{
    let l = lead_len(s, set);
    lemma_lead_len_bound(s, set);
    let u = s.skip(l as int);
    lemma_trail_len_bound(u, set);
    let t = trim(s, set);
    if t.len() > 0 {
        assert(t[0] == s[l as int]);
        assert(t.last() == u[u.len() - trail_len(u, set) - 1]);
    }
}

/// Trimming a sequence that neither starts nor ends with a character of the set changes
/// nothing.
pub proof fn lemma_trim_clean(s: Seq<char>, set: TrimSet)
    requires
        s.len() > 0 ==> !in_trim_set(set, s[0]) && !in_trim_set(set, s.last()),
    ensures
        trim(s, set) == s,
{
    lemma_lead_len_is(s, set, 0);
    lemma_trail_len_is(s, set, 0);
    assert(s.skip(0) == s);
    assert(s.take(s.len() as int) == s);
}

/// Trimming twice is trimming once.
pub proof fn law_trim_idempotent(s: Seq<char>, set: TrimSet)
    ensures
        trim(trim(s, set), set) == trim(s, set),
{
    lemma_trim_ends(s, set);
    lemma_trim_clean(trim(s, set), set);
}

/// `str::trim_matches` on a character vector.
pub fn trim_chars(s: &Vec<char>, set: TrimSet) -> (t: Vec<char>)
    ensures
        t@ == trim(s@, set),
{
    let n = s.len();
    let mut a: usize = 0;
    while a < n && char_in_trim_set(set, s[a])
        invariant
            a <= n,
            n == s.len(),
            forall|k: int| 0 <= k < a ==> in_trim_set(set, #[trigger] s@[k]),
        decreases n - a,
    {
        a = a + 1;
    }
    proof {
        lemma_lead_len_is(s@, set, a as nat);
    }
    let mut b: usize = n;
    while b > a && char_in_trim_set(set, s[b - 1])
        invariant
            a <= b <= n,
            n == s.len(),
            forall|k: int| b <= k < n ==> in_trim_set(set, #[trigger] s@[k]),
        decreases b,
    {
        b = b - 1;
    }
    let ghost u = s@.skip(a as int);
    proof {
        assert forall|k: int| u.len() - (n - b) <= k < u.len() implies in_trim_set(
            set,
            #[trigger] u[k],
        ) by {
            assert(u[k] == s@[k + a]);
        }
        if n - b < u.len() {
            assert(u[u.len() - (n - b) - 1] == s@[b - 1]);
        }
        lemma_trail_len_is(u, set, (n - b) as nat);
    }
    let mut t: Vec<char> = Vec::new();
    let mut i: usize = a;
    while i < b
        invariant
            a <= i <= b <= n,
            n == s.len(),
            t@ == s@.subrange(a as int, i as int),
        decreases b - i,
    {
        t.push(s[i]);
        i = i + 1;
    }
    assert(t@ == u.take(u.len() - (n - b)));
    t
}

/// `starts_with` on character vectors.
pub fn chars_start_with(s: &Vec<char>, p: &Vec<char>) -> (b: bool)
    ensures
        b == starts_with(s@, p@),
{
    if p.len() > s.len() {
        return false;
    }
    let mut i: usize = 0;
    while i < p.len()
        invariant
            i <= p.len() <= s.len(),
            forall|k: int| 0 <= k < i ==> s@[k] == p@[k],
        decreases p.len() - i,
    {
        if s[i] != p[i] {
            assert(s@.take(p.len() as int)[i as int] != p@[i as int]);
            return false;
        }
        i = i + 1;
    }
    assert(s@.take(p.len() as int) == p@);
    true
}

/// Whether `p` occurs at position `i` of `s`.
pub fn chars_occur_at(s: &Vec<char>, p: &Vec<char>, i: usize) -> (b: bool)
    ensures
        b == occurs_at(s@, p@, i as int),
{
    if i > s.len() || p.len() > s.len() - i {
        return false;
    }
    let mut k: usize = 0;
    while k < p.len()
        invariant
            k <= p.len(),
            i + p.len() <= s.len(),
            forall|j: int| 0 <= j < k ==> s@[i + j] == p@[j],
        decreases p.len() - k,
    {
        if s[i + k] != p[k] {
            assert(s@.subrange(i as int, i + p.len())[k as int] != p@[k as int]);
            return false;
        }
        k = k + 1;
    }
    assert(s@.subrange(i as int, i + p.len()) == p@);
    true
}

/// `str::contains` with a string pattern, on character vectors.
pub fn chars_contain(s: &Vec<char>, p: &Vec<char>) -> (b: bool)
    ensures
        b == contains_seq(s@, p@),
{
    if p.len() > s.len() {
        assert forall|i: int| !occurs_at(s@, p@, i) by {}
        return false;
    }
    let m = s.len() - p.len();
    let mut i: usize = 0;
    loop
        invariant
            p.len() <= s.len(),
            m == s.len() - p.len(),
            i <= m,
            forall|j: int| 0 <= j < i ==> !occurs_at(s@, p@, j),
        ensures
            forall|j: int| 0 <= j <= m ==> !occurs_at(s@, p@, j),
        decreases m - i,
    {
        if chars_occur_at(s, p, i) {
            return true;
        }
        if i == m {
            break;
        }
        i = i + 1;
    }
    assert forall|j: int| !occurs_at(s@, p@, j) by {
        if 0 <= j <= m {
        }
    }
    false
}

/// `str::contains` with a character pattern, on character vectors.
pub fn chars_contain_char(s: &Vec<char>, c: char) -> (b: bool)
    ensures
        b == s@.contains(c),
{
    let mut i: usize = 0;
    while i < s.len()
        invariant
            i <= s.len(),
            forall|j: int| 0 <= j < i ==> s@[j] != c,
        decreases s.len() - i,
    {
        if s[i] == c {
            return true;
        }
        i = i + 1;
    }
    false
}

proof fn lemma_utf8_len_prefix(s: Seq<char>, i: int)
    requires
        0 <= i <= s.len(),
    ensures
        utf8_len(s.take(i)) <= utf8_len(s),
    decreases s.len() - i,
{
    if i < s.len() {
        lemma_utf8_len_prefix(s, i + 1);
        assert(s.take(i + 1).drop_last() == s.take(i));
    } else {
        assert(s.take(i) == s);
    }
}

/// `str::len` compared against a bound: the UTF-8 byte length of the characters,
/// or `cap` when it is at least `cap`.
pub fn chars_utf8_len_capped(s: &Vec<char>, cap: usize) -> (n: usize)
    requires
        0 < cap <= usize::MAX - 4,
    ensures
        n == if utf8_len(s@) < cap { utf8_len(s@) } else { cap as nat },
{
    let mut n: usize = 0;
    let mut i: usize = 0;
    while i < s.len()
        invariant
            i <= s.len(),
            0 < cap <= usize::MAX - 4,
            n == utf8_len(s@.take(i as int)),
            n < cap,
        decreases s.len() - i,
    {
        let c = s[i];
        let w: usize = if (c as u32) < 0x80 {
            1
        } else if (c as u32) < 0x800 {
            2
        } else if (c as u32) < 0x10000 {
            3
        } else {
            4
        };
        assert(s@.take(i + 1).drop_last() == s@.take(i as int));
        n = n + w;
        i = i + 1;
        if n >= cap {
            proof {
                lemma_utf8_len_prefix(s@, i as int);
            }
            return cap;
        }
    }
    assert(s@.take(s.len() as int) == s@);
    n
}

/// Copies the characters of a string slice into a vector.
pub fn str_to_chars(s: &str) -> (v: Vec<char>)
    ensures
        v@ == s@,
{
    let mut v: Vec<char> = Vec::new();
    for c in it: s.chars()
        invariant
            v@ == it.seq().take(it.index() as int),
    {
        v.push(c);
    }
    v
}

/// `String::push`.
#[verifier::external_body]
fn push_char(s: &mut String, c: char)
    ensures
        final(s)@ == old(s)@.push(c),
{
    s.push(c);
}

/// Builds a string from a vector of characters.
pub fn chars_to_string(v: &Vec<char>) -> (s: String)
    ensures
        s@ == v@,
{
    let mut s = String::new();
    let mut i: usize = 0;
    while i < v.len()
        invariant
            i <= v.len(),
            s@ == v@.take(i as int),
        decreases v.len() - i,
    {
        push_char(&mut s, v[i]);
        i = i + 1;
        assert(v@.take(i as int) == v@.take(i - 1 as int).push(v@[i - 1]));
    }
    assert(v@.take(v.len() as int) == v@);
    s
}

/// Appends `b` to `a`.
pub fn append_chars(a: &mut Vec<char>, b: &Vec<char>)
    ensures
        final(a)@ == old(a)@ + b@,
{
    let mut i: usize = 0;
    while i < b.len()
        invariant
            i <= b.len(),
            a@ == old(a)@ + b@.take(i as int),
        decreases b.len() - i,
    {
        a.push(b[i]);
        i = i + 1;
        assert(b@.take(i as int) == b@.take(i - 1 as int).push(b@[i - 1]));
    }
    assert(b@.take(b.len() as int) == b@);
}

/// Length of the leading run of non-space characters of `s`.
pub open spec fn word_len(s: Seq<char>) -> nat
    decreases s.len(),
{
    if s.len() > 0 && !is_space(s[0]) {
        1 + word_len(s.drop_first())
    } else {
        0
    }
}

/// The words of `s`: its maximal runs of non-space characters, in order
/// (what `str::split_whitespace` yields).
pub open spec fn words(s: Seq<char>) -> Seq<Seq<char>>
    decreases s.len(),
{
    if s.len() == 0 {
        seq![]
    } else if is_space(s[0]) {
        words(s.drop_first())
    } else {
        let n = word_len(s);
        if 0 < n <= s.len() {
            seq![s.take(n as int)] + words(s.skip(n as int))
        } else {
            seq![]
        }
    }
}

proof fn lemma_word_len_is(s: Seq<char>, n: nat)
    requires
        n <= s.len(),
        forall|k: int| 0 <= k < n ==> !is_space(#[trigger] s[k]),
        n < s.len() ==> is_space(s[n as int]),
    ensures
        word_len(s) == n,
    decreases n,
{
    if n > 0 {
        assert(!is_space(s[0]));
        assert forall|k: int| 0 <= k < n - 1 implies !is_space(#[trigger] s.drop_first()[k]) by {
            assert(s.drop_first()[k] == s[k + 1]);
        }
        if n - 1 < s.drop_first().len() {
            assert(s.drop_first()[n - 1] == s[n as int]);
        }
        lemma_word_len_is(s.drop_first(), (n - 1) as nat);
    }
}

/// `str::split_whitespace` on a character vector.
pub fn split_words(s: &Vec<char>) -> (ws: Vec<Vec<char>>)
    ensures
        ws@.len() == words(s@).len(),
        forall|k: int| 0 <= k < ws@.len() ==> (#[trigger] ws@[k])@ == words(s@)[k],
{
    let n = s.len();
    let mut ws: Vec<Vec<char>> = Vec::new();
    let ghost mut acc: Seq<Seq<char>> = seq![];
    let mut i: usize = 0;
    assert(s@.skip(0) == s@);
    while i < n
        invariant
            i <= n,
            n == s.len(),
            ws@.len() == acc.len(),
            forall|k: int| 0 <= k < ws@.len() ==> (#[trigger] ws@[k])@ == acc[k],
            words(s@) == acc + words(s@.skip(i as int)),
        decreases n - i,
    {
        let ghost t = s@.skip(i as int);
        if char_is_space(s[i]) {
            assert(t.drop_first() == s@.skip(i + 1));
            i = i + 1;
        } else {
            let mut j: usize = i;
            let mut w: Vec<char> = Vec::new();
            while j < n && !char_is_space(s[j])
                invariant
                    i <= j <= n,
                    n == s.len(),
                    w@ == s@.subrange(i as int, j as int),
                    forall|k: int| i <= k < j ==> !is_space(#[trigger] s@[k]),
                decreases n - j,
            {
                w.push(s[j]);
                j = j + 1;
            }
            proof {
                assert forall|k: int| 0 <= k < j - i implies !is_space(#[trigger] t[k]) by {
                    assert(t[k] == s@[i + k]);
                }
                if j < n {
                    assert(t[j - i] == s@[j as int]);
                }
                lemma_word_len_is(t, (j - i) as nat);
                assert(t.take(j - i) == w@);
                assert(t.skip(j - i) == s@.skip(j as int));
                assert(words(t) == seq![w@] + words(s@.skip(j as int)));
                assert(acc + words(t) == acc.push(w@) + words(s@.skip(j as int)));
                acc = acc.push(w@);
            }
            ws.push(w);
            i = j;
        }
    }
    assert(s@.skip(n as int).len() == 0);
    assert(acc + seq![] == acc);
    ws
}

/// The ASCII digit for a value below 10.
pub open spec fn digit_char(d: nat) -> char {
    if d == 0 {
        '0'
    } else if d == 1 {
        '1'
    } else if d == 2 {
        '2'
    } else if d == 3 {
        '3'
    } else if d == 4 {
        '4'
    } else if d == 5 {
        '5'
    } else if d == 6 {
        '6'
    } else if d == 7 {
        '7'
    } else if d == 8 {
        '8'
    } else {
        '9'
    }
}

/// The decimal representation of `n`, without leading zeros (what `{}` formats).
pub open spec fn decimal(n: nat) -> Seq<char>
    decreases n,
{
    if n < 10 {
        seq![digit_char(n)]
    } else {
        decimal(n / 10).push(digit_char(n % 10))
    }
}

fn digit_of(d: u128) -> (c: char)
    requires
        d < 10,
    ensures
        c == digit_char(d as nat),
{
    if d == 0 {
        '0'
    } else if d == 1 {
        '1'
    } else if d == 2 {
        '2'
    } else if d == 3 {
        '3'
    } else if d == 4 {
        '4'
    } else if d == 5 {
        '5'
    } else if d == 6 {
        '6'
    } else if d == 7 {
        '7'
    } else if d == 8 {
        '8'
    } else {
        '9'
    }
}

/// Appends the decimal representation of `n` to `out`.
pub fn push_decimal(out: &mut Vec<char>, n: u128)
    ensures
        final(out)@ == old(out)@ + decimal(n as nat),
    decreases n,
{
    if n < 10 {
        out.push(digit_of(n));
    } else {
        push_decimal(out, n / 10);
        out.push(digit_of(n % 10));
        assert(decimal(n as nat) == decimal((n / 10) as nat).push(digit_char((n % 10) as nat)));
    }
}

/// Whether two character vectors hold the same characters.
pub fn chars_equal(a: &Vec<char>, b: &Vec<char>) -> (r: bool)
    ensures
        r == (a@ == b@),
{
    if a.len() != b.len() {
        return false;
    }
    let mut i: usize = 0;
    while i < a.len()
        invariant
            i <= a.len() == b.len(),
            forall|k: int| 0 <= k < i ==> a@[k] == b@[k],
        decreases a.len() - i,
    {
        if a[i] != b[i] {
            return false;
        }
        i = i + 1;
    }
    assert(a@ == b@);
    true
}

/// Whether a character vector holds the characters of a string slice.
pub fn chars_equal_str(a: &Vec<char>, b: &str) -> (r: bool)
    ensures
        r == (a@ == b@),
{
    let bc = str_to_chars(b);
    chars_equal(a, &bc)
}

/// The characters after the first occurrence of `c` in `s`, if `c` occurs.
pub open spec fn after_first(s: Seq<char>, c: char) -> Option<Seq<char>>
    decreases s.len(),
{
    if s.len() == 0 {
        None
    } else if s[0] == c {
        Some(s.drop_first())
    } else {
        after_first(s.drop_first(), c)
    }
}

/// The characters before the first occurrence of `c` in `s` (all of `s` when `c` does not occur).
pub open spec fn before_first(s: Seq<char>, c: char) -> Seq<char>
    decreases s.len(),
{
    if s.len() == 0 || s[0] == c {
        seq![]
    } else {
        seq![s[0]] + before_first(s.drop_first(), c)
    }
}

/// Splits at the first occurrence of `c`: the characters before it and, if it occurs, those after it.
pub fn split_first(s: &Vec<char>, c: char) -> (r: (Vec<char>, Option<Vec<char>>))
    ensures
        r.0@ == before_first(s@, c),
        match r.1 {
            Some(v) => after_first(s@, c) == Some(v@),
            None => after_first(s@, c) is None,
        },
{
    let mut i: usize = 0;
    let mut head: Vec<char> = Vec::new();
    assert(s@.skip(0) == s@);
    while i < s.len() && s[i] != c
        invariant
            i <= s.len(),
            head@ == s@.take(i as int),
            after_first(s@, c) == after_first(s@.skip(i as int), c),
            before_first(s@, c) == head@ + before_first(s@.skip(i as int), c),
        decreases s.len() - i,
    {
        assert(s@.skip(i as int)[0] == s@[i as int]);
        assert(s@.skip(i as int).drop_first() == s@.skip(i + 1));
        assert(s@.take(i + 1) == s@.take(i as int) + seq![s@[i as int]]);
        head.push(s[i]);
        i = i + 1;
    }
    if i < s.len() {
        assert(s@.skip(i as int)[0] == s@[i as int]);
        let mut tail: Vec<char> = Vec::new();
        let mut j: usize = i + 1;
        while j < s.len()
            invariant
                i < s.len(),
                i + 1 <= j <= s.len(),
                tail@ == s@.subrange(i + 1, j as int),
            decreases s.len() - j,
        {
            tail.push(s[j]);
            j = j + 1;
        }
        assert(tail@ == s@.skip(i as int).drop_first());
        assert(head@ + seq![] == head@);
        (head, Some(tail))
    } else {
        assert(s@.skip(i as int).len() == 0);
        assert(head@ + seq![] == head@);
        (head, None)
    }
}

/// Number of occurrences of `c` in `s`.
pub open spec fn count_char(s: Seq<char>, c: char) -> nat
    decreases s.len(),
{
    if s.len() == 0 {
        0
    } else {
        count_char(s.drop_last(), c) + if s.last() == c {
            1nat
        } else {
            0nat
        }
    }
}

pub fn chars_count(s: &Vec<char>, c: char) -> (n: usize)
    ensures
        n == count_char(s@, c),
{
    let mut n: usize = 0;
    let mut i: usize = 0;
    while i < s.len()
        invariant
            i <= s.len(),
            n == count_char(s@.take(i as int), c),
            n <= i,
        decreases s.len() - i,
    {
        assert(s@.take(i + 1).drop_last() == s@.take(i as int));
        if s[i] == c {
            n = n + 1;
        }
        i = i + 1;
    }
    assert(s@.take(s.len() as int) == s@);
    n
}

/// The value of a sequence of decimal digits.
pub open spec fn digits_value(s: Seq<char>) -> nat
    decreases s.len(),
{
    if s.len() == 0 {
        0
    } else {
        digits_value(s.drop_last()) * 10 + ((s.last() as int) - ('0' as int)) as nat
    }
}

pub open spec fn all_digits(s: Seq<char>) -> bool {
    forall|k: int| 0 <= k < s.len() ==> is_digit(#[trigger] s[k])
}

/// The digits of an unsigned number text: a leading `+` is dropped.
pub open spec fn unsigned_digits(s: Seq<char>) -> Seq<char> {
    if s.len() > 0 && s[0] == '+' {
        s.drop_first()
    } else {
        s
    }
}

/// What `str::parse` gives for an unsigned integer type whose largest value is `max`:
/// an optional `+`, then at least one ASCII digit, with a value that fits.
pub open spec fn parse_unsigned(s: Seq<char>, max: nat) -> Option<nat> {
    let d = unsigned_digits(s);
    if d.len() > 0 && all_digits(d) && digits_value(d) <= max {
        Some(digits_value(d))
    } else {
        None
    }
}

/// What `str::parse::<i32>` gives: an optional sign, then at least one ASCII digit,
/// with a value in range.
pub open spec fn parse_i32(s: Seq<char>) -> Option<int> {
    if s.len() > 0 && s[0] == '-' {
        let d = s.drop_first();
        if d.len() > 0 && all_digits(d) && digits_value(d) <= 0x8000_0000 {
            Some(-(digits_value(d) as int))
        } else {
            None
        }
    } else {
        match parse_unsigned(s, 0x7fff_ffff) {
            Some(v) => Some(v as int),
            None => None,
        }
    }
}

proof fn lemma_digits_value_prefix(s: Seq<char>, i: int)
    requires
        0 <= i <= s.len(),
        all_digits(s),
    ensures
        digits_value(s.take(i)) <= digits_value(s),
    decreases s.len() - i,
{
    if i < s.len() {
        lemma_digits_value_prefix(s, i + 1);
        let t = s.take(i + 1);
        assert(t.drop_last() == s.take(i));
        assert(is_digit(s[i]));
        assert(t.last() == s[i]);
    } else {
        assert(s.take(i) == s);
    }
}

/// The value of the digits of `s` from position `from` on, when they are all ASCII digits,
/// there is at least one, and the value is at most `cap`.
pub fn digits_value_capped(s: &Vec<char>, from: usize, cap: u128) -> (r: Option<u128>)
    requires
        from <= s.len(),
    ensures
        ({
            let d = s@.skip(from as int);
            match r {
                Some(v) => d.len() > 0 && all_digits(d) && digits_value(d) <= cap && v
                    == digits_value(d),
                None => !(d.len() > 0 && all_digits(d) && digits_value(d) <= cap),
            }
        }),
{
    let ghost d = s@.skip(from as int);
    if from == s.len() {
        return None;
    }
    let mut v: u128 = 0;
    let mut i: usize = from;
    while i < s.len()
        invariant
            from <= i <= s.len(),
            d == s@.skip(from as int),
            all_digits(d.take(i - from)),
            v == digits_value(d.take(i - from)),
            v <= cap,
        decreases s.len() - i,
    {
        let c = s[i];
        assert(d[i - from] == s@[i as int]);
        if !('0' <= c && c <= '9') {
            assert(!is_digit(d[i - from]));
            return None;
        }
        let dig: u128 = ((c as u32) - ('0' as u32)) as u128;
        let ghost t = d.take(i - from + 1);
        assert(t.drop_last() == d.take(i - from));
        assert(t.last() == c);
        assert(all_digits(t)) by {
            assert forall|k: int| 0 <= k < t.len() implies is_digit(#[trigger] t[k]) by {
                if k < t.len() - 1 {
                    assert(t[k] == d.take(i - from)[k]);
                }
            }
        }
        assert(digits_value(t) == v * 10 + dig);
        match v.checked_mul(10) {
            None => {
                proof {
                    if all_digits(d) {
                        lemma_digits_value_prefix(d, i - from + 1);
                    }
                }
                return None;
            },
            Some(m) => match m.checked_add(dig) {
                None => {
                    proof {
                        if all_digits(d) {
                            lemma_digits_value_prefix(d, i - from + 1);
                        }
                    }
                    return None;
                },
                Some(w) => {
                    if w > cap {
                        proof {
                            if all_digits(d) {
                                lemma_digits_value_prefix(d, i - from + 1);
                            }
                        }
                        return None;
                    }
                    v = w;
                },
            },
        }
        i = i + 1;
    }
    assert(d.take(i - from) == d);
    Some(v)
}

/// `str::parse` for an unsigned integer type whose largest value is `max`.
pub fn parse_unsigned_chars(s: &Vec<char>, max: u128) -> (r: Option<u128>)
    ensures
        match r {
            Some(v) => parse_unsigned(s@, max as nat) == Some(v as nat),
            None => parse_unsigned(s@, max as nat) is None,
        },
{
    let from: usize = if s.len() > 0 && s[0] == '+' {
        1
    } else {
        0
    };
    assert(unsigned_digits(s@) == s@.skip(from as int));
    digits_value_capped(s, from, max)
}

/// `str::parse::<i32>`.
pub fn parse_i32_chars(s: &Vec<char>) -> (r: Option<i32>)
    ensures
        match r {
            Some(v) => parse_i32(s@) == Some(v as int),
            None => parse_i32(s@) is None,
        },
{
    if s.len() > 0 && s[0] == '-' {
        assert(s@.drop_first() == s@.skip(1));
        match digits_value_capped(s, 1, 0x8000_0000) {
            Some(v) => Some((0 - (v as i64)) as i32),
            None => None,
        }
    } else {
        match parse_unsigned_chars(s, 0x7fff_ffff) {
            Some(v) => Some(v as i32),
            None => None,
        }
    }
}

/// What `str::to_lowercase` gives for `s` (full Unicode lowercase mapping).
pub uninterp spec fn lowercase(s: Seq<char>) -> Seq<char>;

/// Whether every character of `s` is ASCII.
pub open spec fn all_ascii(s: Seq<char>) -> bool {
    forall|k: int| 0 <= k < s.len() ==> (#[trigger] s[k] as u32) < 128
}

/// An ASCII letter in lowercase; other characters unchanged.
pub open spec fn ascii_lower(c: char) -> char {
    if 'A' <= c && c <= 'Z' {
        ((c as u32) + 32) as char
    } else {
        c
    }
}

/// `str::to_lowercase`. The contract claims that the result is the named lowercase mapping
/// of the input, and that on ASCII text it turns `A`-`Z` into `a`-`z` and keeps every other
/// character; beyond ASCII the mapping is left to the Unicode tables of std.
#[verifier::external_body]
pub(crate) fn to_lowercase(s: &str) -> (r: String)
    ensures
        r@ == lowercase(s@),
        all_ascii(s@) ==> r@ == s@.map_values(|c: char| ascii_lower(c)),
{
    s.to_lowercase()
}

/// Whether two string slices hold the same characters.
pub fn str_is(a: &str, b: &str) -> (r: bool)
    ensures
        r == (a@ == b@),
{
    let ac = str_to_chars(a);
    chars_equal_str(&ac, b)
}

/// `str::replace` with a non-empty pattern: every occurrence of `p`, scanning from the left
/// and not overlapping, becomes `r`.
pub open spec fn replace_all(s: Seq<char>, p: Seq<char>, r: Seq<char>) -> Seq<char>
    decreases s.len(),
{
    if p.len() == 0 || s.len() < p.len() {
        s
    } else if s.take(p.len() as int) == p {
        r + replace_all(s.skip(p.len() as int), p, r)
    } else {
        seq![s[0]] + replace_all(s.drop_first(), p, r)
    }
}

/// `str::replace` with a non-empty pattern, on character vectors.
pub fn replace_chars(s: &Vec<char>, p: &Vec<char>, r: &Vec<char>) -> (out: Vec<char>)
    requires
        p.len() > 0,
    ensures
        out@ == replace_all(s@, p@, r@),
{
    let mut out: Vec<char> = Vec::new();
    let mut i: usize = 0;
    assert(s@.skip(0) == s@);
    while i < s.len()
        invariant
            i <= s.len(),
            p.len() > 0,
            replace_all(s@, p@, r@) == out@ + replace_all(s@.skip(i as int), p@, r@),
        decreases s.len() - i,
    {
        let ghost t = s@.skip(i as int);
        if p.len() <= s.len() - i && chars_occur_at(s, p, i) {
            assert(t.take(p.len() as int) == s@.subrange(i as int, i + p.len()));
            assert(t.skip(p.len() as int) == s@.skip(i + p.len()));
            let ghost before = out@;
            append_chars(&mut out, r);
            assert(before + (r@ + replace_all(s@.skip(i + p.len()), p@, r@)) == out@
                + replace_all(s@.skip(i + p.len()), p@, r@));
            i = i + p.len();
        } else {
            proof {
                if p.len() <= t.len() {
                    assert(t.take(p.len() as int) != p@) by {
                        if t.take(p.len() as int) == p@ {
                            assert(s@.subrange(i as int, i + p.len()) == t.take(p.len() as int));
                        }
                    }
                    assert(t.drop_first() == s@.skip(i + 1));
                    assert(t[0] == s@[i as int]);
                } else {
                    assert(replace_all(t, p@, r@) == t);
                    assert(t == seq![t[0]] + s@.skip(i + 1));
                    assert(replace_all(s@.skip(i + 1), p@, r@) == s@.skip(i + 1));
                }
            }
            let ghost before = out@;
            out.push(s[i]);
            assert(before + (seq![s@[i as int]] + replace_all(s@.skip(i + 1), p@, r@)) == out@
                + replace_all(s@.skip(i + 1), p@, r@));
            i = i + 1;
        }
    }
    assert(out@ + seq![] == out@);
    out
}

/// The fields of `s` between `sep` characters: one more than there are separators.
pub open spec fn split_on(s: Seq<char>, sep: char) -> Seq<Seq<char>>
    decreases s.len(),
{
    if s.len() == 0 {
        seq![seq![]]
    } else {
        let f = split_on(s.drop_last(), sep);
        if s.last() == sep {
            f.push(seq![])
        } else {
            f.update(f.len() - 1, f.last().push(s.last()))
        }
    }
}

pub proof fn lemma_split_on_nonempty(s: Seq<char>, sep: char)
    ensures
        split_on(s, sep).len() > 0,
    decreases s.len(),
{
    if s.len() > 0 {
        lemma_split_on_nonempty(s.drop_last(), sep);
    }
}

/// `s` holds no `x`.
pub open spec fn free_of(s: Seq<char>, x: char) -> bool {
    forall|k: int| 0 <= k < s.len() ==> s[k] != x
}

/// A text without the separator is one field.
pub proof fn lemma_split_on_free(y: Seq<char>, sep: char)
    requires
        free_of(y, sep),
    ensures
        split_on(y, sep) == seq![y],
    decreases y.len(),
{
    if y.len() > 0 {
        lemma_split_on_free(y.drop_last(), sep);
        assert(y[y.len() - 1] != sep);
        assert(y.drop_last().push(y.last()) == y);
        let f = seq![y.drop_last()];
        assert(f.update(f.len() - 1, f.last().push(y.last())) == seq![y]);
    } else {
        assert(y == Seq::<char>::empty());
    }
}

/// After a separator, a text without the separator is one more field.
pub proof fn lemma_split_on_after_sep(x: Seq<char>, y: Seq<char>, sep: char)
    requires
        free_of(y, sep),
    ensures
        split_on(x + seq![sep] + y, sep) == split_on(x, sep).push(y),
    decreases y.len(),
{
    let s = x + seq![sep] + y;
    if y.len() == 0 {
        assert(s == x.push(sep));
        assert(s.drop_last() == x);
        assert(y == Seq::<char>::empty());
    } else {
        lemma_split_on_after_sep(x, y.drop_last(), sep);
        assert(s.drop_last() == x + seq![sep] + y.drop_last());
        assert(s.last() == y.last());
        assert(y[y.len() - 1] != sep);
        let f = split_on(x, sep).push(y.drop_last());
        assert(y.drop_last().push(y.last()) == y);
        assert(f.update(f.len() - 1, f.last().push(s.last())) == split_on(x, sep).push(y));
    }
}

/// `str::split` with a character separator, on character vectors.
pub fn split_chars(s: &Vec<char>, sep: char) -> (fs: Vec<Vec<char>>)
    ensures
        fs@.len() == split_on(s@, sep).len(),
        forall|k: int| 0 <= k < fs@.len() ==> (#[trigger] fs@[k])@ == split_on(s@, sep)[k],
{
    let mut fs: Vec<Vec<char>> = Vec::new();
    let mut cur: Vec<char> = Vec::new();
    let mut i: usize = 0;
    while i < s.len()
        invariant
            i <= s.len(),
            split_on(s@.take(i as int), sep).len() == fs@.len() + 1,
            forall|k: int| 0 <= k < fs@.len() ==> (#[trigger] fs@[k])@ == split_on(s@.take(i as int), sep)[k],
            cur@ == split_on(s@.take(i as int), sep).last(),
        decreases s.len() - i,
    {
        assert(s@.take(i + 1).drop_last() == s@.take(i as int));
        assert(s@.take(i + 1).last() == s@[i as int]);
        if s[i] == sep {
            let done = cur;
            fs.push(done);
            cur = Vec::new();
        } else {
            cur.push(s[i]);
        }
        i = i + 1;
    }
    assert(s@.take(s.len() as int) == s@);
    fs.push(cur);
    fs
}

/// The lines of `s` (`str::lines`): split at `\n`, a `\r` before a `\n` removed, and no
/// empty last line after a final `\n`.
pub open spec fn lines(s: Seq<char>) -> Seq<Seq<char>> {
    let f = split_on(s, '\n');
    let g = if f.last().len() == 0 {
        f.drop_last()
    } else {
        f
    };
    Seq::new(
        g.len(),
        |k: int|
            if k < f.len() - 1 && g[k].len() > 0 && g[k].last() == '\r' {
                g[k].drop_last()
            } else {
                g[k]
            },
    )
}

/// `str::lines` on a character vector.
pub fn lines_of(s: &Vec<char>) -> (ls: Vec<Vec<char>>)
    ensures
        ls@.len() == lines(s@).len(),
        forall|k: int| 0 <= k < ls@.len() ==> (#[trigger] ls@[k])@ == lines(s@)[k],
{
    let fs = split_chars(s, '\n');
    proof {
        lemma_split_on_nonempty(s@, '\n');
    }
    let n = fs.len();
    let keep = if fs[n - 1].len() == 0 {
        n - 1
    } else {
        n
    };
    let mut ls: Vec<Vec<char>> = Vec::new();
    let mut k: usize = 0;
    while k < keep
        invariant
            k <= keep <= n,
            n == fs@.len(),
            n == split_on(s@, '\n').len(),
            keep == lines(s@).len(),
            forall|j: int| 0 <= j < n ==> (#[trigger] fs@[j])@ == split_on(s@, '\n')[j],
            ls@.len() == k,
            forall|j: int| 0 <= j < k ==> (#[trigger] ls@[j])@ == lines(s@)[j],
        decreases keep - k,
    {
        let f = &fs[k];
        let mut line: Vec<char> = Vec::new();
        let m = if k + 1 < n && f.len() > 0 && f[f.len() - 1] == '\r' {
            f.len() - 1
        } else {
            f.len()
        };
        let mut j: usize = 0;
        while j < m
            invariant
                j <= m <= f.len(),
                line@ == f@.take(j as int),
            decreases m - j,
        {
            line.push(f[j]);
            j = j + 1;
        }
        assert(line@ == lines(s@)[k as int]);
        ls.push(line);
        k = k + 1;
    }
    ls
}

} // verus!
