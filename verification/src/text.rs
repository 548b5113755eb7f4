//! Strings as sequences of characters: splitting, trimming, searching and
//! rendering, with the mathematical functions that say what each one gives.

use vstd::prelude::*;
use vstd::utf8::{decode_utf8, valid_utf8};

verus! {

// ---- what is taken from the standard library ----

/// `String::push` appends the character to the end of the string.
pub assume_specification[ String::push ](s: &mut String, c: char)
    ensures
        final(s)@ == old(s)@.push(c),
;

/// `String::pop` removes the last character and returns it; the empty string
/// is left as it is and gives `None`.
pub assume_specification[ String::pop ](s: &mut String) -> (r: Option<char>)
    ensures
        old(s)@.len() == 0 ==> r is None && final(s)@ == old(s)@,
        old(s)@.len() > 0 ==> r == Some(old(s)@.last()) && final(s)@ == old(s)@.drop_last(),
;

/// `std::str::from_utf8`: the text that the bytes encode, or nothing where
/// they are not valid UTF-8.
#[verifier::external_body]
pub(crate) fn from_utf8(bytes: &[u8]) -> (r: Option<&str>)
    ensures
        r is Some <==> valid_utf8(bytes@),
        r matches Some(s) ==> s@ == decode_utf8(bytes@),
{
    std::str::from_utf8(bytes).ok()
}

/// The Unicode lower case of a text, as `str::to_lowercase` gives it.
pub uninterp spec fn lowercase(s: Seq<char>) -> Seq<char>;

/// `str::to_lowercase`: a function of the text alone. Every character becomes
/// one or more, so that only the empty text has an empty lower case. On a text
/// of ASCII characters it maps the letters A to Z to a to z and keeps the rest.
#[verifier::external_body]
pub(crate) fn to_lowercase(s: &str) -> (r: String)
    ensures
        r@ == lowercase(s@),
        r@.len() == 0 <==> s@.len() == 0,
        is_ascii_text(s@) ==> r@ == ascii_lowercase(s@),
{
    s.to_lowercase()
}

/// A text in quotes with its special characters escaped, as the `Debug`
/// format of `str` gives it.
pub uninterp spec fn quoted(s: Seq<char>) -> Seq<char>;

/// The `Debug` format of `str`: a function of the text alone.
#[verifier::external_body]
pub(crate) fn quote(s: &str) -> (r: String)
    ensures
        r@ == quoted(s@),
{
    format!("{:?}", s)
}

/// Two texts are the same, or the same but for the case of ASCII letters.
pub open spec fn same_value(name: Seq<char>, input: Seq<char>, ignore_case: bool) -> bool {
    if ignore_case {
        ascii_lowercase(name) == ascii_lowercase(input)
    } else {
        name == input
    }
}

/// `clap::builder::PossibleValue::matches` on a value without aliases: whether
/// `input` names it. The comparison is exact, or, with `ignore_case`, up to the
/// case of ASCII letters.
#[verifier::external_body]
pub(crate) fn names_value(name: &'static str, input: &str, ignore_case: bool) -> (r: bool)
    ensures
        r == same_value(name@, input@, ignore_case),
{
    clap::builder::PossibleValue::new(name).matches(input, ignore_case)
}

/// The message for an input that names no value.
pub open spec fn invalid_variant(input: Seq<char>) -> Seq<char> {
    "invalid variant: "@ + input
}

/// The message for an input that names no value.
pub fn reject_variant(input: &str) -> (r: String)
    ensures
        r@ == invalid_variant(input@),
{
    let mut r = String::new();
    r.append("invalid variant: ");
    r.append(input);
    assert(r@ =~= invalid_variant(input@));
    r
}

// ---- pieces and characters ----

/// `part` occurs in `s` as a contiguous piece.
pub open spec fn has_piece(s: Seq<char>, part: Seq<char>) -> bool {
    exists|i: int|
        0 <= i && i + part.len() <= s.len() && #[trigger] s.subrange(i, i + part.len()) == part
}

/// Every character is below U+0080.
pub open spec fn is_ascii_text(s: Seq<char>) -> bool {
    forall|i: int| 0 <= i < s.len() ==> (#[trigger] s[i] as u32) < 128
}

/// `A` to `Z` become `a` to `z`; every other character stays.
pub open spec fn ascii_lower(c: char) -> char {
    if 'A' <= c && c <= 'Z' {
        (c as u32 + 32) as char
    } else {
        c
    }
}

/// [`ascii_lower`] on every character of a text.
pub open spec fn ascii_lowercase(s: Seq<char>) -> Seq<char> {
    s.map_values(|c: char| ascii_lower(c))
}

/// The ASCII lower case of one character.
pub fn to_ascii_lower(c: char) -> (r: char)
    ensures
        r == ascii_lower(c),
{
    if 'A' <= c && c <= 'Z' {
        let shifted: u8 = c as u8 + 32;
        shifted as char
    } else {
        c
    }
}

/// Unicode's `White_Space` property.
pub open spec fn white_space(c: char) -> bool {
    let n = c as u32;
    ||| 0x9 <= n <= 0xd
    ||| n == 0x20
    ||| n == 0x85
    ||| n == 0xa0
    ||| n == 0x1680
    ||| 0x2000 <= n <= 0x200a
    ||| n == 0x2028
    ||| n == 0x2029
    ||| n == 0x202f
    ||| n == 0x205f
    ||| n == 0x3000
}

/// Whether the character has Unicode's `White_Space` property.
pub fn is_white_space(c: char) -> (r: bool)
    ensures
        r == white_space(c),
{
    let n: u32 = c as u32;
    (0x9 <= n && n <= 0xd) || n == 0x20 || n == 0x85 || n == 0xa0 || n == 0x1680 || (0x2000 <= n
        && n <= 0x200a) || n == 0x2028 || n == 0x2029 || n == 0x202f || n == 0x205f || n == 0x3000
}

/// An ASCII letter or digit.
pub open spec fn alphanumeric(c: char) -> bool {
    ||| '0' <= c && c <= '9'
    ||| 'A' <= c && c <= 'Z'
    ||| 'a' <= c && c <= 'z'
}

/// Whether the character is an ASCII letter or digit.
pub fn is_alphanumeric(c: char) -> (r: bool)
    ensures
        r == alphanumeric(c),
{
    ('0' <= c && c <= '9') || ('A' <= c && c <= 'Z') || ('a' <= c && c <= 'z')
}

// ---- from strings to vectors of characters and back ----

/// The characters of `s`, in order.
pub fn chars_of(s: &str) -> (v: Vec<char>)
    ensures
        v@ == s@,
{
    let mut v: Vec<char> = Vec::new();
    for c in it: s.chars()
        invariant
            it.seq() == s@,
            v@ == it.seq().take(it.index()),
    {
        v.push(c);
        assert(it.seq().take(it.index() + 1) == it.seq().take(it.index()).push(c));
    }
    v
}

/// The string that `chars` spell.
pub fn string_of(chars: &[char]) -> (s: String)
    ensures
        s@ == chars@,
{
    let mut s = String::new();
    for i in 0..chars.len()
        invariant
            s@ == chars@.take(i as int),
    {
        s.push(chars[i]);
        assert(chars@.take(i + 1) == chars@.take(i as int).push(chars@[i as int]));
    }
    assert(chars@.take(chars@.len() as int) == chars@);
    s
}

/// The lower-case form of a text in which only ASCII letters are mapped.
pub fn to_ascii_lowercase(s: &str) -> (r: String)
    ensures
        r@ == ascii_lowercase(s@),
{
    let chars = chars_of(s);
    let mut r = String::new();
    for i in 0..chars.len()
        invariant
            chars@ == s@,
            r@ == ascii_lowercase(s@.take(i as int)),
    {
        r.push(to_ascii_lower(chars[i]));
        assert(r@ == ascii_lowercase(s@.take(i + 1)));
    }
    assert(s@.take(s@.len() as int) == s@);
    r
}

/// The elements from `lo` up to `hi`.
pub fn piece(chars: &[char], lo: usize, hi: usize) -> (v: Vec<char>)
    requires
        lo <= hi <= chars@.len(),
    ensures
        v@ == chars@.subrange(lo as int, hi as int),
{
    let mut v: Vec<char> = Vec::new();
    for i in lo..hi
        invariant
            lo <= hi <= chars@.len(),
            v@ == chars@.subrange(lo as int, i as int),
    {
        v.push(chars[i]);
        assert(chars@.subrange(lo as int, i + 1) == chars@.subrange(lo as int, i as int).push(
            chars@[i as int],
        ));
    }
    v
}

/// Whether two runs of characters are the same.
pub fn same_chars(a: &[char], b: &[char]) -> (r: bool)
    ensures
        r == (a@ == b@),
{
    if a.len() != b.len() {
        return false;
    }
    for i in 0..a.len()
        invariant
            a@.len() == b@.len(),
            forall|j: int| 0 <= j < i ==> a@[j] == b@[j],
    {
        if a[i] != b[i] {
            return false;
        }
    }
    assert(a@ =~= b@);
    true
}

/// Whether `part` stands in `chars` at `at`.
fn stands_at(chars: &[char], part: &[char], at: usize) -> (r: bool)
    requires
        at + part@.len() <= chars@.len(),
    ensures
        r == (chars@.subrange(at as int, at + part@.len()) == part@),
{
    let n: usize = chars.len();
    for i in 0..part.len()
        invariant
            at + part@.len() <= chars@.len() == n,
            forall|j: int| 0 <= j < i ==> chars@[at + j] == #[trigger] part@[j],
    {
        if chars[at + i] != part[i] {
            assert(chars@.subrange(at as int, at + part@.len())[i as int] != part@[i as int]);
            return false;
        }
    }
    assert(chars@.subrange(at as int, at + part@.len()) =~= part@);
    true
}

/// Whether `s` begins with `prefix`.
pub fn starts_with(s: &str, prefix: &str) -> (r: bool)
    ensures
        r == prefix@.is_prefix_of(s@),
{
    let (chars, part) = (chars_of(s), chars_of(prefix));
    part.len() <= chars.len() && stands_at(&chars, &part, 0)
}

/// Whether `part` occurs in `s` as a contiguous piece.
pub fn contains(s: &str, part: &str) -> (r: bool)
    ensures
        r == has_piece(s@, part@),
{
    let (chars, wanted) = (chars_of(s), chars_of(part));
    if wanted.len() > chars.len() {
        return false;
    }
    let last: usize = chars.len() - wanted.len();
    for i in 0..last
        invariant
            chars@ == s@,
            wanted@ == part@,
            last == s@.len() - part@.len(),
            forall|j: int| 0 <= j < i ==> #[trigger] s@.subrange(j, j + part@.len()) != part@,
    {
        if stands_at(&chars, &wanted, i) {
            return true;
        }
    }
    stands_at(&chars, &wanted, last)
}

/// The texts of a list of strings.
pub open spec fn texts(v: Seq<String>) -> Seq<Seq<char>> {
    v.map_values(|s: String| s@)
}

/// The contents of a list of character vectors.
pub open spec fn runs(v: Seq<Vec<char>>) -> Seq<Seq<char>> {
    v.map_values(|s: Vec<char>| s@)
}

// ---- leading runs ----

/// How many elements at the front of `s` satisfy `p`.
pub open spec fn lead<T>(s: Seq<T>, p: spec_fn(T) -> bool) -> nat
    decreases s.len(),
{
    if s.len() > 0 && p(s[0]) {
        1 + lead(s.drop_first(), p)
    } else {
        0
    }
}

/// What [`lead`] counts: everything before it satisfies `p`, and the element
/// behind it, if there is one, does not.
pub proof fn lemma_lead<T>(s: Seq<T>, p: spec_fn(T) -> bool)
    ensures
        lead(s, p) <= s.len(),
        forall|i: int| 0 <= i < lead(s, p) ==> p(#[trigger] s[i]),
        lead(s, p) < s.len() ==> !p(s[lead(s, p) as int]),
    decreases s.len(),
{
    if s.len() > 0 && p(s[0]) {
        lemma_lead(s.drop_first(), p);
        assert forall|i: int| 0 <= i < lead(s, p) implies p(#[trigger] s[i]) by {
            if i > 0 {
                assert(s[i] == s.drop_first()[i - 1]);
            }
        }
    }
}

/// [`lead`] is the only count with these properties.
pub proof fn lemma_lead_is<T>(s: Seq<T>, p: spec_fn(T) -> bool, k: int)
    requires
        0 <= k <= s.len(),
        forall|i: int| 0 <= i < k ==> p(#[trigger] s[i]),
        k < s.len() ==> !p(s[k]),
    ensures
        lead(s, p) == k,
{
    lemma_lead(s, p);
    if lead(s, p) < k {
        assert(p(s[lead(s, p) as int]));
    }
}

// ---- splitting ----

/// The elements other than `sep`.
pub open spec fn not_sep<T>(sep: T) -> spec_fn(T) -> bool {
    |x: T| x != sep
}

/// The pieces of `s` between the occurrences of `sep`, empty ones included:
/// one piece more than there are separators.
pub open spec fn split_on<T>(s: Seq<T>, sep: T) -> Seq<Seq<T>>
    decreases s.len(),
{
    let k = lead(s, not_sep(sep));
    if k < s.len() {
        seq![s.take(k as int)] + split_on(s.skip(k as int + 1), sep)
    } else {
        seq![s]
    }
}

/// Splits characters at every occurrence of `sep`.
pub fn split_chars(chars: &[char], sep: char) -> (parts: Vec<Vec<char>>)
    ensures
        runs(parts@) == split_on(chars@, sep),
{
    let mut parts: Vec<Vec<char>> = Vec::new();
    let mut start: usize = 0;
    proof {
        assert(chars@.skip(0) == chars@);
        assert(runs(parts@) + split_on(chars@, sep) == split_on(chars@, sep));
    }
    for i in 0..chars.len()
        invariant
            start <= i <= chars@.len(),
            forall|j: int| start <= j < i ==> chars@[j] != sep,
            runs(parts@) + split_on(chars@.skip(start as int), sep) == split_on(chars@, sep),
    {
        if chars[i] == sep {
            let ghost rest = chars@.skip(start as int);
            proof {
                lemma_lead_is(rest, not_sep(sep), i - start);
                assert(rest.take(i - start) == chars@.subrange(start as int, i as int));
                assert(rest.skip(i - start + 1) == chars@.skip(i + 1));
            }
            let part = piece(chars, start, i);
            let ghost before = parts@;
            parts.push(part);
            start = i + 1;
            assert(runs(parts@) == runs(before).push(part@));
            assert(runs(parts@) + split_on(chars@.skip(start as int), sep) =~= runs(before)
                + split_on(rest, sep));
        }
    }
    let ghost rest = chars@.skip(start as int);
    proof {
        lemma_lead_is(rest, not_sep(sep), rest.len() as int);
        assert(rest == chars@.subrange(start as int, chars@.len() as int));
    }
    let part = piece(chars, start, chars.len());
    let ghost before = parts@;
    parts.push(part);
    assert(runs(parts@) == runs(before).push(part@));
    assert(runs(parts@) =~= runs(before) + split_on(rest, sep));
    parts
}

/// The characters that are not white space.
pub open spec fn inked() -> spec_fn(char) -> bool {
    |c: char| !white_space(c)
}

/// The white-space characters.
pub open spec fn blank() -> spec_fn(char) -> bool {
    |c: char| white_space(c)
}

/// The maximal runs of characters that are not white space, in order.
pub open spec fn words(s: Seq<char>) -> Seq<Seq<char>>
    decreases s.len(),
{
    if s.len() == 0 {
        seq![]
    } else if white_space(s[0]) {
        words(s.drop_first())
    } else {
        proof {
            lemma_lead(s, inked());
        }
        let k = lead(s, inked());
        seq![s.take(k as int)] + words(s.skip(k as int))
    }
}

/// A word in front of white space, and what follows, split apart.
pub proof fn lemma_words_step(w: Seq<char>, gap: char, rest: Seq<char>)
    requires
        w.len() > 0,
        forall|i: int| 0 <= i < w.len() ==> !white_space(#[trigger] w[i]),
        white_space(gap),
    ensures
        words(w.push(gap) + rest) == seq![w] + words(rest),
{
    let s = w.push(gap) + rest;
    assert forall|i: int| 0 <= i < w.len() implies inked()(#[trigger] s[i]) by {
        assert(s[i] == w[i]);
    }
    assert(s[w.len() as int] == gap);
    lemma_lead_is(s, inked(), w.len() as int);
    assert(!white_space(s[0])) by {
        assert(s[0] == w[0]);
    }
    assert(s.take(w.len() as int) == w);
    let t = s.skip(w.len() as int);
    assert(t[0] == gap);
    assert(t.drop_first() == rest);
    assert(words(t) == words(rest));
    assert(words(s) == seq![w] + words(t));
}

/// The words of a text.
pub fn split_words(chars: &[char]) -> (parts: Vec<Vec<char>>)
    ensures
        runs(parts@) == words(chars@),
{
    let mut parts: Vec<Vec<char>> = Vec::new();
    let mut i: usize = 0;
    proof {
        assert(chars@.skip(0) == chars@);
        assert(runs(parts@) + words(chars@) == words(chars@));
    }
    while i < chars.len()
        invariant
            i <= chars@.len(),
            runs(parts@) + words(chars@.skip(i as int)) == words(chars@),
        decreases chars@.len() - i,
    {
        let ghost rest = chars@.skip(i as int);
        if is_white_space(chars[i]) {
            assert(rest.drop_first() == chars@.skip(i + 1));
            i = i + 1;
        } else {
            let start: usize = i;
            i = i + 1;
            while i < chars.len() && !is_white_space(chars[i])
                invariant
                    start < i <= chars@.len(),
                    forall|j: int| start <= j < i ==> !white_space(#[trigger] chars@[j]),
                decreases chars@.len() - i,
            {
                i = i + 1;
            }
            proof {
                lemma_lead_is(rest, inked(), i - start);
                assert(rest.take(i - start) == chars@.subrange(start as int, i as int));
                assert(rest.skip(i - start) == chars@.skip(i as int));
            }
            let part = piece(chars, start, i);
            let ghost before = parts@;
            parts.push(part);
            assert(runs(parts@) == runs(before).push(part@));
            assert(runs(parts@) + words(chars@.skip(i as int)) =~= runs(before) + words(rest));
        }
    }
    assert(chars@.skip(i as int) =~= Seq::<char>::empty());
    assert(runs(parts@) + words(chars@.skip(i as int)) =~= runs(parts@));
    parts
}

// ---- trimming ----

/// `s` without the white space at its front.
pub open spec fn trim_front(s: Seq<char>) -> Seq<char> {
    s.skip(lead(s, blank()) as int)
}

/// `s` without the white space at its front and back.
pub open spec fn trimmed(s: Seq<char>) -> Seq<char> {
    trim_front(trim_front(s).reverse()).reverse()
}

/// Removes the white space at both ends.
pub fn trim(chars: &[char]) -> (v: Vec<char>)
    ensures
        v@ == trimmed(chars@),
{
    let mut lo: usize = 0;
    while lo < chars.len() && is_white_space(chars[lo])
        invariant
            lo <= chars@.len(),
            forall|j: int| 0 <= j < lo ==> white_space(#[trigger] chars@[j]),
        decreases chars@.len() - lo,
    {
        lo = lo + 1;
    }
    let ghost front = chars@.skip(lo as int);
    proof {
        lemma_lead_is(chars@, blank(), lo as int);
    }
    let mut hi: usize = chars.len();
    while hi > lo && is_white_space(chars[hi - 1])
        invariant
            lo <= hi <= chars@.len(),
            forall|j: int| hi <= j < chars@.len() ==> white_space(#[trigger] chars@[j]),
        decreases hi,
    {
        hi = hi - 1;
    }
    proof {
        let back = front.reverse();
        let k = chars@.len() - hi;
        assert forall|i: int| 0 <= i < k implies blank()(#[trigger] back[i]) by {
            assert(back[i] == chars@[chars@.len() - 1 - i]);
        }
        if k < back.len() {
            assert(back[k] == chars@[hi - 1]);
        }
        lemma_lead_is(back, blank(), k);
        assert(back.skip(k).reverse() =~= chars@.subrange(lo as int, hi as int));
    }
    piece(chars, lo, hi)
}

// ---- numbers ----

/// The digit that stands for `d`.
pub open spec fn digit(d: int) -> char {
    (48 + d) as char
}

/// The decimal digits of `n`, most significant first, without leading zeros.
pub open spec fn digits(n: nat) -> Seq<char>
    decreases n,
{
    if n < 10 {
        seq![digit(n as int)]
    } else {
        digits(n / 10).push(digit((n % 10) as int))
    }
}

/// The decimal form of an integer.
pub open spec fn decimal(n: int) -> Seq<char> {
    if n < 0 {
        seq!['-'] + digits((-n) as nat)
    } else {
        digits(n as nat)
    }
}

/// Appends the decimal digits of `n`.
pub fn push_digits(s: &mut String, n: u64)
    ensures
        final(s)@ == old(s)@ + digits(n as nat),
    decreases n,
{
    if n >= 10 {
        push_digits(s, n / 10);
    }
    let d: u8 = 48 + (n % 10) as u8;
    s.push(d as char);
    assert(s@ =~= old(s)@ + digits(n as nat));
}

/// Appends the decimal form of `n`.
pub fn push_decimal(s: &mut String, n: i64)
    ensures
        final(s)@ == old(s)@ + decimal(n as int),
{
    if n < 0 {
        s.push('-');
        let magnitude: u64 = if n == i64::MIN {
            0x8000_0000_0000_0000
        } else {
            (-n) as u64
        };
        push_digits(s, magnitude);
        assert(s@ =~= old(s)@ + decimal(n as int));
    } else {
        push_digits(s, n as u64);
    }
}

// ---- what the operations on texts keep ----

/// The pieces of a text with the separator between them.
pub open spec fn rejoined<T>(parts: Seq<Seq<T>>, sep: T) -> Seq<T>
    decreases parts.len(),
{
    if parts.len() == 0 {
        seq![]
    } else if parts.len() == 1 {
        parts[0]
    } else {
        parts[0].push(sep) + rejoined(parts.drop_first(), sep)
    }
}

/// Splitting loses nothing: the pieces with the separator between them are the
/// text, there is at least one, and none of them holds the separator.
pub proof fn law_splitting_loses_nothing<T>(s: Seq<T>, sep: T)
    ensures
        split_on(s, sep).len() > 0,
        rejoined(split_on(s, sep), sep) == s,
        forall|k: int, i: int|
            0 <= k < split_on(s, sep).len() && 0 <= i < split_on(s, sep)[k].len()
                ==> #[trigger] split_on(s, sep)[k][i] != sep,
    decreases s.len(),
{
    let p = not_sep(sep);
    lemma_lead(s, p);
    let k = lead(s, p) as int;
    let all = split_on(s, sep);
    assert forall|i: int| 0 <= i < k implies #[trigger] s[i] != sep by {
        assert(p(s[i]));
    }
    if k < s.len() {
        let rest = s.skip(k + 1);
        law_splitting_loses_nothing(rest, sep);
        let tail = split_on(rest, sep);
        assert(all.drop_first() =~= tail);
        assert(s[k] == sep);
        assert(s.take(k).push(sep) + rest =~= s);
        assert forall|j: int, i: int| 0 <= j < all.len() && 0 <= i < all[j].len() implies
            #[trigger] all[j][i] != sep by {
            if j > 0 {
                assert(all[j] == tail[j - 1]);
                assert(tail[j - 1][i] != sep);
            } else {
                assert(all[0] == s.take(k));
                assert(s.take(k)[i] == s[i]);
            }
        }
    }
}

/// A text without white space is its own and only word.
pub proof fn law_a_word_is_its_own(w: Seq<char>)
    requires
        w.len() > 0,
        forall|i: int| 0 <= i < w.len() ==> !white_space(#[trigger] w[i]),
    ensures
        words(w) == seq![w],
{
    lemma_lead_is(w, inked(), w.len() as int);
    assert(!white_space(w[0]));
    assert(w.take(w.len() as int) =~= w);
    assert(w.skip(w.len() as int) =~= seq![]);
    assert(words(w.skip(w.len() as int)) =~= seq![]);
    assert(words(w) =~= seq![w]);
}

/// White space separates words, and more of it changes nothing: in front of a
/// text it is skipped, and behind a word it ends the word.
pub proof fn law_white_space_separates_words(gap: char, w: Seq<char>, rest: Seq<char>)
    requires
        white_space(gap),
    ensures
        words(seq![]) == Seq::<Seq<char>>::empty(),
        words(seq![gap] + rest) == words(rest),
        w.len() > 0 && (forall|i: int| 0 <= i < w.len() ==> !white_space(#[trigger] w[i]))
            ==> words(w.push(gap) + rest) == seq![w] + words(rest),
{
    assert((seq![gap] + rest).drop_first() =~= rest);
    assert((seq![gap] + rest)[0] == gap);
    if w.len() > 0 && forall|i: int| 0 <= i < w.len() ==> !white_space(#[trigger] w[i]) {
        lemma_words_step(w, gap, rest);
    }
}

/// Trimming takes white space off both ends and nothing else: what remains is a
/// piece of the text, with white space before and behind it only, and neither
/// begins nor ends with any.
pub proof fn law_trimming(s: Seq<char>) -> (bounds: (int, int))
    ensures
        0 <= bounds.0 <= bounds.1 <= s.len(),
        trimmed(s) == s.subrange(bounds.0, bounds.1),
        forall|i: int| 0 <= i < bounds.0 ==> white_space(#[trigger] s[i]),
        forall|i: int| bounds.1 <= i < s.len() ==> white_space(#[trigger] s[i]),
        trimmed(s).len() > 0 ==> !white_space(trimmed(s)[0]) && !white_space(trimmed(s).last()),
{
    lemma_lead(s, blank());
    let lo = lead(s, blank()) as int;
    let front = s.skip(lo);
    let back = front.reverse();
    lemma_lead(back, blank());
    let k = lead(back, blank()) as int;
    let hi = s.len() - k;
    assert forall|i: int| 0 <= i < lo implies white_space(#[trigger] s[i]) by {
        assert(blank()(s[i]));
    }
    assert forall|i: int| hi <= i < s.len() implies white_space(#[trigger] s[i]) by {
        assert(back[s.len() - 1 - i] == s[i]);
        assert(blank()(back[s.len() - 1 - i]));
    }
    assert(back.skip(k).reverse() =~= s.subrange(lo, hi));
    if lo < hi {
        assert(!blank()(s[lo]));
        assert(back[k] == s[hi - 1]);
        assert(!blank()(back[k]));
    }
    (lo, hi)
}

/// A text that neither begins nor ends with white space is kept as it is, and
/// trimming once is enough.
pub proof fn law_trimmed_text_stays(s: Seq<char>)
    ensures
        s.len() > 0 && !white_space(s[0]) && !white_space(s.last()) ==> trimmed(s) == s,
        trimmed(trimmed(s)) == trimmed(s),
{
    lemma_trimmed_stays(s);
    let _ = law_trimming(s);
    let t = trimmed(s);
    if t.len() > 0 {
        lemma_trimmed_stays(t);
    } else {
        let _ = law_trimming(t);
        assert(trimmed(t) =~= t);
    }
}

proof fn lemma_trimmed_stays(s: Seq<char>)
    ensures
        s.len() > 0 && !white_space(s[0]) && !white_space(s.last()) ==> trimmed(s) == s,
{
    if s.len() > 0 && !white_space(s[0]) && !white_space(s.last()) {
        let (lo, hi) = law_trimming(s);
        if lo > 0 {
            assert(white_space(s[0]));
        }
        if hi < s.len() {
            assert(white_space(s[s.len() - 1]));
        }
        assert(s.subrange(0, s.len() as int) =~= s);
    }
}

/// A part occurs in a text exactly where its characters stand there one after
/// the other.
pub proof fn law_pieces_stand_in_the_text(s: Seq<char>, part: Seq<char>, i: int)
    requires
        0 <= i,
        i + part.len() <= s.len(),
        forall|j: int| 0 <= j < part.len() ==> s[i + j] == #[trigger] part[j],
    ensures
        has_piece(s, part),
{
    assert(s.subrange(i, i + part.len()) =~= part);
}

/// Where a part occurs in a text.
pub proof fn law_pieces_have_a_place(s: Seq<char>, part: Seq<char>) -> (i: int)
    requires
        has_piece(s, part),
    ensures
        0 <= i,
        i + part.len() <= s.len(),
        forall|j: int| 0 <= j < part.len() ==> s[i + j] == #[trigger] part[j],
{
    let i = choose|i: int|
        0 <= i && i + part.len() <= s.len() && #[trigger] s.subrange(i, i + part.len()) == part;
    assert forall|j: int| 0 <= j < part.len() implies s[i + j] == #[trigger] part[j] by {
        assert(s.subrange(i, i + part.len())[j] == s[i + j]);
    }
    i
}

/// The lower case of an ASCII letter is 32 above it; every other character
/// stays, so that what is in lower case already stays too.
pub proof fn law_ascii_lower_case(c: char, s: Seq<char>)
    ensures
        65 <= c as u32 <= 90 ==> ascii_lower(c) as u32 == c as u32 + 32,
        !(65 <= c as u32 <= 90) ==> ascii_lower(c) == c,
        ascii_lower(ascii_lower(c)) == ascii_lower(c),
        ascii_lowercase(s).len() == s.len(),
        forall|i: int|
            0 <= i < s.len() ==> #[trigger] ascii_lowercase(s)[i] == ascii_lower(s[i]),
        ascii_lowercase(ascii_lowercase(s)) == ascii_lowercase(s),
{
    assert forall|d: char| #[trigger] ascii_lower(ascii_lower(d)) == ascii_lower(d) by {}
    assert(ascii_lowercase(ascii_lowercase(s)) =~= ascii_lowercase(s));
}

/// The digits of a number are those of its tenth and then its last one; the
/// sign of a negative number stands in front.
pub proof fn law_decimal_forms(n: nat, d: int)
    requires
        0 <= d <= 9,
    ensures
        digits(d as nat) == seq![(48 + d) as char],
        n > 0 ==> digits((10 * n + d) as nat) == digits(n).push((48 + d) as char),
        decimal(n as int) == digits(n),
        n > 0 ==> decimal(-(n as int)) == seq!['-'] + digits(n),
{
    if n > 0 {
        let m = (10 * n + d) as nat;
        assert(m / 10 == n && m % 10 == d);
        assert(digits(m) == digits(n).push(digit(d)));
    }
}

/// Names are compared letter by letter: exactly, or up to the case of ASCII
/// letters.
pub proof fn law_same_values(a: Seq<char>, b: Seq<char>)
    ensures
        same_value(a, b, false) <==> a == b,
        same_value(a, b, true) <==> a.len() == b.len() && forall|i: int|
            0 <= i < a.len() ==> ascii_lower(#[trigger] a[i]) == ascii_lower(b[i]),
{
    let (x, y) = (ascii_lowercase(a), ascii_lowercase(b));
    if x == y {
        assert(a.len() == x.len() && b.len() == y.len());
        assert forall|i: int| 0 <= i < a.len() implies ascii_lower(#[trigger] a[i]) == ascii_lower(
            b[i],
        ) by {
            assert(x[i] == y[i]);
        }
    }
    if a.len() == b.len() && forall|i: int|
        0 <= i < a.len() ==> ascii_lower(#[trigger] a[i]) == ascii_lower(b[i]) {
        assert(x =~= y);
    }
}

/// The texts of strings, and the contents of character lists, are those of each
/// one in turn.
pub proof fn law_texts_are_each_ones_own(v: Seq<String>, u: Seq<Vec<char>>)
    ensures
        texts(v).len() == v.len(),
        forall|i: int| 0 <= i < v.len() ==> #[trigger] texts(v)[i] == v[i]@,
        runs(u).len() == u.len(),
        forall|i: int| 0 <= i < u.len() ==> #[trigger] runs(u)[i] == u[i]@,
{
}

/// An input that names nothing is quoted in the message behind what is wrong
/// with it.
pub proof fn law_rejections_name_the_input(input: Seq<char>)
    ensures
        invalid_variant(input).len() == 17 + input.len(),
        invalid_variant(input).skip(17) == input,
        invalid_variant(input).take(17) == "invalid variant: "@,
{
    reveal_strlit("invalid variant: ");
    assert(invalid_variant(input).skip(17) =~= input);
    assert(invalid_variant(input).take(17) =~= "invalid variant: "@);
}

/// ASCII letters and digits by their codes.
pub proof fn law_alphanumeric_characters(c: char)
    ensures
        alphanumeric(c) <==> 48 <= c as u32 <= 57 || 65 <= c as u32 <= 90 || 97 <= c as u32 <= 122,
{
}

/// A text is ASCII exactly where no character is beyond the first 128.
pub proof fn law_ascii_texts(s: Seq<char>, i: int)
    ensures
        is_ascii_text(s) && 0 <= i < s.len() ==> s[i] as u32 <= 127,
        (forall|j: int| 0 <= j < s.len() ==> (#[trigger] s[j] as u32) <= 127) ==> is_ascii_text(s),
{
}

} // verus!
