//! Fuzzy matching of a query against a text, and what the matcher can be asked.
//!
//! The matcher takes a query apart into words, looks for the needle of each of
//! them in the text, and adds the scores up. Its arithmetic has limits, and in
//! some cases it is of two minds about the same letter: [`scorable`] says which
//! queries and texts keep clear of both.

use crate::text::{lead, lemma_lead, lemma_lead_is};
use vstd::prelude::*;

verus! {

// ---- what is taken from the matcher ----

/// The words of a query, in order: whether the word is matched fuzzily, and its
/// needle. What `nucleo_matcher::pattern::Pattern::parse` gives.
pub uninterp spec fn pattern_words(query: Seq<char>) -> Seq<(bool, Seq<char>)>;

/// `nucleo_matcher::pattern::Pattern::parse`, ignoring case and with smart
/// normalization: of each atom whether its kind is `Fuzzy`, and the characters
/// of `Atom::needle_text`. A function of the query alone.
#[verifier::external_body]
fn parse_words(query: &str) -> (r: Vec<(bool, Vec<char>)>)
    ensures
        r@.map_values(|w: (bool, Vec<char>)| (w.0, w.1@)) == pattern_words(query@),
{
    let case = nucleo_matcher::pattern::CaseMatching::Ignore;
    let normalization = nucleo_matcher::pattern::Normalization::Smart;
    let mut words: Vec<(bool, Vec<char>)> = Vec::new();
    for atom in nucleo_matcher::pattern::Pattern::parse(query, case, normalization).atoms {
        let fuzzy = matches!(atom.kind, nucleo_matcher::pattern::AtomKind::Fuzzy);
        words.push((fuzzy, atom.needle_text().chars().collect()));
    }
    words
}

/// A text as the matcher searches it: whether it is kept as bytes, and its
/// characters. What `nucleo_matcher::Utf32Str::new` gives.
pub uninterp spec fn haystack(text: Seq<char>) -> (bool, Seq<char>);

/// `nucleo_matcher::Utf32Str::new`, read back through `is_ascii` and `chars`: a
/// function of the text alone.
#[verifier::external_body]
fn segment(text: &str) -> (r: (bool, Vec<char>))
    ensures
        (r.0, r.1@) == haystack(text@),
{
    let mut buf: Vec<char> = Vec::new();
    let haystack = nucleo_matcher::Utf32Str::new(text, &mut buf);
    (haystack.is_ascii(), haystack.chars().collect())
}

/// A character without the distinction of case, as
/// `nucleo_matcher::chars::to_lower_case` gives it.
pub uninterp spec fn folded(c: char) -> char;

/// `nucleo_matcher::chars::to_lower_case`: a function of the character alone.
#[verifier::external_body]
fn fold(c: char) -> (r: char)
    ensures
        r == folded(c),
{
    nucleo_matcher::chars::to_lower_case(c)
}

/// The plain letter that a variant of a Latin letter stands for, as
/// `nucleo_matcher::chars::normalize` gives it.
pub uninterp spec fn normalized(c: char) -> char;

/// `nucleo_matcher::chars::normalize`: a function of the character alone.
#[verifier::external_body]
fn normalize(c: char) -> (r: char)
    ensures
        r == normalized(c),
{
    nucleo_matcher::chars::normalize(c)
}

/// Unicode's `Lowercase` property, as `char::is_lowercase` tells it.
pub uninterp spec fn lower_case(c: char) -> bool;

/// `char::is_lowercase`: a function of the character alone.
#[verifier::external_body]
fn is_lower_case(c: char) -> (r: bool)
    ensures
        r == lower_case(c),
{
    c.is_lowercase()
}

/// How well `query` matches `text`, if it does: what
/// `nucleo_matcher::pattern::Pattern::score` gives.
pub uninterp spec fn fuzzy_score(query: Seq<char>, text: Seq<char>) -> Option<u32>;

/// Fuzzy matching: `nucleo_matcher::pattern::Pattern::parse` on the query,
/// ignoring case and with smart normalization, then `Pattern::score` on the
/// text with a default `Matcher`. The result is a function of the two texts.
///
/// [`scorable`] leaves out where the matcher could panic:
/// - It asserts that a haystack has no more than `u32::MAX` characters.
/// - It scores in 16 bits, one needle at a time and no more characters than the
///   needle has, and only where they are found in the haystack in their order;
///   it adds the scores up in 32 bits.
/// - For a fuzzy match it multiplies the lengths of the needle and of the part
///   of the haystack that it searches, if the needle is the shorter one.
/// - A fuzzy search that does not normalize begins at the first character that
///   folds to the first one of the needle. It then folds only the characters
///   that are not in lower case, and, where it still finds the needle and can
///   make a table for it, asserts that this begins at the same place.
///
/// Whether the table can be made also rests on how it is laid out in memory;
/// that part is left open here, and the assertion taken as reached.
#[verifier::external_body]
pub(crate) fn score(query: &str, text: &str) -> (r: Option<u32>)
    requires
        scorable(query@, text@),
    ensures
        r == fuzzy_score(query@, text@),
{
    let pattern = nucleo_matcher::pattern::Pattern::parse(
        query,
        nucleo_matcher::pattern::CaseMatching::Ignore,
        nucleo_matcher::pattern::Normalization::Smart,
    );
    let mut matcher = nucleo_matcher::Matcher::new(nucleo_matcher::Config::DEFAULT);
    let mut buf: Vec<char> = Vec::new();
    pattern.score(nucleo_matcher::Utf32Str::new(text, &mut buf), &mut matcher)
}

// ---- words and letters ----

/// A word of a query.
#[derive(Debug)]
pub struct Word {
    /// Its characters may lie apart in the text.
    pub fuzzy: bool,
    /// What is looked for.
    pub needle: Vec<char>,
    /// The needle holds a variant of a Latin letter: it is compared without
    /// normalization.
    pub variant: bool,
}

/// What a word is.
pub struct WordState {
    pub fuzzy: bool,
    pub needle: Seq<char>,
    pub variant: bool,
}

impl View for Word {
    type V = WordState;

    open spec fn view(&self) -> WordState {
        WordState { fuzzy: self.fuzzy, needle: self.needle@, variant: self.variant }
    }
}

/// A character of a text, in the forms in which it is compared.
#[derive(Debug, Clone, Copy, PartialEq, Eq, Structural)]
pub struct Letter {
    /// Normalized and folded.
    pub plain: char,
    /// Folded.
    pub folded: char,
    /// Folded, unless it is in lower case.
    pub kept: char,
}

/// A character as a letter of a text.
pub open spec fn letter(c: char) -> Letter {
    Letter {
        plain: folded(normalized(c)),
        folded: folded(c),
        kept: if lower_case(c) {
            c
        } else {
            folded(c)
        },
    }
}

/// Normalization would change one of the characters.
pub open spec fn has_variant(needle: Seq<char>) -> bool {
    exists|k: int| 0 <= k < needle.len() && normalized(#[trigger] needle[k]) != needle[k]
}

/// The words of a query.
pub open spec fn words_in(query: Seq<char>) -> Seq<WordState> {
    pattern_words(query).map_values(
        |w: (bool, Seq<char>)|
            WordState { fuzzy: w.0, needle: w.1, variant: has_variant(w.1) },
    )
}

/// The words of a list.
pub open spec fn word_states(words: Seq<Word>) -> Seq<WordState> {
    words.map_values(|w: Word| w@)
}

/// The letters of a text.
pub open spec fn letters_in(text: Seq<char>) -> Seq<Letter> {
    haystack(text).1.map_values(|c: char| letter(c))
}

/// Whether normalization would change one of the characters.
fn holds_variant(needle: &Vec<char>) -> (r: bool)
    ensures
        r == has_variant(needle@),
{
    for k in 0..needle.len()
        invariant
            forall|j: int| 0 <= j < k ==> normalized(#[trigger] needle@[j]) == needle@[j],
    {
        if normalize(needle[k]) != needle[k] {
            return true;
        }
    }
    false
}

/// The words of a query.
pub fn words_of(query: &str) -> (r: Vec<Word>)
    ensures
        word_states(r@) == words_in(query@),
{
    let parsed = parse_words(query);
    let mut r: Vec<Word> = Vec::new();
    for i in 0..parsed.len()
        invariant
            parsed@.map_values(|w: (bool, Vec<char>)| (w.0, w.1@)) == pattern_words(query@),
            word_states(r@) == words_in(query@).take(i as int),
    {
        let fuzzy = parsed[i].0;
        let needle = parsed[i].1.clone();
        let variant = holds_variant(&needle);
        proof {
            assert(needle@ =~= parsed@[i as int].1@);
            assert(pattern_words(query@)[i as int] == (fuzzy, needle@));
        }
        let ghost before = r@;
        let word = Word { fuzzy, needle, variant };
        assert(words_in(query@)[i as int] == word@);
        r.push(word);
        assert(word_states(r@) =~= word_states(before).push(word@));
        assert(word_states(r@) =~= words_in(query@).take(i + 1));
    }
    assert(word_states(r@) =~= words_in(query@));
    r
}

/// A character as a letter of a text.
pub fn letter_of(c: char) -> (r: Letter)
    ensures
        r == letter(c),
{
    let folded = fold(c);
    Letter {
        plain: fold(normalize(c)),
        folded,
        kept: if is_lower_case(c) {
            c
        } else {
            folded
        },
    }
}

/// A text as the matcher searches it: whether it is kept as bytes, and its
/// letters.
pub fn letters_of(text: &str) -> (r: (bool, Vec<Letter>))
    ensures
        r.0 == haystack(text@).0,
        r.1@ == letters_in(text@),
{
    let (ascii, chars) = segment(text);
    let mut letters: Vec<Letter> = Vec::new();
    for i in 0..chars.len()
        invariant
            chars@ == haystack(text@).1,
            letters@ == letters_in(text@).take(i as int),
    {
        letters.push(letter_of(chars[i]));
        assert(letters@ =~= letters_in(text@).take(i + 1));
    }
    assert(letters@ =~= letters_in(text@));
    (ascii, letters)
}

// ---- limits ----

/// The longest needle, in characters, whose score fits in 16 bits: at most 36
/// for the first character and 26 for each further one.
pub const LONGEST_NEEDLE: usize = 2520;

/// The most characters, over all needles, whose scores add up to no more than
/// 32 bits hold, at 36 each.
pub const LONGEST_QUERY: usize = 119_304_647;

/// The longest needle for which the matcher makes a table.
pub const LONGEST_ROW: usize = 2048;

/// The most cells of a table that the matcher makes.
pub const LARGEST_TABLE: usize = 102_400;

/// The characters of the needle occur among the others, in their order.
pub open spec fn in_order(needle: Seq<char>, among: Seq<char>) -> bool
    decreases among.len(),
{
    if needle.len() == 0 {
        true
    } else if among.len() == 0 {
        false
    } else if among[0] == needle[0] {
        in_order(needle.drop_first(), among.drop_first())
    } else {
        in_order(needle, among.drop_first())
    }
}

/// One of the forms of a letter.
#[derive(Debug, Clone, Copy, PartialEq, Eq, Structural)]
pub enum Form {
    Plain,
    Folded,
    Kept,
}

/// The letters in one of their forms.
pub open spec fn formed(form: Form, letters: Seq<Letter>) -> Seq<char> {
    letters.map_values(
        |l: Letter|
            match form {
                Form::Plain => l.plain,
                Form::Folded => l.folded,
                Form::Kept => l.kept,
            },
    )
}

/// The form in which letters are compared with a needle.
pub open spec fn form_for(variant: bool) -> Form {
    if variant {
        Form::Folded
    } else {
        Form::Plain
    }
}

/// The letters that do not fold to the character.
pub open spec fn other_than(c: char) -> spec_fn(Letter) -> bool {
    |l: Letter| l.folded != c
}

/// The letter at `j` is the last one that folds to the character.
pub open spec fn last_alike(letters: Seq<Letter>, c: char, j: int) -> bool {
    &&& 0 <= j < letters.len()
    &&& letters[j].folded == c
    &&& forall|k: int| j < k < letters.len() ==> (#[trigger] letters[k]).folded != c
}

/// The matcher can make a table for the needle and the letters from `start` to
/// the last one that folds to the needle's last character.
pub open spec fn table_fits(needle: Seq<char>, letters: Seq<Letter>, start: int) -> bool {
    &&& needle.len() <= LONGEST_ROW
    &&& exists|j: int|
        {
            &&& #[trigger] last_alike(letters, needle.last(), j)
            &&& start < j
            &&& (j + 1 - start) * needle.len() <= LARGEST_TABLE
        }
}

/// A search without normalization would be of two minds about where the needle
/// begins: the first letter that folds to its first character is in lower case
/// and would not be folded again, and the needle is found behind it.
pub open spec fn clashes(needle: Seq<char>, letters: Seq<Letter>) -> bool {
    let start = lead(letters, other_than(needle[0])) as int;
    &&& needle.len() >= 2
    &&& start < letters.len()
    &&& letters[start].kept != needle[0]
    &&& in_order(needle, formed(Form::Kept, letters.skip(start + 1)))
    &&& table_fits(needle, letters, start)
}

/// The matcher can look for the word among the letters.
pub open spec fn word_fits(word: WordState, ascii: bool, letters: Seq<Letter>) -> bool {
    &&& word.needle.len() <= LONGEST_NEEDLE || !in_order(
        word.needle,
        formed(form_for(word.variant), letters),
    )
    &&& word.fuzzy && word.needle.len() < letters.len() ==> word.needle.len() * letters.len()
        <= usize::MAX
    &&& word.fuzzy && word.variant && !ascii ==> !clashes(word.needle, letters)
}

/// How many characters the needles have.
pub open spec fn needles_len(words: Seq<WordState>) -> nat
    decreases words.len(),
{
    if words.len() == 0 {
        0
    } else {
        needles_len(words.drop_last()) + words.last().needle.len()
    }
}

/// The matcher can look for the words among the letters.
pub open spec fn within_limits(words: Seq<WordState>, ascii: bool, letters: Seq<Letter>) -> bool {
    &&& letters.len() <= u32::MAX
    &&& needles_len(words) <= LONGEST_QUERY
    &&& forall|i: int| 0 <= i < words.len() ==> word_fits(#[trigger] words[i], ascii, letters)
}

/// The matcher can score the text for the query.
pub open spec fn scorable(query: Seq<char>, text: Seq<char>) -> bool {
    within_limits(words_in(query), haystack(text).0, letters_in(text))
}

// ---- telling what can be scored ----

/// Whether the needle occurs among the letters from `from` on, in order.
fn is_in_order(needle: &Vec<char>, letters: &Vec<Letter>, from: usize, form: Form) -> (r: bool)
    requires
        from <= letters@.len(),
    ensures
        r == in_order(needle@, formed(form, letters@.skip(from as int))),
{
    let mut k: usize = 0;
    let ghost all = formed(form, letters@.skip(from as int));
    assert(needle@.skip(0) =~= needle@);
    assert(all.skip(0) =~= all);
    for i in from..letters.len()
        invariant
            from <= letters@.len(),
            k <= needle@.len(),
            all == formed(form, letters@.skip(from as int)),
            in_order(needle@, all) == in_order(needle@.skip(k as int), all.skip(i - from)),
    {
        if k == needle.len() {
            return true;
        }
        let l = letters[i];
        let c = match form {
            Form::Plain => l.plain,
            Form::Folded => l.folded,
            Form::Kept => l.kept,
        };
        proof {
            assert(all.skip(i - from)[0] == c);
            assert(all.skip(i - from).drop_first() =~= all.skip(i + 1 - from));
            assert(needle@.skip(k as int).drop_first() =~= needle@.skip(k + 1));
        }
        if c == needle[k] {
            k = k + 1;
        }
    }
    assert(all.skip(letters@.len() - from).len() == 0);
    k == needle.len()
}

/// Whether the matcher can make a table for the needle, of at least two
/// characters, and the letters from `start` on.
fn can_make_table(needle: &Vec<char>, letters: &Vec<Letter>, start: usize) -> (r: bool)
    requires
        needle@.len() >= 2,
        start < letters@.len(),
    ensures
        r == table_fits(needle@, letters@, start as int),
{
    if needle.len() > LONGEST_ROW {
        return false;
    }
    let end = needle[needle.len() - 1];
    let mut j: usize = letters.len();
    while j > start + 1 && letters[j - 1].folded != end
        invariant
            start < j <= letters@.len(),
            forall|k: int| j <= k < letters@.len() ==> (#[trigger] letters@[k]).folded != end,
        decreases j,
    {
        j = j - 1;
    }
    if j == start + 1 {
        assert forall|k: int| #[trigger] last_alike(letters@, end, k) implies k <= start by {}
        return false;
    }
    assert forall|k: int| #[trigger] last_alike(letters@, end, k) implies k == j - 1 by {}
    let rows: usize = needle.len();
    let columns: usize = j - start;
    assert(columns * rows <= LARGEST_TABLE ==> columns <= LARGEST_TABLE) by (nonlinear_arith)
        requires
            rows >= 1,
            columns >= 0,
    ;
    assert(columns <= LARGEST_TABLE ==> columns * rows <= LARGEST_TABLE * LONGEST_ROW)
        by (nonlinear_arith)
        requires
            0 <= rows <= LONGEST_ROW,
            columns >= 0,
    ;
    let fits = columns <= LARGEST_TABLE && columns * rows <= LARGEST_TABLE;
    proof {
        let last = j - 1;
        assert(needle@.last() == end);
        assert((last + 1 - start) * needle@.len() == columns * rows);
        assert(last_alike(letters@, needle@.last(), last));
    }
    fits
}

/// Whether a search without normalization would be of two minds.
fn can_clash(needle: &Vec<char>, letters: &Vec<Letter>) -> (r: bool)
    ensures
        r == clashes(needle@, letters@),
{
    if needle.len() < 2 {
        return false;
    }
    let first = needle[0];
    let mut start: usize = 0;
    while start < letters.len() && letters[start].folded != first
        invariant
            start <= letters@.len(),
            forall|i: int| 0 <= i < start ==> other_than(first)(#[trigger] letters@[i]),
        decreases letters@.len() - start,
    {
        start = start + 1;
    }
    proof {
        lemma_lead_is(letters@, other_than(first), start as int);
    }
    start < letters.len() && letters[start].kept != first && is_in_order(
        needle,
        letters,
        start + 1,
        Form::Kept,
    ) && can_make_table(needle, letters, start)
}

/// Whether the matcher can look for the word among the letters.
fn can_fit(word: &Word, ascii: bool, letters: &Vec<Letter>) -> (r: bool)
    requires
        letters@.len() <= u32::MAX,
    ensures
        r == word_fits(word@, ascii, letters@),
{
    let form = if word.variant {
        Form::Folded
    } else {
        Form::Plain
    };
    assert(letters@.skip(0) =~= letters@);
    if word.needle.len() > LONGEST_NEEDLE && is_in_order(&word.needle, letters, 0, form) {
        return false;
    }
    if !word.fuzzy {
        return true;
    }
    if word.needle.len() < letters.len() {
        let (n, m): (u64, u64) = (word.needle.len() as u64, letters.len() as u64);
        assert(n * m <= u64::MAX) by (nonlinear_arith)
            requires
                n < m <= u32::MAX,
        ;
        if n * m > usize::MAX as u64 {
            return false;
        }
    }
    !word.variant || ascii || !can_clash(&word.needle, letters)
}

/// The needles of some of the words are no longer than those of all.
proof fn lemma_needles_len(words: Seq<WordState>, n: int)
    requires
        0 <= n <= words.len(),
    ensures
        needles_len(words.take(n)) <= needles_len(words),
        n < words.len() ==> needles_len(words.take(n + 1)) == needles_len(words.take(n))
            + words[n].needle.len(),
    decreases words.len(),
{
    if n < words.len() {
        assert(words.take(n + 1).drop_last() =~= words.take(n));
        lemma_needles_len(words.drop_last(), n);
        assert(words.drop_last().take(n) =~= words.take(n));
    } else {
        assert(words.take(n) =~= words);
    }
}

/// Whether the matcher can look for the words among the letters.
pub fn fit(words: &Vec<Word>, ascii: bool, letters: &Vec<Letter>) -> (r: bool)
    ensures
        r == within_limits(word_states(words@), ascii, letters@),
{
    if letters.len() as u64 > u32::MAX as u64 {
        return false;
    }
    let ghost states = word_states(words@);
    let mut total: usize = 0;
    for i in 0..words.len()
        invariant
            letters@.len() <= u32::MAX,
            states == word_states(words@),
            total == needles_len(states.take(i as int)),
            total <= LONGEST_QUERY,
            forall|j: int| 0 <= j < i ==> word_fits(#[trigger] states[j], ascii, letters@),
    {
        proof {
            lemma_needles_len(states, i as int);
            lemma_needles_len(states, i + 1);
            assert(states[i as int] == words@[i as int]@);
        }
        if words[i].needle.len() > LONGEST_QUERY - total || !can_fit(&words[i], ascii, letters) {
            return false;
        }
        total = total + words[i].needle.len();
    }
    assert(states.take(states.len() as int) =~= states);
    true
}

/// Whether the matcher can score the text for the words of a query.
pub fn can_score(words: &Vec<Word>, text: &str) -> (r: bool)
    ensures
        r == within_limits(word_states(words@), haystack(text@).0, letters_in(text@)),
{
    let (ascii, letters) = letters_of(text);
    fit(words, ascii, &letters)
}

// ---- laws ----

/// Short needles are within the limits wherever no letter is in lower case and
/// yet folds to another one, and, where the needles hold no variant of a Latin
/// letter, everywhere.
pub proof fn law_short_words_are_within_limits(
    words: Seq<WordState>,
    ascii: bool,
    letters: Seq<Letter>,
)
    requires
        letters.len() <= u32::MAX,
        needles_len(words) <= LONGEST_QUERY,
        forall|i: int|
            0 <= i < words.len() ==> {
                &&& (#[trigger] words[i]).needle.len() <= LONGEST_NEEDLE
                &&& words[i].needle.len() * letters.len() <= usize::MAX
            },
        (forall|i: int| 0 <= i < words.len() ==> !(#[trigger] words[i]).variant) || (forall|
            k: int,
        |
            0 <= k < letters.len() ==> (#[trigger] letters[k]).kept == letters[k].folded),
    ensures
        within_limits(words, ascii, letters),
{
    assert forall|i: int| 0 <= i < words.len() implies word_fits(
        #[trigger] words[i],
        ascii,
        letters,
    ) by {
        if words[i].variant {
            let needle = words[i].needle;
            let start = lead(letters, other_than(needle[0]));
            lemma_lead(letters, other_than(needle[0]));
            if start < letters.len() {
                assert(letters[start as int].kept == letters[start as int].folded);
            }
        }
    }
}

/// A needle of a single character never clashes, and neither does one that is
/// longer than the text.
pub proof fn law_what_cannot_clash(needle: Seq<char>, letters: Seq<Letter>)
    requires
        needle.len() < 2 || needle.len() >= letters.len(),
    ensures
        !clashes(needle, letters),
{
    let start = lead(letters, other_than(needle[0])) as int;
    if clashes(needle, letters) {
        lemma_in_order_len(needle, formed(Form::Kept, letters.skip(start + 1)));
    }
}

/// What occurs among others is no longer than those.
proof fn lemma_in_order_len(needle: Seq<char>, among: Seq<char>)
    requires
        in_order(needle, among),
    ensures
        needle.len() <= among.len(),
    decreases among.len(),
{
    if needle.len() > 0 {
        if among[0] == needle[0] {
            lemma_in_order_len(needle.drop_first(), among.drop_first());
        } else {
            lemma_in_order_len(needle, among.drop_first());
        }
    }
}

/// A needle is found wherever it stands among other characters, and never where
/// one of its characters is missing.
pub proof fn law_needles_are_found_in_order(
    front: Seq<char>,
    needle: Seq<char>,
    back: Seq<char>,
    c: char,
)
    ensures
        in_order(needle, front + needle + back),
        needle.contains(c) && !front.contains(c) ==> !in_order(needle, front),
    decreases front.len() + needle.len(),
{
    lemma_in_order_skips(front, needle, needle + back);
    lemma_in_order_start(needle, back);
    assert(front + needle + back =~= front + (needle + back));
    if needle.contains(c) && !front.contains(c) {
        lemma_in_order_holds(needle, front, c);
    }
}

proof fn lemma_in_order_start(needle: Seq<char>, back: Seq<char>)
    ensures
        in_order(needle, needle + back),
    decreases needle.len(),
{
    if needle.len() > 0 {
        lemma_in_order_start(needle.drop_first(), back);
        assert((needle + back).drop_first() =~= needle.drop_first() + back);
    }
}

/// Dropping characters from the front of a needle keeps it found, and so does
/// adding some in front of what it is looked for in.
proof fn lemma_in_order_more(needle: Seq<char>, among: Seq<char>)
    requires
        in_order(needle, among),
        needle.len() > 0,
    ensures
        in_order(needle.drop_first(), among),
    decreases among.len(),
{
    if among[0] == needle[0] {
        let (n, m) = (needle.drop_first(), among.drop_first());
        if n.len() > 0 {
            if among[0] == n[0] {
                lemma_in_order_more(n, m);
            }
        }
    } else {
        lemma_in_order_more(needle, among.drop_first());
        let n = needle.drop_first();
        if n.len() > 0 && among[0] == n[0] {
            lemma_in_order_more(n, among.drop_first());
        }
    }
}

proof fn lemma_in_order_skips(front: Seq<char>, needle: Seq<char>, among: Seq<char>)
    ensures
        in_order(needle, among) ==> in_order(needle, front + among),
    decreases front.len(),
{
    if front.len() == 0 {
        assert(front + among =~= among);
    } else {
        let all = front + among;
        assert(all.drop_first() =~= front.drop_first() + among);
        lemma_in_order_skips(front.drop_first(), needle, among);
        if in_order(needle, among) && needle.len() > 0 && all[0] == needle[0] {
            lemma_in_order_more(needle, front.drop_first() + among);
        }
    }
}

proof fn lemma_in_order_holds(needle: Seq<char>, among: Seq<char>, c: char)
    requires
        needle.contains(c),
        !among.contains(c),
    ensures
        !in_order(needle, among),
    decreases among.len(),
{
    if among.len() > 0 {
        let rest = among.drop_first();
        assert(!rest.contains(c)) by {
            if rest.contains(c) {
                let i = choose|i: int| 0 <= i < rest.len() && rest[i] == c;
                assert(among[i + 1] == c);
            }
        }
        assert(among[0] != c);
        if among[0] == needle[0] {
            let i = choose|i: int| 0 <= i < needle.len() && needle[i] == c;
            assert(needle.drop_first()[i - 1] == c);
            lemma_in_order_holds(needle.drop_first(), rest, c);
        } else {
            lemma_in_order_holds(needle, rest, c);
        }
    }
}

/// Where a search without normalization is of two minds: the first letter that
/// folds to the needle's first character would be kept as another one, the
/// needle of two characters or more is found behind it, and the part of the
/// text up to the last letter that folds to its last character is short enough
/// for a table.
pub proof fn law_where_a_clash_is(
    needle: Seq<char>,
    front: Seq<Letter>,
    l: Letter,
    middle: Seq<Letter>,
    last: Letter,
    back: Seq<Letter>,
)
    requires
        2 <= needle.len() <= 2048,
        forall|i: int| 0 <= i < front.len() ==> (#[trigger] front[i]).folded != needle[0],
        l.folded == needle[0],
        l.kept != needle[0],
        last.folded == needle[needle.len() - 1],
        forall|i: int|
            0 <= i < back.len() ==> (#[trigger] back[i]).folded != needle[needle.len() - 1],
        in_order(needle, (middle.push(last) + back).map_values(|x: Letter| x.kept)),
        (middle.len() + 2) * needle.len() <= 102_400,
    ensures
        clashes(needle, front.push(l) + (middle.push(last) + back)),
{
    let rest = middle.push(last) + back;
    let letters = front.push(l) + rest;
    let start = front.len() as int;
    assert forall|i: int| 0 <= i < start implies other_than(needle[0])(#[trigger] letters[i]) by {
        assert(letters[i] == front[i]);
    }
    assert(letters[start] == l);
    lemma_lead_is(letters, other_than(needle[0]), start);
    assert(letters.skip(start + 1) =~= rest);
    assert(formed(Form::Kept, rest) =~= rest.map_values(|x: Letter| x.kept));
    let j = start + 1 + middle.len();
    assert(letters[j] == last);
    assert forall|k: int| j < k < letters.len() implies (#[trigger] letters[k]).folded
        != needle[needle.len() - 1] by {
        assert(letters[k] == back[k - j - 1]);
    }
    assert(last_alike(letters, needle.last(), j));
}

/// A needle holds a variant exactly where normalization changes one of its
/// characters.
pub proof fn law_variants_are_changed_characters(needle: Seq<char>, k: int)
    ensures
        0 <= k < needle.len() && normalized(needle[k]) != needle[k] ==> has_variant(needle),
        (forall|i: int| 0 <= i < needle.len() ==> normalized(#[trigger] needle[i]) == needle[i])
            ==> !has_variant(needle),
{
}

/// The lengths of the needles are added up, one word after the other.
pub proof fn law_needles_add_up(words: Seq<WordState>, word: WordState)
    ensures
        needles_len(seq![]) == 0,
        needles_len(words.push(word)) == needles_len(words) + word.needle.len(),
{
    assert(words.push(word).drop_last() =~= words);
}

/// Words are within the limits exactly where the text and the needles together
/// are short enough, and each word is: its needle has no more than 2520
/// characters or is not found; a shorter fuzzy one can be multiplied with the
/// text; and one that is searched without normalization in a text of more than
/// ASCII does not clash.
pub proof fn law_what_is_within_limits(words: Seq<WordState>, ascii: bool, letters: Seq<Letter>)
    ensures
        within_limits(words, ascii, letters) <==> {
            &&& letters.len() <= 0xffff_ffff
            &&& needles_len(words) <= 119_304_647
            &&& forall|i: int|
                0 <= i < words.len() ==> {
                    let w = #[trigger] words[i];
                    let seen = if w.variant {
                        letters.map_values(|x: Letter| x.folded)
                    } else {
                        letters.map_values(|x: Letter| x.plain)
                    };
                    &&& w.needle.len() > 2520 ==> !in_order(w.needle, seen)
                    &&& w.fuzzy && w.needle.len() < letters.len() ==> w.needle.len()
                        * letters.len() <= usize::MAX
                    &&& w.fuzzy && w.variant && !ascii ==> !clashes(w.needle, letters)
                }
        },
{
    assert(formed(Form::Folded, letters) =~= letters.map_values(|x: Letter| x.folded));
    assert(formed(Form::Plain, letters) =~= letters.map_values(|x: Letter| x.plain));
}

/// A query's words and a text's letters are each one's own, in order.
pub proof fn law_words_and_letters_are_taken_over(query: Seq<char>, text: Seq<char>, i: int)
    ensures
        words_in(query).len() == pattern_words(query).len(),
        0 <= i < pattern_words(query).len() ==> words_in(query)[i].fuzzy == pattern_words(query)[i].0
            && words_in(query)[i].needle == pattern_words(query)[i].1 && words_in(query)[i].variant
            == has_variant(pattern_words(query)[i].1),
        letters_in(text).len() == haystack(text).1.len(),
        0 <= i < haystack(text).1.len() ==> {
            let (c, l) = (haystack(text).1[i], letters_in(text)[i]);
            &&& l.folded == folded(c) && l.plain == folded(normalized(c))
            &&& lower_case(c) ==> l.kept == c
            &&& !lower_case(c) ==> l.kept == folded(c)
        },
{
}

} // verus!
