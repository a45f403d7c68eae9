use vstd::prelude::*;
use crate::decimal::{nat_text, push_decimal};
use crate::text::push_char;

verus! {

/// The characters with the Unicode `White_Space` property.
pub open spec fn white_space(c: char) -> bool {
    ('\u{9}' <= c && c <= '\u{d}') || c == ' ' || c == '\u{85}' || c == '\u{a0}' || c == '\u{1680}' || ('\u{2000}'
        <= c && c <= '\u{200a}') || c == '\u{2028}' || c == '\u{2029}' || c == '\u{202f}' || c == '\u{205f}'
        || c == '\u{3000}'
}

/// Whether `c` has the Unicode `White_Space` property, as `char::is_whitespace` tells.
pub fn is_whitespace(c: char) -> (r: bool)
    ensures
        r == white_space(c),
{
    ('\u{9}' <= c && c <= '\u{d}') || c == ' ' || c == '\u{85}' || c == '\u{a0}' || c == '\u{1680}' || ('\u{2000}'
        <= c && c <= '\u{200a}') || c == '\u{2028}' || c == '\u{2029}' || c == '\u{202f}' || c == '\u{205f}'
        || c == '\u{3000}'
}

/// The number of characters of `s` other than NUL.
pub open spec fn count_chars(s: Seq<char>) -> nat
    decreases s.len(),
{
    if s.len() == 0 {
        0
    } else {
        count_chars(s.drop_last()) + if s.last() != '\0' { 1nat } else { 0nat }
    }
}

/// The number of line feeds in `s`.
pub open spec fn count_newlines(s: Seq<char>) -> nat
    decreases s.len(),
{
    if s.len() == 0 {
        0
    } else {
        count_newlines(s.drop_last()) + if s.last() == '\n' { 1nat } else { 0nat }
    }
}

/// The number of white-space characters of `s` that directly follow a character that is not
/// white space: the words that a white-space character ends.
pub open spec fn count_word_ends(s: Seq<char>) -> nat
    decreases s.len(),
{
    if s.len() < 2 {
        0
    } else {
        count_word_ends(s.drop_last()) + if white_space(s.last()) && !white_space(s[s.len() - 2]) {
            1nat
        } else {
            0nat
        }
    }
}

/// Counts of a text: its characters, its words and its lines.
pub struct Stats {
    characters: usize,
    words: usize,
    lines: usize,
}

/// The counts of a text, starting each from the given base.
fn count(text: &[char], base_words: usize, base_lines: usize) -> (r: (usize, usize, usize))
    requires
        text@.len() + base_words <= usize::MAX,
        text@.len() + base_lines <= usize::MAX,
    ensures
        r.0 == count_chars(text@),
        r.1 == base_words + count_word_ends(text@),
        r.2 == base_lines + count_newlines(text@),
{
    let mut characters: usize = 0;
    let mut words: usize = base_words;
    let mut lines: usize = base_lines;
    let mut in_word = false;
    let mut i: usize = 0;
    proof {
        lemma_counts_bounded(text@.take(0));
    }
    while i < text.len()
        invariant
            i <= text@.len(),
            text@.len() + base_words <= usize::MAX,
            text@.len() + base_lines <= usize::MAX,
            characters == count_chars(text@.take(i as int)),
            words == base_words + count_word_ends(text@.take(i as int)),
            lines == base_lines + count_newlines(text@.take(i as int)),
            in_word == (i > 0 && !white_space(text@[i - 1])),
        decreases text@.len() - i,
    {
        let c = text[i];
        let ghost prefix = text@.take(i + 1);
        proof {
            assert(prefix.drop_last() =~= text@.take(i as int));
            assert(prefix.last() == c);
            if i > 0 {
                assert(prefix[prefix.len() - 2] == text@[i - 1]);
            }
            lemma_counts_bounded(prefix);
        }
        if c != '\0' {
            characters = characters + 1;
        }
        if !is_whitespace(c) {
            in_word = true;
        } else if in_word {
            words = words + 1;
            in_word = false;
        }
        if c == '\n' {
            lines = lines + 1;
        }
        i = i + 1;
    }
    assert(text@.take(text@.len() as int) =~= text@);
    (characters, words, lines)
}

/// No count exceeds the length of the text.
proof fn lemma_counts_bounded(s: Seq<char>)
    ensures
        count_chars(s) <= s.len(),
        count_newlines(s) <= s.len(),
        count_word_ends(s) <= s.len(),
    decreases s.len(),
{
    if s.len() > 0 {
        lemma_counts_bounded(s.drop_last());
    }
}

impl Stats {
    /// The counts of a text: its characters other than NUL, the white-space characters that
    /// end a word, and its line feeds.
    pub fn new(text: &[char]) -> (r: Stats)
        ensures
            r.characters() == count_chars(text@),
            r.words() == count_word_ends(text@),
            r.lines() == count_newlines(text@),
            r.characters() == text@.filter(|c: char| c != '\0').len(),
            r.lines() == text@.filter(|c: char| c == '\n').len(),
    {
        proof {
            crate::language_laws::law_counts_are_the_matching_characters(text@);
        }
        let _n = text.len();
        let (characters, words, lines) = count(text, 0, 0);
        Stats { characters, words, lines }
    }

    /// The counts of a text as `new` gives them, with the first word and the first line
    /// counted before the text is read.
    pub fn new_counting_first(text: &[char]) -> (r: Stats)
        requires
            text@.len() < usize::MAX,
        ensures
            r.characters() == count_chars(text@),
            r.words() == 1 + count_word_ends(text@),
            r.lines() == 1 + count_newlines(text@),
    {
        let (characters, words, lines) = count(text, 1, 1);
        Stats { characters, words, lines }
    }

    /// Counts given as they are.
    pub fn from_counts(characters: usize, words: usize, lines: usize) -> (r: Stats)
        ensures
            r.characters() == characters,
            r.words() == words,
            r.lines() == lines,
    {
        Stats { characters, words, lines }
    }

    /// The number of characters.
    pub closed spec fn characters(&self) -> nat {
        self.characters as nat
    }

    /// The number of words.
    pub closed spec fn words(&self) -> nat {
        self.words as nat
    }

    /// The number of lines.
    pub closed spec fn lines(&self) -> nat {
        self.lines as nat
    }

    /// The number of characters.
    pub fn characters_count(&self) -> (r: usize)
        ensures
            r == self.characters(),
    {
        self.characters
    }

    /// The number of words.
    pub fn words_count(&self) -> (r: usize)
        ensures
            r == self.words(),
    {
        self.words
    }

    /// The number of lines.
    pub fn lines_count(&self) -> (r: usize)
        ensures
            r == self.lines(),
    {
        self.lines
    }

    /// The three counts, separated by spaces: characters, words, lines.
    pub fn to_string(&self) -> (r: String)
        ensures
            r@ == nat_text(self.characters()) + " "@ + nat_text(self.words()) + " "@ + nat_text(self.lines()),
    {
        let mut r = String::new();
        push_decimal(&mut r, self.characters as u64);
        push_char(&mut r, ' ');
        push_decimal(&mut r, self.words as u64);
        push_char(&mut r, ' ');
        push_decimal(&mut r, self.lines as u64);
        proof {
            reveal_strlit(" ");
        }
        assert(r@ =~= nat_text(self.characters()) + " "@ + nat_text(self.words()) + " "@ + nat_text(self.lines()));
        r
    }
}

} // verus!
