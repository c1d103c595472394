//! Splitting a raw line into words.

use vstd::prelude::*;
use vstd::string::*;

verus! {

/// Why a line could not be split into words.
#[derive(Clone, Copy, Debug, PartialEq, Eq, Structural)]
pub enum LexError {
    /// A quote was opened and never closed, or the line ends right after an
    /// unescaped backslash.
    UnterminatedQuote,
}

/// The words that `shlex::split` finds in a line given as UTF-8 bytes, or
/// `None` where it reports the line as erroneous.
pub uninterp spec fn shell_words(line: Seq<u8>) -> Option<Seq<Seq<char>>>;

/// The texts of a sequence of owned strings.
pub open spec fn texts(words: Seq<String>) -> Seq<Seq<char>> {
    Seq::new(words.len(), |i: int| words[i]@)
}

/// Calls `shlex::split`.  The result is a function of the line alone, so it
/// is named by `shell_words`; nothing more is claimed of it.
#[verifier::external_body]
fn split_words(line: &str) -> (res: Option<Vec<String>>)
    ensures
        match res {
            Some(words) => shell_words(line.spec_bytes()) == Some(texts(words@)),
            None => shell_words(line.spec_bytes()).is_none(),
        },
{
    shlex::split(line)
}

/// The three bytes that separate words.
pub open spec fn is_separator(b: u8) -> bool {
    b == 0x20 || b == 0x09 || b == 0x0a
}

/// The number of backslashes that stand directly before position `end`.
pub open spec fn backslashes_before(line: Seq<u8>, end: int) -> nat
    decreases end,
{
    if 0 < end <= line.len() && line[end - 1] == 0x5c {
        backslashes_before(line, end - 1) + 1
    } else {
        0
    }
}

/// Whether `line` ends in a separator that no backslash escapes: the last
/// byte separates words and an even number of backslashes stands before it.
pub open spec fn ends_in_open_space(line: Seq<u8>) -> bool {
    line.len() > 0 && is_separator(line.last()) && backslashes_before(line, line.len() - 1) % 2
        == 0
}

/// Decides `ends_in_open_space`.
pub fn ends_with_open_space(line: &[u8]) -> (res: bool)
    ensures
        res == ends_in_open_space(line@),
{
    let len = line.len();
    if len == 0 {
        return false;
    }
    let last: u8 = line[len - 1];
    if !(last == 0x20 || last == 0x09 || last == 0x0a) {
        return false;
    }
    let mut at: usize = len - 1;
    let mut even: bool = true;
    while at > 0 && line[at - 1] == 0x5c
        invariant
            at <= len - 1,
            len == line@.len(),
            even == ((backslashes_before(line@, len - 1) - backslashes_before(line@, at as int))
                % 2 == 0),
            backslashes_before(line@, at as int) <= backslashes_before(line@, len - 1),
        decreases at,
    {
        at = at - 1;
        even = !even;
    }
    even
}

/// A word of a line: its text, with quotes and escapes resolved, and the
/// bytes `start..end` of the line that it was written in.
#[derive(Clone, Debug, PartialEq, Eq)]
pub struct Token {
    pub text: String,
    pub start: usize,
    pub end: usize,
}

/// The mathematical content of a `Token`.
pub struct TokenView {
    pub text: Seq<char>,
    pub start: int,
    pub end: int,
}

impl View for Token {
    type V = TokenView;

    open spec fn view(&self) -> TokenView {
        TokenView { text: self.text@, start: self.start as int, end: self.end as int }
    }
}

/// The contents of a list of tokens.
pub open spec fn token_views(tokens: Seq<Token>) -> Seq<TokenView> {
    Seq::new(tokens.len(), |i: int| tokens[i]@)
}

/// The texts of a list of tokens.
pub open spec fn token_texts(tokens: Seq<Token>) -> Seq<Seq<char>> {
    Seq::new(tokens.len(), |i: int| tokens[i].text@)
}

/// The first position at or after `from` whose byte separates no words; the
/// length of the line where there is none.
pub open spec fn skip_separators(line: Seq<u8>, from: int) -> int
    decreases line.len() - from,
{
    if from < 0 || from >= line.len() {
        line.len() as int
    } else if !is_separator(line[from]) {
        from
    } else {
        skip_separators(line, from + 1)
    }
}

/// Whether the words `upto` end at byte `e` of `line`: `e` is the end of the
/// line or holds a separator, and the line up to `e` splits into exactly
/// `upto`.
pub open spec fn ends_word(line: Seq<u8>, e: int, upto: Seq<Seq<char>>) -> bool {
    &&& 0 <= e <= line.len()
    &&& e == line.len() || is_separator(line[e])
    &&& vstd::utf8::is_char_boundary(line, e)
    &&& shell_words(line.take(e)) == Some(upto)
}

/// The first position after `from` at which the words `upto` end; the
/// length of the line where they end nowhere.
pub open spec fn word_end(line: Seq<u8>, from: int, upto: Seq<Seq<char>>) -> int
    decreases line.len() - from,
{
    if from < 0 || from >= line.len() {
        line.len() as int
    } else if ends_word(line, from + 1, upto) {
        from + 1
    } else {
        word_end(line, from + 1, upto)
    }
}

/// The first `k` of `words` with the places they were written in.  A word
/// begins at the first byte after its predecessor that is no separator, and
/// ends at the first position after that at which the line so far splits
/// into the words up to it.
pub open spec fn placed(line: Seq<u8>, words: Seq<Seq<char>>, k: int) -> Seq<TokenView>
    decreases k,
{
    if k <= 0 {
        Seq::empty()
    } else {
        let before = placed(line, words, k - 1);
        let from = if k == 1 {
            0
        } else {
            before.last().end
        };
        let start = skip_separators(line, from);
        before.push(
            TokenView {
                text: words[k - 1],
                start,
                end: word_end(line, start, words.take(k)),
            },
        )
    }
}

/// What a line splits into: its words with their places, or the failure.
pub open spec fn spec_tokenize(line: Seq<u8>) -> Result<Seq<TokenView>, LexError> {
    match shell_words(line) {
        Some(words) => Ok(placed(line, words, words.len() as int)),
        None => Err(LexError::UnterminatedQuote),
    }
}

/// The result of `tokenize`, as a value.
pub open spec fn tokenized(res: Result<Vec<Token>, LexError>) -> Result<Seq<TokenView>, LexError> {
    match res {
        Ok(tokens) => Ok(token_views(tokens@)),
        Err(e) => Err(e),
    }
}

/// Whether `found` holds exactly the first `count` of `words`.
fn same_words(found: &Vec<String>, words: &Vec<String>, count: usize) -> (res: bool)
    requires
        count <= words@.len(),
    ensures
        res == (texts(found@) == texts(words@).take(count as int)),
{
    if found.len() != count {
        assert(texts(found@).len() != texts(words@).take(count as int).len());
        return false;
    }
    let mut j: usize = 0;
    while j < count
        invariant
            j <= count <= words@.len(),
            found@.len() == count,
            forall|m: int| 0 <= m < j ==> found@[m]@ == words@[m]@,
        decreases count - j,
    {
        if found[j] != words[j] {
            assert(texts(found@)[j as int] != texts(words@).take(count as int)[j as int]);
            return false;
        }
        j = j + 1;
    }
    assert(texts(found@) =~= texts(words@).take(count as int));
    true
}

/// The first position at or after `from` whose byte is no separator.
fn after_separators(line: &[u8], from: usize) -> (res: usize)
    ensures
        res == skip_separators(line@, from as int),
        res <= line@.len(),
{
    let mut at: usize = from;
    while at < line.len() && (line[at] == 0x20 || line[at] == 0x09 || line[at] == 0x0a)
        invariant
            from <= at,
            skip_separators(line@, from as int) == skip_separators(line@, at as int),
        decreases line.len() - at,
    {
        at = at + 1;
    }
    if at < line.len() {
        at
    } else {
        line.len()
    }
}

/// The first position after `from` at which the first `count` of `words`
/// end in `line`.
fn find_word_end(line: &str, from: usize, words: &Vec<String>, count: usize) -> (res: usize)
    requires
        count <= words@.len(),
    ensures
        res == word_end(line.spec_bytes(), from as int, texts(words@).take(count as int)),
        res <= line.spec_bytes().len(),
{
    let bytes = line.as_bytes();
    let ghost upto = texts(words@).take(count as int);
    let mut at: usize = from;
    while at < bytes.len()
        invariant
            from <= at,
            bytes@ == line.spec_bytes(),
            count <= words@.len(),
            upto == texts(words@).take(count as int),
            word_end(bytes@, from as int, upto) == word_end(bytes@, at as int, upto),
        decreases bytes.len() - at,
    {
        let e: usize = at + 1;
        let open = e == bytes.len() || bytes[e] == 0x20 || bytes[e] == 0x09 || bytes[e] == 0x0a;
        if open && line.is_char_boundary(e) {
            let (head, _) = line.split_at(e);
            assert(head.spec_bytes() == bytes@.take(e as int));
            match split_words(head) {
                Some(found) => {
                    if same_words(&found, words, count) {
                        return e;
                    }
                },
                None => {},
            }
        }
        at = e;
    }
    bytes.len()
}

/// Splits `line` on unquoted whitespace, honouring single quotes, double
/// quotes and backslash escapes, and finds the bytes that each word was
/// written in.
pub fn tokenize(line: &str) -> (res: Result<Vec<Token>, LexError>)
    ensures
        tokenized(res) == spec_tokenize(line.spec_bytes()),
        res matches Ok(tokens) ==> shell_words(line.spec_bytes()) == Some(token_texts(tokens@)),
{
    let words = match split_words(line) {
        Some(words) => words,
        None => {
            return Err(LexError::UnterminatedQuote);
        },
    };
    let bytes = line.as_bytes();
    let mut tokens: Vec<Token> = Vec::new();
    let mut from: usize = 0;
    let mut k: usize = 0;
    assert(token_views(tokens@) =~= Seq::empty());
    while k < words.len()
        invariant
            k <= words.len(),
            bytes@ == line.spec_bytes(),
            tokens@.len() == k,
            token_views(tokens@) == placed(bytes@, texts(words@), k as int),
            from == if k == 0 {
                0
            } else {
                token_views(tokens@).last().end
            },
            forall|m: int| 0 <= m < k ==> (#[trigger] tokens@[m]).text@ == words@[m]@,
        decreases words.len() - k,
    {
        let ghost before = token_views(tokens@);
        let start = after_separators(bytes, from);
        let end = find_word_end(line, start, &words, k + 1);
        let token = Token { text: words[k].clone(), start, end };
        tokens.push(token);
        assert(token_views(tokens@) =~= before.push(token@));
        from = end;
        k = k + 1;
    }
    assert(token_texts(tokens@) =~= texts(words@));
    Ok(tokens)
}

/// `skip_separators` moves forward and stays inside the line.
pub proof fn skip_separators_bounds(line: Seq<u8>, from: int)
    requires
        0 <= from <= line.len(),
    ensures
        from <= skip_separators(line, from) <= line.len(),
    decreases line.len() - from,
{
    if from < line.len() && is_separator(line[from]) {
        skip_separators_bounds(line, from + 1);
    }
}

/// `word_end` moves forward and stays inside the line.
pub proof fn word_end_bounds(line: Seq<u8>, from: int, upto: Seq<Seq<char>>)
    requires
        0 <= from <= line.len(),
    ensures
        from <= word_end(line, from, upto) <= line.len(),
    decreases line.len() - from,
{
    if from < line.len() && !ends_word(line, from + 1, upto) {
        word_end_bounds(line, from + 1, upto);
    }
}

/// The tokens of a line are its words in order, each inside the line, none
/// reaching into the next.
pub proof fn tokens_lie_in_order(line: Seq<u8>, words: Seq<Seq<char>>, k: int)
    requires
        0 <= k <= words.len(),
    ensures
        placed(line, words, k).len() == k,
        forall|i: int|
            0 <= i < k ==> {
                let t = #[trigger] placed(line, words, k)[i];
                0 <= t.start <= t.end <= line.len() && t.text == words[i]
            },
        forall|i: int|
            0 < i < k ==> placed(line, words, k)[i - 1].end <= (#[trigger] placed(
                line,
                words,
                k,
            )[i]).start,
    decreases k,
{
    if k > 0 {
        tokens_lie_in_order(line, words, k - 1);
        let before = placed(line, words, k - 1);
        let from = if k == 1 {
            0
        } else {
            before.last().end
        };
        skip_separators_bounds(line, from);
        let start = skip_separators(line, from);
        word_end_bounds(line, start, words.take(k));
        assert forall|i: int| 0 <= i < k - 1 implies placed(line, words, k)[i] == before[i] by {}
    }
}

} // verus!
