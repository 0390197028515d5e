//! The search command typed into the input line.
//!
//! A command is a pattern, optionally in double quotes, then file globs
//! separated by spaces, then optionally the context sizes after two dashes:
//! `--5` for five lines before and after, `--a3b2` for three after and two
//! before. The three parts are found by regular expressions; what is made of
//! the parts is decided here.

use regex::Regex;
use vstd::prelude::*;

verus! {

/// Finds the context sizes: two dashes, then one or two numbers, each with
/// an optional `a` or `b` in front.
pub const AB_RE: &'static str = "--([ab]?\\d+)([ab]\\d+)?";

/// Finds the parts of a command whose pattern stands in double quotes.
pub const CMD_RE_Q: &'static str = "\"([^\"]+)\"([^\"-]*)(--([ab]?\\d+)([ab]\\d+)?)?";

/// Finds the parts of a command whose pattern is a single word.
pub const CMD_RE: &'static str = "([^\" ]+)([^\"-]*)(--([ab]?\\d+)([ab]\\d+)?)?";

/// A parsed search command.
#[derive(Debug, PartialEq)]
pub struct SearchCmd {
    pub pattern: String,
    pub golb: Option<Vec<String>>,
    pub before_context: usize,
    pub after_context: usize,
}

/// The mathematical value of a [`SearchCmd`].
pub struct SearchCmdView {
    pub pattern: Seq<char>,
    pub golb: Option<Seq<Seq<char>>>,
    pub before_context: usize,
    pub after_context: usize,
}

/// The texts of a list of strings.
pub open spec fn texts_of(words: Seq<String>) -> Seq<Seq<char>> {
    words.map_values(|w: String| w@)
}

impl View for SearchCmd {
    type V = SearchCmdView;

    open spec fn view(&self) -> SearchCmdView {
        SearchCmdView {
            pattern: self.pattern@,
            golb: match self.golb {
                Some(words) => Some(texts_of(words@)),
                None => None,
            },
            before_context: self.before_context,
            after_context: self.after_context,
        }
    }
}

/// The value of an optional command.
pub open spec fn cmd_view(cmd: Option<SearchCmd>) -> Option<SearchCmdView> {
    match cmd {
        Some(c) => Some(c@),
        None => None,
    }
}

/// The text of an optional string.
pub open spec fn text_of(text: Option<&String>) -> Option<Seq<char>> {
    match text {
        Some(s) => Some(s@),
        None => None,
    }
}

/// The texts of the groups that a search has captured.
pub open spec fn groups_of(found: Option<Vec<Option<String>>>) -> Option<Seq<Option<Seq<char>>>> {
    match found {
        Some(groups) => Some(
            groups@.map_values(
                |g: Option<String>|
                    match g {
                        Some(s) => Some(s@),
                        None => None,
                    },
            ),
        ),
        None => None,
    }
}

/// What the first match of the regular expression `pattern` in `text`
/// captures: `None` if there is no match, else for every group of the
/// pattern, the whole match being group 0, the text that it matched, or
/// `None` if it took no part in the match.
pub uninterp spec fn regex_captures(pattern: Seq<char>, text: Seq<char>) -> Option<Seq<Option<Seq<char>>>>;

/// Whether `char::is_whitespace` holds of a character.
pub uninterp spec fn is_whitespace(c: char) -> bool;

/// Calls `regex::Regex::new` and `regex::Regex::captures`, and copies the
/// text of every group out of the `regex::Captures`. A pattern and a text
/// always give the same groups, which therefore have the name
/// [`regex_captures`]. A pattern that does not compile gives `None`.
#[verifier::external_body]
fn captures(pattern: &str, text: &str) -> (found: Option<Vec<Option<String>>>)
    ensures
        groups_of(found) == regex_captures(pattern@, text@),
{
    let re = Regex::new(pattern).ok()?;
    let caps = re.captures(text)?;
    Some(caps.iter().map(|group| group.map(|m| m.as_str().to_owned())).collect())
}

/// Calls `char::is_whitespace`, whose result has the name [`is_whitespace`].
#[verifier::external_body]
fn char_is_whitespace(c: char) -> (white: bool)
    ensures
        white == is_whitespace(c),
{
    c.is_whitespace()
}

/// Group `i` of a capture, or `None` if there is no such group or it took
/// no part in the match.
pub open spec fn group_at(groups: Seq<Option<Seq<char>>>, i: int) -> Option<Seq<char>> {
    if 0 <= i < groups.len() {
        groups[i]
    } else {
        None
    }
}

/// The number that a run of decimal digits stands for.
pub open spec fn digits_value(digits: Seq<char>) -> nat
    decreases digits.len(),
{
    if digits.len() == 0 {
        0
    } else {
        (digits_value(digits.drop_last()) * 10 + (digits.last() as u32 - '0' as u32)) as nat
    }
}

/// Whether `digits` is a run of at least one decimal digit.
pub open spec fn is_digits(digits: Seq<char>) -> bool {
    digits.len() > 0 && forall|i: int| 0 <= i < digits.len() ==> '0' <= #[trigger] digits[i] <= '9'
}

/// The number that `text` stands for: its digits may follow one plus sign.
/// A text that is not a number, or a number too large for a `usize`,
/// stands for 0.
pub open spec fn number_of(text: Seq<char>) -> usize {
    let digits = if text.len() > 0 && text[0] == '+' {
        text.skip(1)
    } else {
        text
    };
    if is_digits(digits) && digits_value(digits) <= usize::MAX {
        digits_value(digits) as usize
    } else {
        0
    }
}

/// The context sizes, lines after and lines before, once the group `part`
/// is applied to `sizes`: `a` and a number sets the lines after, `b` and a
/// number the lines before, a number alone both.
pub open spec fn apply_context(part: Option<Seq<char>>, sizes: (usize, usize)) -> (usize, usize) {
    match part {
        None => sizes,
        Some(text) => if text.len() > 0 && text[0] == 'a' {
            (number_of(text.skip(1)), sizes.1)
        } else if text.len() > 0 && text[0] == 'b' {
            (sizes.0, number_of(text.skip(1)))
        } else {
            (number_of(text), number_of(text))
        },
    }
}

/// The context sizes that the two groups of [`AB_RE`] give, lines after
/// first.
pub open spec fn context_sizes(first: Option<Seq<char>>, second: Option<Seq<char>>) -> (usize, usize) {
    apply_context(second, apply_context(first, (0, 0)))
}

/// The context sizes written in `input`, lines after first, or `None` if
/// [`AB_RE`] finds none.
pub open spec fn parse_ab_spec(input: Seq<char>) -> Option<(usize, usize)> {
    match regex_captures(AB_RE@, input) {
        Some(groups) => Some(context_sizes(group_at(groups, 1), group_at(groups, 2))),
        None => None,
    }
}

/// The position of the first character at or after `i` that is not whitespace.
pub open spec fn skip_whitespace(text: Seq<char>, i: int) -> int
    decreases text.len() - i,
{
    if i < text.len() && is_whitespace(text[i]) {
        skip_whitespace(text, i + 1)
    } else {
        i
    }
}

/// The position after the last character before `end`, and not before
/// `start`, that is not whitespace.
pub open spec fn drop_whitespace(text: Seq<char>, start: int, end: int) -> int
    decreases end - start,
{
    if start < end && is_whitespace(text[end - 1]) {
        drop_whitespace(text, start, end - 1)
    } else {
        end
    }
}

/// `text` without the whitespace at its start and at its end.
pub open spec fn trimmed(text: Seq<char>) -> Seq<char> {
    let start = skip_whitespace(text, 0);
    text.subrange(start, drop_whitespace(text, start, text.len() as int))
}

/// The words of `text` from position `i` on, where a word has begun at
/// `start`: a word ends before a space and at the end of the text.
pub open spec fn words_from(text: Seq<char>, start: int, i: int) -> Seq<Seq<char>>
    decreases text.len() - i,
{
    if i >= text.len() {
        if start < i {
            seq![text.subrange(start, i)]
        } else {
            Seq::empty()
        }
    } else if text[i] == ' ' {
        if start < i {
            seq![text.subrange(start, i)] + words_from(text, i + 1, i + 1)
        } else {
            words_from(text, i + 1, i + 1)
        }
    } else {
        words_from(text, start, i + 1)
    }
}

/// The globs of a command: the words of the text between pattern and
/// context sizes, whitespace at its ends apart. Words are separated by
/// spaces, and none is empty.
pub open spec fn glob_words(text: Seq<char>) -> Seq<Seq<char>> {
    words_from(trimmed(text), 0, 0)
}

/// The command that the groups captured by [`CMD_RE_Q`] or [`CMD_RE`] give:
/// group 1 is the pattern, group 2 holds the globs, group 3 the context sizes.
pub open spec fn cmd_of_captures(found: Option<Seq<Option<Seq<char>>>>) -> Option<SearchCmdView> {
    match found {
        None => None,
        Some(groups) => match group_at(groups, 1) {
            None => None,
            Some(pattern) => {
                let sizes = match group_at(groups, 3) {
                    Some(text) => match parse_ab_spec(text) {
                        Some(ab) => ab,
                        None => (0usize, 0usize),
                    },
                    None => (0usize, 0usize),
                };
                Some(
                    SearchCmdView {
                        pattern,
                        golb: match group_at(groups, 2) {
                            Some(text) => Some(glob_words(text)),
                            None => None,
                        },
                        before_context: sizes.1,
                        after_context: sizes.0,
                    },
                )
            },
        },
    }
}

/// Whether two dashes stand side by side in `text`.
pub open spec fn has_double_dash(text: Seq<char>) -> bool {
    exists|i: int| 0 <= i < text.len() - 1 && #[trigger] text[i] == '-' && text[i + 1] == '-'
}

/// The command that `cmd` stands for.
///
/// A text without a space and without two dashes is a pattern as it is; an
/// empty one is no command. Any other text is taken apart by [`CMD_RE_Q`] if
/// it starts with a double quote, else by [`CMD_RE`].
pub open spec fn parse_spec(cmd: Seq<char>) -> Option<SearchCmdView> {
    if has_double_dash(cmd) || cmd.contains(' ') {
        if cmd[0] == '"' {
            cmd_of_captures(regex_captures(CMD_RE_Q@, cmd))
        } else {
            cmd_of_captures(regex_captures(CMD_RE@, cmd))
        }
    } else if cmd.len() == 0 {
        None
    } else {
        Some(SearchCmdView { pattern: cmd, golb: None, before_context: 0, after_context: 0 })
    }
}

/// The number of a run of digits is no smaller than that of any part of
/// the run from its start.
pub proof fn lemma_digits_value_grows(digits: Seq<char>, n: int)
    requires
        0 <= n <= digits.len(),
        forall|i: int| 0 <= i < digits.len() ==> '0' <= #[trigger] digits[i] <= '9',
    ensures
        digits_value(digits.take(n)) <= digits_value(digits),
    decreases digits.len() - n,
{
    if n < digits.len() {
        lemma_digits_value_grows(digits, n + 1);
        assert(digits.take(n + 1).drop_last() =~= digits.take(n));
        assert(digits.take(n + 1).last() == digits[n]);
    } else {
        assert(digits.take(n) =~= digits);
    }
}

/// Whether `word` is not empty and holds no space.
pub open spec fn is_word(word: Seq<char>) -> bool {
    word.len() > 0 && forall|j: int| 0 <= j < word.len() ==> word[j] != ' '
}

/// Every glob is a word: it is not empty and holds no space.
pub proof fn lemma_words_hold_no_space(text: Seq<char>, start: int, i: int)
    requires
        0 <= start <= i <= text.len(),
        forall|j: int| start <= j < i ==> text[j] != ' ',
    ensures
        forall|k: int| 0 <= k < words_from(text, start, i).len() ==> is_word(#[trigger] words_from(text, start, i)[k]),
    decreases text.len() - i,
{
    let words = words_from(text, start, i);
    let word = text.subrange(start, i);
    if start < i {
        assert forall|j: int| 0 <= j < word.len() implies word[j] != ' ' by {
            assert(word[j] == text[start + j]);
        }
        assert(is_word(word));
    }
    if i >= text.len() {
        assert forall|k: int| 0 <= k < words.len() implies is_word(#[trigger] words[k]) by {
            assert(words[k] == word);
        }
    } else if text[i] == ' ' {
        lemma_words_hold_no_space(text, i + 1, i + 1);
        let rest = words_from(text, i + 1, i + 1);
        assert forall|k: int| 0 <= k < words.len() implies is_word(#[trigger] words[k]) by {
            if start < i {
                assert(words == seq![word] + rest);
                if k > 0 {
                    assert(words[k] == rest[k - 1]);
                } else {
                    assert(words[k] == word);
                }
            } else {
                assert(words == rest);
            }
        }
    } else {
        lemma_words_hold_no_space(text, start, i + 1);
        assert(words == words_from(text, start, i + 1));
    }
}

/// Reads a number as [`number_of`] says.
pub fn parse_number(text: &str) -> (value: usize)
    ensures
        value == number_of(text@),
{
    let n = text.unicode_len();
    let first: usize = if n > 0 && text.get_char(0) == '+' {
        1
    } else {
        0
    };
    let ghost digits = if first == 1 {
        text@.skip(1)
    } else {
        text@
    };
    if first >= n {
        return 0;
    }
    let mut value: usize = 0;
    let mut i = first;
    assert(digits.take(0) =~= Seq::<char>::empty());
    while i < n
        invariant
            n == text@.len(),
            first <= i <= n,
            first <= 1,
            first == 1 <==> (n > 0 && text@[0] == '+'),
            digits == text@.skip(first as int),
            first == 0 ==> digits == text@,
            forall|j: int| 0 <= j < i - first ==> '0' <= #[trigger] digits[j] <= '9',
            value == digits_value(digits.take(i - first)),
        decreases n - i,
    {
        let c = text.get_char(i);
        if c < '0' || c > '9' {
            assert(!('0' <= digits[i - first] <= '9'));
            return 0;
        }
        let digit = (c as u32 - '0' as u32) as usize;
        proof {
            let longer = digits.take(i - first + 1);
            assert(longer.drop_last() =~= digits.take(i - first));
            assert(longer.last() == c);
            assert(digits_value(longer) == value * 10 + digit);
            if is_digits(digits) {
                lemma_digits_value_grows(digits, i - first + 1);
            }
        }
        if value > (usize::MAX - digit) / 10 {
            assert(value * 10 + digit > usize::MAX);
            assert(is_digits(digits) ==> digits_value(digits) > usize::MAX);
            return 0;
        }
        value = value * 10 + digit;
        i += 1;
    }
    assert(digits.take(n - first) =~= digits);
    value
}

/// The text of `text` from its second character on.
fn rest_of(text: &String) -> (rest: &str)
    requires
        text@.len() > 0,
    ensures
        rest@ == text@.skip(1),
{
    let n = text.as_str().unicode_len();
    text.as_str().substring_char(1, n)
}

fn with_context(part: Option<&String>, sizes: (usize, usize)) -> (applied: (usize, usize))
    ensures
        applied == apply_context(text_of(part), sizes),
{
    match part {
        None => sizes,
        Some(text) => {
            let n = text.as_str().unicode_len();
            if n > 0 && text.as_str().get_char(0) == 'a' {
                (parse_number(rest_of(text)), sizes.1)
            } else if n > 0 && text.as_str().get_char(0) == 'b' {
                (sizes.0, parse_number(rest_of(text)))
            } else {
                let number = parse_number(text.as_str());
                (number, number)
            }
        },
    }
}

/// The context sizes that the two groups of [`AB_RE`] give: lines after,
/// then lines before.
pub fn contexts_from_groups(first: Option<&String>, second: Option<&String>) -> (sizes: (usize, usize))
    ensures
        sizes == context_sizes(text_of(first), text_of(second)),
{
    with_context(second, with_context(first, (0, 0)))
}

/// Group `i` of a capture.
pub fn group(groups: &Vec<Option<String>>, i: usize) -> (text: Option<&String>)
    ensures
        text_of(text) == group_at(groups_of(Some(*groups))->0, i as int),
{
    if i < groups.len() {
        groups[i].as_ref()
    } else {
        None
    }
}

/// Reads the context sizes from a text such as `--a3b2`: lines after, then
/// lines before. The result is `None` if the text holds no such sizes.
pub fn parse_ab(input: &str) -> (sizes: Option<(usize, usize)>)
    ensures
        sizes == parse_ab_spec(input@),
{
    match captures(AB_RE, input) {
        Some(groups) => Some(contexts_from_groups(group(&groups, 1), group(&groups, 2))),
        None => None,
    }
}

/// Takes the globs out of the text between pattern and context sizes.
pub fn split_globs(text: &str) -> (words: Vec<String>)
    ensures
        texts_of(words@) == glob_words(text@),
{
    let n = text.unicode_len();
    let mut start: usize = 0;
    while start < n && char_is_whitespace(text.get_char(start))
        invariant
            n == text@.len(),
            start <= n,
            skip_whitespace(text@, start as int) == skip_whitespace(text@, 0),
        decreases n - start,
    {
        start += 1;
    }
    let mut end = n;
    while start < end && char_is_whitespace(text.get_char(end - 1))
        invariant
            start <= end <= n == text@.len(),
            drop_whitespace(text@, start as int, end as int) == drop_whitespace(text@, start as int, n as int),
        decreases end - start,
    {
        end -= 1;
    }
    let inner = text.substring_char(start, end);
    assert(inner@ == trimmed(text@));

    let len = inner.unicode_len();
    let mut words: Vec<String> = Vec::new();
    let mut begin: usize = 0;
    let mut i: usize = 0;
    assert(texts_of(words@) =~= Seq::<Seq<char>>::empty());
    while i < len
        invariant
            len == inner@.len(),
            begin <= i <= len,
            texts_of(words@) + words_from(inner@, begin as int, i as int) == words_from(inner@, 0, 0),
        decreases len - i,
    {
        if inner.get_char(i) == ' ' {
            if begin < i {
                let ghost before = texts_of(words@);
                let word = inner.substring_char(begin, i).to_owned();
                words.push(word);
                assert(texts_of(words@) =~= before.push(word@));
                assert(before.push(word@) + words_from(inner@, i + 1, i + 1) =~= before + (seq![word@]
                    + words_from(inner@, i + 1, i + 1)));
            }
            begin = i + 1;
        }
        i += 1;
    }
    if begin < len {
        let ghost before = texts_of(words@);
        let word = inner.substring_char(begin, len).to_owned();
        words.push(word);
        assert(texts_of(words@) =~= before.push(word@));
    }
    words
}

/// Whether two dashes stand side by side in `text`.
fn contains_double_dash(text: &str) -> (found: bool)
    ensures
        found == has_double_dash(text@),
{
    let n = text.unicode_len();
    if n < 2 {
        return false;
    }
    let mut i: usize = 0;
    while i < n - 1
        invariant
            2 <= n == text@.len(),
            i <= n - 1,
            forall|j: int| 0 <= j < i ==> !(#[trigger] text@[j] == '-' && text@[j + 1] == '-'),
        decreases n - i,
    {
        if text.get_char(i) == '-' && text.get_char(i + 1) == '-' {
            return true;
        }
        i += 1;
    }
    false
}

/// Whether a space stands in `text`.
fn contains_space(text: &str) -> (found: bool)
    ensures
        found == text@.contains(' '),
{
    let n = text.unicode_len();
    let mut i: usize = 0;
    while i < n
        invariant
            n == text@.len(),
            i <= n,
            forall|j: int| 0 <= j < i ==> text@[j] != ' ',
        decreases n - i,
    {
        if text.get_char(i) == ' ' {
            return true;
        }
        i += 1;
    }
    false
}

impl SearchCmd {
    /// Makes a command of the groups that [`CMD_RE_Q`] or [`CMD_RE`] has
    /// captured: the pattern from group 1, the globs from group 2, the
    /// context sizes from group 3. Without a capture, or without group 1,
    /// there is no command.
    pub fn from_captures(found: Option<Vec<Option<String>>>) -> (parsed: Option<Self>)
        ensures
            cmd_view(parsed) == cmd_of_captures(groups_of(found)),
    {
        let Some(groups) = found else {
            return None;
        };
        let Some(pattern) = group(&groups, 1) else {
            return None;
        };
        let golb = match group(&groups, 2) {
            Some(text) => Some(split_globs(text.as_str())),
            None => None,
        };
        let sizes = match group(&groups, 3) {
            Some(text) => match parse_ab(text.as_str()) {
                Some(ab) => ab,
                None => (0, 0),
            },
            None => (0, 0),
        };
        Some(Self { pattern: pattern.clone(), golb, before_context: sizes.1, after_context: sizes.0 })
    }

    /// Reads a command. The result is `None` for an empty text, and for a
    /// text with a space or two dashes in which no pattern is found.
    pub fn parse(cmd: &String) -> (parsed: Option<Self>)
        ensures
            cmd_view(parsed) == parse_spec(cmd@),
    {
        let text = cmd.as_str();
        if contains_double_dash(text) || contains_space(text) {
            if text.get_char(0) == '"' {
                Self::from_captures(captures(CMD_RE_Q, text))
            } else {
                Self::from_captures(captures(CMD_RE, text))
            }
        } else if text.unicode_len() == 0 {
            None
        } else {
            Some(Self { pattern: cmd.clone(), golb: None, before_context: 0, after_context: 0 })
        }
    }
}

} // verus!
