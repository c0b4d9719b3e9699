//! Lines, words and numbers of a text.
use vstd::prelude::*;
use vstd::utf8::{decode_utf8, valid_utf8};

verus! {

/// `String::push` appends one character.
pub assume_specification[ String::push ](s: &mut String, c: char)
    ensures
        final(s)@ == old(s)@.push(c),
;

/// Calls `std::str::from_utf8`: the text that the bytes encode, where they are valid UTF-8.
#[verifier::external_body]
pub(crate) fn utf8_text(bytes: &[u8]) -> (r: Option<&str>)
    ensures
        match r {
            Some(s) => valid_utf8(bytes@) && s@ == decode_utf8(bytes@),
            None => !valid_utf8(bytes@),
        },
{
    std::str::from_utf8(bytes).ok()
}

/// The characters of a text.
pub(crate) fn characters(s: &str) -> (r: Vec<char>)
    ensures
        r@ == s@,
{
    let mut v: Vec<char> = Vec::new();
    for c in it: s.chars()
        invariant
            it.seq() == s@,
            v@ == s@.take(it.index() as int),
    {
        v.push(c);
    }
    assert(s@.take(s@.len() as int) == s@);
    v
}

/// Whether two texts are the same.
pub(crate) fn same_text(a: &str, b: &str) -> (r: bool)
    ensures
        r == (a@ == b@),
{
    a.to_owned() == b.to_owned()
}

/// Whether a character is white space, by the Unicode property of that name.
pub open spec fn is_space(c: char) -> bool {
    let n = c as u32;
    ||| 0x9 <= n <= 0xd
    ||| n == 0x20
    ||| n == 0x85
    ||| n == 0xa0
    ||| n == 0x1680
    ||| 0x2000 <= n <= 0x200a
    ||| n == 0x2028
    ||| n == 0x2029
    ||| n == 0x202f
    ||| n == 0x205f
    ||| n == 0x3000
}

/// Whether a character is white space.
pub fn space(c: char) -> (r: bool)
    ensures
        r == is_space(c),
{
    let n: u32 = c as u32;
    (0x9 <= n && n <= 0xd) || n == 0x20 || n == 0x85 || n == 0xa0 || n == 0x1680 || (0x2000 <= n
        && n <= 0x200a) || n == 0x2028 || n == 0x2029 || n == 0x202f || n == 0x205f || n == 0x3000
}

/// How many characters stand before the first line feed, or in all where there is none.
pub open spec fn break_at(text: Seq<char>) -> nat
    decreases text.len(),
{
    if text.len() == 0 || text[0] == '\n' {
        0
    } else {
        1 + break_at(text.drop_first())
    }
}

/// A line without the carriage return at its end.
pub open spec fn without_return(line: Seq<char>) -> Seq<char> {
    if line.len() > 0 && line.last() == '\r' {
        line.drop_last()
    } else {
        line
    }
}

/// The first line of a text, without its line feed and a carriage return before that. Where
/// the text has no line feed, all of it.
pub open spec fn first_line(text: Seq<char>) -> Seq<char> {
    let n = break_at(text);
    if n < text.len() {
        without_return(text.take(n as int))
    } else {
        text
    }
}

/// What follows the first line.
pub open spec fn after_line(text: Seq<char>) -> Seq<char> {
    let n = break_at(text);
    if n < text.len() {
        text.skip(n as int + 1)
    } else {
        Seq::empty()
    }
}

/// The lines of a text: each ends with a line feed, which may be missing from the last.
pub open spec fn lines(text: Seq<char>) -> Seq<Seq<char>>
    decreases text.len(),
{
    if text.len() == 0 {
        Seq::empty()
    } else {
        seq![first_line(text)] + lines(after_line(text))
    }
}

/// How many characters of the same kind (white space or not) stand first.
pub open spec fn run(text: Seq<char>, spaces: bool) -> nat
    decreases text.len(),
{
    if text.len() == 0 || is_space(text[0]) != spaces {
        0
    } else {
        1 + run(text.drop_first(), spaces)
    }
}

/// A text without the white space that it starts with.
pub open spec fn trimmed(text: Seq<char>) -> Seq<char> {
    text.skip(run(text, true) as int)
}

/// The words of a text: the longest stretches without white space.
pub open spec fn words(text: Seq<char>) -> Seq<Seq<char>>
    decreases text.len(),
    via words_decreases
{
    let t = trimmed(text);
    if t.len() == 0 {
        Seq::empty()
    } else {
        let n = run(t, false) as int;
        seq![t.take(n)] + words(t.skip(n))
    }
}

#[via_fn]
proof fn words_decreases(text: Seq<char>) {
    lemma_run(text, true);
    let t = trimmed(text);
    lemma_run(t, false);
    if t.len() > 0 {
        let k = run(text, true) as int;
        assert(t[0] == text[k]);
    }
}

/// A run lies in the text, and ends with it or before a character of the other kind.
proof fn lemma_run(text: Seq<char>, spaces: bool)
    ensures
        run(text, spaces) <= text.len(),
        run(text, spaces) < text.len() ==> is_space(text[run(text, spaces) as int]) != spaces,
        forall|i: int| 0 <= i < run(text, spaces) ==> is_space(#[trigger] text[i]) == spaces,
    decreases text.len(),
{
    if text.len() > 0 && is_space(text[0]) == spaces {
        let rest = text.drop_first();
        lemma_run(rest, spaces);
        assert forall|i: int| 0 <= i < run(text, spaces) implies is_space(#[trigger] text[i])
            == spaces by {
            if i > 0 {
                assert(text[i] == rest[i - 1]);
            }
        }
    }
}

/// A line feed is found in the text, and no character before it is one.
proof fn lemma_break_at(text: Seq<char>)
    ensures
        break_at(text) <= text.len(),
        break_at(text) < text.len() ==> text[break_at(text) as int] == '\n',
        forall|i: int| 0 <= i < break_at(text) ==> #[trigger] text[i] != '\n',
    decreases text.len(),
{
    if text.len() > 0 && text[0] != '\n' {
        let rest = text.drop_first();
        lemma_break_at(rest);
        assert forall|i: int| 0 <= i < break_at(text) implies #[trigger] text[i] != '\n' by {
            if i > 0 {
                assert(text[i] == rest[i - 1]);
            }
        }
    }
}

/// The first line feed is where it is found.
proof fn lemma_break_found(text: Seq<char>, n: int)
    requires
        0 <= n <= text.len(),
        n < text.len() ==> text[n] == '\n',
        forall|i: int| 0 <= i < n ==> #[trigger] text[i] != '\n',
    ensures
        break_at(text) == n,
{
    lemma_break_at(text);
    let b = break_at(text) as int;
    if b < n {
        assert(text[b] != '\n');
    } else if n < b {
        assert(text[n] != '\n');
    }
}

/// A run ends where the kind changes.
proof fn lemma_run_found(text: Seq<char>, spaces: bool, n: int)
    requires
        0 <= n <= text.len(),
        n < text.len() ==> is_space(text[n]) != spaces,
        forall|i: int| 0 <= i < n ==> is_space(#[trigger] text[i]) == spaces,
    ensures
        run(text, spaces) == n,
{
    lemma_run(text, spaces);
    let b = run(text, spaces) as int;
    if b < n {
        assert(is_space(text[b]) == spaces);
    } else if n < b {
        assert(is_space(text[n]) == spaces);
    }
}

/// A line: where it starts, where its contents end, and where the next one starts.
#[derive(Clone, Copy, Debug, PartialEq, Eq, Structural)]
pub struct Line {
    pub start: usize,
    pub end: usize,
    pub next: usize,
}

/// Finds the line that starts at `start`.
pub(crate) fn next_line(text: &Vec<char>, start: usize) -> (r: Line)
    requires
        start < text.len(),
    ensures
        r.start == start,
        start <= r.end <= r.next <= text.len(),
        start < r.next,
        text@.subrange(start as int, r.end as int) == first_line(text@.skip(start as int)),
        text@.skip(r.next as int) == after_line(text@.skip(start as int)),
{
    let ghost rest = text@.skip(start as int);
    let mut i: usize = start;
    while i < text.len() && text[i] != '\n'
        invariant
            start <= i <= text.len(),
            forall|k: int| start <= k < i ==> #[trigger] text@[k] != '\n',
        decreases text.len() - i,
    {
        i = i + 1;
    }
    proof {
        assert forall|k: int| 0 <= k < i - start implies #[trigger] rest[k] != '\n' by {
            assert(rest[k] == text@[start + k]);
        }
        lemma_break_found(rest, i - start);
    }
    if i < text.len() {
        let ghost line = rest.take(i - start);
        assert(text@.skip(i + 1) == rest.skip(i - start + 1));
        if i > start && text[i - 1] == '\r' {
            assert(text@.subrange(start as int, i - 1) == line.drop_last());
            Line { start, end: i - 1, next: i + 1 }
        } else {
            assert(text@.subrange(start as int, i as int) == line);
            Line { start, end: i, next: i + 1 }
        }
    } else {
        assert(text@.subrange(start as int, i as int) == rest);
        assert(text@.skip(i as int) == Seq::<char>::empty());
        Line { start, end: i, next: i }
    }
}

/// Copies a stretch of characters into a string.
fn string_of(text: &Vec<char>, from: usize, to: usize) -> (r: String)
    requires
        from <= to <= text.len(),
    ensures
        r@ == text@.subrange(from as int, to as int),
{
    let mut s: String = String::new();
    let mut i: usize = from;
    while i < to
        invariant
            from <= i <= to <= text.len(),
            s@ == text@.subrange(from as int, i as int),
        decreases to - i,
    {
        s.push(text[i]);
        i = i + 1;
    }
    s
}

/// The texts of a list of strings.
pub open spec fn texts(strings: Seq<String>) -> Seq<Seq<char>> {
    Seq::new(strings.len(), |i: int| strings[i]@)
}

/// Splits a stretch of characters into its words.
pub(crate) fn split_words(text: &Vec<char>, from: usize, to: usize) -> (r: Vec<String>)
    requires
        from <= to <= text.len(),
    ensures
        texts(r@) == words(text@.subrange(from as int, to as int)),
{
    let ghost all = text@.subrange(from as int, to as int);
    let mut out: Vec<String> = Vec::new();
    let mut i: usize = from;
    assert(texts(out@) + words(all) == words(all));
    loop
        invariant_except_break
            texts(out@) + words(text@.subrange(i as int, to as int)) == words(all),
        invariant
            from <= i <= to <= text.len(),
        ensures
            texts(out@) == words(all),
        decreases to - i,
    {
        let ghost rest = text@.subrange(i as int, to as int);
        let mut start: usize = i;
        while start < to && space(text[start])
            invariant
                i <= start <= to <= text.len(),
                forall|k: int| i <= k < start ==> is_space(#[trigger] text@[k]),
            decreases to - start,
        {
            start = start + 1;
        }
        proof {
            assert forall|k: int| 0 <= k < start - i implies is_space(#[trigger] rest[k]) by {
                assert(rest[k] == text@[i + k]);
            }
            lemma_run_found(rest, true, start - i);
        }
        let ghost t = text@.subrange(start as int, to as int);
        assert(trimmed(rest) == t);
        if start >= to {
            assert(texts(out@) + Seq::<Seq<char>>::empty() == texts(out@));
            break;
        }
        let mut end: usize = start;
        while end < to && !space(text[end])
            invariant
                start <= end <= to <= text.len(),
                forall|k: int| start <= k < end ==> !is_space(#[trigger] text@[k]),
            decreases to - end,
        {
            end = end + 1;
        }
        proof {
            assert forall|k: int| 0 <= k < end - start implies !is_space(#[trigger] t[k]) by {
                assert(t[k] == text@[start + k]);
            }
            lemma_run_found(t, false, end - start);
            assert(t[0] == text@[start as int]);
            assert(t.take(end - start) == text@.subrange(start as int, end as int));
            assert(t.skip(end - start) == text@.subrange(end as int, to as int));
        }
        let ghost before = texts(out@);
        let ghost word = text@.subrange(start as int, end as int);
        let ghost tail = words(text@.subrange(end as int, to as int));
        out.push(string_of(text, start, end));
        assert(texts(out@) == before.push(word));
        assert(before + (seq![word] + tail) == texts(out@) + tail);
        i = end;
    }
    out
}

/// Whether a character is a decimal digit.
pub open spec fn is_digit(c: char) -> bool {
    '0' <= c <= '9'
}

/// Whether a text is made of one or more decimal digits.
pub open spec fn all_digits(text: Seq<char>) -> bool {
    text.len() > 0 && forall|i: int| 0 <= i < text.len() ==> is_digit(#[trigger] text[i])
}

/// The number that digits spell.
pub open spec fn decimal(digits: Seq<char>) -> int
    decreases digits.len(),
{
    if digits.len() == 0 {
        0
    } else {
        10 * decimal(digits.drop_last()) + (digits.last() as int - '0' as int)
    }
}

/// A text without the plus sign it may start with.
pub open spec fn unsigned_part(text: Seq<char>) -> Seq<char> {
    if text.len() > 0 && text[0] == '+' {
        text.drop_first()
    } else {
        text
    }
}

/// The count that a text spells: digits, after a plus sign if there is one, whose number
/// is a `usize`.
pub open spec fn count_of(text: Seq<char>) -> Option<usize> {
    let digits = unsigned_part(text);
    if all_digits(digits) && decimal(digits) <= usize::MAX {
        Some(decimal(digits) as usize)
    } else {
        None
    }
}

/// The number of some digits is not negative, and more digits do not make it less.
proof fn lemma_decimal_grows(digits: Seq<char>, n: int)
    requires
        0 <= n <= digits.len(),
        forall|i: int| 0 <= i < digits.len() ==> is_digit(#[trigger] digits[i]),
    ensures
        0 <= decimal(digits.take(n)) <= decimal(digits),
    decreases digits.len(),
{
    if n == digits.len() {
        assert(digits.take(n) == digits);
        if n > 0 {
            lemma_decimal_grows(digits.drop_last(), n - 1);
        }
    } else {
        lemma_decimal_grows(digits.drop_last(), n);
        assert(digits.drop_last().take(n) == digits.take(n));
    }
}

/// Reads a count.
pub fn parse_count(s: &str) -> (r: Option<usize>)
    ensures
        r == count_of(s@),
{
    let text: Vec<char> = characters(s);
    let ghost digits = unsigned_part(text@);
    let start: usize = if text.len() > 0 && text[0] == '+' {
        1
    } else {
        0
    };
    assert(digits == text@.skip(start as int));
    if start >= text.len() {
        return None;
    }
    let mut i: usize = start;
    let mut n: usize = 0;
    while i < text.len()
        invariant
            start <= i <= text.len(),
            digits == text@.skip(start as int),
            digits == unsigned_part(s@),
            n == decimal(digits.take(i - start)),
            forall|k: int| 0 <= k < i - start ==> is_digit(#[trigger] digits[k]),
        decreases text.len() - i,
    {
        let c: char = text[i];
        assert(c == digits[i - start]);
        if c < '0' || c > '9' {
            return None;
        }
        assert(digits.take(i - start + 1).drop_last() == digits.take(i - start));
        assert(digits.take(i - start + 1).last() == c);
        let digit: usize = (c as u32 - '0' as u32) as usize;
        let next: Option<usize> = match n.checked_mul(10) {
            Some(m) => m.checked_add(digit),
            None => None,
        };
        match next {
            Some(m) => {
                n = m;
            },
            None => {
                proof {
                    if all_digits(digits) {
                        lemma_decimal_grows(digits, i - start + 1);
                    }
                }
                return None;
            },
        }
        i = i + 1;
    }
    assert(digits.take(i - start) == digits);
    Some(n)
}

/// What the bytes of two texts encode, one behind the other, is what they encode: where
/// the first are valid UTF-8, the whole is just where the second are.
pub proof fn decoding_adds_up(a: Seq<u8>, b: Seq<u8>)
    requires
        valid_utf8(a),
    ensures
        valid_utf8(a + b) <==> valid_utf8(b),
        valid_utf8(b) ==> decode_utf8(a + b) == decode_utf8(a) + decode_utf8(b),
    decreases a.len(),
{
    if a.len() == 0 {
        assert(a + b == b);
        assert(decode_utf8(a) + decode_utf8(b) == decode_utf8(b));
    } else {
        let rest = vstd::utf8::pop_first_scalar(a);
        let first = vstd::utf8::length_of_first_scalar(a);
        assert(1 <= first <= a.len());
        assert((a + b)[0] == a[0]);
        assert(first >= 2 ==> (a + b)[1] == a[1]);
        assert(first >= 3 ==> (a + b)[2] == a[2]);
        assert(first >= 4 ==> (a + b)[3] == a[3]);
        assert(vstd::utf8::valid_first_scalar(a + b));
        assert(vstd::utf8::pop_first_scalar(a + b) =~= rest + b);
        decoding_adds_up(rest, b);
        if valid_utf8(b) {
            assert(decode_utf8(a + b) =~= decode_utf8(a) + decode_utf8(b));
        }
    }
}

/// Whether a text holds no line feed.
pub open spec fn has_no_feed(line: Seq<char>) -> bool {
    forall|i: int| 0 <= i < line.len() ==> #[trigger] line[i] != '\n'
}

/// Lines, each with a line feed at its end.
pub open spec fn joined(ls: Seq<Seq<char>>) -> Seq<char>
    decreases ls.len(),
{
    if ls.len() == 0 {
        Seq::empty()
    } else {
        (ls[0] + seq!['\n']) + joined(ls.drop_first())
    }
}

/// A line that was written is read again, before the lines of whatever text follows. A
/// carriage return at its end counts as part of the line end.
pub proof fn written_line_is_read_back(line: Seq<char>, text: Seq<char>)
    requires
        has_no_feed(line),
    ensures
        lines((line + seq!['\n']) + text) == seq![without_return(line)] + lines(text),
{
    let all = (line + seq!['\n']) + text;
    let n = line.len() as int;
    assert(all[n] == '\n');
    assert forall|i: int| 0 <= i < n implies #[trigger] all[i] != '\n' by {
        assert(all[i] == line[i]);
    }
    lemma_break_found(all, n);
    assert(all.take(n) == line);
    assert(all.skip(n + 1) == text);
}

/// Lines that were written are read again, before those of whatever text follows. It is all
/// the same whether a line ends with a line feed or with a carriage return and a line feed.
pub proof fn written_lines_are_read_back(ls: Seq<Seq<char>>, text: Seq<char>)
    requires
        forall|i: int| 0 <= i < ls.len() ==> has_no_feed(#[trigger] ls[i]),
    ensures
        lines(joined(ls) + text) == ls.map_values(|l: Seq<char>| without_return(l)) + lines(text),
    decreases ls.len(),
{
    let read = ls.map_values(|l: Seq<char>| without_return(l));
    if ls.len() == 0 {
        assert(joined(ls) + text == text);
        assert(read + lines(text) == lines(text));
    } else {
        let rest = ls.drop_first();
        assert(has_no_feed(ls[0]));
        assert forall|i: int| 0 <= i < rest.len() implies has_no_feed(#[trigger] rest[i]) by {
            assert(rest[i] == ls[i + 1]);
        }
        written_lines_are_read_back(rest, text);
        written_line_is_read_back(ls[0], joined(rest) + text);
        assert(joined(ls) + text == (ls[0] + seq!['\n']) + (joined(rest) + text));
        assert(lines(joined(ls) + text) =~= read + lines(text));
    }
}

/// A line that starts with a character other than white space has a first word, which
/// starts with that character.
pub proof fn first_word_starts_the_line(line: Seq<char>)
    requires
        line.len() > 0,
        !is_space(line[0]),
    ensures
        words(line).len() > 0,
        words(line)[0].len() > 0,
        words(line)[0][0] == line[0],
{
    lemma_run_found(line, true, 0);
    assert(trimmed(line) == line);
    lemma_run(line, false);
}

/// No word is empty, and none holds white space.
pub proof fn words_hold_no_space(text: Seq<char>)
    ensures
        forall|i: int|
            0 <= i < words(text).len() ==> (#[trigger] words(text)[i]).len() > 0 && run(
                words(text)[i],
                false,
            ) == words(text)[i].len(),
    decreases text.len(),
{
    let t = trimmed(text);
    lemma_run(text, true);
    lemma_run(t, false);
    if t.len() > 0 {
        assert(t[0] == text[run(text, true) as int]);
        let n = run(t, false) as int;
        let word = t.take(n);
        let rest = t.skip(n);
        words_hold_no_space(rest);
        assert forall|k: int| 0 <= k < n implies !is_space(#[trigger] word[k]) by {
            assert(word[k] == t[k]);
        }
        lemma_run_found(word, false, n);
        assert forall|i: int| 0 <= i < words(text).len() implies (#[trigger] words(text)[i]).len()
            > 0 && run(words(text)[i], false) == words(text)[i].len() by {
            if i > 0 {
                assert(words(text)[i] == words(rest)[i - 1]);
            }
        }
    }
}

/// How a text falls into lines: an empty one has none, one without a line feed is one line,
/// and what stands before a line feed is a line, without the carriage return that may stand
/// right before it.
pub proof fn lines_end_at_line_feeds(line: Seq<char>, text: Seq<char>)
    requires
        forall|i: int| 0 <= i < line.len() ==> #[trigger] line[i] != '\n',
    ensures
        lines(Seq::<char>::empty()) == Seq::<Seq<char>>::empty(),
        line.len() > 0 ==> lines(line) == seq![line],
        lines(line + seq!['\r', '\n'] + text) == seq![line] + lines(text),
        line.len() == 0 || line.last() != '\r' ==> lines(line + seq!['\n'] + text) == seq![line]
            + lines(text),
{
    let returned = line.push('\r');
    assert(has_no_feed(line));
    assert(has_no_feed(returned)) by {
        assert forall|i: int| 0 <= i < returned.len() implies #[trigger] returned[i] != '\n' by {
            if i < line.len() {
                assert(returned[i] == line[i]);
            }
        }
    }
    written_line_is_read_back(line, text);
    written_line_is_read_back(returned, text);
    assert(line + seq!['\r', '\n'] + text =~= (returned + seq!['\n']) + text);
    assert(returned.drop_last() =~= line);
    if line.len() > 0 {
        lemma_break_found(line, line.len() as int);
        assert(lines(Seq::<char>::empty()) =~= Seq::<Seq<char>>::empty());
        assert(seq![line] + Seq::<Seq<char>>::empty() =~= seq![line]);
    }
}

/// A word at the start of a text is its first word.
proof fn lemma_words_split(word: Seq<char>, rest: Seq<char>)
    requires
        word.len() > 0,
        forall|i: int| 0 <= i < word.len() ==> !is_space(#[trigger] word[i]),
        rest.len() > 0 ==> is_space(rest[0]),
    ensures
        words(word + rest) == seq![word] + words(rest),
{
    let all = word + rest;
    let n = word.len() as int;
    assert(all[0] == word[0]);
    lemma_run_found(all, true, 0);
    assert(trimmed(all) =~= all);
    assert forall|i: int| 0 <= i < n implies is_space(#[trigger] all[i]) == false by {
        assert(all[i] == word[i]);
    }
    if rest.len() > 0 {
        assert(all[n] == rest[0]);
    }
    lemma_run_found(all, false, n);
    assert(all.take(n) =~= word);
    assert(all.skip(n) =~= rest);
}

/// How a text falls into words: an empty one has none, white space at its start does not
/// matter, a text without white space is one word, and a stretch without white space that
/// white space follows is the first word, before those of the rest.
pub proof fn words_end_at_white_space(word: Seq<char>, space: char, rest: Seq<char>)
    requires
        word.len() > 0,
        forall|i: int| 0 <= i < word.len() ==> !is_space(#[trigger] word[i]),
        is_space(space),
    ensures
        words(Seq::<char>::empty()) == Seq::<Seq<char>>::empty(),
        words(seq![space] + rest) == words(rest),
        words(word) == seq![word],
        words(word + seq![space] + rest) == seq![word] + words(rest),
{
    let none = Seq::<char>::empty();
    lemma_run_found(none, true, 0);
    assert(trimmed(none) =~= none);
    assert(words(none) =~= Seq::<Seq<char>>::empty());
    let led = seq![space] + rest;
    lemma_run(rest, true);
    let k = run(rest, true) as int;
    assert forall|i: int| 0 <= i < k + 1 implies is_space(#[trigger] led[i]) by {
        if i > 0 {
            assert(led[i] == rest[i - 1]);
        }
    }
    if k < rest.len() {
        assert(led[k + 1] == rest[k]);
    }
    lemma_run_found(led, true, k + 1);
    assert(trimmed(led) =~= trimmed(rest));
    lemma_words_split(word, none);
    assert(word + none =~= word);
    assert(seq![word] + words(none) =~= seq![word]);
    lemma_words_split(word, led);
    assert(word + seq![space] + rest =~= word + led);
}

/// Whether a text is made of one or more of the ten digits.
pub open spec fn is_numeral(text: Seq<char>) -> bool {
    text.len() > 0 && forall|i: int|
        0 <= i < text.len() ==> '0' <= #[trigger] text[i] && text[i] <= '9'
}

/// How a count is spelled: a digit stands for itself, each further one makes the count ten
/// times as large and adds its own value, as long as the count fits, and a plus sign may
/// stand before the first. Anything else spells no count.
pub proof fn counts_are_decimal(text: Seq<char>, digit: char)
    requires
        '0' <= digit <= '9',
    ensures
        count_of(seq![digit]) == Some((digit as int - '0' as int) as usize),
        is_numeral(text) ==> count_of(text.push(digit)) == (match count_of(text) {
            Some(n) => if 10 * n + (digit as int - '0' as int) <= usize::MAX {
                Some((10 * n + (digit as int - '0' as int)) as usize)
            } else {
                None
            },
            None => None,
        }),
        is_numeral(text) ==> count_of(seq!['+'] + text) == count_of(text),
        count_of(text) is Some ==> is_numeral(text) || (text[0] == '+' && is_numeral(
            text.drop_first(),
        )),
{
    let one = seq![digit];
    assert(one.drop_last() =~= Seq::<char>::empty());
    assert(one.last() == digit);
    assert(all_digits(one));
    assert(decimal(one) == digit as int - '0' as int) by {
        assert(decimal(Seq::<char>::empty()) == 0);
    }
    if is_numeral(text) {
        let more = text.push(digit);
        assert(more.drop_last() =~= text);
        assert(all_digits(text)) by {
            assert forall|i: int| 0 <= i < text.len() implies is_digit(#[trigger] text[i]) by {}
        }
        assert(all_digits(more)) by {
            assert forall|i: int| 0 <= i < more.len() implies is_digit(#[trigger] more[i]) by {
                if i < text.len() {
                    assert(more[i] == text[i]);
                }
            }
        }
        assert('0' <= text[0] && text[0] <= '9');
        assert(more[0] == text[0]);
        lemma_decimal_grows(text, 0);
        assert(text.take(0) =~= Seq::<char>::empty());
        let led = seq!['+'] + text;
        assert(led.drop_first() =~= text);
    }
    if count_of(text) is Some {
        let digits = unsigned_part(text);
        assert(is_numeral(digits)) by {
            assert forall|i: int| 0 <= i < digits.len() implies '0' <= #[trigger] digits[i]
                && digits[i] <= '9' by {
                assert(is_digit(digits[i]));
            }
        }
    }
}

} // verus!
