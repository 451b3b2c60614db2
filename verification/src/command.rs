//! Commands and the parsing of one input line into a command.

use vstd::prelude::*;
use vstd::string::*;

verus! {

/// One operation asked of the store.
#[derive(Debug)]
pub enum Command {
    Get(String),
    Put(String, String, Option<u64>),
    Keys,
    Delete(String),
    Exit,
    Empty,
    Unknown(String),
}

/// A command with its texts as sequences of characters.
pub enum CommandView {
    Get(Seq<char>),
    Put(Seq<char>, Seq<char>, Option<u64>),
    Keys,
    Delete(Seq<char>),
    Exit,
    Empty,
    Unknown(Seq<char>),
}

impl View for Command {
    type V = CommandView;

    open spec fn view(&self) -> CommandView {
        match self {
            Command::Get(k) => CommandView::Get(k@),
            Command::Put(k, v, ttl) => CommandView::Put(k@, v@, *ttl),
            Command::Keys => CommandView::Keys,
            Command::Delete(k) => CommandView::Delete(k@),
            Command::Exit => CommandView::Exit,
            Command::Empty => CommandView::Empty,
            Command::Unknown(text) => CommandView::Unknown(text@),
        }
    }
}

/// Whether a character is white space: the characters of Unicode's
/// `White_Space` property.
pub open spec fn is_space(c: char) -> bool {
    let u = c as u32;
    (0x09 <= u <= 0x0d) || u == 0x20 || u == 0x85 || u == 0xa0 || u == 0x1680 || (0x2000 <= u
        <= 0x200a) || u == 0x2028 || u == 0x2029 || u == 0x202f || u == 0x205f || u == 0x3000
}

/// The words of a text: its maximal runs of characters that are not white
/// space, in order.
pub open spec fn tokens(s: Seq<char>) -> Seq<Seq<char>>
    decreases s.len(),
{
    if s.len() == 0 {
        Seq::empty()
    } else {
        let before = tokens(s.drop_last());
        let c = s.last();
        if is_space(c) {
            before
        } else if s.len() >= 2 && !is_space(s[s.len() - 2]) && before.len() > 0 {
            before.drop_last().push(before.last().push(c))
        } else {
            before.push(seq![c])
        }
    }
}

/// A text without the white space at its start.
pub open spec fn trim_start(s: Seq<char>) -> Seq<char>
    decreases s.len(),
{
    if s.len() > 0 && is_space(s[0]) {
        trim_start(s.skip(1))
    } else {
        s
    }
}

/// A text without the white space at its end.
pub open spec fn trim_end(s: Seq<char>) -> Seq<char>
    decreases s.len(),
{
    if s.len() > 0 && is_space(s.last()) {
        trim_end(s.drop_last())
    } else {
        s
    }
}

/// A text without the white space at either end.
pub open spec fn trimmed(s: Seq<char>) -> Seq<char> {
    trim_end(trim_start(s))
}

/// Whether a character is one of the ten decimal digits.
pub open spec fn is_digit(c: char) -> bool {
    0x30 <= c as u32 <= 0x39
}

/// The number that a run of decimal digits writes.
pub open spec fn decimal(s: Seq<char>) -> int
    decreases s.len(),
{
    if s.len() == 0 {
        0
    } else {
        decimal(s.drop_last()) * 10 + (s.last() as u32 - 0x30)
    }
}

/// A word without the plus sign that it may start with.
pub open spec fn unsigned_part(s: Seq<char>) -> Seq<char> {
    if s.len() > 0 && s[0] == '+' {
        s.skip(1)
    } else {
        s
    }
}

/// A time-to-live as written in a command: decimal digits, at least one,
/// after an optional plus sign, of a number that fits in 64 bits.
pub open spec fn ttl_of(s: Seq<char>) -> Option<u64> {
    let digits = unsigned_part(s);
    if digits.len() > 0 && (forall|i: int| 0 <= i < digits.len() ==> is_digit(#[trigger] digits[i]))
        && decimal(digits) <= u64::MAX {
        Some(decimal(digits) as u64)
    } else {
        None
    }
}

/// The command that an input line stands for. A line of two words that
/// starts with `get` or `delete`, of three or four that starts with `set`,
/// or of the one word `keys` or `exit` is that command; a line without a
/// word is empty; every other line, a `set` with an unreadable time-to-live
/// among them, is unknown and kept without the white space round it.
pub open spec fn parsed(input: Seq<char>) -> CommandView {
    let t = tokens(input);
    if t.len() == 0 {
        CommandView::Empty
    } else if t.len() == 2 && t[0] == "get"@ {
        CommandView::Get(t[1])
    } else if t.len() == 3 && t[0] == "set"@ {
        CommandView::Put(t[1], t[2], None)
    } else if t.len() == 4 && t[0] == "set"@ && ttl_of(t[3]) is Some {
        CommandView::Put(t[1], t[2], ttl_of(t[3]))
    } else if t.len() == 1 && t[0] == "keys"@ {
        CommandView::Keys
    } else if t.len() == 2 && t[0] == "delete"@ {
        CommandView::Delete(t[1])
    } else if t.len() == 1 && t[0] == "exit"@ {
        CommandView::Exit
    } else {
        CommandView::Unknown(trimmed(input))
    }
}

/// Decides whether a character is white space.
pub fn char_is_space(c: char) -> (b: bool)
    ensures
        b == is_space(c),
{
    let u: u32 = c as u32;
    (0x09 <= u && u <= 0x0d) || u == 0x20 || u == 0x85 || u == 0xa0 || u == 0x1680 || (0x2000 <= u
        && u <= 0x200a) || u == 0x2028 || u == 0x2029 || u == 0x202f || u == 0x205f || u == 0x3000
}

/// Splits a text into its words.
pub fn split_words(input: &str) -> (words: Vec<String>)
    ensures
        words.len() == tokens(input@).len(),
        forall|i: int| 0 <= i < words.len() ==> (#[trigger] words[i])@ == tokens(input@)[i],
{
    let n = input.unicode_len();
    let mut words: Vec<String> = Vec::new();
    let ghost mut done: Seq<Seq<char>> = Seq::empty();
    let mut start: usize = 0;
    let mut in_word = false;
    let mut i: usize = 0;
    assert(input@.take(0) =~= Seq::<char>::empty());
    while i < n
        invariant
            n == input@.len(),
            i <= n,
            words.len() == done.len(),
            forall|j: int| 0 <= j < words.len() ==> (#[trigger] words[j])@ == done[j],
            in_word ==> start < i && !is_space(input@[i - 1]) && tokens(input@.take(i as int))
                == done.push(input@.subrange(start as int, i as int)),
            !in_word ==> (i == 0 || is_space(input@[i - 1])) && tokens(input@.take(i as int))
                == done,
        decreases n - i,
    {
        let c = input.get_char(i);
        let space = char_is_space(c);
        proof {
            let cur = input@.take(i + 1);
            assert(cur.drop_last() =~= input@.take(i as int));
            assert(cur.last() == c);
            if i > 0 {
                assert(cur[cur.len() - 2] == input@[i - 1]);
            }
            if !space && in_word {
                let t = tokens(input@.take(i as int));
                assert(t.drop_last() =~= done);
                assert(t.last().push(c) =~= input@.subrange(start as int, i + 1));
            }
            if !space && !in_word {
                assert(seq![c] =~= input@.subrange(i as int, i + 1));
            }
        }
        if space {
            if in_word {
                let word = String::from_str(input.substring_char(start, i));
                words.push(word);
                proof {
                    done = done.push(input@.subrange(start as int, i as int));
                }
                in_word = false;
            }
        } else if !in_word {
            start = i;
            in_word = true;
        }
        i += 1;
    }
    assert(input@.take(n as int) =~= input@);
    if in_word {
        let word = String::from_str(input.substring_char(start, n));
        words.push(word);
    }
    words
}

/// Strips the white space from both ends of a text.
pub fn trim(input: &str) -> (out: String)
    ensures
        out@ == trimmed(input@),
{
    let n = input.unicode_len();
    let mut a: usize = 0;
    assert(input@.skip(0) =~= input@);
    while a < n && char_is_space(input.get_char(a))
        invariant
            n == input@.len(),
            a <= n,
            trim_start(input@) == trim_start(input@.skip(a as int)),
        decreases n - a,
    {
        proof {
            assert(input@.skip(a as int)[0] == input@[a as int]);
            assert(input@.skip(a as int).skip(1) =~= input@.skip(a + 1));
        }
        a += 1;
    }
    let ghost rest = input@.skip(a as int);
    proof {
        if a < n {
            assert(rest[0] == input@[a as int]);
        }
        assert(trim_start(input@) == rest);
        assert(rest.take(rest.len() as int) =~= rest);
    }
    let mut b: usize = n;
    while b > a && char_is_space(input.get_char(b - 1))
        invariant
            n == input@.len(),
            a <= b <= n,
            rest == input@.skip(a as int),
            trim_end(rest) == trim_end(rest.take(b - a)),
        decreases b,
    {
        proof {
            assert(rest.take(b - a).last() == input@[b - 1]);
            assert(rest.take(b - a).drop_last() =~= rest.take(b - a - 1));
        }
        b -= 1;
    }
    proof {
        let kept = rest.take(b - a);
        if b > a {
            assert(kept.last() == input@[b - 1]);
        }
        assert(trim_end(kept) == kept);
        assert(kept =~= input@.subrange(a as int, b as int));
    }
    String::from_str(input.substring_char(a, b))
}

/// A longer run of digits writes a number that is no smaller than the one
/// its beginning writes.
pub proof fn lemma_decimal_grows(s: Seq<char>, i: int)
    requires
        0 <= i <= s.len(),
        forall|j: int| 0 <= j < s.len() ==> is_digit(#[trigger] s[j]),
    ensures
        0 <= decimal(s.take(i)) <= decimal(s),
    decreases s.len() - i,
{
    lemma_decimal_nonneg(s.take(i));
    if i == s.len() {
        assert(s.take(i) =~= s);
    } else {
        lemma_decimal_grows(s, i + 1);
        assert(s.take(i + 1).drop_last() =~= s.take(i));
        assert(is_digit(s[i]));
        assert(s.take(i + 1).last() == s[i]);
    }
}

/// A run of digits writes a number that is not negative.
pub proof fn lemma_decimal_nonneg(s: Seq<char>)
    requires
        forall|j: int| 0 <= j < s.len() ==> is_digit(#[trigger] s[j]),
    ensures
        0 <= decimal(s),
    decreases s.len(),
{
    if s.len() > 0 {
        assert(is_digit(s[s.len() - 1]));
        lemma_decimal_nonneg(s.drop_last());
    }
}

/// Reads a time-to-live in seconds from a word.
pub fn parse_ttl(word: &str) -> (ttl: Option<u64>)
    ensures
        ttl == ttl_of(word@),
{
    let n = word.unicode_len();
    let first: usize = if n > 0 && word.get_char(0) == '+' {
        1
    } else {
        0
    };
    let ghost digits = unsigned_part(word@);
    assert(digits =~= word@.skip(first as int));
    if first == n {
        return None;
    }
    let mut total: u64 = 0;
    let mut i: usize = first;
    assert(digits.take(0) =~= Seq::<char>::empty());
    while i < n
        invariant
            n == word@.len(),
            first <= i <= n,
            first <= 1,
            digits == word@.skip(first as int),
            digits == unsigned_part(word@),
            forall|j: int| 0 <= j < i - first ==> is_digit(#[trigger] digits[j]),
            total == decimal(digits.take(i - first)),
        decreases n - i,
    {
        let c = word.get_char(i);
        let u: u32 = c as u32;
        assert(digits[i - first] == c);
        if u < 0x30 || u > 0x39 {
            assert(!is_digit(digits[i - first]));
            return None;
        }
        let d: u64 = (u - 0x30) as u64;
        proof {
            let next = digits.take(i - first + 1);
            assert(next.drop_last() =~= digits.take(i - first));
            assert(next.last() == c);
            assert(decimal(next) == total * 10 + d);
            if total * 10 + d > u64::MAX {
                if forall|j: int| 0 <= j < digits.len() ==> is_digit(#[trigger] digits[j]) {
                    lemma_decimal_grows(digits, i - first + 1);
                }
            }
        }
        let scaled = match total.checked_mul(10) {
            Some(x) => x,
            None => {
                return None;
            },
        };
        total = match scaled.checked_add(d) {
            Some(x) => x,
            None => {
                return None;
            },
        };
        i += 1;
    }
    assert(digits.take(digits.len() as int) =~= digits);
    Some(total)
}

/// Compares a word with a keyword.
fn word_is(word: &String, keyword: &str) -> (same: bool)
    ensures
        same == (word@ == keyword@),
{
    let key = String::from_str(keyword);
    *word == key
}

impl Command {
    /// Turns one input line into the command that it stands for.
    pub fn parse(input: String) -> (command: Command)
        ensures
            command@ == parsed(input@),
    {
        let words = split_words(input.as_str());
        let n = words.len();
        if n == 0 {
            Command::Empty
        } else if n == 2 && word_is(&words[0], "get") {
            Command::Get(words[1].clone())
        } else if n == 3 && word_is(&words[0], "set") {
            Command::Put(words[1].clone(), words[2].clone(), None)
        } else if n == 4 && word_is(&words[0], "set") {
            match parse_ttl(words[3].as_str()) {
                Some(ttl) => Command::Put(words[1].clone(), words[2].clone(), Some(ttl)),
                None => Command::Unknown(trim(input.as_str())),
            }
        } else if n == 1 && word_is(&words[0], "keys") {
            Command::Keys
        } else if n == 2 && word_is(&words[0], "delete") {
            Command::Delete(words[1].clone())
        } else if n == 1 && word_is(&words[0], "exit") {
            Command::Exit
        } else {
            Command::Unknown(trim(input.as_str()))
        }
    }
}

} // verus!
