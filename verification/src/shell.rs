use vstd::prelude::*;

verus! {

/// A command of the kernel's minimal shell.
#[derive(Clone, Copy, Debug, PartialEq, Eq)]
pub enum Command {
    /// `help`: print the kernel's name and version.
    Help,
    /// `exit`: leave the shell.
    Exit,
    /// `start`: draw the test screen.
    Start,
    /// Any other word.
    Unknown,
}

/// Whether `c` is white space in Unicode (the property that
/// `char::is_whitespace` tests).
pub open spec fn is_white(c: char) -> bool {
    let v = c as u32;
    (0x9 <= v <= 0xD) || v == 0x20 || v == 0x85 || v == 0xA0 || v == 0x1680 || (0x2000 <= v
        <= 0x200A) || v == 0x2028 || v == 0x2029 || v == 0x202F || v == 0x205F || v == 0x3000
}

/// The index of the first character from `i` on that is (when `white`) or
/// is not (when `!white`) white space; the length when there is none.
pub open spec fn skip_from(s: Seq<char>, i: int, white: bool) -> int
    decreases s.len() - i,
{
    if i < 0 || i >= s.len() {
        s.len() as int
    } else if is_white(s[i]) != white {
        i
    } else {
        skip_from(s, i + 1, white)
    }
}

/// The first word of a line: the characters after leading white space, up
/// to the next white space.
pub open spec fn first_word(s: Seq<char>) -> Seq<char> {
    let start = skip_from(s, 0, true);
    s.subrange(start, skip_from(s, start, false))
}

/// Whether a line holds a character that is not white space.
pub open spec fn has_word(s: Seq<char>) -> bool {
    exists|i: int| 0 <= i < s.len() && !is_white(#[trigger] s[i])
}

pub const WORD_HELP: [char; 4] = ['h', 'e', 'l', 'p'];

pub const WORD_EXIT: [char; 4] = ['e', 'x', 'i', 't'];

pub const WORD_START: [char; 5] = ['s', 't', 'a', 'r', 't'];

/// The command that a first word names.
pub open spec fn command_of(word: Seq<char>) -> Command {
    if word == WORD_HELP@ {
        Command::Help
    } else if word == WORD_EXIT@ {
        Command::Exit
    } else if word == WORD_START@ {
        Command::Start
    } else {
        Command::Unknown
    }
}

/// Whether `c` is white space in Unicode.
pub fn is_whitespace(c: char) -> (b: bool)
    ensures
        b == is_white(c),
{
    let v = c as u32;
    (0x9 <= v && v <= 0xD) || v == 0x20 || v == 0x85 || v == 0xA0 || v == 0x1680 || (0x2000 <= v
        && v <= 0x200A) || v == 0x2028 || v == 0x2029 || v == 0x202F || v == 0x205F || v == 0x3000
}

/// The first index from `i` on whose whiteness differs from `white`.
fn skip(s: &Vec<char>, i: usize, white: bool) -> (k: usize)
    requires
        i <= s@.len(),
    ensures
        k == skip_from(s@, i as int, white),
    decreases s@.len() - i,
{
    if i >= s.len() {
        s.len()
    } else if is_whitespace(s[i]) != white {
        i
    } else {
        skip(s, i + 1, white)
    }
}

/// Whether `s[a..b]` is `word`.
fn range_is_word(s: &Vec<char>, a: usize, b: usize, word: &[char]) -> (r: bool)
    requires
        a <= b <= s@.len(),
    ensures
        r == (s@.subrange(a as int, b as int) == word@),
{
    if b - a != word.len() {
        return false;
    }
    let mut i: usize = 0;
    while i < word.len()
        invariant
            a <= b <= s@.len(),
            b - a == word@.len(),
            0 <= i <= word@.len(),
            forall|j: int| 0 <= j < i ==> s@[a + j] == word@[j],
        decreases word@.len() - i,
    {
        if s[a + i] != word[i] {
            assert(s@.subrange(a as int, b as int)[i as int] != word@[i as int]);
            return false;
        }
        i = i + 1;
    }
    assert(s@.subrange(a as int, b as int) =~= word@);
    true
}

/// `skip_from` stays in range.
proof fn lemma_skip_bounds(s: Seq<char>, i: int, white: bool)
    requires
        0 <= i <= s.len(),
    ensures
        i <= skip_from(s, i, white) <= s.len(),
    decreases s.len() - i,
{
    if i < s.len() && is_white(s[i]) == white {
        lemma_skip_bounds(s, i + 1, white);
    }
}

/// Reads the command that a line of input names by its first word; the
/// line must hold a word.
pub fn parse_command(line: &str) -> (c: Command)
    requires
        has_word(line@),
    ensures
        c == command_of(first_word(line@)),
{
    let mut s: Vec<char> = Vec::new();
    let ghost text = line@;
    let ghost mut n: int = 0;
    proof {
        broadcast use vstd::string::axiom_spec_iter;
    }
    for ch in it: line.chars()
        invariant
            text == line@,
            it.seq() == text,
            n == it.index(),
            0 <= n <= text.len(),
            s@ == text.take(n),
    {
        assert(ch == text[n]);
        s.push(ch);
        assert(text.take(n + 1) =~= text.take(n).push(ch));
        proof {
            n = n + 1;
        }
    }
    assert(text.take(n) =~= text);
    let start = skip(&s, 0, true);
    proof {
        lemma_skip_bounds(s@, 0, true);
        lemma_skip_bounds(s@, start as int, false);
    }
    let end = skip(&s, start, false);
    if range_is_word(&s, start, end, &WORD_HELP) {
        Command::Help
    } else if range_is_word(&s, start, end, &WORD_EXIT) {
        Command::Exit
    } else if range_is_word(&s, start, end, &WORD_START) {
        Command::Start
    } else {
        Command::Unknown
    }
}

} // verus!
