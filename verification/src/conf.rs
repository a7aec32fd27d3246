use vstd::prelude::*;
use crate::string::string_push;

verus! {

/// The keys of the boot loader's configuration file.
pub const KEY_KERNEL: [char; 6] = ['k', 'e', 'r', 'n', 'e', 'l'];

pub const KEY_KERNEL_OPTION: [char; 13] = [
    'k',
    'e',
    'r',
    'n',
    'e',
    'l',
    '_',
    'o',
    'p',
    't',
    'i',
    'o',
    'n',
];

pub const KEY_BOOT_TIMEOUT: [char; 12] = ['b', 'o', 'o', 't', '_', 't', 'i', 'm', 'e', 'o', 'u', 't'];

/// The boot loader's configuration: the kernel to load, its options, and
/// how many seconds to wait before booting.
#[derive(Debug)]
pub struct Conf {
    pub kernel: String,
    pub kernel_option: String,
    pub boot_timeout: u64,
}

/// What a configuration holds, as text and number.
pub struct ConfView {
    pub kernel: Seq<char>,
    pub kernel_option: Seq<char>,
    pub boot_timeout: u64,
}

impl View for Conf {
    type V = ConfView;

    open spec fn view(&self) -> ConfView {
        ConfView {
            kernel: self.kernel@,
            kernel_option: self.kernel_option@,
            boot_timeout: self.boot_timeout,
        }
    }
}

/// The index of the first `c` in `s`; the length of `s` when there is none.
pub open spec fn find(s: Seq<char>, c: char) -> int
    decreases s.len(),
{
    if s.len() == 0 {
        0
    } else if s[0] == c {
        0
    } else {
        1 + find(s.drop_first(), c)
    }
}

/// The text before the first `=` of a line: its key.
pub open spec fn field0(line: Seq<char>) -> Seq<char> {
    line.take(find(line, '='))
}

/// Whether a line holds an `=`.
pub open spec fn has_value(line: Seq<char>) -> bool {
    find(line, '=') < line.len()
}

/// The text between the first and the second `=` of a line (or its end):
/// its value.
pub open spec fn field1(line: Seq<char>) -> Seq<char> {
    let rest = line.skip(find(line, '=') + 1);
    rest.take(find(rest, '='))
}

/// The decimal value of a string of digits.
pub open spec fn digits_value(s: Seq<char>) -> int
    decreases s.len(),
{
    if s.len() == 0 {
        0
    } else {
        digits_value(s.drop_last()) * 10 + (s.last() as int - '0' as int)
    }
}

/// Whether every character of `s` is a decimal digit.
pub open spec fn all_digits(s: Seq<char>) -> bool {
    forall|i: int| 0 <= i < s.len() ==> '0' <= #[trigger] s[i] <= '9'
}

/// The number that a text reads as an unsigned 64-bit integer: an optional
/// `+`, then at least one decimal digit, and a value that fits.
pub open spec fn u64_text(s: Seq<char>) -> Option<u64> {
    let d = if s.len() > 0 && s[0] == '+' { s.drop_first() } else { s };
    if d.len() > 0 && all_digits(d) && digits_value(d) <= u64::MAX {
        Some(digits_value(d) as u64)
    } else {
        None
    }
}

/// The configuration after one line.
pub open spec fn apply_line(c: ConfView, line: Seq<char>) -> ConfView {
    let key = field0(line);
    if key == KEY_KERNEL@ {
        ConfView { kernel: field1(line), ..c }
    } else if key == KEY_KERNEL_OPTION@ {
        ConfView { kernel_option: field1(line), ..c }
    } else if key == KEY_BOOT_TIMEOUT@ {
        ConfView { boot_timeout: u64_text(field1(line))->0, ..c }
    } else {
        c
    }
}

/// Whether a line can be read: a known key has a value, and the boot
/// timeout is a number.
pub open spec fn line_ok(line: Seq<char>) -> bool {
    let key = field0(line);
    &&& (key == KEY_KERNEL@ || key == KEY_KERNEL_OPTION@ || key == KEY_BOOT_TIMEOUT@)
        ==> has_value(line)
    &&& key == KEY_BOOT_TIMEOUT@ ==> u64_text(field1(line)) is Some
}

/// The configuration after the lines of `s`, one after the other.
pub open spec fn apply_lines(c: ConfView, s: Seq<char>) -> ConfView
    decreases s.len(),
{
    let i = find(s, '\n');
    if i >= s.len() {
        apply_line(c, s)
    } else {
        proof {
            lemma_find_bounds(s, '\n');
        }
        apply_lines(apply_line(c, s.take(i)), s.skip(i + 1))
    }
}

/// Whether every line of `s` can be read.
pub open spec fn lines_ok(s: Seq<char>) -> bool
    decreases s.len(),
{
    let i = find(s, '\n');
    if i >= s.len() {
        line_ok(s)
    } else {
        proof {
            lemma_find_bounds(s, '\n');
        }
        line_ok(s.take(i)) && lines_ok(s.skip(i + 1))
    }
}

/// A text without its spaces.
pub open spec fn strip_spaces(s: Seq<char>) -> Seq<char> {
    s.filter(|c: char| c != ' ')
}

/// The empty configuration.
pub open spec fn empty_conf() -> ConfView {
    ConfView { kernel: Seq::empty(), kernel_option: Seq::empty(), boot_timeout: 0 }
}

/// The configuration that a configuration file holds.
pub open spec fn conf_of(text: Seq<char>) -> ConfView {
    apply_lines(empty_conf(), strip_spaces(text))
}

/// Whether a configuration file can be read.
pub open spec fn conf_text_ok(text: Seq<char>) -> bool {
    lines_ok(strip_spaces(text))
}

/// `find` gives the first position that holds `c`.
pub proof fn lemma_find(s: Seq<char>, c: char, m: int)
    requires
        0 <= m <= s.len(),
        m < s.len() ==> s[m] == c,
        forall|j: int| 0 <= j < m ==> s[j] != c,
    ensures
        find(s, c) == m,
    decreases s.len(),
{
    if s.len() > 0 && m > 0 {
        assert forall|j: int| 0 <= j < m - 1 implies s.drop_first()[j] != c by {
            assert(s[j + 1] != c);
        }
        lemma_find(s.drop_first(), c, m - 1);
    }
}

/// `find` gives a position within the text.
pub proof fn lemma_find_bounds(s: Seq<char>, c: char)
    ensures
        0 <= find(s, c) <= s.len(),
        find(s, c) < s.len() ==> s[find(s, c)] == c,
    decreases s.len(),
{
    if s.len() > 0 && s[0] != c {
        lemma_find_bounds(s.drop_first(), c);
    }
}

/// The first position from `from` on in `t[..end]` that holds `c`, or `end`.
fn scan(t: &Vec<char>, from: usize, end: usize, c: char) -> (k: usize)
    requires
        from <= end <= t@.len(),
    ensures
        from <= k <= end,
        k < end ==> t@[k as int] == c,
        forall|j: int| from <= j < k ==> t@[j] != c,
{
    let mut k = from;
    while k < end && t[k] != c
        invariant
            from <= k <= end <= t@.len(),
            forall|j: int| from <= j < k ==> t@[j] != c,
        decreases end - k,
    {
        k = k + 1;
    }
    k
}

/// Whether `t[a..b]` is `key`.
fn range_is(t: &Vec<char>, a: usize, b: usize, key: &[char]) -> (r: bool)
    requires
        a <= b <= t@.len(),
    ensures
        r == (t@.subrange(a as int, b as int) == key@),
{
    if b - a != key.len() {
        return false;
    }
    let mut i: usize = 0;
    while i < key.len()
        invariant
            a <= b <= t@.len(),
            b - a == key@.len(),
            0 <= i <= key@.len(),
            forall|j: int| 0 <= j < i ==> t@[a + j] == key@[j],
        decreases key@.len() - i,
    {
        if t[a + i] != key[i] {
            assert(t@.subrange(a as int, b as int)[i as int] != key@[i as int]);
            return false;
        }
        i = i + 1;
    }
    assert(t@.subrange(a as int, b as int) =~= key@);
    true
}

/// The string of `t[a..b]`.
fn range_string(t: &Vec<char>, a: usize, b: usize) -> (s: String)
    requires
        a <= b <= t@.len(),
    ensures
        s@ == t@.subrange(a as int, b as int),
{
    let mut s = String::new();
    let mut i = a;
    while i < b
        invariant
            a <= i <= b <= t@.len(),
            s@ == t@.subrange(a as int, i as int),
        decreases b - i,
    {
        string_push(&mut s, t[i]);
        assert(t@.subrange(a as int, i + 1) =~= t@.subrange(a as int, i as int).push(t@[i as int]));
        i = i + 1;
    }
    s
}

/// Reads `t[a..b]` as an unsigned 64-bit integer, as `str::parse` does: an
/// optional `+`, then at least one digit, and a value that fits.
pub fn parse_u64(t: &Vec<char>, a: usize, b: usize) -> (v: Option<u64>)
    requires
        a <= b <= t@.len(),
    ensures
        v == u64_text(t@.subrange(a as int, b as int)),
{
    let ghost s = t@.subrange(a as int, b as int);
    let mut i = a;
    if i < b && t[i] == '+' {
        i = i + 1;
    }
    let ghost d = t@.subrange(i as int, b as int);
    assert(d =~= (if s.len() > 0 && s[0] == '+' { s.drop_first() } else { s }));
    if i == b {
        return None;
    }
    let start = i;
    let mut value: u64 = 0;
    while i < b
        invariant
            a <= start <= i <= b <= t@.len(),
            d == t@.subrange(start as int, b as int),
            s == t@.subrange(a as int, b as int),
            d == (if s.len() > 0 && s[0] == '+' { s.drop_first() } else { s }),
            all_digits(t@.subrange(start as int, i as int)),
            value == digits_value(t@.subrange(start as int, i as int)),
        decreases b - i,
    {
        let c = t[i];
        if !('0' <= c && c <= '9') {
            assert(d[i - start] == c);
            assert(!all_digits(d));
            return None;
        }
        let digit = (c as u32 - '0' as u32) as u64;
        let ghost prefix = t@.subrange(start as int, i + 1);
        assert(prefix.drop_last() =~= t@.subrange(start as int, i as int));
        assert(prefix.last() == c);
        if value > (u64::MAX - digit) / 10 {
            proof {
                assert(digits_value(prefix) == value * 10 + digit);
                assert(digits_value(prefix) > u64::MAX);
                if all_digits(d) {
                    assert(prefix =~= d.take(i - start + 1));
                    lemma_digits_grow(d, (i - start + 1) as int);
                }
            }
            return None;
        }
        value = value * 10 + digit;
        i = i + 1;
    }
    assert(t@.subrange(start as int, b as int) == d);
    Some(value)
}

/// A string of digits is worth at least as much as its prefixes.
proof fn lemma_digits_grow(d: Seq<char>, n: int)
    requires
        0 <= n <= d.len(),
        all_digits(d),
    ensures
        digits_value(d.take(n)) <= digits_value(d),
        digits_value(d.take(n)) >= 0,
    decreases d.len(),
{
    if n == d.len() {
        assert(d.take(n) =~= d);
        lemma_digits_nonneg(d);
    } else {
        assert(all_digits(d.drop_last()));
        lemma_digits_grow(d.drop_last(), n);
        assert(d.drop_last().take(n) =~= d.take(n));
        lemma_digits_nonneg(d.drop_last());
    }
}

/// A string of digits is worth at least 0.
proof fn lemma_digits_nonneg(d: Seq<char>)
    requires
        all_digits(d),
    ensures
        digits_value(d) >= 0,
    decreases d.len(),
{
    if d.len() > 0 {
        assert(all_digits(d.drop_last()));
        lemma_digits_nonneg(d.drop_last());
    }
}

/// The positions of the key and the value of the line `t[pos..nl]`: the
/// first `=` (or `nl`), and the `=` after it (or `nl`).
fn split_line(t: &Vec<char>, pos: usize, nl: usize) -> (r: (usize, usize))
    requires
        pos <= nl <= t@.len(),
    ensures
        ({
            let line = t@.subrange(pos as int, nl as int);
            &&& pos <= r.0 <= nl
            &&& field0(line) == t@.subrange(pos as int, r.0 as int)
            &&& has_value(line) <==> r.0 < nl
            &&& r.0 < nl ==> r.0 + 1 <= r.1 <= nl && field1(line) == t@.subrange(r.0 + 1, r.1 as int)
        }),
{
    let ghost line = t@.subrange(pos as int, nl as int);
    let eq = scan(t, pos, nl, '=');
    proof {
        lemma_find(line, '=', (eq - pos) as int);
    }
    assert(field0(line) =~= t@.subrange(pos as int, eq as int));
    if eq >= nl {
        return (eq, eq);
    }
    let end = scan(t, eq + 1, nl, '=');
    proof {
        let vrest = line.skip(find(line, '=') + 1);
        assert(vrest =~= t@.subrange(eq + 1, nl as int));
        lemma_find(vrest, '=', (end - eq - 1) as int);
        assert(field1(line) =~= t@.subrange(eq + 1, end as int));
    }
    (eq, end)
}

/// Applies the line `t[pos..nl]` to a configuration.
fn apply_one_line(t: &Vec<char>, pos: usize, nl: usize, conf: &mut Conf)
    requires
        pos <= nl <= t@.len(),
        line_ok(t@.subrange(pos as int, nl as int)),
    ensures
        final(conf)@ == apply_line(old(conf)@, t@.subrange(pos as int, nl as int)),
{
    let (eq, end) = split_line(t, pos, nl);
    if range_is(t, pos, eq, &KEY_KERNEL) {
        conf.kernel = range_string(t, eq + 1, end);
    } else if range_is(t, pos, eq, &KEY_KERNEL_OPTION) {
        conf.kernel_option = range_string(t, eq + 1, end);
    } else if range_is(t, pos, eq, &KEY_BOOT_TIMEOUT) {
        conf.boot_timeout = parse_u64(t, eq + 1, end).unwrap();
    }
}

/// Whether the line `t[pos..nl]` can be read.
fn line_is_ok(t: &Vec<char>, pos: usize, nl: usize) -> (b: bool)
    requires
        pos <= nl <= t@.len(),
    ensures
        b == line_ok(t@.subrange(pos as int, nl as int)),
{
    let (eq, end) = split_line(t, pos, nl);
    let is_kernel = range_is(t, pos, eq, &KEY_KERNEL);
    let is_option = range_is(t, pos, eq, &KEY_KERNEL_OPTION);
    let is_timeout = range_is(t, pos, eq, &KEY_BOOT_TIMEOUT);
    if is_kernel || is_option || is_timeout {
        if eq >= nl {
            return false;
        }
        if is_timeout && parse_u64(t, eq + 1, end).is_none() {
            return false;
        }
    }
    true
}

/// The characters of a text without its spaces.
fn strip(text: &str) -> (t: Vec<char>)
    ensures
        t@ == strip_spaces(text@),
{
    let ghost full = text@;
    let mut t: Vec<char> = Vec::new();
    let ghost mut n: int = 0;
    proof {
        broadcast use vstd::string::axiom_spec_iter;
        assert(full.take(0).filter(|c: char| c != ' ') =~= Seq::<char>::empty());
    }
    for c in it: text.chars()
        invariant
            full == text@,
            it.seq() == full,
            n == it.index(),
            0 <= n <= full.len(),
            t@ == full.take(n).filter(|c: char| c != ' '),
    {
        assert(c == full[n]);
        assert(full.take(n + 1).drop_last() =~= full.take(n));
        proof {
            full.take(n).lemma_filter_push(c, |c: char| c != ' ');
            assert(full.take(n + 1) =~= full.take(n).push(c));
        }
        if c != ' ' {
            t.push(c);
        }
        proof {
            n = n + 1;
        }
    }
    assert(full.take(n) =~= full);
    t
}

impl Conf {
    /// Reads a configuration file: spaces are dropped, and each line
    /// `key=value` sets `kernel`, `kernel_option` or `boot_timeout`; later
    /// lines win, other lines are ignored, and unset values stay empty or 0.
    pub fn parse(text: &str) -> (c: Conf)
        requires
            conf_text_ok(text@),
        ensures
            c@ == conf_of(text@),
    {
        let ghost full = text@;
        let t = strip(text);
        let mut conf = Conf { kernel: String::new(), kernel_option: String::new(), boot_timeout: 0 };
        let len = t.len();
        let mut pos: usize = 0;
        assert(t@.skip(0) =~= t@);
        loop
            invariant
                t@ == strip_spaces(full),
                len == t@.len(),
                0 <= pos <= len,
                lines_ok(t@.skip(pos as int)),
                apply_lines(conf@, t@.skip(pos as int)) == conf_of(full),
            ensures
                conf@ == conf_of(full),
            decreases len - pos,
        {
            let ghost rest = t@.skip(pos as int);
            let nl = scan(&t, pos, len, '\n');
            proof {
                lemma_find(rest, '\n', (nl - pos) as int);
                assert(rest.take(nl - pos) =~= t@.subrange(pos as int, nl as int));
            }
            apply_one_line(&t, pos, nl, &mut conf);
            if nl >= len {
                assert(rest =~= t@.subrange(pos as int, nl as int));
                break;
            }
            assert(rest.skip(nl - pos + 1) =~= t@.skip(nl + 1));
            pos = nl + 1;
        }
        conf
    }

    /// Whether a configuration file can be read: every line with a known
    /// key has a value, and the boot timeout is a number.
    pub fn text_ok(text: &str) -> (b: bool)
        ensures
            b == conf_text_ok(text@),
    {
        let t = strip(text);
        let len = t.len();
        let mut pos: usize = 0;
        assert(t@.skip(0) =~= t@);
        loop
            invariant
                t@ == strip_spaces(text@),
                len == t@.len(),
                0 <= pos <= len,
                lines_ok(t@.skip(pos as int)) == conf_text_ok(text@),
            decreases len - pos,
        {
            let ghost rest = t@.skip(pos as int);
            let nl = scan(&t, pos, len, '\n');
            proof {
                lemma_find(rest, '\n', (nl - pos) as int);
                assert(rest.take(nl - pos) =~= t@.subrange(pos as int, nl as int));
            }
            if !line_is_ok(&t, pos, nl) {
                return false;
            }
            if nl >= len {
                assert(rest =~= t@.subrange(pos as int, nl as int));
                return true;
            }
            assert(rest.skip(nl - pos + 1) =~= t@.skip(nl + 1));
            pos = nl + 1;
        }
    }
}

} // verus!
