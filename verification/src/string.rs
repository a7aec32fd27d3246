use vstd::prelude::*;
use vstd::utf8::{valid_utf8, decode_utf8};

verus! {

/// Appends `c` to `s`.
///
/// Trusted: calls `String::push`, which std documents as appending the
/// character to the end of the string.
#[verifier::external_body]
pub(crate) fn string_push(s: &mut String, c: char)
    ensures
        final(s)@ == old(s)@.push(c),
{
    s.push(c);
}

/// Whether `v` is the code point of a character: not a surrogate and at
/// most 0x10FFFF.
pub open spec fn is_scalar(v: u32) -> bool {
    v <= 0xD7FF || (0xE000 <= v && v <= 0x10FFFF)
}

/// The character of code point `v`, if there is one.
///
/// Trusted: calls `char::from_u32`, which std documents as returning `None`
/// exactly when `v` is not the code point of a character (a surrogate or a
/// value above 0x10FFFF), and the character otherwise.
#[verifier::external_body]
pub(crate) fn char_from_u32(v: u32) -> (c: Option<char>)
    ensures
        c is Some <==> is_scalar(v),
        c matches Some(ch) ==> ch as u32 == v,
{
    char::from_u32(v)
}

/// The text that bytes encode in UTF-8, if they are valid UTF-8.
///
/// Trusted: calls `String::from_utf8`, which std documents as failing
/// exactly when the bytes are not valid UTF-8 and otherwise returning the
/// string that they encode; the error is dropped.
#[verifier::external_body]
pub(crate) fn string_from_utf8(bytes: Vec<u8>) -> (s: Option<String>)
    ensures
        s is Some <==> valid_utf8(bytes@),
        s matches Some(s) ==> s@ == decode_utf8(bytes@),
{
    String::from_utf8(bytes).ok()
}

/// The UTF-16 units that `wstr` makes of a text: each character cut to its
/// low 16 bits, then a terminating 0.
pub open spec fn wide(s: Seq<char>) -> Seq<u16> {
    s.map_values(|c: char| ((c as u32) % 0x1_0000) as u16).push(0)
}

/// Converts a text to a NUL-terminated string of 16-bit units, one per
/// character.
pub fn wstr(string: &str) -> (w: Vec<u16>)
    ensures
        w@ == wide(string@),
{
    let mut wstring: Vec<u16> = Vec::new();
    let ghost text = string@;
    let ghost mut n: int = 0;
    proof {
        broadcast use vstd::string::axiom_spec_iter;
    }
    for c in it: string.chars()
        invariant
            text == string@,
            it.seq() == text,
            n == it.index(),
            n <= text.len(),
            wstring@ == text.take(n).map_values(|c: char| ((c as u32) % 0x1_0000) as u16),
    {
        assert(c == text[n]);
        let v = c as u32;
        let unit = #[verifier::truncate] (v as u16);
        assert((v as u16) == (v % 0x1_0000) as u16) by (bit_vector);
        wstring.push(unit);
        assert(text.take(n + 1) =~= text.take(n).push(c));
        proof {
            n = n + 1;
        }
    }
    assert(text.take(n) =~= text);
    wstring.push(0);
    wstring
}

/// The index of the first 0 in `w`, from `i` on; the length when there is
/// none.
pub open spec fn first_zero_from(w: Seq<u16>, i: int) -> int
    decreases w.len() - i,
{
    if i < 0 || i >= w.len() {
        w.len() as int
    } else if w[i] == 0 {
        i
    } else {
        first_zero_from(w, i + 1)
    }
}

/// The first 0 from `i` on is at or after `i`, and no 0 comes before it.
pub proof fn lemma_first_zero(w: Seq<u16>, i: int)
    requires
        0 <= i <= w.len(),
    ensures
        i <= first_zero_from(w, i) <= w.len(),
        first_zero_from(w, i) < w.len() ==> w[first_zero_from(w, i)] == 0,
        forall|j: int| i <= j < first_zero_from(w, i) ==> w[j] != 0,
    decreases w.len() - i,
{
    if i < w.len() && w[i] != 0 {
        lemma_first_zero(w, i + 1);
    }
}

/// The units before the first 0.
pub open spec fn before_nul(w: Seq<u16>) -> Seq<u16> {
    w.take(first_zero_from(w, 0))
}

/// Reads a NUL-terminated string of 16-bit units, each the code point of
/// one character; the units must hold a 0, and no surrogate before it.
pub fn nstr(wstring: &[u16]) -> (s: String)
    requires
        first_zero_from(wstring@, 0) < wstring@.len(),
        forall|i: int| 0 <= i < first_zero_from(wstring@, 0) ==> is_scalar(#[trigger] wstring@[i] as u32),
    ensures
        s@ == before_nul(wstring@).map_values(|w: u16| (w as u32) as char),
{
    let mut string = String::new();
    let mut i: usize = 0;
    let ghost end = first_zero_from(wstring@, 0);
    proof {
        lemma_first_zero(wstring@, 0);
    }
    loop
        invariant
            end == first_zero_from(wstring@, 0),
            end < wstring@.len(),
            forall|j: int| 0 <= j < end ==> is_scalar(#[trigger] wstring@[j] as u32),
            0 <= i <= end,
            first_zero_from(wstring@, i as int) == end,
            string@ == wstring@.take(i as int).map_values(|w: u16| (w as u32) as char),
        ensures
            string@ == wstring@.take(end).map_values(|w: u16| (w as u32) as char),
        decreases end - i,
    {
        proof {
            lemma_first_zero(wstring@, i as int);
        }
        let w = wstring[i];
        if w == 0 {
            break;
        }
        let c = char_from_u32(w as u32).unwrap();
        proof {
            vstd::utf8::char_u32_cast(c, w as u32);
        }
        string_push(&mut string, c);
        assert(wstring@.take(i + 1) =~= wstring@.take(i as int).push(w));
        i = i + 1;
    }
    string
}

/// Every unit from `i` up to the length of `s` is not 0 and the unit at the
/// length is, so the first 0 from `i` on is at the length.
proof fn lemma_wide_first_zero(s: Seq<char>, i: int)
    requires
        0 <= i <= s.len(),
        forall|j: int| 0 <= j < s.len() ==> (#[trigger] s[j]) as u32 != 0 && (s[j] as u32) < 0x1_0000,
    ensures
        first_zero_from(wide(s), i) == s.len(),
    decreases s.len() - i,
{
    if i < s.len() {
        assert(wide(s)[i] == ((s[i] as u32) % 0x1_0000) as u16);
        lemma_wide_first_zero(s, i + 1);
    }
}

/// `nstr` reads back the text that `wstr` wrote, for a text whose
/// characters each fit in one 16-bit unit and hold no NUL.
pub proof fn lemma_wstr_nstr_round_trip(s: Seq<char>)
    requires
        forall|j: int| 0 <= j < s.len() ==> (#[trigger] s[j]) as u32 != 0 && (s[j] as u32) < 0x1_0000,
    ensures
        first_zero_from(wide(s), 0) == s.len() < wide(s).len(),
        forall|i: int| 0 <= i < s.len() ==> is_scalar(#[trigger] wide(s)[i] as u32),
        before_nul(wide(s)).map_values(|w: u16| (w as u32) as char) == s,
{
    lemma_wide_first_zero(s, 0);
    assert forall|i: int| 0 <= i < s.len() implies wide(s)[i] as u32 == s[i] as u32 by {
        assert(wide(s)[i] == ((s[i] as u32) % 0x1_0000) as u16);
    }
    assert forall|i: int| 0 <= i < s.len() implies is_scalar(#[trigger] wide(s)[i] as u32) by {
        vstd::utf8::char_is_scalar(s[i]);
    }
    assert forall|i: int| 0 <= i < s.len() implies before_nul(wide(s)).map_values(
        |w: u16| (w as u32) as char,
    )[i] == s[i] by {
        vstd::utf8::char_u32_cast(s[i], wide(s)[i] as u32);
    }
    assert(before_nul(wide(s)).map_values(|w: u16| (w as u32) as char) =~= s);
}

/// Makes a string of bytes that must be valid UTF-8.
pub fn utf8_to_string(vector: Vec<u8>) -> (s: String)
    requires
        valid_utf8(vector@),
    ensures
        s@ == decode_utf8(vector@),
{
    string_from_utf8(vector).unwrap()
}

} // verus!
