use vstd::prelude::*;
use vstd::string::StrSliceExecFns;

verus! {

/// The displayed width of a character in terminal columns, as the Unicode tables give
/// it; `None` for a control character.
pub uninterp spec fn display_width(ch: char) -> Option<usize>;

/// Relies on unicode_width's `UnicodeWidthChar::width`: the column width of a character
/// from the Unicode East Asian Width tables; printable ASCII is one column, and the C0
/// control characters have no width.
#[verifier::external_body]
fn char_width(ch: char) -> (r: Option<usize>)
    ensures
        r == display_width(ch),
        0x20 <= (ch as u32) < 0x7f ==> r == Some(1usize),
        (ch as u32) < 0x20 ==> r is None,
{
    unicode_width::UnicodeWidthChar::width(ch)
}

/// A Hangul compatibility jamo: one consonant (U+3131 to U+314E) or one vowel (U+314F to
/// U+3163), the pieces of a syllable while it is being composed.
pub open spec fn is_jamo(ch: char) -> bool {
    0x3131 <= (ch as u32) <= 0x3163
}

/// The width the terminal gives a character: a lone jamo is drawn in one cell, though the
/// tables list it as wide; a character of unknown width counts as one cell.
pub open spec fn is_double_width(ch: char) -> bool {
    !is_jamo(ch) && match display_width(ch) {
        Some(w) => w == 2,
        None => false,
    }
}

/// Whether the character takes two terminal cells (CJK ideographs, kana, Hangul
/// syllables, emoji). A lone Hangul jamo does not.
pub fn is_double_width_char(ch: char) -> (r: bool)
    ensures
        r == is_double_width(ch),
        0x20 <= (ch as u32) < 0x7f ==> !r,
{
    if is_korean_jamo(ch) {
        return false;
    }
    match char_width(ch) {
        Some(w) => w == 2,
        None => false,
    }
}

/// Whether some character of the text takes two terminal cells.
pub fn contains_double_width_chars(text: &str) -> (r: bool)
    ensures
        r == exists|i: int| 0 <= i < text@.len() && is_double_width(#[trigger] text@[i]),
{
    let n = text.unicode_len();
    let mut i: usize = 0;
    while i < n
        invariant
            n == text@.len(),
            i <= n,
            forall|j: int| 0 <= j < i ==> !is_double_width(#[trigger] text@[j]),
        decreases n - i,
    {
        if is_double_width_char(text.get_char(i)) {
            return true;
        }
        i = i + 1;
    }
    false
}

/// Whether the character is a Hangul compatibility jamo (a consonant or a vowel).
pub fn is_korean_jamo(ch: char) -> (r: bool)
    ensures
        r == is_jamo(ch),
{
    let c = ch as u32;
    0x3131 <= c && c <= 0x3163
}

/// Whether the character is a finished wide character, not a piece of a syllable being
/// composed.
pub fn is_completed_cjk_char(ch: char) -> (r: bool)
    ensures
        r == (is_double_width(ch) && !is_jamo(ch)),
{
    is_double_width_char(ch) && !is_korean_jamo(ch)
}

/// Whether the cursor is drawn two cells wide: always while a syllable is being composed,
/// else when the character under the cursor is wide.
pub fn should_show_double_cursor(composing_char: Option<char>, text_at_cursor: Option<char>) -> (r:
    bool)
    ensures
        composing_char is Some ==> r,
        composing_char is None ==> r == match text_at_cursor {
            Some(ch) => is_double_width(ch),
            None => false,
        },
{
    if composing_char.is_some() {
        return true;
    }
    match text_at_cursor {
        Some(ch) => is_double_width_char(ch),
        None => false,
    }
}

} // verus!
