//! Text as a sequence of characters: the small set of operations that the
//! configuration language is read with, each with its meaning as a function
//! on sequences.

use crate::outside::push_char;
use vstd::prelude::*;
use vstd::slice::slice_subrange;

verus! {

/// The characters of `text`, in their order.
pub fn to_chars(text: &str) -> (chars: Vec<char>)
    ensures
        chars@ == text@,
{
    let mut chars: Vec<char> = Vec::new();
    for c in it: text.chars()
        invariant
            it.seq() == text@,
            chars@ == it.seq().take(it.index() as int),
    {
        chars.push(c);
        assert(it.seq().take(it.index() + 1) =~= it.seq().take(it.index() as int).push(c));
    }
    proof {
        assert(text@.take(text@.len() as int) =~= text@);
    }
    chars
}

/// The string that holds the characters of `chars`.
pub fn to_text(chars: &[char]) -> (text: String)
    ensures
        text@ == chars@,
{
    let mut text = String::new();
    let mut i: usize = 0;
    while i < chars.len()
        invariant
            i <= chars.len(),
            text@ == chars@.take(i as int),
        decreases chars.len() - i,
    {
        push_char(&mut text, chars[i]);
        assert(chars@.take(i + 1) =~= chars@.take(i as int).push(chars[i as int]));
        i += 1;
    }
    proof {
        assert(chars@.take(chars.len() as int) =~= chars@);
    }
    text
}

/// White space as Unicode defines it (the property `White_Space`).
pub open spec fn is_whitespace(c: char) -> bool {
    let code = c as u32;
    ||| 0x09 <= code <= 0x0D
    ||| code == 0x20
    ||| code == 0x85
    ||| code == 0xA0
    ||| code == 0x1680
    ||| 0x2000 <= code <= 0x200A
    ||| code == 0x2028
    ||| code == 0x2029
    ||| code == 0x202F
    ||| code == 0x205F
    ||| code == 0x3000
}

/// Tells whether `c` is white space.
pub fn is_blank(c: char) -> (blank: bool)
    ensures
        blank == is_whitespace(c),
{
    let code: u32 = c as u32;
    (0x09 <= code && code <= 0x0D) || code == 0x20 || code == 0x85 || code == 0xA0 || code
        == 0x1680 || (0x2000 <= code && code <= 0x200A) || code == 0x2028 || code == 0x2029 || code
        == 0x202F || code == 0x205F || code == 0x3000
}

/// `text` without the white space it begins with.
pub open spec fn trim_start(text: Seq<char>) -> Seq<char>
    decreases text.len(),
{
    if text.len() > 0 && is_whitespace(text[0]) {
        trim_start(text.drop_first())
    } else {
        text
    }
}

/// `text` without the white space it ends with.
pub open spec fn trim_end(text: Seq<char>) -> Seq<char>
    decreases text.len(),
{
    if text.len() > 0 && is_whitespace(text.last()) {
        trim_end(text.drop_last())
    } else {
        text
    }
}

/// `text` without the white space at either end.
pub open spec fn trimmed(text: Seq<char>) -> Seq<char> {
    trim_end(trim_start(text))
}

/// All of `text` is white space; the empty text is blank too.
pub open spec fn is_blank_text(text: Seq<char>) -> bool {
    forall|i: int| 0 <= i < text.len() ==> is_whitespace(#[trigger] text[i])
}

/// Cuts the leading white space off.
pub fn cut_start(text: &[char]) -> (rest: &[char])
    ensures
        rest@ == trim_start(text@),
{
    let mut i: usize = 0;
    proof {
        assert(text@.skip(0) =~= text@);
    }
    while i < text.len() && is_blank(text[i])
        invariant
            i <= text.len(),
            trim_start(text@) == trim_start(text@.skip(i as int)),
        decreases text.len() - i,
    {
        proof {
            assert(text@.skip(i as int).drop_first() =~= text@.skip(i + 1));
        }
        i += 1;
    }
    proof {
        assert(text@.subrange(i as int, text.len() as int) =~= text@.skip(i as int));
    }
    slice_subrange(text, i, text.len())
}

/// Cuts the trailing white space off.
pub fn cut_end(text: &[char]) -> (rest: &[char])
    ensures
        rest@ == trim_end(text@),
{
    let mut n: usize = text.len();
    proof {
        assert(text@.take(n as int) =~= text@);
    }
    while n > 0 && is_blank(text[n - 1])
        invariant
            n <= text.len(),
            trim_end(text@) == trim_end(text@.take(n as int)),
        decreases n,
    {
        proof {
            assert(text@.take(n as int).drop_last() =~= text@.take(n - 1));
        }
        n -= 1;
    }
    proof {
        assert(text@.subrange(0, n as int) =~= text@.take(n as int));
    }
    slice_subrange(text, 0, n)
}

/// Cuts the white space off at both ends.
pub fn trim(text: &[char]) -> (rest: &[char])
    ensures
        rest@ == trimmed(text@),
{
    cut_end(cut_start(text))
}

/// What is left after trimming neither begins nor ends with white space.
pub proof fn lemma_trimmed_is_tight(text: Seq<char>)
    ensures
        trimmed(text).len() > 0 ==> !is_whitespace(trimmed(text)[0]) && !is_whitespace(
            trimmed(text).last(),
        ),
        trimmed(text).len() <= text.len(),
{
    lemma_trim_start_shape(text);
    lemma_trim_end_shape(trim_start(text));
}

/// `trim_start` leaves an end of the text, which does not begin with white
/// space, and takes away white space only.
pub proof fn lemma_trim_start_shape(text: Seq<char>)
    ensures
        trim_start(text).len() <= text.len(),
        trim_start(text) == text.skip(text.len() - trim_start(text).len()),
        trim_start(text).len() > 0 ==> !is_whitespace(trim_start(text)[0]),
        is_blank_text(text.take(text.len() - trim_start(text).len())),
    decreases text.len(),
{
    if text.len() > 0 && is_whitespace(text[0]) {
        let rest = text.drop_first();
        lemma_trim_start_shape(rest);
        let cut = text.len() - trim_start(text).len();
        assert(rest.skip(rest.len() - trim_start(rest).len()) =~= text.skip(cut));
        assert forall|i: int| 0 <= i < cut implies is_whitespace(#[trigger] text.take(cut)[i]) by {
            if i > 0 {
                assert(text.take(cut)[i] == rest.take(cut - 1)[i - 1]);
            }
        }
    } else {
        assert(text.skip(0) =~= text);
    }
}

/// `trim_end` leaves a beginning of the text, which does not end with white
/// space; where the text does not begin with white space, neither does what
/// is left.
pub proof fn lemma_trim_end_shape(text: Seq<char>)
    ensures
        trim_end(text).len() <= text.len(),
        trim_end(text) == text.take(trim_end(text).len() as int),
        trim_end(text).len() > 0 ==> !is_whitespace(trim_end(text).last()),
        is_blank_text(text.skip(trim_end(text).len() as int)),
    decreases text.len(),
{
    if text.len() > 0 && is_whitespace(text.last()) {
        let rest = text.drop_last();
        lemma_trim_end_shape(rest);
        let kept = trim_end(text).len() as int;
        assert(rest.take(kept) =~= text.take(kept));
        assert forall|i: int| 0 <= i < text.len() - kept implies is_whitespace(
            #[trigger] text.skip(kept)[i],
        ) by {
            if i < text.len() - kept - 1 {
                assert(text.skip(kept)[i] == rest.skip(kept)[i]);
            }
        }
    } else {
        assert(text.take(text.len() as int) =~= text);
    }
}

/// Where `c` first stands in `text`, or the length of `text` where it does
/// not occur.
pub open spec fn offset_of(text: Seq<char>, c: char) -> int
    decreases text.len(),
{
    if text.len() == 0 || text[0] == c {
        0
    } else {
        1 + offset_of(text.drop_first(), c)
    }
}

/// `c` occurs in `text`.
pub open spec fn has_char(text: Seq<char>, c: char) -> bool {
    offset_of(text, c) < text.len()
}

/// `offset_of` is the place of the first occurrence.
pub proof fn lemma_offset_of(text: Seq<char>, c: char)
    ensures
        0 <= offset_of(text, c) <= text.len(),
        forall|i: int| 0 <= i < offset_of(text, c) ==> text[i] != c,
        offset_of(text, c) < text.len() ==> text[offset_of(text, c)] == c,
    decreases text.len(),
{
    if text.len() == 0 || text[0] == c {
    } else {
        let rest = text.drop_first();
        lemma_offset_of(rest, c);
        assert forall|i: int| 0 <= i < offset_of(text, c) implies text[i] != c by {
            if i > 0 {
                assert(text[i] == rest[i - 1]);
            }
        }
    }
}

/// Where the two characters `first`, `second` first stand side by side in
/// `text`, or the length of `text` where they never do.
pub open spec fn offset_of_pair(text: Seq<char>, first: char, second: char) -> int
    decreases text.len(),
{
    if text.len() < 2 {
        text.len() as int
    } else if text[0] == first && text[1] == second {
        0
    } else {
        1 + offset_of_pair(text.drop_first(), first, second)
    }
}

/// The pair occurs in `text`.
pub open spec fn has_pair(text: Seq<char>, first: char, second: char) -> bool {
    offset_of_pair(text, first, second) < text.len()
}

/// `offset_of_pair` is the place of the first occurrence.
pub proof fn lemma_offset_of_pair(text: Seq<char>, first: char, second: char)
    ensures
        0 <= offset_of_pair(text, first, second) <= text.len(),
        forall|i: int|
            0 <= i < offset_of_pair(text, first, second) && i + 1 < text.len() ==> !(text[i]
                == first && #[trigger] text[i + 1] == second),
        has_pair(text, first, second) ==> offset_of_pair(text, first, second) + 2 <= text.len()
            && text[offset_of_pair(text, first, second)] == first && text[offset_of_pair(
            text,
            first,
            second,
        ) + 1] == second,
    decreases text.len(),
{
    if text.len() < 2 {
    } else if text[0] == first && text[1] == second {
    } else {
        let rest = text.drop_first();
        lemma_offset_of_pair(rest, first, second);
        assert forall|i: int|
            0 <= i < offset_of_pair(text, first, second) && i + 1 < text.len() implies !(text[i]
            == first && #[trigger] text[i + 1] == second) by {
            if i > 0 {
                assert(text[i] == rest[i - 1]);
                assert(text[i + 1] == rest[i - 1 + 1]);
            }
        }
    }
}

/// Finds the first `c` in `text`; the length of `text` stands for none.
pub fn find_char(text: &[char], c: char) -> (at: usize)
    ensures
        at == offset_of(text@, c),
        at <= text@.len(),
{
    let mut i: usize = 0;
    proof {
        assert(text@.skip(0) =~= text@);
    }
    while i < text.len() && text[i] != c
        invariant
            i <= text.len(),
            offset_of(text@, c) == i + offset_of(text@.skip(i as int), c),
        decreases text.len() - i,
    {
        proof {
            assert(text@.skip(i as int).drop_first() =~= text@.skip(i + 1));
        }
        i += 1;
    }
    i
}

/// Finds the first place where `first` and `second` stand side by side; the
/// length of `text` stands for none.
pub fn find_pair(text: &[char], first: char, second: char) -> (at: usize)
    ensures
        at == offset_of_pair(text@, first, second),
        at <= text@.len(),
{
    let mut i: usize = 0;
    proof {
        assert(text@.skip(0) =~= text@);
    }
    while text.len() - i >= 2 && !(text[i] == first && text[i + 1] == second)
        invariant
            i <= text.len(),
            offset_of_pair(text@, first, second) == i + offset_of_pair(
                text@.skip(i as int),
                first,
                second,
            ),
        decreases text.len() - i,
    {
        proof {
            assert(text@.skip(i as int).drop_first() =~= text@.skip(i + 1));
        }
        i += 1;
    }
    if text.len() - i >= 2 {
        i
    } else {
        text.len()
    }
}

/// Tells whether `text` begins with `prefix`.
pub fn starts_with(text: &[char], prefix: &str) -> (yes: bool)
    ensures
        yes == prefix@.is_prefix_of(text@),
{
    let mut i: usize = 0;
    for c in it: prefix.chars()
        invariant
            it.seq() == prefix@,
            i == it.index(),
            i <= text.len(),
            text@.take(i as int) == it.seq().take(i as int),
    {
        if i >= text.len() || text[i] != c {
            proof {
                if prefix@.len() <= text@.len() {
                    assert(text@.subrange(0, prefix@.len() as int)[i as int] == text@[i as int]);
                }
            }
            return false;
        }
        proof {
            assert(text@.take(i + 1) =~= text@.take(i as int).push(c));
            assert(it.seq().take(i + 1) =~= it.seq().take(i as int).push(c));
        }
        i += 1;
    }
    proof {
        assert(prefix@.take(prefix@.len() as int) =~= prefix@);
        assert(text@.take(i as int) =~= text@.subrange(0, prefix@.len() as int));
    }
    true
}

/// Tells whether `text` and `word` hold the same characters.
pub fn same_text(text: &[char], word: &str) -> (yes: bool)
    ensures
        yes == (text@ == word@),
{
    let mut i: usize = 0;
    for c in it: word.chars()
        invariant
            it.seq() == word@,
            i == it.index(),
            i <= text.len(),
            text@.take(i as int) == it.seq().take(i as int),
    {
        if i >= text.len() || text[i] != c {
            proof {
                if i < text.len() {
                    assert(text@[i as int] != word@[i as int]);
                }
            }
            return false;
        }
        proof {
            assert(text@.take(i + 1) =~= text@.take(i as int).push(c));
            assert(it.seq().take(i + 1) =~= it.seq().take(i as int).push(c));
        }
        i += 1;
    }
    proof {
        assert(word@.take(word@.len() as int) =~= word@);
        if i == text.len() {
            assert(text@.take(i as int) =~= text@);
        }
    }
    i == text.len()
}

/// The part of `text` before position `at`.
pub fn before(text: &[char], at: usize) -> (part: &[char])
    requires
        at <= text@.len(),
    ensures
        part@ == text@.take(at as int),
{
    proof {
        assert(text@.subrange(0, at as int) =~= text@.take(at as int));
    }
    slice_subrange(text, 0, at)
}

/// The part of `text` from position `at` on; nothing where `at` is past the
/// end.
pub fn after(text: &[char], at: usize) -> (part: &[char])
    ensures
        at <= text@.len() ==> part@ == text@.skip(at as int),
        at >= text@.len() ==> part@ == Seq::<char>::empty(),
{
    if at >= text.len() {
        proof {
            assert(text@.subrange(text.len() as int, text.len() as int) =~= Seq::<char>::empty());
            assert(text@.skip(text.len() as int) =~= Seq::<char>::empty());
        }
        slice_subrange(text, text.len(), text.len())
    } else {
        proof {
            assert(text@.subrange(at as int, text.len() as int) =~= text@.skip(at as int));
        }
        slice_subrange(text, at, text.len())
    }
}

} // verus!
