//! What Unicode says of characters: the classes that fit in a line, and the
//! tables that come from outside.

use crate::text::{self, chars_of, text_between, text_from};
use unicode_normalization::UnicodeNormalization;
use vstd::prelude::*;

verus! {

/// Whether a character is a control character (general category `Cc`).
pub open spec fn control(c: char) -> bool {
    (c as u32) < 0x20 || 0x7f <= (c as u32) <= 0x9f
}

pub fn is_control(c: char) -> (yes: bool)
    ensures
        yes == control(c),
{
    let code: u32 = c as u32;
    code < 0x20 || (0x7f <= code && code <= 0x9f)
}

/// Whether a character has the Unicode property `White_Space`.
pub open spec fn blank(c: char) -> bool {
    let code = c as u32;
    ||| 0x09 <= code <= 0x0d
    ||| code == 0x20
    ||| code == 0x85
    ||| code == 0xa0
    ||| code == 0x1680
    ||| 0x2000 <= code <= 0x200a
    ||| code == 0x2028
    ||| code == 0x2029
    ||| code == 0x202f
    ||| code == 0x205f
    ||| code == 0x3000
}

pub fn is_blank(c: char) -> (yes: bool)
    ensures
        yes == blank(c),
{
    let code: u32 = c as u32;
    (0x09 <= code && code <= 0x0d) || code == 0x20 || code == 0x85 || code == 0xa0 || code
        == 0x1680 || (0x2000 <= code && code <= 0x200a) || code == 0x2028 || code == 0x2029 || code
        == 0x202f || code == 0x205f || code == 0x3000
}

/// Whether a character is an ASCII letter or digit.
pub open spec fn ascii_alphanumeric(c: char) -> bool {
    'a' <= c <= 'z' || 'A' <= c <= 'Z' || '0' <= c <= '9'
}

pub fn is_ascii_alphanumeric(c: char) -> (yes: bool)
    ensures
        yes == ascii_alphanumeric(c),
{
    ('a' <= c && c <= 'z') || ('A' <= c && c <= 'Z') || ('0' <= c && c <= '9')
}

/// A character with an ASCII small letter made a capital.
pub open spec fn ascii_upper(c: char) -> char {
    if 'a' <= c <= 'z' {
        (c as u32 - 32) as char
    } else {
        c
    }
}

/// A text with its ASCII small letters made capitals.
pub open spec fn ascii_uppercase(text: Seq<char>) -> Seq<char> {
    Seq::new(text.len(), |i: int| ascii_upper(text[i]))
}

pub fn to_ascii_uppercase(text: &str) -> (upper: String)
    ensures
        upper@ == ascii_uppercase(text@),
{
    let chars = chars_of(text);
    let mut upper: Vec<char> = Vec::new();
    let mut i: usize = 0;
    while i < chars.len()
        invariant
            i <= chars@.len(),
            chars@ == text@,
            upper@ == ascii_uppercase(text@).take(i as int),
        decreases chars.len() - i,
    {
        let c: char = chars[i];
        if 'a' <= c && c <= 'z' {
            upper.push((c as u8 - 32u8) as char);
        } else {
            upper.push(c);
        }
        proof {
            assert(ascii_uppercase(text@).take(i + 1) =~= ascii_uppercase(text@).take(i as int).push(
                ascii_upper(text@[i as int]),
            ));
        }
        i = i + 1;
    }
    proof {
        assert(ascii_uppercase(text@).take(i as int) =~= ascii_uppercase(text@));
    }
    text_from(&upper)
}

/// How many blank characters a text begins with.
pub open spec fn leading_blanks(text: Seq<char>) -> int
    decreases text.len(),
{
    if text.len() > 0 && blank(text[0]) {
        1 + leading_blanks(text.drop_first())
    } else {
        0
    }
}

/// A text without the blank characters at its end.
pub open spec fn without_trailing_blanks(text: Seq<char>) -> Seq<char>
    decreases text.len(),
{
    if text.len() > 0 && blank(text.last()) {
        without_trailing_blanks(text.drop_last())
    } else {
        text
    }
}

/// A text without the blank characters around it.
pub open spec fn trimmed(text: Seq<char>) -> Seq<char> {
    without_trailing_blanks(text.skip(leading_blanks(text)))
}

pub fn trim(text: &str) -> (inner: String)
    ensures
        inner@ == trimmed(text@),
{
    let chars = chars_of(text);
    let mut from: usize = 0;
    proof {
        assert(text@.skip(0) =~= text@);
    }
    while from < chars.len() && is_blank(chars[from])
        invariant
            from <= chars@.len(),
            chars@ == text@,
            leading_blanks(text@) == from + leading_blanks(text@.skip(from as int)),
        decreases chars.len() - from,
    {
        proof {
            assert(text@.skip(from as int).drop_first() =~= text@.skip(from + 1));
        }
        from = from + 1;
    }
    let mut to: usize = chars.len();
    let ghost rest = text@.skip(from as int);
    proof {
        assert(rest.take(to - from) =~= rest);
    }
    while to > from && is_blank(chars[to - 1])
        invariant
            from <= to <= chars@.len(),
            chars@ == text@,
            rest == text@.skip(from as int),
            without_trailing_blanks(rest) == without_trailing_blanks(rest.take(to - from)),
        decreases to,
    {
        proof {
            assert(rest.take(to - from).drop_last() =~= rest.take(to - from - 1));
        }
        to = to - 1;
    }
    let inner = text_between(&chars, from, to);
    proof {
        assert(inner@ =~= rest.take(to - from));
    }
    inner
}

/// The words of a text: what stands between blank characters.
pub open spec fn words(text: Seq<char>) -> Seq<Seq<char>>
    decreases text.len(),
{
    if text.len() == 0 {
        Seq::empty()
    } else {
        let before = words(text.drop_last());
        if blank(text.last()) {
            before
        } else if text.len() == 1 || blank(text[text.len() - 2]) {
            before.push(seq![text.last()])
        } else {
            before.drop_last().push(before.last().push(text.last()))
        }
    }
}

pub fn split_words(text: &str) -> (list: Vec<String>)
    ensures
        text::texts(list@) == words(text@),
{
    let chars = chars_of(text);
    let mut list: Vec<String> = Vec::new();
    let mut current: String = String::new();
    let mut i: usize = 0;
    proof {
        assert(text@.take(0) =~= Seq::empty());
        assert(text::texts(list@) =~= Seq::empty());
    }
    while i < chars.len()
        invariant
            i <= chars@.len(),
            chars@ == text@,
            i == 0 || blank(text@[i - 1]) ==> current@.len() == 0 && text::texts(list@) == words(
                text@.take(i as int),
            ),
            i > 0 && !blank(text@[i - 1]) ==> current@.len() > 0 && text::texts(list@).push(current@)
                == words(text@.take(i as int)),
        decreases chars.len() - i,
    {
        let ghost before = list@;
        let ghost word = current@;
        let ghost next = text@.take(i + 1);
        proof {
            assert(next.drop_last() =~= text@.take(i as int));
            assert(next.last() == text@[i as int]);
            if i > 0 {
                assert(next[next.len() - 2] == text@[i - 1]);
            }
            assert(text::texts(before).push(word).drop_last() =~= text::texts(before));
        }
        if is_blank(chars[i]) {
            if current.as_str().unicode_len() > 0 {
                list.push(current);
                proof {
                    text::lemma_texts_push(before, list@.last());
                }
                current = String::new();
            }
        } else {
            current.push(chars[i]);
            proof {
                if word.len() == 0 {
                    assert(current@ =~= seq![text@[i as int]]);
                }
            }
        }
        i = i + 1;
    }
    proof {
        assert(text@.take(i as int) =~= text@);
    }
    if current.as_str().unicode_len() > 0 {
        let ghost before = list@;
        list.push(current);
        proof {
            text::lemma_texts_push(before, list@.last());
        }
    }
    list
}

/// Whether a text is one word.
pub open spec fn one_word(text: Seq<char>) -> bool {
    text.len() > 0 && forall|i: int| 0 <= i < text.len() ==> !blank(#[trigger] text[i])
}

/// A word behind a blank adds itself to the words.
pub proof fn lemma_words_append(text: Seq<char>, gap: char, word: Seq<char>)
    requires
        blank(gap),
        one_word(word),
    ensures
        words(text.push(gap) + word) == words(text).push(word),
    decreases word.len(),
{
    let whole = text.push(gap) + word;
    assert(whole.last() == word[word.len() - 1]);
    if word.len() == 1 {
        assert(whole.drop_last() =~= text.push(gap));
        assert(text.push(gap).drop_last() =~= text);
        assert(words(text.push(gap)) == words(text));
        assert(whole[whole.len() - 2] == gap);
        assert(!blank(word[0]));
        assert(word =~= seq![word[0]]);
    } else {
        let init = word.drop_last();
        assert forall|i: int| 0 <= i < init.len() implies !blank(#[trigger] init[i]) by {
            assert(init[i] == word[i]);
        }
        assert(whole.drop_last() =~= text.push(gap) + init);
        lemma_words_append(text, gap, init);
        assert(whole[whole.len() - 2] == word[word.len() - 2]);
        assert(!blank(word[word.len() - 2]));
        assert(!blank(word[word.len() - 1]));
        assert(words(text).push(init).drop_last() =~= words(text));
        assert(init.push(word.last()) =~= word);
    }
}

/// A text that is one word has that word alone.
pub proof fn lemma_words_one(word: Seq<char>)
    requires
        one_word(word),
    ensures
        words(word) == seq![word],
    decreases word.len(),
{
    if word.len() == 1 {
        assert(word.drop_last() =~= Seq::empty());
        assert(words(word.drop_last()) =~= Seq::empty());
        assert(!blank(word[0]));
        assert(word =~= seq![word[0]]);
        assert(words(word) =~= seq![word]);
    } else {
        let init = word.drop_last();
        assert forall|i: int| 0 <= i < init.len() implies !blank(#[trigger] init[i]) by {
            assert(init[i] == word[i]);
        }
        lemma_words_one(init);
        assert(!blank(word[word.len() - 2]));
        assert(!blank(word[word.len() - 1]));
        assert(init.push(word.last()) =~= word);
        assert(words(word) =~= seq![word]);
    }
}

/// What `str::escape_debug` makes of a text.
pub uninterp spec fn escaped(text: Seq<char>) -> Seq<char>;

/// Whether a character is a quote or a backslash.
pub open spec fn quoting(c: char) -> bool {
    c == '\'' || c == '"' || c == '\\'
}

/// Whether no quote and no backslash stands in a text.
pub open spec fn unquoted(text: Seq<char>) -> bool {
    forall|i: int| 0 <= i < text.len() ==> !quoting(#[trigger] text[i])
}

/// Whether no escape is written for a character: for printable ASCII other than
/// the quotes and the backslash, and for what comes out as it is alone.
pub open spec fn unescaped(c: char) -> bool {
    0x20 <= (c as u32) <= 0x7e && !quoting(c) || escaped(seq![c]) == seq![c]
}

/// Whether a stretch of a text reaches from a quote or a backslash, or the start,
/// to the next one, or the end.
pub open spec fn is_stretch(text: Seq<char>, from: int, to: int) -> bool {
    &&& 0 <= from < to <= text.len()
    &&& from == 0 || quoting(text[from - 1])
    &&& to == text.len() || quoting(text[to])
    &&& unquoted(text.subrange(from, to))
}

/// Whether everything between the quotes and backslashes of a text comes out as
/// it is.
pub open spec fn stays_put(text: Seq<char>) -> bool {
    &&& escaped(Seq::empty()) == Seq::<char>::empty()
    &&& forall|from: int, to: int|
        is_stretch(text, from, to) ==> escaped(#[trigger] text.subrange(from, to)) == text.subrange(
            from,
            to,
        )
}

/// `str::escape_debug`: each character as `char::escape_debug` writes it, of
/// those that extend a grapheme only the first. The result depends on the
/// text alone and holds no control character, since those come out as escape
/// codes of printable characters. Printable ASCII other than the quotes and
/// the backslash comes out as it is, and so does a text whose characters all do
/// alone. Where no quote and no backslash stood in the text, the backslashes in
/// the result begin escape codes, and what stands between them, the letters and
/// digits of a code and the characters no escape was written for, gets no escape
/// a second time.
#[verifier::external_body]
pub(crate) fn escape_debug(text: &str) -> (shown: String)
    ensures
        shown@ == escaped(text@),
        forall|i: int| 0 <= i < shown@.len() ==> !control(#[trigger] shown@[i]),
        (forall|i: int| 0 <= i < text@.len() ==> unescaped(#[trigger] text@[i])) ==> shown@ == text@,
        unquoted(text@) ==> stays_put(shown@),
{
    text.escape_debug().to_string()
}

/// What the `Debug` form of a text is.
pub uninterp spec fn debug_form(text: Seq<char>) -> Seq<char>;

/// The `Debug` form of a `str`: the text in double quotes, what a terminal
/// would act on escaped. Nothing is claimed but that it depends on the text
/// alone.
#[verifier::external_body]
pub(crate) fn debug_text(text: &str) -> (shown: String)
    ensures
        shown@ == debug_form(text@),
{
    format!("{:?}", text)
}

/// What `String::from_utf8` says of bytes that are no UTF-8.
pub uninterp spec fn utf8_complaint(bytes: Seq<u8>) -> Seq<char>;

/// `String::from_utf8`: the text a list of bytes encodes, exactly where they
/// are valid UTF-8; otherwise its error as it prints, of which nothing is
/// claimed but that it depends on the bytes alone.
#[verifier::external_body]
pub(crate) fn decode_utf8(bytes: Vec<u8>) -> (decoded: Result<String, String>)
    ensures
        decoded is Ok <==> vstd::utf8::valid_utf8(bytes@),
        decoded is Ok ==> vstd::utf8::encode_utf8(decoded->Ok_0@) == bytes@,
        decoded is Err ==> decoded->Err_0@ == utf8_complaint(bytes@),
{
    String::from_utf8(bytes).map_err(|error| error.to_string())
}

/// What `str::to_lowercase` makes of a text.
pub uninterp spec fn lowercased(text: Seq<char>) -> Seq<char>;

/// `str::to_lowercase`: the lowercase equivalent of the text. Nothing is
/// claimed but that it depends on the text alone.
#[verifier::external_body]
pub(crate) fn to_lowercase(text: &str) -> (lower: String)
    ensures
        lower@ == lowercased(text@),
{
    text.to_lowercase()
}

/// What `char::to_lowercase` makes of a character.
pub uninterp spec fn lowercased_char(c: char) -> Seq<char>;

/// `char::to_lowercase`: the lowercase mapping of one character, as one or
/// more characters. Nothing is claimed but that it depends on the character
/// alone.
#[verifier::external_body]
pub(crate) fn lower_char(c: char) -> (lower: String)
    ensures
        lower@ == lowercased_char(c),
{
    c.to_lowercase().to_string()
}

/// What `UnicodeNormalization::nfd` makes of a text.
pub uninterp spec fn decomposed(text: Seq<char>) -> Seq<char>;

/// `UnicodeNormalization::nfd` of the `unicode-normalization` crate, its
/// characters collected: the canonical decomposition of the text. Nothing is
/// claimed but that it depends on the text alone.
#[verifier::external_body]
pub(crate) fn nfd(text: &str) -> (canonical: String)
    ensures
        canonical@ == decomposed(text@),
{
    text.nfd().collect()
}

} // verus!
