//! Text as sequences of characters: comparing, cutting, joining and spelling
//! numbers.

use vstd::prelude::*;

verus! {

/// `String::push` appends the character to the end of the text.
pub assume_specification[ String::push ](s: &mut String, c: char)
    ensures
        final(s)@ == old(s)@.push(c),
;

/// The texts a list of strings holds, in its order.
pub open spec fn texts(list: Seq<String>) -> Seq<Seq<char>> {
    Seq::new(list.len(), |i: int| list[i]@)
}

/// What a list of values shows, one by one.
pub open spec fn views<T: View>(list: Seq<T>) -> Seq<T::V> {
    Seq::new(list.len(), |i: int| list[i]@)
}

/// The text an optional string holds.
pub open spec fn text_of(value: Option<String>) -> Option<Seq<char>> {
    match value {
        Some(s) => Some(s@),
        None => None,
    }
}

/// Appending one string appends its text.
pub broadcast proof fn lemma_texts_push(list: Seq<String>, last: String)
    ensures
        #[trigger] texts(list.push(last)) == texts(list).push(last@),
{
    assert(texts(list.push(last)) =~= texts(list).push(last@));
}

/// The number of bytes a text takes in UTF-8.
pub open spec fn utf8_len(text: Seq<char>) -> nat {
    vstd::utf8::encode_utf8(text).len()
}

/// The bytes of two texts add up, and every character takes at least one.
pub proof fn lemma_utf8_len_add(a: Seq<char>, b: Seq<char>)
    ensures
        utf8_len(a + b) == utf8_len(a) + utf8_len(b),
        utf8_len(a) >= a.len(),
    decreases a.len(),
{
    if a.len() == 0 {
        assert(a + b =~= b);
    } else {
        assert((a + b).drop_first() =~= a.drop_first() + b);
        assert((a + b)[0] == a[0]);
        lemma_utf8_len_add(a.drop_first(), b);
    }
}

pub fn byte_len(text: &str) -> (n: usize)
    ensures
        n == utf8_len(text@),
{
    text.as_bytes().len()
}

pub fn same_text(a: &str, b: &str) -> (same: bool)
    ensures
        same == (a@ == b@),
{
    a.to_owned() == b.to_owned()
}

pub fn same_optional_text(a: &Option<String>, b: &Option<String>) -> (same: bool)
    ensures
        same == (text_of(*a) == text_of(*b)),
{
    match (a, b) {
        (Some(x), Some(y)) => same_text(x.as_str(), y.as_str()),
        (None, None) => true,
        _ => false,
    }
}

pub fn clone_optional_text(value: &Option<String>) -> (copy: Option<String>)
    ensures
        text_of(copy) == text_of(*value),
{
    match value {
        Some(s) => Some(s.as_str().to_owned()),
        None => None,
    }
}

/// A list of strings with the same texts.
pub fn clone_texts(list: &Vec<String>) -> (copy: Vec<String>)
    ensures
        texts(copy@) == texts(list@),
{
    let mut copy: Vec<String> = Vec::new();
    let mut i: usize = 0;
    while i < list.len()
        invariant
            i <= list.len(),
            texts(copy@) == texts(list@).take(i as int),
        decreases list.len() - i,
    {
        let ghost before = copy@;
        copy.push(list[i].as_str().to_owned());
        proof {
            lemma_texts_push(before, copy@.last());
            assert(texts(list@).take(i + 1) =~= texts(list@).take(i as int).push(texts(list@)[i as int]));
        }
        i = i + 1;
    }
    proof {
        assert(texts(list@).take(i as int) =~= texts(list@));
    }
    copy
}

pub fn contains_text(list: &Vec<String>, wanted: &str) -> (found: bool)
    ensures
        found == texts(list@).contains(wanted@),
{
    let mut i: usize = 0;
    while i < list.len()
        invariant
            i <= list.len(),
            forall|j: int| 0 <= j < i ==> texts(list@)[j] != wanted@,
        decreases list.len() - i,
    {
        if same_text(list[i].as_str(), wanted) {
            proof {
                assert(texts(list@)[i as int] == wanted@);
            }
            return true;
        }
        i = i + 1;
    }
    false
}

pub fn chars_of(text: &str) -> (chars: Vec<char>)
    ensures
        chars@ == text@,
{
    let mut chars: Vec<char> = Vec::new();
    for c in iter: text.chars()
        invariant
            chars@ == iter.seq().take(iter.index()),
            iter.seq() == text@,
    {
        chars.push(c);
    }
    chars
}

/// The characters from `from` up to, not including, `to`.
pub fn text_between(chars: &Vec<char>, from: usize, to: usize) -> (text: String)
    requires
        from <= to <= chars@.len(),
    ensures
        text@ == chars@.subrange(from as int, to as int),
{
    let mut text: String = String::new();
    let mut i: usize = from;
    while i < to
        invariant
            from <= i <= to <= chars@.len(),
            text@ == chars@.subrange(from as int, i as int),
        decreases to - i,
    {
        text.push(chars[i]);
        proof {
            assert(chars@.subrange(from as int, i + 1) =~= chars@.subrange(from as int, i as int).push(
                chars@[i as int],
            ));
        }
        i = i + 1;
    }
    text
}

pub fn text_from(chars: &Vec<char>) -> (text: String)
    ensures
        text@ == chars@,
{
    let text = text_between(chars, 0, chars.len());
    proof {
        assert(chars@.subrange(0, chars@.len() as int) =~= chars@);
    }
    text
}


/// Whether `text` begins with `prefix`.
pub open spec fn begins_with(text: Seq<char>, prefix: Seq<char>) -> bool {
    prefix.len() <= text.len() && text.take(prefix.len() as int) == prefix
}

pub fn starts_with(text: &str, prefix: &str) -> (yes: bool)
    ensures
        yes == begins_with(text@, prefix@),
{
    let n: usize = prefix.unicode_len();
    if n > text.unicode_len() {
        return false;
    }
    same_text(text.substring_char(0, n), prefix)
}

/// Whether `text` ends with `suffix`.
pub open spec fn finishes_with(text: Seq<char>, suffix: Seq<char>) -> bool {
    suffix.len() <= text.len() && text.skip(text.len() - suffix.len()) == suffix
}

pub fn ends_with(text: &str, suffix: &str) -> (yes: bool)
    ensures
        yes == finishes_with(text@, suffix@),
{
    let n: usize = suffix.unicode_len();
    let m: usize = text.unicode_len();
    if n > m {
        return false;
    }
    same_text(text.substring_char(m - n, m), suffix)
}

/// Where `wanted` first stands in the text, from `from` on, else its length.
pub open spec fn first_at(text: Seq<char>, wanted: char, from: int) -> int
    decreases text.len() - from,
{
    if from >= text.len() || text[from] == wanted {
        if from >= text.len() { text.len() as int } else { from }
    } else {
        first_at(text, wanted, from + 1)
    }
}

pub proof fn lemma_first_at(text: Seq<char>, wanted: char, from: int)
    requires
        0 <= from <= text.len(),
    ensures
        from <= first_at(text, wanted, from) <= text.len(),
        forall|i: int| from <= i < first_at(text, wanted, from) ==> text[i] != wanted,
        first_at(text, wanted, from) < text.len() ==> text[first_at(text, wanted, from)] == wanted,
    decreases text.len() - from,
{
    if from < text.len() && text[from] != wanted {
        lemma_first_at(text, wanted, from + 1);
    }
}

pub fn find_char(chars: &Vec<char>, wanted: char, from: usize) -> (at: usize)
    requires
        from <= chars@.len(),
    ensures
        at == first_at(chars@, wanted, from as int),
        from <= at <= chars@.len(),
{
    let mut i: usize = from;
    while i < chars.len() && chars[i] != wanted
        invariant
            from <= i <= chars@.len(),
            first_at(chars@, wanted, from as int) == first_at(chars@, wanted, i as int),
        decreases chars.len() - i,
    {
        i = i + 1;
    }
    i
}

pub fn contains_char(text: &str, wanted: char) -> (found: bool)
    ensures
        found == text@.contains(wanted),
{
    let chars = chars_of(text);
    let at: usize = find_char(&chars, wanted, 0);
    proof {
        lemma_first_at(text@, wanted, 0);
    }
    at < chars.len()
}

/// The pieces between the separators; a text without one is a single piece.
pub open spec fn pieces(text: Seq<char>, separator: char) -> Seq<Seq<char>>
    decreases text.len(),
{
    if text.len() == 0 {
        seq![Seq::empty()]
    } else {
        let before = pieces(text.drop_last(), separator);
        if text.last() == separator {
            before.push(Seq::empty())
        } else {
            before.drop_last().push(before.last().push(text.last()))
        }
    }
}

pub proof fn lemma_pieces_nonempty(text: Seq<char>, separator: char)
    ensures
        pieces(text, separator).len() >= 1,
    decreases text.len(),
{
    if text.len() > 0 {
        lemma_pieces_nonempty(text.drop_last(), separator);
    }
}

/// A text without a separator goes on the last piece.
pub proof fn lemma_pieces_extend(text: Seq<char>, more: Seq<char>, separator: char)
    requires
        !more.contains(separator),
    ensures
        pieces(text + more, separator) == pieces(text, separator).drop_last().push(
            pieces(text, separator).last() + more,
        ),
    decreases more.len(),
{
    lemma_pieces_nonempty(text, separator);
    let list = pieces(text, separator);
    if more.len() == 0 {
        assert(text + more =~= text);
        assert(list.last() + more =~= list.last());
        assert(list.drop_last().push(list.last()) =~= list);
    } else {
        let init = more.drop_last();
        assert((text + more).drop_last() =~= text + init);
        assert(more.contains(more[more.len() - 1]));
        assert(!init.contains(separator)) by {
            if init.contains(separator) {
                let i = choose|i: int| 0 <= i < init.len() && init[i] == separator;
                assert(more[i] == separator);
            }
        }
        lemma_pieces_extend(text, init, separator);
        let before = list.drop_last().push(list.last() + init);
        assert(before.drop_last() =~= list.drop_last());
        assert((list.last() + init).push(more.last()) =~= list.last() + more);
    }
}

/// A separator and a text without one add a piece.
pub proof fn lemma_pieces_add(text: Seq<char>, separator: char, more: Seq<char>)
    requires
        !more.contains(separator),
    ensures
        pieces(text.push(separator) + more, separator) == pieces(text, separator).push(more),
{
    let open = text.push(separator);
    assert(open.drop_last() =~= text);
    assert(pieces(open, separator) == pieces(text, separator).push(Seq::empty()));
    lemma_pieces_extend(open, more, separator);
    assert(pieces(open, separator).drop_last() =~= pieces(text, separator));
    assert(Seq::<char>::empty() + more =~= more);
}

pub fn split_text(text: &str, separator: char) -> (parts: Vec<String>)
    ensures
        texts(parts@) == pieces(text@, separator),
        parts@.len() >= 1,
{
    let chars = chars_of(text);
    let mut parts: Vec<String> = Vec::new();
    let mut current: String = String::new();
    let mut i: usize = 0;
    proof {
        assert(texts(parts@).push(current@) =~= pieces(text@.take(0), separator));
    }
    while i < chars.len()
        invariant
            i <= chars@.len(),
            chars@ == text@,
            texts(parts@).push(current@) == pieces(text@.take(i as int), separator),
        decreases chars.len() - i,
    {
        let ghost done = texts(parts@).push(current@);
        proof {
            let next = text@.take(i + 1);
            assert(next.drop_last() =~= text@.take(i as int));
            assert(next.last() == text@[i as int]);
            assert(done.drop_last() =~= texts(parts@));
        }
        if chars[i] == separator {
            let ghost before = parts@;
            parts.push(current);
            proof {
                lemma_texts_push(before, parts@.last());
            }
            current = String::new();
        } else {
            current.push(chars[i]);
        }
        proof {
            assert(texts(parts@).push(current@) =~= pieces(text@.take(i + 1), separator));
        }
        i = i + 1;
    }
    proof {
        assert(text@.take(i as int) =~= text@);
    }
    let ghost before = parts@;
    parts.push(current);
    proof {
        lemma_texts_push(before, parts@.last());
    }
    parts
}

/// The texts one after the other, the separator between each two.
pub open spec fn joined(parts: Seq<Seq<char>>, separator: Seq<char>) -> Seq<char>
    decreases parts.len(),
{
    if parts.len() == 0 {
        Seq::empty()
    } else if parts.len() == 1 {
        parts[0]
    } else {
        joined(parts.drop_last(), separator) + separator + parts.last()
    }
}

pub fn join_texts(parts: &Vec<String>, separator: &str) -> (text: String)
    ensures
        text@ == joined(texts(parts@), separator@),
{
    let mut text: String = String::new();
    let mut i: usize = 0;
    while i < parts.len()
        invariant
            i <= parts@.len(),
            text@ == joined(texts(parts@).take(i as int), separator@),
        decreases parts.len() - i,
    {
        proof {
            let next = texts(parts@).take(i + 1);
            assert(next.drop_last() =~= texts(parts@).take(i as int));
            assert(next.last() == parts@[i as int]@);
        }
        if i > 0 {
            text.append(separator);
            text.append(parts[i].as_str());
        } else {
            text.append(parts[i].as_str());
            proof {
                assert(text@ =~= parts@[0]@);
            }
        }
        i = i + 1;
    }
    proof {
        assert(texts(parts@).take(i as int) =~= texts(parts@));
    }
    text
}

/// A text without the given character at its end.
pub open spec fn without_trailing(text: Seq<char>, c: char) -> Seq<char>
    decreases text.len(),
{
    if text.len() > 0 && text.last() == c {
        without_trailing(text.drop_last(), c)
    } else {
        text
    }
}

pub fn trim_trailing(text: &str, c: char) -> (trimmed: String)
    ensures
        trimmed@ == without_trailing(text@, c),
{
    let chars = chars_of(text);
    let mut n: usize = chars.len();
    proof {
        assert(text@.take(n as int) =~= text@);
    }
    while n > 0 && chars[n - 1] == c
        invariant
            n <= chars@.len(),
            chars@ == text@,
            without_trailing(text@, c) == without_trailing(text@.take(n as int), c),
        decreases n,
    {
        proof {
            assert(text@.take(n as int).drop_last() =~= text@.take(n - 1));
        }
        n = n - 1;
    }
    let trimmed = text_between(&chars, 0, n);
    proof {
        assert(trimmed@ =~= text@.take(n as int));
    }
    trimmed
}

/// The digit that stands for a number below ten.
pub open spec fn digit(n: int) -> char {
    (48 + n) as char
}

/// A number in decimal, without leading zeros.
pub open spec fn decimal(n: nat) -> Seq<char>
    decreases n,
{
    if n < 10 {
        seq![digit(n as int)]
    } else {
        decimal(n / 10).push(digit((n % 10) as int))
    }
}

pub fn spell(n: u64) -> (text: String)
    ensures
        text@ == decimal(n as nat),
    decreases n,
{
    let last: u8 = (n % 10) as u8;
    let c: char = (48u8 + last) as char;
    if n < 10 {
        let mut text: String = String::new();
        text.push(c);
        proof {
            assert(text@ =~= decimal(n as nat));
        }
        text
    } else {
        let mut text: String = spell(n / 10);
        text.push(c);
        text
    }
}

/// A decimal number of any size read from digits alone; nothing else is one.
pub open spec fn number_of(digits: Seq<char>) -> Option<nat>
    decreases digits.len(),
{
    if digits.len() == 0 {
        None
    } else if !('0' <= digits.last() && digits.last() <= '9') {
        None
    } else if digits.len() == 1 {
        Some((digits[0] as int - 48) as nat)
    } else {
        match number_of(digits.drop_last()) {
            Some(n) => Some(n * 10 + (digits.last() as int - 48) as nat),
            None => None,
        }
    }
}

/// Reading back what `decimal` writes.
pub proof fn lemma_decimal_round_trip(n: nat)
    ensures
        number_of(decimal(n)) == Some(n),
        decimal(n).len() >= 1,
        forall|i: int| 0 <= i < decimal(n).len() ==> '0' <= #[trigger] decimal(n)[i] <= '9',
    decreases n,
{
    if n < 10 {
        assert(decimal(n)[0] == digit(n as int));
    } else {
        lemma_decimal_round_trip(n / 10);
        let head = decimal(n / 10);
        assert(decimal(n).drop_last() =~= head);
        assert(decimal(n).last() == digit((n % 10) as int));
        assert forall|i: int| 0 <= i < decimal(n).len() implies '0' <= #[trigger] decimal(n)[i]
            <= '9' by {
            if i < head.len() {
                assert(decimal(n)[i] == head[i]);
            }
        }
    }
}

/// The number a word spells, where it is at most `max`; one plus sign may
/// stand in front.
pub open spec fn unsigned(word: Seq<char>, max: nat) -> Option<nat> {
    let digits = if word.len() > 1 && word[0] == '+' { word.skip(1) } else { word };
    match number_of(digits) {
        Some(n) => if n <= max {
            Some(n)
        } else {
            None
        },
        None => None,
    }
}

proof fn lemma_number_grows(digits: Seq<char>, n: int)
    requires
        1 <= n <= digits.len(),
        number_of(digits) is Some,
    ensures
        number_of(digits.take(n)) is Some,
        number_of(digits.take(n))->0 <= number_of(digits)->0,
    decreases digits.len() - n,
{
    if n < digits.len() {
        lemma_number_grows(digits, n + 1);
        assert(digits.take(n + 1).drop_last() =~= digits.take(n));
        assert(digits.take(n + 1).len() > 1);
    } else {
        assert(digits.take(n) =~= digits);
    }
}

pub proof fn lemma_no_number(digits: Seq<char>, n: int)
    requires
        0 <= n < digits.len(),
        !('0' <= digits[n] <= '9'),
    ensures
        number_of(digits) is None,
    decreases digits.len(),
{
    if n < digits.len() - 1 {
        assert(digits.drop_last()[n] == digits[n]);
        lemma_no_number(digits.drop_last(), n);
    }
}

pub fn parse_unsigned(word: &str, max: u64) -> (number: Option<u64>)
    ensures
        match number {
            Some(n) => unsigned(word@, max as nat) == Some(n as nat),
            None => unsigned(word@, max as nat) is None,
        },
{
    let chars = chars_of(word);
    let from: usize = if chars.len() > 1 && chars[0] == '+' { 1 } else { 0 };
    let ghost digits = if word@.len() > 1 && word@[0] == '+' { word@.skip(1) } else { word@ };
    if chars.len() == from {
        return None;
    }
    let mut value: u64 = 0;
    let mut i: usize = from;
    while i < chars.len()
        invariant
            from <= i <= chars@.len(),
            from < chars@.len(),
            from <= 1,
            chars@ == word@,
            digits.len() == chars@.len() - from,
            forall|j: int| 0 <= j < digits.len() ==> digits[j] == word@[j + from],
            unsigned(word@, max as nat) == (match number_of(digits) {
                Some(n) => if n <= max { Some(n) } else { None },
                None => None,
            }),
            value <= max,
            i == from ==> value == 0,
            i > from ==> number_of(digits.take(i - from)) == Some(value as nat),
        decreases chars.len() - i,
    {
        let c: char = chars[i];
        proof {
            assert(digits[i - from] == c);
            assert(digits.take(i + 1 - from).drop_last() =~= digits.take(i - from));
            assert(digits.take(i + 1 - from).last() == c);
        }
        if !('0' <= c && c <= '9') {
            proof {
                lemma_no_number(digits, i - from);
            }
            return None;
        }
        let digit: u64 = (c as u8 - 48u8) as u64;
        let next: u128 = value as u128 * 10 + digit as u128;
        proof {
            if i == from {
                assert(digits.take(1)[0] == c);
            }
            assert(number_of(digits.take(i + 1 - from)) == Some(next as nat));
            if number_of(digits) is Some {
                lemma_number_grows(digits, i + 1 - from);
            }
        }
        if next > max as u128 {
            return None;
        }
        value = next as u64;
        i = i + 1;
    }
    proof {
        assert(digits.take(i - from) =~= digits);
    }
    Some(value)
}

/// A number reads back as it was spelled.
pub proof fn lemma_unsigned_round_trip(n: nat, max: nat)
    requires
        n <= max,
    ensures
        unsigned(decimal(n), max) == Some(n),
{
    lemma_decimal_round_trip(n);
    let word = decimal(n);
    if word.len() > 1 {
        assert('0' <= word[0] <= '9');
    }
}

/// So many spaces.
pub open spec fn spaces(n: nat) -> Seq<char> {
    Seq::new(n, |i: int| ' ')
}

/// A text with spaces behind it, to a width counted in characters.
pub open spec fn padded_right(text: Seq<char>, width: nat) -> Seq<char> {
    if text.len() >= width {
        text
    } else {
        text + spaces((width - text.len()) as nat)
    }
}

/// A text with spaces in front of it, to a width counted in characters.
pub open spec fn padded_left(text: Seq<char>, width: nat) -> Seq<char> {
    if text.len() >= width {
        text
    } else {
        spaces((width - text.len()) as nat) + text
    }
}

fn append_spaces(text: &mut String, n: usize)
    ensures
        final(text)@ == old(text)@ + spaces(n as nat),
{
    let ghost start = text@;
    let mut i: usize = 0;
    proof {
        assert(text@ =~= start + spaces(0));
    }
    while i < n
        invariant
            i <= n,
            text@ == start + spaces(i as nat),
        decreases n - i,
    {
        text.push(' ');
        i = i + 1;
        proof {
            assert(text@ =~= start + spaces(i as nat));
        }
    }
}

pub fn pad_right(text: &str, width: usize) -> (padded: String)
    ensures
        padded@ == padded_right(text@, width as nat),
{
    let mut padded: String = text.to_owned();
    let n: usize = text.unicode_len();
    if n < width {
        append_spaces(&mut padded, width - n);
    }
    padded
}

pub fn pad_left(text: &str, width: usize) -> (padded: String)
    ensures
        padded@ == padded_left(text@, width as nat),
{
    let mut padded: String = String::new();
    let n: usize = text.unicode_len();
    if n < width {
        append_spaces(&mut padded, width - n);
    }
    padded.append(text);
    proof {
        assert(padded@ =~= padded_left(text@, width as nat));
    }
    padded
}

} // verus!
