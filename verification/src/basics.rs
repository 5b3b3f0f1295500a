//! What cutting, trimming and joining texts and paths comes to.

use crate::host::{self, HostOs};
use crate::path::{self, ComponentView};
use crate::text;
use crate::unicode;
use vstd::prelude::*;

verus! {

/// A text that was cut at a separator is the pieces with the separator between
/// them, and none of them holds it.
pub proof fn cut_texts_are_joined_again(text: Seq<char>, c: char)
    ensures
        text::joined(text::pieces(text, c), seq![c]) == text,
        text::pieces(text, c).len() >= 1,
        forall|i: int|
            0 <= i < text::pieces(text, c).len() ==> !(#[trigger] text::pieces(text, c)[i]).contains(
                c,
            ),
    decreases text.len(),
{
    let parts = text::pieces(text, c);
    if text.len() == 0 {
        assert(parts =~= seq![Seq::empty()]);
        assert(text::joined(parts, seq![c]) =~= text);
    } else {
        let init = text.drop_last();
        cut_texts_are_joined_again(init, c);
        let before = text::pieces(init, c);
        assert(init.push(text.last()) =~= text);
        if text.last() == c {
            assert(parts.drop_last() =~= before);
            assert(text::joined(parts, seq![c]) =~= text);
            assert forall|i: int| 0 <= i < parts.len() implies !(#[trigger] parts[i]).contains(c) by {
                if i < before.len() {
                    assert(parts[i] == before[i]);
                }
            }
        } else {
            let last = before.last();
            let head = before.drop_last();
            assert(parts.drop_last() =~= head);
            assert(text::joined(parts, seq![c]) =~= text::joined(before, seq![c]).push(text.last()));
            assert forall|i: int| 0 <= i < parts.len() implies !(#[trigger] parts[i]).contains(c) by {
                if i < before.len() - 1 {
                    assert(parts[i] == before[i]);
                } else {
                    assert(!before[before.len() - 1].contains(c));
                    if parts[i].contains(c) {
                        let k = choose|k: int| 0 <= k < parts[i].len() && parts[i][k] == c;
                        assert(last[k] == c);
                    }
                }
            }
        }
    }
}

/// Trimming takes the blanks off both ends of a text and nothing else.
pub proof fn trimming_takes_blanks_off_the_ends(text: Seq<char>)
    ensures
        ({
            let inner = unicode::trimmed(text);
            let from = unicode::leading_blanks(text);
            &&& 0 <= from
            &&& from + inner.len() <= text.len()
            &&& inner == text.subrange(from, from + inner.len())
            &&& forall|i: int|
                0 <= i < text.len() && !(from <= i < from + inner.len()) ==> unicode::blank(
                    #[trigger] text[i],
                )
            &&& inner.len() > 0 ==> !unicode::blank(inner[0]) && !unicode::blank(inner.last())
        }),
{
    lemma_leading(text);
    let from = unicode::leading_blanks(text);
    let rest = text.skip(from);
    lemma_trailing(rest);
    let inner = unicode::without_trailing_blanks(rest);
    assert(inner =~= text.subrange(from, from + inner.len()));
    assert forall|i: int|
        0 <= i < text.len() && !(from <= i < from + inner.len()) implies unicode::blank(
        #[trigger] text[i],
    ) by {
        if i >= from {
            assert(unicode::blank(rest[i - from]));
        }
    }
    if inner.len() > 0 {
        assert(inner[0] == text[from]);
    }
}

proof fn lemma_leading(text: Seq<char>)
    ensures
        0 <= unicode::leading_blanks(text) <= text.len(),
        forall|i: int| 0 <= i < unicode::leading_blanks(text) ==> unicode::blank(#[trigger] text[i]),
        unicode::leading_blanks(text) < text.len() ==> !unicode::blank(
            text[unicode::leading_blanks(text)],
        ),
    decreases text.len(),
{
    if text.len() > 0 && unicode::blank(text[0]) {
        let rest = text.drop_first();
        lemma_leading(rest);
        assert forall|i: int| 0 <= i < unicode::leading_blanks(text) implies unicode::blank(
            #[trigger] text[i],
        ) by {
            if i > 0 {
                assert(rest[i - 1] == text[i]);
            }
        }
    }
}

proof fn lemma_trailing(text: Seq<char>)
    ensures
        ({
            let kept = unicode::without_trailing_blanks(text);
            &&& kept.len() <= text.len()
            &&& kept == text.take(kept.len() as int)
            &&& forall|i: int| kept.len() <= i < text.len() ==> unicode::blank(#[trigger] text[i])
            &&& kept.len() > 0 ==> !unicode::blank(kept.last())
        }),
    decreases text.len(),
{
    if text.len() > 0 && unicode::blank(text.last()) {
        let init = text.drop_last();
        lemma_trailing(init);
        let kept = unicode::without_trailing_blanks(text);
        assert(kept =~= text.take(kept.len() as int));
        assert forall|i: int| kept.len() <= i < text.len() implies unicode::blank(#[trigger] text[i]) by {
            if i < init.len() {
                assert(init[i] == text[i]);
            }
        }
    } else {
        assert(text =~= text.take(text.len() as int));
    }
}

/// A text that neither begins nor ends with a blank is not trimmed.
pub proof fn texts_without_outer_blanks_are_trimmed(text: Seq<char>)
    requires
        text.len() > 0 ==> !unicode::blank(text[0]) && !unicode::blank(text.last()),
    ensures
        unicode::trimmed(text) == text,
{
    trimming_takes_blanks_off_the_ends(text);
    let inner = unicode::trimmed(text);
    if text.len() > 0 {
        let from = unicode::leading_blanks(text);
        if from > 0 {
            assert(unicode::blank(text[0]));
        }
        if inner.len() < text.len() {
            assert(unicode::blank(text[text.len() - 1]));
        }
    }
    assert(inner =~= text);
}

/// Among ASCII characters, blanks are the space and the five from tab to
/// carriage return; control characters are those below the space, and delete.
pub proof fn ascii_blanks_and_controls(c: char)
    requires
        (c as u32) < 0x80,
    ensures
        unicode::blank(c) <==> c == ' ' || c == '\t' || c == '\n' || c == '\r' || c as u32 == 0x0b
            || c as u32 == 0x0c,
        unicode::control(c) <==> (c as u32) < (' ' as u32) || c as u32 == 0x7f,
{
}

/// Padding adds spaces to one end until the text is wide enough, and takes
/// nothing away.
pub proof fn padding_only_adds_spaces(text: Seq<char>, width: nat)
    ensures
        ({
            let right = text::padded_right(text, width);
            let left = text::padded_left(text, width);
            &&& right.len() == left.len()
            &&& right.len() == if text.len() >= width {
                text.len()
            } else {
                width
            }
            &&& right.take(text.len() as int) == text
            &&& left.skip(left.len() - text.len()) == text
            &&& forall|i: int| text.len() <= i < right.len() ==> #[trigger] right[i] == ' '
            &&& forall|i: int| 0 <= i < left.len() - text.len() ==> #[trigger] left[i] == ' '
        }),
{
    let right = text::padded_right(text, width);
    let left = text::padded_left(text, width);
    assert(right.take(text.len() as int) =~= text);
    assert(left.skip(left.len() - text.len()) =~= text);
}

/// A number is written with its digits, the highest first and none too many.
pub proof fn numbers_are_written_in_digits(n: nat)
    ensures
        n < 10 ==> text::decimal(n).len() == 1 && text::decimal(n)[0] as u32 == 0x30 + n,
        n >= 10 ==> text::decimal(n).drop_last() == text::decimal(n / 10) && text::decimal(
            n,
        ).last() as u32 == 0x30 + n % 10,
{
    if n >= 10 {
        assert(text::decimal(n).drop_last() =~= text::decimal(n / 10));
    }
}

/// A path is put behind a directory with one slash between them; an absolute one
/// stands for itself.
pub proof fn paths_are_put_behind_directories(base: Seq<char>, path: Seq<char>)
    ensures
        path.len() > 0 && path[0] == '/' ==> path::placed(base, path) == path,
        (path.len() == 0 || path[0] != '/') && base.len() > 0 && base.last() != '/' ==> path::placed(
            base,
            path,
        ) == base + seq!['/'] + path,
        (path.len() == 0 || path[0] != '/') && (base.len() == 0 || base.last() == '/')
            ==> path::placed(base, path) == base + path,
{
    if base.len() > 0 {
        assert(base.push('/') + path =~= base + seq!['/'] + path);
    }
}

/// What lies one step below a directory: it has that step as its name and the
/// directory above it, lies under the directory, and under no other name in it.
pub proof fn one_step_down(base: Seq<char>, name: Seq<char>, other: Seq<char>)
    requires
        path::one_step(name),
        path::one_step(other),
    ensures
        path::components(path::placed(base, name)) == path::components(base).push(
            ComponentView::Normal(name),
        ),
        path::file_name(path::placed(base, name)) == Some(name),
        path::lies_under(path::placed(base, name), base),
        !path::lies_under(base, path::placed(base, name)),
        path::lies_under(path::placed(base, name), path::placed(base, other)) <==> name == other,
{
    path::lemma_components_placed(base, name);
    path::lemma_components_placed(base, other);
    let inner = path::components(path::placed(base, name));
    let outer = path::components(base);
    assert(inner.take(outer.len() as int) =~= outer);
    let beside = path::components(path::placed(base, other));
    assert(inner.take(inner.len() as int) =~= inner);
    if name != other {
        assert(inner.last() != beside.last());
    }
}

/// The extension of a name is what follows its last dot, unless that is the first
/// character, and its stem is what comes before that dot.
pub proof fn extensions_follow_the_last_dot(stem: Seq<char>, extension: Seq<char>)
    requires
        stem.len() > 0,
        !stem.contains('/'),
        !extension.contains('/'),
        !extension.contains('.'),
        path::one_step(stem + seq!['.'] + extension),
    ensures
        path::extension(stem + seq!['.'] + extension) == Some(extension),
        path::file_stem(stem + seq!['.'] + extension) == Some(stem),
{
    let name = stem + seq!['.'] + extension;
    lemma_name_of_itself(name);
    let n = name.len() as int;
    path::lemma_last_at(name, '.', n);
    let dot = path::last_at(name, '.', n);
    assert(name[stem.len() as int] == '.');
    assert(name.skip(stem.len() as int + 1) =~= extension);
    lemma_last_dot(name, stem.len() as int, n, extension);
    assert(name.take(dot) =~= stem);
    assert(name.skip(dot + 1) =~= extension);
}

/// A name without a dot, or with none but in front, has no extension.
pub proof fn names_without_dots_have_no_extension(name: Seq<char>)
    requires
        path::one_step(name),
        forall|i: int| 0 < i < name.len() ==> #[trigger] name[i] != '.',
    ensures
        path::extension(name) is None,
        path::file_stem(name) == Some(name),
{
    lemma_name_of_itself(name);
    lemma_no_dot(name, name.len() as int);
}

proof fn lemma_no_dot(name: Seq<char>, n: int)
    requires
        0 <= n <= name.len(),
        forall|i: int| 0 < i < name.len() ==> #[trigger] name[i] != '.',
    ensures
        path::last_at(name, '.', n) <= 0,
    decreases n,
{
    if n > 0 && name[n - 1] != '.' {
        lemma_no_dot(name, n - 1);
    }
}

proof fn lemma_last_dot(name: Seq<char>, dot: int, n: int, extension: Seq<char>)
    requires
        0 <= dot < n <= name.len(),
        name[dot] == '.',
        name.skip(dot + 1) == extension,
        !extension.contains('.'),
    ensures
        path::last_at(name, '.', n) == dot,
    decreases n,
{
    if n - 1 > dot {
        assert(extension[n - 1 - dot - 1] == name[n - 1]);
        assert(name[n - 1] != '.');
        lemma_last_dot(name, dot, n - 1, extension);
    }
}

proof fn lemma_name_of_itself(name: Seq<char>)
    requires
        path::one_step(name),
    ensures
        path::file_name(name) == Some(name),
{
    let nothing = Seq::<char>::empty();
    text::lemma_pieces_extend(nothing, name, '/');
    assert(nothing + name =~= name);
    assert(text::pieces(nothing, '/') =~= seq![nothing]);
    assert(text::pieces(name, '/') =~= seq![name]);
    assert(seq![name].drop_last() =~= Seq::empty());
    assert(path::named_steps(seq![name].drop_last()) =~= Seq::empty());
    assert(!path::is_absolute(name)) by {
        if name[0] == '/' {
            assert(name.contains('/'));
        }
    }
    assert(path::components(name) =~= seq![ComponentView::Normal(name)]);
}

/// On Windows either kind of slash sets steps apart, and a path is written
/// with the one kind; elsewhere a backslash is a character like any other.
pub proof fn slashes_are_written_one_way(path: Seq<char>, os: HostOs, i: int)
    ensures
        os != HostOs::Windows ==> host::with_slashes(path, os) == path,
        host::with_slashes(path, os).len() == path.len(),
        os == HostOs::Windows && 0 <= i < path.len() ==> {
            &&& path[i] == '\\' ==> host::with_slashes(path, os)[i] == '/'
            &&& path[i] != '\\' ==> host::with_slashes(path, os)[i] == path[i]
        },
{
}

/// Only on Windows does a path begin with a drive: a letter and a colon. What
/// follows it is what is left of the path without it.
pub proof fn drives_are_a_letter_and_a_colon(letter: char, rest: Seq<char>, os: HostOs)
    ensures
        ({
            let path = seq![letter, ':'] + rest;
            &&& host::has_drive(path, os) <==> os == HostOs::Windows && ('a' <= letter <= 'z' || 'A'
                <= letter <= 'Z')
            &&& host::has_drive(path, os) ==> host::past_drive(path, os) == host::with_slashes(
                rest,
                os,
            )
            &&& !host::has_drive(path, os) ==> host::past_drive(path, os) == host::with_slashes(
                path,
                os,
            )
        }),
{
    let path = seq![letter, ':'] + rest;
    if host::has_drive(path, os) {
        assert(host::with_slashes(path, os).skip(2) =~= host::with_slashes(rest, os));
    }
}

/// A path without a drive is put behind a directory, or stands for itself
/// where it starts at a root; one with a drive always stands for itself; and
/// one from the root of an unnamed drive is on the drive of the directory.
pub proof fn paths_are_put_behind_directories_on_a_host(
    base: Seq<char>,
    path: Seq<char>,
    os: HostOs,
)
    ensures
        os != HostOs::Windows ==> host::placed(base, path, os) == path::placed(base, path),
        host::has_drive(path, os) ==> host::placed(base, path, os) == path,
        host::has_drive(base, os) && !host::has_drive(path, os) && path.len() > 0 && path[0] == '/'
            && !host::is_absolute(path, os) ==> host::placed(base, path, os) == seq![
            base[0],
            ':',
        ] + path,
{
    if host::has_drive(base, os) {
        assert(base.take(2) =~= seq![base[0], ':']);
    }
}

/// The value of a row of digits.
pub open spec fn value_of(digits: Seq<char>) -> nat
    decreases digits.len(),
{
    if digits.len() == 0 {
        0
    } else {
        value_of(digits.drop_last()) * 10 + (digits.last() as int - '0' as int) as nat
    }
}

proof fn lemma_value(digits: Seq<char>)
    ensures
        text::number_of(digits) is Some <==> digits.len() > 0 && forall|i: int|
            0 <= i < digits.len() ==> '0' <= #[trigger] digits[i] <= '9',
        text::number_of(digits) is Some ==> text::number_of(digits)->0 == value_of(digits),
    decreases digits.len(),
{
    if digits.len() > 0 {
        let init = digits.drop_last();
        lemma_value(init);
        assert(digits.last() == digits[digits.len() - 1]);
        if digits.len() == 1 {
            assert(value_of(init) == 0);
            assert(digits.last() == digits[0]);
        } else {
            if text::number_of(digits) is Some {
                assert forall|i: int| 0 <= i < digits.len() implies '0' <= #[trigger] digits[i]
                    <= '9' by {
                    if i < init.len() {
                        assert(init[i] == digits[i]);
                    }
                }
            } else if '0' <= digits.last() <= '9' {
                let i = choose|i: int|
                    0 <= i < init.len() && !('0' <= #[trigger] init[i] <= '9');
                assert(digits[i] == init[i]);
            }
        }
    }
}

/// A word is read as a number exactly where it is made of digits, with a plus
/// sign before them or not, and is not above what is allowed; and it is read
/// as the value of its digits.
pub proof fn numbers_are_read_from_digits(digits: Seq<char>, max: nat)
    requires
        digits.len() > 0,
        digits[0] != '+',
    ensures
        ({
            let is_digits = forall|i: int|
                0 <= i < digits.len() ==> '0' <= #[trigger] digits[i] <= '9';
            &&& text::unsigned(digits, max) == text::unsigned(seq!['+'] + digits, max)
            &&& text::unsigned(digits, max) is Some <==> is_digits && value_of(digits) <= max
            &&& text::unsigned(digits, max) is Some ==> text::unsigned(digits, max)->0 == value_of(
                digits,
            )
        }),
{
    lemma_value(digits);
    assert((seq!['+'] + digits).skip(1) =~= digits);
}

/// Nothing comes before the first place at which a character stands.
pub proof fn the_first_place_is_found(text: Seq<char>, wanted: char, from: int, i: int)
    requires
        0 <= from <= text.len(),
    ensures
        ({
            let at = text::first_at(text, wanted, from);
            &&& from <= at <= text.len()
            &&& at < text.len() ==> text[at] == wanted
            &&& from <= i < at ==> text[i] != wanted
        }),
    decreases text.len() - from,
{
    if from < text.len() && text[from] != wanted {
        the_first_place_is_found(text, wanted, from + 1, i);
    }
}

/// Taking a character off the end takes all of it that stands there, and
/// nothing else.
pub proof fn ends_are_trimmed(text: Seq<char>, c: char, n: nat)
    requires
        text.len() == 0 || text.last() != c,
    ensures
        text::without_trailing(text + Seq::new(n, |i: int| c), c) == text,
    decreases n,
{
    let whole = text + Seq::new(n, |i: int| c);
    if n == 0 {
        assert(whole =~= text);
    } else {
        ends_are_trimmed(text, c, (n - 1) as nat);
        assert(whole.drop_last() =~= text + Seq::new((n - 1) as nat, |i: int| c));
        assert(whole.last() == c);
    }
}

/// A text begins with what is written first in it, and ends with what is
/// written last.
pub proof fn texts_begin_and_end(a: Seq<char>, b: Seq<char>, text: Seq<char>)
    ensures
        text::begins_with(a + b, a),
        text::finishes_with(a + b, b),
        text::begins_with(text, a) ==> text == a + text.skip(a.len() as int),
        text::finishes_with(text, b) ==> text == text.take(text.len() - b.len()) + b,
{
    assert((a + b).take(a.len() as int) =~= a);
    assert((a + b).skip(a.len() as int) =~= b);
    assert((a + b).subrange(0, a.len() as int) =~= a);
    assert((a + b).subrange(a.len() as int, (a + b).len() as int) =~= b);
    if text::begins_with(text, a) {
        assert(text =~= a + text.skip(a.len() as int));
    }
    if text::finishes_with(text, b) {
        assert(text =~= text.take(text.len() - b.len()) + b);
    }
}

/// What can stand in a path behind its first step.
pub open spec fn is_inner(step: ComponentView) -> bool {
    match step {
        ComponentView::Normal(name) => path::one_step(name),
        ComponentView::Parent => true,
        _ => false,
    }
}

proof fn lemma_named_steps_inner(names: Seq<Seq<char>>, k: int)
    requires
        forall|i: int| 0 <= i < names.len() ==> !(#[trigger] names[i]).contains('/'),
        0 <= k < path::named_steps(names).len(),
    ensures
        is_inner(path::named_steps(names)[k]),
    decreases names.len(),
{
    if names.len() > 0 {
        let init = names.drop_last();
        let before = path::named_steps(init);
        assert(!names[names.len() - 1].contains('/'));
        assert forall|i: int| 0 <= i < init.len() implies !(#[trigger] init[i]).contains('/') by {
            assert(init[i] == names[i]);
        }
        if k < before.len() {
            lemma_named_steps_inner(init, k);
        }
    }
}

proof fn lemma_steps_inner(path: Seq<char>, k: int)
    requires
        0 <= k < path::components(path).len(),
    ensures
        k > 0 ==> is_inner(path::components(path)[k]),
        k == 0 ==> is_inner(path::components(path)[0]) || path::components(path)[0]
            == ComponentView::Root || path::components(path)[0] == ComponentView::Current,
{
    let names = text::pieces(path, '/');
    cut_texts_are_joined_again(path, '/');
    let inner = path::named_steps(names);
    let all = path::components(path);
    if all.len() == inner.len() {
        lemma_named_steps_inner(names, k);
    } else if k > 0 {
        lemma_named_steps_inner(names, k - 1);
    }
}

/// Two dots behind a directory lead one step up from it.
pub proof fn two_dots_lead_up(base: Seq<char>)
    ensures
        path::components(path::placed(base, seq!['.', '.'])) == path::components(base).push(
            ComponentView::Parent,
        ),
{
    let name = seq!['.', '.'];
    let whole = path::placed(base, name);
    let list = text::pieces(base, '/');
    assert(!name.contains('/')) by {
        if name.contains('/') {
            let k = name.index_of('/');
            assert(name[k] == '/');
        }
    }
    text::lemma_pieces_nonempty(base, '/');
    let names = text::pieces(whole, '/');
    let step = ComponentView::Parent;
    if base.len() == 0 {
        assert(whole =~= base + name);
        assert(list =~= seq![Seq::empty()]);
        text::lemma_pieces_extend(base, name, '/');
        assert(Seq::<char>::empty() + name =~= name);
        assert(names =~= seq![name]);
        assert(names.drop_last() =~= Seq::empty());
        assert(path::named_steps(names) == path::named_steps(Seq::empty()).push(step));
        assert(list.drop_last() =~= Seq::empty());
        assert(path::named_steps(list) == path::named_steps(Seq::empty()));
        assert(names[0].len() == 2);
        assert(list[0].len() == 0);
        assert(path::components(base) =~= Seq::empty());
        assert(path::components(whole) =~= path::components(base).push(step));
    } else if base.last() == '/' {
        let init = base.drop_last();
        assert(base =~= init.push('/'));
        assert(whole =~= init.push('/') + name);
        text::lemma_pieces_add(init, '/', name);
        let before = text::pieces(init, '/');
        text::lemma_pieces_nonempty(init, '/');
        assert(list == before.push(Seq::empty()));
        assert(names.drop_last() =~= before);
        assert(list.drop_last() =~= before);
        assert(path::named_steps(list) == path::named_steps(before));
        assert(path::named_steps(names) == path::named_steps(before).push(step));
        assert(whole[0] == base[0]);
        assert(names[0] == before[0] && list[0] == before[0]);
        assert(path::components(whole) =~= path::components(base).push(step));
    } else {
        assert(whole =~= base.push('/') + name);
        text::lemma_pieces_add(base, '/', name);
        assert(names.drop_last() =~= list);
        assert(path::named_steps(names) == path::named_steps(list).push(step));
        assert(whole[0] == base[0]);
        assert(names[0] == list[0]);
        assert(path::components(whole) =~= path::components(base).push(step));
    }
}

proof fn lemma_first_steps()
    ensures
        path::components("/"@) == seq![ComponentView::Root],
        path::components("."@) == seq![ComponentView::Current],
        path::components(Seq::empty()) == Seq::<ComponentView>::empty(),
{
    reveal_strlit("/");
    reveal_strlit(".");
    let none = Seq::<char>::empty();
    let nothing = Seq::<Seq<char>>::empty();
    assert(path::named_steps(nothing) =~= Seq::empty());
    assert(text::pieces(none, '/') =~= seq![none]);
    assert(seq![none].drop_last() =~= nothing);
    assert(path::named_steps(seq![none]) =~= Seq::empty());
    let dot = "."@;
    assert(dot.drop_last() =~= none);
    assert(none.push('.') =~= seq!['.']);
    assert(text::pieces(dot, '/') =~= seq![seq!['.']]);
    assert(seq![seq!['.']].drop_last() =~= nothing);
    assert(path::named_steps(seq![seq!['.']]) =~= Seq::empty());
    assert(path::components(dot) =~= seq![ComponentView::Current]);
    let slash = "/"@;
    assert(slash.drop_last() =~= none);
    assert(text::pieces(slash, '/') =~= seq![none, none]);
    assert(seq![none, none].drop_last() =~= seq![none]);
    assert(path::named_steps(seq![none, none]) =~= Seq::empty());
    assert(path::components(slash) =~= seq![ComponentView::Root]);
    assert(path::components(none) =~= Seq::empty());
}

proof fn lemma_spelled_and_read(list: Seq<ComponentView>)
    requires
        forall|k: int| 0 < k < list.len() ==> is_inner(#[trigger] list[k]),
        list.len() > 0 ==> is_inner(list[0]) || list[0] == ComponentView::Root || list[0]
            == ComponentView::Current,
    ensures
        path::components(path::spelled(list)) == list,
    decreases list.len(),
{
    lemma_first_steps();
    if list.len() > 0 {
        let init = list.drop_last();
        assert forall|k: int| 0 < k < init.len() implies is_inner(#[trigger] init[k]) by {
            assert(init[k] == list[k]);
        }
        lemma_spelled_and_read(init);
        let before = path::spelled(init);
        match list.last() {
            ComponentView::Normal(name) => {
                assert(path::one_step(name)) by {
                    assert(is_inner(list[list.len() - 1]));
                }
                path::lemma_components_placed(before, name);
                assert(init.push(list.last()) =~= list);
            },
            ComponentView::Parent => {
                reveal_strlit("..");
                assert(".."@ =~= seq!['.', '.']);
                two_dots_lead_up(before);
                assert(init.push(list.last()) =~= list);
            },
            ComponentView::Root => {
                reveal_strlit("/");
                assert(list.len() == 1) by {
                    if list.len() > 1 {
                        assert(is_inner(list[list.len() - 1]));
                    }
                }
                assert(path::spelled(list) =~= "/"@);
                assert(list =~= seq![ComponentView::Root]);
            },
            ComponentView::Current => {
                reveal_strlit(".");
                assert(list.len() == 1) by {
                    if list.len() > 1 {
                        assert(is_inner(list[list.len() - 1]));
                    }
                }
                assert(before =~= Seq::empty());
                assert(path::spelled(list) =~= "."@);
                assert(list =~= seq![ComponentView::Current]);
            },
        }
    } else {
        assert(list =~= Seq::empty());
        assert(path::spelled(list) =~= Seq::empty());
    }
}

/// The normal form of a path leads where the path leads, step by step, and is
/// its own normal form.
pub proof fn normal_forms_lead_to_the_same_place(path: Seq<char>)
    ensures
        path::components(path::normalized(path)) == path::components(path),
        path::normalized(path::normalized(path)) == path::normalized(path),
{
    let list = path::components(path);
    assert forall|k: int| 0 < k < list.len() implies is_inner(#[trigger] list[k]) by {
        lemma_steps_inner(path, k);
    }
    if list.len() > 0 {
        lemma_steps_inner(path, 0);
    }
    lemma_spelled_and_read(list);
}

/// What lies above something in a directory is the directory; above a root, and
/// above nothing, there is nothing.
pub proof fn directories_lie_above_what_is_in_them(base: Seq<char>, name: Seq<char>)
    requires
        path::one_step(name),
    ensures
        path::parent(path::placed(base, name)) matches Some(above) && path::components(above)
            == path::components(base),
        path::parent("/"@) is None,
        path::parent(Seq::empty()) is None,
{
    lemma_first_steps();
    path::lemma_components_placed(base, name);
    let list = path::components(base);
    assert(list.push(ComponentView::Normal(name)).drop_last() =~= list);
    normal_forms_lead_to_the_same_place(base);
}

/// Words are what stands between blanks.
pub proof fn words_stand_between_blanks(text: Seq<char>, gap: char, word: Seq<char>)
    requires
        unicode::blank(gap),
        unicode::one_word(word),
    ensures
        unicode::words(word) == seq![word],
        unicode::words(text.push(gap)) == unicode::words(text),
        unicode::words(text.push(gap) + word) == unicode::words(text).push(word),
        unicode::words(Seq::empty()) == Seq::<Seq<char>>::empty(),
{
    unicode::lemma_words_one(word);
    unicode::lemma_words_append(text, gap, word);
    assert(text.push(gap).drop_last() =~= text);
}

/// The characters that leave a gap, and those that control a terminal, over all
/// of Unicode.
pub proof fn blanks_and_controls(c: char)
    ensures
        unicode::blank(c) <==> {
            ||| '\u{9}' <= c <= '\u{d}'
            ||| c == ' '
            ||| c == '\u{85}'
            ||| c == '\u{a0}'
            ||| c == '\u{1680}'
            ||| '\u{2000}' <= c <= '\u{200a}'
            ||| c == '\u{2028}'
            ||| c == '\u{2029}'
            ||| c == '\u{202f}'
            ||| c == '\u{205f}'
            ||| c == '\u{3000}'
        },
        unicode::control(c) <==> c <= '\u{1f}' || '\u{7f}' <= c <= '\u{9f}',
{
}

/// Letters of ASCII have two forms, 32 apart; no other character changes.
pub proof fn ascii_letters_have_two_forms(c: char)
    ensures
        'a' <= c <= 'z' ==> unicode::ascii_upper(c) as int == c as int - 32,
        !('a' <= c <= 'z') ==> unicode::ascii_upper(c) == c,
        unicode::ascii_upper(unicode::ascii_upper(c)) == unicode::ascii_upper(c),
{
}

} // verus!
