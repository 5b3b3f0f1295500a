//! Rendering a recipe for a person to read. Everything here escapes what it
//! prints: a recipe may come from inside a box, and must not repaint the page
//! it is approved on.

use crate::config::{Config, ConfigView, DnsView, Mount, MountView, StaticDnsRecord};
use crate::error::{self, Error};

use crate::network;
use crate::ordered;
use crate::text::{self, chars_of, join_texts, spell, text_between};
use crate::unicode::{self, escape_debug, is_ascii_alphanumeric};
use vstd::prelude::*;

pub mod laws;

verus! {

/// A write to standard output that failed.
#[derive(Debug)]
pub struct WriteFailure {
    pub is_broken_pipe: bool,
    pub message: String,
}

/// A reader that went away is told apart from every other failure.
pub fn finish_stdout_write(result: Result<(), WriteFailure>) -> (finished: Result<(), Error>)
    ensures
        match result {
            Ok(_) => finished is Ok,
            Err(failure) => {
                &&& finished is Err
                &&& finished->Err_0.marks_closed_stdout() == failure.is_broken_pipe
                &&& finished->Err_0@ == error::refusal(
                    if failure.is_broken_pipe { "stdout reader closed"@ } else { failure.message@ },
                )
            },
        },
{
    match result {
        Ok(_) => Ok(()),
        Err(failure) => if failure.is_broken_pipe {
            Err(Error::stdout_reader_closed())
        } else {
            Err(Error::new(failure.message))
        },
    }
}

/// The quotes and the backslash say nothing to a terminal.
pub open spec fn kept_as_typed(c: char) -> bool {
    unicode::quoting(c)
}

/// Where the first character to keep stands, else the length.
pub open spec fn first_kept(text: Seq<char>) -> int
    decreases text.len(),
{
    if text.len() == 0 || kept_as_typed(text[0]) {
        0
    } else {
        1 + first_kept(text.drop_first())
    }
}

proof fn lemma_first_kept(text: Seq<char>)
    ensures
        0 <= first_kept(text) <= text.len(),
        unicode::unquoted(text.take(first_kept(text))),
        first_kept(text) < text.len() ==> kept_as_typed(text[first_kept(text)]),
    decreases text.len(),
{
    if text.len() > 0 && !kept_as_typed(text[0]) {
        let rest = text.drop_first();
        lemma_first_kept(rest);
        let before = text.take(first_kept(text));
        assert forall|i: int| 0 <= i < before.len() implies !unicode::quoting(#[trigger] before[i]) by {
            if i > 0 {
                assert(before[i] == rest.take(first_kept(rest))[i - 1]);
            }
        }
    }
}

/// Joining texts behind a quote or a backslash joins no stretches.
proof fn lemma_stays_put_add(a: Seq<char>, b: Seq<char>)
    requires
        a.len() > 0 ==> unicode::stays_put(a) && unicode::quoting(a.last()),
        unicode::stays_put(b),
    ensures
        unicode::stays_put(a + b),
{
    let all = a + b;
    let n = a.len() as int;
    assert forall|from: int, to: int| unicode::is_stretch(all, from, to) implies unicode::escaped(
        #[trigger] all.subrange(from, to),
    ) == all.subrange(from, to) by {
        let stretch = all.subrange(from, to);
        if from >= n {
            assert(stretch =~= b.subrange(from - n, to - n));
            assert(from > n ==> all[from - 1] == b[from - 1 - n]);
            assert(to < all.len() ==> all[to] == b[to - n]);
            assert(unicode::is_stretch(b, from - n, to - n));
        } else {
            if to >= n {
                assert(stretch[n - 1 - from] == a.last());
            }
            assert(stretch =~= a.subrange(from, to));
            assert(all[to] == a[to]);
            assert(from > 0 ==> all[from - 1] == a[from - 1]);
            assert(unicode::is_stretch(a, from, to));
        }
    }
}

proof fn lemma_stays_put_push(text: Seq<char>, c: char)
    requires
        unicode::stays_put(text),
        unicode::quoting(c),
    ensures
        unicode::stays_put(text.push(c)),
{
    let all = text.push(c);
    let n = text.len() as int;
    assert forall|from: int, to: int| unicode::is_stretch(all, from, to) implies unicode::escaped(
        #[trigger] all.subrange(from, to),
    ) == all.subrange(from, to) by {
        let stretch = all.subrange(from, to);
        if to > n {
            assert(stretch[n - from] == c);
        }
        assert(stretch =~= text.subrange(from, to));
        assert(unicode::is_stretch(text, from, to));
    }
}

/// What stays put is shown as it is.
proof fn lemma_shown_again(text: Seq<char>)
    requires
        unicode::stays_put(text),
    ensures
        printable(text) == text,
    decreases text.len(),
{
    let at = first_kept(text);
    lemma_first_kept(text);
    assert(text.take(at) =~= text.subrange(0, at));
    if at > 0 {
        assert(unicode::is_stretch(text, 0, at));
    } else {
        assert(text.take(at) =~= Seq::empty());
    }
    if at >= text.len() {
        assert(text.take(at) =~= text);
    } else {
        let rest = text.skip(at + 1);
        assert forall|from: int, to: int| unicode::is_stretch(rest, from, to) implies unicode::escaped(
            #[trigger] rest.subrange(from, to),
        ) == rest.subrange(from, to) by {
            let stretch = text.subrange(from + at + 1, to + at + 1);
            assert(rest.subrange(from, to) =~= stretch);
            assert(from > 0 ==> rest[from - 1] == text[from + at]);
            assert(to < rest.len() ==> rest[to] == text[to + at + 1]);
            assert(unicode::is_stretch(text, from + at + 1, to + at + 1));
        }
        lemma_shown_again(rest);
        assert(text =~= text.take(at).push(text[at]) + rest);
    }
}

/// A text as it is shown: quotes and backslashes as they were typed, what
/// stands between them escaped.
pub open spec fn printable(text: Seq<char>) -> Seq<char>
    decreases text.len(),
    via printable_decreases
{
    let at = first_kept(text);
    if at >= text.len() {
        unicode::escaped(text)
    } else {
        unicode::escaped(text.take(at)).push(text[at]) + printable(text.skip(at + 1))
    }
}

#[via_fn]
proof fn printable_decreases(text: Seq<char>) {
    lemma_first_kept(text);
}

/// Whether nothing in a text acts on a terminal.
pub open spec fn harmless(text: Seq<char>) -> bool {
    forall|i: int| 0 <= i < text.len() ==> !unicode::control(#[trigger] text[i])
}

/// Whether a text is printable ASCII throughout.
pub open spec fn plain(text: Seq<char>) -> bool {
    forall|i: int| 0 <= i < text.len() ==> 0x20 <= (#[trigger] text[i]) as u32 <= 0x7e
}

/// Whether a text is ordinary throughout: quotes, backslashes, and what no
/// escape is written for.
pub open spec fn ordinary(text: Seq<char>) -> bool {
    forall|i: int|
        0 <= i < text.len() ==> kept_as_typed(#[trigger] text[i]) || unicode::unescaped(text[i])
}

/// Whether the only thing a text does to a terminal is to end lines.
pub open spec fn tame(text: Seq<char>) -> bool {
    forall|i: int| 0 <= i < text.len() ==> (unicode::control(#[trigger] text[i]) ==> text[i] == '\n')
}

proof fn lemma_tame_add(a: Seq<char>, b: Seq<char>)
    requires
        tame(a),
        tame(b),
    ensures
        tame(a + b),
{
    assert forall|i: int| 0 <= i < (a + b).len() && unicode::control(#[trigger] (a + b)[i]) implies (a
        + b)[i] == '\n' by {
        if i < a.len() {
            assert((a + b)[i] == a[i]);
        } else {
            assert((a + b)[i] == b[i - a.len()]);
        }
    }
}

/// How many lines a text ends.
pub open spec fn line_ends(text: Seq<char>) -> nat
    decreases text.len(),
{
    if text.len() == 0 {
        0
    } else {
        line_ends(text.drop_last()) + if text.last() == '\n' {
            1nat
        } else {
            0nat
        }
    }
}

proof fn lemma_line_ends_add(a: Seq<char>, b: Seq<char>)
    ensures
        line_ends(a + b) == line_ends(a) + line_ends(b),
    decreases b.len(),
{
    if b.len() == 0 {
        assert(a + b =~= a);
    } else {
        lemma_line_ends_add(a, b.drop_last());
        assert((a + b).drop_last() =~= a + b.drop_last());
    }
}

proof fn lemma_harmless_ends_no_line(text: Seq<char>)
    requires
        harmless(text),
    ensures
        line_ends(text) == 0,
    decreases text.len(),
{
    if text.len() > 0 {
        assert(!unicode::control(text[text.len() - 1]));
        assert forall|i: int| 0 <= i < text.drop_last().len() implies !unicode::control(
            #[trigger] text.drop_last()[i],
        ) by {
            assert(text.drop_last()[i] == text[i]);
        }
        lemma_harmless_ends_no_line(text.drop_last());
    }
}

proof fn lemma_one_line(text: Seq<char>)
    requires
        text.len() > 0,
        text.last() == '\n',
        harmless(text.drop_last()),
    ensures
        line_ends(text) == 1,
{
    lemma_harmless_ends_no_line(text.drop_last());
}

broadcast proof fn lemma_harmless_add(a: Seq<char>, b: Seq<char>)
    requires
        harmless(a),
        harmless(b),
    ensures
        #[trigger] harmless(a + b),
{
    assert forall|i: int| 0 <= i < (a + b).len() implies !unicode::control(#[trigger] (a + b)[i]) by {
        if i < a.len() {
            assert((a + b)[i] == a[i]);
        } else {
            assert((a + b)[i] == b[i - a.len()]);
        }
    }
}

proof fn lemma_decimal_ends_no_line(n: nat)
    ensures
        line_ends(text::decimal(n)) == 0,
{
    text::lemma_decimal_round_trip(n);
    assert(harmless(text::decimal(n)));
    lemma_harmless_ends_no_line(text::decimal(n));
}

proof fn lemma_tame_decimal(n: nat)
    ensures
        tame(text::decimal(n)),
{
    text::lemma_decimal_round_trip(n);
}

proof fn lemma_posture_tame(net: crate::config::NetworkView)
    ensures
        tame(network::posture(net)),
        line_ends(network::posture(net)) == 0,
{
    reveal_strlit("unrestricted-public (public egress only)");
    reveal_strlit("unrestricted-public (public egress + listed rules)");
    reveal_strlit("none (allowlist with no rules - nothing gets out, not even DNS)");
    reveal_strlit(
        "none (allowlist with no allow rules - the hosts: records resolve, and nothing is reachable)",
    );
    reveal_strlit("allowlist active (deny by default)");
    assert(harmless(network::posture(net)));
    lemma_harmless_ends_no_line(network::posture(net));
}

/// Control characters, and the format characters that reorder what they stand
/// in, come out as an escape; ordinary text, be it ASCII or not, is untouched,
/// and so is what was escaped already.
#[must_use]
pub fn escape_printable(text: &str) -> (shown: String)
    ensures
        shown@ == printable(text@),
        harmless(shown@),
        plain(text@) ==> shown@ == text@,
        ordinary(text@) ==> shown@ == text@,
        printable(shown@) == shown@,
{
    let chars = chars_of(text);
    let n: usize = chars.len();
    let mut out: String = String::new();
    let mut from: usize = 0;
    let mut at: usize = 0;
    proof {
        assert(text@.skip(0) =~= text@);
        assert(out@ + printable(text@) =~= printable(text@));
        assert(text@.take(0) =~= Seq::empty());
    }
    while at < n
        invariant
            from <= at <= n,
            n == chars@.len(),
            chars@ == text@,
            out@ + printable(text@.skip(from as int)) == printable(text@),
            harmless(out@),
            ordinary(text@) ==> out@ == text@.take(from as int),
            out@.len() > 0 ==> unicode::stays_put(out@) && kept_as_typed(out@.last()),
            first_kept(text@.skip(from as int)) == at - from + first_kept(text@.skip(at as int)),
            forall|i: int| from <= i < at ==> !kept_as_typed(#[trigger] text@[i]),
        decreases n - at,
    {
        let c: char = chars[at];
        proof {
            assert(text@.skip(at as int)[0] == c);
            assert(text@.skip(at as int).drop_first() =~= text@.skip(at + 1));
        }
        if c == '\'' || c == '"' || c == '\\' {
            let segment = text_between(&chars, from, at);
            let shown = escape_debug(segment.as_str());
            let ghost before = out@;
            proof {
                let rest = text@.skip(from as int);
                assert(segment@ =~= rest.take(at - from));
                assert(rest.skip(at - from + 1) =~= text@.skip(at + 1));
                assert(rest[at - from] == c);
                assert(printable(rest) == unicode::escaped(rest.take(at - from)).push(c) + printable(
                    rest.skip(at - from + 1),
                ));
                assert forall|i: int| 0 <= i < segment@.len() implies !unicode::quoting(
                    #[trigger] segment@[i],
                ) && (ordinary(text@) ==> unicode::unescaped(segment@[i])) by {
                    assert(segment@[i] == text@[from + i]);
                }
                lemma_stays_put_add(out@, shown@);
                lemma_stays_put_push(out@ + shown@, c);
            }
            out.append(shown.as_str());
            out.push(c);
            proof {
                assert(out@ + printable(text@.skip(at + 1)) =~= before + (shown@.push(c)
                    + printable(text@.skip(at + 1))));
                assert(harmless(out@)) by {
                    assert forall|i: int| 0 <= i < out@.len() implies !unicode::control(
                        #[trigger] out@[i],
                    ) by {
                        if i < before.len() {
                            assert(out@[i] == before[i]);
                        } else if i < before.len() + shown@.len() {
                            assert(out@[i] == shown@[i - before.len()]);
                        }
                    }
                }
                assert(out@ =~= (before + shown@).push(c));
                if ordinary(text@) {
                    assert(out@ =~= text@.take(at + 1));
                }
            }
            from = at + 1;
        }
        at = at + 1;
        proof {
            if from == at {
                assert(first_kept(text@.skip(from as int)) == first_kept(text@.skip(at as int)));
            }
        }
    }
    let segment = text_between(&chars, from, n);
    let shown = escape_debug(segment.as_str());
    let ghost before = out@;
    out.append(shown.as_str());
    proof {
        assert(text@.skip(n as int) =~= Seq::empty());
        assert(segment@ =~= text@.skip(from as int));
        assert(first_kept(text@.skip(from as int)) == n - from);
        assert(printable(text@.skip(from as int)) == unicode::escaped(segment@));
        assert forall|i: int| 0 <= i < out@.len() implies !unicode::control(#[trigger] out@[i]) by {
            if i < before.len() {
                assert(out@[i] == before[i]);
            } else {
                assert(out@[i] == shown@[i - before.len()]);
            }
        }
        assert forall|i: int| 0 <= i < segment@.len() implies !unicode::quoting(#[trigger] segment@[i])
            && (ordinary(text@) ==> unicode::unescaped(segment@[i])) by {
            assert(segment@[i] == text@[from + i]);
        }
        if ordinary(text@) {
            assert(out@ =~= text@);
        }
        assert(plain(text@) ==> ordinary(text@));
        lemma_stays_put_add(before, shown@);
        lemma_shown_again(out@);
    }
    out
}

/// A path as it is shown.
#[must_use]
pub fn escape_printable_path(path: &str) -> (shown: String)
    ensures
        shown@ == printable(path@),
        harmless(shown@),
{
    escape_printable(path)
}

/// What stands for the value of a variable that is set.
pub const REDACTED_ENV_VALUE: &'static str = "(set - value not printable)";

/// The recipe with the names of its variables and none of their values.
#[must_use]
pub fn redact_config_env(cfg: &Config) -> (redacted: Config)
    ensures
        redacted@ == (ConfigView {
            env: ordered::with_every_value(cfg@.env, "(set - value not printable)"@),
            ..cfg@
        }),
{
    cfg.with_env(cfg.env.set_every_value("(set - value not printable)"))
}

/// Two recipes that differ in the values of their variables alone are shown
/// alike: nothing of a value is left after redaction.
pub proof fn redaction_forgets_values(
    a: Seq<(Seq<char>, Seq<char>)>,
    b: Seq<(Seq<char>, Seq<char>)>,
    shown: Seq<char>,
)
    requires
        a.len() == b.len(),
        forall|i: int| 0 <= i < a.len() ==> (#[trigger] a[i]).0 == b[i].0,
    ensures
        ordered::with_every_value(a, shown) == ordered::with_every_value(b, shown),
        forall|i: int| 0 <= i < a.len() ==> (#[trigger] ordered::with_every_value(a, shown)[i]).0 == a[i].0,
{
    assert(ordered::with_every_value(a, shown) =~= ordered::with_every_value(b, shown));
}

/// Whether no shell reads anything into a character.
pub open spec fn bare(c: char) -> bool {
    unicode::ascii_alphanumeric(c) || c == '.' || c == '_' || c == '-' || c == '/' || c == '=' || c == ':'
        || c == '+' || c == '@' || c == ','
}

/// A text inside single quotes, which an embedded quote leaves and re-enters.
pub open spec fn requoted(text: Seq<char>) -> Seq<char>
    decreases text.len(),
{
    if text.len() == 0 {
        Seq::empty()
    } else if text.last() == '\'' {
        requoted(text.drop_last()) + seq!['\'', '\\', '\'', '\'']
    } else {
        requoted(text.drop_last()).push(text.last())
    }
}

/// A text as one word of a shell command.
pub open spec fn shell_word(text: Seq<char>) -> Seq<char> {
    if text.len() > 0 && (forall|i: int| 0 <= i < text.len() ==> bare(#[trigger] text[i])) {
        text
    } else {
        seq!['\''] + requoted(text) + seq!['\'']
    }
}

fn all_bare(chars: &Vec<char>) -> (yes: bool)
    ensures
        yes == forall|i: int| 0 <= i < chars@.len() ==> bare(#[trigger] chars@[i]),
{
    let mut i: usize = 0;
    while i < chars.len()
        invariant
            i <= chars@.len(),
            forall|j: int| 0 <= j < i ==> bare(#[trigger] chars@[j]),
        decreases chars.len() - i,
    {
        let c: char = chars[i];
        if !(is_ascii_alphanumeric(c) || c == '.' || c == '_' || c == '-' || c == '/' || c == '='
            || c == ':' || c == '+' || c == '@' || c == ',') {
            proof {
                assert(!bare(chars@[i as int]));
            }
            return false;
        }
        i = i + 1;
    }
    true
}

/// Quoted where a shell would split or read it.
#[must_use]
pub fn quote_shell_word(text: &str) -> (word: String)
    ensures
        word@ == shell_word(text@),
{
    let chars = chars_of(text);
    if chars.len() > 0 && all_bare(&chars) {
        return text.to_owned();
    }
    let mut word: String = String::new();
    word.push('\'');
    let mut i: usize = 0;
    proof {
        assert(text@.take(0) =~= Seq::empty());
        assert(word@ =~= seq!['\''] + requoted(text@.take(0)));
    }
    while i < chars.len()
        invariant
            i <= chars@.len(),
            chars@ == text@,
            word@ == seq!['\''] + requoted(text@.take(i as int)),
        decreases chars.len() - i,
    {
        let c: char = chars[i];
        let ghost before = word@;
        proof {
            assert(text@.take(i + 1).drop_last() =~= text@.take(i as int));
        }
        if c == '\'' {
            word.push('\'');
            word.push('\\');
            word.push('\'');
            word.push('\'');
            proof {
                assert(word@ =~= seq!['\''] + requoted(text@.take(i + 1)));
            }
        } else {
            word.push(c);
            proof {
                assert(word@ =~= seq!['\''] + requoted(text@.take(i + 1)));
            }
        }
        i = i + 1;
    }
    proof {
        assert(text@.take(i as int) =~= text@);
    }
    word.push('\'');
    proof {
        assert(word@ =~= seq!['\''] + requoted(text@) + seq!['\'']);
    }
    word
}

/// What a POSIX shell reads a word as: everything between single quotes as it
/// stands, the character behind a backslash, and every bare character; a word
/// with anything else, or an open quote, is not read here.
pub open spec fn shell_reads(word: Seq<char>, quoted: bool) -> Option<Seq<char>>
    decreases word.len(),
{
    if word.len() == 0 {
        if quoted { None } else { Some(Seq::empty()) }
    } else if word[0] == '\'' {
        shell_reads(word.drop_first(), !quoted)
    } else if quoted || bare(word[0]) {
        match shell_reads(word.drop_first(), quoted) {
            Some(rest) => Some(seq![word[0]] + rest),
            None => None,
        }
    } else if word[0] == '\\' && word.len() >= 2 {
        match shell_reads(word.skip(2), false) {
            Some(rest) => Some(seq![word[1]] + rest),
            None => None,
        }
    } else {
        None
    }
}

proof fn lemma_shell_reads_requoted(text: Seq<char>, tail: Seq<char>)
    ensures
        shell_reads(requoted(text) + tail, true) == (match shell_reads(tail, true) {
            Some(rest) => Some(text + rest),
            None => None,
        }),
    decreases text.len(),
{
    if text.len() == 0 {
        assert(requoted(text) + tail =~= tail);
        if let Some(rest) = shell_reads(tail, true) {
            assert(text + rest =~= rest);
        }
    } else {
        let init = text.drop_last();
        let c = text.last();
        if c == '\'' {
            let w = seq!['\'', '\\', '\'', '\''] + tail;
            assert(requoted(text) + tail =~= requoted(init) + w);
            lemma_shell_reads_requoted(init, w);
            let w1 = w.drop_first();
            assert(w1 =~= seq!['\\', '\'', '\''] + tail);
            assert(w1.skip(2) =~= seq!['\''] + tail);
            assert(w1.skip(2).drop_first() =~= tail);
            assert(shell_reads(w, true) == shell_reads(w1, false));
            assert(shell_reads(w1.skip(2), false) == shell_reads(tail, true));
            if let Some(rest) = shell_reads(tail, true) {
                assert(init + (seq!['\''] + rest) =~= text + rest);
            }
        } else {
            let w = seq![c] + tail;
            assert(requoted(text) + tail =~= requoted(init) + w);
            lemma_shell_reads_requoted(init, w);
            assert(w.drop_first() =~= tail);
            if let Some(rest) = shell_reads(tail, true) {
                assert(init + (seq![c] + rest) =~= text + rest);
            }
        }
    }
}

proof fn lemma_shell_reads_bare(text: Seq<char>)
    requires
        forall|i: int| 0 <= i < text.len() ==> bare(#[trigger] text[i]),
    ensures
        shell_reads(text, false) == Some(text),
    decreases text.len(),
{
    if text.len() > 0 {
        let rest = text.drop_first();
        assert(bare(text[0]));
        assert forall|i: int| 0 <= i < rest.len() implies bare(#[trigger] rest[i]) by {
            assert(rest[i] == text[i + 1]);
        }
        lemma_shell_reads_bare(rest);
        assert(seq![text[0]] + rest =~= text);
    } else {
        assert(text =~= Seq::empty());
    }
}

/// A word of a printed command survives the shell it is pasted into.
pub proof fn shell_words_are_read_back(text: Seq<char>)
    ensures
        shell_reads(shell_word(text), false) == Some(text),
{
    if text.len() > 0 && (forall|i: int|
        0 <= i < text.len() ==> bare(#[trigger] text[i])) {
        lemma_shell_reads_bare(text);
    } else {
        let quote = seq!['\''];
        let word = quote + requoted(text) + quote;
        assert(shell_word(text) == word);
        assert(word.drop_first() =~= requoted(text) + quote);
        assert(quote.drop_first() =~= Seq::<char>::empty());
        assert(shell_reads(quote.drop_first(), false) == Some(Seq::<char>::empty()));
        assert(shell_reads(quote, true) == Some(Seq::<char>::empty()));
        lemma_shell_reads_requoted(text, quote);
        assert(text + Seq::<char>::empty() =~= text);
    }
}

/// A mount as a line: where it appears, what it shows, and how.
pub open spec fn mount_line(mount: MountView) -> Seq<char> {
    printable(mount.guest) + " <- "@ + printable(mount.host) + (if mount.readonly {
        " (ro)"@
    } else {
        " (rw)"@
    })
}

#[must_use]
pub fn format_mount_line(m: &Mount) -> (line: String)
    ensures
        line@ == mount_line(m@),
        harmless(line@),
{
    broadcast use lemma_harmless_add;

    proof {
        reveal_strlit(" <- ");
        reveal_strlit(" (ro)");
        reveal_strlit(" (rw)");
        assert(harmless(" <- "@));
        assert(harmless(" (ro)"@));
        assert(harmless(" (rw)"@));
    }
    let mut line = escape_printable_path(m.guest.as_str());
    line.append(" <- ");
    line.append(escape_printable_path(m.host.as_str()).as_str());
    if m.readonly {
        line.append(" (ro)");
    } else {
        line.append(" (rw)");
    }
    line
}

/// A list of texts as they are shown, each behind a space.
pub open spec fn spaced(args: Seq<Seq<char>>) -> Seq<char>
    decreases args.len(),
{
    if args.len() == 0 {
        Seq::empty()
    } else {
        spaced(args.drop_last()).push(' ') + printable(args.last())
    }
}

/// The workload as one command line, for a screen and never for a shell.
pub open spec fn workload_line(cfg: ConfigView) -> Seq<char> {
    printable(cfg.workload.entrypoint) + spaced(cfg.workload.args)
}

#[must_use]
pub fn format_workload_line(cfg: &Config) -> (line: String)
    ensures
        line@ == workload_line(cfg@),
        harmless(line@),
{
    let mut line = escape_printable_path(cfg.workload.entrypoint.as_str());
    let ghost start = line@;
    let args = &cfg.workload.args;
    let mut i: usize = 0;
    proof {
        assert(line@ =~= start + spaced(text::texts(args@).take(0)));
    }
    while i < args.len()
        invariant
            i <= args@.len(),
            line@ == start + spaced(text::texts(args@).take(i as int)),
            harmless(line@),
        decreases args.len() - i,
    {
        let ghost before = line@;
        line.push(' ');
        let shown = escape_printable(args[i].as_str());
        line.append(shown.as_str());
        proof {
            let next = text::texts(args@).take(i + 1);
            assert(next.drop_last() =~= text::texts(args@).take(i as int));
            assert(next.last() == args@[i as int]@);
            assert(line@ =~= start + spaced(next));
            assert forall|j: int| 0 <= j < line@.len() implies !unicode::control(
                #[trigger] line@[j],
            ) by {
                if j < before.len() {
                    assert(line@[j] == before[j]);
                } else if j > before.len() {
                    assert(line@[j] == shown@[j - before.len() - 1]);
                }
            }
        }
        i = i + 1;
    }
    proof {
        assert(text::texts(args@).take(i as int) =~= text::texts(args@));
    }
    line
}

/// One line for each text, shown behind a label and before an ending.
pub open spec fn labelled(label: Seq<char>, items: Seq<Seq<char>>, end: Seq<char>) -> Seq<char>
    decreases items.len(),
{
    if items.len() == 0 {
        Seq::empty()
    } else {
        labelled(label, items.drop_last(), end) + label + printable(items.last()) + end
    }
}

/// Puts a part behind a page.
fn add_part(out: &mut String, part: &str)
    ensures
        final(out)@ == old(out)@ + part@,
        tame(old(out)@) && tame(part@) ==> tame(final(out)@),
        line_ends(final(out)@) == line_ends(old(out)@) + line_ends(part@),
        harmless(part@) ==> line_ends(final(out)@) == line_ends(old(out)@),
{
    let ghost start = out@;
    out.append(part);
    proof {
        if tame(start) && tame(part@) {
            lemma_tame_add(start, part@);
        }
        lemma_line_ends_add(start, part@);
        if harmless(part@) {
            lemma_harmless_ends_no_line(part@);
        }
    }
}

/// Puts a number behind a page.
fn add_number(out: &mut String, n: u64)
    ensures
        final(out)@ == old(out)@ + text::decimal(n as nat),
        tame(old(out)@) ==> tame(final(out)@),
        line_ends(final(out)@) == line_ends(old(out)@),
{
    proof {
        lemma_tame_decimal(n as nat);
        lemma_decimal_ends_no_line(n as nat);
    }
    add_part(out, spell(n).as_str());
}

fn append_labelled(out: &mut String, label: &str, items: &Vec<String>, end: &str)
    ensures
        final(out)@ == old(out)@ + labelled(label@, text::texts(items@), end@),
        tame(old(out)@) && tame(label@) && tame(end@) ==> tame(final(out)@),
        line_ends(label@) == 0 && line_ends(end@) == 1 ==> line_ends(final(out)@) == line_ends(
            old(out)@,
        ) + items@.len(),
{
    let mut i: usize = 0;
    let ghost start = out@;
    proof {
        assert(out@ =~= start + labelled(label@, text::texts(items@).take(0), end@));
    }
    while i < items.len()
        invariant
            i <= items@.len(),
            out@ == start + labelled(label@, text::texts(items@).take(i as int), end@),
            tame(start) && tame(label@) && tame(end@) ==> tame(out@),
            line_ends(label@) == 0 && line_ends(end@) == 1 ==> line_ends(out@) == line_ends(start)
                + i,
        decreases items.len() - i,
    {
        add_part(out, label);
        let shown = escape_printable(items[i].as_str());
        add_part(out, shown.as_str());
        add_part(out, end);
        proof {
            let next = text::texts(items@).take(i + 1);
            assert(next.drop_last() =~= text::texts(items@).take(i as int));
            assert(next.last() == items@[i as int]@);
            assert(out@ =~= start + labelled(label@, next, end@));
        }
        i = i + 1;
    }
    proof {
        assert(text::texts(items@).take(i as int) =~= text::texts(items@));
    }
}

/// A line for each mount.
pub open spec fn mount_lines(mounts: Seq<MountView>) -> Seq<char>
    decreases mounts.len(),
{
    if mounts.len() == 0 {
        Seq::empty()
    } else {
        mount_lines(mounts.drop_last()) + "  mount:    "@ + mount_line(mounts.last()) + "\n"@
    }
}

/// A line for each static record.
pub open spec fn dns_lines(hosts: Seq<DnsView>) -> Seq<char>
    decreases hosts.len(),
{
    if hosts.len() == 0 {
        Seq::empty()
    } else {
        dns_lines(hosts.drop_last()) + "  dns:      "@ + printable(hosts.last().name) + " -> "@
            + printable(hosts.last().addr) + "\n"@
    }
}

fn append_mounts(out: &mut String, mounts: &Vec<Mount>)
    ensures
        final(out)@ == old(out)@ + mount_lines(text::views(mounts@)),
        tame(old(out)@) ==> tame(final(out)@),
        line_ends(final(out)@) == line_ends(old(out)@) + mounts@.len(),
{
    proof {
        reveal_strlit("  mount:    ");
        reveal_strlit("\n");
        assert(tame("  mount:    "@));
        assert(tame("\n"@));
        assert(harmless("  mount:    "@));
        lemma_one_line("\n"@);
    }
    let mut i: usize = 0;
    let ghost start = out@;
    proof {
        assert(out@ =~= start + mount_lines(text::views(mounts@).take(0)));
    }
    while i < mounts.len()
        invariant
            i <= mounts@.len(),
            out@ == start + mount_lines(text::views(mounts@).take(i as int)),
            tame("  mount:    "@),
            tame("\n"@),
            harmless("  mount:    "@),
            line_ends("\n"@) == 1,
            line_ends(out@) == line_ends(start) + i,
            tame(start) ==> tame(out@),
        decreases mounts.len() - i,
    {
        add_part(out, "  mount:    ");
        let line = format_mount_line(&mounts[i]);
        add_part(out, line.as_str());
        add_part(out, "\n");
        proof {
            let next = text::views(mounts@).take(i + 1);
            assert(next.drop_last() =~= text::views(mounts@).take(i as int));
            assert(next.last() == mounts@[i as int]@);
            assert(out@ =~= start + mount_lines(next));
        }
        i = i + 1;
    }
    proof {
        assert(text::views(mounts@).take(i as int) =~= text::views(mounts@));
    }
}

fn append_hosts(out: &mut String, hosts: &Vec<StaticDnsRecord>)
    ensures
        final(out)@ == old(out)@ + dns_lines(text::views(hosts@)),
        tame(old(out)@) ==> tame(final(out)@),
        line_ends(final(out)@) == line_ends(old(out)@) + hosts@.len(),
{
    proof {
        reveal_strlit("  dns:      ");
        reveal_strlit(" -> ");
        reveal_strlit("\n");
        assert(tame("  dns:      "@));
        assert(tame(" -> "@));
        assert(tame("\n"@));
        assert(harmless("  dns:      "@));
        lemma_one_line("\n"@);
        assert(harmless(" -> "@));
    }
    let mut i: usize = 0;
    let ghost start = out@;
    proof {
        assert(out@ =~= start + dns_lines(text::views(hosts@).take(0)));
    }
    while i < hosts.len()
        invariant
            i <= hosts@.len(),
            out@ == start + dns_lines(text::views(hosts@).take(i as int)),
            tame("  dns:      "@),
            tame(" -> "@),
            tame("\n"@),
            harmless("  dns:      "@),
            line_ends("\n"@) == 1,
            line_ends(out@) == line_ends(start) + i,
            harmless(" -> "@),
            tame(start) ==> tame(out@),
        decreases hosts.len() - i,
    {
        add_part(out, "  dns:      ");
        let name = escape_printable(hosts[i].name.as_str());
        add_part(out, name.as_str());
        add_part(out, " -> ");
        let addr = escape_printable(hosts[i].addr.as_str());
        add_part(out, addr.as_str());
        add_part(out, "\n");
        proof {
            let next = text::views(hosts@).take(i + 1);
            assert(next.drop_last() =~= text::views(hosts@).take(i as int));
            assert(next.last() == hosts@[i as int]@);
            assert(out@ =~= start + dns_lines(next));
        }
        i = i + 1;
    }
    proof {
        assert(text::views(hosts@).take(i as int) =~= text::views(hosts@));
    }
}

/// The page a recipe is approved on: its hardware, what it reaches, what it
/// shares, and everything it runs.
pub open spec fn policy_summary(cfg: ConfigView) -> Seq<char> {
    "  hardware: "@ + text::decimal(cfg.hw.cpus as nat) + " vCPU, "@ + text::decimal(cfg.hw.mem_mib as nat)
        + " MiB RAM, "@ + text::decimal(cfg.hw.rootfs_mib as nat) + " MiB rootfs\n"@ + "  components: "@
        + text::decimal(cfg.components.memory_mib as nat) + " MiB each\n"@ + (match cfg.components.network {
        Some(network) => "  network component: "@ + text::decimal(network.memory_mib as nat) + " MiB\n"@,
        None => Seq::empty(),
    }) + "  egress:   "@ + network::posture(cfg.network) + "\n"@ + labelled(
        "  allow:    "@,
        cfg.network.allow,
        "\n"@,
    ) + (if cfg.mounts.len() == 0 {
        "  mounts:   none\n"@
    } else {
        mount_lines(cfg.mounts)
    }) + (match cfg.env_file {
        Some(file) => "  env_file: "@ + printable(file) + "\n"@,
        None => Seq::empty(),
    }) + labelled("  publish:  127.0.0.1 -> guest ("@, cfg.network.ports, ")\n"@) + dns_lines(
        cfg.network.hosts,
    ) + (if cfg.sudo.len() == 0 {
        Seq::empty()
    } else {
        "  sudo:     "@ + printable(text::joined(cfg.sudo, ", "@)) + "\n"@
    }) + labelled("  as root:  "@, cfg.hooks.on_create, "\n"@) + labelled(
        "  as root:  "@,
        cfg.hooks.on_start,
        "\n"@,
    ) + labelled("  as root:  "@, cfg.hooks.pre_stop, "\n"@) + labelled(
        "  daemon:   "@,
        cfg.daemons,
        "\n"@,
    ) + "  workload: "@ + workload_line(cfg)
}

proof fn lemma_labels()
    ensures
        tame("  hardware: "@),
        tame(" vCPU, "@),
        tame(" MiB RAM, "@),
        tame(" MiB rootfs\n"@),
        tame("  components: "@),
        tame(" MiB each\n"@),
        tame("  network component: "@),
        tame(" MiB\n"@),
        tame("  egress:   "@),
        tame("\n"@),
        tame("  allow:    "@),
        tame("  mounts:   none\n"@),
        tame("  env_file: "@),
        tame("  publish:  127.0.0.1 -> guest ("@),
        tame(")\n"@),
        tame("  sudo:     "@),
        tame("  as root:  "@),
        tame("  daemon:   "@),
        tame("  workload: "@),
        line_ends("  hardware: "@) == 0,
        line_ends(" vCPU, "@) == 0,
        line_ends(" MiB RAM, "@) == 0,
        line_ends("  components: "@) == 0,
        line_ends("  network component: "@) == 0,
        line_ends("  egress:   "@) == 0,
        line_ends("  allow:    "@) == 0,
        line_ends("  env_file: "@) == 0,
        line_ends("  publish:  127.0.0.1 -> guest ("@) == 0,
        line_ends("  sudo:     "@) == 0,
        line_ends("  as root:  "@) == 0,
        line_ends("  daemon:   "@) == 0,
        line_ends("  workload: "@) == 0,
        line_ends(" MiB rootfs\n"@) == 1,
        line_ends(" MiB each\n"@) == 1,
        line_ends(" MiB\n"@) == 1,
        line_ends("\n"@) == 1,
        line_ends("  mounts:   none\n"@) == 1,
        line_ends(")\n"@) == 1,
{
    reveal_strlit("  hardware: ");
    reveal_strlit(" vCPU, ");
    reveal_strlit(" MiB RAM, ");
    reveal_strlit(" MiB rootfs\n");
    reveal_strlit("  components: ");
    reveal_strlit(" MiB each\n");
    reveal_strlit("  network component: ");
    reveal_strlit(" MiB\n");
    reveal_strlit("  egress:   ");
    reveal_strlit("\n");
    reveal_strlit("  allow:    ");
    reveal_strlit("  mounts:   none\n");
    reveal_strlit("  env_file: ");
    reveal_strlit("  publish:  127.0.0.1 -> guest (");
    reveal_strlit(")\n");
    reveal_strlit("  sudo:     ");
    reveal_strlit("  as root:  ");
    reveal_strlit("  daemon:   ");
    reveal_strlit("  workload: ");
    assert(harmless("  hardware: "@));
    lemma_harmless_ends_no_line("  hardware: "@);
    assert(harmless(" vCPU, "@));
    lemma_harmless_ends_no_line(" vCPU, "@);
    assert(harmless(" MiB RAM, "@));
    lemma_harmless_ends_no_line(" MiB RAM, "@);
    assert(harmless("  components: "@));
    lemma_harmless_ends_no_line("  components: "@);
    assert(harmless("  network component: "@));
    lemma_harmless_ends_no_line("  network component: "@);
    assert(harmless("  egress:   "@));
    lemma_harmless_ends_no_line("  egress:   "@);
    assert(harmless("  allow:    "@));
    lemma_harmless_ends_no_line("  allow:    "@);
    assert(harmless("  env_file: "@));
    lemma_harmless_ends_no_line("  env_file: "@);
    assert(harmless("  publish:  127.0.0.1 -> guest ("@));
    lemma_harmless_ends_no_line("  publish:  127.0.0.1 -> guest ("@);
    assert(harmless("  sudo:     "@));
    lemma_harmless_ends_no_line("  sudo:     "@);
    assert(harmless("  as root:  "@));
    lemma_harmless_ends_no_line("  as root:  "@);
    assert(harmless("  daemon:   "@));
    lemma_harmless_ends_no_line("  daemon:   "@);
    assert(harmless("  workload: "@));
    lemma_harmless_ends_no_line("  workload: "@);
    lemma_one_line(" MiB rootfs\n"@);
    lemma_one_line(" MiB each\n"@);
    lemma_one_line(" MiB\n"@);
    lemma_one_line("\n"@);
    lemma_one_line("  mounts:   none\n"@);
    lemma_one_line(")\n"@);
}

/// How many lines the page of a recipe ends: that goes by how many entries its
/// parts have, and never by what an entry holds.
pub open spec fn page_lines(cfg: ConfigView) -> nat {
    let one = |there: bool|
        if there {
            1nat
        } else {
            0nat
        };
    3 + one(cfg.components.network is Some) + cfg.network.allow.len() + (if cfg.mounts.len() == 0 {
        1nat
    } else {
        cfg.mounts.len()
    }) + one(cfg.env_file is Some) + cfg.network.ports.len() + cfg.network.hosts.len() + one(
        cfg.sudo.len() > 0,
    ) + cfg.hooks.on_create.len() + cfg.hooks.on_start.len() + cfg.hooks.pre_stop.len()
        + cfg.daemons.len()
}

/// A recipe cannot drive the terminal it is approved on: whatever it holds,
/// the page ends its lines and does nothing else, and no entry adds a line to
/// the one it is given.
#[must_use]
pub fn render_policy_summary(cfg: &Config) -> (summary: String)
    ensures
        summary@ == policy_summary(cfg@),
        tame(summary@),
        line_ends(summary@) == page_lines(cfg@),
{
    proof {
        lemma_labels();
        lemma_posture_tame(cfg.network@);
    }
    let mut out: String = "  hardware: ".to_owned();
    add_number(&mut out, cfg.hw.cpus as u64);
    add_part(&mut out, " vCPU, ");
    add_number(&mut out, cfg.hw.mem_mib as u64);
    add_part(&mut out, " MiB RAM, ");
    add_number(&mut out, cfg.hw.rootfs_mib as u64);
    add_part(&mut out, " MiB rootfs\n");
    add_part(&mut out, "  components: ");
    add_number(&mut out, cfg.components.memory_mib as u64);
    add_part(&mut out, " MiB each\n");
    let mut network_line: String = String::new();
    if let Some(network) = cfg.components.network {
        network_line = "  network component: ".to_owned();
        add_number(&mut network_line, network.memory_mib as u64);
        add_part(&mut network_line, " MiB\n");
    }
    add_part(&mut out, network_line.as_str());
    add_part(&mut out, "  egress:   ");
    add_part(&mut out, network::describe(&cfg.network));
    add_part(&mut out, "\n");
    append_labelled(&mut out, "  allow:    ", &cfg.network.allow, "\n");
    if cfg.mounts.len() == 0 {
        add_part(&mut out, "  mounts:   none\n");
    } else {
        append_mounts(&mut out, &cfg.mounts);
    }
    let mut file_line: String = String::new();
    if let Some(file) = &cfg.env_file {
        file_line = "  env_file: ".to_owned();
        add_part(&mut file_line, escape_printable_path(file.as_str()).as_str());
        add_part(&mut file_line, "\n");
    }
    add_part(&mut out, file_line.as_str());
    append_labelled(&mut out, "  publish:  127.0.0.1 -> guest (", &cfg.network.ports, ")\n");
    append_hosts(&mut out, &cfg.network.hosts);
    let mut sudo_line: String = String::new();
    if cfg.sudo.len() > 0 {
        sudo_line = "  sudo:     ".to_owned();
        let commands = join_texts(&cfg.sudo, ", ");
        add_part(&mut sudo_line, escape_printable(commands.as_str()).as_str());
        add_part(&mut sudo_line, "\n");
    }
    add_part(&mut out, sudo_line.as_str());
    append_labelled(&mut out, "  as root:  ", &cfg.hooks.on_create, "\n");
    append_labelled(&mut out, "  as root:  ", &cfg.hooks.on_start, "\n");
    append_labelled(&mut out, "  as root:  ", &cfg.hooks.pre_stop, "\n");
    append_labelled(&mut out, "  daemon:   ", &cfg.daemons, "\n");
    add_part(&mut out, "  workload: ");
    add_part(&mut out, format_workload_line(cfg).as_str());
    out
}

} // verus!
