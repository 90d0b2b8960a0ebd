//! What holds of the texts that everything else is read from.

use crate::cli::CliRun;
use crate::paths::{PartView, Separators};
use crate::{cli, paths, text};
use vstd::prelude::*;
use vstd::string::*;

verus! {

/// What is left of a text is a run of it that neither starts nor ends with white space, and only
/// white space is left out. `at` are its two ends.
pub proof fn law_only_white_space_is_trimmed(s: Seq<char>) -> (at: (int, int))
    ensures
        0 <= at.0 <= at.1 <= s.len(),
        text::trim(s) == s.subrange(at.0, at.1),
        forall|k: int| 0 <= k < at.0 || at.1 <= k < s.len() ==> text::is_space(#[trigger] s[k]),
        at.0 < at.1 ==> !text::is_space(s[at.0]) && !text::is_space(s[at.1 - 1]),
{
    let from = lemma_start(s);
    let rest = s.skip(from);
    let n = lemma_end(rest);
    assert(rest.take(n) =~= s.subrange(from, from + n));
    assert forall|k: int| 0 <= k < from || from + n <= k < s.len() implies text::is_space(
        #[trigger] s[k],
    ) by {
        if k >= from + n {
            assert(text::is_space(rest[k - from]));
        }
    }
    (from, from + n)
}

proof fn lemma_start(s: Seq<char>) -> (n: int)
    ensures
        0 <= n <= s.len(),
        text::trim_start(s) == s.skip(n),
        forall|k: int| 0 <= k < n ==> text::is_space(#[trigger] s[k]),
        n < s.len() ==> !text::is_space(s[n]),
    decreases s.len(),
{
    if s.len() > 0 && text::is_space(s.first()) {
        let rest = s.drop_first();
        let m = lemma_start(rest);
        assert(rest.skip(m) =~= s.skip(m + 1));
        assert forall|k: int| 0 <= k < m + 1 implies text::is_space(#[trigger] s[k]) by {
            if k > 0 {
                assert(text::is_space(rest[k - 1]));
            }
        }
        m + 1
    } else {
        assert(s.skip(0) =~= s);
        0
    }
}

proof fn lemma_end(s: Seq<char>) -> (n: int)
    ensures
        0 <= n <= s.len(),
        text::trim_end(s) == s.take(n),
        forall|k: int| n <= k < s.len() ==> text::is_space(#[trigger] s[k]),
        n > 0 ==> !text::is_space(s[n - 1]),
    decreases s.len(),
{
    if s.len() > 0 && text::is_space(s.last()) {
        let front = s.drop_last();
        let m = lemma_end(front);
        assert(front.take(m) =~= s.take(m));
        assert forall|k: int| m <= k < s.len() implies text::is_space(#[trigger] s[k]) by {
            if k < front.len() {
                assert(text::is_space(front[k]));
            }
        }
        m
    } else {
        assert(s.take(s.len() as int) =~= s);
        s.len() as int
    }
}

/// Of the characters of ASCII the blank, the tab and the four others that break lines or pages are
/// white space, and no letter, digit or sign is.
pub proof fn law_what_white_space_is(c: char)
    ensures
        c as u32 <= 127 ==> (text::is_space(c) <==> c == ' ' || c == '\t' || c == '\n' || c == '\r'
            || c as u32 == 11 || c as u32 == 12),
        text::is_space(c) ==> c as u32 <= 127 || c as u32 == 0x85 || c as u32 == 0xa0 || c as u32
            == 0x1680 || 0x2000 <= c as u32 <= 0x200a || c as u32 == 0x2028 || c as u32 == 0x2029
            || c as u32 == 0x202f || c as u32 == 0x205f || c as u32 == 0x3000,
        c as u32 == 0x85 || c as u32 == 0xa0 || c as u32 == 0x1680 || 0x2000 <= c as u32 <= 0x200a
            || c as u32 == 0x2028 || c as u32 == 0x2029 || c as u32 == 0x202f || c as u32 == 0x205f
            || c as u32 == 0x3000 ==> text::is_space(c),
{
}

/// Lower case is that of the twenty-six letters of ASCII, and leaves everything else as it is.
pub proof fn law_what_lower_case_is(s: Seq<char>, k: int)
    requires
        0 <= k < s.len(),
    ensures
        text::lower(s).len() == s.len(),
        'A' <= s[k] <= 'Z' ==> text::lower(s)[k] as u32 == s[k] as u32 + 32,
        !('A' <= s[k] <= 'Z') ==> text::lower(s)[k] == s[k],
{
    if 'A' <= s[k] <= 'Z' {
        let n = s[k] as u32;
        assert(65 <= n <= 90);
        assert(((n + 32) as char) as u32 == n + 32);
    }
}

/// Without the slashes at its end a text is the same but for them. `n` is where they start.
pub proof fn law_only_slashes_are_taken_off(s: Seq<char>) -> (n: int)
    ensures
        0 <= n <= s.len(),
        text::trim_slashes(s) == s.take(n),
        forall|k: int| n <= k < s.len() ==> s[k] == '/',
        n > 0 ==> s[n - 1] != '/',
    decreases s.len(),
{
    if s.len() > 0 && s.last() == '/' {
        let front = s.drop_last();
        let m = law_only_slashes_are_taken_off(front);
        assert(front.take(m) =~= s.take(m));
        assert forall|k: int| m <= k < s.len() implies s[k] == '/' by {
            if k < front.len() {
                assert(front[k] == '/');
            }
        }
        m
    } else {
        assert(s.take(s.len() as int) =~= s);
        s.len() as int
    }
}

/// What stands behind the last slash of a text has none, and all of a text without one does. `n` is
/// where it starts.
pub proof fn law_what_stands_behind_the_last_slash(s: Seq<char>) -> (n: int)
    ensures
        0 <= n <= s.len(),
        text::after_last_slash(s) == s.skip(n),
        n > 0 ==> s[n - 1] == '/',
        forall|k: int| n <= k < s.len() ==> s[k] != '/',
    decreases s.len(),
{
    if s.len() == 0 || s.last() == '/' {
        assert(s.skip(s.len() as int) =~= Seq::empty());
        s.len() as int
    } else {
        let front = s.drop_last();
        let m = law_what_stands_behind_the_last_slash(front);
        assert(front.skip(m).push(s.last()) =~= s.skip(m));
        assert forall|k: int| m <= k < s.len() implies s[k] != '/' by {
            if k < front.len() {
                assert(front[k] != '/');
            }
        }
        m
    }
}

/// The parts of a text have no separator in them, and joined by it they are the text.
pub proof fn law_parts_join_to_their_text(s: Seq<char>, c: char)
    ensures
        text::split_on(s, c).len() > 0,
        text::join(text::split_on(s, c), seq![c]) == s,
        forall|i: int, k: int|
            0 <= i < text::split_on(s, c).len() && 0 <= k < text::split_on(s, c)[i].len()
                ==> #[trigger] text::split_on(s, c)[i][k] != c,
    decreases s.len(),
{
    let parts = text::split_on(s, c);
    if s.len() == 0 {
        assert(text::join(parts, seq![c]) =~= s);
    } else {
        let front = s.drop_last();
        let before = text::split_on(front, c);
        law_parts_join_to_their_text(front, c);
        assert(front.push(s.last()) =~= s);
        if s.last() == c {
            assert(parts.drop_last() =~= before);
            assert(text::join(parts, seq![c]) =~= front + seq![c] + Seq::<char>::empty());
            assert(front + seq![c] + Seq::<char>::empty() =~= s);
            assert forall|i: int, k: int| 0 <= i < parts.len() && 0 <= k < parts[i].len() implies
                #[trigger] parts[i][k] != c by {
                assert(parts[i] == before[i]);
                assert(before[i][k] != c);
            }
        } else {
            let last = before.last();
            assert(parts.last() == last.push(s.last()));
            assert(parts.drop_last() =~= before.drop_last());
            if before.len() == 1 {
                assert(text::join(before, seq![c]) == before[0]);
                assert(text::join(parts, seq![c]) == parts[0]);
                assert(parts[0] =~= s);
            } else {
                let head = text::join(before.drop_last(), seq![c]);
                assert(text::join(before, seq![c]) == head + seq![c] + last);
                assert(text::join(parts, seq![c]) == head + seq![c] + last.push(s.last()));
                assert(head + seq![c] + last.push(s.last()) =~= (head + seq![c] + last).push(
                    s.last(),
                ));
            }
            assert forall|i: int, k: int| 0 <= i < parts.len() && 0 <= k < parts[i].len() implies
                #[trigger] parts[i][k] != c by {
                if i < parts.len() - 1 {
                    assert(parts[i] == before[i]);
                    assert(before[i][k] != c);
                } else if k < last.len() {
                    assert(before[before.len() - 1][k] != c);
                }
            }
        }
    }
}

/// The words of a text are not empty and have no white space in them.
pub proof fn law_words_have_no_white_space(s: Seq<char>, i: int, k: int)
    requires
        0 <= i < text::words(s).len(),
        0 <= k < text::words(s)[i].len(),
    ensures
        text::words(s)[i].len() > 0,
        !text::is_space(text::words(s)[i][k]),
{
    lemma_words(s);
}

/// Whether all are words.
pub open spec fn are_words(words: Seq<Seq<char>>) -> bool {
    forall|i: int| 0 <= i < words.len() ==> (#[trigger] words[i]).len() > 0 && is_solid(words[i])
}

/// Whether a text has no white space.
pub open spec fn is_solid(word: Seq<char>) -> bool {
    forall|k: int| 0 <= k < word.len() ==> !text::is_space(#[trigger] word[k])
}

proof fn lemma_words(s: Seq<char>)
    ensures
        are_words(text::words_and_rest(s).0),
        is_solid(text::words_and_rest(s).1),
        are_words(text::words(s)),
    decreases s.len(),
{
    if s.len() > 0 {
        lemma_words(s.drop_last());
    }
}

/// The words of two texts with white space between them are those of the one and then those of the
/// other; a text without white space is one word.
pub proof fn law_white_space_parts_words(a: Seq<char>, c: char, b: Seq<char>)
    requires
        text::is_space(c),
    ensures
        text::words(a.push(c) + b) == text::words(a) + text::words(b),
        b.len() > 0 && is_solid(b) ==> text::words(b) == seq![b],
    decreases b.len(),
{
    lemma_words_behind(a.push(c), b);
    assert(a.push(c).drop_last() =~= a);
    let all = text::words_and_rest(a.push(c) + b);
    let end = text::words_and_rest(b);
    assert(text::words_and_rest(a.push(c)).1.len() == 0);
    assert(text::words_and_rest(a.push(c)).0 =~= text::words(a));
    assert(text::words(a.push(c) + b) =~= text::words(a) + text::words(b));
    if b.len() > 0 && is_solid(b) {
        lemma_one_word(b);
        assert(text::words(b) =~= seq![b]);
    }
}

proof fn lemma_words_behind(a: Seq<char>, b: Seq<char>)
    requires
        text::words_and_rest(a).1.len() == 0,
    ensures
        text::words_and_rest(a + b).0 == text::words_and_rest(a).0 + text::words_and_rest(b).0,
        text::words_and_rest(a + b).1 == text::words_and_rest(b).1,
    decreases b.len(),
{
    if b.len() == 0 {
        assert(a + b =~= a);
        assert(text::words_and_rest(a).1 =~= Seq::empty());
        assert(text::words_and_rest(a).0 + text::words_and_rest(b).0 =~= text::words_and_rest(a).0);
    } else {
        lemma_words_behind(a, b.drop_last());
        assert((a + b).drop_last() =~= a + b.drop_last());
        assert((a + b).last() == b.last());
        assert(text::words_and_rest(a + b).0 =~= text::words_and_rest(a).0 + text::words_and_rest(
            b,
        ).0);
    }
}

proof fn lemma_one_word(s: Seq<char>)
    requires
        is_solid(s),
    ensures
        text::words_and_rest(s).0.len() == 0,
        text::words_and_rest(s).1 == s,
    decreases s.len(),
{
    if s.len() > 0 {
        assert(is_solid(s.drop_last())) by {
            assert forall|k: int| 0 <= k < s.drop_last().len() implies !text::is_space(
                #[trigger] s.drop_last()[k],
            ) by {
                assert(!text::is_space(s[k]));
            }
        }
        lemma_one_word(s.drop_last());
        assert(!text::is_space(s[s.len() - 1]));
        assert(s.drop_last().push(s.last()) =~= s);
    } else {
        assert(s =~= Seq::empty());
    }
}

/// The decimal digits of a number are read as that number, with a plus in front too.
pub proof fn law_digits_are_read_back(n: u64)
    ensures
        text::parsed_u64(text::decimal(n as nat)) == Some(n),
        text::parsed_u64(seq!['+'] + text::decimal(n as nat)) == Some(n),
{
    lemma_digits(n as nat);
    text::lemma_decimal_len(n as nat);
    let digits = text::decimal(n as nat);
    assert(digits[0] != '+');
    assert((seq!['+'] + digits).skip(1) =~= digits);
}

proof fn lemma_digits(n: nat)
    ensures
        text::digits_value(text::decimal(n)) == Some(n),
    decreases n,
{
    reveal_with_fuel(text::digits_value, 2);
    if n < 10 {
        let digit = (48 + n) as char;
        assert(digit as nat == 48 + n);
        assert(text::decimal(n) =~= seq![digit]);
        assert(seq![digit].drop_last() =~= Seq::empty());
    } else {
        lemma_digits(n / 10);
        let digit = (48 + n % 10) as char;
        assert(digit as nat == 48 + n % 10);
        assert(text::decimal(n).drop_last() =~= text::decimal(n / 10));
        assert(text::decimal(n).last() == digit);
    }
}

/// Nothing but digits is read as a number.
pub proof fn law_only_digits_are_a_number(s: Seq<char>, k: int)
    requires
        0 <= k < s.len(),
        !('0' <= s[k] <= '9'),
        k > 0 || s[0] != '+',
    ensures
        text::parsed_u64(s) is None,
{
    if s[0] == '+' {
        assert(s.skip(1)[k - 1] == s[k]);
        lemma_no_digit(s.skip(1), k - 1);
    } else {
        lemma_no_digit(s, k);
    }
}

proof fn lemma_no_digit(s: Seq<char>, k: int)
    requires
        0 <= k < s.len(),
        !('0' <= s[k] <= '9'),
    ensures
        text::digits_value(s) is None,
    decreases s.len(),
{
    if k < s.len() - 1 {
        assert(s.drop_last()[k] == s[k]);
        lemma_no_digit(s.drop_last(), k);
    }
}

/// The order of texts is that of their first characters that differ, and a text comes before what
/// starts with it.
pub proof fn law_the_first_difference_decides(
    start: Seq<char>,
    a: char,
    b: char,
    rest_a: Seq<char>,
    rest_b: Seq<char>,
)
    requires
        a < b,
    ensures
        text::text_le(start + seq![a] + rest_a, start + seq![b] + rest_b),
        !text::text_le(start + seq![b] + rest_b, start + seq![a] + rest_a),
        text::text_le(start, start + rest_a),
        rest_a.len() > 0 ==> !text::text_le(start + rest_a, start),
    decreases start.len(),
{
    let x = start + seq![a] + rest_a;
    let y = start + seq![b] + rest_b;
    if start.len() == 0 {
        assert(x.first() == a);
        assert(y.first() == b);
    } else {
        let next = start.drop_first();
        law_the_first_difference_decides(next, a, b, rest_a, rest_b);
        assert(x.drop_first() =~= next + seq![a] + rest_a);
        assert(y.drop_first() =~= next + seq![b] + rest_b);
        assert(x.first() == start.first());
        assert(y.first() == start.first());
        assert((start + rest_a).first() == start.first());
        assert((start + rest_a).drop_first() =~= next + rest_a);
    }
}

/// Whether a text is made of digits.
pub open spec fn is_number(s: Seq<char>) -> bool {
    s.len() > 0 && forall|k: int| 0 <= k < s.len() ==> '0' <= #[trigger] s[k] <= '9'
}

/// A version is three numbers with dots between them. One is read from a word with any number of
/// `v` in front of it, and with what a dash or a plus starts behind it.
pub proof fn law_how_a_version_is_read(a: Seq<char>, b: Seq<char>, c: Seq<char>, tail: Seq<char>)
    requires
        is_number(a),
        is_number(b),
        is_number(c),
        tail.len() == 0 || tail[0] == '-' || tail[0] == '+',
    ensures
        ({
            let version = a + seq!['.'] + b + seq!['.'] + c;
            &&& cli::word_version(version + tail) == Some(version)
            &&& cli::word_version(seq!['v'] + version + tail) == Some(version)
        }),
{
    let version = a + seq!['.'] + b + seq!['.'] + c;
    lemma_plain_parts(a, b, c);
    assert forall|k: int| 0 <= k < version.len() implies version[k] != '-' && version[k] != '+'
        && version[k] != 'v' by {
        if k < a.len() {
            assert(version[k] == a[k]);
        } else if k == a.len() {
        } else if k < a.len() + 1 + b.len() {
            assert(version[k] == b[k - a.len() - 1]);
        } else if k == a.len() + 1 + b.len() {
        } else {
            assert(version[k] == c[k - a.len() - b.len() - 2]);
        }
    }
    lemma_core(version, tail);
    assert((version + tail).first() == version[0]);
    assert(cli::without_v(version + tail) == version + tail);
    let marked = seq!['v'] + version + tail;
    assert(marked.first() == 'v');
    assert(marked.drop_first() =~= version + tail);
    assert(cli::without_v(marked) == version + tail);
}

proof fn lemma_core(s: Seq<char>, tail: Seq<char>)
    requires
        tail.len() == 0 || tail[0] == '-' || tail[0] == '+',
        forall|k: int| 0 <= k < s.len() ==> s[k] != '-' && s[k] != '+',
    ensures
        cli::version_core(s + tail) == s,
    decreases s.len(),
{
    if s.len() == 0 {
        assert(s + tail =~= tail);
        assert(cli::version_core(tail) =~= s);
    } else {
        assert((s + tail).first() == s[0]);
        assert((s + tail).drop_first() =~= s.drop_first() + tail);
        assert forall|k: int| 0 <= k < s.drop_first().len() implies s.drop_first()[k] != '-'
            && s.drop_first()[k] != '+' by {
            assert(s.drop_first()[k] == s[k + 1]);
        }
        lemma_core(s.drop_first(), tail);
        assert(seq![s[0]] + s.drop_first() =~= s);
    }
}

proof fn lemma_plain_parts(a: Seq<char>, b: Seq<char>, c: Seq<char>)
    requires
        is_number(a),
        is_number(b),
        is_number(c),
    ensures
        cli::is_version(a + seq!['.'] + b + seq!['.'] + c),
{
    lemma_one_part(a);
    lemma_next_part(a, b);
    let two = a + seq!['.'] + b;
    lemma_next_part(two, c);
    let parts = text::split_on(two + seq!['.'] + c, '.');
    assert(parts =~= seq![a, b, c]);
}

proof fn lemma_one_part(s: Seq<char>)
    requires
        forall|k: int| 0 <= k < s.len() ==> '0' <= #[trigger] s[k] <= '9',
    ensures
        text::split_on(s, '.') == seq![s],
    decreases s.len(),
{
    if s.len() > 0 {
        let front = s.drop_last();
        assert forall|k: int| 0 <= k < front.len() implies '0' <= #[trigger] front[k] <= '9' by {
            assert(front[k] == s[k]);
        }
        lemma_one_part(front);
        assert('0' <= s[s.len() - 1] <= '9');
        assert(front.push(s.last()) =~= s);
        assert(text::split_on(s, '.') =~= seq![s]);
    } else {
        assert(s =~= Seq::empty());
        assert(text::split_on(s, '.') =~= seq![s]);
    }
}

proof fn lemma_next_part(s: Seq<char>, part: Seq<char>)
    requires
        forall|k: int| 0 <= k < part.len() ==> '0' <= #[trigger] part[k] <= '9',
    ensures
        text::split_on(s + seq!['.'] + part, '.') == text::split_on(s, '.').push(part),
    decreases part.len(),
{
    let whole = s + seq!['.'] + part;
    if part.len() == 0 {
        assert(whole.drop_last() =~= s);
        assert(whole.last() == '.');
        assert(part =~= Seq::empty());
    } else {
        let front = part.drop_last();
        assert forall|k: int| 0 <= k < front.len() implies '0' <= #[trigger] front[k] <= '9' by {
            assert(front[k] == part[k]);
        }
        lemma_next_part(s, front);
        assert(whole.drop_last() =~= s + seq!['.'] + front);
        assert('0' <= part[part.len() - 1] <= '9');
        assert(whole.last() == part.last());
        let before = text::split_on(s, '.').push(front);
        assert(before.drop_last() =~= text::split_on(s, '.'));
        assert(front.push(part.last()) =~= part);
    }
}

/// The first word that is a version counts.
pub proof fn law_the_first_version_counts(words: Seq<Seq<char>>, k: int)
    requires
        0 <= k < words.len(),
        cli::word_version(words[k]) is Some,
        forall|i: int| 0 <= i < k ==> cli::word_version(#[trigger] words[i]) is None,
    ensures
        cli::first_version(words) == cli::word_version(words[k]),
    decreases words.len(),
{
    if k > 0 {
        assert(cli::word_version(words[0]) is None);
        assert(words.drop_first()[k - 1] == words[k]);
        law_the_first_version_counts(words.drop_first(), k - 1);
    }
}

/// A path of names leads where it says; a dot leads nowhere, and two dots back to where the last name
/// came from.
pub proof fn law_where_a_path_leads(path: Seq<PartView>, name: Seq<u8>)
    ensures
        paths::straight(path.push(PartView::Name(name))) == paths::straight(path).push(
            PartView::Name(name),
        ),
        paths::straight(path.push(PartView::Current)) == paths::straight(path),
        paths::straight(path.push(PartView::Name(name)).push(PartView::Parent)) == paths::straight(
            path,
        ),
{
    let named = path.push(PartView::Name(name));
    assert(named.drop_last() =~= path);
    assert(path.push(PartView::Current).drop_last() =~= path);
    assert(named.push(PartView::Parent).drop_last() =~= named);
    assert(paths::straight(path).push(PartView::Name(name)).drop_last() =~= paths::straight(path));
}

/// The config directory is the one that is set, or `.codex` in the home.
pub proof fn law_where_the_config_is(set: Option<Seq<char>>, home: Seq<char>)
    ensures
        set is Some ==> paths::config_dir(set, home).base == set->Some_0 && paths::config_dir(
            set,
            home,
        ).below.len() == 0,
        set is None ==> paths::config_dir(set, home).base == home && paths::config_dir(
            set,
            home,
        ).below == seq![".codex"@],
{
}

/// What is read as a version is three numbers with dots between them, and a part of its word.
pub proof fn law_only_versions_are_read(word: Seq<char>)
    requires
        cli::word_version(word) is Some,
    ensures
        ({
            let version = cli::word_version(word)->Some_0;
            let parts = text::split_on(version, '.');
            &&& parts.len() == 3
            &&& is_number(parts[0])
            &&& is_number(parts[1])
            &&& is_number(parts[2])
            &&& version == parts[0] + seq!['.'] + parts[1] + seq!['.'] + parts[2]
        }),
{
    let version = cli::word_version(word)->Some_0;
    let parts = text::split_on(version, '.');
    law_parts_join_to_their_text(version, '.');
    reveal_with_fuel(text::join, 4);
    assert(parts.drop_last().drop_last() =~= seq![parts[0]]);
    assert(parts.drop_last().last() == parts[1]);
}

/// A command that failed gives no version; one that did not gives that of its output, or else that of
/// its errors.
pub proof fn law_where_a_version_is_read(run: CliRun)
    ensures
        !run.success ==> cli::run_version(run) is None,
        run.success && cli::version_in(run.stdout@) is Some ==> cli::run_version(run)
            == cli::version_in(run.stdout@),
        run.success && cli::version_in(run.stdout@) is None ==> cli::run_version(run)
            == cli::version_in(run.stderr@),
{
}

/// Where a version manager keeps the command line: in the directory that its variable names, or, with
/// no variable, in those below the home.
pub proof fn law_where_version_managers_keep_it()
    ensures
        cli::version_dirs(Some("NVM_DIR"@)) == seq![("versions/node"@, "bin/codex"@)],
        cli::version_dirs(Some("FNM_DIR"@)) == seq![("node-versions"@, "installation/bin/codex"@)],
        cli::version_dirs(None).len() == 3,
        cli::version_dirs(None)[0] == (".nvm/versions/node"@, "bin/codex"@),
        cli::version_dirs(None)[1] == (
            ".local/share/fnm/node-versions"@,
            "installation/bin/codex"@,
        ),
        cli::version_dirs(None)[2] == (
            "Library/Application Support/fnm/node-versions"@,
            "installation/bin/codex"@,
        ),
{
    reveal_strlit("NVM_DIR");
    reveal_strlit("FNM_DIR");
    assert("NVM_DIR"@[0] == 'N');
    assert("FNM_DIR"@[0] == 'F');
}

/// The number that hexadecimal digits stand for.
pub open spec fn hex_number(s: Seq<char>) -> nat
    decreases s.len(),
{
    if s.len() == 0 {
        0
    } else {
        hex_number(s.drop_last()) * 16 + hex_digit_value(s.last())
    }
}

/// The number that one hexadecimal digit stands for.
pub open spec fn hex_digit_value(c: char) -> nat {
    if '0' <= c <= '9' {
        (c as nat - 48) as nat
    } else if 'a' <= c <= 'f' {
        (c as nat - 87) as nat
    } else {
        0
    }
}

/// The hexadecimal digits of a number that fits into them stand for that number, and are as many as
/// asked for.
pub proof fn law_hexadecimal_digits_stand_for_their_number(n: nat, width: nat)
    requires
        n < vstd::arithmetic::power::pow(16, width),
    ensures
        text::hex(n, width).len() == width,
        hex_number(text::hex(n, width)) == n,
    decreases width,
{
    reveal(vstd::arithmetic::power::pow);
    if width > 0 {
        assert(n / 16 < vstd::arithmetic::power::pow(16, (width - 1) as nat)) by {
            assert(n < 16 * vstd::arithmetic::power::pow(16, (width - 1) as nat));
        }
        law_hexadecimal_digits_stand_for_their_number(n / 16, (width - 1) as nat);
        let digit = text::hex_digit(n % 16);
        if n % 16 < 10 {
            assert(digit as nat == 48 + n % 16);
        } else {
            assert(digit as nat == 87 + n % 16);
        }
        assert(text::hex(n, width).drop_last() =~= text::hex(n / 16, (width - 1) as nat));
        assert(text::hex(n, width).last() == digit);
    }
}

/// The name of a path is what stands behind its last slash; slashes and dots at its end do not count,
/// and two dots are no name.
pub proof fn law_the_name_of_a_path(dir: Seq<char>, name: Seq<char>)
    requires
        name.len() > 0,
        forall|k: int| 0 <= k < name.len() ==> name[k] != '/',
        name != "."@,
    ensures
        name != ".."@ ==> paths::name_in(dir.push('/') + name, Separators::Slash) == Some(name),
        name == ".."@ ==> paths::name_in(dir.push('/') + name, Separators::Slash) is None,
        paths::name_in(dir.push('/'), Separators::Slash) == paths::name_in(dir, Separators::Slash),
        paths::name_in(dir.push('/').push('.'), Separators::Slash) == paths::name_in(
            dir,
            Separators::Slash,
        ),
{
    let path = dir.push('/') + name;
    lemma_behind(dir.push('/'), name);
    assert(paths::behind(path, Separators::Slash) == name);
    let slashed = dir.push('/');
    assert(paths::behind(slashed, Separators::Slash).len() == 0);
    assert(slashed.take(dir.len() as int) =~= dir);
    let dotted = slashed.push('.');
    reveal_strlit(".");
    reveal_strlit("..");
    assert(dotted =~= slashed + "."@);
    lemma_behind(slashed, "."@);
    assert(paths::behind(dotted, Separators::Slash) == "."@);
    assert(dotted.take(dir.len() as int) =~= dir);
}

proof fn lemma_behind(front: Seq<char>, name: Seq<char>)
    requires
        front.len() > 0,
        front.last() == '/',
        forall|k: int| 0 <= k < name.len() ==> name[k] != '/',
    ensures
        paths::behind(front + name, Separators::Slash) == name,
    decreases name.len(),
{
    let whole = front + name;
    if name.len() == 0 {
        assert(whole =~= front);
        assert(paths::behind(whole, Separators::Slash) =~= name);
    } else {
        let rest = name.drop_last();
        assert forall|k: int| 0 <= k < rest.len() implies rest[k] != '/' by {
            assert(rest[k] == name[k]);
        }
        lemma_behind(front, rest);
        assert(whole.drop_last() =~= front + rest);
        assert(whole.last() == name[name.len() - 1]);
        assert(rest.push(name.last()) =~= name);
    }
}

} // verus!
