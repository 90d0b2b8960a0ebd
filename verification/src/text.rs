//! Text as sequences of characters: the operations on strings that the rest of
//! the library is stated over.

use vstd::prelude::*;
use vstd::string::*;

verus! {

/// Whether `c` has the Unicode property `White_Space`.
pub open spec fn is_space(c: char) -> bool {
    ||| 0x9 <= c as u32 <= 0xd
    ||| c as u32 == 0x20
    ||| c as u32 == 0x85
    ||| c as u32 == 0xa0
    ||| c as u32 == 0x1680
    ||| 0x2000 <= c as u32 <= 0x200a
    ||| c as u32 == 0x2028
    ||| c as u32 == 0x2029
    ||| c as u32 == 0x202f
    ||| c as u32 == 0x205f
    ||| c as u32 == 0x3000
}

/// `s` without its leading white space.
pub open spec fn trim_start(s: Seq<char>) -> Seq<char>
    decreases s.len(),
{
    if s.len() > 0 && is_space(s.first()) {
        trim_start(s.drop_first())
    } else {
        s
    }
}

/// `s` without its trailing white space.
pub open spec fn trim_end(s: Seq<char>) -> Seq<char>
    decreases s.len(),
{
    if s.len() > 0 && is_space(s.last()) {
        trim_end(s.drop_last())
    } else {
        s
    }
}

/// `s` without the white space around it.
pub open spec fn trim(s: Seq<char>) -> Seq<char> {
    trim_end(trim_start(s))
}

/// Whether nothing but white space is in `s`.
pub open spec fn is_blank(s: Seq<char>) -> bool {
    trim(s).len() == 0
}

/// `c` in lower case, where it is an ASCII letter.
pub open spec fn lower_char(c: char) -> char {
    if 'A' <= c && c <= 'Z' {
        ((c as u32) + 32) as char
    } else {
        c
    }
}

/// `s` with its ASCII letters in lower case.
pub open spec fn lower(s: Seq<char>) -> Seq<char> {
    s.map_values(|c: char| lower_char(c))
}

/// Whether `part` stands in `s` from position `at` on.
pub open spec fn occurs_at(s: Seq<char>, part: Seq<char>, at: int) -> bool {
    0 <= at && at + part.len() <= s.len() && s.subrange(at, at + part.len()) == part
}

/// Whether `part` stands somewhere in `s`.
pub open spec fn occurs(s: Seq<char>, part: Seq<char>) -> bool {
    exists|at: int| occurs_at(s, part, at)
}

/// `s` without the slashes at its end.
pub open spec fn trim_slashes(s: Seq<char>) -> Seq<char>
    decreases s.len(),
{
    if s.len() > 0 && s.last() == '/' {
        trim_slashes(s.drop_last())
    } else {
        s
    }
}

/// What stands behind the last slash of `s`; all of it where there is none.
pub open spec fn after_last_slash(s: Seq<char>) -> Seq<char>
    decreases s.len(),
{
    if s.len() == 0 || s.last() == '/' {
        Seq::empty()
    } else {
        after_last_slash(s.drop_last()).push(s.last())
    }
}

/// The texts one after the other, with `between` between two of them.
pub open spec fn join(parts: Seq<Seq<char>>, between: Seq<char>) -> Seq<char>
    decreases parts.len(),
{
    if parts.len() == 0 {
        Seq::empty()
    } else if parts.len() == 1 {
        parts[0]
    } else {
        join(parts.drop_last(), between) + between + parts.last()
    }
}

/// The parts of a text between the characters `c`.
pub open spec fn split_on(s: Seq<char>, c: char) -> Seq<Seq<char>>
    decreases s.len(),
{
    if s.len() == 0 {
        seq![Seq::empty()]
    } else {
        let front = split_on(s.drop_last(), c);
        if s.last() == c {
            front.push(Seq::empty())
        } else {
            front.drop_last().push(front.last().push(s.last()))
        }
    }
}

/// The words that end before the end of a text, and the one that it ends in.
pub open spec fn words_and_rest(s: Seq<char>) -> (Seq<Seq<char>>, Seq<char>)
    decreases s.len(),
{
    if s.len() == 0 {
        (Seq::empty(), Seq::empty())
    } else {
        let (front, word) = words_and_rest(s.drop_last());
        if !is_space(s.last()) {
            (front, word.push(s.last()))
        } else if word.len() > 0 {
            (front.push(word), Seq::empty())
        } else {
            (front, Seq::empty())
        }
    }
}

/// The parts of a text between white space.
pub open spec fn words(s: Seq<char>) -> Seq<Seq<char>> {
    let (front, word) = words_and_rest(s);
    if word.len() > 0 {
        front.push(word)
    } else {
        front
    }
}

/// The number that a sequence of decimal digits stands for; `None` where another character is in it.
pub open spec fn digits_value(s: Seq<char>) -> Option<nat>
    decreases s.len(),
{
    if s.len() == 0 {
        Some(0)
    } else {
        match digits_value(s.drop_last()) {
            Some(front) => if '0' <= s.last() && s.last() <= '9' {
                Some(front * 10 + (s.last() as nat - '0' as nat) as nat)
            } else {
                None
            },
            None => None,
        }
    }
}

/// The number that a text stands for: decimal digits, with a plus sign in front or not, that fit
/// into 64 bits.
pub open spec fn parsed_u64(s: Seq<char>) -> Option<u64> {
    let digits = if s.len() > 0 && s[0] == '+' {
        s.skip(1)
    } else {
        s
    };
    if digits.len() == 0 {
        None
    } else {
        match digits_value(digits) {
            Some(n) => if n <= u64::MAX {
                Some(n as u64)
            } else {
                None
            },
            None => None,
        }
    }
}

/// The decimal digits of a number.
pub open spec fn decimal(n: nat) -> Seq<char>
    decreases n,
{
    if n < 10 {
        seq![(('0' as nat) + n) as char]
    } else {
        decimal(n / 10).push((('0' as nat) + n % 10) as char)
    }
}

/// The hexadecimal digit of a number below sixteen.
pub open spec fn hex_digit(n: nat) -> char {
    if n < 10 {
        (('0' as nat) + n) as char
    } else {
        (('a' as nat) + n - 10) as char
    }
}

/// The last `width` hexadecimal digits of a number.
pub open spec fn hex(n: nat, width: nat) -> Seq<char>
    decreases width,
{
    if width == 0 {
        Seq::empty()
    } else {
        hex(n / 16, (width - 1) as nat).push(hex_digit(n % 16))
    }
}

/// The strings of `list`, as sequences of characters.
pub open spec fn texts(list: Seq<String>) -> Seq<Seq<char>> {
    list.map_values(|s: String| s@)
}

/// The characters of an optional string.
pub open spec fn text_of(s: Option<String>) -> Option<Seq<char>> {
    match s {
        Some(s) => Some(s@),
        None => None,
    }
}

/// The characters of an optional string slice.
pub open spec fn slice_text(s: Option<&str>) -> Option<Seq<char>> {
    match s {
        Some(s) => Some(s@),
        None => None,
    }
}

/// `str::trim` takes the characters with the property `White_Space` away from both ends.
pub assume_specification[ str::trim ](s: &str) -> (r: &str)
    ensures
        r@ == trim(s@),
;

/// `str::to_ascii_lowercase` maps the ASCII letters `A` to `Z` to `a` to `z` and keeps the rest.
pub assume_specification[ str::to_ascii_lowercase ](s: &str) -> (r: String)
    ensures
        r@ == lower(s@),
;

/// `str::eq_ignore_ascii_case` compares two strings after `to_ascii_lowercase` on both.
pub assume_specification[ str::eq_ignore_ascii_case ](s: &str, other: &str) -> (r: bool)
    ensures
        r == (lower(s@) == lower(other@)),
;

/// `String::push` appends one character.
pub assume_specification[ String::push ](s: &mut String, c: char)
    ensures
        final(s)@ == old(s)@.push(c),
;

/// `String::push_str` appends a string slice.
pub assume_specification[ String::push_str ](s: &mut String, other: &str)
    ensures
        final(s)@ == old(s)@ + other@,
;

/// `==` on two string slices holds when they have the same characters.
#[verifier::external_body]
pub(crate) fn str_eq(a: &str, b: &str) -> (r: bool)
    ensures
        r == (a@ == b@),
{
    a == b
}

/// `str::contains` with a string slice as the pattern finds it anywhere in the text.
#[verifier::external_body]
pub(crate) fn str_contains(s: &str, part: &str) -> (r: bool)
    ensures
        r == occurs(s@, part@),
{
    s.contains(part)
}

/// `str::strip_prefix` with a string slice gives what follows it, where the text starts with it.
#[verifier::external_body]
pub(crate) fn str_strip_prefix<'a>(s: &'a str, prefix: &str) -> (r: Option<&'a str>)
    ensures
        match r {
            Some(rest) => s@ == prefix@ + rest@,
            None => !prefix@.is_prefix_of(s@),
        },
{
    s.strip_prefix(prefix)
}

/// `String::from_utf8` gives the string whose UTF-8 encoding the bytes are, where they are one.
#[verifier::external_body]
pub(crate) fn string_from_utf8(bytes: Vec<u8>) -> (r: Option<String>)
    ensures
        match r {
            Some(s) => vstd::utf8::valid_utf8(bytes@) && s@ == vstd::utf8::decode_utf8(bytes@),
            None => !vstd::utf8::valid_utf8(bytes@),
        },
{
    String::from_utf8(bytes).ok()
}

/// Whether `s` starts with `prefix`.
pub fn str_starts_with(s: &str, prefix: &str) -> (r: bool)
    ensures
        r == prefix@.is_prefix_of(s@),
{
    match str_strip_prefix(s, prefix) {
        Some(rest) => {
            assert(s@.subrange(0, prefix@.len() as int) =~= prefix@);
            true
        },
        None => false,
    }
}

/// The characters of `s`, one by one.
pub fn chars_of(s: &str) -> (r: Vec<char>)
    ensures
        r@ == s@,
{
    let mut out: Vec<char> = Vec::new();
    for c in it: s.chars()
        invariant
            out@ == it.seq().take(it.index() as int),
            it.seq() == s@,
    {
        out.push(c);
    }
    out
}

/// The string of the characters from `from` up to `to`.
pub fn string_of(chars: &Vec<char>, from: usize, to: usize) -> (r: String)
    requires
        from <= to <= chars@.len(),
    ensures
        r@ == chars@.subrange(from as int, to as int),
{
    let mut out = String::new();
    let mut i: usize = from;
    while i < to
        invariant
            from <= i <= to <= chars@.len(),
            out@ == chars@.subrange(from as int, i as int),
        decreases to - i,
    {
        out.push(chars[i]);
        i += 1;
        assert(chars@.subrange(from as int, i as int) =~= chars@.subrange(from as int, i - 1).push(chars@[i - 1]));
    }
    out
}

/// `s` without the slashes at its end.
pub fn without_trailing_slashes(s: &str) -> (r: String)
    ensures
        r@ == trim_slashes(s@),
{
    let chars = chars_of(s);
    let mut end: usize = chars.len();
    assert(s@.take(end as int) =~= s@);
    while end > 0 && chars[end - 1] == '/'
        invariant
            chars@ == s@,
            end <= chars@.len(),
            trim_slashes(s@.take(end as int)) == trim_slashes(s@),
        decreases end,
    {
        assert(s@.take(end as int).drop_last() =~= s@.take(end - 1));
        end -= 1;
    }
    assert(chars@.subrange(0, end as int) =~= s@.take(end as int));
    string_of(&chars, 0, end)
}

/// What stands behind the last slash of `s`; all of it where there is none.
pub fn last_segment(s: &str) -> (r: String)
    ensures
        r@ == after_last_slash(s@),
{
    let chars = chars_of(s);
    let mut from: usize = 0;
    let mut i: usize = 0;
    while i < chars.len()
        invariant
            chars@ == s@,
            from <= i <= chars@.len(),
            after_last_slash(s@.take(i as int)) =~= s@.subrange(from as int, i as int),
        decreases chars@.len() - i,
    {
        assert(s@.take(i + 1).drop_last() =~= s@.take(i as int));
        if chars[i] == '/' {
            from = i + 1;
        }
        i += 1;
    }
    assert(s@.take(i as int) =~= s@);
    string_of(&chars, from, i)
}

/// `a` followed by `b`.
pub fn join2(a: &str, b: &str) -> (r: String)
    ensures
        r@ == a@ + b@,
{
    let mut out = a.to_owned();
    out.push_str(b);
    out
}

/// Whether `s` is one of `list`.
pub fn list_contains(list: &Vec<String>, s: &str) -> (r: bool)
    ensures
        r == texts(list@).contains(s@),
{
    let mut i: usize = 0;
    while i < list.len()
        invariant
            i <= list@.len(),
            forall|j: int| 0 <= j < i ==> texts(list@)[j] != s@,
        decreases list@.len() - i,
    {
        assert(texts(list@)[i as int] == list@[i as int]@);
        if str_eq(list[i].as_str(), s) {
            return true;
        }
        i += 1;
    }
    false
}

/// A copy of `list`.
pub fn copy_list(list: &Vec<String>) -> (r: Vec<String>)
    ensures
        texts(r@) == texts(list@),
{
    let mut out: Vec<String> = Vec::new();
    let mut i: usize = 0;
    while i < list.len()
        invariant
            i <= list@.len(),
            texts(out@) =~= texts(list@).take(i as int),
        decreases list@.len() - i,
    {
        let ghost before = out@;
        out.push(list[i].clone());
        i += 1;
        assert(texts(out@) =~= texts(before).push(list@[i - 1]@));
    }
    assert(texts(list@).take(i as int) =~= texts(list@));
    out
}

/// The strings one after the other, with `between` between two of them.
pub fn join_list(list: &Vec<String>, between: &str) -> (r: String)
    ensures
        r@ == join(texts(list@), between@),
{
    let mut out = String::new();
    let mut i: usize = 0;
    while i < list.len()
        invariant
            i <= list@.len(),
            out@ == join(texts(list@).take(i as int), between@),
        decreases list@.len() - i,
    {
        proof {
            let so_far = texts(list@).take(i + 1);
            assert(so_far.drop_last() =~= texts(list@).take(i as int));
            assert(so_far.last() == list@[i as int]@);
            if i == 0 {
                assert(Seq::<char>::empty() + list@[0]@ =~= list@[0]@);
            }
        }
        if i > 0 {
            out.push_str(between);
        }
        out.push_str(list[i].as_str());
        i += 1;
    }
    assert(texts(list@).take(i as int) =~= texts(list@));
    out
}

/// A text is blank when each of its characters is white space.
pub proof fn lemma_blank(s: Seq<char>)
    ensures
        is_blank(s) <==> forall|i: int| 0 <= i < s.len() ==> is_space(#[trigger] s[i]),
{
    lemma_trim_start(s);
    lemma_trim_end(trim_start(s));
    let cut = s.len() - trim_start(s).len();
    if trim_start(s).len() > 0 {
        assert(!is_space(s[cut]));
        assert(trim(s).len() > 0);
    }
}

/// Trimming the start leaves a tail of the text that does not start with white space.
proof fn lemma_trim_start(s: Seq<char>)
    ensures
        trim_start(s).len() <= s.len(),
        trim_start(s) == s.skip(s.len() - trim_start(s).len()),
        trim_start(s).len() > 0 ==> !is_space(trim_start(s).first()),
        forall|i: int| 0 <= i < s.len() - trim_start(s).len() ==> is_space(#[trigger] s[i]),
    decreases s.len(),
{
    if s.len() > 0 && is_space(s.first()) {
        let rest = s.drop_first();
        lemma_trim_start(rest);
        let cut = rest.len() - trim_start(rest).len();
        assert(rest.skip(cut) =~= s.skip(cut + 1));
        assert forall|i: int| 0 <= i < s.len() - trim_start(s).len() implies is_space(
            #[trigger] s[i],
        ) by {
            if i > 0 {
                assert(rest[i - 1] == s[i]);
            }
        }
    } else {
        assert(s.skip(0) =~= s);
    }
}

/// Trimming the end leaves a head of the text that does not end with white space.
proof fn lemma_trim_end(s: Seq<char>)
    ensures
        trim_end(s).len() <= s.len(),
        trim_end(s) == s.take(trim_end(s).len() as int),
        trim_end(s).len() > 0 ==> !is_space(trim_end(s).last()),
        forall|i: int| trim_end(s).len() <= i < s.len() ==> is_space(#[trigger] s[i]),
    decreases s.len(),
{
    if s.len() > 0 && is_space(s.last()) {
        let front = s.drop_last();
        lemma_trim_end(front);
        let kept = trim_end(front).len() as int;
        assert(front.take(kept) =~= s.take(kept));
        assert forall|i: int| trim_end(s).len() <= i < s.len() implies is_space(#[trigger] s[i]) by {
            if i < s.len() - 1 {
                assert(front[i] == s[i]);
            }
        }
    } else {
        assert(s.take(s.len() as int) =~= s);
    }
}

/// What is left of a text that is not blank is not blank either.
pub proof fn lemma_trimmed(s: Seq<char>)
    ensures
        !is_blank(s) ==> !is_blank(trim(s)),
        trim(trim(s)) == trim(s),
{
    lemma_trim_start(s);
    lemma_trim_end(trim_start(s));
    let t = trim(s);
    if t.len() > 0 {
        assert(t.first() == trim_start(s).first());
        assert(trim_start(t) == t);
        assert(trim_end(t) == t);
    }
}

/// The number that a text stands for.
pub fn parse_u64(s: &str) -> (r: Option<u64>)
    ensures
        r == parsed_u64(s@),
{
    let chars = chars_of(s);
    let mut from: usize = 0;
    if chars.len() > 0 && chars[0] == '+' {
        from = 1;
    }
    let ghost digits = s@.skip(from as int);
    assert(s@.skip(0) =~= s@);
    if from == chars.len() {
        return None;
    }
    let mut value: u64 = 0;
    let mut too_large = false;
    let mut i: usize = from;
    assert(digits.take(0) =~= Seq::<char>::empty());
    while i < chars.len()
        invariant
            chars@ == s@,
            from <= i <= chars@.len(),
            digits == s@.skip(from as int),
            digits == if s@.len() > 0 && s@[0] == '+' {
                s@.skip(1)
            } else {
                s@
            },
            digits_value(digits.take(i - from)) matches Some(n) && if too_large {
                n > u64::MAX
            } else {
                n == value
            },
        decreases chars@.len() - i,
    {
        let c = chars[i];
        proof {
            assert(digits.take(i + 1 - from).drop_last() =~= digits.take(i - from));
            assert(digits.take(i + 1 - from).last() == c);
        }
        if !('0' <= c && c <= '9') {
            proof {
                lemma_digits_prefix(digits, i + 1 - from);
            }
            return None;
        }
        let digit: u64 = c as u64 - '0' as u64;
        if !too_large {
            if value > (u64::MAX - digit) / 10 {
                too_large = true;
            } else {
                value = value * 10 + digit;
            }
        }
        i += 1;
    }
    assert(digits.take(i - from) =~= digits);
    if too_large {
        None
    } else {
        Some(value)
    }
}

/// A text with another character than a digit stands for no number, whatever follows.
proof fn lemma_digits_prefix(s: Seq<char>, n: int)
    requires
        0 <= n <= s.len(),
        digits_value(s.take(n)) is None,
    ensures
        digits_value(s) is None,
    decreases s.len() - n,
{
    if n < s.len() {
        assert(s.take(n + 1).drop_last() =~= s.take(n));
        lemma_digits_prefix(s, n + 1);
    } else {
        assert(s.take(n) =~= s);
    }
}

/// The decimal digits of a number.
pub fn decimal_text(n: u64) -> (r: String)
    ensures
        r@ == decimal(n as nat),
    decreases n,
{
    if n < 10 {
        let mut out = String::new();
        out.push(digit_char(n as u8));
        assert(out@ =~= decimal(n as nat));
        out
    } else {
        let mut out = decimal_text(n / 10);
        out.push(digit_char((n % 10) as u8));
        out
    }
}

/// The character of a digit below sixteen.
fn digit_char(n: u8) -> (r: char)
    requires
        n < 16,
    ensures
        r == hex_digit(n as nat),
{
    if n < 10 {
        ('0' as u8 + n) as char
    } else {
        ('a' as u8 + (n - 10)) as char
    }
}

/// The sixteen hexadecimal digits of a number.
pub fn hex_text(n: u64) -> (r: String)
    ensures
        r@ == hex(n as nat, 16),
{
    hex_text_of(n, 16)
}

fn hex_text_of(n: u64, width: u8) -> (r: String)
    ensures
        r@ == hex(n as nat, width as nat),
    decreases width,
{
    if width == 0 {
        let out = String::new();
        assert(out@ =~= Seq::<char>::empty());
        out
    } else {
        let mut out = hex_text_of(n / 16, width - 1);
        out.push(digit_char((n % 16) as u8));
        out
    }
}

/// Numbers that fit into their digits have the same digits only where they are the same.
pub proof fn lemma_hex_injective(a: nat, b: nat, width: nat)
    requires
        a < vstd::arithmetic::power::pow(16, width),
        b < vstd::arithmetic::power::pow(16, width),
        hex(a, width) == hex(b, width),
    ensures
        a == b,
    decreases width,
{
    use_pow(width);
    if width > 0 {
        let ha = hex(a / 16, (width - 1) as nat);
        let hb = hex(b / 16, (width - 1) as nat);
        assert(hex(a, width).drop_last() =~= ha);
        assert(hex(b, width).drop_last() =~= hb);
        assert(hex(a, width).last() == hex_digit(a % 16));
        assert(hex(b, width).last() == hex_digit(b % 16));
        assert(a % 16 == b % 16);
        lemma_hex_injective(a / 16, b / 16, (width - 1) as nat);
    }
}

proof fn use_pow(width: nat)
    ensures
        vstd::arithmetic::power::pow(16, 0) == 1,
        width > 0 ==> vstd::arithmetic::power::pow(16, width) == 16 * vstd::arithmetic::power::pow(
            16,
            (width - 1) as nat,
        ),
{
    reveal(vstd::arithmetic::power::pow);
}

/// Numbers have the same decimal digits only where they are the same.
pub proof fn lemma_decimal_injective(a: nat, b: nat)
    requires
        decimal(a) == decimal(b),
    ensures
        a == b,
    decreases a,
{
    if a < 10 {
        if b >= 10 {
            lemma_decimal_len(b / 10);
            assert(decimal(b).len() >= 2);
            assert(decimal(a).len() == 1);
        } else {
            assert(decimal(a)[0] == decimal(b)[0]);
            assert(decimal(a)[0] as nat == 48 + a);
            assert(decimal(b)[0] as nat == 48 + b);
        }
    } else {
        if b < 10 {
            lemma_decimal_len(a / 10);
            assert(decimal(a).len() >= 2);
            assert(decimal(b).len() == 1);
        } else {
            assert(decimal(a).drop_last() =~= decimal(a / 10));
            assert(decimal(b).drop_last() =~= decimal(b / 10));
            assert(decimal(a).last() as nat == 48 + a % 10);
            assert(decimal(b).last() as nat == 48 + b % 10);
            lemma_decimal_injective(a / 10, b / 10);
        }
    }
}

/// Decimal digits are digits, and at least one.
pub proof fn lemma_decimal_len(n: nat)
    ensures
        decimal(n).len() >= 1,
        forall|i: int| 0 <= i < decimal(n).len() ==> '0' <= #[trigger] decimal(n)[i] <= '9',
    decreases n,
{
    if n >= 10 {
        lemma_decimal_len(n / 10);
    }
}

/// Hexadecimal digits are as many as asked for.
pub proof fn lemma_hex_len(n: nat, width: nat)
    ensures
        hex(n, width).len() == width,
    decreases width,
{
    if width > 0 {
        lemma_hex_len(n / 16, (width - 1) as nat);
    }
}

/// Whether `c` has the Unicode property `White_Space`.
pub fn is_space_char(c: char) -> (r: bool)
    ensures
        r == is_space(c),
{
    let n: u32 = c as u32;
    (0x9 <= n && n <= 0xd) || n == 0x20 || n == 0x85 || n == 0xa0 || n == 0x1680 || (0x2000 <= n
        && n <= 0x200a) || n == 0x2028 || n == 0x2029 || n == 0x202f || n == 0x205f || n == 0x3000
}

/// The parts of a text between the characters `c`.
pub fn split_text(s: &str, c: char) -> (r: Vec<String>)
    ensures
        texts(r@) == split_on(s@, c),
{
    let chars = chars_of(s);
    let mut out: Vec<String> = Vec::new();
    let mut part = String::new();
    let mut i: usize = 0;
    assert(part@ =~= Seq::<char>::empty());
    assert(texts(out@).push(part@) =~= split_on(s@.take(0), c));
    while i < chars.len()
        invariant
            chars@ == s@,
            i <= chars@.len(),
            texts(out@).push(part@) == split_on(s@.take(i as int), c),
        decreases chars@.len() - i,
    {
        proof {
            assert(s@.take(i + 1).drop_last() =~= s@.take(i as int));
            assert(s@.take(i + 1).last() == chars@[i as int]);
            assert(texts(out@).push(part@).drop_last() =~= texts(out@));
        }
        let ghost before = texts(out@);
        let ghost word = part@;
        if chars[i] == c {
            out.push(part);
            assert(texts(out@) =~= before.push(word));
            part = String::new();
            assert(part@ =~= Seq::<char>::empty());
        } else {
            part.push(chars[i]);
        }
        i += 1;
    }
    assert(s@.take(i as int) =~= s@);
    let ghost before = texts(out@);
    let ghost word = part@;
    out.push(part);
    assert(texts(out@) =~= before.push(word));
    out
}

/// The parts of a text between white space.
pub fn split_words(s: &str) -> (r: Vec<String>)
    ensures
        texts(r@) == words(s@),
{
    let chars = chars_of(s);
    let mut out: Vec<String> = Vec::new();
    let mut word: Vec<char> = Vec::new();
    let mut i: usize = 0;
    assert(texts(out@) =~= Seq::<Seq<char>>::empty());
    assert(word@ =~= Seq::<char>::empty());
    while i < chars.len()
        invariant
            chars@ == s@,
            i <= chars@.len(),
            words_and_rest(s@.take(i as int)) == (texts(out@), word@),
        decreases chars@.len() - i,
    {
        proof {
            assert(s@.take(i + 1).drop_last() =~= s@.take(i as int));
            assert(s@.take(i + 1).last() == chars@[i as int]);
        }
        if !is_space_char(chars[i]) {
            word.push(chars[i]);
        } else {
            if word.len() > 0 {
                let ghost before = texts(out@);
                let done = string_of(&word, 0, word.len());
                assert(done@ =~= word@);
                out.push(done);
                assert(texts(out@) =~= before.push(word@));
            }
            word = Vec::new();
            assert(word@ =~= Seq::<char>::empty());
        }
        i += 1;
    }
    assert(s@.take(i as int) =~= s@);
    if word.len() > 0 {
        let ghost before = texts(out@);
        let done = string_of(&word, 0, word.len());
        assert(done@ =~= word@);
        out.push(done);
        assert(texts(out@) =~= before.push(word@));
    }
    out
}

/// A trimmed text that is not empty is not trimmed further behind a text that does not start with
/// white space.
pub proof fn lemma_trim_end_of(front: Seq<char>, s: Seq<char>)
    requires
        front.len() > 0,
        !is_space(front[0]),
        s.len() > 0,
        trim(s) == s,
    ensures
        trim(front + s) == front + s,
{
    let whole = front + s;
    assert(whole.first() == front[0]);
    assert(trim_start(whole) == whole);
    lemma_trim_start(s);
    lemma_trim_end(trim_start(s));
    assert(!is_space(s.last()));
    assert(whole.last() == s.last());
}

/// Whether a text comes before another, or is the same, by their characters.
pub open spec fn text_le(a: Seq<char>, b: Seq<char>) -> bool
    decreases a.len(),
{
    if a.len() == 0 {
        true
    } else if b.len() == 0 {
        false
    } else if a.first() == b.first() {
        text_le(a.drop_first(), b.drop_first())
    } else {
        a.first() < b.first()
    }
}

/// Whether a text comes before another, or is the same.
pub fn is_text_le(a: &str, b: &str) -> (r: bool)
    ensures
        r == text_le(a@, b@),
{
    let x = chars_of(a);
    let y = chars_of(b);
    let mut i: usize = 0;
    assert(a@.skip(0) =~= a@);
    assert(b@.skip(0) =~= b@);
    while i < x.len() && i < y.len()
        invariant
            x@ == a@,
            y@ == b@,
            i <= x@.len(),
            i <= y@.len(),
            text_le(a@.skip(i as int), b@.skip(i as int)) == text_le(a@, b@),
        decreases x@.len() - i,
    {
        assert(a@.skip(i as int).drop_first() =~= a@.skip(i + 1));
        assert(b@.skip(i as int).drop_first() =~= b@.skip(i + 1));
        if x[i] != y[i] {
            return x[i] < y[i];
        }
        i += 1;
    }
    i >= x.len()
}

pub proof fn lemma_text_le_total(a: Seq<char>, b: Seq<char>)
    ensures
        text_le(a, b) || text_le(b, a),
    decreases a.len(),
{
    if a.len() > 0 && b.len() > 0 {
        lemma_text_le_total(a.drop_first(), b.drop_first());
    }
}

pub proof fn lemma_text_le_transitive(a: Seq<char>, b: Seq<char>, c: Seq<char>)
    requires
        text_le(a, b),
        text_le(b, c),
    ensures
        text_le(a, c),
    decreases a.len(),
{
    if a.len() > 0 && b.len() > 0 && c.len() > 0 && a.first() == b.first() && b.first()
        == c.first() {
        lemma_text_le_transitive(a.drop_first(), b.drop_first(), c.drop_first());
    }
}

pub proof fn lemma_text_le_antisymmetric(a: Seq<char>, b: Seq<char>)
    requires
        text_le(a, b),
        text_le(b, a),
    ensures
        a == b,
    decreases a.len(),
{
    if a.len() > 0 && b.len() > 0 {
        lemma_text_le_antisymmetric(a.drop_first(), b.drop_first());
        assert(a =~= seq![a.first()] + a.drop_first());
        assert(b =~= seq![b.first()] + b.drop_first());
    } else {
        assert(a =~= b);
    }
}

} // verus!
