//! Text: strings as sequences of characters, and the few things that the rest of the library does
//! with them.

use vstd::prelude::*;

verus! {

/// `String::push` appends one character.
pub assume_specification[ String::push ](s: &mut String, c: char)
    ensures
        final(s)@ == old(s)@.push(c),
;

/// The characters with the Unicode property White_Space.
pub open spec fn is_white_space(c: char) -> bool {
    ||| '\u{9}' <= c <= '\u{d}'
    ||| c == ' '
    ||| c == '\u{85}' || c == '\u{a0}' || c == '\u{1680}'
    ||| '\u{2000}' <= c <= '\u{200a}'
    ||| c == '\u{2028}' || c == '\u{2029}' || c == '\u{202f}' || c == '\u{205f}' || c == '\u{3000}'
}

/// `s` without the white space at its two ends.
pub open spec fn trimmed(s: Seq<char>) -> Seq<char>
    decreases s.len(),
{
    if s.len() > 0 && is_white_space(s[0]) {
        trimmed(s.drop_first())
    } else if s.len() > 0 && is_white_space(s.last()) {
        trimmed(s.drop_last())
    } else {
        s
    }
}

/// How many characters stand before the first `c`: all of them where there is none.
pub open spec fn before(s: Seq<char>, c: char) -> nat
    decreases s.len(),
{
    if s.len() == 0 || s[0] == c {
        0
    } else {
        1 + before(s.drop_first(), c)
    }
}

/// The pieces between the separators: one more than there are separators.
pub open spec fn pieces(s: Seq<char>, separator: char) -> Seq<Seq<char>>
    decreases s.len(),
{
    let n = before(s, separator) as int;
    if n >= s.len() {
        seq![s]
    } else {
        seq![s.take(n)] + pieces(s.skip(n + 1), separator)
    }
}

/// What stands behind the last `c`: everything where there is none.
pub open spec fn after_last(s: Seq<char>, c: char) -> Seq<char>
    decreases s.len(),
{
    if s.len() == 0 || s.last() == c {
        seq![]
    } else {
        after_last(s.drop_last(), c).push(s.last())
    }
}

/// The value of a digit; a letter of either case counts from ten on.
pub open spec fn digit(c: char, radix: nat) -> Option<nat> {
    let value = if '0' <= c <= '9' {
        (c as nat - '0' as nat) as nat
    } else if 'a' <= c <= 'z' {
        (c as nat - 'a' as nat + 10) as nat
    } else if 'A' <= c <= 'Z' {
        (c as nat - 'A' as nat + 10) as nat
    } else {
        radix
    };
    if value < radix {
        Some(value)
    } else {
        None
    }
}

/// The number that digits spell; no digits spell zero.
pub open spec fn number(s: Seq<char>, radix: nat) -> Option<nat>
    decreases s.len(),
{
    if s.len() == 0 {
        Some(0)
    } else {
        match (number(s.drop_last(), radix), digit(s.last(), radix)) {
            (Some(n), Some(d)) => Some(n * radix + d),
            _ => None,
        }
    }
}

/// The views of a list of character lists.
pub open spec fn char_lists(lists: Seq<Vec<char>>) -> Seq<Seq<char>> {
    lists.map_values(|list: Vec<char>| list@)
}

/// The views of a list of strings.
pub open spec fn strings(list: Seq<String>) -> Seq<Seq<char>> {
    list.map_values(|s: String| s@)
}

/// The characters of a string.
pub fn chars_of(s: &str) -> (chars: Vec<char>)
    ensures
        chars@ == s@,
{
    let mut chars: Vec<char> = Vec::new();
    for c in it: s.chars()
        invariant
            it.seq() == s@,
            chars@ == it.seq().take(it.index() as int),
    {
        chars.push(c);
    }
    chars
}

/// The string that characters spell.
pub fn string_of(chars: &[char]) -> (s: String)
    ensures
        s@ == chars@,
{
    let mut s = String::new();
    for i in 0..chars.len()
        invariant
            s@ == chars@.take(i as int),
    {
        s.push(chars[i]);
    }
    s
}

/// Some of the characters, from `start` up to `end`.
pub fn part_of(chars: &[char], start: usize, end: usize) -> (part: Vec<char>)
    requires
        start <= end <= chars@.len(),
    ensures
        part@ == chars@.subrange(start as int, end as int),
{
    let mut part: Vec<char> = Vec::new();
    for i in start..end
        invariant
            end <= chars@.len(),
            part@ == chars@.subrange(start as int, i as int),
    {
        part.push(chars[i]);
    }
    part
}

/// Whether two byte strings are the same.
pub fn bytes_equal(a: &[u8], b: &[u8]) -> (same: bool)
    ensures
        same == (a@ == b@),
{
    if a.len() != b.len() {
        return false;
    }
    for i in 0..a.len()
        invariant
            a@.len() == b@.len(),
            forall|j: int| 0 <= j < i ==> a@[j] == b@[j],
    {
        if a[i] != b[i] {
            return false;
        }
    }
    assert(a@ =~= b@);
    true
}

/// Whether two strings are the same.
pub fn text_equal(a: &str, b: &str) -> (same: bool)
    ensures
        same == (a@ == b@),
{
    proof {
        vstd::utf8::encode_utf8_decode_utf8(a@);
        vstd::utf8::encode_utf8_decode_utf8(b@);
    }
    bytes_equal(a.as_bytes(), b.as_bytes())
}

/// Whether `c` is white space.
pub fn is_space(c: char) -> (yes: bool)
    ensures
        yes == is_white_space(c),
{
    ('\u{9}' <= c && c <= '\u{d}') || c == ' ' || c == '\u{85}' || c == '\u{a0}' || c == '\u{1680}'
        || ('\u{2000}' <= c && c <= '\u{200a}') || c == '\u{2028}' || c == '\u{2029}' || c
        == '\u{202f}' || c == '\u{205f}' || c == '\u{3000}'
}

/// A string without the white space at its two ends.
pub fn trim(s: &str) -> (middle: String)
    ensures
        middle@ == trimmed(s@),
{
    let chars = chars_of(s);
    let mut start: usize = 0;
    let mut end: usize = chars.len();
    assert(chars@.subrange(0, end as int) =~= s@);
    while start < end && is_space(chars[start])
        invariant
            start <= end <= chars@.len(),
            trimmed(chars@.subrange(start as int, end as int)) == trimmed(s@),
        decreases end - start,
    {
        assert(chars@.subrange(start as int, end as int).drop_first() =~= chars@.subrange(
            start + 1,
            end as int,
        ));
        start = start + 1;
    }
    while start < end && is_space(chars[end - 1])
        invariant
            start <= end <= chars@.len(),
            start < end ==> !is_white_space(chars@[start as int]),
            trimmed(chars@.subrange(start as int, end as int)) == trimmed(s@),
        decreases end - start,
    {
        assert(chars@.subrange(start as int, end as int).drop_last() =~= chars@.subrange(
            start as int,
            end - 1,
        ));
        end = end - 1;
    }
    let middle = part_of(&chars, start, end);
    string_of(&middle)
}

/// The first `c` at or behind `from`; the end where there is none.
fn find(chars: &[char], c: char, from: usize) -> (at: usize)
    requires
        from <= chars@.len(),
    ensures
        from <= at <= chars@.len(),
        at == from + before(chars@.skip(from as int), c),
{
    let mut at: usize = from;
    while at < chars.len() && chars[at] != c
        invariant
            from <= at <= chars@.len(),
            forall|j: int| from <= j < at ==> chars@[j] != c,
        decreases chars@.len() - at,
    {
        at = at + 1;
    }
    proof {
        let rest = chars@.skip(from as int);
        let n = at - from;
        assert(forall|j: int| 0 <= j < n ==> rest[j] == chars@[from + j]);
        assert(n < rest.len() ==> rest[n] == chars@[at as int]);
        lemma_before(rest, c, n as nat);
    }
    at
}

/// The pieces between the separators.
pub fn pieces_of(chars: &[char], separator: char) -> (list: Vec<Vec<char>>)
    ensures
        char_lists(list@) == pieces(chars@, separator),
{
    let mut list: Vec<Vec<char>> = Vec::new();
    let mut start: usize = 0;
    assert(chars@.skip(0) =~= chars@);
    loop
        invariant
            start <= chars@.len(),
            pieces(chars@, separator) == char_lists(list@) + pieces(
                chars@.skip(start as int),
                separator,
            ),
        decreases chars@.len() - start,
    {
        let ghost rest = chars@.skip(start as int);
        let ghost done = char_lists(list@);
        let at = find(chars, separator, start);
        let piece = part_of(chars, start, at);
        let ghost n = (at - start) as int;
        list.push(piece);
        assert(char_lists(list@) =~= done.push(piece@));
        if at == chars.len() {
            assert(rest =~= piece@);
            assert(pieces(chars@, separator) =~= char_lists(list@));
            return list;
        }
        assert(rest.take(n) =~= piece@);
        assert(rest.skip(n + 1) =~= chars@.skip(at + 1));
        assert(pieces(chars@, separator) =~= char_lists(list@) + pieces(
            chars@.skip(at + 1),
            separator,
        ));
        start = at + 1;
    }
}

/// What stands behind the last `c`.
pub fn text_after_last(s: &str, c: char) -> (tail: String)
    ensures
        tail@ == after_last(s@, c),
{
    let chars = chars_of(s);
    let mut tail: Vec<char> = Vec::new();
    for i in 0..chars.len()
        invariant
            chars@ == s@,
            tail@ == after_last(s@.take(i as int), c),
    {
        assert(s@.take(i + 1).drop_last() =~= s@.take(i as int));
        if chars[i] == c {
            tail = Vec::new();
        } else {
            tail.push(chars[i]);
        }
    }
    assert(s@.take(s@.len() as int) =~= s@);
    string_of(&tail)
}

/// The value of a digit.
pub fn digit_value(c: char, radix: u32) -> (value: Option<u32>)
    requires
        radix <= 36,
    ensures
        match value {
            Some(v) => digit(c, radix as nat) == Some(v as nat),
            None => digit(c, radix as nat) is None,
        },
{
    let value: u32 = if '0' <= c && c <= '9' {
        c as u32 - 48
    } else if 'a' <= c && c <= 'z' {
        c as u32 - 87
    } else if 'A' <= c && c <= 'Z' {
        c as u32 - 55
    } else {
        radix
    };
    if value < radix {
        Some(value)
    } else {
        None
    }
}

/// The number that digits spell, if it is one and at most `max`.
pub fn number_up_to(chars: &[char], radix: u32, max: u64) -> (value: Option<u64>)
    requires
        1 <= radix <= 36,
    ensures
        match value {
            Some(v) => number(chars@, radix as nat) == Some(v as nat) && v <= max,
            None => match number(chars@, radix as nat) {
                Some(n) => n > max,
                None => true,
            },
        },
{
    let mut value: u64 = 0;
    for i in 0..chars.len()
        invariant
            1 <= radix <= 36,
            value <= max,
            number(chars@.take(i as int), radix as nat) == Some(value as nat),
    {
        assert(chars@.take(i + 1).drop_last() =~= chars@.take(i as int));
        let d: u32 = match digit_value(chars[i], radix) {
            Some(d) => d,
            None => {
                proof {
                    lemma_number_prefix(chars@, radix as nat, i + 1);
                }
                return None;
            },
        };
        assert(0 <= value * radix <= u64::MAX * 36) by (nonlinear_arith)
            requires
                0 <= value <= u64::MAX,
                1 <= radix <= 36,
        ;
        let next: u128 = value as u128 * radix as u128 + d as u128;
        assert(next == value * radix + d);
        if next > max as u128 {
            proof {
                lemma_number_prefix(chars@, radix as nat, i + 1);
            }
            return None;
        }
        value = next as u64;
    }
    assert(chars@.take(chars@.len() as int) =~= chars@);
    Some(value)
}

/// `before` is the first place where `c` stands.
pub proof fn lemma_before(s: Seq<char>, c: char, n: nat)
    requires
        n <= s.len(),
        forall|j: int| 0 <= j < n ==> s[j] != c,
        n < s.len() ==> s[n as int] == c,
    ensures
        before(s, c) == n,
    decreases s.len(),
{
    if n > 0 {
        assert(s[0] != c);
        let rest = s.drop_first();
        assert(forall|j: int| 0 <= j < n - 1 ==> rest[j] == s[j + 1]);
        assert(n < s.len() ==> rest[n - 1] == s[n as int]);
        lemma_before(rest, c, (n - 1) as nat);
    }
}

/// There is always a piece.
pub proof fn lemma_some_piece(s: Seq<char>, separator: char)
    ensures
        pieces(s, separator).len() >= 1,
{
}

/// Digits in front of others spell a number that is no larger; where they spell none, neither does
/// the whole.
pub proof fn lemma_number_prefix(s: Seq<char>, radix: nat, n: int)
    requires
        radix >= 1,
        0 <= n <= s.len(),
    ensures
        number(s.take(n), radix) is None ==> number(s, radix) is None,
        number(s, radix) is Some ==> number(s.take(n), radix)->0 <= number(s, radix)->0,
    decreases s.len() - n,
{
    if n == s.len() {
        assert(s.take(n) =~= s);
    } else {
        lemma_number_prefix(s, radix, n + 1);
        assert(s.take(n + 1).drop_last() =~= s.take(n));
        if number(s.take(n + 1), radix) is Some {
            let a = number(s.take(n), radix)->0;
            let d = digit(s.take(n + 1).last(), radix)->0;
            assert(a <= a * radix + d) by (nonlinear_arith)
                requires
                    radix >= 1,
                    a >= 0,
                    d >= 0,
            ;
        }
    }
}

/// Every character is white space.
pub open spec fn all_white(s: Seq<char>) -> bool {
    forall|i: int| 0 <= i < s.len() ==> is_white_space(#[trigger] s[i])
}

/// Trimming takes white space away, all of it, and nothing else: `s` is white space, what is left,
/// and white space, and what is left neither starts nor ends with any.
pub proof fn law_trimmed(s: Seq<char>) -> (ends: (Seq<char>, Seq<char>))
    ensures
        s == ends.0 + trimmed(s) + ends.1,
        all_white(ends.0),
        all_white(ends.1),
        trimmed(s).len() > 0 ==> !is_white_space(trimmed(s)[0]) && !is_white_space(
            trimmed(s).last(),
        ),
    decreases s.len(),
{
    let none = Seq::<char>::empty();
    if s.len() > 0 && is_white_space(s[0]) {
        let (front, back) = law_trimmed(s.drop_first());
        let longer = seq![s[0]] + front;
        assert forall|i: int| 0 <= i < longer.len() implies is_white_space(#[trigger] longer[i]) by {
            if i > 0 {
                assert(longer[i] == front[i - 1]);
            }
        }
        assert(s =~= seq![s[0]] + s.drop_first());
        assert(s =~= longer + trimmed(s) + back);
        (longer, back)
    } else if s.len() > 0 && is_white_space(s.last()) {
        let (front, back) = law_trimmed(s.drop_last());
        let longer = back.push(s.last());
        assert forall|i: int| 0 <= i < longer.len() implies is_white_space(#[trigger] longer[i]) by {
            if i < back.len() {
                assert(longer[i] == back[i]);
            }
        }
        assert(s =~= s.drop_last().push(s.last()));
        assert(s =~= front + trimmed(s) + longer);
        (front, longer)
    } else {
        assert(s =~= none + s + none);
        (none, none)
    }
}

/// White space around a text does not count: with more of it at either end, trimming leaves the
/// same.
pub proof fn law_white_space_around_does_not_count(
    front: Seq<char>,
    s: Seq<char>,
    back: Seq<char>,
)
    requires
        all_white(front),
        all_white(back),
    ensures
        trimmed(front + s + back) == trimmed(s),
    decreases front.len() + s.len() + back.len(),
{
    let whole = front + s + back;
    if front.len() > 0 {
        assert(is_white_space(front[0]) && whole[0] == front[0]);
        assert(whole.drop_first() =~= front.drop_first() + s + back);
        law_white_space_around_does_not_count(front.drop_first(), s, back);
    } else if s.len() > 0 && is_white_space(s[0]) {
        assert(whole[0] == s[0]);
        assert(whole.drop_first() =~= front + s.drop_first() + back);
        law_white_space_around_does_not_count(front, s.drop_first(), back);
    } else if back.len() > 0 {
        assert(is_white_space(back[0]) && is_white_space(back.last()));
        assert(whole.last() == back.last());
        if s.len() == 0 {
            assert(whole[0] == back[0]);
            assert(whole.drop_first() =~= front + s + back.drop_first());
            law_white_space_around_does_not_count(front, s, back.drop_first());
        } else {
            assert(whole[0] == s[0]);
            assert(whole.drop_last() =~= front + s + back.drop_last());
            law_white_space_around_does_not_count(front, s, back.drop_last());
        }
    } else {
        assert(whole =~= s);
    }
}

/// Pieces with a separator between each two.
pub open spec fn joined(parts: Seq<Seq<char>>, separator: char) -> Seq<char>
    decreases parts.len(),
{
    if parts.len() == 0 {
        seq![]
    } else if parts.len() == 1 {
        parts[0]
    } else {
        parts[0].push(separator) + joined(parts.drop_first(), separator)
    }
}

/// A text is its pieces with the separators between them, and no piece holds a separator.
pub proof fn law_pieces(s: Seq<char>, separator: char)
    ensures
        pieces(s, separator).len() >= 1,
        joined(pieces(s, separator), separator) == s,
        forall|i: int|
            0 <= i < pieces(s, separator).len() ==> !(#[trigger] pieces(s, separator)[i]).contains(
                separator,
            ),
    decreases s.len(),
{
    let n = before(s, separator) as int;
    let parts = pieces(s, separator);
    lemma_before_is_first(s, separator);
    if n >= s.len() {
        assert(joined(parts, separator) =~= s);
    } else {
        let rest = s.skip(n + 1);
        law_pieces(rest, separator);
        lemma_some_piece(rest, separator);
        assert(parts.drop_first() =~= pieces(rest, separator));
        assert(parts[0] == s.take(n));
        assert(s =~= s.take(n).push(separator) + rest);
        assert forall|i: int| 0 <= i < parts.len() implies !(#[trigger] parts[i]).contains(
            separator,
        ) by {
            if i > 0 {
                assert(parts[i] == pieces(rest, separator)[i - 1]);
            }
        }
    }
}

pub(crate) proof fn lemma_before_is_first(s: Seq<char>, c: char)
    ensures
        before(s, c) <= s.len(),
        forall|j: int| 0 <= j < before(s, c) ==> s[j] != c,
        before(s, c) < s.len() ==> s[before(s, c) as int] == c,
    decreases s.len(),
{
    if s.len() > 0 && s[0] != c {
        let rest = s.drop_first();
        lemma_before_is_first(rest, c);
        assert forall|j: int| 0 <= j < before(s, c) implies s[j] != c by {
            if j > 0 {
                assert(s[j] == rest[j - 1]);
            }
        }
    }
}

/// What stands behind the last `c` holds no `c`, and is the end of the text: all of it, or what
/// follows a `c`.
pub proof fn law_after_last(s: Seq<char>, c: char)
    ensures
        !after_last(s, c).contains(c),
        after_last(s, c).len() <= s.len(),
        s.skip(s.len() - after_last(s, c).len()) == after_last(s, c),
        after_last(s, c).len() < s.len() ==> s[s.len() - after_last(s, c).len() - 1] == c,
    decreases s.len(),
{
    let tail = after_last(s, c);
    if s.len() == 0 || s.last() == c {
        assert(s.skip(s.len() as int) =~= tail);
    } else {
        let front = s.drop_last();
        law_after_last(front, c);
        let short = after_last(front, c);
        assert forall|i: int| 0 <= i < tail.len() implies tail[i] != c by {
            if i < short.len() {
                assert(short.contains(short[i]));
            }
        }
        assert forall|i: int| 0 <= i < tail.len() implies tail[i] == s[s.len() - tail.len() + i] by {
            if i < short.len() {
                assert(front.skip(front.len() - short.len())[i] == short[i]);
            }
        }
        assert(s.skip(s.len() - tail.len()) =~= tail);
    }
}

/// Pieces that hold no separator are found again in the text that they make.
pub proof fn law_joined_pieces(parts: Seq<Seq<char>>, separator: char)
    requires
        parts.len() >= 1,
        forall|i: int| 0 <= i < parts.len() ==> !(#[trigger] parts[i]).contains(separator),
    ensures
        pieces(joined(parts, separator), separator) == parts,
    decreases parts.len(),
{
    let s = joined(parts, separator);
    let first = parts[0];
    assert forall|j: int| 0 <= j < first.len() implies first[j] != separator by {
        assert(first.contains(first[j]));
    }
    if parts.len() == 1 {
        lemma_before(s, separator, s.len());
        assert(parts =~= seq![s]);
    } else {
        let others = parts.drop_first();
        assert forall|i: int| 0 <= i < others.len() implies !(#[trigger] others[i]).contains(
            separator,
        ) by {
            assert(others[i] == parts[i + 1]);
        }
        law_joined_pieces(others, separator);
        let n = first.len() as int;
        assert forall|j: int| 0 <= j < n implies s[j] != separator by {
            assert(s[j] == first[j]);
        }
        assert(s[n] == separator);
        lemma_before(s, separator, first.len());
        assert(s.take(n) =~= first);
        assert(s.skip(n + 1) =~= joined(others, separator));
        assert(parts =~= seq![first] + others);
    }
}

/// A decimal digit.
pub open spec fn decimal_digit(d: nat) -> char {
    ('0' as nat + d) as char
}

/// A number in shortest decimal form.
pub open spec fn decimal(n: nat) -> Seq<char>
    decreases n,
{
    if n < 10 {
        seq![decimal_digit(n)]
    } else {
        decimal(n / 10).push(decimal_digit(n % 10))
    }
}

/// So many zeros.
pub open spec fn zeros(k: nat) -> Seq<char> {
    Seq::new(k, |i: int| '0')
}

/// `c` is the digit of `v` in hexadecimal, in either case.
pub open spec fn is_hex_digit(c: char, v: nat) -> bool {
    if v < 10 {
        c == ('0' as nat + v) as char
    } else {
        v < 16 && (c == ('a' as nat + v - 10) as char || c == ('A' as nat + v - 10) as char)
    }
}

/// A digit in hexadecimal has the value that it stands for, and nothing else has one.
pub proof fn law_hex_digits(c: char, v: nat)
    ensures
        digit(c, 16) == Some(v) <==> is_hex_digit(c, v),
{
}

proof fn lemma_decimal_digit(c: char, d: nat)
    ensures
        digit(c, 10) == Some(d) <==> d < 10 && c == decimal_digit(d),
{
}

/// What the shortest decimal form of a number looks like: digits, the first of which is no zero
/// unless it is the only one.
pub proof fn law_decimal_form(n: nat)
    ensures
        decimal(n).len() >= 1,
        forall|i: int| 0 <= i < decimal(n).len() ==> '0' <= #[trigger] decimal(n)[i] <= '9',
        decimal(n)[0] == '0' ==> n == 0,
        n < 10 <==> decimal(n).len() == 1,
        n < 100 <==> decimal(n).len() <= 2,
        n < 1000 <==> decimal(n).len() <= 3,
    decreases n,
{
    if n >= 10 {
        law_decimal_form(n / 10);
        let front = decimal(n / 10);
        assert forall|i: int| 0 <= i < decimal(n).len() implies '0' <= #[trigger] decimal(n)[i]
            <= '9' by {
            if i < front.len() {
                assert(decimal(n)[i] == front[i]);
            }
        }
    }
}

proof fn lemma_zeros_in_front(k: nat, s: Seq<char>, radix: nat)
    requires
        radix > 0,
    ensures
        number(zeros(k) + s, radix) == number(s, radix),
    decreases k + s.len(),
{
    let whole = zeros(k) + s;
    if s.len() > 0 {
        assert(whole.drop_last() =~= zeros(k) + s.drop_last());
        lemma_zeros_in_front(k, s.drop_last(), radix);
    } else if k > 0 {
        let fewer = (k - 1) as nat;
        assert(whole.drop_last() =~= zeros(fewer) + s);
        lemma_zeros_in_front(fewer, s, radix);
        assert(0 * radix == 0) by (nonlinear_arith);
    } else {
        assert(whole =~= s);
    }
}

/// Every number can be written in decimal and is read back, with any number of zeros in front.
pub proof fn law_decimal_is_read_back(n: nat, k: nat)
    ensures
        number(zeros(k) + decimal(n), 10) == Some(n),
        number(decimal(n), 10) == Some(n),
    decreases n,
{
    lemma_zeros_in_front(k, decimal(n), 10);
    let s = decimal(n);
    if n < 10 {
        lemma_decimal_digit(decimal_digit(n), n);
        assert(s.drop_last() =~= seq![]);
        reveal_with_fuel(number, 2);
    } else {
        law_decimal_is_read_back(n / 10, 0);
        lemma_decimal_digit(decimal_digit(n % 10), n % 10);
        assert(s.drop_last() =~= decimal(n / 10));
    }
}

/// What is read as a number in decimal is the shortest form of that number, with zeros in front.
pub proof fn law_read_number_is_decimal(s: Seq<char>) -> (k: nat)
    ensures
        s.len() > 0 ==> (number(s, 10) matches Some(n) ==> s == zeros(k) + decimal(n)),
    decreases s.len(),
{
    if s.len() > 0 && number(s, 10) is Some {
        let n = number(s, 10)->0;
        let front = s.drop_last();
        let d = digit(s.last(), 10)->0;
        lemma_decimal_digit(s.last(), d);
        if front.len() == 0 {
            assert(s =~= zeros(0) + decimal(n));
            0
        } else {
            let k = law_read_number_is_decimal(front);
            let m = number(front, 10)->0;
            assert(n == m * 10 + d);
            if m == 0 {
                assert(front =~= zeros(k + 1));
                assert(s =~= zeros(k + 1) + decimal(n));
                k + 1
            } else {
                assert(n / 10 == m && n % 10 == d);
                assert(s =~= front.push(s.last()));
                assert(s =~= zeros(k) + decimal(n));
                k
            }
        }
    } else {
        0
    }
}

/// The views of lists hold the views of their items, in order.
pub proof fn law_views_of_lists(lists: Seq<Vec<char>>, list: Seq<String>)
    ensures
        char_lists(lists).len() == lists.len(),
        forall|i: int| 0 <= i < lists.len() ==> #[trigger] char_lists(lists)[i] == lists[i]@,
        strings(list).len() == list.len(),
        forall|i: int| 0 <= i < list.len() ==> #[trigger] strings(list)[i] == list[i]@,
{
}

/// Nothing is left of a text exactly where all of it is white space.
pub proof fn law_white_text(s: Seq<char>)
    ensures
        all_white(s) <==> trimmed(s).len() == 0,
{
    let (front, back) = law_trimmed(s);
    let middle = trimmed(s);
    if middle.len() == 0 {
        assert forall|i: int| 0 <= i < s.len() implies is_white_space(#[trigger] s[i]) by {
            if i < front.len() {
                assert(s[i] == front[i]);
            } else {
                assert(s[i] == back[i - front.len()]);
            }
        }
    } else {
        assert(s[front.len() as int] == middle[0]);
    }
}

/// The white space is 25 code points: the five from U+0009 on, the eleven from U+2000 on, and nine
/// others.
pub proof fn law_white_space(c: char)
    ensures
        is_white_space(c) <==> {
            let u = c as u32;
            ||| 0x9 <= u <= 0xd || 0x2000 <= u <= 0x200a
            ||| u == 0x20 || u == 0x85 || u == 0xa0 || u == 0x1680 || u == 0x2028 || u == 0x2029
            ||| u == 0x202f || u == 0x205f || u == 0x3000
        },
{
}

} // verus!
