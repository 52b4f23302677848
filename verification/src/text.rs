//! Text as sequences of characters.
//!
//! Every function below works on whole characters: an index is a character
//! index, never a byte offset, so no slice can fall inside an encoding.
//! Byte lengths, where a rule of the protocol is stated in bytes, go through
//! [`byte_len`].

use vstd::prelude::*;
use vstd::string::*;
use vstd::utf8::encode_utf8;

verus! {

/// `String::push` appends one character at the end of the string.
pub assume_specification[ String::push ](s: &mut String, c: char)
    ensures
        final(s)@ == old(s)@.push(c),
;

// ---------------------------------------------------------------------------
// Models
// ---------------------------------------------------------------------------

/// The contents of a list of strings.
pub open spec fn texts_of(list: Seq<String>) -> Seq<Seq<char>> {
    Seq::new(list.len(), |i: int| list[i]@)
}

/// The contents of a text that may be missing.
pub open spec fn option_view(t: Option<String>) -> Option<Seq<char>> {
    match t {
        Some(s) => Some(s@),
        None => None,
    }
}

/// The contents of a text that may be missing.
pub open spec fn option_str_view(t: Option<&str>) -> Option<Seq<char>> {
    match t {
        Some(s) => Some(s@),
        None => None,
    }
}

/// `pattern` stands in `s` at position `i`.
pub open spec fn matches_at(s: Seq<char>, pattern: Seq<char>, i: int) -> bool {
    &&& 0 <= i
    &&& i + pattern.len() <= s.len()
    &&& s.subrange(i, i + pattern.len()) == pattern
}

/// `pattern` stands somewhere in `s`.
pub open spec fn occurs(s: Seq<char>, pattern: Seq<char>) -> bool {
    exists|i: int| matches_at(s, pattern, i)
}

/// The first position at or after `from` at which `pattern` stands in `s`.
pub open spec fn find_from(s: Seq<char>, pattern: Seq<char>, from: int) -> Option<int>
    decreases s.len() - from + 1,
{
    if from < 0 || from + pattern.len() > s.len() {
        None
    } else if matches_at(s, pattern, from) {
        Some(from)
    } else {
        find_from(s, pattern, from + 1)
    }
}

/// The first position at which `pattern` stands in `s`.
pub open spec fn first_match(s: Seq<char>, pattern: Seq<char>) -> Option<int> {
    find_from(s, pattern, 0)
}

pub open spec fn starts_with_spec(s: Seq<char>, prefix: Seq<char>) -> bool {
    matches_at(s, prefix, 0)
}

pub open spec fn ends_with_spec(s: Seq<char>, suffix: Seq<char>) -> bool {
    matches_at(s, suffix, s.len() - suffix.len())
}

/// The Unicode property `White_Space`.
pub open spec fn is_white(c: char) -> bool {
    let u = c as u32;
    ||| 0x9 <= u <= 0xd
    ||| u == 0x20
    ||| u == 0x85
    ||| u == 0xa0
    ||| u == 0x1680
    ||| 0x2000 <= u <= 0x200a
    ||| u == 0x2028
    ||| u == 0x2029
    ||| u == 0x202f
    ||| u == 0x205f
    ||| u == 0x3000
}

/// `s` without its leading white space.
pub open spec fn trimmed_start(s: Seq<char>) -> Seq<char>
    decreases s.len(),
{
    if s.len() > 0 && is_white(s[0]) {
        trimmed_start(s.drop_first())
    } else {
        s
    }
}

/// `s` without its trailing white space.
pub open spec fn trimmed_end(s: Seq<char>) -> Seq<char>
    decreases s.len(),
{
    if s.len() > 0 && is_white(s.last()) {
        trimmed_end(s.drop_last())
    } else {
        s
    }
}

/// `s` without the white space at its two ends.
pub open spec fn trimmed(s: Seq<char>) -> Seq<char> {
    trimmed_end(trimmed_start(s))
}

/// The pieces of `s` between the occurrences of `sep`: one more than there
/// are separators.
pub open spec fn split_at_char(s: Seq<char>, sep: char) -> Seq<Seq<char>>
    decreases s.len(),
{
    if s.len() == 0 {
        seq![Seq::<char>::empty()]
    } else {
        let rest = split_at_char(s.drop_last(), sep);
        if s.last() == sep {
            rest.push(Seq::empty())
        } else {
            rest.update(rest.len() - 1, rest.last().push(s.last()))
        }
    }
}

/// The parts in order, with `sep` between two neighbours.
pub open spec fn joined(parts: Seq<Seq<char>>, sep: Seq<char>) -> Seq<char>
    decreases parts.len(),
{
    if parts.len() == 0 {
        Seq::empty()
    } else if parts.len() == 1 {
        parts[0]
    } else {
        joined(parts.drop_last(), sep) + sep + parts.last()
    }
}

/// The parts in order, nothing between them.
pub open spec fn concatenated(parts: Seq<Seq<char>>) -> Seq<char>
    decreases parts.len(),
{
    if parts.len() == 0 {
        Seq::empty()
    } else {
        concatenated(parts.drop_last()) + parts.last()
    }
}

/// `A`..`Z` become `a`..`z`; every other character is kept.
pub open spec fn ascii_lower_char(c: char) -> char {
    if 'A' <= c <= 'Z' {
        ((c as u32) + 32) as char
    } else {
        c
    }
}

pub open spec fn ascii_lowered(s: Seq<char>) -> Seq<char> {
    Seq::new(s.len(), |i: int| ascii_lower_char(s[i]))
}

pub open spec fn is_digit(c: char) -> bool {
    '0' <= c <= '9'
}

/// The character that stands for a digit below ten.
pub open spec fn digit_char(d: nat) -> char {
    (('0' as u32) + d) as char
}

/// The decimal digits of `n`, without leading zeros.
pub open spec fn decimal(n: nat) -> Seq<char>
    decreases n,
{
    if n < 10 {
        seq![digit_char(n)]
    } else {
        decimal(n / 10).push(digit_char(n % 10))
    }
}

/// The number that a run of decimal digits stands for.
pub open spec fn digits_value(s: Seq<char>) -> nat
    decreases s.len(),
{
    if s.len() == 0 {
        0
    } else {
        digits_value(s.drop_last()) * 10 + ((s.last() as u32) - ('0' as u32)) as nat
    }
}

pub open spec fn all_digits(s: Seq<char>) -> bool {
    forall|i: int| 0 <= i < s.len() ==> is_digit(#[trigger] s[i])
}

/// `s` without the one sign `+` that may stand before an unsigned number.
pub open spec fn without_plus(s: Seq<char>) -> Seq<char> {
    if s.len() > 0 && s[0] == '+' {
        s.drop_first()
    } else {
        s
    }
}

/// The unsigned number, at most `max`, that `s` spells: an optional `+`, then
/// one or more decimal digits.
pub open spec fn unsigned_of(s: Seq<char>, max: nat) -> Option<nat> {
    let digits = without_plus(s);
    if digits.len() > 0 && all_digits(digits) && digits_value(digits) <= max {
        Some(digits_value(digits))
    } else {
        None
    }
}

/// The signed number, from `-max - 1` to `max`, that `s` spells: an optional
/// sign, then one or more decimal digits.
pub open spec fn signed_of(s: Seq<char>, max: nat) -> Option<int> {
    if s.len() > 0 && s[0] == '-' {
        let digits = s.drop_first();
        if digits.len() > 0 && all_digits(digits) && digits_value(digits) <= max + 1 {
            Some(-(digits_value(digits) as int))
        } else {
            None
        }
    } else {
        match unsigned_of(s, max) {
            Some(n) => Some(n as int),
            None => None,
        }
    }
}

/// The decimal digits of a number, after a `-` where it is negative.
pub open spec fn signed_decimal(n: int) -> Seq<char> {
    if n < 0 {
        seq!['-'] + decimal((-n) as nat)
    } else {
        decimal(n as nat)
    }
}

/// `n` in decimal, with zeros in front up to the given width.
pub open spec fn zero_padded(n: nat, width: nat) -> Seq<char> {
    let digits = decimal(n);
    if digits.len() >= width {
        digits
    } else {
        Seq::new((width - digits.len()) as nat, |i: int| '0') + digits
    }
}

/// The text without the carriage return that it may end in.
pub open spec fn without_return(s: Seq<char>) -> Seq<char> {
    if s.len() > 0 && s.last() == '\r' {
        s.drop_last()
    } else {
        s
    }
}

/// The lines of a text: what stands between the line ends (`\n`, or `\r\n`),
/// without an empty line after the last of them.
pub open spec fn lines_of(s: Seq<char>) -> Seq<Seq<char>> {
    let parts = split_at_char(s, '\n');
    let ended = Seq::new((parts.len() - 1) as nat, |i: int| without_return(parts[i]));
    if parts.last().len() == 0 {
        ended
    } else {
        ended.push(parts.last())
    }
}

/// The length of the UTF-8 encoding.
pub open spec fn utf8_len(s: Seq<char>) -> nat {
    encode_utf8(s).len()
}

/// How often `pattern` stands in `s` at or after `from`, counted left to
/// right without overlap.
pub open spec fn match_count(s: Seq<char>, pattern: Seq<char>, from: int) -> nat
    decreases s.len() - from,
{
    match find_from(s, pattern, from) {
        Some(i) => if i >= from && pattern.len() > 0 && i + pattern.len() <= s.len() {
            1 + match_count(s, pattern, i + pattern.len())
        } else {
            0
        },
        None => 0,
    }
}

// ---------------------------------------------------------------------------
// Facts about the models
// ---------------------------------------------------------------------------

/// What a search from `from` finds is the leftmost match there, and a search
/// that finds nothing leaves no match behind.
pub proof fn lemma_find_from(s: Seq<char>, pattern: Seq<char>, from: int)
    requires
        0 <= from,
    ensures
        match find_from(s, pattern, from) {
            Some(i) => from <= i && matches_at(s, pattern, i) && forall|j: int|
                from <= j < i ==> !matches_at(s, pattern, j),
            None => forall|j: int| from <= j ==> !matches_at(s, pattern, j),
        },
    decreases s.len() - from + 1,
{
    if from + pattern.len() > s.len() {
    } else if matches_at(s, pattern, from) {
    } else {
        lemma_find_from(s, pattern, from + 1);
    }
}

/// The leftmost match is what the search finds.
pub proof fn lemma_find_from_is(s: Seq<char>, pattern: Seq<char>, from: int, i: int)
    requires
        0 <= from <= i,
        matches_at(s, pattern, i),
        forall|j: int| from <= j < i ==> !matches_at(s, pattern, j),
    ensures
        find_from(s, pattern, from) == Some(i),
{
    lemma_find_from(s, pattern, from);
}

/// A pattern occurs where and only where the search finds it.
pub proof fn lemma_occurs(s: Seq<char>, pattern: Seq<char>)
    ensures
        occurs(s, pattern) <==> first_match(s, pattern) is Some,
{
    lemma_find_from(s, pattern, 0);
    if occurs(s, pattern) {
        let i = choose|i: int| matches_at(s, pattern, i);
        assert(matches_at(s, pattern, i));
    }
    if first_match(s, pattern) is Some {
        assert(matches_at(s, pattern, first_match(s, pattern)->0));
    }
}

/// Characters put after a text leave the matches inside it where they are.
pub proof fn lemma_matches_at_prefix(s: Seq<char>, more: Seq<char>, pattern: Seq<char>, i: int)
    requires
        0 <= i,
        i + pattern.len() <= s.len(),
    ensures
        matches_at(s + more, pattern, i) == matches_at(s, pattern, i),
{
    assert((s + more).subrange(i, i + pattern.len()) =~= s.subrange(i, i + pattern.len()));
}

pub proof fn lemma_split_nonempty(s: Seq<char>, sep: char)
    ensures
        split_at_char(s, sep).len() >= 1,
    decreases s.len(),
{
    if s.len() > 0 {
        lemma_split_nonempty(s.drop_last(), sep);
    }
}

pub proof fn lemma_concatenated_push(parts: Seq<Seq<char>>, part: Seq<char>)
    ensures
        concatenated(parts.push(part)) == concatenated(parts) + part,
{
    assert(parts.push(part).drop_last() =~= parts);
}

pub proof fn lemma_concatenated_add(a: Seq<Seq<char>>, b: Seq<Seq<char>>)
    ensures
        concatenated(a + b) == concatenated(a) + concatenated(b),
    decreases b.len(),
{
    if b.len() == 0 {
        assert(a + b =~= a);
        assert(concatenated(a) + concatenated(b) =~= concatenated(a));
    } else {
        lemma_concatenated_add(a, b.drop_last());
        assert((a + b).drop_last() =~= a + b.drop_last());
        assert((a + b).last() == b.last());
        assert(concatenated(a + b) =~= concatenated(a) + concatenated(b));
    }
}

pub proof fn lemma_texts_push(list: Seq<String>, item: String)
    ensures
        texts_of(list.push(item)) == texts_of(list).push(item@),
{
    assert(texts_of(list.push(item)) =~= texts_of(list).push(item@));
}

/// The encoding of a text is the encodings of its parts, in order.
pub proof fn lemma_utf8_len_add(a: Seq<char>, b: Seq<char>)
    ensures
        utf8_len(a + b) == utf8_len(a) + utf8_len(b),
    decreases a.len(),
{
    if a.len() == 0 {
        assert(a + b =~= b);
    } else {
        lemma_utf8_len_add(a.drop_first(), b);
        assert((a + b).drop_first() =~= a.drop_first() + b);
        assert((a + b)[0] == a[0]);
    }
}

/// How many bytes a character takes.
pub proof fn lemma_utf8_one(c: char)
    ensures
        utf8_len(seq![c]) == if (c as u32) < 0x80 {
            1nat
        } else if (c as u32) < 0x800 {
            2nat
        } else if (c as u32) < 0x1_0000 {
            3nat
        } else {
            4nat
        },
{
    reveal_with_fuel(encode_utf8, 2);
    assert(seq![c].drop_first() =~= Seq::<char>::empty());
}

/// No piece holds the separator, and a text without it is one piece.
pub proof fn lemma_split_pieces(s: Seq<char>, sep: char)
    ensures
        forall|i: int|
            0 <= i < split_at_char(s, sep).len() ==> !(#[trigger] split_at_char(s, sep)[i]).contains(
                sep,
            ),
        !s.contains(sep) ==> split_at_char(s, sep) == seq![s],
    decreases s.len(),
{
    lemma_split_nonempty(s, sep);
    if s.len() > 0 {
        let before = s.drop_last();
        let rest = split_at_char(before, sep);
        lemma_split_pieces(before, sep);
        lemma_split_nonempty(before, sep);
        assert forall|i: int| 0 <= i < split_at_char(s, sep).len() implies !(
        #[trigger] split_at_char(s, sep)[i]).contains(sep) by {
            let piece = split_at_char(s, sep)[i];
            if s.last() == sep {
                if i < rest.len() {
                    assert(piece == rest[i]);
                }
            } else {
                if i < rest.len() - 1 {
                    assert(piece == rest[i]);
                } else {
                    assert(!rest[rest.len() - 1].contains(sep));
                    if piece.contains(sep) {
                        let k = choose|k: int| 0 <= k < piece.len() && piece[k] == sep;
                        assert(rest.last()[k] == sep);
                    }
                }
            }
        }
        if !s.contains(sep) {
            if before.contains(sep) {
                let k = choose|k: int| 0 <= k < before.len() && before[k] == sep;
                assert(s[k] == sep);
            }
            assert(s[s.len() - 1] != sep);
            assert(before.push(s.last()) =~= s);
            assert(split_at_char(s, sep) =~= seq![s]);
        }
    } else {
        assert(s =~= Seq::<char>::empty());
    }
}

/// Splitting a text in two steps: the last piece of the first part is where
/// the second part goes on.
pub proof fn lemma_split_add(a: Seq<char>, b: Seq<char>, sep: char)
    ensures
        ({
            let first = split_at_char(a, sep);
            split_at_char(a + b, sep) == first.drop_last() + split_at_char(first.last() + b, sep)
        }),
    decreases b.len(),
{
    let first = split_at_char(a, sep);
    lemma_split_nonempty(a, sep);
    let last = first.last();
    if b.len() == 0 {
        assert(a + b =~= a);
        assert(last + b =~= last);
        lemma_split_pieces(a, sep);
        assert(first[first.len() - 1] == last);
        lemma_split_pieces(last, sep);
        assert(first.drop_last() + seq![last] =~= first);
    } else {
        let front = b.drop_last();
        lemma_split_add(a, front, sep);
        assert((a + b).drop_last() =~= a + front);
        assert((last + b).drop_last() =~= last + front);
        lemma_split_nonempty(last + front, sep);
        let tail = split_at_char(last + front, sep);
        let whole = split_at_char(a + front, sep);
        assert(whole.last() == tail.last());
        if b.last() == sep {
            assert(split_at_char(a + b, sep) =~= first.drop_last() + split_at_char(last + b, sep));
        } else {
            assert(split_at_char(a + b, sep) =~= first.drop_last() + split_at_char(last + b, sep));
        }
    }
}

/// A larger prefix of digits stands for a number at least as large.
proof fn lemma_digits_value_prefix(s: Seq<char>, n: int)
    requires
        0 <= n <= s.len(),
        all_digits(s),
    ensures
        digits_value(s.take(n)) <= digits_value(s),
    decreases s.len(),
{
    if n < s.len() {
        let front = s.drop_last();
        assert(all_digits(front)) by {
            assert forall|i: int| 0 <= i < front.len() implies is_digit(#[trigger] front[i]) by {
                assert(front[i] == s[i]);
            }
        }
        lemma_digits_value_prefix(front, n);
        assert(front.take(n) =~= s.take(n));
        assert(is_digit(s[s.len() - 1]));
    } else {
        assert(s.take(n) =~= s);
    }
}

/// The decimal digits of a number are digits that stand for it.
pub proof fn lemma_decimal_value(n: nat)
    ensures
        decimal(n).len() > 0,
        all_digits(decimal(n)),
        digits_value(decimal(n)) == n,
    decreases n,
{
    if n < 10 {
        assert(decimal(n).drop_last() =~= Seq::<char>::empty());
        assert(digits_value(decimal(n).drop_last()) == 0);
    } else {
        lemma_decimal_value(n / 10);
        assert(decimal(n).drop_last() =~= decimal(n / 10));
    }
}

/// A number printed in decimal is read back as itself.
pub proof fn law_decimal_read_back(n: nat, max: nat)
    requires
        n <= max,
    ensures
        unsigned_of(decimal(n), max) == Some(n),
{
    lemma_decimal_value(n);
    assert(is_digit(decimal(n)[0]));
}

// ---------------------------------------------------------------------------
// Functions
// ---------------------------------------------------------------------------

/// The characters of `s`, in order.
pub fn chars_of(s: &str) -> (out: Vec<char>)
    ensures
        out@ == s@,
{
    let mut out: Vec<char> = Vec::new();
    for c in it: s.chars()
        invariant
            out@ =~= it.seq().take(it.index()),
            it.seq() == s@,
    {
        out.push(c);
    }
    out
}

/// A text that may be missing, borrowed.
pub fn borrowed(value: &Option<String>) -> (r: Option<&str>)
    ensures
        option_str_view(r) == option_view(*value),
{
    match value {
        Some(v) => Some(v.as_str()),
        None => None,
    }
}

/// The string made of the characters from `from` up to `to`.
pub fn string_of_range(chars: &[char], from: usize, to: usize) -> (out: String)
    requires
        from <= to <= chars@.len(),
    ensures
        out@ == chars@.subrange(from as int, to as int),
{
    let mut out: String = String::new();
    let mut i: usize = from;
    while i < to
        invariant
            from <= i <= to <= chars@.len(),
            out@ =~= chars@.subrange(from as int, i as int),
        decreases to - i,
    {
        out.push(chars[i]);
        i += 1;
    }
    out
}

/// One text after the other.
pub fn cat(a: &str, b: &str) -> (r: String)
    ensures
        r@ == a@ + b@,
{
    let mut out: String = a.to_owned();
    out.append(b);
    out
}

/// Three texts, one after the other.
pub fn cat3(a: &str, b: &str, c: &str) -> (r: String)
    ensures
        r@ == a@ + b@ + c@,
{
    let mut out: String = a.to_owned();
    out.append(b);
    out.append(c);
    out
}

/// Whether two texts hold the same characters.
pub fn same(a: &str, b: &str) -> (r: bool)
    ensures
        r == (a@ == b@),
{
    a.to_owned() == b.to_owned()
}

/// Whether `pattern` stands in `s` at position `at`.
pub fn matches_in(s: &[char], pattern: &[char], at: usize) -> (r: bool)
    ensures
        r == matches_at(s@, pattern@, at as int),
{
    if pattern.len() > s.len() || at > s.len() - pattern.len() {
        return false;
    }
    let total: usize = s.len();
    let mut k: usize = 0;
    while k < pattern.len()
        invariant
            at + pattern@.len() <= s@.len(),
            total == s@.len(),
            k <= pattern@.len(),
            forall|j: int| 0 <= j < k ==> s@[at + j] == #[trigger] pattern@[j],
        decreases pattern@.len() - k,
    {
        if s[at + k] != pattern[k] {
            proof {
                assert(s@.subrange(at as int, at + pattern@.len())[k as int] == s@[at + k]);
            }
            return false;
        }
        k += 1;
    }
    proof {
        assert(s@.subrange(at as int, at + pattern@.len()) =~= pattern@);
    }
    true
}

/// The first position at or after `from` at which `pattern` stands in `s`.
pub fn find_in(s: &[char], pattern: &[char], from: usize) -> (r: Option<usize>)
    ensures
        match r {
            Some(i) => find_from(s@, pattern@, from as int) == Some(i as int),
            None => find_from(s@, pattern@, from as int) is None,
        },
{
    if pattern.len() > s.len() {
        return None;
    }
    let last: usize = s.len() - pattern.len();
    let mut i: usize = from;
    while i <= last
        invariant
            last == s@.len() - pattern@.len(),
            from <= i,
            i <= last + 1 || i == from,
            find_from(s@, pattern@, from as int) == find_from(s@, pattern@, i as int),
        decreases last + 1 - i,
    {
        if matches_in(s, pattern, i) {
            return Some(i);
        }
        if i == last {
            proof {
                assert(find_from(s@, pattern@, i + 1) is None);
            }
            return None;
        }
        i += 1;
    }
    None
}

/// The first position at which `pattern` stands in `s`.
pub fn find(s: &str, pattern: &str) -> (r: Option<usize>)
    ensures
        match r {
            Some(i) => first_match(s@, pattern@) == Some(i as int) && i + pattern@.len() <= s@.len(),
            None => first_match(s@, pattern@) is None,
        },
{
    let text = chars_of(s);
    let wanted = chars_of(pattern);
    proof {
        lemma_find_from(s@, pattern@, 0);
    }
    find_in(text.as_slice(), wanted.as_slice(), 0)
}

/// Whether `pattern` stands somewhere in `s`.
pub fn contains(s: &str, pattern: &str) -> (r: bool)
    ensures
        r == occurs(s@, pattern@),
{
    proof {
        lemma_occurs(s@, pattern@);
    }
    find(s, pattern).is_some()
}

pub fn starts_with(s: &str, prefix: &str) -> (r: bool)
    ensures
        r == starts_with_spec(s@, prefix@),
{
    let text = chars_of(s);
    let wanted = chars_of(prefix);
    matches_in(text.as_slice(), wanted.as_slice(), 0)
}

pub fn ends_with(s: &str, suffix: &str) -> (r: bool)
    ensures
        r == ends_with_spec(s@, suffix@),
{
    let text = chars_of(s);
    let wanted = chars_of(suffix);
    if wanted.len() > text.len() {
        return false;
    }
    matches_in(text.as_slice(), wanted.as_slice(), text.len() - wanted.len())
}

/// What follows `prefix` in `s`, if `s` begins with it.
pub fn strip_prefix<'a>(s: &'a str, prefix: &str) -> (r: Option<&'a str>)
    ensures
        match r {
            Some(rest) => starts_with_spec(s@, prefix@) && rest@ == s@.skip(prefix@.len() as int),
            None => !starts_with_spec(s@, prefix@),
        },
{
    if starts_with(s, prefix) {
        let n: usize = s.unicode_len();
        let k: usize = prefix.unicode_len();
        Some(s.substring_char(k, n))
    } else {
        None
    }
}

/// What precedes `suffix` in `s`, if `s` ends with it.
pub fn strip_suffix<'a>(s: &'a str, suffix: &str) -> (r: Option<&'a str>)
    ensures
        match r {
            Some(rest) => ends_with_spec(s@, suffix@) && rest@ == s@.take(s@.len() - suffix@.len()),
            None => !ends_with_spec(s@, suffix@),
        },
{
    if ends_with(s, suffix) {
        let n: usize = s.unicode_len();
        let k: usize = suffix.unicode_len();
        Some(s.substring_char(0, n - k))
    } else {
        None
    }
}

/// Whether `c` has the Unicode property `White_Space`.
pub fn is_white_space(c: char) -> (r: bool)
    ensures
        r == is_white(c),
{
    let u: u32 = c as u32;
    (0x9 <= u && u <= 0xd) || u == 0x20 || u == 0x85 || u == 0xa0 || u == 0x1680 || (0x2000 <= u
        && u <= 0x200a) || u == 0x2028 || u == 0x2029 || u == 0x202f || u == 0x205f || u == 0x3000
}

/// `s` without its leading white space.
pub fn trim_start(s: &str) -> (r: &str)
    ensures
        r@ == trimmed_start(s@),
{
    let chars = chars_of(s);
    let n: usize = chars.len();
    let mut i: usize = 0;
    proof {
        assert(s@.skip(0) =~= s@);
    }
    while i < n && is_white_space(chars[i])
        invariant
            n == chars@.len(),
            chars@ == s@,
            i <= n,
            trimmed_start(s@) == trimmed_start(s@.skip(i as int)),
        decreases n - i,
    {
        proof {
            assert(s@.skip(i as int).drop_first() =~= s@.skip(i + 1));
        }
        i += 1;
    }
    s.substring_char(i, n)
}

/// `s` without its trailing white space.
pub fn trim_end(s: &str) -> (r: &str)
    ensures
        r@ == trimmed_end(s@),
{
    let chars = chars_of(s);
    let mut n: usize = chars.len();
    proof {
        assert(s@.take(n as int) =~= s@);
    }
    while n > 0 && is_white_space(chars[n - 1])
        invariant
            chars@ == s@,
            n <= chars@.len(),
            trimmed_end(s@) == trimmed_end(s@.take(n as int)),
        decreases n,
    {
        proof {
            assert(s@.take(n as int).drop_last() =~= s@.take(n - 1));
        }
        n -= 1;
    }
    proof {
        assert(s@.subrange(0, n as int) =~= s@.take(n as int));
    }
    s.substring_char(0, n)
}

/// `s` without the white space at its two ends.
pub fn trim(s: &str) -> (r: &str)
    ensures
        r@ == trimmed(s@),
{
    trim_end(trim_start(s))
}

/// Whether `s` holds nothing but white space.
pub fn is_blank(s: &str) -> (r: bool)
    ensures
        r == (trimmed(s@).len() == 0),
{
    trim(s).is_empty()
}

/// The pieces of `s` between the occurrences of `sep`.
pub fn split(s: &str, sep: char) -> (r: Vec<String>)
    ensures
        texts_of(r@) == split_at_char(s@, sep),
{
    let chars = chars_of(s);
    let mut done: Vec<String> = Vec::new();
    let mut piece: String = String::new();
    let mut i: usize = 0;
    proof {
        assert(s@.take(0) =~= Seq::<char>::empty());
        assert(texts_of(done@).push(piece@) =~= seq![Seq::<char>::empty()]);
    }
    while i < chars.len()
        invariant
            chars@ == s@,
            i <= chars@.len(),
            texts_of(done@).push(piece@) =~= split_at_char(s@.take(i as int), sep),
        decreases chars@.len() - i,
    {
        let ghost before = texts_of(done@).push(piece@);
        proof {
            assert(s@.take(i + 1).drop_last() =~= s@.take(i as int));
            assert(before.last() == piece@);
        }
        if chars[i] == sep {
            let ghost old_done = done@;
            let ghost old_piece = piece;
            done.push(piece);
            proof {
                lemma_texts_push(old_done, old_piece);
            }
            piece = String::new();
        } else {
            piece.push(chars[i]);
            proof {
                assert(before.update(before.len() - 1, before.last().push(chars@[i as int]))
                    =~= texts_of(done@).push(piece@));
            }
        }
        i += 1;
    }
    proof {
        assert(s@.take(chars@.len() as int) =~= s@);
        lemma_texts_push(done@, piece);
    }
    done.push(piece);
    done
}

/// The parts in order, with `sep` between two neighbours.
pub fn join(parts: &[String], sep: &str) -> (r: String)
    ensures
        r@ == joined(texts_of(parts@), sep@),
{
    let mut out: String = String::new();
    let mut i: usize = 0;
    while i < parts.len()
        invariant
            i <= parts@.len(),
            out@ == joined(texts_of(parts@).take(i as int), sep@),
        decreases parts@.len() - i,
    {
        proof {
            let all = texts_of(parts@);
            assert(all.take(i + 1).drop_last() =~= all.take(i as int));
            if i == 0 {
                assert(all.take(1)[0] =~= Seq::<char>::empty() + parts@[0]@);
            }
        }
        if i > 0 {
            out.append(sep);
        }
        out.append(parts[i].as_str());
        i += 1;
    }
    proof {
        assert(texts_of(parts@).take(parts@.len() as int) =~= texts_of(parts@));
    }
    out
}

/// `s` with `A`..`Z` turned into `a`..`z`.
pub fn to_ascii_lowercase(s: &str) -> (r: String)
    ensures
        r@ == ascii_lowered(s@),
{
    let mut out: String = String::new();
    for c in it: s.chars()
        invariant
            it.seq() == s@,
            out@ =~= ascii_lowered(s@).take(it.index()),
    {
        if 'A' <= c && c <= 'Z' {
            let code: u8 = c as u8;
            let lower: u8 = code + 32;
            out.push(lower as char);
        } else {
            out.push(c);
        }
    }
    out
}

/// The decimal digits of `n`.
pub fn decimal_text(n: u64) -> (r: String)
    ensures
        r@ == decimal(n as nat),
    decreases n,
{
    let digit: u8 = (n % 10) as u8;
    let c: char = (48 + digit) as char;
    if n < 10 {
        let mut out: String = String::new();
        out.push(c);
        proof {
            assert(out@ =~= decimal(n as nat));
        }
        out
    } else {
        let mut out = decimal_text(n / 10);
        out.push(c);
        out
    }
}

/// The unsigned number, at most `max`, that `s` spells.
pub fn parse_unsigned(s: &str, max: u64) -> (r: Option<u64>)
    ensures
        match r {
            Some(n) => unsigned_of(s@, max as nat) == Some(n as nat),
            None => unsigned_of(s@, max as nat) is None,
        },
{
    let chars = chars_of(s);
    let start: usize = if chars.len() > 0 && chars[0] == '+' { 1 } else { 0 };
    let ghost digits = without_plus(s@);
    proof {
        assert(digits =~= s@.skip(start as int));
    }
    if chars.len() == start {
        return None;
    }
    let mut value: u64 = 0;
    let mut i: usize = start;
    proof {
        assert(digits.take(0) =~= Seq::<char>::empty());
    }
    while i < chars.len()
        invariant
            chars@ == s@,
            start <= i <= chars@.len(),
            digits == s@.skip(start as int),
            digits == without_plus(s@),
            forall|j: int| 0 <= j < i - start ==> is_digit(#[trigger] digits[j]),
            value == digits_value(digits.take(i - start)),
            value <= max,
        decreases chars@.len() - i,
    {
        let c: char = chars[i];
        proof {
            assert(digits[i - start] == c);
            assert(digits.take(i + 1 - start).drop_last() =~= digits.take(i - start));
            assert(digits.take(i + 1 - start).last() == c);
        }
        if !('0' <= c && c <= '9') {
            return None;
        }
        let digit: u64 = (c as u64) - ('0' as u64);
        let wide: u128 = (value as u128) * 10 + (digit as u128);
        if wide > max as u128 {
            proof {
                if all_digits(digits) {
                    lemma_digits_value_prefix(digits, i + 1 - start);
                }
            }
            return None;
        }
        value = wide as u64;
        i += 1;
    }
    proof {
        assert(digits.take(chars@.len() - start) =~= digits);
    }
    Some(value)
}

/// The signed number that `s` spells, if it fits.
pub fn parse_signed(s: &str) -> (r: Option<i64>)
    ensures
        match r {
            Some(n) => signed_of(s@, i64::MAX as nat) == Some(n as int),
            None => signed_of(s@, i64::MAX as nat) is None,
        },
{
    let n: usize = s.unicode_len();
    if n > 0 && s.get_char(0) == '-' {
        let digits = s.substring_char(1, n);
        proof {
            assert(s@.subrange(1, n as int) =~= s@.drop_first());
        }
        if n > 1 && digits.get_char(0) == '+' {
            proof {
                assert(!is_digit(s@.drop_first()[0]));
            }
            return None;
        }
        match parse_unsigned(digits, 0x8000_0000_0000_0000) {
            Some(v) => {
                if v == 0x8000_0000_0000_0000 {
                    Some(i64::MIN)
                } else {
                    Some(-(v as i64))
                }
            },
            None => None,
        }
    } else {
        match parse_unsigned(s, 0x7fff_ffff_ffff_ffff) {
            Some(v) => Some(v as i64),
            None => None,
        }
    }
}

/// A signed number in decimal.
pub fn signed_text(n: i64) -> (r: String)
    ensures
        r@ == signed_decimal(n as int),
{
    if n < 0 {
        let mut out: String = String::new();
        out.push('-');
        let size: u64 = (-(n as i128)) as u64;
        let digits = decimal_text(size);
        out.append(digits.as_str());
        proof {
            assert(out@ =~= signed_decimal(n as int));
        }
        out
    } else {
        decimal_text(n as u64)
    }
}

/// `n` in decimal, with zeros in front up to the given width.
pub fn padded_text(n: u64, width: usize) -> (r: String)
    ensures
        r@ == zero_padded(n as nat, width as nat),
{
    let digits = decimal_text(n);
    let len: usize = digits.as_str().unicode_len();
    if len >= width {
        return digits;
    }
    let mut out: String = String::new();
    let mut i: usize = 0;
    while i < width - len
        invariant
            len < width,
            i <= width - len,
            out@ =~= Seq::new(i as nat, |k: int| '0'),
        decreases width - len - i,
    {
        out.push('0');
        i += 1;
    }
    out.append(digits.as_str());
    out
}

/// What stands before and after the first `pattern` in `s`.
pub fn split_once<'a>(s: &'a str, pattern: &str) -> (r: Option<(&'a str, &'a str)>)
    ensures
        match r {
            Some((before, after)) => match first_match(s@, pattern@) {
                Some(i) => before@ == s@.take(i) && after@ == s@.skip(i + pattern@.len()),
                None => false,
            },
            None => first_match(s@, pattern@) is None,
        },
{
    match find(s, pattern) {
        Some(i) => {
            let k: usize = pattern.unicode_len();
            let n: usize = s.unicode_len();
            proof {
                assert(s@.subrange(0, i as int) =~= s@.take(i as int));
                assert(s@.subrange(i + k, n as int) =~= s@.skip(i + k));
            }
            Some((s.substring_char(0, i), s.substring_char(i + k, n)))
        },
        None => None,
    }
}

/// The lines of a text.
pub fn lines(s: &str) -> (r: Vec<String>)
    ensures
        texts_of(r@) == lines_of(s@),
{
    let parts = split(s, '\n');
    let ghost pieces = split_at_char(s@, '\n');
    proof {
        lemma_split_nonempty(s@, '\n');
        assert(texts_of(parts@) == pieces);
    }
    let last: usize = parts.len() - 1;
    let mut out: Vec<String> = Vec::new();
    let mut i: usize = 0;
    while i < last
        invariant
            parts@.len() == last + 1,
            i <= last,
            pieces == texts_of(parts@),
            texts_of(out@) =~= Seq::new(i as nat, |k: int| without_return(pieces[k])),
        decreases last - i,
    {
        let line = parts[i].as_str();
        let n: usize = line.unicode_len();
        let ghost before = out@;
        let kept: String = if n > 0 && line.get_char(n - 1) == '\r' {
            line.substring_char(0, n - 1).to_owned()
        } else {
            line.to_owned()
        };
        proof {
            assert(pieces[i as int] == line@);
            assert(kept@ =~= without_return(line@));
            lemma_texts_push(before, kept);
        }
        out.push(kept);
        i += 1;
    }
    if !parts[last].as_str().is_empty() {
        let kept = parts[last].clone();
        proof {
            lemma_texts_push(out@, kept);
        }
        out.push(kept);
    }
    proof {
        assert(pieces.last() == parts@[last as int]@);
        assert(texts_of(out@) =~= lines_of(s@));
    }
    out
}

/// The length of the UTF-8 encoding of `s`.
pub fn byte_len(s: &str) -> (r: usize)
    ensures
        r == utf8_len(s@),
{
    s.as_bytes().len()
}

/// How many bytes a character takes.
pub fn char_bytes(c: char) -> (r: usize)
    ensures
        r == utf8_len(seq![c]),
        1 <= r <= 4,
{
    proof {
        lemma_utf8_one(c);
    }
    let u: u32 = c as u32;
    if u < 0x80 {
        1
    } else if u < 0x800 {
        2
    } else if u < 0x1_0000 {
        3
    } else {
        4
    }
}

/// How many characters `s` has.
pub fn char_count(s: &str) -> (r: usize)
    ensures
        r == s@.len(),
{
    s.unicode_len()
}

/// How often `pattern` stands in `s`, counted without overlap.
pub fn count_matches(s: &str, pattern: &str) -> (r: usize)
    requires
        pattern@.len() > 0,
    ensures
        r == match_count(s@, pattern@, 0),
{
    let text = chars_of(s);
    let wanted = chars_of(pattern);
    let total: usize = text.len();
    let mut from: usize = 0;
    let mut n: usize = 0;
    loop
        invariant
            total == text@.len(),
            text@ == s@,
            wanted@ == pattern@,
            wanted@.len() > 0,
            from <= text@.len(),
            n <= from,
            n + match_count(s@, pattern@, from as int) == match_count(s@, pattern@, 0),
        decreases text@.len() - from,
    {
        proof {
            lemma_find_from(s@, pattern@, from as int);
        }
        match find_in(text.as_slice(), wanted.as_slice(), from) {
            Some(i) => {
                from = i + wanted.len();
                n += 1;
            },
            None => {
                return n;
            },
        }
    }
}

// ---------------------------------------------------------------------------
// Laws
// ---------------------------------------------------------------------------


/// White space in front and behind is taken off, whatever there is of it, and
/// what stands between is left as it is.
pub proof fn law_trimming_takes_white_space_only(before: Seq<char>, s: Seq<char>, after: Seq<char>)
    requires
        s.len() > 0,
        !is_white(s[0]),
        !is_white(s.last()),
        forall|i: int| 0 <= i < before.len() ==> is_white(#[trigger] before[i]),
        forall|i: int| 0 <= i < after.len() ==> is_white(#[trigger] after[i]),
    ensures
        trimmed(before + s + after) == s,
        trimmed_start(before + s + after) == s + after,
        trimmed_end(before + s + after) == before + s,
{
    assert(before + s + after =~= before + (s + after));
    lemma_trimmed_start(before, s + after);
    lemma_trimmed_end(before + s, after);
    lemma_trimmed_end(s, after);
}

proof fn lemma_trimmed_start(before: Seq<char>, s: Seq<char>)
    requires
        s.len() > 0,
        !is_white(s[0]),
        forall|i: int| 0 <= i < before.len() ==> is_white(#[trigger] before[i]),
    ensures
        trimmed_start(before + s) == s,
    decreases before.len(),
{
    if before.len() == 0 {
        assert(before + s =~= s);
    } else {
        assert((before + s).drop_first() =~= before.drop_first() + s);
        assert(is_white(before[0]));
        lemma_trimmed_start(before.drop_first(), s);
    }
}

proof fn lemma_trimmed_end(s: Seq<char>, after: Seq<char>)
    requires
        s.len() > 0,
        !is_white(s.last()),
        forall|i: int| 0 <= i < after.len() ==> is_white(#[trigger] after[i]),
    ensures
        trimmed_end(s + after) == s,
    decreases after.len(),
{
    if after.len() == 0 {
        assert(s + after =~= s);
    } else {
        assert((s + after).drop_last() =~= s + after.drop_last());
        assert(is_white(after[after.len() - 1]));
        lemma_trimmed_end(s, after.drop_last());
    }
}

/// A text of white space alone is blank: nothing is left of it.
pub proof fn law_white_space_is_blank(s: Seq<char>)
    requires
        forall|i: int| 0 <= i < s.len() ==> is_white(#[trigger] s[i]),
    ensures
        trimmed(s).len() == 0,
        trimmed_start(s).len() == 0,
        trimmed_end(s).len() == 0,
    decreases s.len(),
{
    if s.len() > 0 {
        assert(is_white(s[0]));
        assert(is_white(s[s.len() - 1]));
        law_white_space_is_blank(s.drop_first());
        law_white_space_is_blank(s.drop_last());
    }
}

/// What was trimmed has no white space at its ends, and is a part of the text.
pub proof fn law_trimmed_text_has_bare_ends(s: Seq<char>)
    ensures
        trimmed(s).len() > 0 ==> !is_white(trimmed(s)[0]) && !is_white(trimmed(s).last()),
        trimmed(trimmed(s)) == trimmed(s),
        occurs(s, trimmed(s)),
{
    lemma_bare_start(s);
    let a = trimmed_start(s);
    lemma_bare_end(a);
    let t = trimmed_end(a);
    assert(t == a.take(t.len() as int));
    if t.len() > 0 {
        assert(t[0] == a[0]);
    }
    let k = s.len() - a.len();
    assert(s.subrange(k, k + t.len()) =~= t);
    assert(matches_at(s, t, k));
}

proof fn lemma_bare_start(s: Seq<char>)
    ensures
        trimmed_start(s).len() <= s.len(),
        trimmed_start(s) == s.skip(s.len() - trimmed_start(s).len()),
        trimmed_start(s).len() > 0 ==> !is_white(trimmed_start(s)[0]),
    decreases s.len(),
{
    if s.len() > 0 && is_white(s[0]) {
        lemma_bare_start(s.drop_first());
        let t = trimmed_start(s);
        assert(s.drop_first().skip(s.len() - 1 - t.len()) =~= s.skip(s.len() - t.len()));
    } else {
        assert(s.skip(0) =~= s);
    }
}

proof fn lemma_bare_end(s: Seq<char>)
    ensures
        trimmed_end(s).len() <= s.len(),
        trimmed_end(s) == s.take(trimmed_end(s).len() as int),
        trimmed_end(s).len() > 0 ==> !is_white(trimmed_end(s).last()),
    decreases s.len(),
{
    if s.len() > 0 && is_white(s.last()) {
        lemma_bare_end(s.drop_last());
        let t = trimmed_end(s);
        assert(s.drop_last().take(t.len() as int) =~= s.take(t.len() as int));
    } else {
        assert(s.take(s.len() as int) =~= s);
    }
}

/// Among the characters of ASCII the white ones are the space, the tab and the
/// ends of lines and pages.
pub proof fn law_white_space_of_ascii(c: char)
    requires
        (c as u32) < 0x80,
    ensures
        is_white(c) <==> c == ' ' || c == '\t' || c == '\n' || c == '\r' || c as u32 == 0xb || c as u32
            == 0xc,
{
}

/// Joined parts stand in their order, the separator between two neighbours and
/// nowhere else.
pub proof fn law_joined_in_order(a: Seq<Seq<char>>, b: Seq<Seq<char>>, part: Seq<char>, sep: Seq<char>)
    ensures
        joined(Seq::empty(), sep) == Seq::<char>::empty(),
        joined(seq![part], sep) == part,
        a.len() > 0 && b.len() > 0 ==> joined(a + b, sep) == joined(a, sep) + sep + joined(b, sep),
    decreases b.len(),
{
    if a.len() > 0 && b.len() > 0 {
        let all = a + b;
        assert(all.drop_last() =~= a + b.drop_last());
        assert(all.last() == b.last());
        if b.len() == 1 {
            assert(a + b.drop_last() =~= a);
        } else {
            law_joined_in_order(a, b.drop_last(), part, sep);
            assert(joined(all, sep) =~= joined(a, sep) + sep + joined(b, sep));
        }
    }
}

/// Texts put together stand in their order with nothing between them.
pub proof fn law_concatenated_in_order(a: Seq<Seq<char>>, b: Seq<Seq<char>>, part: Seq<char>)
    ensures
        concatenated(Seq::empty()) == Seq::<char>::empty(),
        concatenated(seq![part]) == part,
        concatenated(a + b) == concatenated(a) + concatenated(b),
{
    lemma_concatenated_add(a, b);
    reveal_with_fuel(concatenated, 2);
    assert(seq![part].drop_last() =~= Seq::<Seq<char>>::empty());
    assert(concatenated(seq![part]) =~= part);
}

/// Splitting is undone by joining: the pieces hold all of the text but the
/// separators, and none of them holds one.
pub proof fn law_split_is_undone(s: Seq<char>, sep: char)
    ensures
        joined(split_at_char(s, sep), seq![sep]) == s,
        forall|i: int|
            0 <= i < split_at_char(s, sep).len() ==> !(#[trigger] split_at_char(s, sep)[i]).contains(
                sep,
            ),
    decreases s.len(),
{
    lemma_split_pieces(s, sep);
    lemma_split_nonempty(s, sep);
    if s.len() == 0 {
        assert(joined(split_at_char(s, sep), seq![sep]) =~= s);
    } else {
        let rest = split_at_char(s.drop_last(), sep);
        law_split_is_undone(s.drop_last(), sep);
        lemma_split_nonempty(s.drop_last(), sep);
        let all = split_at_char(s, sep);
        if s.last() == sep {
            assert(all.drop_last() =~= rest);
            assert(joined(all, seq![sep]) =~= s);
        } else if rest.len() == 1 {
            assert(joined(all, seq![sep]) =~= s);
        } else {
            assert(all.drop_last() =~= rest.drop_last());
            assert(all.last() == rest.last().push(s.last()));
            let front = joined(rest.drop_last(), seq![sep]);
            assert(s.drop_last() == front + seq![sep] + rest.last());
            assert(joined(all, seq![sep]) == front + seq![sep] + all.last());
            assert(s =~= s.drop_last().push(s.last()));
            assert(joined(all, seq![sep]) =~= s);
        }
    }
}

/// A search finds the first place where the pattern stands, and finds one
/// wherever the pattern occurs.
pub proof fn law_first_match_is_first(s: Seq<char>, pattern: Seq<char>, i: int)
    requires
        matches_at(s, pattern, i),
    ensures
        first_match(s, pattern) matches Some(first) && 0 <= first <= i && s.subrange(
            first,
            first + pattern.len(),
        ) == pattern,
        occurs(s, pattern),
{
    lemma_find_from(s, pattern, 0);
}

/// A text that stands between two others occurs in the whole, and begins or ends
/// it where nothing stands before or after it.
pub proof fn law_a_part_occurs(before: Seq<char>, s: Seq<char>, after: Seq<char>)
    ensures
        occurs(before + s + after, s),
        starts_with_spec(s + after, s),
        ends_with_spec(before + s, s),
{
    let whole = before + s + after;
    let k = before.len() as int;
    assert(whole.subrange(k, k + s.len()) =~= s);
    assert(matches_at(whole, s, k));
    assert((s + after).subrange(0, s.len() as int) =~= s);
    assert((before + s).subrange(k, k + s.len()) =~= s);
}

/// A text of one character occurs exactly where the character does.
pub proof fn law_one_character_occurs(s: Seq<char>, c: char)
    ensures
        occurs(s, seq![c]) <==> s.contains(c),
{
    if s.contains(c) {
        let i = choose|i: int| 0 <= i < s.len() && s[i] == c;
        assert(s.subrange(i, i + 1) =~= seq![c]);
        assert(matches_at(s, seq![c], i));
    }
    if occurs(s, seq![c]) {
        let i = choose|i: int| matches_at(s, seq![c], i);
        assert(s.subrange(i, i + 1)[0] == s[i]);
        assert(seq![c][0] == c);
    }
}

/// The first line of a text is what stands before its first line end, without
/// the carriage return; the other lines are those of the rest.
pub proof fn law_lines_one_by_one(line: Seq<char>, rest: Seq<char>)
    requires
        !line.contains('\n'),
    ensures
        lines_of(line + seq!['\n'] + rest) == seq![
            if line.len() > 0 && line.last() == '\r' {
                line.drop_last()
            } else {
                line
            },
        ] + lines_of(rest),
        line.len() > 0 ==> lines_of(line) == seq![line],
        lines_of(Seq::empty()).len() == 0,
{
    let head = line + seq!['\n'];
    lemma_split_pieces(line, '\n');
    assert(head.drop_last() =~= line);
    let pieces = split_at_char(head, '\n');
    assert(pieces =~= seq![line, Seq::<char>::empty()]);
    lemma_split_add(head, rest, '\n');
    assert(Seq::<char>::empty() + rest =~= rest);
    lemma_split_nonempty(rest, '\n');
    let tail = split_at_char(rest, '\n');
    let all = split_at_char(head + rest, '\n');
    assert(pieces.drop_last() =~= seq![line]);
    assert(all =~= seq![line] + tail);
    assert(all.last() == tail.last());
    let first = seq![without_return(line)];
    assert(lines_of(head + rest) =~= first + lines_of(rest));
}

/// A number is written in decimal: its last digit stands last, and behind those
/// of its tenth.
pub proof fn law_decimal_digits(n: nat, d: nat)
    requires
        d < 10,
    ensures
        decimal(d) == seq![(0x30 + d) as char],
        n > 0 ==> decimal(10 * n + d) == decimal(n) + seq![(0x30 + d) as char],
{
    if n > 0 {
        assert((10 * n + d) / 10 == n);
        assert((10 * n + d) % 10 == d);
        assert(decimal(10 * n + d) =~= decimal(n) + seq![(0x30 + d) as char]);
    }
}

/// A signed number printed in decimal is read back as itself.
pub proof fn law_signed_decimal_read_back(n: int, max: nat)
    requires
        -max - 1 <= n <= max,
    ensures
        signed_of(signed_decimal(n), max) == Some(n),
{
    if n < 0 {
        let digits = decimal((-n) as nat);
        lemma_decimal_value((-n) as nat);
        assert((seq!['-'] + digits).drop_first() =~= digits);
    } else {
        lemma_decimal_value(n as nat);
        assert(is_digit(decimal(n as nat)[0]));
        law_decimal_read_back(n as nat, max);
    }
}

/// What is not a number in decimal is not read as one: a character that is no
/// digit, behind the sign, or no digit at all.
pub proof fn law_only_digits_are_a_number(s: Seq<char>, max: nat, i: int)
    requires
        s.len() == 0 || (1 <= i < s.len() && !('0' <= s[i] <= '9')),
    ensures
        unsigned_of(s, max) is None,
        signed_of(s, max) is None,
{
    if s.len() > 0 {
        assert(s.drop_first()[i - 1] == s[i]);
        assert(!is_digit(s.drop_first()[i - 1]));
    }
}

/// Zeros in front bring a number to the width and do not change it.
pub proof fn law_zeros_in_front(n: nat, width: nat)
    ensures
        zero_padded(n, width).len() >= width,
        decimal(n).len() <= width ==> zero_padded(n, width).len() == width,
        ends_with_spec(zero_padded(n, width), decimal(n)),
        forall|i: int|
            0 <= i < zero_padded(n, width).len() - decimal(n).len() ==> #[trigger] zero_padded(
                n,
                width,
            )[i] == '0',
{
    let digits = decimal(n);
    let all = zero_padded(n, width);
    assert(all.subrange(all.len() - digits.len(), all.len() as int) =~= digits);
}

/// Lower case of ASCII: each of the 26 capitals becomes its small letter, and
/// every other character stays.
pub proof fn law_ascii_lower_case(s: Seq<char>, i: int)
    requires
        0 <= i < s.len(),
    ensures
        ascii_lowered(s).len() == s.len(),
        0x41 <= s[i] as u32 <= 0x5a ==> ascii_lowered(s)[i] as u32 == s[i] as u32 + 32,
        !(0x41 <= s[i] as u32 <= 0x5a) ==> ascii_lowered(s)[i] == s[i],
{
}

/// The length in bytes of the parts of a text adds up, and a character takes
/// from one to four bytes.
pub proof fn law_bytes_add_up(a: Seq<char>, b: Seq<char>, c: char)
    ensures
        utf8_len(a + b) == utf8_len(a) + utf8_len(b),
        utf8_len(Seq::empty()) == 0,
        (c as u32) < 0x80 ==> utf8_len(seq![c]) == 1,
        0x80 <= c as u32 ==> 2 <= utf8_len(seq![c]) <= 4,
{
    lemma_utf8_len_add(a, b);
    lemma_utf8_one(c);
}

/// What is joined begins with its first part.
pub proof fn lemma_joined_begins(parts: Seq<Seq<char>>, sep: Seq<char>)
    requires
        parts.len() > 0,
    ensures
        joined(parts, sep).len() >= parts[0].len(),
        joined(parts, sep).take(parts[0].len() as int) == parts[0],
    decreases parts.len(),
{
    if parts.len() == 1 {
        assert(parts[0].take(parts[0].len() as int) =~= parts[0]);
    } else {
        lemma_joined_begins(parts.drop_last(), sep);
        let front = joined(parts.drop_last(), sep);
        assert(parts.drop_last()[0] == parts[0]);
        assert(joined(parts, sep).take(parts[0].len() as int) =~= front.take(
            parts[0].len() as int,
        ));
    }
}

/// Every part stands in what is joined.
pub proof fn lemma_joined_holds(parts: Seq<Seq<char>>, sep: Seq<char>, i: int)
    requires
        0 <= i < parts.len(),
    ensures
        occurs(joined(parts, sep), parts[i]),
    decreases parts.len(),
{
    let whole = joined(parts, sep);
    if parts.len() == 1 {
        assert(whole.subrange(0, whole.len() as int) =~= parts[0]);
        assert(matches_at(whole, parts[0], 0));
    } else if i == parts.len() - 1 {
        let at = whole.len() - parts[i].len();
        assert(whole.subrange(at, at + parts[i].len()) =~= parts[i]);
        assert(matches_at(whole, parts[i], at));
    } else {
        let front = joined(parts.drop_last(), sep);
        lemma_joined_holds(parts.drop_last(), sep, i);
        assert(parts.drop_last()[i] == parts[i]);
        let at = choose|k: int| matches_at(front, parts[i], k);
        assert(whole.subrange(at, at + parts[i].len()) =~= front.subrange(
            at,
            at + parts[i].len(),
        ));
        assert(matches_at(whole, parts[i], at));
    }
}

/// A sign in front of an unsigned number does not count, and a number above the
/// limit is none.
pub proof fn law_sign_and_limit(n: nat, max: nat)
    ensures
        n <= max ==> unsigned_of(seq!['+'] + decimal(n), max) == Some(n),
        n > max ==> unsigned_of(decimal(n), max) is None,
{
    lemma_decimal_value(n);
    assert(is_digit(decimal(n)[0]));
    assert((seq!['+'] + decimal(n)).drop_first() =~= decimal(n));
}

} // verus!
