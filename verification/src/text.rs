//! Text as sequences of characters.
//!
//! Strings are read into `Vec<char>` and searched, trimmed, split and built
//! there; every function states its result over the character sequence.
use vstd::prelude::*;
use vstd::string::*;

verus! {

/// `String::push` appends one character.
pub assume_specification[ String::push ](s: &mut String, c: char)
    ensures
        final(s)@ == old(s)@.push(c),
;

/// Whether a character is white space: it has Unicode's White_Space property.
pub open spec fn is_space(c: char) -> bool {
    ||| '\t' <= c <= '\r'
    ||| c == ' '
    ||| c == '\u{85}'
    ||| c == '\u{a0}'
    ||| c == '\u{1680}'
    ||| '\u{2000}' <= c <= '\u{200a}'
    ||| c == '\u{2028}'
    ||| c == '\u{2029}'
    ||| c == '\u{202f}'
    ||| c == '\u{205f}'
    ||| c == '\u{3000}'
}

/// Whether a character is white space.
fn char_is_space(c: char) -> (r: bool)
    ensures
        r == is_space(c),
{
    ('\t' <= c && c <= '\r') || c == ' ' || c == '\u{85}' || c == '\u{a0}' || c == '\u{1680}' || (
    '\u{2000}' <= c && c <= '\u{200a}') || c == '\u{2028}' || c == '\u{2029}' || c == '\u{202f}' || c
        == '\u{205f}' || c == '\u{3000}'
}

/// What `str::to_lowercase` makes of a text with characters beyond ASCII.
pub uninterp spec fn unicode_lowercase(s: Seq<char>) -> Seq<char>;

/// Whether every character of a text is ASCII.
pub open spec fn all_ascii(s: Seq<char>) -> bool {
    forall|i: int| 0 <= i < s.len() ==> #[trigger] s[i] <= '\x7f'
}

/// A text in lower case.
pub open spec fn lowercase(s: Seq<char>) -> Seq<char> {
    if all_ascii(s) {
        ascii_lower(s)
    } else {
        unicode_lowercase(s)
    }
}

/// `str::to_lowercase`: in a text that is all ASCII the capitals `A` to `Z`
/// become small letters and nothing else changes; what becomes of any other
/// text is only named, by [`unicode_lowercase`].
#[verifier::external_body]
pub(crate) fn to_lower(s: &str) -> (r: String)
    ensures
        r@ == (if all_ascii(s@) { ascii_lower(s@) } else { unicode_lowercase(s@) }),
{
    s.to_lowercase()
}

/// The characters of each text of a list.
pub open spec fn texts(list: Seq<String>) -> Seq<Seq<char>> {
    list.map_values(|s: String| s@)
}

/// The characters of an optional text.
pub open spec fn opt_text(s: Option<String>) -> Option<Seq<char>> {
    match s {
        Some(t) => Some(t@),
        None => None,
    }
}

/// The characters of a text.
pub fn chars_of(s: &str) -> (r: Vec<char>)
    ensures
        r@ == s@,
{
    let mut out: Vec<char> = Vec::new();
    for c in it: s.chars()
        invariant
            out@ == it.seq().take(it.index() as int),
    {
        out.push(c);
        assert(it.seq().take(it.index() as int).push(c) =~= it.seq().take(it.index() as int + 1));
    }
    assert(out@ =~= s@);
    out
}

/// The text of a run of characters.
pub fn text_of(chars: &[char]) -> (r: String)
    ensures
        r@ == chars@,
{
    let mut out: String = String::new();
    let mut i: usize = 0;
    while i < chars.len()
        invariant
            i <= chars@.len(),
            out@ == chars@.take(i as int),
        decreases chars@.len() - i,
    {
        out.push(chars[i]);
        i += 1;
        assert(chars@.take(i as int) =~= chars@.take(i as int - 1).push(chars@[i as int - 1]));
    }
    assert(chars@.take(i as int) =~= chars@);
    out
}

/// The first position of `c` in `s` at or after `from`; the length of `s`
/// when there is none.
pub open spec fn find(s: Seq<char>, c: char, from: int) -> int
    decreases s.len() - from,
{
    if from < 0 || from >= s.len() {
        s.len() as int
    } else if s[from] == c {
        from
    } else {
        find(s, c, from + 1)
    }
}

/// What [`find`] finds: nothing before it, and `c` itself unless it is the end.
pub proof fn lemma_find(s: Seq<char>, c: char, from: int)
    requires
        0 <= from <= s.len(),
    ensures
        from <= find(s, c, from) <= s.len(),
        find(s, c, from) < s.len() ==> s[find(s, c, from)] == c,
        forall|j: int| from <= j < find(s, c, from) ==> s[j] != c,
        (find(s, c, from) < s.len()) == (exists|j: int| from <= j < s.len() && s[j] == c),
    decreases s.len() - from,
{
    if from < s.len() && s[from] != c {
        lemma_find(s, c, from + 1);
    }
}

/// A text parted at the first `c`, which belongs to neither part.
pub open spec fn parted(s: Seq<char>, c: char) -> Option<(Seq<char>, Seq<char>)> {
    let i = find(s, c, 0);
    if i < s.len() {
        Some((s.take(i), s.skip(i + 1)))
    } else {
        None
    }
}

/// A text without the white space at its start.
pub open spec fn trimmed_start(s: Seq<char>) -> Seq<char>
    decreases s.len(),
{
    if s.len() > 0 && is_space(s[0]) {
        trimmed_start(s.skip(1))
    } else {
        s
    }
}

/// A text without the white space at its end.
pub open spec fn trimmed_end(s: Seq<char>) -> Seq<char>
    decreases s.len(),
{
    if s.len() > 0 && is_space(s.last()) {
        trimmed_end(s.drop_last())
    } else {
        s
    }
}

/// A text without the white space at both ends.
pub open spec fn trimmed(s: Seq<char>) -> Seq<char> {
    trimmed_end(trimmed_start(s))
}

/// The value of a digit, or 36 for a character that is none.
pub open spec fn digit(c: char) -> nat {
    if '0' <= c <= '9' {
        (c as nat - '0' as nat) as nat
    } else if 'a' <= c <= 'z' {
        (c as nat - 'a' as nat + 10) as nat
    } else if 'A' <= c <= 'Z' {
        (c as nat - 'A' as nat + 10) as nat
    } else {
        36
    }
}

/// Every character is a digit of the radix.
pub open spec fn all_digits(s: Seq<char>, radix: nat) -> bool {
    forall|i: int| 0 <= i < s.len() ==> #[trigger] digit(s[i]) < radix
}

/// The number that digits write, most significant first.
pub open spec fn digits_value(s: Seq<char>, radix: nat) -> nat
    decreases s.len(),
{
    if s.len() == 0 {
        0
    } else {
        digits_value(s.drop_last(), radix) * radix + digit(s.last())
    }
}

/// A number without its leading `+`, if it has one.
pub open spec fn unsigned_part(s: Seq<char>) -> Seq<char> {
    if s.len() > 0 && s[0] == '+' {
        s.skip(1)
    } else {
        s
    }
}

/// The number a text writes: an optional `+`, then at least one digit and
/// nothing else, of a value of at most `max`.
pub open spec fn number(s: Seq<char>, radix: nat, max: nat) -> Option<nat> {
    let d = unsigned_part(s);
    if d.len() > 0 && all_digits(d, radix) && digits_value(d, radix) <= max {
        Some(digits_value(d, radix))
    } else {
        None
    }
}

/// The character of a digit below 16, in lower case.
pub open spec fn digit_char(n: nat) -> char {
    if n < 10 {
        ('0' as nat + n) as char
    } else {
        ('a' as nat + n - 10) as char
    }
}

/// A number in decimal.
pub open spec fn decimal_text(n: nat) -> Seq<char>
    decreases n,
{
    if n < 10 {
        seq![digit_char(n)]
    } else {
        decimal_text(n / 10).push(digit_char(n % 10))
    }
}

/// A number in decimal, with a leading zero below ten.
pub open spec fn two_digit_text(n: nat) -> Seq<char> {
    if n < 10 {
        seq!['0', digit_char(n)]
    } else {
        decimal_text(n)
    }
}

/// The last `width` hexadecimal digits of a number.
pub open spec fn hex_text(n: nat, width: nat) -> Seq<char>
    decreases width,
{
    if width == 0 {
        Seq::empty()
    } else {
        hex_text(n / 16, (width - 1) as nat).push(digit_char(n % 16))
    }
}

/// The texts of a list with a separator between each two.
pub open spec fn joined(list: Seq<Seq<char>>, sep: Seq<char>) -> Seq<char>
    decreases list.len(),
{
    if list.len() == 0 {
        Seq::empty()
    } else if list.len() == 1 {
        list[0]
    } else {
        joined(list.drop_last(), sep) + sep + list.last()
    }
}

/// A line without the carriage return that may end it.
pub open spec fn without_return(s: Seq<char>) -> Seq<char> {
    if s.len() > 0 && s.last() == '\r' {
        s.drop_last()
    } else {
        s
    }
}

/// The lines of a text from `from` on: split at line feeds, without the
/// carriage return before one; nothing follows the last line feed. Text after
/// the last line feed is kept as it is.
pub open spec fn lines_from(s: Seq<char>, from: int) -> Seq<Seq<char>>
    decreases s.len() - from,
{
    if from < 0 || from >= s.len() {
        Seq::empty()
    } else {
        let end = find(s, '\n', from);
        if end < from || end >= s.len() {
            seq![s.subrange(from, s.len() as int)]
        } else {
            seq![without_return(s.subrange(from, end))] + lines_from(s, end + 1)
        }
    }
}

/// Whether two texts hold the same characters.
pub fn same(a: &str, b: &str) -> (r: bool)
    ensures
        r == (a@ == b@),
{
    let x = a.to_owned();
    let y = b.to_owned();
    x == y
}

/// Whether a text starts with another.
pub fn starts_with(s: &str, prefix: &str) -> (r: bool)
    ensures
        r == prefix@.is_prefix_of(s@),
{
    let a = chars_of(s);
    let p = chars_of(prefix);
    if p.len() > a.len() {
        return false;
    }
    let mut i: usize = 0;
    while i < p.len()
        invariant
            i <= p@.len() <= a@.len(),
            forall|j: int| 0 <= j < i ==> p@[j] == a@[j],
            p@ == prefix@,
            a@ == s@,
        decreases p@.len() - i,
    {
        if a[i] != p[i] {
            assert(s@.subrange(0, prefix@.len() as int)[i as int] != prefix@[i as int]);
            return false;
        }
        i += 1;
    }
    assert(prefix@ =~= s@.subrange(0, prefix@.len() as int));
    true
}

/// What follows a prefix, if the text starts with it.
pub fn strip_prefix(s: &str, prefix: &str) -> (r: Option<String>)
    ensures
        r is Some == prefix@.is_prefix_of(s@),
        r matches Some(rest) ==> rest@ == s@.skip(prefix@.len() as int),
{
    if !starts_with(s, prefix) {
        return None;
    }
    let a = chars_of(s);
    let n = prefix.unicode_len();
    let rest = vstd::slice::slice_subrange(a.as_slice(), n, a.len());
    assert(rest@ =~= s@.skip(prefix@.len() as int));
    Some(text_of(rest))
}

/// What precedes a suffix, if the text ends with it.
pub fn strip_suffix(s: &str, suffix: &str) -> (r: Option<String>)
    ensures
        r is Some == suffix@.is_suffix_of(s@),
        r matches Some(rest) ==> rest@ == s@.take(s@.len() - suffix@.len()),
{
    let a = chars_of(s);
    let p = chars_of(suffix);
    if p.len() > a.len() {
        return None;
    }
    let n: usize = a.len();
    let at: usize = n - p.len();
    let mut i: usize = 0;
    while i < p.len()
        invariant
            i <= p@.len() <= a@.len(),
            n == a@.len(),
            at == a@.len() - p@.len(),
            forall|j: int| 0 <= j < i ==> p@[j] == a@[at + j],
            p@ == suffix@,
            a@ == s@,
        decreases p@.len() - i,
    {
        if a[at + i] != p[i] {
            assert(s@.subrange(at as int, s@.len() as int)[i as int] != suffix@[i as int]);
            return None;
        }
        i += 1;
    }
    assert(suffix@ =~= s@.subrange(at as int, s@.len() as int));
    let rest = vstd::slice::slice_subrange(a.as_slice(), 0, at);
    assert(rest@ =~= s@.take(at as int));
    Some(text_of(rest))
}

/// Append a text to a list.
pub fn push_text(out: &mut Vec<String>, s: &str)
    ensures
        texts(final(out)@) == texts(old(out)@).push(s@),
{
    out.push(s.to_owned());
    assert(texts(out@) =~= texts(old(out)@).push(s@));
}

/// Append the texts of a list to another.
pub fn push_texts(out: &mut Vec<String>, list: &Vec<String>)
    ensures
        texts(final(out)@) == texts(old(out)@) + texts(list@),
{
    let mut i: usize = 0;
    assert(texts(out@) =~= texts(old(out)@) + texts(list@).take(0));
    while i < list.len()
        invariant
            i <= list@.len(),
            texts(out@) == texts(old(out)@) + texts(list@).take(i as int),
        decreases list@.len() - i,
    {
        push_text(out, list[i].as_str());
        i += 1;
        assert(texts(out@) =~= texts(old(out)@) + texts(list@).take(i as int));
    }
    assert(texts(list@).take(i as int) =~= texts(list@));
}

/// Append a text to another.
pub fn concat(a: &str, b: &str) -> (r: String)
    ensures
        r@ == a@ + b@,
{
    let mut out = a.to_owned();
    out.append(b);
    out
}

/// Whether a list holds a text.
pub fn has_text(list: &Vec<String>, text: &str) -> (r: bool)
    ensures
        r == texts(list@).contains(text@),
{
    let mut i: usize = 0;
    while i < list.len()
        invariant
            i <= list@.len(),
            forall|j: int| 0 <= j < i ==> texts(list@)[j] != text@,
        decreases list@.len() - i,
    {
        assert(texts(list@)[i as int] == list@[i as int]@);
        if same(list[i].as_str(), text) {
            return true;
        }
        i += 1;
    }
    false
}

/// Whether a text holds a character.
pub fn has_char(s: &str, c: char) -> (r: bool)
    ensures
        r == s@.contains(c),
{
    let a = chars_of(s);
    let mut i: usize = 0;
    while i < a.len()
        invariant
            i <= a@.len(),
            a@ == s@,
            forall|j: int| 0 <= j < i ==> a@[j] != c,
        decreases a@.len() - i,
    {
        if a[i] == c {
            assert(s@[i as int] == c);
            return true;
        }
        i += 1;
    }
    false
}

/// The first position of `c` at or after `from`, or the length.
pub fn find_char(a: &[char], c: char, from: usize) -> (r: usize)
    requires
        from <= a@.len(),
    ensures
        r == find(a@, c, from as int),
        from <= r <= a@.len(),
{
    let mut i: usize = from;
    while i < a.len()
        invariant
            from <= i <= a@.len(),
            find(a@, c, from as int) == find(a@, c, i as int),
        decreases a@.len() - i,
    {
        if a[i] == c {
            return i;
        }
        i += 1;
    }
    i
}

/// A text parted at the first `c`.
pub fn split_once(s: &str, c: char) -> (r: Option<(String, String)>)
    ensures
        match r {
            Some(p) => parted(s@, c) == Some((p.0@, p.1@)),
            None => parted(s@, c) is None,
        },
{
    let a = chars_of(s);
    let i = find_char(a.as_slice(), c, 0);
    if i < a.len() {
        let left = vstd::slice::slice_subrange(a.as_slice(), 0, i);
        let right = vstd::slice::slice_subrange(a.as_slice(), i + 1, a.len());
        assert(left@ =~= s@.take(i as int));
        assert(right@ =~= s@.skip(i + 1));
        Some((text_of(left), text_of(right)))
    } else {
        None
    }
}

/// A text without the white space at both ends.
pub fn trim(s: &str) -> (r: String)
    ensures
        r@ == trimmed(s@),
{
    let a = chars_of(s);
    let mut from: usize = 0;
    assert(a@.subrange(0, a@.len() as int) =~= a@);
    while from < a.len() && char_is_space(a[from])
        invariant
            from <= a@.len(),
            a@ == s@,
            trimmed_start(s@) == trimmed_start(a@.subrange(from as int, a@.len() as int)),
        ensures
            from <= a@.len(),
            trimmed_start(s@) == a@.subrange(from as int, a@.len() as int),
        decreases a@.len() - from,
    {
        assert(a@.subrange(from as int, a@.len() as int).skip(1) =~= a@.subrange(
            from + 1,
            a@.len() as int,
        ));
        from += 1;
    }
    let mut to: usize = a.len();
    while to > from && char_is_space(a[to - 1])
        invariant
            from <= to <= a@.len(),
            trimmed(s@) == trimmed_end(a@.subrange(from as int, to as int)),
        ensures
            from <= to <= a@.len(),
            trimmed(s@) == a@.subrange(from as int, to as int),
        decreases to,
    {
        assert(a@.subrange(from as int, to as int).drop_last() =~= a@.subrange(
            from as int,
            to - 1,
        ));
        to -= 1;
    }
    let kept = vstd::slice::slice_subrange(a.as_slice(), from, to);
    text_of(kept)
}

/// The value of a digit, or 36.
fn digit_of(c: char) -> (r: u64)
    ensures
        r == digit(c),
        r <= 36,
{
    if '0' <= c && c <= '9' {
        c as u64 - '0' as u64
    } else if 'a' <= c && c <= 'z' {
        c as u64 - 'a' as u64 + 10
    } else if 'A' <= c && c <= 'Z' {
        c as u64 - 'A' as u64 + 10
    } else {
        36
    }
}

/// Fewer digits never write a larger number.
proof fn lemma_digits_grow(s: Seq<char>, radix: nat, i: int)
    requires
        0 <= i <= s.len(),
        radix >= 1,
    ensures
        digits_value(s.take(i), radix) <= digits_value(s, radix),
    decreases s.len() - i,
{
    if i == s.len() {
        assert(s.take(i) =~= s);
    } else {
        lemma_digits_grow(s, radix, i + 1);
        assert(s.take(i + 1).drop_last() =~= s.take(i));
        let v = digits_value(s.take(i), radix);
        assert(v * radix >= v) by (nonlinear_arith)
            requires
                radix >= 1,
                v >= 0,
        ;
    }
}

/// The number a text writes in the radix, as [`number`] has it.
pub fn parse_number(s: &str, radix: u64, max: u64) -> (r: Option<u64>)
    requires
        2 <= radix <= 36,
    ensures
        match r {
            Some(v) => number(s@, radix as nat, max as nat) == Some(v as nat),
            None => number(s@, radix as nat, max as nat) is None,
        },
{
    let a = chars_of(s);
    let from: usize = if a.len() > 0 && a[0] == '+' {
        1
    } else {
        0
    };
    let d = vstd::slice::slice_subrange(a.as_slice(), from, a.len());
    assert(d@ =~= unsigned_part(s@));
    if d.len() == 0 {
        return None;
    }
    let mut v: u64 = 0;
    let mut i: usize = 0;
    assert(d@.take(0) =~= Seq::<char>::empty());
    while i < d.len()
        invariant
            i <= d@.len(),
            2 <= radix <= 36,
            d@ == unsigned_part(s@),
            v == digits_value(d@.take(i as int), radix as nat),
            v <= max,
            forall|j: int| 0 <= j < i ==> #[trigger] digit(d@[j]) < radix,
        decreases d@.len() - i,
    {
        let x = digit_of(d[i]);
        if x >= radix {
            assert(!all_digits(d@, radix as nat));
            return None;
        }
        assert(v * radix <= 0xffff_ffff_ffff_ffff * 36) by (nonlinear_arith)
            requires
                v <= 0xffff_ffff_ffff_ffff,
                0 <= radix <= 36,
        ;
        let w: u128 = v as u128 * radix as u128;
        let next: u128 = w + x as u128;
        assert(d@.take(i + 1).drop_last() =~= d@.take(i as int));
        assert(next == digits_value(d@.take(i + 1), radix as nat));
        if next > max as u128 {
            proof {
                lemma_digits_grow(d@, radix as nat, i + 1);
            }
            return None;
        }
        v = next as u64;
        i += 1;
    }
    assert(d@.take(i as int) =~= d@);
    Some(v)
}

/// The decimal number of at most `max` that a text writes.
pub fn parse_decimal(s: &str, max: u64) -> (r: Option<u64>)
    ensures
        match r {
            Some(v) => number(s@, 10, max as nat) == Some(v as nat),
            None => number(s@, 10, max as nat) is None,
        },
{
    parse_number(s, 10, max)
}

/// The character of a digit below 16.
fn char_of_digit(n: u64) -> (r: char)
    requires
        n < 16,
    ensures
        r == digit_char(n as nat),
{
    if n < 10 {
        (48 + n as u8) as char
    } else {
        (87 + n as u8) as char
    }
}

/// A number in decimal.
pub fn decimal(n: u64) -> (r: String)
    ensures
        r@ == decimal_text(n as nat),
{
    let mut back: Vec<char> = Vec::new();
    let mut rest: u64 = n;
    while rest >= 10
        invariant
            decimal_text(n as nat) == decimal_text(rest as nat) + back@.reverse(),
        decreases rest,
    {
        let ghost before = back@;
        back.push(char_of_digit(rest % 10));
        proof {
            assert(decimal_text(rest as nat) + before.reverse() =~= decimal_text(
                (rest / 10) as nat,
            ) + back@.reverse());
        }
        rest = rest / 10;
    }
    let ghost before = back@;
    back.push(char_of_digit(rest));
    assert(decimal_text(rest as nat) + before.reverse() =~= back@.reverse());
    reversed(&back)
}

/// The characters of a list from the last to the first.
fn reversed(back: &Vec<char>) -> (r: String)
    ensures
        r@ == back@.reverse(),
{
    let mut out = String::new();
    let mut i: usize = back.len();
    while i > 0
        invariant
            i <= back@.len(),
            out@ == back@.reverse().take(back@.len() - i),
        decreases i,
    {
        i -= 1;
        out.push(back[i]);
        assert(out@ =~= back@.reverse().take(back@.len() - i));
    }
    assert(back@.reverse().take(back@.len() as int) =~= back@.reverse());
    out
}

/// A number in decimal, with a leading zero below ten.
pub fn two_digits(n: u64) -> (r: String)
    ensures
        r@ == two_digit_text(n as nat),
{
    if n < 10 {
        let mut out = String::new();
        out.push('0');
        out.push(char_of_digit(n));
        assert(out@ =~= two_digit_text(n as nat));
        out
    } else {
        decimal(n)
    }
}

/// The sixteen hexadecimal digits of a number.
pub fn hex16(n: u64) -> (r: String)
    ensures
        r@ == hex_text(n as nat, 16),
{
    let mut back: Vec<char> = Vec::new();
    let mut rest: u64 = n;
    let mut i: usize = 0;
    while i < 16
        invariant
            i <= 16,
            hex_text(n as nat, 16) == hex_text(rest as nat, (16 - i) as nat) + back@.reverse(),
        decreases 16 - i,
    {
        let ghost before = back@;
        back.push(char_of_digit(rest % 16));
        proof {
            assert(hex_text(rest as nat, (16 - i) as nat) + before.reverse() =~= hex_text(
                (rest / 16) as nat,
                (15 - i) as nat,
            ) + back@.reverse());
        }
        rest = rest / 16;
        i += 1;
    }
    assert(hex_text(rest as nat, 0) + back@.reverse() =~= back@.reverse());
    reversed(&back)
}

/// The texts of a list with a separator between each two.
pub fn join(list: &Vec<String>, sep: &str) -> (r: String)
    ensures
        r@ == joined(texts(list@), sep@),
{
    let mut out = String::new();
    let mut i: usize = 0;
    assert(texts(list@).take(0) =~= Seq::empty());
    while i < list.len()
        invariant
            i <= list@.len(),
            out@ == joined(texts(list@).take(i as int), sep@),
        decreases list@.len() - i,
    {
        proof {
            assert(texts(list@).take(i + 1).drop_last() =~= texts(list@).take(i as int));
            assert(texts(list@).take(i + 1).last() == list@[i as int]@);
        }
        if i > 0 {
            out.append(sep);
        }
        out.append(list[i].as_str());
        i += 1;
    }
    assert(texts(list@).take(i as int) =~= texts(list@));
    out
}

/// The lines of a text, as [`lines_from`] has them.
pub fn lines(s: &str) -> (r: Vec<String>)
    ensures
        texts(r@) == lines_from(s@, 0),
{
    let a = chars_of(s);
    let mut out: Vec<String> = Vec::new();
    let mut from: usize = 0;
    assert(texts(out@) + lines_from(s@, 0) =~= lines_from(s@, 0));
    while from < a.len()
        invariant
            from <= a@.len(),
            a@ == s@,
            texts(out@) + lines_from(s@, from as int) == lines_from(s@, 0),
        decreases a@.len() - from,
    {
        let end = find_char(a.as_slice(), '\n', from);
        let ghost before = texts(out@);
        let ghost rest = lines_from(s@, from as int);
        if end == a.len() {
            let last = vstd::slice::slice_subrange(a.as_slice(), from, end);
            out.push(text_of(last));
            proof {
                assert(texts(out@) =~= before + rest);
            }
            return out;
        }
        let to: usize = if end > from && a[end - 1] == '\r' {
            end - 1
        } else {
            end
        };
        let line = vstd::slice::slice_subrange(a.as_slice(), from, to);
        out.push(text_of(line));
        proof {
            let whole = s@.subrange(from as int, end as int);
            assert(line@ =~= without_return(whole));
            assert(texts(out@) =~= before.push(without_return(whole)));
            assert(before + rest =~= texts(out@) + lines_from(s@, end + 1));
        }
        from = end + 1;
    }
    assert(texts(out@) + lines_from(s@, from as int) =~= texts(out@));
    out
}

/// A number in decimal is read back as itself.
pub proof fn law_decimal_reads_back(n: nat, max: nat)
    requires
        n <= max,
    ensures
        number(decimal_text(n), 10, max) == Some(n),
{
    lemma_decimal(n);
    assert(unsigned_part(decimal_text(n)) =~= decimal_text(n));
}

/// The decimal digits of a number: there are some, all are digits, and they
/// write the number.
pub proof fn lemma_decimal(n: nat)
    ensures
        decimal_text(n).len() > 0,
        forall|i: int|
            0 <= i < decimal_text(n).len() ==> #[trigger] digit(decimal_text(n)[i]) < 10,
        decimal_text(n)[0] != '+',
        digits_value(decimal_text(n), 10) == n,
    decreases n,
{
    let s = decimal_text(n);
    reveal_with_fuel(digits_value, 2);
    if n >= 10 {
        lemma_decimal(n / 10);
        assert(s.drop_last() =~= decimal_text(n / 10));
        assert forall|i: int| 0 <= i < s.len() implies #[trigger] digit(s[i]) < 10 by {
            if i < s.len() - 1 {
                assert(s[i] == decimal_text(n / 10)[i]);
            }
        }
        assert(s[0] == decimal_text(n / 10)[0]);
    } else {
        assert(s.drop_last() =~= Seq::empty());
    }
}

/// Whether a pattern stands at a position.
pub open spec fn stands_at(s: Seq<char>, pattern: Seq<char>, i: int) -> bool {
    0 <= i && i + pattern.len() <= s.len() && s.subrange(i, i + pattern.len()) == pattern
}

/// The first position at or after `from` where a pattern stands; -1 if none.
pub open spec fn find_pattern(s: Seq<char>, pattern: Seq<char>, from: int) -> int
    decreases s.len() + 1 - from,
{
    if from < 0 || from > s.len() {
        -1
    } else if stands_at(s, pattern, from) {
        from
    } else {
        find_pattern(s, pattern, from + 1)
    }
}

/// Whether a text holds a pattern somewhere.
pub open spec fn holds_pattern(s: Seq<char>, pattern: Seq<char>) -> bool {
    find_pattern(s, pattern, 0) >= 0
}

/// Whether a pattern stands at a position.
fn stands(a: &[char], p: &[char], at: usize) -> (r: bool)
    requires
        at <= a@.len(),
    ensures
        r == stands_at(a@, p@, at as int),
{
    if p.len() > a.len() - at {
        return false;
    }
    let mut i: usize = 0;
    while i < p.len()
        invariant
            i <= p@.len(),
            at + p@.len() <= a@.len(),
            a@.len() <= usize::MAX,
            forall|j: int| 0 <= j < i ==> p@[j] == a@[at + j],
        decreases p@.len() - i,
    {
        if a[at + i] != p[i] {
            assert(a@.subrange(at as int, at + p@.len())[i as int] != p@[i as int]);
            return false;
        }
        i += 1;
    }
    assert(a@.subrange(at as int, at + p@.len()) =~= p@);
    true
}

/// The first position at or after `from` where a pattern stands.
pub fn find_text(a: &[char], p: &[char], from: usize) -> (r: Option<usize>)
    requires
        from <= a@.len(),
    ensures
        match r {
            Some(i) => find_pattern(a@, p@, from as int) == i && from <= i && i + p@.len()
                <= a@.len(),
            None => find_pattern(a@, p@, from as int) == -1,
        },
{
    let n: usize = a.len();
    let mut i: usize = from;
    loop
        invariant
            from <= i <= a@.len(),
            n == a@.len(),
            find_pattern(a@, p@, from as int) == find_pattern(a@, p@, i as int),
        decreases a@.len() - i,
    {
        if stands(a, p, i) {
            return Some(i);
        }
        if i == n {
            assert(find_pattern(a@, p@, i + 1) == -1);
            return None;
        }
        i += 1;
    }
}

/// Whether a text holds a pattern somewhere.
pub fn contains_text(s: &str, pattern: &str) -> (r: bool)
    ensures
        r == holds_pattern(s@, pattern@),
{
    let a = chars_of(s);
    let p = chars_of(pattern);
    find_text(a.as_slice(), p.as_slice(), 0).is_some()
}

/// An ASCII letter in lower case.
pub open spec fn ascii_lower_char(c: char) -> char {
    if 'A' <= c <= 'Z' {
        (c as nat + 32) as char
    } else {
        c
    }
}

/// A text with its ASCII letters in lower case.
pub open spec fn ascii_lower(s: Seq<char>) -> Seq<char> {
    s.map_values(|c: char| ascii_lower_char(c))
}

/// A text with its ASCII letters in lower case.
pub fn to_ascii_lower(s: &str) -> (r: String)
    ensures
        r@ == ascii_lower(s@),
{
    let a = chars_of(s);
    let mut out = String::new();
    let mut i: usize = 0;
    while i < a.len()
        invariant
            i <= a@.len(),
            a@ == s@,
            out@ == ascii_lower(s@.take(i as int)),
        decreases a@.len() - i,
    {
        let c = a[i];
        let l = if 'A' <= c && c <= 'Z' {
            (c as u8 + 32) as char
        } else {
            c
        };
        out.push(l);
        i += 1;
        assert(out@ =~= ascii_lower(s@.take(i as int)));
    }
    assert(s@.take(i as int) =~= s@);
    out
}

/// Whether one text comes before another: by the first character in which they
/// differ, or as a part that the other goes on from.
pub open spec fn comes_before(a: Seq<char>, b: Seq<char>) -> bool
    decreases a.len(),
{
    if b.len() == 0 {
        false
    } else if a.len() == 0 {
        true
    } else if a[0] == b[0] {
        comes_before(a.skip(1), b.skip(1))
    } else {
        a[0] < b[0]
    }
}

/// Whether one text comes before another.
pub fn precedes(a: &str, b: &str) -> (r: bool)
    ensures
        r == comes_before(a@, b@),
{
    let x = chars_of(a);
    let y = chars_of(b);
    let mut i: usize = 0;
    assert(x@.subrange(0, x@.len() as int) =~= x@);
    assert(y@.subrange(0, y@.len() as int) =~= y@);
    while i < x.len() && i < y.len()
        invariant
            i <= x@.len(),
            i <= y@.len(),
            x@ == a@,
            y@ == b@,
            comes_before(
                x@.subrange(i as int, x@.len() as int),
                y@.subrange(i as int, y@.len() as int),
            ) == comes_before(x@, y@),
        decreases x@.len() - i,
    {
        if x[i] != y[i] {
            return x[i] < y[i];
        }
        assert(x@.subrange(i as int, x@.len() as int).skip(1) =~= x@.subrange(
            i + 1,
            x@.len() as int,
        ));
        assert(y@.subrange(i as int, y@.len() as int).skip(1) =~= y@.subrange(
            i + 1,
            y@.len() as int,
        ));
        i += 1;
    }
    i < y.len()
}

/// Texts in this order are ordered totally: of two different ones exactly one
/// comes before the other, and none before itself.
pub proof fn law_order_total(a: Seq<char>, b: Seq<char>)
    ensures
        !comes_before(a, a),
        a == b || comes_before(a, b) || comes_before(b, a),
        !(comes_before(a, b) && comes_before(b, a)),
    decreases a.len(),
{
    if a.len() > 0 {
        law_order_total(a.skip(1), a.skip(1));
        if b.len() > 0 {
            law_order_total(a.skip(1), b.skip(1));
            if a[0] == b[0] && a.skip(1) == b.skip(1) {
                assert(a =~= seq![a[0]] + a.skip(1));
                assert(b =~= seq![b[0]] + b.skip(1));
            }
        }
    } else if b.len() == 0 {
        assert(a =~= b);
    }
}

/// The order of texts carries over.
pub proof fn law_order_transitive(a: Seq<char>, b: Seq<char>, c: Seq<char>)
    requires
        comes_before(a, b),
        comes_before(b, c),
    ensures
        comes_before(a, c),
    decreases a.len(),
{
    if a.len() > 0 && a[0] == b[0] && b[0] == c[0] {
        law_order_transitive(a.skip(1), b.skip(1), c.skip(1));
    }
}

/// The parts of a text from `from` on between the places of `c`; there is always
/// at least one.
pub open spec fn parts_from(s: Seq<char>, c: char, from: int) -> Seq<Seq<char>>
    decreases s.len() + 1 - from,
{
    if from < 0 || from > s.len() {
        Seq::empty()
    } else {
        let end = find(s, c, from);
        if end < from || end >= s.len() {
            seq![s.subrange(from, s.len() as int)]
        } else {
            seq![s.subrange(from, end)] + parts_from(s, c, end + 1)
        }
    }
}

/// The parts of a text between the places of `c`.
pub fn split_on(s: &str, c: char) -> (r: Vec<String>)
    ensures
        texts(r@) == parts_from(s@, c, 0),
{
    let a = chars_of(s);
    let n: usize = a.len();
    let mut out: Vec<String> = Vec::new();
    let mut from: usize = 0;
    assert(texts(out@) + parts_from(s@, c, 0) =~= parts_from(s@, c, 0));
    loop
        invariant
            n == a@.len(),
            from <= n,
            a@ == s@,
            texts(out@) + parts_from(s@, c, from as int) == parts_from(s@, c, 0),
        decreases n - from,
    {
        let end = find_char(a.as_slice(), c, from);
        let ghost before = texts(out@);
        let ghost rest = parts_from(s@, c, from as int);
        let part = vstd::slice::slice_subrange(a.as_slice(), from, end);
        push_text(&mut out, text_of(part).as_str());
        if end == n {
            assert(texts(out@) =~= before + rest);
            return out;
        }
        assert(before + rest =~= texts(out@) + parts_from(s@, c, end + 1));
        from = end + 1;
    }
}

/// A text without the white space at its start.
pub fn trim_start(s: &str) -> (r: String)
    ensures
        r@ == trimmed_start(s@),
{
    let a = chars_of(s);
    let mut from: usize = 0;
    assert(a@.subrange(0, a@.len() as int) =~= a@);
    while from < a.len() && char_is_space(a[from])
        invariant
            from <= a@.len(),
            a@ == s@,
            trimmed_start(s@) == trimmed_start(a@.subrange(from as int, a@.len() as int)),
        ensures
            from <= a@.len(),
            trimmed_start(s@) == a@.subrange(from as int, a@.len() as int),
        decreases a@.len() - from,
    {
        assert(a@.subrange(from as int, a@.len() as int).skip(1) =~= a@.subrange(
            from + 1,
            a@.len() as int,
        ));
        from += 1;
    }
    text_of(vstd::slice::slice_subrange(a.as_slice(), from, a.len()))
}

/// The characters of a text before its first white space.
pub open spec fn until_space(s: Seq<char>) -> Seq<char>
    decreases s.len(),
{
    if s.len() == 0 || is_space(s[0]) {
        Seq::empty()
    } else {
        seq![s[0]] + until_space(s.skip(1))
    }
}

/// The first word of a text, if it has one.
pub open spec fn first_word_of(s: Seq<char>) -> Option<Seq<char>> {
    let w = until_space(trimmed_start(s));
    if w.len() == 0 {
        None
    } else {
        Some(w)
    }
}

/// The first word of a text, if it has one.
pub fn first_word(s: &str) -> (r: Option<String>)
    ensures
        opt_text(r) == first_word_of(s@),
{
    let t = trim_start(s);
    let a = chars_of(t.as_str());
    let mut i: usize = 0;
    assert(a@.skip(0) =~= a@);
    assert(a@.take(0) + until_space(a@.skip(0)) =~= until_space(a@));
    while i < a.len() && !char_is_space(a[i])
        invariant
            i <= a@.len(),
            a@.take(i as int) + until_space(a@.skip(i as int)) == until_space(a@),
        ensures
            i <= a@.len(),
            a@.take(i as int) == until_space(a@),
        decreases a@.len() - i,
    {
        assert(a@.skip(i as int).skip(1) =~= a@.skip(i + 1));
        assert(a@.take(i + 1) + until_space(a@.skip(i + 1)) =~= a@.take(i as int) + until_space(
            a@.skip(i as int),
        ));
        i += 1;
        if i == a.len() {
            assert(a@.take(i as int) + until_space(a@.skip(i as int)) =~= a@.take(i as int));
        }
    }
    if i == 0 {
        return None;
    }
    let w = vstd::slice::slice_subrange(a.as_slice(), 0, i);
    assert(w@ =~= a@.take(i as int));
    Some(text_of(w))
}

/// The first characters of a text, at most `n`.
pub open spec fn shortened(s: Seq<char>, n: int) -> Seq<char> {
    if s.len() <= n {
        s
    } else {
        s.take(n)
    }
}

/// The first characters of a text, at most `n`.
pub fn take_chars(s: &str, n: usize) -> (r: String)
    ensures
        r@ == shortened(s@, n as int),
{
    let a = chars_of(s);
    if a.len() <= n {
        return s.to_owned();
    }
    let head = vstd::slice::slice_subrange(a.as_slice(), 0, n);
    assert(head@ =~= s@.take(n as int));
    text_of(head)
}

/// An ASCII letter or digit.
pub open spec fn is_ascii_alnum(c: char) -> bool {
    ('0' <= c <= '9') || ('a' <= c <= 'z') || ('A' <= c <= 'Z')
}

/// Whether a character is an ASCII letter or digit.
pub fn ascii_alnum(c: char) -> (r: bool)
    ensures
        r == is_ascii_alnum(c),
{
    ('0' <= c && c <= '9') || ('a' <= c && c <= 'z') || ('A' <= c && c <= 'Z')
}

/// What `String::from_utf8_lossy` makes of bytes that are no UTF-8.
pub uninterp spec fn replaced_text(bytes: Seq<u8>) -> Seq<char>;

/// The text that bytes stand for.
pub open spec fn lossy_text(bytes: Seq<u8>) -> Seq<char> {
    if vstd::utf8::valid_utf8(bytes) {
        vstd::utf8::decode_utf8(bytes)
    } else {
        replaced_text(bytes)
    }
}

/// `String::from_utf8_lossy`: bytes that are UTF-8 give the text they encode;
/// where replacement characters stand in other bytes is only named, by
/// [`replaced_text`].
#[verifier::external_body]
pub(crate) fn from_lossy(bytes: &[u8]) -> (r: String)
    ensures
        r@ == (if vstd::utf8::valid_utf8(bytes@) {
            vstd::utf8::decode_utf8(bytes@)
        } else {
            replaced_text(bytes@)
        }),
{
    String::from_utf8_lossy(bytes).into_owned()
}

/// The text that a text's own UTF-8 bytes stand for is that text.
pub proof fn law_utf8_reads_back(s: Seq<char>)
    ensures
        lossy_text(vstd::utf8::encode_utf8(s)) == s,
{
    vstd::utf8::encode_utf8_valid_utf8(s);
    vstd::utf8::encode_utf8_decode_utf8(s);
}

/// A text without white space at its ends does not change by trimming.
proof fn lemma_trim_fixed(s: Seq<char>)
    requires
        s.len() == 0 || (!is_space(s[0]) && !is_space(s.last())),
    ensures
        trimmed(s) == s,
{
}

/// What trimming the start leaves starts with no white space and is an end of
/// the text.
proof fn lemma_trimmed_start(s: Seq<char>)
    ensures
        trimmed_start(s).len() <= s.len(),
        trimmed_start(s).len() > 0 ==> !is_space(trimmed_start(s)[0]),
    decreases s.len(),
{
    if s.len() > 0 && is_space(s[0]) {
        lemma_trimmed_start(s.skip(1));
    }
}

/// What trimming the end leaves ends with no white space and is a start of the
/// text.
proof fn lemma_trimmed_end(s: Seq<char>)
    ensures
        trimmed_end(s).len() <= s.len(),
        trimmed_end(s) == s.take(trimmed_end(s).len() as int),
        trimmed_end(s).len() > 0 ==> !is_space(trimmed_end(s).last()),
    decreases s.len(),
{
    if s.len() > 0 && is_space(s.last()) {
        lemma_trimmed_end(s.drop_last());
        assert(s.drop_last().take(trimmed_end(s).len() as int) =~= s.take(
            trimmed_end(s).len() as int,
        ));
    } else {
        assert(s.take(s.len() as int) =~= s);
    }
}

/// Trimming a second time changes nothing.
pub proof fn law_trim_twice(s: Seq<char>)
    ensures
        trimmed(trimmed(s)) == trimmed(s),
{
    let t = trimmed_start(s);
    lemma_trimmed_start(s);
    lemma_trimmed_end(t);
    let u = trimmed(s);
    if u.len() > 0 {
        assert(u[0] == t[0]);
    }
    lemma_trim_fixed(u);
}

} // verus!
