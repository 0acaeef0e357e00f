//! What the text functions do, said of the characters themselves.
use vstd::prelude::*;

use crate::text;

verus! {

/// Leading space ends at the first character that is none: what is left is the
/// rest of the text from there.
proof fn lemma_trim_start(s: Seq<char>) -> (i: int)
    ensures
        0 <= i <= s.len(),
        text::trimmed_start(s) == s.skip(i),
        forall|j: int| 0 <= j < i ==> text::is_space(#[trigger] s[j]),
        i < s.len() ==> !text::is_space(s[i]),
    decreases s.len(),
{
    if s.len() > 0 && text::is_space(s[0]) {
        let t = s.skip(1);
        let i = lemma_trim_start(t);
        assert(t.skip(i) =~= s.skip(i + 1));
        assert forall|j: int| 0 <= j < i + 1 implies text::is_space(#[trigger] s[j]) by {
            if j > 0 {
                assert(t[j - 1] == s[j]);
            }
        }
        if i < t.len() {
            assert(t[i] == s[i + 1]);
        }
        i + 1
    } else {
        assert(s.skip(0) =~= s);
        0
    }
}

/// Trailing space starts behind the last character that is none.
proof fn lemma_trim_end(s: Seq<char>) -> (n: int)
    ensures
        0 <= n <= s.len(),
        text::trimmed_end(s) == s.take(n),
        forall|j: int| n <= j < s.len() ==> text::is_space(#[trigger] s[j]),
        n > 0 ==> !text::is_space(s[n - 1]),
    decreases s.len(),
{
    if s.len() > 0 && text::is_space(s.last()) {
        let t = s.drop_last();
        let n = lemma_trim_end(t);
        assert(t.take(n) =~= s.take(n));
        assert forall|j: int| n <= j < s.len() implies text::is_space(#[trigger] s[j]) by {
            if j < t.len() {
                assert(t[j] == s[j]);
            }
        }
        if n > 0 {
            assert(t[n - 1] == s[n - 1]);
        }
        n
    } else {
        assert(s.take(s.len() as int) =~= s);
        s.len() as int
    }
}

/// Trimming takes blanks, tabs and line ends off both ends, and no printable
/// ASCII character: what stands between the first and the last character that
/// is no space is left as it was.
pub proof fn law_trim_cuts_the_ends(s: Seq<char>, i: int, j: int)
    requires
        0 <= i < j <= s.len(),
        forall|k: int|
            0 <= k < i || j <= k < s.len() ==> #[trigger] s[k] == ' ' || s[k] == '\t' || s[k]
                == '\n' || s[k] == '\r',
        '!' <= s[i] <= '~',
        '!' <= s[j - 1] <= '~',
    ensures
        text::trimmed(s) == s.subrange(i, j),
        text::trimmed_start(s) == s.skip(i),
{
    let a = lemma_trim_start(s);
    if a < i {
        assert(text::is_space(s[a]));
    }
    if a > i {
        assert(text::is_space(s[i]));
    }
    let t = s.skip(i);
    let n = lemma_trim_end(t);
    if n < j - i {
        assert(text::is_space(t[j - i - 1]));
        assert(t[j - i - 1] == s[j - 1]);
    }
    if n > j - i {
        assert(t[n - 1] == s[i + n - 1]);
        assert(text::is_space(s[i + n - 1]));
    }
    assert(t.take(j - i) =~= s.subrange(i, j));
}

/// A text of blanks, tabs and line ends alone trims to nothing.
pub proof fn law_blank_trims_to_nothing(s: Seq<char>)
    requires
        forall|k: int|
            0 <= k < s.len() ==> #[trigger] s[k] == ' ' || s[k] == '\t' || s[k] == '\n' || s[k]
                == '\r',
    ensures
        text::trimmed(s).len() == 0,
{
    let a = lemma_trim_start(s);
    if a < s.len() {
        assert(text::is_space(s[a]));
    }
    assert(text::trimmed_start(s) =~= Seq::empty());
}

/// Parting a text on a character gives what stands before its first place and
/// all that stands behind it, and nothing where it does not occur.
pub proof fn law_parted_rejoins(s: Seq<char>, c: char)
    ensures
        match text::parted(s, c) {
            Some(p) => s == p.0.push(c) + p.1 && !p.0.contains(c),
            None => !s.contains(c),
        },
{
    text::lemma_find(s, c, 0);
    let i = text::find(s, c, 0);
    if i < s.len() {
        assert(s.take(i).push(c) + s.skip(i + 1) =~= s);
    }
}

/// The parts of a text hold the character they were split on nowhere, and put
/// together with it between them they are the text.
pub proof fn law_parts_rejoin(s: Seq<char>, c: char, from: int)
    requires
        0 <= from <= s.len(),
    ensures
        text::parts_from(s, c, from).len() > 0,
        forall|i: int|
            0 <= i < text::parts_from(s, c, from).len() ==> !(#[trigger] text::parts_from(
                s,
                c,
                from,
            )[i]).contains(c),
        text::parts_from(s, c, from).map_values(|p: Seq<char>| seq![c] + p).flatten() == seq![c]
            + s.skip(from),
    decreases s.len() - from,
{
    text::lemma_find(s, c, from);
    let end = text::find(s, c, from);
    let f = |p: Seq<char>| seq![c] + p;
    let all = text::parts_from(s, c, from);
    if end >= s.len() {
        let one = s.subrange(from, s.len() as int);
        assert(all =~= seq![one]);
        assert(one =~= s.skip(from));
        let m = all.map_values(f);
        assert(m.len() == 1 && m[0] == seq![c] + one);
        assert(m.drop_first() =~= Seq::<Seq<char>>::empty());
        assert(m.flatten() =~= m[0] + m.drop_first().flatten());
        assert(m.drop_first().flatten() =~= Seq::<char>::empty());
    } else {
        law_parts_rejoin(s, c, end + 1);
        let one = s.subrange(from, end);
        let rest = text::parts_from(s, c, end + 1);
        assert(all =~= seq![one] + rest);
        let m = all.map_values(f);
        assert(m.drop_first() =~= rest.map_values(f));
        assert(m[0] == seq![c] + one);
        assert(m.flatten() =~= m[0] + m.drop_first().flatten());
        assert((seq![c] + one) + (seq![c] + s.skip(end + 1)) =~= seq![c] + s.skip(from));
        assert forall|i: int| 0 <= i < all.len() implies !(#[trigger] all[i]).contains(c) by {
            if i > 0 {
                assert(all[i] == rest[i - 1]);
            } else {
                assert(all[0] == one);
                assert forall|k: int| 0 <= k < one.len() implies one[k] != c by {
                    assert(one[k] == s[from + k]);
                }
            }
        }
    }
}

/// No line holds a line end, and where no carriage return stands in the text
/// and it does not end with a line end, the lines with line ends between them
/// are the text.
pub proof fn law_lines_rejoin(s: Seq<char>, from: int)
    requires
        0 <= from < s.len(),
        !s.contains('\r'),
        s.last() != '\n',
    ensures
        forall|i: int|
            0 <= i < text::lines_from(s, from).len() ==> !(#[trigger] text::lines_from(
                s,
                from,
            )[i]).contains('\n'),
        text::lines_from(s, from).map_values(|p: Seq<char>| seq!['\n'] + p).flatten() == seq!['\n']
            + s.skip(from),
    decreases s.len() - from,
{
    text::lemma_find(s, '\n', from);
    let end = text::find(s, '\n', from);
    let f = |p: Seq<char>| seq!['\n'] + p;
    let all = text::lines_from(s, from);
    if end >= s.len() {
        let one = s.subrange(from, s.len() as int);
        assert(all =~= seq![one]);
        assert(one =~= s.skip(from));
        let m = all.map_values(f);
        assert(m.len() == 1 && m[0] == seq!['\n'] + one);
        assert(m.drop_first() =~= Seq::<Seq<char>>::empty());
        assert(m.flatten() =~= m[0] + m.drop_first().flatten());
        assert(m.drop_first().flatten() =~= Seq::<char>::empty());
    } else {
        assert(end + 1 < s.len());
        law_lines_rejoin(s, end + 1);
        let one = s.subrange(from, end);
        if one.len() > 0 {
            assert(one.last() == s[end - 1]);
            assert(s.contains(s[end - 1]));
        }
        let rest = text::lines_from(s, end + 1);
        assert(all =~= seq![one] + rest);
        let m = all.map_values(f);
        assert(m.drop_first() =~= rest.map_values(f));
        assert(m[0] == seq!['\n'] + one);
        assert(m.flatten() =~= m[0] + m.drop_first().flatten());
        assert((seq!['\n'] + one) + (seq!['\n'] + s.skip(end + 1)) =~= seq!['\n'] + s.skip(from));
        assert forall|i: int| 0 <= i < all.len() implies !(#[trigger] all[i]).contains('\n') by {
            if i > 0 {
                assert(all[i] == rest[i - 1]);
            } else {
                assert(all[0] == one);
                assert forall|k: int| 0 <= k < one.len() implies one[k] != '\n' by {
                    assert(one[k] == s[from + k]);
                }
            }
        }
    }
}

/// The decimals of ten times a number and a digit are the number's decimals and
/// the digit; those of a digit are the digit alone.
pub proof fn law_decimals_grow(n: nat, d: nat)
    requires
        d < 10,
    ensures
        text::decimal_text(d) == seq![(48 + d) as char],
        n > 0 ==> text::decimal_text(10 * n + d) == text::decimal_text(n).push((48 + d) as char),
{
    assert((10 * n + d) / 10 == n && (10 * n + d) % 10 == d) by (nonlinear_arith)
        requires
            d < 10,
    ;
}

/// A decimal number with one more digit behind it is ten times the number and
/// the digit.
pub proof fn law_numbers_grow(s: Seq<char>, d: nat, max: nat)
    requires
        d < 10,
        text::number(s, 10, max) is Some,
        text::number(s, 10, max)->0 * 10 + d <= max,
    ensures
        text::number(s.push((48 + d) as char), 10, max) == Some(
            text::number(s, 10, max)->0 * 10 + d,
        ),
{
    let c = (48 + d) as char;
    let t = s.push(c);
    let a = text::unsigned_part(s);
    let b = text::unsigned_part(t);
    assert(t[0] == s[0]);
    assert(b =~= a.push(c));
    assert(b.drop_last() =~= a);
    assert(text::digit(c) == d);
    assert forall|i: int| 0 <= i < b.len() implies #[trigger] text::digit(b[i]) < 10 by {
        if i < a.len() {
            assert(b[i] == a[i]);
        }
    }
}

/// One digit is its number, and a text with any other character than digits
/// behind an optional plus sign is no number.
pub proof fn law_numbers_are_digits(s: Seq<char>, d: nat, max: nat)
    requires
        d < 10,
        d <= max,
    ensures
        text::number(seq![(48 + d) as char], 10, max) == Some(d),
        text::number(s, 10, max) matches Some(n) ==> n <= max && s.len() > 0 && forall|i: int|
            0 < i < s.len() ==> '0' <= #[trigger] s[i] <= '9',
        text::number(s, 10, max) is Some ==> '0' <= s[0] <= '9' || (s[0] == '+' && s.len() > 1),
{
    let c = (48 + d) as char;
    let one = seq![c];
    assert(one.drop_last() =~= Seq::<char>::empty());
    assert(text::digits_value(one.drop_last(), 10) == 0);
    assert(text::unsigned_part(one) == one);
    let a = text::unsigned_part(s);
    if text::number(s, 10, max) is Some {
        assert(text::digit(a[0]) < 10);
        assert forall|i: int| 0 < i < s.len() implies '0' <= #[trigger] s[i] <= '9' by {
            let k = i - (s.len() - a.len());
            assert(a[k] == s[i]);
            assert(text::digit(a[k]) < 10);
        }
    }
}

/// Of two texts the one comes first that ends where they part, or whose
/// character is the lower one at the first place at which they differ.
pub proof fn law_order_by_first_difference(a: Seq<char>, b: Seq<char>, k: int)
    requires
        0 <= k <= a.len(),
        k <= b.len(),
        a.take(k) == b.take(k),
    ensures
        k == a.len() && k < b.len() ==> text::comes_before(a, b),
        k == b.len() ==> !text::comes_before(a, b),
        k < a.len() && k < b.len() && a[k] < b[k] ==> text::comes_before(a, b),
        k < a.len() && k < b.len() && a[k] > b[k] ==> !text::comes_before(a, b),
    decreases k,
{
    if k > 0 {
        assert(a[0] == a.take(k)[0] && b[0] == b.take(k)[0]);
        assert(a.skip(1).take(k - 1) =~= a.take(k).skip(1));
        assert(b.skip(1).take(k - 1) =~= b.take(k).skip(1));
        law_order_by_first_difference(a.skip(1), b.skip(1), k - 1);
    }
}

/// A pattern is found at the first place from `from` on at which its characters
/// stand, and not found where they stand nowhere.
pub proof fn law_pattern_found_first(s: Seq<char>, pattern: Seq<char>, from: int)
    requires
        0 <= from <= s.len(),
    ensures
        ({
            let r = text::find_pattern(s, pattern, from);
            &&& r >= 0 ==> from <= r && r + pattern.len() <= s.len() && s.subrange(
                r,
                r + pattern.len(),
            ) == pattern
            &&& forall|j: int|
                from <= j && (r >= 0 ==> j < r) && j + pattern.len() <= s.len()
                    ==> #[trigger] s.subrange(j, j + pattern.len()) != pattern
        }),
    decreases s.len() - from,
{
    if !text::stands_at(s, pattern, from) {
        if from < s.len() {
            law_pattern_found_first(s, pattern, from + 1);
        } else {
            assert(text::find_pattern(s, pattern, from + 1) < 0);
        }
    }
}

/// Lowering moves the capital letters of ASCII to the small ones and no other
/// character.
pub proof fn law_lower_moves_capitals(s: Seq<char>, i: int)
    requires
        0 <= i < s.len(),
    ensures
        text::ascii_lower(s).len() == s.len(),
        'A' <= s[i] <= 'Z' ==> text::ascii_lower(s)[i] as int == s[i] as int + 32,
        !('A' <= s[i] <= 'Z') ==> text::ascii_lower(s)[i] == s[i],
{
}

/// The first word is what stands from the first character that is no space to
/// the next space.
pub proof fn law_first_word(s: Seq<char>, i: int, j: int)
    requires
        0 <= i < j <= s.len(),
        forall|k: int| 0 <= k < i ==> #[trigger] s[k] == ' ' || s[k] == '\t',
        forall|k: int| i <= k < j ==> '!' <= #[trigger] s[k] <= '~',
        j < s.len() ==> s[j] == ' ',
    ensures
        text::first_word_of(s) == Some(s.subrange(i, j)),
{
    let a = lemma_trim_start(s);
    if a < i {
        assert(text::is_space(s[a]));
    }
    if a > i {
        assert(text::is_space(s[i]));
    }
    let t = s.skip(i);
    assert forall|k: int| 0 <= k < j - i implies '!' <= #[trigger] t[k] <= '~' by {
        assert(t[k] == s[i + k]);
    }
    lemma_word(t, j - i);
    assert(t.take(j - i) =~= s.subrange(i, j));
}

proof fn lemma_word(t: Seq<char>, n: int)
    requires
        0 <= n <= t.len(),
        forall|k: int| 0 <= k < n ==> '!' <= #[trigger] t[k] <= '~',
        n < t.len() ==> t[n] == ' ',
    ensures
        text::until_space(t) == t.take(n),
    decreases n,
{
    if n > 0 {
        let u = t.skip(1);
        assert forall|k: int| 0 <= k < n - 1 implies '!' <= #[trigger] u[k] <= '~' by {
            assert(u[k] == t[k + 1]);
        }
        lemma_word(u, n - 1);
        assert(seq![t[0]] + u.take(n - 1) =~= t.take(n));
    } else {
        assert(t.take(0) =~= Seq::empty());
    }
}

/// A list of texts put together starts with the first, and each next follows
/// the separator.
pub proof fn law_joined_in_order(list: Seq<Seq<char>>, sep: Seq<char>, next: Seq<char>)
    ensures
        text::joined(seq![next], sep) == next,
        list.len() > 0 ==> text::joined(list.push(next), sep) == text::joined(list, sep) + sep
            + next,
{
    assert(list.push(next).drop_last() =~= list);
}

/// The hexadecimals of sixteen times a number and a digit are the number's and
/// the digit, on one place more.
pub proof fn law_hex_grows(n: nat, d: nat, width: nat)
    requires
        d < 16,
    ensures
        text::hex_text(n, width).len() == width,
        text::hex_text(16 * n + d, width + 1) == text::hex_text(n, width).push(
            (if d < 10 {
                48 + d
            } else {
                87 + d
            }) as char,
        ),
    decreases width,
{
    assert((16 * n + d) / 16 == n && (16 * n + d) % 16 == d) by (nonlinear_arith)
        requires
            d < 16,
    ;
    if width > 0 {
        law_hex_grows(n / 16, 0, (width - 1) as nat);
    }
}

/// Trimming the front takes off the blanks there and nothing else.
pub proof fn law_trim_start_cuts(s: Seq<char>, i: int)
    requires
        0 <= i < s.len(),
        forall|k: int| 0 <= k < i ==> #[trigger] s[k] == ' ' || s[k] == '\t',
        '!' <= s[i] <= '~',
    ensures
        text::trimmed_start(s) == s.skip(i),
{
    let a = lemma_trim_start(s);
    if a < i {
        assert(text::is_space(s[a]));
    }
    if a > i {
        assert(text::is_space(s[i]));
    }
}

/// A hexadecimal number with one more digit behind it, in small or capital
/// letters, is sixteen times the number and the digit.
pub proof fn law_hex_numbers_grow(s: Seq<char>, c: char, d: nat, max: nat)
    requires
        d < 16,
        c as nat == 48 + d && d < 10 || c as nat == 87 + d && d >= 10 || c as nat == 55 + d && d
            >= 10,
        text::number(s, 16, max) is Some,
        text::number(s, 16, max)->0 * 16 + d <= max,
    ensures
        text::number(s.push(c), 16, max) == Some(text::number(s, 16, max)->0 * 16 + d),
{
    let t = s.push(c);
    let a = text::unsigned_part(s);
    let b = text::unsigned_part(t);
    assert(t[0] == s[0]);
    assert(b =~= a.push(c));
    assert(b.drop_last() =~= a);
    assert(text::digit(c) == d);
    assert forall|i: int| 0 <= i < b.len() implies #[trigger] text::digit(b[i]) < 16 by {
        if i < a.len() {
            assert(b[i] == a[i]);
        }
    }
}

/// A text that is too long loses its end.
pub proof fn law_long_texts_lose_their_end(s: Seq<char>, n: int)
    requires
        n >= 0,
    ensures
        text::shortened(s, n).is_prefix_of(s),
        text::shortened(s, n).len() == (if s.len() <= n {
            s.len() as int
        } else {
            n
        }),
{
    let t = text::shortened(s, n);
    assert(t =~= s.subrange(0, t.len() as int));
}

/// ASCII text is lowered letter by letter.
pub proof fn law_ascii_is_lowered(s: Seq<char>, i: int)
    requires
        forall|k: int| 0 <= k < s.len() ==> #[trigger] s[k] <= '\u{7f}',
        0 <= i < s.len(),
    ensures
        text::lowercase(s).len() == s.len(),
        'A' <= s[i] <= 'Z' ==> text::lowercase(s)[i] as int == s[i] as int + 32,
        !('A' <= s[i] <= 'Z') ==> text::lowercase(s)[i] == s[i],
{
    assert(text::all_ascii(s));
    law_lower_moves_capitals(s, i);
}

/// A line ends at the next line end, and a carriage return right before that is
/// not part of it; what stands behind the last line end is a line as it is, if it
/// is anything.
pub proof fn law_line_by_line(s: Seq<char>, from: int, end: int)
    requires
        0 <= from <= end <= s.len(),
        forall|k: int| from <= k < end ==> #[trigger] s[k] != '\n',
        end < s.len() ==> s[end] == '\n',
    ensures
        end < s.len() && end > from && s[end - 1] == '\r' ==> text::lines_from(s, from) == seq![
            s.subrange(from, end - 1),
        ] + text::lines_from(s, end + 1),
        end < s.len() && (end == from || s[end - 1] != '\r') ==> text::lines_from(s, from) == seq![
            s.subrange(from, end),
        ] + text::lines_from(s, end + 1),
        end == s.len() && from < end ==> text::lines_from(s, from) == seq![s.skip(from)],
        end == s.len() && from == end ==> text::lines_from(s, from).len() == 0,
{
    text::lemma_find(s, '\n', from);
    let f = text::find(s, '\n', from);
    if f < end {
        assert(s[f] != '\n');
    }
    assert(f == end);
    let one = s.subrange(from, end);
    if one.len() > 0 {
        assert(one.last() == s[end - 1]);
        assert(one.drop_last() =~= s.subrange(from, end - 1));
    }
    assert(s.subrange(from, s.len() as int) =~= s.skip(from));
}

/// Which characters are space, by their numbers.
pub proof fn law_spaces(c: char)
    ensures
        text::is_space(c) == (9 <= c as int <= 13 || c as int == 32 || c as int == 0x85 || c as int
            == 0xa0 || c as int == 0x1680 || 0x2000 <= c as int <= 0x200a || c as int == 0x2028
            || c as int == 0x2029 || c as int == 0x202f || c as int == 0x205f || c as int
            == 0x3000),
{
}

/// A plus sign before a number changes nothing, alone it is no number, and a
/// number that is too large is none.
pub proof fn law_signs_and_limits(s: Seq<char>, d: nat, radix: nat, max: nat)
    ensures
        s.len() > 0 && s[0] != '+' ==> text::number(seq!['+'] + s, radix, max) == text::number(
            s,
            radix,
            max,
        ),
        text::number(seq!['+'], radix, max) is None,
        text::number(Seq::empty(), radix, max) is None,
        d < 10 && text::number(s, 10, max) is Some && text::number(s, 10, max)->0 * 10 + d > max
            ==> text::number(s.push((48 + d) as char), 10, max) is None,
{
    assert((seq!['+'] + s).skip(1) =~= s);
    assert(seq!['+'].skip(1) =~= Seq::empty());
    if d < 10 && text::number(s, 10, max) is Some {
        let c = (48 + d) as char;
        let t = s.push(c);
        let a = text::unsigned_part(s);
        let b = text::unsigned_part(t);
        assert(t[0] == s[0]);
        assert(b =~= a.push(c));
        assert(b.drop_last() =~= a);
        assert(text::digit(c) == d);
    }
}

} // verus!
