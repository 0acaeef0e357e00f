//! What reading videos and their tools' output does, said of the bytes and
//! characters themselves.
use vstd::prelude::*;

use crate::cuttlefish;
use crate::cuttlefish::VideoMeta;
use crate::ranges;
use crate::text;
use crate::text_laws;

verus! {

/// Without a range the whole is asked for, if there is any.
pub proof fn law_no_range_asks_for_all(total: nat)
    ensures
        cuttlefish::byte_range_of(None, total) == (if total == 0 {
            None
        } else {
            Some((0nat, (total - 1) as nat))
        }),
{
}

/// `a-b` asks for the bytes from `a` to `b`, but not past the last, `a-` for all
/// from `a` on and `-b` for the last `b`; a range in which no byte lies is none.
pub proof fn law_three_kinds_of_ranges(a: nat, b: nat, total: nat)
    requires
        0 < total,
        a <= u64::MAX,
        b <= u64::MAX,
    ensures
        ({
            let p = seq!['b', 'y', 't', 'e', 's', '='];
            let from = text::decimal_text(a);
            let to = text::decimal_text(b);
            let closed = cuttlefish::byte_range_of(Some(p + from + seq!['-'] + to), total);
            let open = cuttlefish::byte_range_of(Some(p + from + seq!['-']), total);
            let suffix = cuttlefish::byte_range_of(Some(p + seq!['-'] + to), total);
            &&& closed == (if a > b || a >= total {
                None
            } else if b < total {
                Some((a, b))
            } else {
                Some((a, (total - 1) as nat))
            })
            &&& open == (if a < total {
                Some((a, (total - 1) as nat))
            } else {
                None
            })
            &&& suffix == (if b == 0 {
                None
            } else if b < total {
                Some(((total - b) as nat, (total - 1) as nat))
            } else {
                Some((0nat, (total - 1) as nat))
            })
        }),
{
    let p = "bytes="@;
    let from = text::decimal_text(a);
    let to = text::decimal_text(b);
    reveal_strlit("bytes=");
    assert(p =~= seq!['b', 'y', 't', 'e', 's', '=']);
    ranges::lemma_no_dash(a);
    ranges::lemma_parts_of_range(from, to);
    ranges::lemma_parts_of_range(from, Seq::empty());
    ranges::lemma_parts_of_range(Seq::empty(), to);
    assert(p + from + seq!['-'] + Seq::empty() =~= p + from + seq!['-']);
    assert(p + Seq::empty() + seq!['-'] + to =~= p + seq!['-'] + to);
    text::law_decimal_reads_back(a, u64::MAX as nat);
    text::law_decimal_reads_back(b, u64::MAX as nat);
    text::lemma_decimal(a);
    text::lemma_decimal(b);
}

/// Whatever was asked for lies in the bytes there are.
pub proof fn law_byte_ranges_lie_inside(range: Option<Seq<char>>, total: nat)
    ensures
        cuttlefish::byte_range_of(range, total) matches Some(r) ==> r.0 <= r.1 < total,
        range matches Some(h) && !seq!['b', 'y', 't', 'e', 's', '='].is_prefix_of(h)
            ==> cuttlefish::byte_range_of(range, total) is None,
{
    reveal_strlit("bytes=");
    assert("bytes="@ =~= seq!['b', 'y', 't', 'e', 's', '=']);
}

/// An image starts with the three bytes that start one and holds no second such
/// place; before the first no image is given out.
pub proof fn law_images_start_where_they_start(b: Seq<u8>, k: int)
    requires
        0 <= k < cuttlefish::images_from(b, cuttlefish::next_start(b, 0)).len(),
    ensures
        ({
            let p = cuttlefish::images_from(b, cuttlefish::next_start(b, 0))[k];
            &&& p.len() >= 2 && p[0] == 0xff && p[1] == 0xd8 && (p.len() > 2 ==> p[2] == 0xff)
            &&& forall|j: int|
                #![trigger p[j]]
                0 < j < p.len() - 2 ==> !(p[j] == 0xff && p[j + 1] == 0xd8 && p[j + 2] == 0xff)
        }),
{
    cuttlefish::lemma_next_start(b, 0);
    lemma_image(b, cuttlefish::next_start(b, 0), k);
}

proof fn lemma_image(b: Seq<u8>, at: int, k: int)
    requires
        cuttlefish::starts_at(b, at),
        0 <= k < cuttlefish::images_from(b, at).len(),
    ensures
        ({
            let p = cuttlefish::images_from(b, at)[k];
            &&& p.len() >= 2 && p[0] == 0xff && p[1] == 0xd8 && (p.len() > 2 ==> p[2] == 0xff)
            &&& forall|j: int|
                #![trigger p[j]]
                0 < j < p.len() - 2 ==> !(p[j] == 0xff && p[j + 1] == 0xd8 && p[j + 2] == 0xff)
        }),
    decreases b.len() - at,
{
    let next = cuttlefish::next_start(b, at + 1);
    cuttlefish::lemma_next_start(b, at + 1);
    let rest = cuttlefish::images_from(b, next);
    let all = cuttlefish::images_from(b, at);
    assert(all == seq![b.subrange(at, next)] + rest);
    if k == 0 {
        let p = b.subrange(at, next);
        assert(all[0] == p);
        if next < b.len() {
            assert(b[next] == 0xff && b[next + 1] == 0xd8);
        }
        assert forall|j: int|
            #![trigger p[j]]
            0 < j < p.len() - 2 implies !(p[j] == 0xff && p[j + 1] == 0xd8 && p[j + 2] == 0xff) by {
            assert(!cuttlefish::starts_at(b, at + j));
            assert(p[j] == b[at + j] && p[j + 1] == b[at + j + 1] && p[j + 2] == b[at + j + 2]);
        }
    } else {
        assert(rest.len() > 0);
        assert(next < b.len());
        lemma_image(b, next, k - 1);
        assert(all[k] == rest[k - 1]);
    }
}

/// Put together the images are the bytes from the first place on at which an
/// image starts.
pub proof fn law_images_from_the_first_start(b: Seq<u8>, at: int)
    requires
        0 <= at < b.len() - 2,
        b[at] == 0xff && b[at + 1] == 0xd8 && b[at + 2] == 0xff,
        forall|j: int|
            #![trigger b[j]]
            0 <= j < at ==> !(b[j] == 0xff && b[j + 1] == 0xd8 && b[j + 2] == 0xff),
    ensures
        cuttlefish::images_from(b, cuttlefish::next_start(b, 0)).flatten() == b.skip(at),
{
    let n = cuttlefish::next_start(b, 0);
    cuttlefish::lemma_next_start(b, 0);
    assert(cuttlefish::starts_at(b, at));
    if n < at {
        assert(cuttlefish::starts_at(b, n));
        assert(b[n] == 0xff);
    }
    assert(n == at);
    cuttlefish::law_images_are_the_stream(b, at);
    assert(b.subrange(at, b.len() as int) =~= b.skip(at));
}

proof fn lemma_line_ends_there(b: Seq<u8>, from: int, end: int)
    requires
        0 <= from <= end <= b.len(),
        forall|j: int| from <= j < end ==> #[trigger] b[j] != 10 && b[j] != 13,
        end < b.len() ==> b[end] == 10 || b[end] == 13,
    ensures
        cuttlefish::line_end(b, from) == end,
    decreases end - from,
{
    if from < end {
        lemma_line_ends_there(b, from + 1, end);
    }
}

/// A line runs to the next line feed or carriage return, and the next line
/// starts behind it; what stands behind the last of them is a line of its own
/// unless it is nothing.
pub proof fn law_lines_by_their_ends(b: Seq<u8>, from: int, end: int)
    requires
        0 <= from <= end <= b.len(),
        forall|j: int| from <= j < end ==> #[trigger] b[j] != 10 && b[j] != 13,
        end < b.len() ==> b[end] == 10 || b[end] == 13,
    ensures
        end < b.len() ==> cuttlefish::byte_lines(b, from) == seq![b.subrange(from, end)]
            + cuttlefish::byte_lines(b, end + 1),
        end < b.len() ==> cuttlefish::complete_lines(b, from) == seq![b.subrange(from, end)]
            + cuttlefish::complete_lines(b, end + 1),
        end < b.len() ==> cuttlefish::waiting_from(b, from) == cuttlefish::waiting_from(b, end + 1),
        end == b.len() && from < end ==> cuttlefish::byte_lines(b, from) == seq![b.skip(from)],
        end == b.len() && from == end ==> cuttlefish::byte_lines(b, from).len() == 0,
        end == b.len() ==> cuttlefish::complete_lines(b, from).len() == 0,
        end == b.len() ==> cuttlefish::waiting_from(b, from) == from,
{
    lemma_line_ends_there(b, from, end);
    assert(b.subrange(from, b.len() as int) =~= b.skip(from));
}

/// The hash takes in one byte after another: each is joined to what there was
/// and the whole is multiplied.
pub proof fn law_hash_byte_by_byte(b: Seq<u8>, x: u8)
    ensures
        cuttlefish::fnv(Seq::empty(), 0) == 0xcbf2_9ce4_8422_2325u64,
        cuttlefish::fnv(b.push(x), b.len() as int + 1) == ((cuttlefish::fnv(b, b.len() as int) ^ (
        x as u64)) * 0x0100_0000_01b3) % 0x1_0000_0000_0000_0000,
{
    lemma_hash_prefix(b, x, b.len() as int);
}

proof fn lemma_hash_prefix(b: Seq<u8>, x: u8, n: int)
    requires
        0 <= n <= b.len(),
    ensures
        cuttlefish::fnv(b.push(x), n) == cuttlefish::fnv(b, n),
    decreases n,
{
    if n > 0 {
        lemma_hash_prefix(b, x, n - 1);
    }
}

/// What is hashed names the address and both times, each with a word that tells
/// whether it was given.
pub proof fn law_cache_keys_name_all(url: Seq<char>, start: Seq<char>, end: Seq<char>)
    ensures
        ({
            let some = seq!['S', 'o', 'm', 'e', '('];
            let none = seq!['N', 'o', 'n', 'e'];
            let k = |a: Option<Seq<char>>, b: Option<Seq<char>>| cuttlefish::cache_key(url, a, b);
            &&& k(Some(start), Some(end)) == url + seq!['|'] + some + start + seq![')', '|'] + some
                + end + seq![')']
            &&& k(Some(start), None) == url + seq!['|'] + some + start + seq![')', '|'] + none
            &&& k(None, Some(end)) == url + seq!['|'] + none + seq!['|'] + some + end + seq![')']
            &&& k(None, None) == url + seq!['|'] + none + seq!['|'] + none
        }),
{
    let some = seq!['S', 'o', 'm', 'e', '('];
    let none = seq!['N', 'o', 'n', 'e'];
    reveal_strlit("Some(");
    reveal_strlit(")");
    reveal_strlit("None");
    reveal_strlit("|");
    assert("Some("@ =~= some);
    assert("None"@ =~= none);
    assert(")"@ =~= seq![')']);
    assert("|"@ =~= seq!['|']);
    let k = |a: Option<Seq<char>>, b: Option<Seq<char>>| cuttlefish::cache_key(url, a, b);
    assert(k(Some(start), Some(end)) =~= url + seq!['|'] + some + start + seq![')', '|'] + some
        + end + seq![')']);
    assert(k(Some(start), None) =~= url + seq!['|'] + some + start + seq![')', '|'] + none);
    assert(k(None, Some(end)) =~= url + seq!['|'] + none + seq!['|'] + some + end + seq![')']);
    assert(k(None, None) =~= url + seq!['|'] + none + seq!['|'] + none);
}

/// A file's name is `yt-` and the sixteen digits of the hash.
pub proof fn law_cache_names(key: Seq<char>)
    ensures
        cuttlefish::cache_stem(key).len() == 19,
        cuttlefish::cache_stem(key).take(3) == seq!['y', 't', '-'],
        cuttlefish::cache_stem(key).skip(3) == text::hex_text(
            cuttlefish::fnv(
                vstd::utf8::encode_utf8(key),
                vstd::utf8::encode_utf8(key).len() as int,
            ) as nat,
            16,
        ),
{
    reveal_strlit("yt-");
    assert("yt-"@ =~= seq!['y', 't', '-']);
    let b = vstd::utf8::encode_utf8(key);
    let n = cuttlefish::fnv(b, b.len() as int) as nat;
    text_laws::law_hex_grows(n, 0, 16);
    let stem = cuttlefish::cache_stem(key);
    assert(stem.take(3) =~= seq!['y', 't', '-']);
    assert(stem.skip(3) =~= text::hex_text(n, 16));
}

/// A value is known unless it is missing, empty or `NA`.
pub proof fn law_known_values(v: Seq<char>)
    ensures
        cuttlefish::known(None) is None,
        v.len() == 0 || v == seq!['N', 'A'] ==> cuttlefish::known(Some(v)) is None,
        v.len() > 0 && v != seq!['N', 'A'] ==> cuttlefish::known(Some(v)) == Some(v),
{
    reveal_strlit("NA");
    assert("NA"@ =~= seq!['N', 'A']);
}

proof fn lemma_ascii_size(c: char)
    requires
        c < '\u{80}',
    ensures
        cuttlefish::utf8_size(c) == 1,
{
}

proof fn lemma_ascii_sizes(d: Seq<char>, n: int)
    requires
        0 <= n <= d.len(),
        forall|i: int| 0 <= i < d.len() ==> #[trigger] d[i] < '\u{80}',
    ensures
        cuttlefish::utf8_before(d, n) == n,
    decreases n,
{
    if n > 0 {
        lemma_ascii_sizes(d, n - 1);
        assert(d[n - 1] < '\u{80}');
        lemma_ascii_size(d[n - 1]);
    }
}

proof fn lemma_ascii_boundary(d: Seq<char>, bytes: nat, n: int)
    requires
        bytes <= n <= d.len(),
        forall|i: int| 0 <= i < d.len() ==> #[trigger] d[i] < '\u{80}',
    ensures
        cuttlefish::chars_in(d, bytes, n) == bytes,
    decreases n - bytes,
{
    lemma_ascii_sizes(d, n);
    if n > bytes {
        lemma_ascii_boundary(d, bytes, n - 1);
    }
}

/// Eight digits of a date get a dash behind the year and one behind the month; a
/// date of another length stays.
pub proof fn law_dates_get_dashes(d: Seq<char>)
    requires
        forall|i: int| 0 <= i < d.len() ==> #[trigger] d[i] < '\u{80}',
    ensures
        d.len() == 8 ==> cuttlefish::dashed_date(d) == seq![
            d[0],
            d[1],
            d[2],
            d[3],
            '-',
            d[4],
            d[5],
            '-',
            d[6],
            d[7],
        ],
        d.len() != 8 ==> cuttlefish::dashed_date(d) == d,
{
    lemma_ascii_sizes(d, d.len() as int);
    reveal_strlit("-");
    if d.len() == 8 {
        lemma_ascii_boundary(d, 4, 8);
        lemma_ascii_boundary(d, 6, 8);
        assert(cuttlefish::dashed_date(d) =~= seq![
            d[0],
            d[1],
            d[2],
            d[3],
            '-',
            d[4],
            d[5],
            '-',
            d[6],
            d[7],
        ]);
    }
}

/// Of the values the first is the title, the second the channel and the third
/// the date of the upload.
pub proof fn law_values_in_their_places(
    values: Seq<Option<Seq<char>>>,
    m: VideoMeta,
    title: Seq<char>,
    channel: Seq<char>,
)
    requires
        cuttlefish::meta_of(values, m),
        values[0] == Some(title),
        values[1] == Some(channel),
        title.len() > 2,
        channel.len() > 2,
    ensures
        m.title matches Some(t) && t@ == title,
        m.channel matches Some(c) && c@ == channel,
        values[2] is None ==> m.upload_date is None,
        values[2] matches Some(d) ==> (d.len() > 2 ==> (m.upload_date matches Some(u) && u@
            == cuttlefish::dashed_date(d))),
{
    reveal_strlit("NA");
}

/// A line that starts with the mark gives what stands behind it.
pub proof fn law_marked_rows(row: Seq<char>)
    requires
        row.len() > 0,
        '!' <= row.last() <= '~',
    ensures
        cuttlefish::meta_row(
            seq!['c', 'u', 't', 't', 'l', 'e', 'f', 'i', 's', 'h'] + seq![
                '-',
                'm',
                'e',
                't',
                'a',
                ' ',
            ] + row,
        ) == Some(row),
{
    reveal_strlit("cuttlefish-meta ");
    let mark = "cuttlefish-meta "@;
    assert(mark =~= seq!['c', 'u', 't', 't', 'l', 'e', 'f', 'i', 's', 'h'] + seq![
        '-',
        'm',
        'e',
        't',
        'a',
        ' ',
    ]);
    let line = mark + row;
    text_laws::law_trim_cuts_the_ends(line, 0, line.len() as int);
    assert(line.subrange(0, line.len() as int) =~= line);
    assert(mark =~= line.subrange(0, mark.len() as int));
    assert(line.skip(mark.len() as int) =~= row);
}

/// A line of the downloader tells its percentage: what stands between the mark
/// and the percent sign.
pub proof fn law_percent_is_read(p: Seq<char>, rest: Seq<char>)
    requires
        p.len() > 0,
        !p.contains('%'),
        forall|i: int| 0 <= i < p.len() ==> '!' <= #[trigger] p[i] <= '~',
    ensures
        cuttlefish::percent_in(
            seq!['[', 'd', 'o', 'w', 'n', 'l', 'o', 'a', 'd', ']', ' '] + p + seq!['%'] + rest,
        ) == Some(p),
{
    reveal_strlit("[download]");
    let mark = "[download]"@;
    assert(mark =~= seq!['[', 'd', 'o', 'w', 'n', 'l', 'o', 'a', 'd', ']']);
    let line = seq!['[', 'd', 'o', 'w', 'n', 'l', 'o', 'a', 'd', ']', ' '] + p + seq!['%'] + rest;
    text_laws::law_trim_start_cuts(line, 0);
    assert(line.skip(0) =~= line);
    assert(mark =~= line.subrange(0, mark.len() as int));
    let tail = line.skip(mark.len() as int);
    assert(tail =~= seq![' '] + p + seq!['%'] + rest);
    assert(tail[1] == p[0]);
    text_laws::law_trim_start_cuts(tail, 1);
    let t = tail.skip(1);
    assert(t =~= p + seq!['%'] + rest);
    text::lemma_find(t, '%', 0);
    assert forall|j: int| 0 <= j < p.len() implies t[j] != '%' by {
        assert(t[j] == p[j]);
        assert(p.contains(p[j]));
    }
    assert(t[p.len() as int] == '%');
    assert(text::find(t, '%', 0) == p.len());
    assert(t.take(p.len() as int) =~= p);
    text_laws::law_trim_cuts_the_ends(p, 0, p.len() as int);
    assert(p.subrange(0, p.len() as int) =~= p);
}

/// A line of the encoder tells its time: the word behind the first `time=`.
pub proof fn law_time_is_read(before: Seq<char>, w: Seq<char>, rest: Seq<char>)
    requires
        w.len() > 0,
        forall|i: int| 0 <= i < w.len() ==> '!' <= #[trigger] w[i] <= '~',
        !before.contains('t'),
        !w.contains('='),
        !rest.contains('='),
    ensures
        cuttlefish::time_in(before + seq!['t', 'i', 'm', 'e', '='] + w + seq![' '] + rest) == Some(
            w,
        ),
{
    reveal_strlit("time=");
    let mark = "time="@;
    assert(mark =~= seq!['t', 'i', 'm', 'e', '=']);
    let line = before + mark + w + seq![' '] + rest;
    let n = before.len() as int;
    assert(line.subrange(n, n + 5) =~= mark);
    text_laws::law_pattern_found_first(line, mark, 0);
    let i = text::find_pattern(line, mark, 0);
    if i < 0 {
        assert(line.subrange(n, n + 5) != mark);
    } else if i < n {
        assert(line.subrange(i, i + 5)[0] == line[i]);
        assert(line[i] == before[i]);
        assert(before.contains(before[i]));
    } else if i > n {
        assert(line.subrange(n, n + 5) != mark);
    }
    assert(i == n);
    let from = n + 5;
    text_laws::law_pattern_found_first(line, mark, from);
    let k = text::find_pattern(line, mark, from);
    if k >= 0 {
        assert(line.subrange(k, k + 5)[4] == line[k + 4]);
        let tail = w + seq![' '] + rest;
        assert(line[k + 4] == tail[k + 4 - from]);
        let j = k + 4 - from;
        if j < w.len() {
            assert(w.contains(w[j]));
        } else if j > w.len() {
            assert(tail[j] == rest[j - w.len() - 1]);
            assert(rest.contains(rest[j - w.len() - 1]));
        }
    }
    let found = line.subrange(from, line.len() as int);
    assert(found =~= w + seq![' '] + rest);
    text_laws::law_first_word(found, 0, w.len() as int);
    assert(found.subrange(0, w.len() as int) =~= w);
}

/// The encoder reads from the start, for the span, out of the file, two images a
/// second, and as many as are asked for.
pub proof fn law_image_arguments(
    start: Seq<char>,
    span: Seq<char>,
    path: Seq<char>,
    count: nat,
)
    ensures
        ({
            let a = cuttlefish::image_args_of(start, span, path, count);
            &&& a.len() == 19
            &&& a[2] == seq!['-', 's', 's'] && a[3] == start
            &&& a[4] == seq!['-', 't'] && a[5] == span
            &&& a[6] == seq!['-', 'i'] && a[7] == path
            &&& a[9].take(6) == seq!['f', 'p', 's', '=', '2', ',']
            &&& a[11] == text::decimal_text(count)
            &&& a[18] == seq!['-']
        }),
{
    reveal_strlit("-ss");
    reveal_strlit("-t");
    reveal_strlit("-i");
    reveal_strlit("-");
    reveal_strlit("fps=2,scale=-2:720");
    assert("-ss"@ =~= seq!['-', 's', 's']);
    assert("-t"@ =~= seq!['-', 't']);
    assert("-i"@ =~= seq!['-', 'i']);
    assert("-"@ =~= seq!['-']);
    assert("fps=2,scale=-2:720"@.take(6) =~= seq!['f', 'p', 's', '=', '2', ',']);
}

/// Three endings of a name, in any letters, tell another type than MP4.
pub proof fn law_video_types(extension: Seq<char>)
    ensures
        ({
            let e = text::lowercase(extension);
            let t = cuttlefish::content_type_of(extension);
            &&& (t == "video/webm"@) == (e == seq!['m', 'k', 'v'] || e == seq!['w', 'e', 'b', 'm'])
            &&& (t == "video/ogg"@) == (e == seq!['o', 'g', 'v'])
            &&& t == "video/webm"@ || t == "video/ogg"@ || t == "video/mp4"@
        }),
{
    reveal_strlit("mkv");
    reveal_strlit("webm");
    reveal_strlit("ogv");
    reveal_strlit("video/webm");
    reveal_strlit("video/ogg");
    reveal_strlit("video/mp4");
    assert("mkv"@ =~= seq!['m', 'k', 'v']);
    assert("webm"@ =~= seq!['w', 'e', 'b', 'm']);
    assert("ogv"@ =~= seq!['o', 'g', 'v']);
    assert("video/webm"@.len() == 10 && "video/ogg"@.len() == 9 && "video/mp4"@.len() == 9);
    assert("video/ogg"@[6] == 'o' && "video/mp4"@[6] == 'm');
}

} // verus!
