//! HTTP byte ranges.
use crate::text;
use vstd::prelude::*;

verus! {

/// The first and last byte that a `bytes=start-end` header asks for of `total`
/// bytes; an end left out, or beyond the last byte, is the last byte. `None` for
/// a header that asks for nothing there is.
pub open spec fn range_asked(header: Seq<char>, total: nat) -> Option<(nat, nat)> {
    let p = "bytes="@;
    if !p.is_prefix_of(header) || total == 0 {
        None
    } else {
        match text::parted(header.skip(p.len() as int), '-') {
            None => None,
            Some(parts) => {
                let last = (total - 1) as nat;
                let start = text::number(parts.0, 10, usize::MAX as nat);
                let end = if parts.1.len() == 0 {
                    Some(last)
                } else {
                    match text::number(parts.1, 10, usize::MAX as nat) {
                        Some(e) => Some(
                            if e < last {
                                e
                            } else {
                                last
                            },
                        ),
                        None => None,
                    }
                };
                match (start, end) {
                    (Some(s), Some(e)) => if s <= e {
                        Some((s, e))
                    } else {
                        None
                    },
                    _ => None,
                }
            },
        }
    }
}

/// The first and last byte that a header asks for.
pub fn asked(header: &str, total: usize) -> (r: Option<(usize, usize)>)
    ensures
        match r {
            Some(p) => range_asked(header@, total as nat) == Some((p.0 as nat, p.1 as nat)) && p.0
                <= p.1 < total,
            None => range_asked(header@, total as nat) is None,
        },
{
    let rest = match text::strip_prefix(header, "bytes=") {
        Some(r) => r,
        None => {
            return None;
        },
    };
    if total == 0 {
        return None;
    }
    let last: usize = total - 1;
    let parts = match text::split_once(rest.as_str(), '-') {
        Some(p) => p,
        None => {
            return None;
        },
    };
    let start: usize = match text::parse_decimal(parts.0.as_str(), usize::MAX as u64) {
        Some(s) => s as usize,
        None => {
            return None;
        },
    };
    let end: usize = if parts.1.as_str().unicode_len() == 0 {
        last
    } else {
        match text::parse_decimal(parts.1.as_str(), usize::MAX as u64) {
            Some(e) => if (e as usize) < last {
                e as usize
            } else {
                last
            },
            None => {
                return None;
            },
        }
    };
    if start <= end {
        Some((start, end))
    } else {
        None
    }
}

/// The text of a `Content-Range` header.
pub open spec fn content_range_text(start: nat, end: nat, total: nat) -> Seq<char> {
    "bytes "@ + text::decimal_text(start) + "-"@ + text::decimal_text(end) + "/"@
        + text::decimal_text(total)
}

/// The text of a `Content-Range` header.
pub fn content_range(start: u64, end: u64, total: u64) -> (r: String)
    ensures
        r@ == content_range_text(start as nat, end as nat, total as nat),
{
    let s = text::decimal(start);
    let e = text::decimal(end);
    let t = text::decimal(total);
    let mut out = text::concat("bytes ", s.as_str());
    out.append("-");
    out.append(e.as_str());
    out.append("/");
    out.append(t.as_str());
    out
}

/// A header that asks for the bytes from one to another is answered with just
/// those.
pub proof fn law_range_reads_back(start: nat, end: nat, total: nat)
    requires
        start <= end < total,
        total <= usize::MAX,
    ensures
        range_asked("bytes="@ + text::decimal_text(start) + "-"@ + text::decimal_text(end), total)
            == Some((start, end)),
{
    let p = "bytes="@;
    let a = text::decimal_text(start);
    let b = text::decimal_text(end);
    reveal_strlit("-");
    let header = p + a + "-"@ + b;
    assert(p =~= header.subrange(0, p.len() as int));
    let rest = header.skip(p.len() as int);
    assert(rest =~= a + seq!['-'] + b);
    text::lemma_decimal(start);
    text::lemma_decimal(end);
    text::lemma_find(rest, '-', 0);
    let i = text::find(rest, '-', 0);
    assert(rest[a.len() as int] == '-');
    assert forall|j: int| 0 <= j < a.len() implies rest[j] != '-' by {
        assert(text::digit(a[j]) < 10);
        assert(rest[j] == a[j]);
    }
    assert(i == a.len());
    assert(rest.take(i) =~= a);
    assert(rest.skip(i + 1) =~= b);
    text::law_decimal_reads_back(start, usize::MAX as nat);
    text::law_decimal_reads_back(end, usize::MAX as nat);
}

/// A range header parts at its dash.
pub proof fn lemma_parts_of_range(a: Seq<char>, b: Seq<char>)
    requires
        !a.contains('-'),
    ensures
        "bytes="@.is_prefix_of("bytes="@ + a + seq!['-'] + b),
        text::parted(("bytes="@ + a + seq!['-'] + b).skip("bytes="@.len() as int), '-') == Some(
            (a, b),
        ),
{
    let p = "bytes="@;
    let header = p + a + seq!['-'] + b;
    assert(p =~= header.subrange(0, p.len() as int));
    let rest = header.skip(p.len() as int);
    assert(rest =~= a + seq!['-'] + b);
    text::lemma_find(rest, '-', 0);
    let i = text::find(rest, '-', 0);
    assert(rest[a.len() as int] == '-');
    assert forall|j: int| 0 <= j < a.len() implies rest[j] != '-' by {
        assert(rest[j] == a[j]);
        assert(a.contains(a[j]));
    }
    assert(i == a.len());
    assert(rest.take(i) =~= a);
    assert(rest.skip(i + 1) =~= b);
}

pub proof fn lemma_no_dash(n: nat)
    ensures
        !text::decimal_text(n).contains('-'),
{
    let a = text::decimal_text(n);
    text::lemma_decimal(n);
    if a.contains('-') {
        let j = choose|j: int| 0 <= j < a.len() && a[j] == '-';
        assert(text::digit(a[j]) < 10);
    }
}

/// A range without an end runs to the last byte, and one whose end is behind the
/// last byte stops there; one that starts behind its end, or behind the last
/// byte, is none.
pub proof fn law_ranges_stop_at_the_last_byte(start: nat, end: nat, total: nat)
    requires
        0 < total <= usize::MAX,
        start <= usize::MAX,
        end <= usize::MAX,
    ensures
        ({
            let open = range_asked(
                seq!['b', 'y', 't', 'e', 's', '='] + text::decimal_text(start) + seq!['-'],
                total,
            );
            let closed = range_asked(
                seq!['b', 'y', 't', 'e', 's', '='] + text::decimal_text(start) + seq!['-']
                    + text::decimal_text(end),
                total,
            );
            &&& open == (if start < total {
                Some((start, (total - 1) as nat))
            } else {
                None
            })
            &&& closed == (if start > end || start >= total {
                None
            } else if end < total {
                Some((start, end))
            } else {
                Some((start, (total - 1) as nat))
            })
        }),
{
    let a = text::decimal_text(start);
    let b = text::decimal_text(end);
    reveal_strlit("bytes=");
    assert("bytes="@ =~= seq!['b', 'y', 't', 'e', 's', '=']);
    lemma_no_dash(start);
    lemma_parts_of_range(a, b);
    lemma_parts_of_range(a, Seq::empty());
    assert("bytes="@ + a + seq!['-'] + Seq::empty() =~= "bytes="@ + a + seq!['-']);
    text::law_decimal_reads_back(start, usize::MAX as nat);
    text::law_decimal_reads_back(end, usize::MAX as nat);
    text::lemma_decimal(end);
}

/// What is asked for lies in the bytes there are, and nothing can be asked for
/// where there are none or where no range of bytes is named.
pub proof fn law_ranges_lie_inside(header: Seq<char>, total: nat)
    ensures
        range_asked(header, total) matches Some(p) ==> p.0 <= p.1 < total,
        range_asked(header, 0) is None,
        !seq!['b', 'y', 't', 'e', 's', '='].is_prefix_of(header) ==> range_asked(header, total)
            is None,
{
    reveal_strlit("bytes=");
    assert("bytes="@ =~= seq!['b', 'y', 't', 'e', 's', '=']);
}

/// The range that is told is the one asked for, of the whole.
pub proof fn law_range_is_told(start: nat, end: nat, total: nat)
    ensures
        content_range_text(start, end, total) == seq!['b', 'y', 't', 'e', 's', ' ']
            + text::decimal_text(start) + seq!['-'] + text::decimal_text(end) + seq!['/']
            + text::decimal_text(total),
{
    reveal_strlit("bytes ");
    reveal_strlit("-");
    reveal_strlit("/");
    assert("bytes "@ =~= seq!['b', 'y', 't', 'e', 's', ' ']);
    assert("-"@ =~= seq!['-']);
    assert("/"@ =~= seq!['/']);
}

} // verus!
