//! What holds of every action and report.
use crate::replay;
use crate::replay::{Action, ActionError, Line, LineProblem};
use crate::report;
use vstd::prelude::*;

verus! {

/// What tells two button names apart: length and first two characters.
spec fn name_key(s: Seq<char>) -> (nat, char, char) {
    (
        s.len(),
        s[0],
        if s.len() > 1 {
            s[1]
        } else {
            s[0]
        },
    )
}

/// No two buttons share a name.
pub proof fn law_names_distinct(i: int, j: int)
    requires
        0 <= i < 22,
        0 <= j < 22,
        i != j,
    ensures
        report::button_name(i) != report::button_name(j),
{
    reveal_strlit("y");
    reveal_strlit("x");
    reveal_strlit("b");
    reveal_strlit("a");
    reveal_strlit("sr_right");
    reveal_strlit("sl_right");
    reveal_strlit("r");
    reveal_strlit("zr");
    reveal_strlit("minus");
    reveal_strlit("plus");
    reveal_strlit("r_stick");
    reveal_strlit("l_stick");
    reveal_strlit("home");
    reveal_strlit("capture");
    reveal_strlit("down");
    reveal_strlit("up");
    reveal_strlit("right");
    reveal_strlit("left");
    reveal_strlit("sr_left");
    reveal_strlit("sl_left");
    reveal_strlit("l");
    reveal_strlit("zl");
    assert(name_key(report::button_name(i)) != name_key(report::button_name(j)));
}

/// Two different bits of a byte share nothing.
proof fn lemma_bits_disjoint(a: int, b: int)
    requires
        0 <= a < 8,
        0 <= b < 8,
    ensures
        (report::bit(a) & report::bit(b) != 0) == (a == b),
{
    let m = report::bit(a);
    let k = report::bit(b);
    assert((m & k != 0) == (m == k)) by (bit_vector)
        requires
            m == 1 || m == 2 || m == 4 || m == 8 || m == 16 || m == 32 || m == 64 || m == 128,
            k == 1 || k == 2 || k == 4 || k == 8 || k == 16 || k == 32 || k == 64 || k == 128,
    ;
}

/// A button's bit is among the pressed bits exactly when its name is listed.
proof fn lemma_pressed_bit(names: Seq<Seq<char>>, n: int, i: int)
    requires
        0 <= n <= 22,
        0 <= i < 22,
    ensures
        (report::pressed_bits(names, report::button_byte(i), n) & report::button_mask(i) != 0) == (i
            < n && names.contains(report::button_name(i))),
    decreases n,
{
    let mi = report::button_mask(i);
    let byte = report::button_byte(i);
    if n == 0 {
        assert(0u8 & mi == 0) by (bit_vector);
    } else {
        lemma_pressed_bit(names, n - 1, i);
        let rest = report::pressed_bits(names, byte, n - 1);
        let mj = report::button_mask(n - 1);
        assert(((rest | mj) & mi != 0) == (rest & mi != 0 || mj & mi != 0)) by (bit_vector);
        if report::button_byte(n - 1) == byte {
            if i < 8 {
                lemma_bits_disjoint(n - 1, i);
            } else if i < 14 {
                lemma_bits_disjoint(n - 9, i - 8);
            } else {
                lemma_bits_disjoint(n - 15, i - 14);
            }
        }
    }
}

/// The held buttons' names are exactly those of the held buttons.
pub proof fn lemma_held_names(r: Seq<u8>, n: int, i: int)
    requires
        0 <= n <= 22,
        0 <= i < 22,
    ensures
        report::held_names(r, n).contains(report::button_name(i)) == (i < n && report::held(r, i)),
    decreases n,
{
    if n > 0 {
        lemma_held_names(r, n - 1, i);
        let rest = report::held_names(r, n - 1);
        let name = report::button_name(i);
        let last = report::button_name(n - 1);
        if i != n - 1 {
            law_names_distinct(i, n - 1);
        }
        if report::held(r, n - 1) {
            let all = rest.push(last);
            if rest.contains(name) {
                let j = choose|j: int| 0 <= j < rest.len() && rest[j] == name;
                assert(all[j] == name);
            }
            if i == n - 1 {
                assert(all[rest.len() as int] == name);
            }
            if all.contains(name) && i != n - 1 {
                let j = choose|j: int| 0 <= j < all.len() && all[j] == name;
                assert(rest[j] == name);
            }
        }
    }
}

/// Reports that hold the same buttons name the same buttons.
proof fn lemma_same_held(q: Seq<u8>, r: Seq<u8>, n: int)
    requires
        0 <= n <= 22,
        forall|i: int| 0 <= i < 22 ==> report::held(q, i) == #[trigger] report::held(r, i),
    ensures
        report::held_names(q, n) == report::held_names(r, n),
    decreases n,
{
    if n > 0 {
        lemma_same_held(q, r, n - 1);
        assert(report::held(q, n - 1) == report::held(r, n - 1));
    }
}

/// Where each part of an action lands: an action writes the button bytes, the
/// bytes of the sticks and those of the motion samples, and no others.
pub proof fn law_apply_parts(a: Action, r: Seq<u8>)
    requires
        report::is_input(r),
    ensures
        replay::applied(a, r).len() == r.len(),
        forall|j: int|
            0 <= j < r.len() && (j < 3 || j == 12 || j >= 49 || (j >= 13 && !report::has_motion(r)))
                ==> #[trigger] replay::applied(a, r)[j] == r[j],
        forall|j: int|
            3 <= j < 6 ==> #[trigger] replay::applied(a, r)[j] == replay::with_buttons(
                r,
                a.buttons,
                a.mix,
            )[j],
        forall|j: int|
            6 <= j < 9 ==> #[trigger] replay::applied(a, r)[j] == replay::stick_applied(
                r,
                a.left_stick,
                6,
                a.mix,
            )[j],
        forall|j: int|
            9 <= j < 12 ==> #[trigger] replay::applied(a, r)[j] == replay::stick_applied(
                r,
                a.right_stick,
                9,
                a.mix,
            )[j],
        report::has_motion(r) ==> {
            &&& forall|j: int|
                13 <= j < 25 ==> #[trigger] replay::applied(a, r)[j] == replay::sample_applied(
                    r,
                    a.accel,
                    a.gyro,
                    13,
                    a.mix,
                )[j]
            &&& forall|j: int|
                25 <= j < 37 ==> #[trigger] replay::applied(a, r)[j] == replay::sample_applied(
                    r,
                    a.accel,
                    a.gyro,
                    25,
                    a.mix,
                )[j]
            &&& forall|j: int|
                37 <= j < 49 ==> #[trigger] replay::applied(a, r)[j] == replay::sample_applied(
                    r,
                    a.accel,
                    a.gyro,
                    37,
                    a.mix,
                )[j]
        },
{
    let b = replay::with_buttons(r, a.buttons, a.mix);
    let s1 = replay::stick_applied(b, a.left_stick, 6, a.mix);
    let s2 = replay::stick_applied(s1, a.right_stick, 9, a.mix);
    assert(b.len() == r.len() && forall|j: int|
        0 <= j < r.len() && !(3 <= j < 6) ==> #[trigger] b[j] == r[j]);
    lemma_stick_frame(b, r, a.left_stick, 6, a.mix);
    lemma_stick_frame(s1, r, a.right_stick, 9, a.mix);
    if report::has_motion(r) {
        let m1 = replay::sample_applied(s2, a.accel, a.gyro, 13, a.mix);
        let m2 = replay::sample_applied(m1, a.accel, a.gyro, 25, a.mix);
        lemma_sample_frame(s2, r, a, 13);
        lemma_sample_frame(m1, r, a, 25);
        lemma_sample_frame(m2, r, a, 37);
    }
}

/// A stick is written in its three bytes, by what those bytes held.
proof fn lemma_stick_frame(q: Seq<u8>, r: Seq<u8>, stick: Option<[u16; 2]>, at: int, mix: bool)
    requires
        q.len() == r.len(),
        0 <= at,
        at + 3 <= r.len(),
        forall|j: int| at <= j < at + 3 ==> #[trigger] q[j] == r[j],
    ensures
        replay::stick_applied(q, stick, at, mix).len() == q.len(),
        forall|j: int|
            0 <= j < q.len() && !(at <= j < at + 3) ==> #[trigger] replay::stick_applied(
                q,
                stick,
                at,
                mix,
            )[j] == q[j],
        forall|j: int|
            at <= j < at + 3 ==> #[trigger] replay::stick_applied(q, stick, at, mix)[j]
                == replay::stick_applied(r, stick, at, mix)[j],
{
    assert(q[at] == r[at] && q[at + 1] == r[at + 1] && q[at + 2] == r[at + 2]);
}

/// Motion is written in the twelve bytes of a sample, by what they held.
proof fn lemma_sample_frame(q: Seq<u8>, r: Seq<u8>, a: Action, at: int)
    requires
        q.len() == r.len(),
        0 <= at,
        at + 12 <= r.len(),
        forall|j: int| at <= j < at + 12 ==> #[trigger] q[j] == r[j],
    ensures
        replay::sample_applied(q, a.accel, a.gyro, at, a.mix).len() == q.len(),
        forall|j: int|
            0 <= j < q.len() && !(at <= j < at + 12) ==> #[trigger] replay::sample_applied(
                q,
                a.accel,
                a.gyro,
                at,
                a.mix,
            )[j] == q[j],
        forall|j: int|
            at <= j < at + 12 ==> #[trigger] replay::sample_applied(q, a.accel, a.gyro, at, a.mix)[j]
                == replay::sample_applied(r, a.accel, a.gyro, at, a.mix)[j],
{
    assert forall|j: int| at <= j < at + 12 implies q[j] == r[j] by {}
    assert(q[at + 6] == r[at + 6] && q[at + 7] == r[at + 7] && q[at + 8] == r[at + 8] && q[at + 9]
        == r[at + 9] && q[at + 10] == r[at + 10] && q[at + 11] == r[at + 11]);
}

/// With an action's buttons in it a report says a button is held when it is
/// listed, or, when mixing, when the controller held it; without, the
/// controller's buttons stay.
pub proof fn law_buttons(a: Action, r: Seq<u8>, i: int)
    requires
        report::is_input(r),
        0 <= i < 22,
    ensures
        report::held(replay::applied(a, r), i) == (if a.buttons is Some {
            replay::listed(a.buttons).contains(report::button_name(i)) || (a.mix && report::held(
                r,
                i,
            ))
        } else {
            report::held(r, i)
        }),
{
    law_apply_parts(a, r);
    let byte = report::button_byte(i);
    let m = report::button_mask(i);
    assert(replay::applied(a, r)[byte] == replay::with_buttons(r, a.buttons, a.mix)[byte]);
    if a.buttons is Some {
        let names = replay::listed(a.buttons);
        lemma_pressed_bit(names, 22, i);
        let p = report::pressed_bits(names, byte, 22);
        let k = replay::kept_bits(r[byte], a.mix);
        assert(((k | p) & m != 0) == (k & m != 0 || p & m != 0)) by (bit_vector);
        assert(0u8 & m == 0) by (bit_vector);
    }
}

/// The bytes of a stick that packing wrote read back as the stick's low 12 bits.
proof fn lemma_stick_reads_back(b: Seq<u8>, at: int, x: int, y: int)
    requires
        0 <= at,
        at + 3 <= b.len(),
        0 <= x < 4096,
        0 <= y < 4096,
    ensures
        report::stick_x(report::with_stick(b, at, x, y), at) == x,
        report::stick_y(report::with_stick(b, at, x, y), at) == y,
{
    let w = report::with_stick(b, at, x, y);
    assert(w[at] == x % 256);
    assert(w[at + 1] == x / 256 + (y % 16) * 16);
    assert(w[at + 2] == y / 16);
}

/// A signed 16-bit value that was written reads back as itself.
proof fn lemma_axis_reads_back(b: Seq<u8>, at: int, v: i16)
    requires
        0 <= at,
        at + 2 <= b.len(),
    ensures
        report::axis(report::with_axis(b, at, v as int), at) == v,
{
}

/// Three axes that were written read back as themselves.
proof fn lemma_axes_read_back(b: Seq<u8>, at: int, axes: Seq<i16>)
    requires
        0 <= at,
        at + 6 <= b.len(),
        axes.len() == 3,
    ensures
        report::axis(report::with_axes(b, at, axes), at) == axes[0],
        report::axis(report::with_axes(b, at, axes), at + 2) == axes[1],
        report::axis(report::with_axes(b, at, axes), at + 4) == axes[2],
{
    let w1 = report::with_axis(b, at, axes[0] as int);
    let w2 = report::with_axis(w1, at + 2, axes[1] as int);
    let w3 = report::with_axis(w2, at + 4, axes[2] as int);
    lemma_axis_reads_back(b, at, axes[0]);
    lemma_axis_reads_back(w1, at + 2, axes[1]);
    lemma_axis_reads_back(w2, at + 4, axes[2]);
    assert(w3[at] == w1[at] && w3[at + 1] == w1[at + 1]);
    assert(w3[at + 2] == w2[at + 2] && w3[at + 3] == w2[at + 3]);
}

/// Playing what a report carries gives a report that carries the same: buttons,
/// sticks and, where both reports have motion, each axis's mean in every sample.
pub proof fn law_replay_round_trip(r: Seq<u8>, a: Action, q: Seq<u8>)
    requires
        report::is_input(r),
        replay::carries(r, a),
        report::is_input(q),
        report::has_motion(q) == report::has_motion(r),
    ensures
        replay::carries(replay::applied(a, q), a),
{
    let w = replay::applied(a, q);
    law_apply_parts(a, q);
    assert forall|i: int| 0 <= i < 22 implies report::held(w, i) == #[trigger] report::held(r, i) by {
        law_buttons(a, q, i);
        lemma_held_names(r, 22, i);
    }
    lemma_same_held(w, r, 22);
    lemma_stick_reads_back(q, 6, report::stick_x(r, 6), report::stick_y(r, 6));
    lemma_stick_reads_back(q, 9, report::stick_x(r, 9), report::stick_y(r, 9));
    assert(w[0] == q[0]);
    assert(report::has_motion(w) == report::has_motion(r));
    if report::has_motion(r) {
        lemma_sample_reads_back(q, a, 13);
        lemma_sample_reads_back(q, a, 25);
        lemma_sample_reads_back(q, a, 37);
        assert forall|n: int| 0 <= n < 6 implies #[trigger] replay::mean(w, n) == (if n < 3 {
            a.accel->0@[n]
        } else {
            a.gyro->0@[n - 3]
        }) by {
            lemma_mean_of_written(w, q, a, n);
        }
        assert(replay::mean(w, 0) == a.accel->0@[0]);
        assert(replay::mean(w, 1) == a.accel->0@[1]);
        assert(replay::mean(w, 2) == a.accel->0@[2]);
        assert(replay::mean(w, 3) == a.gyro->0@[0]);
        assert(replay::mean(w, 4) == a.gyro->0@[1]);
        assert(replay::mean(w, 5) == a.gyro->0@[2]);
    }
}

/// The axis of an action that belongs to place `n` of a sample.
spec fn axis_of(a: Action, n: int) -> int {
    if n < 3 {
        a.accel->0@[n] as int
    } else {
        a.gyro->0@[n - 3] as int
    }
}

/// A sample that an unmixed action wrote reads back as the action's motion.
proof fn lemma_sample_reads_back(q: Seq<u8>, a: Action, at: int)
    requires
        0 <= at,
        at + 12 <= q.len(),
        !a.mix,
        a.accel is Some,
        a.gyro is Some,
    ensures
        forall|n: int|
            0 <= n < 6 ==> #[trigger] report::axis(
                replay::sample_applied(q, a.accel, a.gyro, at, a.mix),
                at + 2 * n,
            ) == axis_of(a, n),
{
    let w1 = report::with_axes(q, at, a.accel->0@);
    let w2 = report::with_axes(w1, at + 6, a.gyro->0@);
    lemma_axes_read_back(q, at, a.accel->0@);
    lemma_axes_read_back(w1, at + 6, a.gyro->0@);
    assert(forall|j: int| at <= j < at + 6 ==> #[trigger] w2[j] == w1[j]);
    assert forall|n: int| 0 <= n < 6 implies #[trigger] report::axis(w2, at + 2 * n) == axis_of(
        a,
        n,
    ) by {
        if n < 3 {
            assert(w2[at + 2 * n] == w1[at + 2 * n] && w2[at + 2 * n + 1] == w1[at + 2 * n + 1]);
        }
        if n == 0 || n == 1 || n == 2 || n == 3 || n == 4 || n == 5 {
        }
    }
}

/// The mean of three equal samples is that sample.
proof fn lemma_mean_of_written(w: Seq<u8>, q: Seq<u8>, a: Action, n: int)
    requires
        0 <= n < 6,
        report::is_input(q),
        report::has_motion(q),
        !a.mix,
        a.accel is Some,
        a.gyro is Some,
        w == replay::applied(a, q),
    ensures
        replay::mean(w, n) == axis_of(a, n),
{
    law_apply_parts(a, q);
    lemma_sample_reads_back(q, a, 13);
    lemma_sample_reads_back(q, a, 25);
    lemma_sample_reads_back(q, a, 37);
    let p1 = replay::sample_applied(q, a.accel, a.gyro, 13, a.mix);
    let p2 = replay::sample_applied(q, a.accel, a.gyro, 25, a.mix);
    let p3 = replay::sample_applied(q, a.accel, a.gyro, 37, a.mix);
    let at = 13 + 2 * n;
    assert(w[at] == p1[at] && w[at + 1] == p1[at + 1]);
    assert(w[at + 12] == p2[at + 12] && w[at + 13] == p2[at + 13]);
    assert(w[at + 24] == p3[at + 24] && w[at + 25] == p3[at + 25]);
    assert(report::axis(p1, 13 + 2 * n) == axis_of(a, n));
    assert(report::axis(p2, 25 + 2 * n) == axis_of(a, n));
    assert(report::axis(p3, 37 + 2 * n) == axis_of(a, n));
}

/// Fields an action leaves out keep the controller's own bytes; so does the
/// accelerometer when mixing.
pub proof fn law_missing_fields_keep(a: Action, r: Seq<u8>)
    requires
        report::is_input(r),
    ensures
        a.buttons is None ==> forall|j: int|
            3 <= j < 6 ==> #[trigger] replay::applied(a, r)[j] == r[j],
        a.left_stick is None ==> forall|j: int|
            6 <= j < 9 ==> #[trigger] replay::applied(a, r)[j] == r[j],
        a.right_stick is None ==> forall|j: int|
            9 <= j < 12 ==> #[trigger] replay::applied(a, r)[j] == r[j],
        (a.accel is None || a.mix) && report::has_motion(r) ==> forall|j: int|
            (13 <= j < 19 || 25 <= j < 31 || 37 <= j < 43) ==> #[trigger] replay::applied(a, r)[j]
                == r[j],
        a.gyro is None && report::has_motion(r) ==> forall|j: int|
            (19 <= j < 25 || 31 <= j < 37 || 43 <= j < 49) ==> #[trigger] replay::applied(a, r)[j]
                == r[j],
{
    law_apply_parts(a, r);
}

/// With `mix`, a 12-bit stick of the action wins when it moves more than the
/// controller's, and the controller's stays otherwise; without, it always wins.
pub proof fn law_stick_that_moves_more_wins(a: Action, r: Seq<u8>, s: [u16; 2])
    requires
        report::is_input(r),
        a.left_stick == Some(s),
        replay::stick_in_range(a.left_stick),
    ensures
        ({
            let w = replay::applied(a, r);
            let own = (report::stick_x(r, 6), report::stick_y(r, 6));
            let sent = (s@[0] as int, s@[1] as int);
            (report::stick_x(w, 6), report::stick_y(w, 6)) == (if !a.mix || (sent.0 - 2048) * (sent.0
                - 2048) + (sent.1 - 2048) * (sent.1 - 2048) > (own.0 - 2048) * (own.0 - 2048) + (
            own.1 - 2048) * (own.1 - 2048) {
                sent
            } else {
                own
            })
        }),
{
    law_apply_parts(a, r);
    lemma_stick_reads_back(r, 6, s@[0] as int, s@[1] as int);
    let w = replay::applied(a, r);
    let p = replay::stick_applied(r, a.left_stick, 6, a.mix);
    assert(w[6] == p[6] && w[7] == p[7] && w[8] == p[8]);
}

/// The same of the right stick.
pub proof fn law_right_stick_that_moves_more_wins(a: Action, r: Seq<u8>, s: [u16; 2])
    requires
        report::is_input(r),
        a.right_stick == Some(s),
        replay::stick_in_range(a.right_stick),
    ensures
        ({
            let w = replay::applied(a, r);
            let own = (report::stick_x(r, 9), report::stick_y(r, 9));
            let sent = (s@[0] as int, s@[1] as int);
            (report::stick_x(w, 9), report::stick_y(w, 9)) == (if !a.mix || (sent.0 - 2048) * (sent.0
                - 2048) + (sent.1 - 2048) * (sent.1 - 2048) > (own.0 - 2048) * (own.0 - 2048) + (
            own.1 - 2048) * (own.1 - 2048) {
                sent
            } else {
                own
            })
        }),
{
    law_apply_parts(a, r);
    lemma_stick_reads_back(r, 9, s@[0] as int, s@[1] as int);
    let w = replay::applied(a, r);
    let p = replay::stick_applied(r, a.right_stick, 9, a.mix);
    assert(w[9] == p[9] && w[10] == p[10] && w[11] == p[11]);
}

/// The gyro of an action wins in a sample when it turns faster than the
/// sample's own, or always without `mix`; else the sample keeps its own.
pub proof fn law_gyro_that_turns_more_wins(a: Action, r: Seq<u8>, g: [i16; 3], at: int)
    requires
        report::is_input(r),
        report::has_motion(r),
        a.gyro == Some(g),
        at == 13 || at == 25 || at == 37,
    ensures
        ({
            let w = replay::applied(a, r);
            let own = (report::axis(r, at + 6), report::axis(r, at + 8), report::axis(r, at + 10));
            let sent = (g@[0] as int, g@[1] as int, g@[2] as int);
            (report::axis(w, at + 6), report::axis(w, at + 8), report::axis(w, at + 10)) == (if !a.mix
                || sent.0 * sent.0 + sent.1 * sent.1 + sent.2 * sent.2 > own.0 * own.0 + own.1 * own.1
                + own.2 * own.2 {
                sent
            } else {
                own
            })
        }),
{
    law_apply_parts(a, r);
    let w = replay::applied(a, r);
    let p = replay::sample_applied(r, a.accel, a.gyro, at, a.mix);
    let r1 = match a.accel {
        Some(v) => if a.mix {
            r
        } else {
            report::with_axes(r, at, v@)
        },
        None => r,
    };
    assert(forall|j: int| at + 6 <= j < at + 12 ==> #[trigger] r1[j] == r[j]);
    assert(r1[at + 6] == r[at + 6] && r1[at + 7] == r[at + 7] && r1[at + 8] == r[at + 8] && r1[at
        + 9] == r[at + 9] && r1[at + 10] == r[at + 10] && r1[at + 11] == r[at + 11]);
    lemma_axes_read_back(r1, at + 6, g@);
    assert(w[at + 6] == p[at + 6] && w[at + 7] == p[at + 7] && w[at + 8] == p[at + 8] && w[at + 9]
        == p[at + 9] && w[at + 10] == p[at + 10] && w[at + 11] == p[at + 11]);
}

/// The left stick of a report, by its bytes: an action's stick is written when it is
/// farther from the centre than the controller's, over both axes, or always without
/// `mix`; else the bytes stay. A stick off the centre wins against one at rest.
pub proof fn law_left_stick_in_its_bytes(a: Action, r: Seq<u8>, s: [u16; 2])
    requires
        r.len() >= 12,
        r[0] == 0x30 || r[0] == 0x21,
        a.left_stick == Some(s),
        s@[0] < 4096,
        s@[1] < 4096,
    ensures
        ({
            let w = replay::applied(a, r);
            let x = r[6] + (r[7] % 16) * 256;
            let y = r[7] / 16 + r[8] * 16;
            let wins = !a.mix || (s@[0] - 2048) * (s@[0] - 2048) + (s@[1] - 2048) * (s@[1] - 2048) > (
            x - 2048) * (x - 2048) + (y - 2048) * (y - 2048);
            &&& wins ==> w[6] + (w[7] % 16) * 256 == s@[0]
            &&& wins ==> w[7] / 16 + w[8] * 16 == s@[1]
            &&& !wins ==> w[6] == r[6] && w[7] == r[7] && w[8] == r[8]
            &&& x == 2048 && y == 2048 && !(s@[0] == 2048 && s@[1] == 2048) ==> wins
            &&& a.mix && s@[0] == 2048 && s@[1] == 2048 ==> !wins
        }),
{
    law_stick_that_moves_more_wins(a, r, s);
    law_apply_parts(a, r);
    let w = replay::applied(a, r);
    let p = replay::stick_applied(r, a.left_stick, 6, a.mix);
    assert(w[6] == p[6] && w[7] == p[7] && w[8] == p[8]);
    let x = r[6] + (r[7] % 16) * 256;
    let y = r[7] / 16 + r[8] * 16;
    let u = s@[0] - 2048;
    let v = s@[1] - 2048;
    assert((u != 0 || v != 0) == (u * u + v * v > 0)) by (nonlinear_arith);
    let m = x - 2048;
    let n = y - 2048;
    assert((m != 0 || n != 0) == (m * m + n * n > 0)) by (nonlinear_arith);
    assert(u * u + v * v >= 0 && m * m + n * n >= 0) by (nonlinear_arith);
}

/// The same of the right stick's bytes.
pub proof fn law_right_stick_in_its_bytes(a: Action, r: Seq<u8>, s: [u16; 2])
    requires
        r.len() >= 12,
        r[0] == 0x30 || r[0] == 0x21,
        a.right_stick == Some(s),
        s@[0] < 4096,
        s@[1] < 4096,
    ensures
        ({
            let w = replay::applied(a, r);
            let x = r[9] + (r[10] % 16) * 256;
            let y = r[10] / 16 + r[11] * 16;
            let wins = !a.mix || (s@[0] - 2048) * (s@[0] - 2048) + (s@[1] - 2048) * (s@[1] - 2048) > (
            x - 2048) * (x - 2048) + (y - 2048) * (y - 2048);
            &&& wins ==> w[9] + (w[10] % 16) * 256 == s@[0]
            &&& wins ==> w[10] / 16 + w[11] * 16 == s@[1]
            &&& !wins ==> w[9] == r[9] && w[10] == r[10] && w[11] == r[11]
            &&& x == 2048 && y == 2048 && !(s@[0] == 2048 && s@[1] == 2048) ==> wins
            &&& a.mix && s@[0] == 2048 && s@[1] == 2048 ==> !wins
        }),
{
    law_right_stick_that_moves_more_wins(a, r, s);
    law_apply_parts(a, r);
    let w = replay::applied(a, r);
    let p = replay::stick_applied(r, a.right_stick, 9, a.mix);
    assert(w[9] == p[9] && w[10] == p[10] && w[11] == p[11]);
    let x = r[9] + (r[10] % 16) * 256;
    let y = r[10] / 16 + r[11] * 16;
    let u = s@[0] - 2048;
    let v = s@[1] - 2048;
    assert((u != 0 || v != 0) == (u * u + v * v > 0)) by (nonlinear_arith);
    let m = x - 2048;
    let n = y - 2048;
    assert((m != 0 || n != 0) == (m * m + n * n > 0)) by (nonlinear_arith);
    assert(u * u + v * v >= 0 && m * m + n * n >= 0) by (nonlinear_arith);
}

/// Which bit of a report each button is: with an action's buttons in it, the bit is set
/// when the button is listed, or, when mixing, when it was set.
pub proof fn law_buttons_in_their_bits(a: Action, r: Seq<u8>)
    requires
        r.len() >= 12,
        r[0] == 0x30 || r[0] == 0x21,
        a.buttons is Some,
    ensures
        ({
            let w = replay::applied(a, r);
            &&& (w[3] & 0x01u8 != 0) == (replay::listed(a.buttons).contains("y"@) || (a.mix && r[3]
                & 0x01u8 != 0))
            &&& (w[3] & 0x02u8 != 0) == (replay::listed(a.buttons).contains("x"@) || (a.mix && r[3]
                & 0x02u8 != 0))
            &&& (w[3] & 0x04u8 != 0) == (replay::listed(a.buttons).contains("b"@) || (a.mix && r[3]
                & 0x04u8 != 0))
            &&& (w[3] & 0x08u8 != 0) == (replay::listed(a.buttons).contains("a"@) || (a.mix && r[3]
                & 0x08u8 != 0))
            &&& (w[3] & 0x10u8 != 0) == (replay::listed(a.buttons).contains("sr_right"@) || (a.mix && r[3]
                & 0x10u8 != 0))
            &&& (w[3] & 0x20u8 != 0) == (replay::listed(a.buttons).contains("sl_right"@) || (a.mix && r[3]
                & 0x20u8 != 0))
            &&& (w[3] & 0x40u8 != 0) == (replay::listed(a.buttons).contains("r"@) || (a.mix && r[3]
                & 0x40u8 != 0))
            &&& (w[3] & 0x80u8 != 0) == (replay::listed(a.buttons).contains("zr"@) || (a.mix && r[3]
                & 0x80u8 != 0))
            &&& (w[4] & 0x01u8 != 0) == (replay::listed(a.buttons).contains("minus"@) || (a.mix && r[4]
                & 0x01u8 != 0))
            &&& (w[4] & 0x02u8 != 0) == (replay::listed(a.buttons).contains("plus"@) || (a.mix && r[4]
                & 0x02u8 != 0))
            &&& (w[4] & 0x04u8 != 0) == (replay::listed(a.buttons).contains("r_stick"@) || (a.mix && r[4]
                & 0x04u8 != 0))
            &&& (w[4] & 0x08u8 != 0) == (replay::listed(a.buttons).contains("l_stick"@) || (a.mix && r[4]
                & 0x08u8 != 0))
            &&& (w[4] & 0x10u8 != 0) == (replay::listed(a.buttons).contains("home"@) || (a.mix && r[4]
                & 0x10u8 != 0))
            &&& (w[4] & 0x20u8 != 0) == (replay::listed(a.buttons).contains("capture"@) || (a.mix && r[4]
                & 0x20u8 != 0))
            &&& (w[5] & 0x01u8 != 0) == (replay::listed(a.buttons).contains("down"@) || (a.mix && r[5]
                & 0x01u8 != 0))
            &&& (w[5] & 0x02u8 != 0) == (replay::listed(a.buttons).contains("up"@) || (a.mix && r[5]
                & 0x02u8 != 0))
            &&& (w[5] & 0x04u8 != 0) == (replay::listed(a.buttons).contains("right"@) || (a.mix && r[5]
                & 0x04u8 != 0))
            &&& (w[5] & 0x08u8 != 0) == (replay::listed(a.buttons).contains("left"@) || (a.mix && r[5]
                & 0x08u8 != 0))
            &&& (w[5] & 0x10u8 != 0) == (replay::listed(a.buttons).contains("sr_left"@) || (a.mix && r[5]
                & 0x10u8 != 0))
            &&& (w[5] & 0x20u8 != 0) == (replay::listed(a.buttons).contains("sl_left"@) || (a.mix && r[5]
                & 0x20u8 != 0))
            &&& (w[5] & 0x40u8 != 0) == (replay::listed(a.buttons).contains("l"@) || (a.mix && r[5]
                & 0x40u8 != 0))
            &&& (w[5] & 0x80u8 != 0) == (replay::listed(a.buttons).contains("zl"@) || (a.mix && r[5]
                & 0x80u8 != 0))
        }),
{
    law_buttons(a, r, 0);
    law_buttons(a, r, 1);
    law_buttons(a, r, 2);
    law_buttons(a, r, 3);
    law_buttons(a, r, 4);
    law_buttons(a, r, 5);
    law_buttons(a, r, 6);
    law_buttons(a, r, 7);
    law_buttons(a, r, 8);
    law_buttons(a, r, 9);
    law_buttons(a, r, 10);
    law_buttons(a, r, 11);
    law_buttons(a, r, 12);
    law_buttons(a, r, 13);
    law_buttons(a, r, 14);
    law_buttons(a, r, 15);
    law_buttons(a, r, 16);
    law_buttons(a, r, 17);
    law_buttons(a, r, 18);
    law_buttons(a, r, 19);
    law_buttons(a, r, 20);
    law_buttons(a, r, 21);
}

/// A signed number of two bytes, the low one first.
pub proof fn law_axis_by_bytes(b: Seq<u8>, at: int)
    requires
        0 <= at,
        at + 2 <= b.len(),
    ensures
        -0x8000 <= report::axis(b, at) < 0x8000,
        (report::axis(b, at) - (b[at] + b[at + 1] * 256)) % 0x10000 == 0,
        b[at + 1] < 128 ==> report::axis(b, at) == b[at] + b[at + 1] * 256,
        b[at + 1] >= 128 ==> report::axis(b, at) == b[at] + b[at + 1] * 256 - 0x10000,
{
}

/// A stick's coordinates by its bytes.
pub proof fn law_stick_by_bytes(b: Seq<u8>, at: int)
    requires
        0 <= at,
        at + 3 <= b.len(),
    ensures
        report::stick_x(b, at) == b[at] + (b[at + 1] % 16) * 256,
        report::stick_y(b, at) == b[at + 1] / 16 + b[at + 2] * 16,
        report::stick_x(b, at) < 4096,
        report::stick_y(b, at) < 4096,
{
}

/// What an action without `mix` moves: each of the three samples gets its
/// accelerometer and its gyro, axis by axis.
pub proof fn law_motion_is_played(a: Action, r: Seq<u8>, n: int)
    requires
        r.len() >= 49,
        r[0] == 0x30,
        !a.mix,
        0 <= n < 3,
    ensures
        ({
            let w = replay::applied(a, r);
            let at = 13 + 12 * n;
            &&& a.accel matches Some(v) ==> report::axis(w, at) == v@[0] && report::axis(w, at + 2)
                == v@[1] && report::axis(w, at + 4) == v@[2]
            &&& a.gyro matches Some(v) ==> report::axis(w, at + 6) == v@[0] && report::axis(
                w,
                at + 8,
            ) == v@[1] && report::axis(w, at + 10) == v@[2]
        }),
{
    law_apply_parts(a, r);
    let at = 13 + 12 * n;
    let w = replay::applied(a, r);
    let p = replay::sample_applied(r, a.accel, a.gyro, at, a.mix);
    assert(forall|j: int| at <= j < at + 12 ==> #[trigger] w[j] == p[j]);
    if let Some(g) = a.gyro {
        law_gyro_that_turns_more_wins(a, r, g, at);
    }
    if let Some(v) = a.accel {
        let r1 = report::with_axes(r, at, v@);
        lemma_axes_read_back(r, at, v@);
        assert(forall|j: int| at <= j < at + 6 ==> #[trigger] p[j] == r1[j]);
        assert(w[at] == r1[at] && w[at + 1] == r1[at + 1] && w[at + 2] == r1[at + 2] && w[at + 3]
            == r1[at + 3] && w[at + 4] == r1[at + 4] && w[at + 5] == r1[at + 5]);
    }
}

/// The motion that a report carries: each axis of the action is the sum of the three
/// samples over three, less than one away from it and on the side of zero.
pub proof fn law_carried_motion(r: Seq<u8>, a: Action, n: int)
    requires
        replay::carries(r, a),
        0 <= n < 6,
        r.len() >= 49,
        r[0] == 0x30,
    ensures
        ({
            let sum = report::axis(r, 13 + 2 * n) + report::axis(r, 25 + 2 * n) + report::axis(
                r,
                37 + 2 * n,
            );
            let v = if n < 3 {
                a.accel->0@[n] as int
            } else {
                a.gyro->0@[n - 3] as int
            };
            &&& a.accel is Some && a.gyro is Some
            &&& sum >= 0 ==> 3 * v <= sum < 3 * v + 3
            &&& sum <= 0 ==> 3 * v - 3 < sum <= 3 * v
        }),
{
    if n == 0 || n == 1 || n == 2 || n == 3 || n == 4 || n == 5 {
    }
}

/// Applying an action a second time changes nothing.
pub proof fn law_apply_twice(a: Action, r: Seq<u8>)
    ensures
        replay::applied(a, replay::applied(a, r)) == replay::applied(a, r),
{
    if report::is_input(r) {
        let w = replay::applied(a, r);
        law_apply_parts(a, r);
        assert(w[0] == r[0]);
        law_apply_parts(a, w);
        let w2 = replay::applied(a, w);
        lemma_buttons_twice(a, r, w);
        lemma_stick_twice(r, w, a.left_stick, 6, a.mix);
        lemma_stick_twice(r, w, a.right_stick, 9, a.mix);
        if report::has_motion(r) {
            lemma_sample_twice(r, w, a, 13);
            lemma_sample_twice(r, w, a, 25);
            lemma_sample_twice(r, w, a, 37);
        }
        assert forall|j: int| 0 <= j < w.len() implies #[trigger] w2[j] == w[j] by {
            if j >= 13 && j < 49 && !report::has_motion(r) {
                assert(w2[j] == w[j]);
            }
        }
        assert(w2 =~= w);
    }
}

proof fn lemma_buttons_twice(a: Action, r: Seq<u8>, w: Seq<u8>)
    requires
        r.len() >= 12,
        w.len() == r.len(),
        forall|j: int|
            3 <= j < 6 ==> #[trigger] w[j] == replay::with_buttons(r, a.buttons, a.mix)[j],
    ensures
        forall|j: int|
            3 <= j < 6 ==> #[trigger] replay::with_buttons(w, a.buttons, a.mix)[j] == w[j],
{
    if a.buttons is Some {
        let names = replay::listed(a.buttons);
        assert forall|j: int| 3 <= j < 6 implies #[trigger] replay::with_buttons(
            w,
            a.buttons,
            a.mix,
        )[j] == w[j] by {
            let k = replay::kept_bits(r[j], a.mix);
            let p = report::pressed_bits(names, j, 22);
            assert(w[j] == k | p);
            assert((k | p) | p == k | p) by (bit_vector);
        }
    } else {
        assert forall|j: int| 3 <= j < 6 implies #[trigger] replay::with_buttons(
            w,
            a.buttons,
            a.mix,
        )[j] == w[j] by {}
    }
}

proof fn lemma_stick_twice(r: Seq<u8>, w: Seq<u8>, stick: Option<[u16; 2]>, at: int, mix: bool)
    requires
        0 <= at,
        at + 3 <= r.len(),
        w.len() == r.len(),
        forall|j: int|
            at <= j < at + 3 ==> #[trigger] w[j] == replay::stick_applied(r, stick, at, mix)[j],
    ensures
        forall|j: int|
            at <= j < at + 3 ==> #[trigger] replay::stick_applied(w, stick, at, mix)[j] == w[j],
{
    let p = replay::stick_applied(r, stick, at, mix);
    assert(w[at] == p[at] && w[at + 1] == p[at + 1] && w[at + 2] == p[at + 2]);
}

proof fn lemma_sample_twice(r: Seq<u8>, w: Seq<u8>, a: Action, at: int)
    requires
        0 <= at,
        at + 12 <= r.len(),
        w.len() == r.len(),
        forall|j: int|
            at <= j < at + 12 ==> #[trigger] w[j] == replay::sample_applied(
                r,
                a.accel,
                a.gyro,
                at,
                a.mix,
            )[j],
    ensures
        forall|j: int|
            at <= j < at + 12 ==> #[trigger] replay::sample_applied(w, a.accel, a.gyro, at, a.mix)[j]
                == w[j],
{
    let p = replay::sample_applied(r, a.accel, a.gyro, at, a.mix);
    assert(w[at] == p[at] && w[at + 1] == p[at + 1] && w[at + 2] == p[at + 2] && w[at + 3] == p[at
        + 3] && w[at + 4] == p[at + 4] && w[at + 5] == p[at + 5]);
    assert(w[at + 6] == p[at + 6] && w[at + 7] == p[at + 7] && w[at + 8] == p[at + 8] && w[at + 9]
        == p[at + 9] && w[at + 10] == p[at + 10] && w[at + 11] == p[at + 11]);
}

/// The buttons of byte 3 are listed by their names, each exactly when its bit is
/// set.
pub proof fn law_first_byte_is_listed(r: Seq<u8>, a: Action)
    requires
        report::is_input(r),
        replay::carries(r, a),
    ensures
        replay::listed(a.buttons).contains("y"@) == (r[3] & 0x01u8 != 0),
        replay::listed(a.buttons).contains("x"@) == (r[3] & 0x02u8 != 0),
        replay::listed(a.buttons).contains("b"@) == (r[3] & 0x04u8 != 0),
        replay::listed(a.buttons).contains("a"@) == (r[3] & 0x08u8 != 0),
        replay::listed(a.buttons).contains("sr_right"@) == (r[3] & 0x10u8 != 0),
        replay::listed(a.buttons).contains("sl_right"@) == (r[3] & 0x20u8 != 0),
        replay::listed(a.buttons).contains("r"@) == (r[3] & 0x40u8 != 0),
        replay::listed(a.buttons).contains("zr"@) == (r[3] & 0x80u8 != 0),
{
    lemma_held_names(r, 22, 0);
    lemma_held_names(r, 22, 1);
    lemma_held_names(r, 22, 2);
    lemma_held_names(r, 22, 3);
    lemma_held_names(r, 22, 4);
    lemma_held_names(r, 22, 5);
    lemma_held_names(r, 22, 6);
    lemma_held_names(r, 22, 7);
}

/// The buttons of byte 4 are listed by their names.
pub proof fn law_second_byte_is_listed(r: Seq<u8>, a: Action)
    requires
        report::is_input(r),
        replay::carries(r, a),
    ensures
        replay::listed(a.buttons).contains("minus"@) == (r[4] & 0x01u8 != 0),
        replay::listed(a.buttons).contains("plus"@) == (r[4] & 0x02u8 != 0),
        replay::listed(a.buttons).contains("r_stick"@) == (r[4] & 0x04u8 != 0),
        replay::listed(a.buttons).contains("l_stick"@) == (r[4] & 0x08u8 != 0),
        replay::listed(a.buttons).contains("home"@) == (r[4] & 0x10u8 != 0),
        replay::listed(a.buttons).contains("capture"@) == (r[4] & 0x20u8 != 0),
{
    lemma_held_names(r, 22, 8);
    lemma_held_names(r, 22, 9);
    lemma_held_names(r, 22, 10);
    lemma_held_names(r, 22, 11);
    lemma_held_names(r, 22, 12);
    lemma_held_names(r, 22, 13);
}

/// The buttons of byte 5 are listed by their names.
pub proof fn law_third_byte_is_listed(r: Seq<u8>, a: Action)
    requires
        report::is_input(r),
        replay::carries(r, a),
    ensures
        replay::listed(a.buttons).contains("down"@) == (r[5] & 0x01u8 != 0),
        replay::listed(a.buttons).contains("up"@) == (r[5] & 0x02u8 != 0),
        replay::listed(a.buttons).contains("right"@) == (r[5] & 0x04u8 != 0),
        replay::listed(a.buttons).contains("left"@) == (r[5] & 0x08u8 != 0),
        replay::listed(a.buttons).contains("sr_left"@) == (r[5] & 0x10u8 != 0),
        replay::listed(a.buttons).contains("sl_left"@) == (r[5] & 0x20u8 != 0),
        replay::listed(a.buttons).contains("l"@) == (r[5] & 0x40u8 != 0),
        replay::listed(a.buttons).contains("zl"@) == (r[5] & 0x80u8 != 0),
{
    lemma_held_names(r, 22, 14);
    lemma_held_names(r, 22, 15);
    lemma_held_names(r, 22, 16);
    lemma_held_names(r, 22, 17);
    lemma_held_names(r, 22, 18);
    lemma_held_names(r, 22, 19);
    lemma_held_names(r, 22, 20);
    lemma_held_names(r, 22, 21);
}

/// A recorded action holds the sticks of its report, no time and no mixing.
pub proof fn law_carried_sticks(r: Seq<u8>, a: Action)
    requires
        report::is_input(r),
        replay::carries(r, a),
    ensures
        a.left_stick matches Some(s) && s@[0] == r[6] + (r[7] % 16) * 256 && s@[1] == r[7] / 16
            + r[8] * 16,
        a.right_stick matches Some(s) && s@[0] == r[9] + (r[10] % 16) * 256 && s@[1] == r[10] / 16
            + r[11] * 16,
        a.t_ms is None,
        !a.mix,
{
}

/// The actions of a file are those of its lines, in their order; blank lines give
/// none.
pub proof fn law_actions_of_lines(lines: Seq<Line>, n: int)
    requires
        0 <= n <= lines.len(),
    ensures
        replay::actions_of(lines, n) == lines.take(n).filter(|l: Line| l is Decoded).map_values(
            |l: Line| l->Decoded_0,
        ),
    decreases n,
{
    let decoded = |l: Line| l is Decoded;
    let inner = |l: Line| l->Decoded_0;
    reveal(Seq::filter);
    if n > 0 {
        law_actions_of_lines(lines, n - 1);
        assert(lines.take(n).drop_last() =~= lines.take(n - 1));
        assert(lines.take(n).last() == lines[n - 1]);
        let before = lines.take(n - 1).filter(decoded);
        if lines[n - 1] is Decoded {
            assert(lines.take(n).filter(decoded) =~= before.push(lines[n - 1]));
            assert(before.push(lines[n - 1]).map_values(inner) =~= before.map_values(inner).push(
                lines[n - 1]->Decoded_0,
            ));
        } else {
            assert(lines.take(n).filter(decoded) =~= before);
        }
    } else {
        assert(lines.take(n).filter(decoded).map_values(inner) =~= Seq::empty());
    }
}

/// In a file that loads every action has a time, and none is before the one
/// above it.
pub proof fn law_times_never_go_back(lines: Seq<Line>, n: int, i: int, j: int)
    requires
        0 <= n <= lines.len(),
        forall|k: int| 0 <= k < n ==> #[trigger] replay::line_ok(lines, k),
        0 <= i <= j < replay::actions_of(lines, n).len(),
    ensures
        replay::actions_of(lines, n)[i].t_ms is Some,
        replay::actions_of(lines, n)[j].t_ms is Some,
        replay::actions_of(lines, n)[i].t_ms->0 <= replay::actions_of(lines, n)[j].t_ms->0,
    decreases n,
{
    let b = replay::actions_of(lines, n - 1);
    assert(replay::line_ok(lines, n - 1));
    if j < b.len() {
        law_times_never_go_back(lines, n - 1, i, j);
    } else if i < b.len() {
        law_times_never_go_back(lines, n - 1, i, b.len() - 1);
    }
}

/// A line is refused exactly when it cannot be read, presses a button that does
/// not exist, moves a stick past its end, has no time or one before the action
/// above it.
pub proof fn law_lines_refused(lines: Seq<Line>, i: int)
    requires
        0 <= i < lines.len(),
    ensures
        lines[i] is Blank ==> replay::line_ok(lines, i),
        lines[i] is Unreadable ==> !replay::line_ok(lines, i),
        lines[i] matches Line::Decoded(a) ==> replay::line_ok(lines, i) == (a.t_ms is Some
            && replay::buttons_known(a.buttons) && (a.left_stick matches Some(s) ==> s@[0] <= 4095
            && s@[1] <= 4095) && (a.right_stick matches Some(s) ==> s@[0] <= 4095 && s@[1] <= 4095)
            && a.t_ms->0 >= replay::last_time(lines, i)),
        replay::actions_of(lines, i).len() == 0 ==> replay::last_time(lines, i) == 0,
        replay::actions_of(lines, i).len() > 0 && replay::actions_of(lines, i).last().t_ms is Some
            ==> replay::last_time(lines, i) == replay::actions_of(lines, i).last().t_ms->0,
{
}

/// An action is refused for the first button that does not exist, and otherwise
/// for the left stick before the right.
pub proof fn law_actions_refused(a: Action, e: ActionError)
    requires
        replay::is_error_of(a, e),
    ensures
        e matches ActionError::UnknownButton(name) ==> replay::listed(a.buttons).contains(name@)
            && !report::is_button(name@),
        e matches ActionError::StickRange(x, y) ==> x > 4095 || y > 4095,
        e matches ActionError::StickRange(x, y) ==> ((a.left_stick matches Some(s) && s@[0] == x
            && s@[1] == y) || (a.right_stick matches Some(s) && s@[0] == x && s@[1] == y)),
        e matches ActionError::StickRange(x, y) ==> (a.left_stick matches Some(s) ==> (s@[0] > 4095
            || s@[1] > 4095 ==> s@[0] == x && s@[1] == y)),
        !replay::action_ok(a),
{
    if let ActionError::UnknownButton(name) = e {
        let i = choose|i: int| #[trigger]
            replay::first_unknown(a.buttons, i) && replay::listed(a.buttons)[i] == name@;
        assert(replay::listed(a.buttons)[i] == name@);
    }
}

/// A recording is frames of 80 bytes: the time in the first eight of each, lowest
/// byte first, the size of the report in the ninth and the report from the
/// seventeenth on.
pub proof fn law_recording_by_bytes(b: Seq<u8>, i: int, k: int)
    requires
        0 <= i,
        80 * i + 80 <= b.len(),
        0 <= k < replay::report_at(b, i).len(),
    ensures
        replay::report_at(b, i).len() == (if b[80 * i + 8] < 64 {
            b[80 * i + 8] as int
        } else {
            64
        }),
        replay::report_at(b, i)[k] == b[80 * i + 16 + k],
        replay::time_at(b, i) == b[80 * i] + 256 * (b[80 * i + 1] + 256 * (b[80 * i + 2] + 256 * (
        b[80 * i + 3] + 256 * (b[80 * i + 4] + 256 * (b[80 * i + 5] + 256 * (b[80 * i + 6] + 256
            * b[80 * i + 7])))))),
{
    reveal_with_fuel(crate::bytes::le_value, 9);
    let f = replay::frame_at(b, i);
    let t = f.subrange(0, 8);
    assert(t.skip(1).skip(1) =~= t.skip(2));
    assert(t.skip(2).skip(1) =~= t.skip(3));
    assert(t.skip(3).skip(1) =~= t.skip(4));
    assert(t.skip(4).skip(1) =~= t.skip(5));
    assert(t.skip(5).skip(1) =~= t.skip(6));
    assert(t.skip(6).skip(1) =~= t.skip(7));
    assert(t.skip(7).skip(1) =~= t.skip(8));
    assert(crate::bytes::le_value(t.skip(8)) == 0);
    assert forall|j: int| 0 <= j < 8 implies #[trigger] t[j] == b[80 * i + j] by {
        assert(t[j] == f[j]);
    }
    assert(crate::bytes::le_value(t.skip(7)) == t[7] as int);
    assert(crate::bytes::le_value(t.skip(6)) == t[6] + 256 * t[7]);
    assert(crate::bytes::le_value(t.skip(5)) == t[5] + 256 * (t[6] + 256 * t[7]));
}

/// The frames that are played are, in order, those whose report is input.
pub proof fn law_played_frames(b: Seq<u8>, n: int)
    requires
        0 <= n,
    ensures
        ({
            let p = replay::input_places(b, n);
            &&& forall|i: int, j: int|
                0 <= i < j < p.len() ==> #[trigger] p[i] < #[trigger] p[j]
            &&& forall|i: int|
                0 <= i < p.len() ==> 0 <= #[trigger] p[i] < n
            &&& forall|k: int|
                #![trigger p.contains(k)]
                0 <= k < n ==> p.contains(k) == report::is_input(replay::report_at(b, k))
        }),
    decreases n,
{
    if n > 0 {
        law_played_frames(b, n - 1);
        let q = replay::input_places(b, n - 1);
        let p = replay::input_places(b, n);
        assert(p == q || p == q.push(n - 1));
        assert forall|k: int|
            #![trigger p.contains(k)]
            0 <= k < n implies p.contains(k) == report::is_input(replay::report_at(b, k)) by {
            if k == n - 1 {
                if p == q.push(n - 1) {
                    assert(p[q.len() as int] == k);
                }
                if q.contains(k) {
                    let i = choose|i: int| 0 <= i < q.len() && q[i] == k;
                    assert(q[i] < n - 1);
                }
            } else {
                if q.contains(k) {
                    let i = choose|i: int| 0 <= i < q.len() && q[i] == k;
                    assert(p[i] == k);
                }
                if p.contains(k) {
                    let i = choose|i: int| 0 <= i < p.len() && p[i] == k;
                    assert(i < q.len());
                    assert(q[i] == k);
                }
            }
        }
    }
}

/// A recorded action is played at its frame's time, counted from the first.
pub proof fn law_played_at(r: Seq<u8>, t: int, a: Action)
    requires
        replay::plays_at(r, t, a),
        report::is_input(r),
    ensures
        a.t_ms matches Some(m) && m == t,
        !a.mix,
        a.left_stick matches Some(s) && s@[0] == r[6] + (r[7] % 16) * 256 && s@[1] == r[7] / 16
            + r[8] * 16,
        a.right_stick matches Some(s) && s@[0] == r[9] + (r[10] % 16) * 256 && s@[1] == r[10] / 16
            + r[11] * 16,
        replay::listed(a.buttons) == report::held_names(r, 22),
{
}

/// What a line is refused for is true of it.
pub proof fn law_line_problems(lines: Seq<Line>, i: int, p: LineProblem)
    requires
        replay::line_problem(lines, i, p),
    ensures
        !replay::line_ok(lines, i),
        (p is Unreadable) == (lines[i] is Unreadable),
        p is NoTime ==> lines[i]->Decoded_0.t_ms is None,
        p matches LineProblem::TimeGoesBack { from, to } ==> to < from
            && lines[i]->Decoded_0.t_ms == Some(to),
        p matches LineProblem::Bad(e) ==> replay::is_error_of(lines[i]->Decoded_0, e),
{
    if let LineProblem::Bad(e) = p {
        law_actions_refused(lines[i]->Decoded_0, e);
    }
}

} // verus!
