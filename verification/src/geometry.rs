//! Where the pixels of a scaled picture come from.

use vstd::prelude::*;

use crate::double::FINE;
use crate::frame::{Dims, Nv12};
use crate::precision::DOUBLE;
use crate::scale::{Sampling, ScaleMode, Shown};

verus! {

/// The length, as an exact fraction, of the part of a source that a target shows
/// along one axis: all of it where the picture is stretched or where this axis
/// decides the scale, else as much as keeps the aspect ratio.
pub open spec fn visible(
    mode: ScaleMode,
    source_len: int,
    target_len: int,
    other_source: int,
    other_target: int,
) -> (int, int) {
    if mode == ScaleMode::Stretch || target_len * other_source >= other_target * source_len {
        (source_len, 1)
    } else {
        (target_len * other_source, other_target)
    }
}

/// Whether the centre of a source pixel lies less than one pixel away from where the
/// centre of a target pixel falls, if a part of the length `num / den` in the middle
/// of the source is spread evenly over the target.
pub open spec fn near(
    index: int,
    pixel: int,
    source_len: int,
    target_len: int,
    num: int,
    den: int,
) -> bool {
    let place = (2 * index + 1) * num + (source_len * den - num) * target_len;
    let unit = 2 * (target_len * den);
    -unit < (2 * pixel + 1) * (target_len * den) - place < unit
}

/// The length of what is shown is the exact one, but for rounding.
proof fn lemma_length_error(
    source_len: int,
    target_len: int,
    wide_source: int,
    wide_target: int,
    scale: int,
)
    requires
        0 < source_len <= u32::MAX,
        0 < target_len <= u32::MAX,
        0 < wide_source <= u32::MAX,
        0 < wide_target <= u32::MAX,
        scale == crate::double::double(wide_target * FINE, wide_source),
        crate::double::double(target_len * FINE, source_len) <= scale,
        target_len * wide_source <= source_len * wide_target,
    ensures
        ({
            let length = crate::double::double((target_len * FINE) * FINE, scale);
            let slack = wide_target * (FINE as int / 0x4_0000);
            &&& 0 <= length
            &&& (target_len * wide_source) * FINE - slack <= length * wide_target
            &&& length * wide_target <= (target_len * wide_source) * FINE + slack
        }),
{
    let (f, lim) = (FINE as int, DOUBLE as int);
    let (s, t, sm, tm) = (source_len, target_len, wide_source, wide_target);
    let length = crate::double::double((t * f) * f, scale);
    crate::scale::lemma_ratio(tm, sm);
    crate::scale::lemma_length(s, t, scale);
    let (big, square) = (tm * f, (t * f) * f);
    assert(0 <= big && 0 <= square) by (nonlinear_arith)
        requires
            big == tm * f,
            square == (t * f) * f,
            0 < tm,
            0 < t,
            0 < f,
    ;
    crate::precision::lemma_nearest_error(big, sm, lim);
    crate::precision::lemma_nearest_error(square, scale, lim);
    let (reach, cover) = (scale * sm, length * scale);
    let all = cover * sm;
    assert(all == length * reach) by (nonlinear_arith)
        requires
            cover == length * scale,
            reach == scale * sm,
            all == cover * sm,
    ;
    // The product of all three, once by each rounding.
    assert(lim * all <= sm * (lim * square + square + lim * scale) && sm * (lim * square - square
        - lim * scale) <= lim * all) by (nonlinear_arith)
        requires
            all == cover * sm,
            lim * cover <= lim * square + square + lim * scale,
            lim * square <= lim * cover + square + lim * scale,
            0 < sm,
    ;
    assert(lim * all <= length * (lim * big + big + lim * sm) && length * (lim * big - big - lim
        * sm) <= lim * all) by (nonlinear_arith)
        requires
            all == length * reach,
            lim * reach <= lim * big + big + lim * sm,
            lim * big <= lim * reach + big + lim * sm,
            0 <= length,
    ;
    let (exact, got) = ((t * sm) * f, length * tm);
    assert(sm * (lim * square) == lim * (f * exact)) by (nonlinear_arith)
        requires
            exact == (t * sm) * f,
            square == (t * f) * f,
    ;
    assert(length * (lim * big) == lim * (f * got)) by (nonlinear_arith)
        requires
            got == length * tm,
            big == tm * f,
    ;
    let (one, two, three, four) = (
        sm * square,
        sm * (lim * scale),
        length * big,
        length * (lim * sm),
    );
    assert(sm * (lim * square + square + lim * scale) == sm * (lim * square) + one + two && sm * (lim
        * square - square - lim * scale) == sm * (lim * square) - one - two) by (nonlinear_arith)
        requires
            one == sm * square,
            two == sm * (lim * scale),
    ;
    assert(length * (lim * big + big + lim * sm) == length * (lim * big) + three + four && length * (
    lim * big - big - lim * sm) == length * (lim * big) - three - four) by (nonlinear_arith)
        requires
            three == length * big,
            four == length * (lim * sm),
    ;
    let wide = tm * f;
    // Each rest is a small part of the target's length times one.
    assert(one <= wide * (0x1_0000_0000 * f)) by (nonlinear_arith)
        requires
            one == sm * ((t * f) * f),
            t * sm <= s * tm,
            s <= 0x1_0000_0000,
            wide == tm * f,
            0 < tm,
            0 < f,
    {
        assert(sm * ((t * f) * f) == (t * sm) * (f * f));
        assert((t * sm) * (f * f) <= (s * tm) * (f * f));
        assert(s * tm <= 0x1_0000_0000 * tm);
        assert((s * tm) * (f * f) <= (0x1_0000_0000 * tm) * (f * f));
        assert((0x1_0000_0000 * tm) * (f * f) == (tm * f) * (0x1_0000_0000 * f));
    }
    assert(sm <= wide) by (nonlinear_arith)
        requires
            wide == tm * f,
            1 <= tm,
            0 < sm <= f,
    ;
    assert(two <= wide * (3 * lim)) by (nonlinear_arith)
        requires
            two == sm * (lim * scale),
            reach == scale * sm,
            lim * reach <= lim * big + big + lim * sm,
            big == wide,
            sm <= wide,
            0 < wide,
            1 <= lim,
    {
        assert(sm * (lim * scale) == lim * reach);
        assert(lim * sm <= lim * wide);
        assert(wide <= lim * wide);
    }
    assert(length <= 0x4_0000_0000 * f) by (nonlinear_arith)
        requires
            length <= 4 * (s * f),
            s <= 0x1_0000_0000,
            0 < f,
    ;
    assert(three <= wide * (0x4_0000_0000 * f)) by (nonlinear_arith)
        requires
            three == length * wide,
            length <= 0x4_0000_0000 * f,
            0 < wide,
    ;
    assert(four <= wide * (lim * 0x4_0000_0000_0000_0000)) by (nonlinear_arith)
        requires
            four == length * (lim * sm),
            0 <= length <= 0x4_0000_0000 * f,
            0 < sm <= 0x1_0000_0000,
            0 < lim,
            wide == tm * f,
            1 <= tm,
            0 < f,
    {
        assert(length * (lim * sm) <= (0x4_0000_0000 * f) * (lim * sm));
        assert(lim * sm <= lim * 0x1_0000_0000);
        assert((0x4_0000_0000 * f) * (lim * sm) <= (0x4_0000_0000 * f) * (lim * 0x1_0000_0000));
        assert((0x4_0000_0000 * f) * (lim * 0x1_0000_0000) == f * (lim * 0x4_0000_0000_0000_0000));
        assert(f <= wide);
        assert(f * (lim * 0x4_0000_0000_0000_0000) <= wide * (lim * 0x4_0000_0000_0000_0000));
    }
    let e = f / 0x4_0000;
    assert(one + two + three + four <= wide * (lim * e)) by (nonlinear_arith)
        requires
            one <= wide * (0x1_0000_0000 * f),
            two <= wide * (3 * lim),
            three <= wide * (0x4_0000_0000 * f),
            four <= wide * (lim * 0x4_0000_0000_0000_0000),
            0x5_0000_0000 * f + 3 * lim + lim * 0x4_0000_0000_0000_0000 <= lim * e,
            0 < wide,
    {
        assert(wide * (0x1_0000_0000 * f) + wide * (3 * lim) + wide * (0x4_0000_0000 * f) + wide * (
        lim * 0x4_0000_0000_0000_0000) == wide * (0x5_0000_0000 * f + 3 * lim + lim
            * 0x4_0000_0000_0000_0000));
        assert(wide * (0x5_0000_0000 * f + 3 * lim + lim * 0x4_0000_0000_0000_0000) <= wide * (lim
            * e));
    }
    let slack = tm * e;
    assert(wide * (lim * e) == lim * (f * slack)) by (nonlinear_arith)
        requires
            wide == tm * f,
            slack == tm * e,
    ;
    assert(got <= exact + slack && exact <= got + slack) by (nonlinear_arith)
        requires
            lim * (f * got) <= lim * (f * exact) + lim * (f * slack),
            lim * (f * exact) <= lim * (f * got) + lim * (f * slack),
            0 < lim,
            0 < f,
    {
        assert(lim * (f * (got - exact - slack)) <= 0);
        assert(lim * (f * (exact - got - slack)) <= 0);
    }
}

/// What is shown of a source is the exact part in its middle, but for rounding.
pub proof fn lemma_shown_error(
    mode: ScaleMode,
    source_len: int,
    target_len: int,
    other_source: int,
    other_target: int,
    scale: int,
)
    requires
        0 < source_len <= u32::MAX,
        0 < target_len <= u32::MAX,
        0 < other_source <= u32::MAX,
        0 < other_target <= u32::MAX,
        scale == crate::scale::larger(
            crate::double::double(target_len * FINE, source_len),
            crate::double::double(other_target * FINE, other_source),
        ),
    ensures
        ({
            let (num, den) = visible(mode, source_len, target_len, other_source, other_target);
            let shown = crate::scale::shown_part(mode, source_len, target_len, scale);
            in_the_middle(shown, source_len, num, den)
        }),
{
    let (f, lim) = (FINE as int, DOUBLE as int);
    let (s, t) = (source_len, target_len);
    let (num, den) = visible(mode, s, t, other_source, other_target);
    let shown = crate::scale::shown_part(mode, s, t, scale);
    assert(0 < s * f <= 0x1_0000_0000 * f) by (nonlinear_arith)
        requires
            0 < s <= 0x1_0000_0000,
            0 < f,
    ;
    if mode == ScaleMode::Stretch {
        assert((s * f) * 1 == s * f);
    } else {
        let (a, b) = (t * f, other_target * f);
        assert(0 <= a && 0 <= b) by (nonlinear_arith)
            requires
                a == t * f,
                b == other_target * f,
                0 < t,
                0 < other_target,
                0 < f,
        ;
        assert(t * other_source >= other_target * s ==> b * s <= a * other_source)
            by (nonlinear_arith)
            requires
                a == t * f,
                b == other_target * f,
                0 < f,
        ;
        assert(t * other_source <= other_target * s ==> a * other_source <= b * s)
            by (nonlinear_arith)
            requires
                a == t * f,
                b == other_target * f,
                0 < f,
        ;
        let length = shown.length;
        if t * other_source >= other_target * s {
            crate::precision::lemma_nearest_order(b, other_source, a, s, lim);
            assert(t * s <= s * t) by (nonlinear_arith);
            lemma_length_error(s, t, s, t, scale);
            let e = f / 0x4_0000;
            assert(s * f - e <= length <= s * f + e) by (nonlinear_arith)
                requires
                    (t * s) * f - t * e <= length * t,
                    length * t <= (t * s) * f + t * e,
                    0 < t,
            {
                assert((t * s) * f - t * e == t * (s * f - e));
                assert((t * s) * f + t * e == t * (s * f + e));
                assert(t * (length - (s * f - e)) >= 0);
                assert(t * (s * f + e - length) >= 0);
            }
            assert(length * 1 == length && num * f == s * f);
        } else {
            crate::precision::lemma_nearest_order(a, s, b, other_source, lim);
            assert(t * other_source <= s * other_target) by (nonlinear_arith)
                requires
                    t * other_source <= other_target * s,
            ;
            lemma_length_error(s, t, other_source, other_target, scale);
        }
        let e = f / 0x4_0000;
        let exact = num * f;
        assert(exact - den * e <= length * den <= exact + den * e);
        assert(0 < num <= s * den) by (nonlinear_arith)
            requires
                (num == s && den == 1) || (num == t * other_source && den == other_target && t
                    * other_source <= other_target * s),
                0 < s,
                0 < t,
                0 < other_source,
        ;
        assert(length <= s * f + e) by (nonlinear_arith)
            requires
                length * den <= num * f + den * e,
                num <= s * den,
                0 < den,
                0 < f,
        {
            assert(num * f <= (s * den) * f);
            assert((s * den) * f + den * e == den * (s * f + e));
            assert(den * (s * f + e - length) >= 0);
        }
        let gap = s * f - length;
        crate::scale::lemma_signed_error(gap);
        let rounded = crate::double::signed_double(gap);
        let start = shown.start;
        assert(rounded - 1 <= 2 * start <= rounded + 1);
        let off = f / 0x10_0000 + 2;
        assert(gap - off <= 2 * start <= gap + off);
        let middle = (s * den - num) * f;
        assert(middle - 2 * (den * (f / 0x2_0000)) <= den * (2 * start) && den * (2 * start)
            <= middle + 2 * (den * (f / 0x2_0000))) by (nonlinear_arith)
            requires
                gap - off <= 2 * start <= gap + off,
                gap == s * f - length,
                exact - den * e <= length * den <= exact + den * e,
                exact == num * f,
                middle == (s * den - num) * f,
                off + e <= 2 * (f / 0x2_0000),
                0 < den,
        {
            assert(den * (gap - off) <= den * (2 * start) <= den * (gap + off));
            assert(den * gap == (s * den) * f - length * den);
            assert(middle == (s * den) * f - num * f);
            assert(den * (gap + off) == den * gap + den * off);
            assert(den * (gap - off) == den * gap - den * off);
            assert(den * off + den * e == den * (off + e));
            assert(den * (off + e) <= den * (2 * (f / 0x2_0000)));
        }
        assert(den * e <= den * (f / 0x2_0000)) by (nonlinear_arith)
            requires
                e <= f / 0x2_0000,
                0 < den,
        ;
    }
}

/// A part of about the length `num / den` lies in the middle of a source.
pub open spec fn in_the_middle(shown: Shown, source_len: int, num: int, den: int) -> bool {
    let slack = den * (FINE as int / 0x2_0000);
    &&& 0 < den
    &&& 0 < num <= source_len * den
    &&& 0 <= shown.length
    &&& num * FINE - slack <= shown.length * den <= num * FINE + slack
    &&& (source_len * den - num) * FINE - 2 * slack <= den * (2 * shown.start) <= (source_len * den
        - num) * FINE + 2 * slack
}

/// What is shown along an axis of half the length is half as long.
pub proof fn lemma_halved_shown(shown: Shown, source_len: int, num: int, den: int)
    requires
        in_the_middle(shown, source_len, num, den),
        source_len % 2 == 0,
    ensures
        half_in_the_middle(crate::scale::halved(shown), source_len / 2, num, 2 * den),
{
    let f = FINE as int;
    let half = crate::scale::halved(shown);
    let slack = den * (f / 0x2_0000);
    assert(2 * half.length <= shown.length <= 2 * half.length + 1);
    assert(2 * half.start - 1 <= shown.start <= 2 * half.start + 1);
    let (a, b) = (half.length * den, half.start * den);
    assert(2 * a <= shown.length * den <= 2 * a + den) by (nonlinear_arith)
        requires
            2 * half.length <= shown.length <= 2 * half.length + 1,
            a == half.length * den,
            0 < den,
    ;
    assert(4 * b - 2 * den <= den * (2 * shown.start) <= 4 * b + 2 * den) by (nonlinear_arith)
        requires
            2 * half.start - 1 <= shown.start <= 2 * half.start + 1,
            b == half.start * den,
            0 < den,
    ;
    assert(half.length * (2 * den) == 2 * a && (2 * den) * (2 * half.start) == 4 * b)
        by (nonlinear_arith)
        requires
            a == half.length * den,
            b == half.start * den,
    ;
    assert((source_len / 2) * (2 * den) == source_len * den) by (nonlinear_arith)
        requires
            source_len % 2 == 0,
    ;
    assert((2 * den) * (f / 0x1_0000) >= 2 * slack + 2 * den) by (nonlinear_arith)
        requires
            slack == den * (f / 0x2_0000),
            f / 0x1_0000 >= f / 0x2_0000 + 1,
            0 < den,
    ;
}

/// A part of about the length `num / den` lies in the middle of a source, with twice
/// the rounding.
pub open spec fn half_in_the_middle(shown: Shown, source_len: int, num: int, den: int) -> bool {
    let slack = den * (FINE as int / 0x1_0000);
    &&& 0 < den
    &&& 0 < num <= source_len * den
    &&& 0 <= shown.length
    &&& num * FINE - slack <= shown.length * den <= num * FINE + slack
    &&& (source_len * den - num) * FINE - 2 * slack <= den * (2 * shown.start) <= (source_len * den
        - num) * FINE + 2 * slack
}

pub proof fn lemma_less_rounding(shown: Shown, source_len: int, num: int, den: int)
    requires
        in_the_middle(shown, source_len, num, den),
    ensures
        half_in_the_middle(shown, source_len, num, den),
{
    assert(den * (FINE as int / 0x2_0000) <= den * (FINE as int / 0x1_0000)) by (nonlinear_arith)
        requires
            FINE as int / 0x2_0000 <= FINE as int / 0x1_0000,
            0 < den,
    ;
}

/// Where the centre of a target pixel falls, before it is kept inside the source.
pub open spec fn raw_centre(index: int, target_len: int, shown: Shown) -> int {
    let along = crate::double::double(
        crate::double::double((2 * index + 1) * shown.length, 2),
        target_len,
    );
    crate::double::signed_double(crate::double::signed_double(along - FINE / 2) + shown.start)
}

/// A target pixel falls where the exact fractions say, but for rounding.
pub proof fn lemma_centre_error(
    index: int,
    source_len: int,
    target_len: int,
    shown: Shown,
    num: int,
    den: int,
)
    requires
        0 <= index < target_len <= u32::MAX,
        0 < source_len <= u32::MAX,
        half_in_the_middle(shown, source_len, num, den),
    ensures
        ({
            let place = (2 * index + 1) * num + (source_len * den - num) * target_len;
            let grid = target_len * den;
            let raw = raw_centre(index, target_len, shown);
            let slack = 2 * (grid * (FINE as int / 0x2000));
            &&& place * FINE - slack <= (2 * grid) * raw + grid * FINE
            &&& (2 * grid) * raw + grid * FINE <= place * FINE + slack
            &&& 0 < grid
            &&& 0 <= place <= (2 * grid) * source_len
        }),
{
    let (f, lim) = (FINE as int, DOUBLE as int);
    let (t, s) = (target_len, source_len);
    let e = f / 0x1_0000;
    let (length, start) = (shown.length, shown.start);
    let odd = 2 * index + 1;
    let n = odd * length;
    assert(0 < s * f <= 0x1_0000_0000 * f) by (nonlinear_arith)
        requires
            0 < s <= 0x1_0000_0000,
            0 < f,
    ;
    assert(length <= s * f + e) by (nonlinear_arith)
        requires
            length * den <= num * f + den * e,
            num <= s * den,
            0 < den,
            0 < f,
    {
        assert(num * f <= (s * den) * f);
        assert((s * den) * f + den * e == den * (s * f + e));
        assert(den * (s * f + e - length) >= 0);
    }
    assert(-(s * f) - 2 * e <= 2 * start <= s * f + 2 * e) by (nonlinear_arith)
        requires
            (s * den - num) * f - 2 * (den * e) <= den * (2 * start),
            den * (2 * start) <= (s * den - num) * f + 2 * (den * e),
            0 < num <= s * den,
            0 < den,
            0 < f,
            0 < s,
    {
        assert(0 <= (s * den - num) * f <= (s * den) * f);
        assert((s * den) * f + 2 * (den * e) == den * (s * f + 2 * e));
        assert(den * (s * f + 2 * e - 2 * start) >= 0);
        assert(den * (2 * start + 2 * e) >= 0);
        assert(2 * start + 2 * e >= 0);
    }
    assert(0 <= n <= 2 * (t * length)) by (nonlinear_arith)
        requires
            n == odd * length,
            0 <= odd <= 2 * t,
            0 <= length,
    ;
    let product = crate::double::double(n, 2);
    let along = crate::double::double(product, t);
    crate::precision::lemma_nearest(n, 2, lim);
    crate::precision::lemma_nearest_error(n, 2, lim);
    crate::precision::lemma_nearest(product, t, lim);
    crate::precision::lemma_nearest_error(product, t, lim);
    let tiny = f / 0x8_0000;
    assert(n <= lim * (t * tiny)) by (nonlinear_arith)
        requires
            n <= 2 * (t * length),
            length <= 0x2_0000_0000 * f,
            0x4_0000_0000 * f <= lim * tiny,
            0 < t,
    {
        assert(t * length <= t * (0x2_0000_0000 * f));
        assert(2 * (t * (0x2_0000_0000 * f)) == t * (0x4_0000_0000 * f));
        assert(t * (0x4_0000_0000 * f) <= t * (lim * tiny));
        assert(t * (lim * tiny) == lim * (t * tiny));
    }
    let (part, share) = (t * tiny, along * t);
    assert(2 * product <= n + part + 2 && n <= 2 * product + part + 2) by (nonlinear_arith)
        requires
            lim * (product * 2) <= lim * n + n + lim * 2,
            lim * n <= lim * (product * 2) + n + lim * 2,
            n <= lim * part,
            0 < lim,
    ;
    assert(product <= lim * part);
    assert(share <= product + part + t && product <= share + part + t) by (nonlinear_arith)
        requires
            lim * share <= lim * product + product + lim * t,
            lim * product <= lim * share + product + lim * t,
            product <= lim * part,
            0 < lim,
    ;
    // Along the target: twice the place of the pixel times the target's length.
    let ahead = t * e;
    assert(part * 3 + 2 * t + 2 <= ahead) by (nonlinear_arith)
        requires
            part == t * tiny,
            ahead == t * e,
            3 * tiny + 4 <= e,
            1 <= t,
    ;
    assert(n - ahead <= 2 * share <= n + ahead);
    assert(0 <= along <= length + e) by (nonlinear_arith)
        requires
            0 <= along,
            share == along * t,
            2 * share <= n + ahead,
            n <= 2 * (t * length),
            ahead == t * e,
            0 < t,
            0 <= e,
    {
        assert(2 * (along * t) <= 2 * (t * length) + t * e);
        assert(t * (2 * along - 2 * length - e) <= 0);
        assert(2 * along - 2 * length - e <= 0);
    }
    crate::scale::lemma_signed_error(along - f / 2);
    let middle = crate::double::signed_double(along - f / 2);
    crate::scale::lemma_signed_error(middle + start);
    let raw = raw_centre(index, t, shown);
    let off = 2 * (f / 0x10_0000) + 2;
    assert(along - f / 2 + start - off <= raw <= along - f / 2 + start + off);
    let grid = t * den;
    assert(0 < grid) by (nonlinear_arith)
        requires
            grid == t * den,
            0 < t,
            0 < den,
    ;
    let place = odd * num + (s * den - num) * t;
    assert(0 <= place <= (2 * grid) * s) by (nonlinear_arith)
        requires
            place == odd * num + (s * den - num) * t,
            grid == t * den,
            0 <= odd <= 2 * t,
            0 < num <= s * den,
            0 < t,
    {
        assert(0 <= odd * num <= (2 * t) * num);
        assert(0 <= (s * den - num) * t);
        assert((2 * t) * num + (s * den - num) * t == t * num + (s * den) * t);
        assert(t * num <= t * (s * den));
        assert(2 * (t * (s * den)) == (2 * (t * den)) * s);
    }
    let (x, y) = (den * (2 * share), t * (den * (2 * start)));
    assert((2 * grid) * raw <= x - grid * f + y + 2 * (grid * off) && x - grid * f + y - 2 * (grid
        * off) <= (2 * grid) * raw) by (nonlinear_arith)
        requires
            along - f / 2 + start - off <= raw <= along - f / 2 + start + off,
            f == 2 * (f / 2),
            x == den * (2 * (along * t)),
            y == t * (den * (2 * start)),
            grid == t * den,
            0 < grid,
    {
        let h = f / 2;
        assert((2 * grid) * raw <= (2 * grid) * (along - h + start + off));
        assert((2 * grid) * (along - h + start - off) <= (2 * grid) * raw);
        assert((2 * grid) * (along - h + start + off) == (2 * grid) * along - (2 * grid) * h + (2
            * grid) * start + (2 * grid) * off);
        assert((2 * grid) * (along - h + start - off) == (2 * grid) * along - (2 * grid) * h + (2
            * grid) * start - (2 * grid) * off);
        assert((2 * grid) * along == den * (2 * (along * t)));
        assert((2 * grid) * start == t * (den * (2 * start)));
        assert((2 * grid) * h == grid * f);
        assert((2 * grid) * off == 2 * (grid * off));
    }
    let wide = grid * e;
    assert(odd * (num * f) - 3 * wide <= x <= odd * (num * f) + 3 * wide) by (nonlinear_arith)
        requires
            x == den * (2 * share),
            n - ahead <= 2 * share <= n + ahead,
            n == odd * length,
            ahead == t * e,
            num * f - den * e <= length * den <= num * f + den * e,
            0 <= odd <= 2 * t,
            wide == (t * den) * e,
            0 < den,
            0 <= e,
    {
        assert(den * (n - ahead) <= den * (2 * share) <= den * (n + ahead));
        assert(den * ahead == wide);
        assert(den * n == odd * (length * den));
        assert(odd * (num * f - den * e) <= odd * (length * den) <= odd * (num * f + den * e));
        assert(odd * (den * e) <= (2 * t) * (den * e));
        assert((2 * t) * (den * e) == 2 * wide);
        assert(odd * (num * f - den * e) == odd * (num * f) - odd * (den * e));
        assert(odd * (num * f + den * e) == odd * (num * f) + odd * (den * e));
        assert(den * (n - ahead) == den * n - den * ahead);
        assert(den * (n + ahead) == den * n + den * ahead);
    }
    let rest = (s * den - num) * f;
    assert(t * rest - 2 * wide <= y <= t * rest + 2 * wide) by (nonlinear_arith)
        requires
            y == t * (den * (2 * start)),
            rest - 2 * (den * e) <= den * (2 * start) <= rest + 2 * (den * e),
            wide == (t * den) * e,
            0 < t,
    {
        assert(t * (rest - 2 * (den * e)) <= t * (den * (2 * start)) <= t * (rest + 2 * (den * e)));
        assert(t * (2 * (den * e)) == 2 * wide);
    }
    assert(place * f == odd * (num * f) + t * rest) by (nonlinear_arith)
        requires
            place == odd * num + (s * den - num) * t,
            rest == (s * den - num) * f,
    ;
    let slack = 2 * (grid * (f / 0x2000));
    assert(5 * wide + 2 * (grid * off) <= slack) by (nonlinear_arith)
        requires
            wide == grid * e,
            slack == 2 * (grid * (f / 0x2000)),
            5 * e + 2 * off <= 2 * (f / 0x2000),
            0 < grid,
    {
        assert(5 * (grid * e) + 2 * (grid * off) == grid * (5 * e + 2 * off));
        assert(grid * (5 * e + 2 * off) <= grid * (2 * (f / 0x2000)));
    }
}

/// A source pixel that has a part in a target pixel lies near it.
proof fn lemma_tap_near(
    index: int,
    pixel: int,
    source_len: int,
    target_len: int,
    shown: Shown,
    num: int,
    den: int,
)
    requires
        0 <= index < target_len <= u32::MAX,
        0 < source_len <= u32::MAX,
        half_in_the_middle(shown, source_len, num, den),
        -256 < 256 * pixel - crate::scale::tap(index, source_len, target_len, shown) < 256,
    ensures
        near(index, pixel, source_len, target_len, num, den),
{
    lemma_centre_error(index, source_len, target_len, shown, num, den);
    let f = FINE as int;
    let raw = raw_centre(index, target_len, shown);
    let c = crate::scale::centre(index, source_len, target_len, shown);
    let q = crate::scale::tap(index, source_len, target_len, shown);
    let last = (source_len - 1) * f;
    assert(0 <= last) by (nonlinear_arith)
        requires
            last == (source_len - 1) * f,
            0 < source_len,
            0 < f,
    ;
    vstd::arithmetic::div_mod::lemma_fundamental_div_mod(512 * c + f, 2 * f);
    assert(2 * (f * q) <= 512 * c + f < 2 * (f * q) + 2 * f) by (nonlinear_arith)
        requires
            512 * c + f == (2 * f) * q + (512 * c + f) % (2 * f),
            0 <= (512 * c + f) % (2 * f) < 2 * f,
    ;
    let at = pixel * f;
    assert(-255 * f <= 256 * at - f * q <= 255 * f) by (nonlinear_arith)
        requires
            at == pixel * f,
            -255 <= 256 * pixel - q <= 255,
            0 < f,
    {
        assert(f * (256 * pixel - q) == 256 * (pixel * f) - f * q);
    }
    assert(-512 * f + f <= 512 * (at - c) <= 512 * f - f);
    let grid = target_len * den;
    let place = (2 * index + 1) * num + (source_len * den - num) * target_len;
    let g = f / 0x2000;
    let slack = 2 * (grid * g);
    // The place of the target pixel lies between the ends of the source.
    assert(raw >= -(f / 2) - g) by (nonlinear_arith)
        requires
            -slack <= (2 * grid) * raw + grid * f,
            slack == 2 * (grid * g),
            f == 2 * (f / 2),
            0 < grid,
    {
        assert((2 * grid) * (raw + f / 2 + g) >= 0);
    }
    assert(raw <= last + f / 2 + g) by (nonlinear_arith)
        requires
            (2 * grid) * raw + grid * f <= place * f + slack,
            place <= (2 * grid) * source_len,
            slack == 2 * (grid * g),
            f == 2 * (f / 2),
            last == (source_len - 1) * f,
            0 < grid,
            0 < f,
    {
        assert(place * f <= ((2 * grid) * source_len) * f);
        assert(((2 * grid) * source_len) * f == (2 * grid) * (last + f));
        assert((2 * grid) * (last + f / 2 + g - raw) >= 0);
    }
    if raw < 0 {
        assert(c == 0);
        assert(q == 0) by (nonlinear_arith)
            requires
                2 * (f * q) <= f,
                f < 2 * (f * q) + 2 * f,
                0 < f,
        ;
        assert(at == 0);
    } else if raw > last {
        assert(c == last);
        let top = 256 * (source_len - 1);
        assert(q == top) by (nonlinear_arith)
            requires
                2 * (f * q) <= 512 * last + f,
                512 * last + f < 2 * (f * q) + 2 * f,
                last == (source_len - 1) * f,
                top == 256 * (source_len - 1),
                0 < f,
        {
            assert(512 * last == 2 * (f * top));
            assert(2 * (f * (q - top)) <= f);
            assert(2 * (f * (top - q)) < f);
        }
        assert(pixel == source_len - 1);
    }
    assert(-(f - g) < at - raw < f - g);
    assert(-(2 * grid) < (2 * pixel + 1) * grid - place < 2 * grid) by (nonlinear_arith)
        requires
            -(f - g) < at - raw < f - g,
            at == pixel * f,
            place * f - slack <= (2 * grid) * raw + grid * f,
            (2 * grid) * raw + grid * f <= place * f + slack,
            slack == 2 * (grid * g),
            0 < grid,
            0 < f,
    {
        let d = (2 * pixel + 1) * grid - place;
        assert((2 * grid) * (at - raw) < (2 * grid) * (f - g));
        assert((2 * grid) * (at - raw) > -((2 * grid) * (f - g)));
        assert((2 * grid) * at + grid * f == ((2 * pixel + 1) * grid) * f);
        assert(d * f <= (2 * grid) * (at - raw) + slack);
        assert(d * f >= (2 * grid) * (at - raw) - slack);
        assert((2 * grid) * (f - g) + slack == (2 * grid) * f);
        assert(d * f < (2 * grid) * f);
        assert(d * f > -((2 * grid) * f));
    }
}

/// A sample is the same for two planes that agree wherever it has a part in them.
proof fn lemma_same_sample(
    s: Sampling,
    plane: Seq<u8>,
    other: Seq<u8>,
    x: int,
    y: int,
    channel: int,
)
    requires
        0 < s.source_width,
        0 < s.source_height,
        0 <= x <= 256 * (s.source_width - 1),
        0 <= y <= 256 * (s.source_height - 1),
        forall|column: int, row: int|
            0 <= column < s.source_width && 0 <= row < s.source_height && -256 < 256 * column - x
                < 256 && -256 < 256 * row - y < 256 ==> #[trigger] s.byte(
                plane,
                column,
                row,
                channel,
            ) == s.byte(other, column, row, channel),
    ensures
        s.sample(plane, x, y, channel) == s.sample(other, x, y, channel),
{
    let (left, top) = (x / 256, y / 256);
    let (fx, fy) = (x % 256, y % 256);
    let right = if left + 1 < s.source_width {
        left + 1
    } else {
        s.source_width - 1
    };
    let below = if top + 1 < s.source_height {
        top + 1
    } else {
        s.source_height - 1
    };
    let (tl, tr, bl, br) = (
        s.byte(plane, left, top, channel),
        s.byte(plane, right, top, channel),
        s.byte(plane, left, below, channel),
        s.byte(plane, right, below, channel),
    );
    let (ol, or, pl, pr) = (
        s.byte(other, left, top, channel),
        s.byte(other, right, top, channel),
        s.byte(other, left, below, channel),
        s.byte(other, right, below, channel),
    );
    assert(tl == ol);
    assert(fx > 0 ==> tr == or);
    assert(fy > 0 ==> bl == pl);
    assert(fx > 0 && fy > 0 ==> br == pr);
    lemma_same_mix((tl, tr, bl, br), (ol, or, pl, pr), fx, fy);
}

/// A mix of four bytes is the same for others that differ only where the weight is
/// zero.
pub proof fn lemma_same_mix(first: (u8, u8, u8, u8), second: (u8, u8, u8, u8), fx: int, fy: int)
    requires
        first.0 == second.0,
        fx != 0 ==> first.1 == second.1,
        fy != 0 ==> first.2 == second.2,
        fx != 0 && fy != 0 ==> first.3 == second.3,
    ensures
        crate::scale::mixed(first.0, first.1, first.2, first.3, fx, fy) == crate::scale::mixed(
            second.0,
            second.1,
            second.2,
            second.3,
            fx,
            fy,
        ),
{
    let (tl, tr, bl, br) = first;
    let (ol, or, pl, pr) = second;
    assert(tr * 0 == 0 && or * 0 == 0 && br * 0 == 0 && pr * 0 == 0);
    let (upper, lower) = (tl * (256 - fx) + tr * fx, bl * (256 - fx) + br * fx);
    let (over, under) = (ol * (256 - fx) + or * fx, pl * (256 - fx) + pr * fx);
    assert(upper == over);
    assert(fy != 0 ==> lower == under);
    assert(lower * 0 == 0 && under * 0 == 0);
}

/// The samples of a plane that is scaled: two planes that agree near the place of a
/// target pixel give the same byte there.
proof fn lemma_same_byte(
    s: Sampling,
    plane: Seq<u8>,
    other: Seq<u8>,
    shown: (Shown, Shown),
    part: ((int, int), (int, int)),
    column: int,
    row: int,
    channel: int,
)
    requires
        s.valid(),
        s.columns == crate::scale::taps_of(s.source_width, s.target_width, shown.0),
        s.rows == crate::scale::taps_of(s.source_height, s.target_height, shown.1),
        half_in_the_middle(shown.0, s.source_width, part.0.0, part.0.1),
        half_in_the_middle(shown.1, s.source_height, part.1.0, part.1.1),
        0 <= column < s.target_width,
        0 <= row < s.target_height,
        0 <= channel < s.channels,
        forall|x: int, y: int|
            #![trigger near(column, x, s.source_width, s.target_width, part.0.0, part.0.1), near(row, y, s.source_height, s.target_height, part.1.0, part.1.1)]
            0 <= x < s.source_width && 0 <= y < s.source_height && near(
                column,
                x,
                s.source_width,
                s.target_width,
                part.0.0,
                part.0.1,
            ) && near(row, y, s.source_height, s.target_height, part.1.0, part.1.1) ==> plane[(y
                * s.source_width + x) * s.channels + channel] == other[(y * s.source_width + x)
                * s.channels + channel],
    ensures
        ({
            let at = (row * s.target_width + column) * s.channels + channel;
            &&& 0 <= at < s.target_bytes()
            &&& s.scaled(plane).len() == s.target_bytes()
            &&& s.scaled(plane)[at] == s.scaled(other)[at]
        }),
{
    let (x, y) = (s.columns[column], s.rows[row]);
    crate::walk::lemma_cell_in_plane(
        column,
        row,
        channel,
        s.target_width,
        s.target_height,
        s.channels,
    );
    assert forall|a: int, b: int|
        0 <= a < s.source_width && 0 <= b < s.source_height && -256 < 256 * a - x < 256 && -256
            < 256 * b - y < 256 implies #[trigger] s.byte(plane, a, b, channel) == s.byte(
        other,
        a,
        b,
        channel,
    ) by {
        lemma_tap_near(column, a, s.source_width, s.target_width, shown.0, part.0.0, part.0.1);
        lemma_tap_near(row, b, s.source_height, s.target_height, shown.1, part.1.0, part.1.1);
    }
    lemma_same_sample(s, plane, other, x, y, channel);
}

/// A scaled plane shows at each pixel what lies at its place in the source, in the
/// middle of which the visible part is: a pixel one or more away from there has no
/// part in it, in any channel.
pub proof fn law_scaled_planes_show_what_lies_there(
    source: Dims,
    target: Dims,
    channels: int,
    mode: ScaleMode,
    plane: Seq<u8>,
    other: Seq<u8>,
    column: int,
    row: int,
    channel: int,
)
    requires
        0 < source.width <= u32::MAX,
        0 < source.height <= u32::MAX,
        0 < target.width <= u32::MAX,
        0 < target.height <= u32::MAX,
        0 <= column < target.width,
        0 <= row < target.height,
        0 <= channel < channels <= usize::MAX,
        ({
            let (wn, wd) = visible(mode, source.width, target.width, source.height, target.height);
            let (hn, hd) = visible(mode, source.height, target.height, source.width, target.width);
            forall|x: int, y: int|
                #![trigger near(column, x, source.width, target.width, wn, wd), near(row, y, source.height, target.height, hn, hd)]
                0 <= x < source.width && 0 <= y < source.height && near(
                    column,
                    x,
                    source.width,
                    target.width,
                    wn,
                    wd,
                ) && near(row, y, source.height, target.height, hn, hd) ==> plane[(y * source.width
                    + x) * channels + channel] == other[(y * source.width + x) * channels
                    + channel]
        }),
    ensures
        ({
            let s = crate::scale::sampling(
                source.width,
                source.height,
                target.width,
                target.height,
                channels,
                mode,
            );
            let at = (row * target.width + column) * channels + channel;
            s.scaled(plane)[at] == s.scaled(other)[at]
        }),
{
    let s = crate::scale::sampling(
        source.width,
        source.height,
        target.width,
        target.height,
        channels,
        mode,
    );
    let scale = crate::scale::fill_scale(source.width, source.height, target.width, target.height);
    let across = crate::scale::shown_part(mode, source.width, target.width, scale);
    let down = crate::scale::shown_part(mode, source.height, target.height, scale);
    let (wn, wd) = visible(mode, source.width, target.width, source.height, target.height);
    let (hn, hd) = visible(mode, source.height, target.height, source.width, target.width);
    crate::scale::lemma_sampling_valid(
        source.width,
        source.height,
        target.width,
        target.height,
        channels,
        mode,
    );
    lemma_shown_error(mode, source.width, target.width, source.height, target.height, scale);
    lemma_shown_error(mode, source.height, target.height, source.width, target.width, scale);
    lemma_less_rounding(across, source.width, wn, wd);
    lemma_less_rounding(down, source.height, hn, hd);
    lemma_same_byte(
        s,
        plane,
        other,
        (across, down),
        ((wn, wd), (hn, hd)),
        column,
        row,
        channel,
    );
}

/// The luma of a scaled frame shows at each pixel what lies at its place in the
/// source: two frames that agree there give the same luma, whatever else they hold.
pub proof fn law_scaled_luma_shows_what_lies_there(
    frame: Nv12,
    other: Nv12,
    target: Dims,
    mode: ScaleMode,
    column: int,
    row: int,
)
    requires
        frame.valid(),
        other.valid(),
        frame.size == other.size,
        target.valid(),
        0 <= column < target.width,
        0 <= row < target.height,
        ({
            let size = frame.size;
            let (wn, wd) = visible(mode, size.width, target.width, size.height, target.height);
            let (hn, hd) = visible(mode, size.height, target.height, size.width, target.width);
            forall|x: int, y: int|
                #![trigger near(column, x, size.width, target.width, wn, wd), near(row, y, size.height, target.height, hn, hd)]
                0 <= x < size.width && 0 <= y < size.height && near(
                    column,
                    x,
                    size.width,
                    target.width,
                    wn,
                    wd,
                ) && near(row, y, size.height, target.height, hn, hd) ==> frame.luma[y * size.width
                    + x] == other.luma[y * size.width + x]
        }),
    ensures
        crate::scale::scaled_frame(frame, target, mode).luma[row * target.width + column]
            == crate::scale::scaled_frame(other, target, mode).luma[row * target.width + column],
{
    let size = frame.size;
    let (wn, wd) = visible(mode, size.width, target.width, size.height, target.height);
    let (hn, hd) = visible(mode, size.height, target.height, size.width, target.width);
    if size == target {
        lemma_near_itself(column, size.width, size.height, mode);
        lemma_near_itself(row, size.height, size.width, mode);
        assert(near(column, column, size.width, target.width, wn, wd));
        assert(near(row, row, size.height, target.height, hn, hd));
    } else {
        assert forall|x: int, y: int|
            #![trigger near(column, x, size.width, target.width, wn, wd), near(row, y, size.height, target.height, hn, hd)]
            0 <= x < size.width && 0 <= y < size.height && near(
                column,
                x,
                size.width,
                target.width,
                wn,
                wd,
            ) && near(row, y, size.height, target.height, hn, hd) implies frame.luma[(y
            * size.width + x) * 1 + 0] == other.luma[(y * size.width + x) * 1 + 0] by {
            assert(frame.luma[y * size.width + x] == other.luma[y * size.width + x]);
        }
        law_scaled_planes_show_what_lies_there(
            size,
            target,
            1,
            mode,
            frame.luma,
            other.luma,
            column,
            row,
            0,
        );
    }
}

/// A pixel of a target of the source's own size lies at its own place.
proof fn lemma_near_itself(index: int, len: int, other: int, mode: ScaleMode)
    requires
        0 <= index < len,
        0 < other,
    ensures
        ({
            let (num, den) = visible(mode, len, len, other, other);
            near(index, index, len, len, num, den)
        }),
{
    assert(len * other >= other * len) by (nonlinear_arith);
    assert((len * 1 - len) * len == 0 && (2 * index + 1) * (len * 1) == (2 * index + 1) * len)
        by (nonlinear_arith);
}

/// The chroma of a scaled frame shows the same part of the source as its luma: at
/// each chroma sample what lies there in the chroma plane, where the visible part has
/// half the length that it has in the luma plane, along either axis.
pub proof fn law_scaled_chroma_lies_where_luma_lies(
    frame: Nv12,
    other: Nv12,
    target: Dims,
    mode: ScaleMode,
    column: int,
    row: int,
    channel: int,
)
    requires
        frame.valid(),
        other.valid(),
        frame.size == other.size,
        target.valid(),
        0 <= column < target.width / 2,
        0 <= row < target.height / 2,
        0 <= channel < 2,
        ({
            let size = frame.size;
            let (wn, wd) = visible(mode, size.width, target.width, size.height, target.height);
            let (hn, hd) = visible(mode, size.height, target.height, size.width, target.width);
            let (w, h, tw, th) = (
                size.width / 2,
                size.height / 2,
                target.width / 2,
                target.height / 2,
            );
            forall|x: int, y: int|
                #![trigger near(column, x, w, tw, wn, 2 * wd), near(row, y, h, th, hn, 2 * hd)]
                0 <= x < w && 0 <= y < h && near(column, x, w, tw, wn, 2 * wd) && near(
                    row,
                    y,
                    h,
                    th,
                    hn,
                    2 * hd,
                ) ==> frame.chroma[(y * w + x) * 2 + channel] == other.chroma[(y * w + x) * 2
                    + channel]
        }),
    ensures
        ({
            let at = (row * (target.width / 2) + column) * 2 + channel;
            crate::scale::scaled_frame(frame, target, mode).chroma[at]
                == crate::scale::scaled_frame(other, target, mode).chroma[at]
        }),
{
    let size = frame.size;
    let (wn, wd) = visible(mode, size.width, target.width, size.height, target.height);
    let (hn, hd) = visible(mode, size.height, target.height, size.width, target.width);
    let (w, h, tw, th) = (size.width / 2, size.height / 2, target.width / 2, target.height / 2);
    if size == target {
        lemma_half_near_itself(column, size.width, size.height, mode);
        lemma_half_near_itself(row, size.height, size.width, mode);
        assert(near(column, column, w, tw, wn, 2 * wd));
        assert(near(row, row, h, th, hn, 2 * hd));
    } else {
        let scale = crate::scale::fill_scale(size.width, size.height, target.width, target.height);
        let across = crate::scale::shown_part(mode, size.width, target.width, scale);
        let down = crate::scale::shown_part(mode, size.height, target.height, scale);
        lemma_shown_error(mode, size.width, target.width, size.height, target.height, scale);
        lemma_shown_error(mode, size.height, target.height, size.width, target.width, scale);
        lemma_halved_shown(across, size.width, wn, wd);
        lemma_halved_shown(down, size.height, hn, hd);
        crate::scale::lemma_chroma_sampling_valid(size, target, mode);
        lemma_same_byte(
            crate::scale::chroma_sampling(size, target, mode),
            frame.chroma,
            other.chroma,
            (crate::scale::halved(across), crate::scale::halved(down)),
            ((wn, 2 * wd), (hn, 2 * hd)),
            column,
            row,
            channel,
        );
    }
}

/// A chroma sample of a target of the source's own size lies at its own place.
proof fn lemma_half_near_itself(index: int, len: int, other: int, mode: ScaleMode)
    requires
        0 <= index < len / 2,
        len % 2 == 0,
        0 < other,
    ensures
        ({
            let (num, den) = visible(mode, len, len, other, other);
            near(index, index, len / 2, len / 2, num, 2 * den)
        }),
{
    let half = len / 2;
    assert(len * other >= other * len) by (nonlinear_arith);
    assert((half * 2 - len) * half == 0 && (2 * index + 1) * (half * 2) == (2 * index + 1) * len)
        by (nonlinear_arith)
        requires
            len == 2 * half,
    ;
}

/// Neighbouring pixels of a plane that is scaled up are sampled no more than about a
/// pixel apart.
pub proof fn lemma_taps_follow(index: int, source_len: int, target_len: int)
    requires
        0 <= index,
        index + 1 < target_len <= u32::MAX,
        0 < source_len <= target_len,
    ensures
        ({
            let shown = Shown { start: 0, length: source_len * FINE };
            let (first, second) = (
                crate::scale::tap(index, source_len, target_len, shown),
                crate::scale::tap(index + 1, source_len, target_len, shown),
            );
            -257 <= second - first <= 257
        }),
{
    let (f, s, t) = (FINE as int, source_len, target_len);
    let shown = Shown { start: 0, length: s * f };
    assert(0 <= s * f) by (nonlinear_arith)
        requires
            0 < s,
            0 < f,
    ;
    assert((s * f) * 1 == s * f);
    assert(half_in_the_middle(shown, s, s, 1));
    lemma_centre_error(index, s, t, shown, s, 1);
    lemma_centre_error(index + 1, s, t, shown, s, 1);
    let (a, b) = (raw_centre(index, t, shown), raw_centre(index + 1, t, shown));
    let g = f / 0x2000;
    let (p, q) = ((2 * index + 1) * s, (2 * (index + 1) + 1) * s);
    assert(q == p + 2 * s) by (nonlinear_arith)
        requires
            p == (2 * index + 1) * s,
            q == (2 * (index + 1) + 1) * s,
    ;
    assert((s * 1 - s) * t == 0) by (nonlinear_arith);
    let grid = t * 1;
    assert(-(2 * g) <= b - a <= f + 2 * g) by (nonlinear_arith)
        requires
            p * f - 2 * (grid * g) <= (2 * grid) * a + grid * f,
            (2 * grid) * a + grid * f <= p * f + 2 * (grid * g),
            q * f - 2 * (grid * g) <= (2 * grid) * b + grid * f,
            (2 * grid) * b + grid * f <= q * f + 2 * (grid * g),
            q == p + 2 * s,
            0 < s <= grid,
            0 < f,
    {
        assert(q * f == p * f + 2 * (s * f));
        assert(0 <= s * f <= grid * f);
        assert((2 * grid) * (b - a) == (2 * grid) * b - (2 * grid) * a);
        assert((2 * grid) * (b - a) <= 2 * (s * f) + 4 * (grid * g));
        assert((2 * grid) * (b - a) >= -(4 * (grid * g)));
        assert((2 * grid) * (f + 2 * g - (b - a)) >= 0);
        assert((2 * grid) * (b - a + 2 * g) >= 0);
    }
    let (c, d) = (
        crate::scale::centre(index, s, t, shown),
        crate::scale::centre(index + 1, s, t, shown),
    );
    assert(0 <= (s - 1) * f) by (nonlinear_arith)
        requires
            0 < s,
            0 < f,
    ;
    assert(-(2 * g) <= d - c <= f + 2 * g);
    lemma_tap_bounds(index, s, t, shown);
    lemma_tap_bounds(index + 1, s, t, shown);
    let (first, second) = (
        crate::scale::tap(index, s, t, shown),
        crate::scale::tap(index + 1, s, t, shown),
    );
    assert(-257 <= second - first <= 257) by (nonlinear_arith)
        requires
            2 * (f * first) <= 512 * c + f < 2 * (f * first) + 2 * f,
            2 * (f * second) <= 512 * d + f < 2 * (f * second) + 2 * f,
            -(2 * g) <= d - c <= f + 2 * g,
            f == 0x2000 * g,
            0 < g,
    {
        assert(f * (second - first) == f * second - f * first);
        assert(2 * (f * (second - first)) < 516 * f);
        assert(2 * (f * (second - first)) > -(516 * f));
    }
}

pub proof fn lemma_tap_bounds(index: int, source_len: int, target_len: int, shown: Shown)
    ensures
        ({
            let f = FINE as int;
            let c = crate::scale::centre(index, source_len, target_len, shown);
            let q = crate::scale::tap(index, source_len, target_len, shown);
            2 * (f * q) <= 512 * c + f < 2 * (f * q) + 2 * f
        }),
{
    let f = FINE as int;
    let c = crate::scale::centre(index, source_len, target_len, shown);
    let q = crate::scale::tap(index, source_len, target_len, shown);
    vstd::arithmetic::div_mod::lemma_fundamental_div_mod(512 * c + f, 2 * f);
    assert(2 * (f * q) <= 512 * c + f < 2 * (f * q) + 2 * f) by (nonlinear_arith)
        requires
            512 * c + f == (2 * f) * q + (512 * c + f) % (2 * f),
            0 <= (512 * c + f) % (2 * f) < 2 * f,
    ;
}

/// The pixels that have a part in a pixel of a stretched plane lie near it.
pub proof fn lemma_near_taps(s: Sampling, column: int, row: int)
    requires
        s.valid(),
        s == crate::scale::sampling(
            s.source_width,
            s.source_height,
            s.target_width,
            s.target_height,
            s.channels,
            ScaleMode::Stretch,
        ),
        0 <= column < s.target_width,
        0 <= row < s.target_height,
    ensures
        forall|x: int|
            -256 < 256 * x - s.columns[column] < 256 ==> #[trigger] near(
                column,
                x,
                s.source_width,
                s.target_width,
                s.source_width,
                1,
            ),
        forall|y: int|
            -256 < 256 * y - s.rows[row] < 256 ==> #[trigger] near(
                row,
                y,
                s.source_height,
                s.target_height,
                s.source_height,
                1,
            ),
{
    let scale = crate::scale::fill_scale(
        s.source_width,
        s.source_height,
        s.target_width,
        s.target_height,
    );
    let across = crate::scale::shown_part(
        ScaleMode::Stretch,
        s.source_width,
        s.target_width,
        scale,
    );
    let down = crate::scale::shown_part(
        ScaleMode::Stretch,
        s.source_height,
        s.target_height,
        scale,
    );
    lemma_shown_error(
        ScaleMode::Stretch,
        s.source_width,
        s.target_width,
        s.source_height,
        s.target_height,
        scale,
    );
    lemma_shown_error(
        ScaleMode::Stretch,
        s.source_height,
        s.target_height,
        s.source_width,
        s.target_width,
        scale,
    );
    lemma_less_rounding(across, s.source_width, s.source_width, 1);
    lemma_less_rounding(down, s.source_height, s.source_height, 1);
    assert forall|x: int| -256 < 256 * x - s.columns[column] < 256 implies #[trigger] near(
        column,
        x,
        s.source_width,
        s.target_width,
        s.source_width,
        1,
    ) by {
        lemma_tap_near(column, x, s.source_width, s.target_width, across, s.source_width, 1);
    }
    assert forall|y: int| -256 < 256 * y - s.rows[row] < 256 implies #[trigger] near(
        row,
        y,
        s.source_height,
        s.target_height,
        s.source_height,
        1,
    ) by {
        lemma_tap_near(row, y, s.source_height, s.target_height, down, s.source_height, 1);
    }
}

} // verus!
