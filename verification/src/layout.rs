//! Layout of the reports: order-statistic positions, table rules and banners
//! of the console tables, and fitting names into a given width.

use vstd::prelude::*;
use crate::text::{chars_of, pad_right, padded_right, push_chars, push_char, push_repeated, repeat_seq};

verus! {

// ───────────── order statistics ─────────────

/// Positions, in the sorted samples, of the statistics a report shows.
#[derive(Debug, Clone, Copy, PartialEq, Eq, Structural)]
pub struct OrderStats {
    /// The lower of the two middle samples (the middle one for an odd count).
    pub median_low: usize,
    /// The upper of the two middle samples (the middle one for an odd count).
    pub median_high: usize,
    /// The 95th percentile by nearest rank: round(0.95 × (n − 1)), halves up.
    pub p95: usize,
    /// The largest sample.
    pub max: usize,
}

/// The nearest-rank position of the 95th percentile among `n` sorted samples.
pub open spec fn p95_rank(n: int) -> int {
    (95 * (n - 1) + 50) / 100
}

proof fn lemma_p95_rank(m: int, q: int, r: int)
    by (nonlinear_arith)
    requires
        m >= 0,
        m + 9 == 20 * q + r,
        0 <= r < 20,
    ensures
        (95 * m + 50) / 100 == m - q,
        (m + 1) / 2 <= m - q,
{
}

/// The 95th-percentile position is the nearest rank to 0.95 × (n − 1), a half
/// rounded up: 0.95 × (n − 1) lies within half a position below it, or less
/// than half a position above it. This holds for every number of samples.
pub proof fn lemma_p95_is_the_nearest_rank(n: int)
    requires
        n >= 1,
    ensures
        20 * p95_rank(n) <= 19 * (n - 1) + 10 < 20 * p95_rank(n) + 20,
{
    let x = 95 * (n - 1) + 50;
    vstd::arithmetic::div_mod::lemma_fundamental_div_mod(x, 100);
    assert(0 <= x % 100 < 100) by {
        vstd::arithmetic::div_mod::lemma_mod_bound(x, 100);
    }
}

/// The positions of the median's samples, of the 95th percentile and of the
/// maximum among `n` sorted samples; none for no samples. The percentile never
/// lies below the median nor above the maximum.
pub fn order_stat_indices(n: usize) -> (r: Option<OrderStats>)
    ensures
        n == 0 <==> r is None,
        r matches Some(s) ==> {
            &&& s.max == n - 1
            &&& s.median_high == n / 2
            &&& s.median_low == (if n % 2 == 0 {
                n / 2 - 1
            } else {
                (n / 2) as int
            })
            &&& s.p95 == p95_rank(n as int)
            &&& 20 * s.p95 <= 19 * (n - 1) + 10 < 20 * s.p95 + 20
            &&& s.median_low <= s.median_high <= s.p95 <= s.max
        },
{
    if n == 0 {
        return None;
    }
    let m = n - 1;
    let q = m / 20 + (m % 20 + 9) / 20;
    proof {
        let r = (m + 9) - 20 * q;
        assert(m == 20 * (m / 20) + m % 20);
        assert(0 <= r < 20);
        lemma_p95_rank(m as int, q as int, r);
        lemma_p95_is_the_nearest_rank(n as int);
    }
    let median_low = if n % 2 == 0 {
        n / 2 - 1
    } else {
        n / 2
    };
    Some(OrderStats { median_low, median_high: n / 2, p95: m - q, max: m })
}

// ───────────── console tables ─────────────

/// Width of the metric-name column of the run table.
pub const COL_M: usize = 22;

/// Width of a value column of the run table.
pub const COL_V: usize = 11;

/// Inner width of the run table, between its outer borders.
pub const TABLE_W: usize = 94;

/// Horizontal segments of the given widths, separated by `mid`.
pub open spec fn segments(mid: Seq<char>, widths: Seq<usize>) -> Seq<char>
    decreases widths.len(),
{
    if widths.len() == 0 {
        Seq::<char>::empty()
    } else {
        segments(mid, widths.drop_last()) + (if widths.len() > 1 {
            mid
        } else {
            Seq::<char>::empty()
        }) + repeat_seq("─"@, widths.last() as nat)
    }
}

/// A horizontal rule of a table: `left`, the column segments joined by `mid`,
/// then `right`.
pub open spec fn rule_text(left: Seq<char>, mid: Seq<char>, right: Seq<char>, widths: Seq<usize>) -> Seq<char> {
    left + segments(mid, widths) + right
}

/// Draws a rule over columns of the given widths.
pub fn table_rule(left: &str, mid: &str, right: &str, widths: &[usize]) -> (r: String)
    ensures
        r@ == rule_text(left@, mid@, right@, widths@),
{
    let mut r = String::from_str(left);
    let mut i: usize = 0;
    assert(widths@.take(0) =~= Seq::<usize>::empty());
    while i < widths.len()
        invariant
            i <= widths@.len(),
            r@ == left@ + segments(mid@, widths@.take(i as int)),
        decreases widths@.len() - i,
    {
        if i > 0 {
            r.append(mid);
        }
        push_repeated(&mut r, "─", widths[i]);
        assert(widths@.take(i + 1).drop_last() =~= widths@.take(i as int));
        i += 1;
    }
    assert(widths@.take(widths@.len() as int) =~= widths@);
    r.append(right);
    r
}

/// A rule of the run table: the metric column and five value columns.
pub fn rule(left: &str, mid: &str, right: &str) -> (r: String)
    ensures
        r@ == rule_text(left@, mid@, right@, seq![24usize, 13usize, 13usize, 13usize, 13usize, 13usize]),
{
    let widths: [usize; 6] = [COL_M + 2, COL_V + 2, COL_V + 2, COL_V + 2, COL_V + 2, COL_V + 2];
    assert(widths@ =~= seq![24usize, 13usize, 13usize, 13usize, 13usize, 13usize]);
    table_rule(left, mid, right, &widths)
}

/// A rule of the comparison table: metric, two versions, difference, percent.
pub fn comparison_rule(left: &str, mid: &str, right: &str) -> (r: String)
    ensures
        r@ == rule_text(left@, mid@, right@, seq![24usize, 17usize, 17usize, 15usize, 12usize]),
{
    let widths: [usize; 5] = [24, 17, 17, 15, 12];
    assert(widths@ =~= seq![24usize, 17usize, 17usize, 15usize, 12usize]);
    table_rule(left, mid, right, &widths)
}

/// A full-width horizontal border of the run table.
pub fn banner(left: &str, right: &str) -> (r: String)
    ensures
        r@ == left@ + repeat_seq("─"@, TABLE_W as nat) + right@,
{
    let mut r = String::from_str(left);
    push_repeated(&mut r, "─", TABLE_W);
    r.append(right);
    r
}

/// A text line inside a frame of the given inner width: `│`, a space, the
/// text left-aligned to the width, `│`.
pub open spec fn framed_text(text: Seq<char>, width: nat) -> Seq<char> {
    "│"@ + pad_right(" "@ + text, width) + "│"@
}

/// A framed text line of the given inner width.
pub fn framed_row(text: &str, width: usize) -> (r: String)
    ensures
        r@ == framed_text(text@, width as nat),
{
    let mut inner = String::from_str(" ");
    inner.append(text);
    let body = padded_right(inner.as_str(), width);
    let mut r = String::from_str("│");
    r.append(body.as_str());
    r.append("│");
    r
}

/// A text line of the run table's banner.
pub fn banner_row(text: &str) -> (r: String)
    ensures
        r@ == framed_text(text@, TABLE_W as nat),
{
    framed_row(text, TABLE_W)
}

// ───────────── names that must fit ─────────────

/// The ellipsis that marks a cut name.
pub open spec fn ellipsis() -> char {
    '\u{2026}'
}

/// The first `k` characters of a text followed by an ellipsis.
pub open spec fn ellipsized(text: Seq<char>, k: int) -> Seq<char> {
    text.take(k).push(ellipsis())
}

/// A name cut to at most `max` characters (`truncate`): a name that fits is
/// left alone, a longer one keeps its first `max − 1` characters and gets an
/// ellipsis.
pub open spec fn truncated(name: Seq<char>, max: nat) -> Seq<char> {
    if name.len() <= max {
        name
    } else if max == 0 {
        ellipsized(name, 0)
    } else {
        ellipsized(name, max - 1)
    }
}

/// Cuts a name to at most `max` characters (not bytes), marking the cut.
pub fn truncate(name: &str, max: usize) -> (r: String)
    ensures
        r@ == truncated(name@, max as nat),
        max > 0 ==> r@.len() <= max,
        name@.len() <= max ==> r@ == name@,
{
    let chars = chars_of(name);
    if chars.len() <= max {
        return String::from_str(name);
    }
    let keep: usize = if max == 0 {
        0
    } else {
        max - 1
    };
    let mut r = String::new();
    push_chars(&mut r, &chars.as_slice()[0..keep]);
    push_char(&mut r, '\u{2026}');
    assert(r@ =~= ellipsized(name@, keep as int));
    r
}

/// Some measurement of a string with these characters gave at most `max_w`.
pub open spec fn measured_within<F: Fn(&str) -> u32>(width: F, t: Seq<char>, max_w: u32) -> bool {
    exists|s: &str, w: u32| #![trigger call_ensures(width, (s,), w)] s@ == t && call_ensures(width, (s,), w) && w <= max_w
}

/// Some measurement of a string with these characters gave more than `max_w`.
pub open spec fn measured_beyond<F: Fn(&str) -> u32>(width: F, t: Seq<char>, max_w: u32) -> bool {
    exists|s: &str, w: u32| #![trigger call_ensures(width, (s,), w)] s@ == t && call_ensures(width, (s,), w) && w > max_w
}

/// What fitting a text into `max_w` gives: the text itself, measured to fit;
/// or, when the text was measured too wide, its first `k` characters with an
/// ellipsis, measured to fit, where the cut one character longer was measured
/// too wide (or would be the whole text); or, when even the bare ellipsis was
/// measured too wide, nothing at all.
pub open spec fn fit_result<F: Fn(&str) -> u32>(text: Seq<char>, r: Seq<char>, max_w: u32, width: F) -> bool {
    ||| r == text && measured_within(width, text, max_w)
    ||| exists|k: int|
        #![trigger ellipsized(text, k)]
        0 <= k <= text.len() && r == ellipsized(text, k) && measured_beyond(width, text, max_w)
            && measured_within(width, ellipsized(text, k), max_w)
            && (k == text.len() || measured_beyond(width, ellipsized(text, k + 1), max_w))
    ||| r.len() == 0 && measured_beyond(width, text, max_w) && measured_beyond(width, ellipsized(text, 0), max_w)
        && (text.len() == 0 || measured_beyond(width, ellipsized(text, 1), max_w))
}

fn ellipsized_string(chars: &Vec<char>, k: usize) -> (r: String)
    requires
        k <= chars@.len(),
    ensures
        r@ == ellipsized(chars@, k as int),
{
    let mut r = String::new();
    push_chars(&mut r, &chars.as_slice()[0..k]);
    push_char(&mut r, '\u{2026}');
    assert(r@ =~= ellipsized(chars@, k as int));
    r
}

/// Cuts a text so that it measures at most `max_w` by `width` (pixels, in the
/// reports). The longest fitting cut is searched by halving, which finds it
/// when width grows with the number of characters; when not even the ellipsis
/// fits, nothing is left.
pub fn fit_to_width<F: Fn(&str) -> u32>(text: &str, max_w: u32, width: &F) -> (r: String)
    requires
        forall|s: &str| call_requires(*width, (s,)),
    ensures
        fit_result(text@, r@, max_w, *width),
{
    let whole = width(text);
    if whole <= max_w {
        assert(measured_within(*width, text@, max_w));
        return String::from_str(text);
    }
    assert(measured_beyond(*width, text@, max_w));
    let chars = chars_of(text);
    let n = chars.len();
    let mut lo: usize = 0;
    let mut hi: usize = n;
    while lo < hi
        invariant
            lo <= hi <= n,
            n == chars@.len(),
            chars@ == text@,
            forall|s: &str| call_requires(*width, (s,)),
            lo == 0 || measured_within(*width, ellipsized(text@, lo as int), max_w),
            hi == n || measured_beyond(*width, ellipsized(text@, hi + 1), max_w),
        decreases hi - lo,
    {
        let mid = lo + (hi - lo) / 2 + (hi - lo) % 2;
        let candidate = ellipsized_string(&chars, mid);
        let s = candidate.as_str();
        let w = width(s);
        if w <= max_w {
            assert(measured_within(*width, ellipsized(text@, mid as int), max_w));
            lo = mid;
        } else {
            assert(measured_beyond(*width, ellipsized(text@, mid as int), max_w));
            hi = mid - 1;
        }
    }
    let r = ellipsized_string(&chars, lo);
    if lo == 0 {
        let s = r.as_str();
        let w = width(s);
        if w > max_w {
            assert(measured_beyond(*width, ellipsized(text@, 0), max_w));
            let empty = String::new();
            assert(fit_result(text@, empty@, max_w, *width));
            return empty;
        }
        assert(measured_within(*width, ellipsized(text@, 0), max_w));
    }
    assert(r@ == ellipsized(text@, lo as int));
    r
}

/// Distance of the header text from the canvas's left edge; as much is kept
/// free on the right.
pub const HEADER_PAD: i32 = 28;

/// `t` is a cut of `text`: some of its first characters and the ellipsis.
pub open spec fn is_cut_of(text: Seq<char>, t: Seq<char>) -> bool {
    1 <= t.len() <= text.len() + 1 && t == ellipsized(text, t.len() - 1)
}

/// Measured widths of the cuts of `text` never shrink as the cuts get longer.
pub open spec fn grows_with_cut<F: Fn(&str) -> u32>(width: F, text: Seq<char>) -> bool {
    forall|s1: &str, s2: &str, w1: u32, w2: u32|
        #![trigger call_ensures(width, (s1,), w1), call_ensures(width, (s2,), w2)]
        call_ensures(width, (s1,), w1) && call_ensures(width, (s2,), w2) && is_cut_of(text, s1@)
            && is_cut_of(text, s2@) && s1@.len() <= s2@.len() ==> w1 <= w2
}

/// When widths grow with the cut, a cut text is the longest cut that fits:
/// every longer cut measures more than the limit.
pub proof fn lemma_fitted_cut_is_the_longest<F: Fn(&str) -> u32>(
    text: Seq<char>,
    r: Seq<char>,
    max_w: u32,
    width: F,
)
    requires
        fit_result(text, r, max_w, width),
        r != text,
        grows_with_cut(width, text),
    ensures
        forall|s: &str, w: u32|
            #![trigger call_ensures(width, (s,), w)]
            call_ensures(width, (s,), w) && is_cut_of(text, s@) && s@.len() > r.len() ==> w > max_w,
{
    if r.len() == 0 && measured_beyond(width, ellipsized(text, 0), max_w) {
        let (s0, w0) = choose|s0: &str, w0: u32|
            #![trigger call_ensures(width, (s0,), w0)]
            s0@ == ellipsized(text, 0) && call_ensures(width, (s0,), w0) && w0 > max_w;
        assert(is_cut_of(text, s0@));
        assert forall|s: &str, w: u32|
            #![trigger call_ensures(width, (s,), w)]
            call_ensures(width, (s,), w) && is_cut_of(text, s@) && s@.len() > r.len() implies w > max_w by {
            assert(w0 <= w);
        }
    } else {
        let k = choose|k: int|
            #![trigger ellipsized(text, k)]
            0 <= k <= text.len() && r == ellipsized(text, k) && measured_beyond(width, text, max_w)
                && measured_within(width, ellipsized(text, k), max_w)
                && (k == text.len() || measured_beyond(width, ellipsized(text, k + 1), max_w));
        assert(r.len() == k + 1);
        assert forall|s: &str, w: u32|
            #![trigger call_ensures(width, (s,), w)]
            call_ensures(width, (s,), w) && is_cut_of(text, s@) && s@.len() > r.len() implies w > max_w by {
            if k < text.len() {
                let (s0, w0) = choose|s0: &str, w0: u32|
                    #![trigger call_ensures(width, (s0,), w0)]
                    s0@ == ellipsized(text, k + 1) && call_ensures(width, (s0,), w0) && w0 > max_w;
                assert(is_cut_of(text, s0@));
                assert(w0 <= w);
            }
        }
    }
}

/// Separator between the fixed part of a header and the names.
pub const HEADER_DASH: &'static str = "  —  ";

/// Separator between two names in a comparison header.
pub const HEADER_VS: &'static str = "  vs  ";

/// Parts joined by a separator.
pub open spec fn joined_with(parts: Seq<Seq<char>>, sep: Seq<char>) -> Seq<char>
    decreases parts.len(),
{
    if parts.len() == 0 {
        Seq::<char>::empty()
    } else if parts.len() == 1 {
        parts[0]
    } else {
        joined_with(parts.drop_last(), sep) + sep + parts.last()
    }
}

/// The fixed part of a header with `n` names: the prefix, the dash, and one
/// `vs` between each two names.
pub open spec fn header_skeleton(prefix: Seq<char>, n: nat) -> Seq<char> {
    prefix + "  —  "@ + repeat_seq("  vs  "@, if n > 0 {
        (n - 1) as nat
    } else {
        0nat
    })
}

/// The characters of each name.
pub open spec fn name_texts(names: Seq<&str>) -> Seq<Seq<char>> {
    names.map_values(|s: &str| s@)
}

/// The width each name gets: what the fixed part, measured `fixed` wide,
/// leaves of `max_w`, shared equally among `n` names (at least one share).
pub open spec fn name_share(fixed: u32, max_w: u32, n: nat) -> int {
    let room: int = if fixed < max_w {
        max_w - fixed
    } else {
        0
    };
    let count: int = if n == 0 {
        1
    } else if n > u32::MAX {
        u32::MAX as int
    } else {
        n as int
    };
    room / count
}

/// Some measurement of a string with these characters gave exactly `w`.
pub open spec fn measured_as<F: Fn(&str) -> u32>(width: F, t: Seq<char>, w: u32) -> bool {
    exists|s: &str| #![trigger call_ensures(width, (s,), w)] s@ == t && call_ensures(width, (s,), w)
}

/// A header title `r` assembled from names each fitted into the share that
/// the fixed part, measured `fixed` wide, leaves them.
pub open spec fn header_from<F: Fn(&str) -> u32>(
    prefix: Seq<char>,
    names: Seq<Seq<char>>,
    fixed: u32,
    fitted: Seq<Seq<char>>,
    r: Seq<char>,
    max_w: u32,
    width: F,
) -> bool {
    &&& measured_as(width, header_skeleton(prefix, names.len()), fixed)
    &&& fitted.len() == names.len()
    &&& forall|i: int|
        0 <= i < names.len() ==> fit_result(
            names[i],
            #[trigger] fitted[i],
            name_share(fixed, max_w, names.len()) as u32,
            width,
        )
    &&& fit_result(prefix + "  —  "@ + joined_with(fitted, "  vs  "@), r, max_w, width)
}

/// Builds a header title that fits `max_w`: the fixed part is measured first,
/// the rest is shared equally among the names (each cut to its share), and the
/// assembled title is then fitted as a whole, for canvases too narrow even for
/// the fixed part.
pub fn header_title<F: Fn(&str) -> u32>(prefix: &str, names: &[&str], max_w: u32, width: &F) -> (r: String)
    requires
        forall|s: &str| call_requires(*width, (s,)),
    ensures
        exists|fixed: u32, fitted: Seq<Seq<char>>|
            #[trigger] header_from(prefix@, name_texts(names@), fixed, fitted, r@, max_w, *width),
{
    let n = names.len();
    let mut skeleton = String::from_str(prefix);
    skeleton.append(HEADER_DASH);
    if n > 1 {
        push_repeated(&mut skeleton, HEADER_VS, n - 1);
    }
    proof {
        if n <= 1 {
            assert(repeat_seq("  vs  "@, 0) =~= Seq::<char>::empty());
            assert(skeleton@ =~= header_skeleton(prefix@, n as nat));
        }
    }
    assert(skeleton@ == header_skeleton(prefix@, names@.len()));
    let sk = skeleton.as_str();
    let fixed = width(sk);
    assert(measured_as(*width, header_skeleton(prefix@, names@.len()), fixed));
    let room: u32 = if fixed < max_w {
        max_w - fixed
    } else {
        0
    };
    let count: u32 = if n == 0 {
        1
    } else if n > 0xffff_ffff {
        0xffff_ffff
    } else {
        n as u32
    };
    let share = room / count;
    assert(share as int == name_share(fixed, max_w, n as nat));
    let mut title = String::from_str(prefix);
    title.append(HEADER_DASH);
    let ghost mut fitted: Seq<Seq<char>> = Seq::empty();
    let mut i: usize = 0;
    while i < n
        invariant
            i <= n,
            n == names@.len(),
            fitted.len() == i,
            forall|s: &str| call_requires(*width, (s,)),
            forall|j: int| 0 <= j < i ==> fit_result(names@[j]@, #[trigger] fitted[j], share, *width),
            title@ == prefix@ + "  —  "@ + joined_with(fitted, "  vs  "@),
        decreases n - i,
    {
        let part = fit_to_width(names[i], share, width);
        if i > 0 {
            title.append(HEADER_VS);
        }
        title.append(part.as_str());
        proof {
            let old_fitted = fitted;
            fitted = fitted.push(part@);
            assert(fitted.drop_last() =~= old_fitted);
            if i == 0 {
                assert(joined_with(old_fitted, "  vs  "@) =~= Seq::<char>::empty());
            }
        }
        i += 1;
    }
    let r = fit_to_width(title.as_str(), max_w, width);
    assert(header_from(prefix@, name_texts(names@), fixed, fitted, r@, max_w, *width));
    r
}

} // verus!
