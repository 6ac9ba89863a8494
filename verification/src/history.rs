//! Regressions against recorded runs: which values of a run are trended, and
//! whether a value stands out from those of earlier runs. The spread is measured by
//! the median absolute deviation, so that one outlier does not hide a regression.
use crate::float::{self, Double};
use crate::snapshot::AggValues;
use crate::summary::{MetricSummary, Summary};
use crate::tags;
use crate::text;
use vstd::prelude::*;
use vstd::relations::{sorted_by, total_ordering};

verus! {

/// The bits of 2.
pub const TWO: u64 = 0x4000_0000_0000_0000;

/// The bits of 1.1, a tenth above.
pub const TENTH_ABOVE: u64 = 0x3ff1_9999_9999_999a;

/// The bits of 0.9, a tenth below.
pub const TENTH_BELOW: u64 = 0x3fec_cccc_cccc_cccd;

/// The bits of 0.6745, which scales the deviation to a standard score.
pub const SCALE: u64 = 0x3fe5_9581_0624_dd2f;

/// The bits of 3.5, the score from which a value stands out.
pub const OUTLIER: u64 = 0x400c_0000_0000_0000;

/// The bits of -3.5.
pub const LOW_OUTLIER: u64 = 0xc00c_0000_0000_0000;

/// The number of earlier runs from which the spread is trusted.
pub const ENOUGH_RUNS: usize = 5;

/// Whether none of the values is "not a number".
pub open spec fn all_numbers(xs: Seq<Double>) -> bool {
    forall|i: int| 0 <= i < xs.len() ==> !float::is_nan((#[trigger] xs[i]).bits)
}

/// Whether all values are finite.
pub open spec fn all_finite(xs: Seq<Double>) -> bool {
    forall|i: int| 0 <= i < xs.len() ==> float::is_finite((#[trigger] xs[i]).bits)
}

/// The position of the first value at or after `from` that is greater than `x`.
pub open spec fn place(xs: Seq<Double>, x: Double, from: int) -> int
    decreases xs.len() - from,
{
    if from < 0 || from >= xs.len() {
        xs.len() as int
    } else if float::less(x.bits, xs[from].bits) {
        from
    } else {
        place(xs, x, from + 1)
    }
}

/// The first `n` values in order, equal ones as they came.
pub open spec fn in_order(xs: Seq<Double>, n: int) -> Seq<Double>
    decreases n,
{
    if n <= 0 {
        Seq::empty()
    } else {
        let earlier = in_order(xs, n - 1);
        earlier.insert(place(earlier, xs[n - 1], 0), xs[n - 1])
    }
}

proof fn lemma_place(xs: Seq<Double>, x: Double, from: int)
    requires
        0 <= from <= xs.len(),
    ensures
        from <= place(xs, x, from) <= xs.len(),
        place(xs, x, from) < xs.len() ==> float::less(x.bits, xs[place(xs, x, from)].bits),
        forall|k: int|
            from <= k < place(xs, x, from) ==> !float::less(x.bits, (#[trigger] xs[k]).bits),
    decreases xs.len() - from,
{
    if from < xs.len() && !float::less(x.bits, xs[from].bits) {
        lemma_place(xs, x, from + 1);
    }
}

/// Whether the values go up or stay.
pub open spec fn goes_up(xs: Seq<Double>) -> bool {
    forall|i: int, j: int|
        0 <= i < j < xs.len() ==> !float::less((#[trigger] xs[j]).bits, (#[trigger] xs[i]).bits)
}

/// Putting values in order keeps each of them as often as it occurs, and they go up.
pub proof fn ordering_is_a_sort(xs: Seq<Double>, n: int)
    requires
        0 <= n <= xs.len(),
        all_numbers(xs),
    ensures
        in_order(xs, n).len() == n,
        goes_up(in_order(xs, n)),
        in_order(xs, n).to_multiset() == xs.take(n).to_multiset(),
        all_numbers(in_order(xs, n)),
    decreases n,
{
    if n > 0 {
        ordering_is_a_sort(xs, n - 1);
        let earlier = in_order(xs, n - 1);
        let x = xs[n - 1];
        let at = place(earlier, x, 0);
        lemma_place(earlier, x, 0);
        vstd::seq_lib::to_multiset_insert(earlier, at, x);
        vstd::seq_lib::to_multiset_build(xs.take(n - 1), x);
        assert(xs.take(n) =~= xs.take(n - 1).push(x));
        let after = in_order(xs, n);
        assert forall|i: int| 0 <= i < after.len() implies !float::is_nan(
            (#[trigger] after[i]).bits,
        ) by {
            if i < at {
                assert(after[i] == earlier[i]);
            } else if i > at {
                assert(after[i] == earlier[i - 1]);
            }
        }
        assert forall|i: int, j: int| 0 <= i < j < after.len() implies !float::less(
            (#[trigger] after[j]).bits,
            (#[trigger] after[i]).bits,
        ) by {
            if j < at {
                assert(after[i] == earlier[i] && after[j] == earlier[j]);
            } else if j == at {
                assert(after[i] == earlier[i]);
                assert(!float::less(x.bits, earlier[i].bits));
            } else {
                assert(after[j] == earlier[j - 1]);
                if i < at {
                    assert(after[i] == earlier[i]);
                } else if i > at {
                    assert(after[i] == earlier[i - 1]);
                } else if j - 1 > at {
                    assert(!float::less(earlier[j - 1].bits, earlier[at].bits));
                }
            }
        }
    } else {
        assert(xs.take(0) =~= Seq::empty());
    }
}

fn sort(xs: &Vec<Double>) -> (out: Vec<Double>)
    ensures
        out@ == in_order(xs@, xs@.len() as int),
        out@.len() == xs@.len(),
        all_finite(xs@) ==> all_finite(out@),
{
    let mut out: Vec<Double> = Vec::new();
    let mut i: usize = 0;
    while i < xs.len()
        invariant
            i <= xs@.len(),
            out@.len() == i,
            out@ == in_order(xs@, i as int),
            all_finite(xs@) ==> all_finite(out@),
        decreases xs@.len() - i,
    {
        let x = xs[i];
        let ghost earlier = out@;
        let mut k: usize = 0;
        while k < out.len() && !x.is_less(out[k])
            invariant
                k <= out@.len(),
                out@ == earlier,
                place(earlier, x, 0) == place(earlier, x, k as int),
            decreases out@.len() - k,
        {
            k += 1;
        }
        out.insert(k, x);
        proof {
            if all_finite(xs@) {
                assert forall|j: int| 0 <= j < out@.len() implies float::is_finite(
                    (#[trigger] out@[j]).bits,
                ) by {
                    if j < k {
                        assert(out@[j] == earlier[j]);
                    } else if j > k {
                        assert(out@[j] == earlier[j - 1]);
                    }
                }
            }
        }
        i += 1;
    }
    out
}

/// The median: the middle value, or half the sum of the two in the middle; zero for
/// no values.
pub open spec fn median_of(xs: Seq<Double>) -> u64 {
    let n = xs.len() as int;
    let sorted = in_order(xs, n);
    if n == 0 {
        0
    } else if n % 2 == 1 {
        sorted[n / 2].bits
    } else {
        float::over(float::plus(sorted[n / 2 - 1].bits, sorted[n / 2].bits), TWO)
    }
}

/// Whether values can be put in order: all of them are numbers, or none is.
pub open spec fn orderly(xs: Seq<Double>) -> bool {
    all_numbers(xs) || no_numbers(xs)
}

/// Whether no value is a number.
pub open spec fn no_numbers(xs: Seq<Double>) -> bool {
    forall|i: int| 0 <= i < xs.len() ==> float::is_nan((#[trigger] xs[i]).bits)
}

proof fn lemma_no_numbers_in_order(xs: Seq<Double>, n: int)
    requires
        0 <= n <= xs.len(),
        no_numbers(xs),
    ensures
        in_order(xs, n).len() == n,
        no_numbers(in_order(xs, n)),
    decreases n,
{
    if n > 0 {
        lemma_no_numbers_in_order(xs, n - 1);
        let earlier = in_order(xs, n - 1);
        let at = place(earlier, xs[n - 1], 0);
        lemma_place(earlier, xs[n - 1], 0);
        let after = in_order(xs, n);
        assert forall|i: int| 0 <= i < after.len() implies float::is_nan(
            (#[trigger] after[i]).bits,
        ) by {
            if i < at {
                assert(after[i] == earlier[i]);
            } else if i > at {
                assert(after[i] == earlier[i - 1]);
            }
        }
    }
}

proof fn lemma_no_median(xs: Seq<Double>)
    requires
        no_numbers(xs),
        xs.len() > 0,
    ensures
        float::is_nan(median_of(xs)),
{
    let n = xs.len() as int;
    lemma_no_numbers_in_order(xs, n);
    assert(float::is_nan(in_order(xs, n)[n / 2].bits));
}

/// The median of values.
pub fn median(xs: &Vec<Double>) -> (r: Double)
    requires
        orderly(xs@),
    ensures
        float::alike(r.bits, median_of(xs@)),
        all_finite(xs@) ==> r.bits == median_of(xs@) && !float::is_nan(r.bits),
{
    if xs.len() == 0 {
        return Double { bits: 0 };
    }
    let v = sort(xs);
    let n: usize = v.len();
    proof {
        if all_numbers(xs@) {
            ordering_is_a_sort(xs@, n as int);
            assert(!float::is_nan(v@[n as int / 2].bits));
        }
    }
    if n % 2 == 1 {
        v[n / 2]
    } else {
        proof {
            if all_numbers(xs@) {
                assert(!float::is_nan(v@[n as int / 2 - 1].bits));
            }
        }
        let sum = float::add_up(v[n / 2 - 1], v[n / 2]);
        float::divide(sum, Double { bits: TWO })
    }
}

/// How far values are from a center, each without its sign.
pub open spec fn deviations(xs: Seq<Double>, center: u64) -> Seq<Double> {
    Seq::new(
        xs.len(),
        |i: int| Double { bits: float::absolute(float::minus(xs[i].bits, center)) },
    )
}

/// The median absolute deviation of values from a center; zero for no values.
pub open spec fn mad_of(xs: Seq<Double>, center: u64) -> u64 {
    median_of(deviations(xs, center))
}

fn distances(xs: &Vec<Double>, center: Double) -> (devs: Vec<Double>)
    ensures
        devs@.len() == xs@.len(),
        forall|k: int|
            0 <= k < xs@.len() ==> float::alike(
                (#[trigger] devs@[k]).bits,
                deviations(xs@, center.bits)[k].bits,
            ),
{
    let mut devs: Vec<Double> = Vec::new();
    let mut i: usize = 0;
    while i < xs.len()
        invariant
            i <= xs@.len(),
            devs@.len() == i,
            forall|k: int|
                0 <= k < i ==> float::alike(
                    (#[trigger] devs@[k]).bits,
                    deviations(xs@, center.bits)[k].bits,
                ),
        decreases xs@.len() - i,
    {
        let away = float::subtract(xs[i], center);
        devs.push(away.without_sign());
        i += 1;
    }
    devs
}

/// The median absolute deviation of values from a center.
pub fn mad(xs: &Vec<Double>, center: Double) -> (r: Double)
    requires
        orderly(deviations(xs@, center.bits)),
    ensures
        float::alike(r.bits, mad_of(xs@, center.bits)),
{
    let devs = distances(xs, center);
    proof {
        lemma_alike_medians(devs@, deviations(xs@, center.bits));
    }
    median(&devs)
}

proof fn lemma_alike_medians(devs: Seq<Double>, exact: Seq<Double>)
    requires
        devs.len() == exact.len(),
        forall|k: int|
            0 <= k < devs.len() ==> float::alike((#[trigger] devs[k]).bits, exact[k].bits),
    ensures
        orderly(devs) == orderly(exact),
        orderly(exact) ==> float::alike(median_of(devs), median_of(exact)),
{
    assert forall|k: int| 0 <= k < devs.len() implies float::is_nan((#[trigger] devs[k]).bits)
        == float::is_nan(exact[k].bits) by {}
    if orderly(devs) {
        assert forall|k: int| 0 <= k < exact.len() implies float::is_nan(
            (#[trigger] exact[k]).bits,
        ) == float::is_nan(devs[k].bits) by {}
    }
    if all_numbers(exact) {
        assert(devs =~= exact) by {
            assert forall|k: int| 0 <= k < devs.len() implies devs[k] == exact[k] by {
                assert(float::alike(devs[k].bits, exact[k].bits));
                assert(!float::is_nan(exact[k].bits));
            }
        }
    } else if no_numbers(exact) && exact.len() > 0 {
        assert(no_numbers(devs));
        lemma_no_median(exact);
        lemma_no_median(devs);
    }
}

/// How a value compares with those of earlier runs.
#[derive(Clone, Copy, Debug)]
pub struct Verdict {
    pub value: Double,
    pub median: Double,
    pub mad: Double,
    pub z: Double,
    pub sample_n: usize,
    pub regression: bool,
    pub low_confidence: bool,
}

/// Whether a value is worse than a median by more than a tenth of it.
pub open spec fn worse_by_tenth(value: u64, median: u64, higher_is_worse: bool) -> bool {
    if float::equal(median, 0) {
        false
    } else if higher_is_worse {
        float::less(float::times(median, TENTH_ABOVE), value)
    } else {
        float::less(value, float::times(median, TENTH_BELOW))
    }
}

/// The score of a value: its distance from the median in units of the spread.
pub open spec fn score(value: u64, median: u64, spread: u64) -> u64 {
    float::over(float::times(SCALE, float::minus(value, median)), spread)
}

/// Whether a value is a regression against earlier ones: with too few of them, or
/// with no spread among them, when it is worse by more than a tenth; else when its
/// score stands out on the worse side.
pub open spec fn is_regression(value: u64, history: Seq<Double>, higher_is_worse: bool) -> bool {
    let median = median_of(history);
    let spread = mad_of(history, median);
    if history.len() == 0 {
        false
    } else if history.len() < ENOUGH_RUNS || float::equal(spread, 0) {
        worse_by_tenth(value, median, higher_is_worse)
    } else if higher_is_worse {
        float::less(OUTLIER, score(value, median, spread))
    } else {
        float::less(score(value, median, spread), LOW_OUTLIER)
    }
}

fn is_worse(value: Double, median: Double, higher_is_worse: bool) -> (r: bool)
    ensures
        r == worse_by_tenth(value.bits, median.bits, higher_is_worse),
{
    if median.is_equal(Double { bits: 0 }) {
        false
    } else if higher_is_worse {
        float::multiply(median, Double { bits: TENTH_ABOVE }).is_less(value)
    } else {
        value.is_less(float::multiply(median, Double { bits: TENTH_BELOW }))
    }
}

/// Whether a value can be compared with these earlier ones: they can be put in order,
/// and so can their distances from the median where the spread decides.
pub open spec fn comparable(history: Seq<Double>) -> bool {
    orderly(history) && (history.len() >= ENOUGH_RUNS ==> orderly(
        deviations(history, median_of(history)),
    ))
}

fn is_orderly(xs: &Vec<Double>) -> (r: bool)
    ensures
        r == orderly(xs@),
{
    let mut all = true;
    let mut none = true;
    let mut i: usize = 0;
    while i < xs.len()
        invariant
            i <= xs@.len(),
            all <==> forall|k: int| 0 <= k < i ==> !float::is_nan((#[trigger] xs@[k]).bits),
            none <==> forall|k: int| 0 <= k < i ==> float::is_nan((#[trigger] xs@[k]).bits),
        decreases xs@.len() - i,
    {
        if xs[i].nan() {
            all = false;
        } else {
            none = false;
        }
        i += 1;
    }
    all || none
}

proof fn lemma_alike_deviations(xs: Seq<Double>, a: u64, b: u64)
    requires
        float::alike(a, b),
    ensures
        deviations(xs, a) == deviations(xs, b),
{
    assert(deviations(xs, a) =~= deviations(xs, b));
}

fn is_comparable(history: &Vec<Double>) -> (r: bool)
    ensures
        r == comparable(history@),
{
    if !is_orderly(history) {
        return false;
    }
    if history.len() < ENOUGH_RUNS {
        return true;
    }
    let middle = median(history);
    let devs = distances(history, middle);
    proof {
        lemma_alike_deviations(history@, middle.bits, median_of(history@));
        lemma_alike_medians(devs@, deviations(history@, middle.bits));
    }
    is_orderly(&devs)
}

/// Compares a value with those of earlier runs.
pub fn detect(value: Double, history: &Vec<Double>, higher_is_worse: bool) -> (v: Verdict)
    requires
        comparable(history@),
    ensures
        v.value == value,
        float::alike(v.median.bits, median_of(history@)),
        all_finite(history@) ==> v.median.bits == median_of(history@),
        v.sample_n == history@.len(),
        v.low_confidence == (history@.len() < ENOUGH_RUNS),
        v.regression == is_regression(value.bits, history@, higher_is_worse),
        history@.len() < ENOUGH_RUNS ==> v.mad.bits == 0,
        history@.len() >= ENOUGH_RUNS ==> float::alike(
            v.mad.bits,
            mad_of(history@, median_of(history@)),
        ),
        history@.len() < ENOUGH_RUNS || float::equal(v.mad.bits, 0) ==> v.z.bits == 0,
        history@.len() >= ENOUGH_RUNS && !float::equal(v.mad.bits, 0) ==> float::alike(
            v.z.bits,
            score(value.bits, median_of(history@), mad_of(history@, median_of(history@))),
        ),
{
    let n: usize = history.len();
    let zero = Double { bits: 0 };
    let middle = median(history);
    if n < ENOUGH_RUNS {
        return Verdict {
            value,
            median: middle,
            mad: zero,
            z: zero,
            sample_n: n,
            regression: n > 0 && is_worse(value, middle, higher_is_worse),
            low_confidence: true,
        };
    }
    proof {
        lemma_alike_deviations(history@, middle.bits, median_of(history@));
    }
    let spread = mad(history, middle);
    if spread.is_equal(zero) {
        return Verdict {
            value,
            median: middle,
            mad: spread,
            z: zero,
            sample_n: n,
            regression: is_worse(value, middle, higher_is_worse),
            low_confidence: false,
        };
    }
    let scaled = float::multiply(Double { bits: SCALE }, float::subtract(value, middle));
    let z = float::divide(scaled, spread);
    proof {
        assert(float::alike(
            z.bits,
            score(value.bits, median_of(history@), mad_of(history@, median_of(history@))),
        ));
    }
    let regression = if higher_is_worse {
        Double { bits: OUTLIER }.is_less(z)
    } else {
        z.is_less(Double { bits: LOW_OUTLIER })
    };
    Verdict {
        value,
        median: middle,
        mad: spread,
        z,
        sample_n: n,
        regression,
        low_confidence: false,
    }
}

/// One recorded run.
#[derive(Debug)]
pub struct RunRow {
    pub run_id: String,
    pub plan_id: String,
    pub name: Option<String>,
    pub git_sha: Option<String>,
    pub ts: i64,
    pub thresholds_passed: bool,
}

/// A value under a name, when there is one.
pub open spec fn field(name: Seq<char>, value: Option<Double>) -> Seq<(Seq<char>, Double)> {
    match value {
        Some(v) => seq![(name, v)],
        None => Seq::empty(),
    }
}

/// The fields of a metric that are trended.
pub open spec fn fields(a: AggValues) -> Seq<(Seq<char>, Double)> {
    field("p50"@, a.med) + field("p95"@, a.p95) + field("p99"@, a.p99) + field("avg"@, a.avg)
        + field("rate"@, a.rate) + field("rps"@, a.per_second)
}

/// What named values mean.
pub open spec fn named_values(v: Seq<(&'static str, Double)>) -> Seq<(Seq<char>, Double)> {
    Seq::new(v.len(), |i: int| (v[i].0@, v[i].1))
}

fn push_field(out: &mut Vec<(&'static str, Double)>, name: &'static str, value: Option<Double>)
    ensures
        named_values(final(out)@) == named_values(old(out)@) + field(name@, value),
{
    let ghost before = named_values(out@);
    if let Some(v) = value {
        out.push((name, v));
    }
    proof {
        assert(named_values(out@) =~= before + field(name@, value));
    }
}

/// The fields of a metric that are trended, each with its value.
pub fn fields_of(m: &MetricSummary) -> (out: Vec<(&'static str, Double)>)
    ensures
        named_values(out@) == fields(m.agg),
{
    let mut out: Vec<(&'static str, Double)> = Vec::new();
    proof {
        assert(named_values(out@) =~= Seq::empty());
    }
    push_field(&mut out, "p50", m.agg.med);
    push_field(&mut out, "p95", m.agg.p95);
    push_field(&mut out, "p99", m.agg.p99);
    push_field(&mut out, "avg", m.agg.avg);
    push_field(&mut out, "rate", m.agg.rate);
    push_field(&mut out, "rps", m.agg.per_second);
    proof {
        assert(named_values(out@) =~= fields(m.agg));
    }
    out
}

/// Whether a higher value of a field is worse, as it is for latencies and error
/// rates; for throughput it is better.
pub open spec fn is_cost(metric: Seq<char>, field: Seq<char>) -> bool {
    !(field == "rps"@ || field == "per_second"@ || metric == "http_reqs"@ || metric
        == "iterations"@)
}

/// Whether a higher value of a field is worse.
pub fn higher_is_worse(metric: &str, field: &str) -> (r: bool)
    ensures
        r == is_cost(metric@, field@),
{
    !(text::same(field, "rps") || text::same(field, "per_second") || text::same(
        metric,
        "http_reqs",
    ) || text::same(metric, "iterations"))
}

/// The order of texts, with equal texts side by side.
pub open spec fn text_order() -> spec_fn(Seq<char>, Seq<char>) -> bool {
    |a: Seq<char>, b: Seq<char>| !tags::before(b, a)
}

proof fn lemma_text_order()
    ensures
        total_ordering(text_order()),
{
    let leq = text_order();
    assert forall|a: Seq<char>| #[trigger] leq(a, a) by {
        tags::before_is_irreflexive(a);
    }
    assert forall|a: Seq<char>, b: Seq<char>| #[trigger] leq(a, b) && #[trigger] leq(b, a) implies a
        == b by {
        tags::before_is_total(a, b);
    }
    assert forall|a: Seq<char>, b: Seq<char>, c: Seq<char>| #[trigger]
        leq(a, b) && #[trigger] leq(b, c) implies leq(a, c) by {
        if tags::before(c, a) {
            tags::before_is_total(a, b);
            if tags::before(a, b) {
                tags::before_is_transitive(c, a, b);
            }
        }
    }
    assert forall|a: Seq<char>, b: Seq<char>| #[trigger] leq(a, b) || #[trigger] leq(b, a) by {
        if tags::before(b, a) && tags::before(a, b) {
            tags::before_is_transitive(a, b, a);
            tags::before_is_irreflexive(a);
        }
    }
}

fn sort_names(names: &Vec<String>) -> (out: Vec<String>)
    ensures
        out.deep_view() == names.deep_view().sort_by(text_order()),
{
    let ghost all = names.deep_view();
    let ghost leq = text_order();
    proof {
        lemma_text_order();
    }
    let mut out: Vec<String> = Vec::new();
    let mut i: usize = 0;
    proof {
        assert(out.deep_view() =~= all.take(0));
    }
    while i < names.len()
        invariant
            i <= names@.len(),
            all == names.deep_view(),
            leq == text_order(),
            total_ordering(leq),
            sorted_by(out.deep_view(), leq),
            out.deep_view().to_multiset() == all.take(i as int).to_multiset(),
        decreases names@.len() - i,
    {
        let name = names[i].as_str();
        let ghost earlier = out.deep_view();
        let mut k: usize = 0;
        while k < out.len() && !tags::comes_before(name, out[k].as_str())
            invariant
                k <= out@.len(),
                earlier == out.deep_view(),
                forall|j: int| 0 <= j < k ==> !tags::before(name@, #[trigger] earlier[j]),
            decreases out@.len() - k,
        {
            proof {
                assert(earlier[k as int] == out@[k as int]@);
            }
            k += 1;
        }
        proof {
            if k < earlier.len() {
                assert(earlier[k as int] == out@[k as int]@);
            }
        }
        out.insert(k, name.to_owned());
        let ghost after = out.deep_view();
        proof {
            assert(after =~= earlier.insert(k as int, name@));
            assert(all[i as int] == name@);
            vstd::seq_lib::to_multiset_insert(earlier, k as int, name@);
            vstd::seq_lib::to_multiset_build(all.take(i as int), name@);
            assert(all.take(i + 1) =~= all.take(i as int).push(name@));
            assert forall|a: int, b: int| 0 <= a < b < after.len() implies #[trigger] leq(
                after[a],
                after[b],
            ) by {
                if b < k {
                    assert(leq(earlier[a], earlier[b]));
                } else if b == k {
                    assert(!tags::before(name@, earlier[a]));
                } else if a < k {
                    assert(leq(earlier[a], earlier[b - 1]));
                } else if a > k {
                    assert(leq(earlier[a - 1], earlier[b - 1]));
                } else {
                    assert(tags::before(name@, earlier[k as int]));
                    if tags::before(earlier[b - 1], name@) {
                        tags::before_is_transitive(earlier[b - 1], name@, earlier[k as int]);
                        if b - 1 > k {
                            assert(leq(earlier[k as int], earlier[b - 1]));
                        } else {
                            tags::before_is_irreflexive(earlier[k as int]);
                        }
                    }
                }
            }
        }
        i += 1;
    }
    proof {
        assert(all.take(all.len() as int) =~= all);
        all.lemma_sort_by_ensures(leq);
        vstd::seq_lib::lemma_sorted_unique(out.deep_view(), all.sort_by(leq), leq);
    }
    out
}

/// The id under which runs of the same test are grouped: the name and the sorted
/// scenarios.
pub open spec fn plan_id(name: Option<Seq<char>>, scenarios: Seq<Seq<char>>) -> Seq<char> {
    let sorted = scenarios.sort_by(text_order());
    let shown = match name {
        Some(n) => n,
        None => ""@,
    };
    shown + "|"@ + text::joined(sorted, ","@, sorted.len() as int)
}

/// The id under which runs of the same test are grouped.
pub fn plan_id_from_summary(s: &Summary) -> (id: String)
    ensures
        id@ == plan_id(s.name.deep_view(), s.scenarios.deep_view()),
{
    let mut id = match &s.name {
        Some(n) => n.clone(),
        None => "".to_owned(),
    };
    id.append("|");
    let sorted = sort_names(&s.scenarios);
    id.append(text::join_all(&sorted, ",").as_str());
    id
}

/// The order in which a run lists its scenarios does not matter to its plan id.
pub proof fn plan_id_ignores_the_order(
    name: Option<Seq<char>>,
    a: Seq<Seq<char>>,
    b: Seq<Seq<char>>,
)
    requires
        a.to_multiset() == b.to_multiset(),
    ensures
        plan_id(name, a) == plan_id(name, b),
{
    let leq = text_order();
    lemma_text_order();
    a.lemma_sort_by_ensures(leq);
    b.lemma_sort_by_ensures(leq);
    vstd::seq_lib::lemma_sorted_unique(a.sort_by(leq), b.sort_by(leq), leq);
}

/// A value of a run that is trended.
#[derive(Debug)]
pub struct Trended {
    pub metric: String,
    pub field: String,
    pub value: Double,
}

/// What a trended value is.
pub open spec fn trended_values(v: Seq<Trended>) -> Seq<(Seq<char>, Seq<char>, Double)> {
    Seq::new(v.len(), |i: int| (v[i].metric@, v[i].field@, v[i].value))
}

/// The fields of one metric with its name in front.
pub open spec fn metric_values(m: MetricSummary) -> Seq<(Seq<char>, Seq<char>, Double)> {
    Seq::new(
        fields(m.agg).len(),
        |i: int| (m.metric@, fields(m.agg)[i].0, fields(m.agg)[i].1),
    )
}

/// The trended values of the first `n` metrics.
pub open spec fn run_values(metrics: Seq<MetricSummary>, n: int) -> Seq<
    (Seq<char>, Seq<char>, Double),
>
    decreases n,
{
    if n <= 0 {
        Seq::empty()
    } else {
        run_values(metrics, n - 1) + metric_values(metrics[n - 1])
    }
}

/// The values of a run that are recorded and compared, in order.
pub fn trended(s: &Summary) -> (out: Vec<Trended>)
    ensures
        trended_values(out@) == run_values(s.metrics@, s.metrics@.len() as int),
{
    let mut out: Vec<Trended> = Vec::new();
    let mut i: usize = 0;
    proof {
        assert(trended_values(out@) =~= Seq::empty());
    }
    while i < s.metrics.len()
        invariant
            i <= s.metrics@.len(),
            trended_values(out@) == run_values(s.metrics@, i as int),
        decreases s.metrics@.len() - i,
    {
        let m = &s.metrics[i];
        let ghost earlier = trended_values(out@);
        let ghost more = metric_values(*m);
        let list = fields_of(m);
        let ghost named = named_values(list@);
        let mut k: usize = 0;
        proof {
            assert(earlier + more.take(0) =~= earlier);
        }
        while k < list.len()
            invariant
                k <= list@.len(),
                named == named_values(list@),
                named == fields(m.agg),
                more == metric_values(*m),
                trended_values(out@) == earlier + more.take(k as int),
            decreases list@.len() - k,
        {
            let ghost before = trended_values(out@);
            let (name, value) = list[k];
            proof {
                assert(named[k as int] == (name@, value));
            }
            out.push(Trended { metric: m.metric.clone(), field: name.to_owned(), value });
            proof {
                assert(trended_values(out@) =~= before.push(more[k as int]));
                assert(before.push(more[k as int]) =~= earlier + more.take(k + 1));
            }
            k += 1;
        }
        proof {
            assert(more.take(more.len() as int) =~= more);
        }
        i += 1;
    }
    out
}

/// The verdict on one field of a run.
#[derive(Debug)]
pub struct CheckRow {
    pub metric: String,
    pub field: String,
    pub verdict: Verdict,
}

/// What a row says: the metric, the field and whether it is a regression.
pub open spec fn row_says(r: CheckRow) -> (Seq<char>, Seq<char>, Double, bool) {
    (r.metric@, r.field@, r.verdict.value, r.verdict.regression)
}

/// What rows say.
pub open spec fn rows_say(rows: Seq<CheckRow>) -> Seq<(Seq<char>, Seq<char>, Double, bool)> {
    Seq::new(rows.len(), |i: int| row_says(rows[i]))
}

/// The verdicts on the first `n` values of a run, each against the earlier values of
/// its field; a value without earlier ones has none.
pub open spec fn verdicts(
    values: Seq<(Seq<char>, Seq<char>, Double)>,
    histories: Seq<Vec<Double>>,
    n: int,
) -> Seq<(Seq<char>, Seq<char>, Double, bool)>
    decreases n,
{
    if n <= 0 {
        Seq::empty()
    } else {
        let earlier = verdicts(values, histories, n - 1);
        let (metric, field, value) = values[n - 1];
        let past = histories[n - 1]@;
        if past.len() == 0 {
            earlier
        } else {
            earlier.push(
                (
                    metric,
                    field,
                    value,
                    is_regression(value.bits, past, is_cost(metric, field)),
                ),
            )
        }
    }
}

/// Compares the values of a run with the earlier values of each.
pub fn check(values: &Vec<Trended>, histories: &Vec<Vec<Double>>) -> (rows: Vec<CheckRow>)
    requires
        values@.len() == histories@.len(),
        forall|i: int| 0 <= i < histories@.len() ==> comparable((#[trigger] histories@[i])@),
    ensures
        rows_say(rows@) == verdicts(trended_values(values@), histories@, values@.len() as int),
{
    let ghost all = trended_values(values@);
    let mut rows: Vec<CheckRow> = Vec::new();
    let mut i: usize = 0;
    proof {
        assert(rows_say(rows@) =~= Seq::empty());
    }
    while i < values.len()
        invariant
            i <= values@.len(),
            values@.len() == histories@.len(),
            forall|k: int| 0 <= k < histories@.len() ==> comparable((#[trigger] histories@[k])@),
            all == trended_values(values@),
            rows_say(rows@) == verdicts(all, histories@, i as int),
        decreases values@.len() - i,
    {
        let t = &values[i];
        let past = &histories[i];
        let ghost earlier = rows_say(rows@);
        proof {
            assert(all[i as int] == (t.metric@, t.field@, t.value));
        }
        if past.len() > 0 {
            let worse = higher_is_worse(t.metric.as_str(), t.field.as_str());
            let verdict = detect(t.value, past, worse);
            let row = CheckRow { metric: t.metric.clone(), field: t.field.clone(), verdict };
            let ghost says = row_says(row);
            rows.push(row);
            proof {
                assert(rows_say(rows@) =~= earlier.push(says));
            }
        }
        i += 1;
    }
    rows
}

/// Compares the values of a run with the earlier values of each, when each of them can
/// be compared.
pub fn try_check(values: &Vec<Trended>, histories: &Vec<Vec<Double>>) -> (r: Option<Vec<CheckRow>>)
    requires
        values@.len() == histories@.len(),
    ensures
        match r {
            Some(rows) => (forall|i: int|
                0 <= i < histories@.len() ==> comparable((#[trigger] histories@[i])@)) && rows_say(
                rows@,
            ) == verdicts(trended_values(values@), histories@, values@.len() as int),
            None => exists|i: int|
                0 <= i < histories@.len() && !comparable((#[trigger] histories@[i])@),
        },
{
    let mut i: usize = 0;
    while i < histories.len()
        invariant
            i <= histories@.len(),
            forall|k: int| 0 <= k < i ==> comparable((#[trigger] histories@[k])@),
        decreases histories@.len() - i,
    {
        if !is_comparable(&histories[i]) {
            return None;
        }
        i += 1;
    }
    Some(check(values, histories))
}

/// How many of the first `n` rows are regressions.
pub open spec fn regression_count(rows: Seq<CheckRow>, n: int) -> nat
    decreases n,
{
    if n <= 0 {
        0
    } else {
        regression_count(rows, n - 1) + if rows[n - 1].verdict.regression {
            1nat
        } else {
            0
        }
    }
}

/// How many rows are regressions.
pub fn count_regressions(rows: &Vec<CheckRow>) -> (n: usize)
    ensures
        n == regression_count(rows@, rows@.len() as int),
{
    let mut n: usize = 0;
    let mut i: usize = 0;
    while i < rows.len()
        invariant
            i <= rows@.len(),
            n <= i,
            n == regression_count(rows@, i as int),
        decreases rows@.len() - i,
    {
        if rows[i].verdict.regression {
            n += 1;
        }
        i += 1;
    }
    n
}

/// The exit code of a check: 99 when there are regressions and they are to fail it.
pub fn check_exit_code(rows: &Vec<CheckRow>, assert_none: bool) -> (code: i32)
    ensures
        code == if regression_count(rows@, rows@.len() as int) > 0 && assert_none {
            99i32
        } else {
            0
        },
{
    if count_regressions(rows) > 0 && assert_none {
        99
    } else {
        0
    }
}

/// A value is never a regression against no history.
pub proof fn nothing_to_regress_from(value: u64, higher_is_worse: bool)
    ensures
        !is_regression(value, Seq::empty(), higher_is_worse),
{
}

/// A regression is on the worse side, and what is far on the worse side is one. Without
/// earlier runs there is none. With fewer than five of them, or without a spread among
/// them, it is a value more than a tenth above a median other than zero, when higher is
/// worse, and more than a tenth below it, when lower is worse. Else it is a value whose
/// distance from the median, in units of the spread, is more than 3.5 on that side.
pub proof fn a_regression_is_on_the_worse_side(value: u64, history: Seq<Double>)
    ensures
        ({
            let median = median_of(history);
            let spread = mad_of(history, median);
            let z = float::over(
                float::times(0x3fe5_9581_0624_dd2f, float::minus(value, median)),
                spread,
            );
            let rough = history.len() < 5 || float::equal(spread, 0);
            &&& history.len() == 0 ==> !is_regression(value, history, true) && !is_regression(
                value,
                history,
                false,
            )
            &&& history.len() > 0 && rough ==> {
                &&& is_regression(value, history, true) <==> !float::equal(median, 0)
                    && float::less(float::times(median, 0x3ff1_9999_9999_999a), value)
                &&& is_regression(value, history, false) <==> !float::equal(median, 0)
                    && float::less(value, float::times(median, 0x3fec_cccc_cccc_cccd))
            }
            &&& !rough ==> {
                &&& is_regression(value, history, true) <==> float::less(0x400c_0000_0000_0000, z)
                &&& is_regression(value, history, false) <==> float::less(
                    z,
                    0xc00c_0000_0000_0000,
                )
                &&& is_regression(value, history, true) ==> !float::less(z, 0)
                &&& is_regression(value, history, false) ==> !float::less(0, z)
                &&& !(is_regression(value, history, true) && is_regression(value, history, false))
            }
        }),
{
}

/// The median of values is the middle one of them in ascending order, or half the sum of
/// the two in the middle; in which order they are given does not matter to the order.
pub proof fn the_median_is_in_the_middle(xs: Seq<Double>)
    requires
        all_numbers(xs),
        xs.len() > 0,
    ensures
        exists|sorted: Seq<Double>| #[trigger]
            goes_up(sorted) && sorted.to_multiset() == xs.to_multiset() && sorted.len() == xs.len()
                && median_of(xs) == if xs.len() % 2 == 1 {
                sorted[xs.len() as int / 2].bits
            } else {
                float::over(
                    float::plus(
                        sorted[xs.len() as int / 2 - 1].bits,
                        sorted[xs.len() as int / 2].bits,
                    ),
                    0x4000_0000_0000_0000,
                )
            },
        median_of(Seq::empty()) == 0,
{
    let n = xs.len() as int;
    ordering_is_a_sort(xs, n);
    assert(xs.take(n) =~= xs);
    assert(goes_up(in_order(xs, n)));
}

/// The spread is the median of how far the values are from the center, without the sign.
pub proof fn the_spread_is_the_median_distance(xs: Seq<Double>, center: u64, i: int)
    requires
        0 <= i < xs.len(),
    ensures
        mad_of(xs, center) == median_of(deviations(xs, center)),
        deviations(xs, center).len() == xs.len(),
        deviations(xs, center)[i].bits == float::absolute(float::minus(xs[i].bits, center)),
        !float::less(deviations(xs, center)[i].bits, 0),
{
}

/// Every trended value of a metric stands under the name of its field, with the metric's
/// name in front.
pub proof fn trended_fields_have_their_names(m: MetricSummary, name: Seq<char>, value: Double)
    ensures
        metric_values(m).contains((m.metric@, name, value)) <==> {
            ||| name == "p50"@ && m.agg.med == Some(value)
            ||| name == "p95"@ && m.agg.p95 == Some(value)
            ||| name == "p99"@ && m.agg.p99 == Some(value)
            ||| name == "avg"@ && m.agg.avg == Some(value)
            ||| name == "rate"@ && m.agg.rate == Some(value)
            ||| name == "rps"@ && m.agg.per_second == Some(value)
        },
        forall|k: int|
            0 <= k < metric_values(m).len() ==> (#[trigger] metric_values(m)[k]).0 == m.metric@,
{
    let a = field("p50"@, m.agg.med);
    let b = a + field("p95"@, m.agg.p95);
    let c = b + field("p99"@, m.agg.p99);
    let d = c + field("avg"@, m.agg.avg);
    let e = d + field("rate"@, m.agg.rate);
    let all = fields(m.agg);
    let x = (name, value);
    lemma_field_contains("p50"@, m.agg.med, x);
    lemma_in_either(a, field("p95"@, m.agg.p95), x);
    lemma_field_contains("p95"@, m.agg.p95, x);
    lemma_in_either(b, field("p99"@, m.agg.p99), x);
    lemma_field_contains("p99"@, m.agg.p99, x);
    lemma_in_either(c, field("avg"@, m.agg.avg), x);
    lemma_field_contains("avg"@, m.agg.avg, x);
    lemma_in_either(d, field("rate"@, m.agg.rate), x);
    lemma_field_contains("rate"@, m.agg.rate, x);
    lemma_in_either(e, field("rps"@, m.agg.per_second), x);
    lemma_field_contains("rps"@, m.agg.per_second, x);
    let values = metric_values(m);
    if all.contains(x) {
        let k = choose|k: int| 0 <= k < all.len() && all[k] == x;
        assert(values[k] == (m.metric@, name, value));
    }
    if values.contains((m.metric@, name, value)) {
        let k = choose|k: int| 0 <= k < values.len() && values[k] == (m.metric@, name, value);
        assert(all[k] == x);
    }
}

proof fn lemma_field_contains(name: Seq<char>, value: Option<Double>, x: (Seq<char>, Double))
    ensures
        field(name, value).contains(x) <==> x.0 == name && value == Some(x.1),
{
    if let Some(v) = value {
        assert(field(name, value)[0] == (name, v));
    }
}

proof fn lemma_in_either(
    a: Seq<(Seq<char>, Double)>,
    b: Seq<(Seq<char>, Double)>,
    x: (Seq<char>, Double),
)
    ensures
        (a + b).contains(x) <==> a.contains(x) || b.contains(x),
{
    if a.contains(x) {
        let k = choose|k: int| 0 <= k < a.len() && a[k] == x;
        assert((a + b)[k] == x);
    }
    if b.contains(x) {
        let k = choose|k: int| 0 <= k < b.len() && b[k] == x;
        assert((a + b)[a.len() + k] == x);
    }
    if (a + b).contains(x) {
        let k = choose|k: int| 0 <= k < (a + b).len() && (a + b)[k] == x;
        if k < a.len() {
            assert(a[k] == x);
        } else {
            assert(b[k - a.len()] == x);
        }
    }
}

/// Lower is worse exactly for throughput: for rates per second, and for the counters of
/// requests and iterations.
pub proof fn throughput_should_not_fall(metric: Seq<char>, field: Seq<char>)
    ensures
        field == "rps"@ || field == "per_second"@ || metric == "http_reqs"@ || metric
            == "iterations"@ ==> !is_cost(metric, field),
        field != "rps"@ && field != "per_second"@ && metric != "http_reqs"@ && metric
            != "iterations"@ ==> is_cost(metric, field),
{
}

/// The trended values of a run are those of its metrics, one metric after the other.
pub proof fn metrics_come_one_after_the_other(metrics: Seq<MetricSummary>, n: int)
    requires
        0 < n <= metrics.len(),
    ensures
        run_values(metrics, 0).len() == 0,
        run_values(metrics, n) == run_values(metrics, n - 1) + metric_values(metrics[n - 1]),
{
}

/// A run is compared value by value: every value with earlier ones has a verdict, and it
/// is a regression exactly when it is one against its own earlier values.
pub proof fn every_value_is_compared_with_its_own_past(
    values: Seq<(Seq<char>, Seq<char>, Double)>,
    histories: Seq<Vec<Double>>,
    n: int,
    i: int,
)
    requires
        0 <= i < n <= values.len(),
        values.len() == histories.len(),
    ensures
        histories[i]@.len() > 0 ==> verdicts(values, histories, n).contains(
            (
                values[i].0,
                values[i].1,
                values[i].2,
                is_regression(
                    values[i].2.bits,
                    histories[i]@,
                    !(values[i].1 == "rps"@ || values[i].1 == "per_second"@ || values[i].0
                        == "http_reqs"@ || values[i].0 == "iterations"@),
                ),
            ),
        ),
        forall|k: int|
            0 <= k < verdicts(values, histories, n).len() ==> exists|j: int|
                #![trigger histories[j]]
                0 <= j < n && histories[j]@.len() > 0 && values[j].0 == (#[trigger] verdicts(
                    values,
                    histories,
                    n,
                )[k]).0 && values[j].1 == verdicts(values, histories, n)[k].1 && values[j].2
                    == verdicts(values, histories, n)[k].2,
    decreases n,
{
    let all = verdicts(values, histories, n);
    let earlier = verdicts(values, histories, n - 1);
    if i < n - 1 {
        every_value_is_compared_with_its_own_past(values, histories, n - 1, i);
        if histories[i]@.len() > 0 {
            let x = (
                values[i].0,
                values[i].1,
                values[i].2,
                is_regression(
                    values[i].2.bits,
                    histories[i]@,
                    is_cost(values[i].0, values[i].1),
                ),
            );
            let k = choose|k: int| 0 <= k < earlier.len() && earlier[k] == x;
            assert(all[k] == x);
        }
    } else if histories[i]@.len() > 0 {
        assert(all[all.len() - 1].0 == values[i].0);
        assert(all.contains(all[all.len() - 1]));
    }
    if n > 1 {
        every_value_is_compared_with_its_own_past(values, histories, n - 1, 0);
    }
    assert forall|k: int| 0 <= k < all.len() implies exists|j: int|
        #![trigger histories[j]]
        0 <= j < n && histories[j]@.len() > 0 && values[j].0 == (#[trigger] all[k]).0 && values[j].1
            == all[k].1 && values[j].2 == all[k].2 by {
        if k < earlier.len() {
            assert(all[k] == earlier[k]);
            let j = choose|j: int|
                #![trigger histories[j]]
                0 <= j < n - 1 && histories[j]@.len() > 0 && values[j].0 == earlier[k].0
                    && values[j].1 == earlier[k].1 && values[j].2 == earlier[k].2;
            assert(histories[j]@.len() > 0);
        } else {
            assert(histories[n - 1]@.len() > 0);
        }
    }
}

/// There are regressions exactly when some row is one.
pub proof fn regressions_are_counted(rows: Seq<CheckRow>, n: int)
    requires
        0 <= n <= rows.len(),
    ensures
        regression_count(rows, n) > 0 <==> exists|i: int|
            0 <= i < n && (#[trigger] rows[i]).verdict.regression,
        regression_count(rows, n) <= n,
    decreases n,
{
    if n > 0 {
        regressions_are_counted(rows, n - 1);
        if rows[n - 1].verdict.regression {
            assert(rows[n - 1].verdict.regression);
        }
    }
}

} // verus!
