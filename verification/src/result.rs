//! Benchmark result types and statistics.
//!
//! A probe produces one `TimingResult` per lookup; `ServerResult` folds a
//! server's full measurement sequence into summary statistics, and
//! `BenchmarkResult` holds the ranked results of a whole run.
//!
//! Durations are measured in nanoseconds.

use vstd::prelude::*;
use vstd::arithmetic::div_mod::{lemma_div_is_ordered, lemma_div_multiples_vanish};
use vstd::arithmetic::mul::lemma_mul_inequality;
use vstd::multiset::Multiset;

use crate::dns::{DnsServer, IpAddress, ServerSource};
use crate::text::{is_timeout_text, text_is_timeout};

verus! {

/// Result of a single timing measurement.
#[derive(Debug, Clone)]
pub enum TimingResult {
    /// Successful resolution: elapsed nanoseconds and the first resolved
    /// address.
    Success { duration: u64, ip: IpAddress },
    /// Failed resolution: the resolver's error message.
    Failure { error: String },
}

impl TimingResult {
    /// The measured duration of a successful measurement.
    pub open spec fn spec_duration(self) -> u64 {
        match self {
            TimingResult::Success { duration, .. } => duration,
            TimingResult::Failure { .. } => 0,
        }
    }

    /// The resolved address of a successful measurement.
    pub open spec fn spec_ip(self) -> IpAddress {
        match self {
            TimingResult::Success { ip, .. } => ip,
            TimingResult::Failure { .. } => IpAddress::V4(0),
        }
    }

    /// The error text of a failed measurement.
    pub open spec fn spec_error(self) -> Seq<char> {
        match self {
            TimingResult::Success { .. } => Seq::empty(),
            TimingResult::Failure { error } => error@,
        }
    }

    /// A measurement counts as a timeout when it failed and its message
    /// contains, case-insensitively, "timeout" or "timed out".
    pub open spec fn spec_is_timeout(self) -> bool {
        match self {
            TimingResult::Success { .. } => false,
            TimingResult::Failure { error } => is_timeout_text(error@),
        }
    }

    /// Classify this measurement as a timeout failure.
    pub fn is_timeout(&self) -> (r: bool)
        ensures
            r == self.spec_is_timeout(),
    {
        match self {
            TimingResult::Success { .. } => false,
            TimingResult::Failure { error } => text_is_timeout(error.as_str()),
        }
    }
}

/// Number of successful measurements in the sequence.
pub open spec fn count_success(s: Seq<TimingResult>) -> nat
    decreases s.len(),
{
    if s.len() == 0 {
        0
    } else {
        count_success(s.drop_last()) + (if s.last() is Success {
            1nat
        } else {
            0nat
        })
    }
}

/// Total duration of all successful measurements.
pub open spec fn sum_success(s: Seq<TimingResult>) -> int
    decreases s.len(),
{
    if s.len() == 0 {
        0
    } else {
        sum_success(s.drop_last()) + (if s.last() is Success {
            s.last().spec_duration() as int
        } else {
            0
        })
    }
}

/// Minimum duration over the successful measurements (0 when there is none).
pub open spec fn min_success(s: Seq<TimingResult>) -> int
    decreases s.len(),
{
    if s.len() == 0 {
        0
    } else if s.last() is Success {
        if count_success(s.drop_last()) == 0 {
            s.last().spec_duration() as int
        } else if s.last().spec_duration() as int <= min_success(s.drop_last()) {
            s.last().spec_duration() as int
        } else {
            min_success(s.drop_last())
        }
    } else {
        min_success(s.drop_last())
    }
}

/// Maximum duration over the successful measurements (0 when there is none).
pub open spec fn max_success(s: Seq<TimingResult>) -> int
    decreases s.len(),
{
    if s.len() == 0 {
        0
    } else if s.last() is Success {
        if count_success(s.drop_last()) == 0 {
            s.last().spec_duration() as int
        } else if s.last().spec_duration() as int >= max_success(s.drop_last()) {
            s.last().spec_duration() as int
        } else {
            max_success(s.drop_last())
        }
    } else {
        max_success(s.drop_last())
    }
}

/// Address of the most recent successful measurement.
pub open spec fn last_success_ip(s: Seq<TimingResult>) -> Option<IpAddress>
    decreases s.len(),
{
    if s.len() == 0 {
        None
    } else if s.last() is Success {
        Some(s.last().spec_ip())
    } else {
        last_success_ip(s.drop_last())
    }
}

/// Error text of the most recent failed measurement.
pub open spec fn last_error_text(s: Seq<TimingResult>) -> Option<Seq<char>>
    decreases s.len(),
{
    if s.len() == 0 {
        None
    } else if s.last() is Failure {
        Some(s.last().spec_error())
    } else {
        last_error_text(s.drop_last())
    }
}

/// The numeric value of an optional duration; -1 when absent.
pub open spec fn opt_ns(o: Option<u64>) -> int {
    match o {
        Some(v) => v as int,
        None => -1,
    }
}

/// The view of an optional string.
pub open spec fn opt_text(o: Option<String>) -> Option<Seq<char>> {
    match o {
        Some(v) => Some(v@),
        None => None,
    }
}

/// Every measurement counts toward the total, so the success count never
/// exceeds the sequence length.
pub proof fn lemma_count_le_len(s: Seq<TimingResult>)
    ensures
        count_success(s) <= s.len(),
    decreases s.len(),
{
    if s.len() > 0 {
        lemma_count_le_len(s.drop_last());
    }
}

/// The total success duration is bounded by the success count times the
/// extreme durations.
pub proof fn lemma_sum_bounds(s: Seq<TimingResult>)
    ensures
        count_success(s) * min_success(s) <= sum_success(s),
        sum_success(s) <= count_success(s) * max_success(s),
        count_success(s) == 0 ==> sum_success(s) == 0,
        0 <= min_success(s),
        min_success(s) <= u64::MAX,
        0 <= max_success(s),
        max_success(s) <= u64::MAX,
        count_success(s) > 0 ==> min_success(s) <= max_success(s),
    decreases s.len(),
{
    if s.len() == 0 {
        assert(count_success(s) == 0 && min_success(s) == 0 && max_success(s) == 0
            && sum_success(s) == 0);
        assert(count_success(s) * min_success(s) == 0);
        assert(count_success(s) * max_success(s) == 0);
    } else {
        let pre = s.drop_last();
        lemma_sum_bounds(pre);
        let c = count_success(pre) as int;
        let spre = sum_success(pre);
        let mn = min_success(pre);
        let mx = max_success(pre);
        if s.last() is Success {
            let d = s.last().spec_duration() as int;
            let m2 = min_success(s);
            let x2 = max_success(s);
            assert(count_success(s) == c + 1);
            assert(sum_success(s) == spre + d);
            if c > 0 {
                assert(m2 <= mn && m2 <= d && mx <= x2 && d <= x2);
                assert((c + 1) * m2 <= spre + d) by (nonlinear_arith)
                    requires
                        c * mn <= spre,
                        m2 <= mn,
                        m2 <= d,
                        c >= 0,
                ;
                assert(spre + d <= (c + 1) * x2) by (nonlinear_arith)
                    requires
                        spre <= c * mx,
                        mx <= x2,
                        d <= x2,
                        c >= 0,
                ;
                assert(count_success(s) * min_success(s) == (c + 1) * m2);
                assert(count_success(s) * max_success(s) == (c + 1) * x2);
            } else {
                assert(spre == 0);
                assert(m2 == d && x2 == d);
                assert(count_success(s) == 1);
                assert(count_success(s) * min_success(s) == d) by (nonlinear_arith)
                    requires
                        count_success(s) == 1,
                        min_success(s) == d,
                ;
                assert(count_success(s) * max_success(s) == d) by (nonlinear_arith)
                    requires
                        count_success(s) == 1,
                        max_success(s) == d,
                ;
            }
        } else {
            assert(count_success(s) == c);
            assert(sum_success(s) == spre);
            assert(min_success(s) == mn);
            assert(max_success(s) == mx);
        }
        assert(count_success(s) * min_success(s) <= sum_success(s));
        assert(sum_success(s) <= count_success(s) * max_success(s));
    }
}

/// STATS LAW: for any measurement sequence with at least one success, the
/// minimum duration is at most the average, and the average is at most the
/// maximum.
pub proof fn lemma_min_avg_max(s: Seq<TimingResult>)
    requires
        count_success(s) > 0,
    ensures
        min_success(s) <= sum_success(s) / (count_success(s) as int),
        sum_success(s) / (count_success(s) as int) <= max_success(s),
{
    let c = count_success(s) as int;
    let mn = min_success(s);
    let mx = max_success(s);
    lemma_sum_bounds(s);
    lemma_div_is_ordered(c * mn, sum_success(s), c);
    lemma_div_is_ordered(sum_success(s), c * mx, c);
    lemma_div_multiples_vanish(mn, c);
    lemma_div_multiples_vanish(mx, c);
}

/// Aggregated result of benchmarking a single DNS server.
#[derive(Debug, Clone)]
pub struct ServerResult {
    /// Server name.
    pub name: String,
    /// Server IP address.
    pub ip: IpAddress,
    /// Server source.
    pub source: ServerSource,
    /// Last successfully resolved IP.
    pub resolved_ip: Option<IpAddress>,
    /// Total number of requests made.
    pub total_requests: u32,
    /// Number of successful requests.
    pub successful_requests: u32,
    /// Minimum response time in nanoseconds.
    pub min_time: Option<u64>,
    /// Maximum response time in nanoseconds.
    pub max_time: Option<u64>,
    /// Average response time in nanoseconds.
    pub avg_time: Option<u64>,
    /// Last error message, if any request failed.
    pub last_error: Option<String>,
}

impl ServerResult {
    /// Well-formedness: the invariants every aggregated result satisfies.
    pub open spec fn wf(self) -> bool {
        &&& self.successful_requests <= self.total_requests
        &&& (self.min_time is Some <==> self.successful_requests > 0)
        &&& (self.max_time is Some <==> self.successful_requests > 0)
        &&& (self.avg_time is Some <==> self.successful_requests > 0)
        &&& (self.successful_requests > 0 ==> opt_ns(self.min_time) <= opt_ns(self.avg_time)
            <= opt_ns(self.max_time))
    }

    /// Fold a server's measurement sequence into its aggregate result.
    ///
    /// The total request count equals the number of measurements and the
    /// success count equals the number of successful measurements; the
    /// extreme and average durations are those of the successful
    /// measurements, and the last resolved address and last error overwrite
    /// earlier ones.
    pub fn from_measurements(server: &DnsServer, measurements: Vec<TimingResult>) -> (r:
        ServerResult)
        requires
            measurements@.len() <= u32::MAX,
        ensures
            r.name == server.name,
            r.ip == server.addr.ip,
            r.source == server.source,
            r.total_requests == measurements@.len(),
            r.successful_requests == count_success(measurements@),
            count_success(measurements@) > 0 ==> {
                &&& r.min_time is Some
                &&& r.max_time is Some
                &&& r.avg_time is Some
                &&& opt_ns(r.min_time) == min_success(measurements@)
                &&& opt_ns(r.max_time) == max_success(measurements@)
                &&& opt_ns(r.avg_time) == sum_success(measurements@) / (count_success(
                    measurements@,
                ) as int)
            },
            count_success(measurements@) == 0 ==> {
                &&& r.min_time is None
                &&& r.max_time is None
                &&& r.avg_time is None
            },
            r.resolved_ip == last_success_ip(measurements@),
            opt_text(r.last_error) == last_error_text(measurements@),
            r.wf(),
    {
        let ghost all = measurements@;
        let n = measurements.len();
        let mut successful: u32 = 0;
        let mut total_ns: u128 = 0;
        let mut min_time: Option<u64> = None;
        let mut max_time: Option<u64> = None;
        let mut resolved_ip: Option<IpAddress> = None;
        let mut last_error: Option<String> = None;
        let mut i: usize = 0;
        while i < n
            invariant
                n == all.len(),
                all.len() <= u32::MAX,
                i <= n,
                all == measurements@,
                successful == count_success(all.subrange(0, i as int)),
                successful <= i,
                total_ns == sum_success(all.subrange(0, i as int)),
                total_ns <= (i as int) * (u64::MAX as int),
                successful == 0 <==> min_time is None,
                successful == 0 <==> max_time is None,
                successful > 0 ==> opt_ns(min_time) == min_success(all.subrange(0, i as int)),
                successful > 0 ==> opt_ns(max_time) == max_success(all.subrange(0, i as int)),
                resolved_ip == last_success_ip(all.subrange(0, i as int)),
                opt_text(last_error) == last_error_text(all.subrange(0, i as int)),
            decreases n - i,
        {
            proof {
                assert(all.subrange(0, i + 1 as int).drop_last() =~= all.subrange(0, i as int));
                assert(all.subrange(0, i + 1 as int).last() == all[i as int]);
                lemma_count_le_len(all.subrange(0, i as int));
            }
            match &measurements[i] {
                TimingResult::Success { duration, ip } => {
                    successful = successful + 1;
                    total_ns = total_ns + (*duration as u128);
                    resolved_ip = Some(*ip);
                    min_time = Some(
                        match min_time {
                            None => *duration,
                            Some(m) => if *duration <= m {
                                *duration
                            } else {
                                m
                            },
                        },
                    );
                    max_time = Some(
                        match max_time {
                            None => *duration,
                            Some(m) => if *duration >= m {
                                *duration
                            } else {
                                m
                            },
                        },
                    );
                },
                TimingResult::Failure { error } => {
                    last_error = Some(error.clone());
                },
            }
            i += 1;
        }
        proof {
            assert(all.subrange(0, n as int) =~= all);
        }
        let avg_time: Option<u64> = if successful > 0 {
            proof {
                lemma_sum_bounds(all);
                lemma_min_avg_max(all);
            }
            Some((total_ns / (successful as u128)) as u64)
        } else {
            None
        };
        ServerResult {
            name: server.name.clone(),
            ip: server.ip(),
            source: server.source,
            resolved_ip,
            total_requests: n as u32,
            successful_requests: successful,
            min_time,
            max_time,
            avg_time,
            last_error,
        }
    }

    /// SUCCESS RATE LAW: the success rate, as an exact percentage fraction
    /// (numerator, denominator): zero when no requests were made, otherwise
    /// 100 times the success count over the total count.
    pub fn success_rate_ratio(&self) -> (r: (u64, u64))
        ensures
            self.total_requests == 0 ==> r == (0u64, 1u64),
            self.total_requests > 0 ==> r.0 == 100 * self.successful_requests && r.1
                == self.total_requests,
    {
        if self.total_requests == 0 {
            (0, 1)
        } else {
            (100 * (self.successful_requests as u64), self.total_requests as u64)
        }
    }

    /// Is this server from the system DNS configuration?
    pub fn is_system(&self) -> (r: bool)
        ensures
            r == (self.source == ServerSource::System),
    {
        matches!(self.source, ServerSource::System)
    }

    /// Is this server the network gateway?
    pub fn is_gateway(&self) -> (r: bool)
        ensures
            r == (self.source == ServerSource::Gateway),
    {
        matches!(self.source, ServerSource::Gateway)
    }

    /// ALL-FAILED LAW: a server is fully failed exactly when it has zero
    /// successful requests.
    pub fn all_failed(&self) -> (r: bool)
        ensures
            r == (self.successful_requests == 0),
    {
        self.successful_requests == 0
    }

    /// The sort key: the average time, or the maximum duration for servers
    /// whose requests all failed.
    pub fn sort_key(&self) -> (r: u64)
        ensures
            r == (match self.avg_time {
                Some(a) => a,
                None => u64::MAX,
            }),
    {
        match self.avg_time {
            Some(a) => a,
            None => u64::MAX,
        }
    }

    /// Presentation order: the average time when present; absence counts as
    /// a sentinel strictly larger than any real duration, so fully-failed
    /// servers order last.
    pub open spec fn rank_key(self) -> int {
        match self.avg_time {
            Some(a) => a as int,
            None => u64::MAX as int + 1,
        }
    }

    /// An exact copy of this result.
    pub fn duplicate(&self) -> (r: Self)
        ensures
            r == *self,
    {
        ServerResult {
            name: self.name.clone(),
            ip: self.ip,
            source: self.source,
            resolved_ip: self.resolved_ip,
            total_requests: self.total_requests,
            successful_requests: self.successful_requests,
            min_time: self.min_time,
            max_time: self.max_time,
            avg_time: self.avg_time,
            last_error: match &self.last_error {
                Some(e) => Some(e.clone()),
                None => None,
            },
        }
    }
}

} // verus!

verus! {

/// Stable insertion of a result into a ranked sequence: it goes after every
/// element whose key is at most its own.
pub open spec fn insert_ranked(x: ServerResult, s: Seq<ServerResult>) -> Seq<ServerResult>
    decreases s.len(),
{
    if s.len() == 0 {
        seq![x]
    } else if s.first().rank_key() <= x.rank_key() {
        seq![s.first()] + insert_ranked(x, s.drop_first())
    } else {
        seq![x] + s
    }
}

/// The ranking of a result sequence: stable insertion sort by `rank_key`,
/// so ties keep the order in which results were collected.
pub open spec fn rank_spec(s: Seq<ServerResult>) -> Seq<ServerResult>
    decreases s.len(),
{
    if s.len() == 0 {
        Seq::empty()
    } else {
        insert_ranked(s.last(), rank_spec(s.drop_last()))
    }
}

/// The sequence is ordered by ascending rank key.
pub open spec fn sorted_by_key(s: Seq<ServerResult>) -> bool {
    forall|i: int, j: int| 0 <= i <= j < s.len() ==> s[i].rank_key() <= s[j].rank_key()
}

/// Compare two results by rank key.
fn key_le(a: &ServerResult, b: &ServerResult) -> (r: bool)
    ensures
        r == (a.rank_key() <= b.rank_key()),
{
    match (a.avg_time, b.avg_time) {
        (Some(x), Some(y)) => x <= y,
        (Some(_), None) => true,
        (None, Some(_)) => false,
        (None, None) => true,
    }
}

/// Inserting at the first position whose key exceeds the new element's is
/// exactly `insert_ranked`.
proof fn lemma_insert_ranked_at(x: ServerResult, s: Seq<ServerResult>, j: int)
    requires
        0 <= j <= s.len(),
        forall|k: int| 0 <= k < j ==> s[k].rank_key() <= x.rank_key(),
        j < s.len() ==> s[j].rank_key() > x.rank_key(),
    ensures
        insert_ranked(x, s) == s.insert(j, x),
    decreases s.len(),
{
    if s.len() == 0 {
        assert(insert_ranked(x, s) =~= s.insert(0, x));
    } else if s.first().rank_key() <= x.rank_key() {
        assert(j >= 1);
        lemma_insert_ranked_at(x, s.drop_first(), j - 1);
        assert(seq![s.first()] + s.drop_first().insert(j - 1, x) =~= s.insert(j, x));
    } else {
        assert(j == 0) by {
            if j > 0 {
                assert(s[0].rank_key() <= x.rank_key());
            }
        }
        assert(seq![x] + s =~= s.insert(0, x));
    }
}

/// Insertion preserves sortedness.
proof fn lemma_insert_ranked_sorted(x: ServerResult, s: Seq<ServerResult>)
    requires
        sorted_by_key(s),
    ensures
        sorted_by_key(insert_ranked(x, s)),
    decreases s.len(),
{
    if s.len() == 0 {
    } else if s.first().rank_key() <= x.rank_key() {
        assert(sorted_by_key(s.drop_first()));
        lemma_insert_ranked_sorted(x, s.drop_first());
        let t = seq![s.first()] + insert_ranked(x, s.drop_first());
        assert forall|i: int, j: int| 0 <= i <= j < t.len() implies t[i].rank_key()
            <= t[j].rank_key() by {
            lemma_insert_ranked_elems(x, s.drop_first(), j - 1);
            if i > 0 {
                assert(t[i] == insert_ranked(x, s.drop_first())[i - 1]);
            }
        }
    } else {
    }
}

/// Every element of the inserted sequence is the new element or one of the
/// originals.
proof fn lemma_insert_ranked_elems(x: ServerResult, s: Seq<ServerResult>, i: int)
    ensures
        insert_ranked(x, s).len() == s.len() + 1,
        0 <= i < s.len() + 1 ==> (insert_ranked(x, s)[i] == x || s.contains(
            insert_ranked(x, s)[i],
        )),
    decreases s.len(),
{
    if s.len() == 0 {
    } else if s.first().rank_key() <= x.rank_key() {
        lemma_insert_ranked_elems(x, s.drop_first(), i - 1);
        if 0 <= i < s.len() + 1 {
            if i == 0 {
                assert(s.contains(s.first()));
            } else {
                let e = insert_ranked(x, s)[i];
                assert(e == insert_ranked(x, s.drop_first())[i - 1]);
                if e != x {
                    assert(s.drop_first().contains(e));
                    let k = choose|k: int|
                        0 <= k < s.drop_first().len() && s.drop_first()[k] == e;
                    assert(s[k + 1] == e);
                }
            }
        }
    } else {
        if 1 <= i < s.len() + 1 {
            assert(insert_ranked(x, s)[i] == s[i - 1]);
        }
    }
}

/// Prepending one element adds exactly that element to the multiset.
proof fn lemma_prepend_multiset(a: ServerResult, u: Seq<ServerResult>)
    ensures
        (seq![a] + u).to_multiset() == u.to_multiset().insert(a),
{
    broadcast use vstd::seq_lib::group_to_multiset_ensures;

    let t = seq![a] + u;
    assert(t[0] == a);
    assert(t.remove(0) =~= u);
    assert(t.contains(a));
    assert(t.to_multiset().count(a) > 0);
    assert(u.to_multiset() == t.to_multiset().remove(a));
    assert(t.to_multiset() =~= u.to_multiset().insert(a));
}

/// Insertion adds exactly the new element to the multiset of results.
proof fn lemma_insert_ranked_multiset(x: ServerResult, s: Seq<ServerResult>)
    ensures
        insert_ranked(x, s).to_multiset() == s.to_multiset().insert(x),
    decreases s.len(),
{
    broadcast use vstd::seq_lib::group_to_multiset_ensures;

    if s.len() == 0 {
        assert(seq![x] =~= Seq::<ServerResult>::empty().push(x));
        assert(Seq::<ServerResult>::empty().push(x).to_multiset() =~= Seq::<
            ServerResult,
        >::empty().to_multiset().insert(x));
    } else if s.first().rank_key() <= x.rank_key() {
        lemma_insert_ranked_multiset(x, s.drop_first());
        lemma_prepend_multiset(s.first(), insert_ranked(x, s.drop_first()));
        lemma_prepend_multiset(s.first(), s.drop_first());
        assert(seq![s.first()] + s.drop_first() =~= s);
        assert(insert_ranked(x, s).to_multiset() =~= s.to_multiset().insert(x));
    } else {
        lemma_prepend_multiset(x, s);
    }
}

/// RANKING LAW (order): in a ranked sequence no fully-failed server precedes
/// a server with at least one success, and among servers with successes the
/// average times ascend.
pub proof fn lemma_ranking_order(s: Seq<ServerResult>, i: int, j: int)
    requires
        forall|k: int| 0 <= k < s.len() ==> s[k].wf(),
        0 <= i <= j < rank_spec(s).len(),
    ensures
        rank_spec(s)[i].successful_requests == 0 ==> rank_spec(s)[j].successful_requests == 0,
        (rank_spec(s)[i].successful_requests > 0 && rank_spec(s)[j].successful_requests > 0)
            ==> opt_ns(rank_spec(s)[i].avg_time) <= opt_ns(rank_spec(s)[j].avg_time),
{
    lemma_rank_sorted(s);
    lemma_rank_elems(s, i);
    lemma_rank_elems(s, j);
    let a = rank_spec(s)[i];
    let b = rank_spec(s)[j];
    assert(a.wf() && b.wf());
    assert(a.rank_key() <= b.rank_key());
}

/// The ranked sequence is sorted by rank key.
pub proof fn lemma_rank_sorted(s: Seq<ServerResult>)
    ensures
        sorted_by_key(rank_spec(s)),
    decreases s.len(),
{
    if s.len() > 0 {
        lemma_rank_sorted(s.drop_last());
        lemma_insert_ranked_sorted(s.last(), rank_spec(s.drop_last()));
    }
}

/// RANKING LAW (completeness): ranking permutes the collected results; it
/// loses none and invents none.
pub proof fn lemma_rank_permutes(s: Seq<ServerResult>)
    ensures
        rank_spec(s).len() == s.len(),
        rank_spec(s).to_multiset() == s.to_multiset(),
    decreases s.len(),
{
    broadcast use vstd::seq_lib::group_to_multiset_ensures;

    if s.len() == 0 {
    } else {
        lemma_rank_permutes(s.drop_last());
        lemma_insert_ranked_multiset(s.last(), rank_spec(s.drop_last()));
        lemma_insert_ranked_elems(s.last(), rank_spec(s.drop_last()), 0);
        assert(s.drop_last().push(s.last()) =~= s);
        assert(s.drop_last().push(s.last()).to_multiset() =~= s.drop_last().to_multiset().insert(
            s.last(),
        ));
    }
}

/// Every element of the ranked sequence occurs in the input.
pub proof fn lemma_rank_elems(s: Seq<ServerResult>, i: int)
    requires
        0 <= i < rank_spec(s).len(),
    ensures
        s.contains(rank_spec(s)[i]),
    decreases s.len(),
{
    lemma_rank_permutes(s);
    if s.len() > 0 {
        let pre = rank_spec(s.drop_last());
        lemma_insert_ranked_elems(s.last(), pre, i);
        let e = rank_spec(s)[i];
        if e == s.last() {
            assert(s[s.len() - 1] == e);
        } else {
            assert(pre.contains(e));
            let k = choose|k: int| 0 <= k < pre.len() && pre[k] == e;
            lemma_rank_elems(s.drop_last(), k);
            let k2 = choose|k2: int| 0 <= k2 < s.drop_last().len() && s.drop_last()[k2] == e;
            assert(s[k2] == e);
        }
    }
}

/// Rank a collection of server results: stable ascending order by average
/// time, fully-failed servers last.
pub fn rank_results(results: Vec<ServerResult>) -> (r: Vec<ServerResult>)
    ensures
        r@ == rank_spec(results@),
{
    let ghost orig = results@;
    let mut rest = results;
    let mut out: Vec<ServerResult> = Vec::new();
    let ghost mut k: int = 0;
    while rest.len() > 0
        invariant
            0 <= k <= orig.len(),
            rest@ =~= orig.subrange(k, orig.len() as int),
            out@ == rank_spec(orig.subrange(0, k)),
        decreases rest@.len(),
    {
        proof {
            assert(rest@[0] == orig[k]);
        }
        let x = rest.remove(0);
        insert_sorted(&mut out, x);
        proof {
            assert(orig.subrange(0, k + 1).drop_last() =~= orig.subrange(0, k));
            assert(orig.subrange(0, k + 1).last() == orig[k]);
            assert(orig.subrange(k, orig.len() as int).remove(0) =~= orig.subrange(
                k + 1,
                orig.len() as int,
            ));
            k = k + 1;
        }
    }
    proof {
        assert(orig.subrange(0, k) =~= orig);
    }
    out
}

/// Insert one result into an already ranked vector, after every element
/// whose key is at most its own.
fn insert_sorted(out: &mut Vec<ServerResult>, x: ServerResult)
    ensures
        final(out)@ == insert_ranked(x, old(out)@),
{
    let mut j: usize = 0;
    loop
        invariant
            j <= out@.len(),
            out@ == old(out)@,
            forall|k: int| 0 <= k < j ==> out@[k].rank_key() <= x.rank_key(),
        ensures
            j <= out@.len(),
            out@ == old(out)@,
            forall|k: int| 0 <= k < j ==> out@[k].rank_key() <= x.rank_key(),
            j < out@.len() ==> out@[j as int].rank_key() > x.rank_key(),
        decreases out@.len() - j,
    {
        if j == out.len() {
            break;
        }
        if !key_le(&out[j], &x) {
            break;
        }
        j += 1;
    }
    proof {
        lemma_insert_ranked_at(x, out@, j as int);
    }
    out.insert(j, x);
}

} // verus!

verus! {

/// A server answered every request it was sent (and was sent at least one).
pub open spec fn is_fully_successful(r: ServerResult) -> bool {
    r.total_requests > 0 && r.successful_requests == r.total_requests
}

/// The subsequence of fully-successful results, in order.
pub open spec fn keep_fully_successful(s: Seq<ServerResult>) -> Seq<ServerResult>
    decreases s.len(),
{
    if s.len() == 0 {
        Seq::empty()
    } else if is_fully_successful(s.last()) {
        keep_fully_successful(s.drop_last()).push(s.last())
    } else {
        keep_fully_successful(s.drop_last())
    }
}

/// The subsequence of fully-failed results, in order.
pub open spec fn keep_failed(s: Seq<ServerResult>) -> Seq<ServerResult>
    decreases s.len(),
{
    if s.len() == 0 {
        Seq::empty()
    } else if s.last().successful_requests == 0 {
        keep_failed(s.drop_last()).push(s.last())
    } else {
        keep_failed(s.drop_last())
    }
}

/// Complete results of one benchmark run.
#[derive(Debug, Clone)]
pub struct BenchmarkResult {
    /// Results for each server, ranked by average time.
    pub servers: Vec<ServerResult>,
    /// Total benchmark duration in nanoseconds.
    pub duration: u64,
    /// Domain that was tested.
    pub domain: String,
    /// Number of requests per server.
    pub requests_per_server: u32,
}

impl BenchmarkResult {
    /// The fastest server: the first element after ranking, if any.
    pub fn fastest(&self) -> (r: Option<&ServerResult>)
        ensures
            match r {
                Some(x) => self.servers@.len() > 0 && *x == self.servers@[0],
                None => self.servers@.len() == 0,
            },
    {
        if self.servers.len() == 0 {
            None
        } else {
            Some(&self.servers[0])
        }
    }

    /// The servers that answered every request (success rate of 100%).
    pub fn fully_successful(&self) -> (r: Vec<ServerResult>)
        ensures
            r@ == keep_fully_successful(self.servers@),
    {
        let s = &self.servers;
        let mut out: Vec<ServerResult> = Vec::new();
        let mut i: usize = 0;
        while i < s.len()
            invariant
                i <= s@.len(),
                out@ == keep_fully_successful(s@.subrange(0, i as int)),
            decreases s@.len() - i,
        {
            proof {
                assert(s@.subrange(0, i + 1 as int).drop_last() =~= s@.subrange(0, i as int));
                assert(s@.subrange(0, i + 1 as int).last() == s@[i as int]);
            }
            if s[i].total_requests > 0 && s[i].successful_requests == s[i].total_requests {
                let copy = s[i].duplicate();
                out.push(copy);
            }
            i += 1;
        }
        proof {
            assert(s@.subrange(0, s@.len() as int) =~= s@);
        }
        out
    }

    /// The servers whose every request failed.
    pub fn completely_failed(&self) -> (r: Vec<ServerResult>)
        ensures
            r@ == keep_failed(self.servers@),
    {
        let s = &self.servers;
        let mut out: Vec<ServerResult> = Vec::new();
        let mut i: usize = 0;
        while i < s.len()
            invariant
                i <= s@.len(),
                out@ == keep_failed(s@.subrange(0, i as int)),
            decreases s@.len() - i,
        {
            proof {
                assert(s@.subrange(0, i + 1 as int).drop_last() =~= s@.subrange(0, i as int));
                assert(s@.subrange(0, i + 1 as int).last() == s@[i as int]);
            }
            if s[i].successful_requests == 0 {
                let copy = s[i].duplicate();
                out.push(copy);
            }
            i += 1;
        }
        proof {
            assert(s@.subrange(0, s@.len() as int) =~= s@);
        }
        out
    }
}

} // verus!

verus! {

/// The subsequence of results whose rank key is `k`, in order.
pub open spec fn filter_key(s: Seq<ServerResult>, k: int) -> Seq<ServerResult>
    decreases s.len(),
{
    if s.len() == 0 {
        Seq::empty()
    } else if s.first().rank_key() == k {
        seq![s.first()] + filter_key(s.drop_first(), k)
    } else {
        filter_key(s.drop_first(), k)
    }
}

/// Appending one element extends the key-filtered subsequence exactly when
/// its key matches.
proof fn lemma_filter_key_push(s: Seq<ServerResult>, x: ServerResult, k: int)
    ensures
        filter_key(s.push(x), k) == (if x.rank_key() == k {
            filter_key(s, k).push(x)
        } else {
            filter_key(s, k)
        }),
    decreases s.len(),
{
    let t = s.push(x);
    if s.len() == 0 {
        assert(t.first() == x);
        assert(t.drop_first() =~= Seq::<ServerResult>::empty());
        assert(filter_key(t.drop_first(), k) == Seq::<ServerResult>::empty());
        if x.rank_key() == k {
            assert(filter_key(t, k) == seq![x] + Seq::<ServerResult>::empty());
            assert(filter_key(s, k) == Seq::<ServerResult>::empty());
            assert(seq![x] + Seq::<ServerResult>::empty() =~= Seq::<
                ServerResult,
            >::empty().push(x));
        } else {
            assert(filter_key(t, k) == Seq::<ServerResult>::empty());
        }
    } else {
        assert(t.first() == s.first());
        assert(t.drop_first() =~= s.drop_first().push(x));
        lemma_filter_key_push(s.drop_first(), x, k);
        let fd = filter_key(s.drop_first(), k);
        if s.first().rank_key() == k {
            assert(filter_key(s, k) == seq![s.first()] + fd);
            if x.rank_key() == k {
                assert(filter_key(t, k) == seq![s.first()] + fd.push(x));
                assert(seq![s.first()] + fd.push(x) =~= (seq![s.first()] + fd).push(x));
            } else {
                assert(filter_key(t, k) == seq![s.first()] + fd);
            }
        } else {
            assert(filter_key(s, k) == fd);
            if x.rank_key() == k {
                assert(filter_key(t, k) == fd.push(x));
            } else {
                assert(filter_key(t, k) == fd);
            }
        }
    }
}

/// In a sorted sequence whose first key already exceeds `k`, no element has
/// key `k`.
proof fn lemma_filter_key_empty(s: Seq<ServerResult>, k: int)
    requires
        sorted_by_key(s),
        s.len() > 0 ==> s.first().rank_key() > k,
    ensures
        filter_key(s, k) == Seq::<ServerResult>::empty(),
    decreases s.len(),
{
    if s.len() > 0 {
        assert(sorted_by_key(s.drop_first()));
        if s.drop_first().len() > 0 {
            assert(s.drop_first().first() == s[1]);
            assert(s[0].rank_key() <= s[1].rank_key());
        }
        lemma_filter_key_empty(s.drop_first(), k);
    }
}

/// Stable insertion places the new element after every earlier element with
/// its key, so each key's subsequence just gains the new element at the end.
proof fn lemma_insert_ranked_filter(x: ServerResult, s: Seq<ServerResult>, k: int)
    requires
        sorted_by_key(s),
    ensures
        filter_key(insert_ranked(x, s), k) == (if x.rank_key() == k {
            filter_key(s, k).push(x)
        } else {
            filter_key(s, k)
        }),
    decreases s.len(),
{
    if s.len() == 0 {
        assert(insert_ranked(x, s) =~= Seq::<ServerResult>::empty().push(x));
        lemma_filter_key_push(Seq::<ServerResult>::empty(), x, k);
    } else if s.first().rank_key() <= x.rank_key() {
        let t = seq![s.first()] + insert_ranked(x, s.drop_first());
        assert(t.first() == s.first());
        assert(t.drop_first() =~= insert_ranked(x, s.drop_first()));
        assert(sorted_by_key(s.drop_first()));
        lemma_insert_ranked_filter(x, s.drop_first(), k);
        if s.first().rank_key() == k {
            if x.rank_key() == k {
                assert(seq![s.first()] + filter_key(s.drop_first(), k).push(x) =~= (seq![
                    s.first(),
                ] + filter_key(s.drop_first(), k)).push(x));
            }
        }
    } else {
        let t = seq![x] + s;
        assert(t.first() == x);
        assert(t.drop_first() =~= s);
        if x.rank_key() == k {
            // every element of s has a key above k, so x is alone with it
            lemma_filter_key_empty(s, k);
            assert(seq![x] + Seq::<ServerResult>::empty() =~= Seq::<
                ServerResult,
            >::empty().push(x));
            assert(filter_key(s, k).push(x) =~= Seq::<ServerResult>::empty().push(x));
        }
    }
}

/// RANKING LAW (stability): for every key, the ranked sequence keeps the
/// relative order of the results sharing it; tied servers stand in the
/// order their results were collected.
pub proof fn lemma_rank_stable(s: Seq<ServerResult>, k: int)
    ensures
        filter_key(rank_spec(s), k) == filter_key(s, k),
    decreases s.len(),
{
    if s.len() > 0 {
        let pre = s.drop_last();
        lemma_rank_stable(pre, k);
        lemma_rank_sorted(pre);
        lemma_insert_ranked_filter(s.last(), rank_spec(pre), k);
        lemma_filter_key_push(pre, s.last(), k);
        assert(pre.push(s.last()) =~= s);
    }
}

} // verus!
