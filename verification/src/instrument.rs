//! What the request instrumentation records for one request.
//!
//! Handling a request alternates between recording metrics and awaiting the
//! rest of the chain. The decisions stand here as two steps: when a request
//! arrives, [`RequestMetricsMiddleware::begin_request`] fixes its labels and
//! lists the updates to make before the request goes on; when it has been
//! answered, [`finish_request`] lists the updates that follow from the
//! outcome. The caller performs the updates on the metric families.

use vstd::prelude::*;
use crate::labelling_laws::law_path_label_is_bounded;
use crate::middleware::{
    byte_len, ellipsis, lemma_path_part_prefix, other_label, path_only, path_part,
    truncated_path_label, unlabelled_path, LabelState, RequestMetricsMiddleware, KEPT_PATH_BYTES,
};

verus! {

/// The metric families the instrumentation records.
#[derive(Clone, Copy, Debug, PartialEq, Eq, Structural)]
pub enum RequestMetric {
    /// `http_requests_total`, labelled by method, path and status.
    RequestsTotal,
    /// `http_request_duration_seconds`, labelled by method, path and status.
    RequestDuration,
    /// `http_requests_in_flight`, labelled by method and path.
    RequestsInFlight,
    /// `http_request_size_bytes`, labelled by method and path.
    RequestSize,
    /// `http_response_size_bytes`, labelled by method, path and status.
    ResponseSize,
}

/// What to do to the labelled series.
#[derive(Clone, Copy, Debug, PartialEq, Eq, Structural)]
pub enum MetricAction {
    /// Add one.
    Increment,
    /// Subtract one.
    Decrement,
    /// Observe a size in bytes.
    ObserveBytes(usize),
    /// Observe the time the request took, measured by the caller.
    ObserveElapsed,
}

/// One update of one labelled series.
pub struct MetricUpdate {
    pub metric: RequestMetric,
    /// Label values, in the order of the family's label names.
    pub labels: Vec<String>,
    pub action: MetricAction,
}

/// The mathematical form of a [`MetricUpdate`].
pub struct UpdateView {
    pub metric: RequestMetric,
    pub labels: Seq<Seq<char>>,
    pub action: MetricAction,
}

impl View for MetricUpdate {
    type V = UpdateView;

    open spec fn view(&self) -> UpdateView {
        UpdateView {
            metric: self.metric,
            labels: self.labels@.map_values(|s: String| s@),
            action: self.action,
        }
    }
}

/// The labels fixed for a request when it arrives.
pub struct RequestLabels {
    pub method: String,
    pub path: String,
}

/// How a request ended: with a response, or with an error that carries a
/// status code.
#[derive(Clone, Copy, Debug, PartialEq, Eq, Structural)]
pub enum RequestOutcome {
    Responded { status: u16, body_len: usize },
    Failed { status: u16 },
}

impl RequestOutcome {
    pub open spec fn status(self) -> u16 {
        match self {
            RequestOutcome::Responded { status, .. } => status,
            RequestOutcome::Failed { status } => status,
        }
    }
}

/// The decimal digit `d` as a character.
pub open spec fn digit_char(d: nat) -> char {
    (48 + d) as char
}

/// The decimal representation of `n`, without leading zeros.
pub open spec fn decimal(n: nat) -> Seq<char>
    decreases n,
{
    if n < 10 {
        seq![digit_char(n)]
    } else {
        decimal(n / 10).push(digit_char(n % 10))
    }
}

/// The updates made when a request with method `method`, path label `path`
/// and a body of `body_len` bytes arrives: its size is observed and it is
/// counted in flight.
pub open spec fn arrival_updates(method: Seq<char>, path: Seq<char>, body_len: usize) -> Seq<
    UpdateView,
> {
    seq![
        UpdateView {
            metric: RequestMetric::RequestSize,
            labels: seq![method, path],
            action: MetricAction::ObserveBytes(body_len),
        },
        UpdateView {
            metric: RequestMetric::RequestsInFlight,
            labels: seq![method, path],
            action: MetricAction::Increment,
        },
    ]
}

/// The updates made when that request ends: it leaves the in-flight count,
/// is counted and timed under its status, and a response also has its size
/// observed.
pub open spec fn completion_updates(
    method: Seq<char>,
    path: Seq<char>,
    outcome: RequestOutcome,
) -> Seq<UpdateView> {
    let status = decimal(outcome.status() as nat);
    let common = seq![
        UpdateView {
            metric: RequestMetric::RequestsInFlight,
            labels: seq![method, path],
            action: MetricAction::Decrement,
        },
        UpdateView {
            metric: RequestMetric::RequestsTotal,
            labels: seq![method, path, status],
            action: MetricAction::Increment,
        },
        UpdateView {
            metric: RequestMetric::RequestDuration,
            labels: seq![method, path, status],
            action: MetricAction::ObserveElapsed,
        },
    ];
    match outcome {
        RequestOutcome::Responded { body_len, .. } => common.push(
            UpdateView {
                metric: RequestMetric::ResponseSize,
                labels: seq![method, path, status],
                action: MetricAction::ObserveBytes(body_len),
            },
        ),
        RequestOutcome::Failed { .. } => common,
    }
}

fn digit_str(d: u16) -> (s: &'static str)
    requires
        d < 10,
    ensures
        s@ == seq![digit_char(d as nat)],
{
    proof {
        reveal_strlit("0");
        reveal_strlit("1");
        reveal_strlit("2");
        reveal_strlit("3");
        reveal_strlit("4");
        reveal_strlit("5");
        reveal_strlit("6");
        reveal_strlit("7");
        reveal_strlit("8");
        reveal_strlit("9");
    }
    let s = match d {
        0 => "0",
        1 => "1",
        2 => "2",
        3 => "3",
        4 => "4",
        5 => "5",
        6 => "6",
        7 => "7",
        8 => "8",
        _ => "9",
    };
    proof {
        assert(s@ =~= seq![digit_char(d as nat)]);
    }
    s
}

/// The status label of a status code: its decimal form.
pub fn status_label(status: u16) -> (label: String)
    ensures
        label@ == decimal(status as nat),
    decreases status,
{
    if status < 10 {
        digit_str(status).to_owned()
    } else {
        let mut label = status_label(status / 10);
        label.append(digit_str(status % 10));
        label
    }
}

fn labels2(a: &String, b: &String) -> (v: Vec<String>)
    ensures
        v@.map_values(|s: String| s@) == seq![a@, b@],
{
    let mut v = Vec::new();
    v.push(a.clone());
    v.push(b.clone());
    proof {
        assert(v@.map_values(|s: String| s@) =~= seq![a@, b@]);
    }
    v
}

fn labels3(a: &String, b: &String, c: &String) -> (v: Vec<String>)
    ensures
        v@.map_values(|s: String| s@) == seq![a@, b@, c@],
{
    let mut v = Vec::new();
    v.push(a.clone());
    v.push(b.clone());
    v.push(c.clone());
    proof {
        assert(v@.map_values(|s: String| s@) =~= seq![a@, b@, c@]);
    }
    v
}

impl RequestMetricsMiddleware {
    /// Fixes the labels of an arriving request and lists the updates to make
    /// before it goes on: the path label comes from the target's path (its
    /// query string dropped) under the cardinality bound.
    pub fn begin_request(&mut self, method: &str, target: &str, body_len: usize) -> (res: (
        RequestLabels,
        Vec<MetricUpdate>,
    ))
        ensures
            final(self).wf(),
            res.0.method@ == method@,
            (final(self)@, res.0.path@) == old(self)@.step(path_part(target@)),
            res.1@.map_values(|u: MetricUpdate| u@) == arrival_updates(
                method@,
                res.0.path@,
                body_len,
            ),
    {
        let path = self.sanitize_path(path_only(target));
        let labels = RequestLabels { method: method.to_owned(), path };
        let mut updates = Vec::new();
        updates.push(
            MetricUpdate {
                metric: RequestMetric::RequestSize,
                labels: labels2(&labels.method, &labels.path),
                action: MetricAction::ObserveBytes(body_len),
            },
        );
        updates.push(
            MetricUpdate {
                metric: RequestMetric::RequestsInFlight,
                labels: labels2(&labels.method, &labels.path),
                action: MetricAction::Increment,
            },
        );
        proof {
            assert(updates@.map_values(|u: MetricUpdate| u@) =~= arrival_updates(
                method@,
                labels.path@,
                body_len,
            ));
        }
        (labels, updates)
    }
}

/// Lists the updates that follow from how a request ended.
pub fn finish_request(labels: &RequestLabels, outcome: RequestOutcome) -> (updates: Vec<
    MetricUpdate,
>)
    ensures
        updates@.map_values(|u: MetricUpdate| u@) == completion_updates(
            labels.method@,
            labels.path@,
            outcome,
        ),
{
    let status = match outcome {
        RequestOutcome::Responded { status, .. } => status,
        RequestOutcome::Failed { status } => status,
    };
    let status = status_label(status);
    let mut updates = Vec::new();
    updates.push(
        MetricUpdate {
            metric: RequestMetric::RequestsInFlight,
            labels: labels2(&labels.method, &labels.path),
            action: MetricAction::Decrement,
        },
    );
    updates.push(
        MetricUpdate {
            metric: RequestMetric::RequestsTotal,
            labels: labels3(&labels.method, &labels.path, &status),
            action: MetricAction::Increment,
        },
    );
    updates.push(
        MetricUpdate {
            metric: RequestMetric::RequestDuration,
            labels: labels3(&labels.method, &labels.path, &status),
            action: MetricAction::ObserveElapsed,
        },
    );
    match outcome {
        RequestOutcome::Responded { body_len, .. } => {
            updates.push(
                MetricUpdate {
                    metric: RequestMetric::ResponseSize,
                    labels: labels3(&labels.method, &labels.path, &status),
                    action: MetricAction::ObserveBytes(body_len),
                },
            );
        },
        RequestOutcome::Failed { .. } => {},
    }
    proof {
        assert(updates@.map_values(|u: MetricUpdate| u@) =~= completion_updates(
            labels.method@,
            labels.path@,
            outcome,
        ));
    }
    updates
}

/// The value a decimal numeral denotes: its digits read left to right, each
/// digit character standing for its distance from '0'.
pub open spec fn numeral_value(s: Seq<char>) -> int
    decreases s.len(),
{
    if s.len() == 0 {
        0
    } else {
        numeral_value(s.drop_last()) * 10 + (s.last() as int - '0' as int)
    }
}

pub open spec fn is_digit_char(c: char) -> bool {
    '0' <= c && c <= '9'
}

/// A status label is the standard decimal numeral of the status code: only
/// the digits '0' to '9', no leading zero (but for 0 itself), and read back
/// as a number it is the status.
pub proof fn law_status_label_is_decimal(status: u16)
    ensures
        numeral_value(decimal(status as nat)) == status as int,
        decimal(status as nat).len() >= 1,
        forall|i: int|
            0 <= i < decimal(status as nat).len() ==> is_digit_char(
                #[trigger] decimal(status as nat)[i],
            ),
        decimal(status as nat)[0] == '0' ==> status == 0,
{
    lemma_decimal(status as nat);
}

proof fn lemma_digit_char(d: nat)
    requires
        d < 10,
    ensures
        digit_char(d) as int == '0' as int + d,
        is_digit_char(digit_char(d)),
{
    assert(d == 0 || d == 1 || d == 2 || d == 3 || d == 4 || d == 5 || d == 6 || d == 7 || d == 8
        || d == 9);
}

proof fn lemma_decimal(n: nat)
    ensures
        numeral_value(decimal(n)) == n,
        decimal(n).len() >= 1,
        forall|i: int| 0 <= i < decimal(n).len() ==> is_digit_char(#[trigger] decimal(n)[i]),
        decimal(n)[0] == '0' ==> n == 0,
    decreases n,
{
    if n < 10 {
        lemma_digit_char(n);
        let s = decimal(n);
        assert(s.drop_last() =~= Seq::<char>::empty());
        assert(numeral_value(s.drop_last()) == 0);
    } else {
        lemma_decimal(n / 10);
        lemma_digit_char(n % 10);
        let prefix = decimal(n / 10);
        let s = decimal(n);
        assert(s == prefix.push(digit_char(n % 10)));
        assert(s.drop_last() =~= prefix);
        assert(s[0] == prefix[0]);
        assert forall|i: int| 0 <= i < s.len() implies is_digit_char(#[trigger] s[i]) by {
            if i < prefix.len() {
                assert(s[i] == prefix[i]);
            }
        }
        if s[0] == '0' {
            assert(n / 10 == 0);
        }
    }
}

/// The label values of one update, as the family's label names call for
/// them: `[method, path]` for the in-flight gauge and the request size,
/// `[method, path, status]` for the request count, duration and response size.
pub open spec fn labels_follow_family(
    u: UpdateView,
    method: Seq<char>,
    path: Seq<char>,
    status: Seq<char>,
) -> bool {
    &&& u.labels.len() >= 2
    &&& u.labels[0] == method
    &&& u.labels[1] == path
    &&& (u.metric == RequestMetric::RequestsInFlight || u.metric == RequestMetric::RequestSize)
        ==> u.labels.len() == 2
    &&& (u.metric == RequestMetric::RequestsTotal || u.metric == RequestMetric::RequestDuration
        || u.metric == RequestMetric::ResponseSize) ==> u.labels.len() == 3 && u.labels[2]
        == status
}

/// Every update of one request carries the label values of its family in
/// label-name order, with the method and path fixed at arrival and the status
/// rendered in decimal; durations are observed as elapsed time and sizes as
/// the byte counts of the request and of the response.
pub proof fn law_updates_carry_request_labels(
    method: Seq<char>,
    path: Seq<char>,
    body_len: usize,
    outcome: RequestOutcome,
)
    ensures
        forall|i: int|
            0 <= i < arrival_updates(method, path, body_len).len() ==> labels_follow_family(
                #[trigger] arrival_updates(method, path, body_len)[i],
                method,
                path,
                decimal(outcome.status() as nat),
            ),
        forall|i: int|
            0 <= i < completion_updates(method, path, outcome).len() ==> labels_follow_family(
                #[trigger] completion_updates(method, path, outcome)[i],
                method,
                path,
                decimal(outcome.status() as nat),
            ),
        forall|i: int|
            0 <= i < arrival_updates(method, path, body_len).len() && #[trigger] arrival_updates(
                method,
                path,
                body_len,
            )[i].metric == RequestMetric::RequestSize ==> arrival_updates(
                method,
                path,
                body_len,
            )[i].action == MetricAction::ObserveBytes(body_len),
        forall|i: int|
            0 <= i < completion_updates(method, path, outcome).len() && #[trigger] completion_updates(
                method,
                path,
                outcome,
            )[i].metric == RequestMetric::RequestDuration ==> completion_updates(
                method,
                path,
                outcome,
            )[i].action == MetricAction::ObserveElapsed,
        forall|i: int|
            0 <= i < completion_updates(method, path, outcome).len() && #[trigger] completion_updates(
                method,
                path,
                outcome,
            )[i].metric == RequestMetric::ResponseSize ==> (outcome matches RequestOutcome::Responded {
                body_len: n,
                ..
            } && completion_updates(method, path, outcome)[i].action == MetricAction::ObserveBytes(
                n,
            )),
        (exists|i: int|
            0 <= i < completion_updates(method, path, outcome).len()
                && #[trigger] completion_updates(method, path, outcome)[i].metric
                == RequestMetric::RequestDuration),
        outcome is Responded ==> (exists|i: int|
            0 <= i < completion_updates(method, path, outcome).len()
                && #[trigger] completion_updates(method, path, outcome)[i].metric
                == RequestMetric::ResponseSize),
{
    let c = completion_updates(method, path, outcome);
    assert(c[2].metric == RequestMetric::RequestDuration);
    if outcome is Responded {
        assert(c[3].metric == RequestMetric::ResponseSize);
    }
}

pub open spec fn is_in_flight_change(u: UpdateView, action: MetricAction) -> bool {
    u.metric == RequestMetric::RequestsInFlight && u.action == action
}

pub open spec fn is_request_count(u: UpdateView) -> bool {
    u.metric == RequestMetric::RequestsTotal
}

/// Over the whole of one request, whatever its outcome, the in-flight gauge
/// of its labels goes up once and down once, so it ends where it started,
/// and the request is counted exactly once.
pub proof fn law_in_flight_balanced(
    method: Seq<char>,
    path: Seq<char>,
    body_len: usize,
    outcome: RequestOutcome,
)
    ensures
        ({
            let all = arrival_updates(method, path, body_len) + completion_updates(
                method,
                path,
                outcome,
            );
            &&& all.filter(|u: UpdateView| is_in_flight_change(u, MetricAction::Increment))
                == seq![
                UpdateView {
                    metric: RequestMetric::RequestsInFlight,
                    labels: seq![method, path],
                    action: MetricAction::Increment,
                },
            ]
            &&& all.filter(|u: UpdateView| is_in_flight_change(u, MetricAction::Decrement))
                == seq![
                UpdateView {
                    metric: RequestMetric::RequestsInFlight,
                    labels: seq![method, path],
                    action: MetricAction::Decrement,
                },
            ]
            &&& all.filter(|u: UpdateView| is_request_count(u)).len() == 1
        }),
{
    let all = arrival_updates(method, path, body_len) + completion_updates(method, path, outcome);
    reveal_with_fuel(Seq::filter, 7);
    match outcome {
        RequestOutcome::Responded { .. } => {
            assert(all.len() == 6);
            assert(all.drop_last() =~= all.subrange(0, 5));
        },
        RequestOutcome::Failed { .. } => {
            assert(all.len() == 5);
        },
    }
    assert(all.filter(|u: UpdateView| is_in_flight_change(u, MetricAction::Increment))
        =~= seq![
        UpdateView {
            metric: RequestMetric::RequestsInFlight,
            labels: seq![method, path],
            action: MetricAction::Increment,
        },
    ]);
    assert(all.filter(|u: UpdateView| is_in_flight_change(u, MetricAction::Decrement))
        =~= seq![
        UpdateView {
            metric: RequestMetric::RequestsInFlight,
            labels: seq![method, path],
            action: MetricAction::Decrement,
        },
    ]);
}

proof fn lemma_path_part_has_no_query(target: Seq<char>)
    ensures
        !path_part(target).contains('?'),
    decreases target.len(),
{
    if target.len() > 0 && target[0] != '?' {
        lemma_path_part_has_no_query(target.drop_first());
        let rest = path_part(target.drop_first());
        assert(path_part(target) == seq![target[0]] + rest);
        assert forall|i: int| 0 <= i < path_part(target).len() implies path_part(target)[i]
            != '?' by {
            if i > 0 {
                assert(path_part(target)[i] == rest[i - 1]);
            }
        }
    }
}

/// The query string never reaches the path label: a target without '?' is
/// its own path, a target with a query string gets the same label as its
/// path alone, and no label given to a request holds a '?'.
pub proof fn law_query_string_ignored(
    s: LabelState,
    path: Seq<char>,
    query: Seq<char>,
    target: Seq<char>,
)
    requires
        !path.contains('?'),
    ensures
        path_part(path) == path,
        path_part(path + seq!['?'] + query) == path,
        s.step(path_part(path + seq!['?'] + query)) == s.step(path),
        !path_part(target).contains('?'),
        !s.step(path_part(target)).1.contains('?'),
{
    assert forall|j: int| 0 <= j < path.len() implies path[j] != '?' by {
        if path[j] == '?' {
            assert(path.contains('?'));
        }
    }
    lemma_path_part_prefix(path, path.len() as int);
    assert(path.take(path.len() as int) =~= path);
    let full = path + seq!['?'] + query;
    assert forall|j: int| 0 <= j < path.len() implies full[j] != '?' by {
        assert(full[j] == path[j]);
    }
    assert(full[path.len() as int] == '?');
    lemma_path_part_prefix(full, path.len() as int);
    assert(full.take(path.len() as int) =~= path);
    lemma_path_part_has_no_query(target);
    let p = path_part(target);
    assert(!truncated_path_label(p).contains('?')) by {
        law_path_label_is_bounded(p);
        if truncated_path_label(p) != p {
            let k = choose|k: int|
                0 <= k <= p.len() && byte_len(p.take(k)) <= KEPT_PATH_BYTES
                    && truncated_path_label(p) == p.take(k) + ellipsis();
            let l = truncated_path_label(p);
            assert forall|i: int| 0 <= i < l.len() implies l[i] != '?' by {
                if i < k {
                    assert(l[i] == p[i]);
                    if p[i] == '?' {
                        assert(p.contains('?'));
                    }
                } else {
                    assert(l[i] == ellipsis()[i - k]);
                }
            }
        }
    }
    assert(!other_label().contains('?')) by {
        assert forall|i: int| 0 <= i < other_label().len() implies other_label()[i] != '?' by {}
    }
    assert(!unlabelled_path().contains('?')) by {
        assert forall|i: int| 0 <= i < unlabelled_path().len() implies unlabelled_path()[i]
            != '?' by {}
    }
}

} // verus!
