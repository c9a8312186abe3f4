//! A grouped cost response, flattened into one observation per service and
//! cost metric.
use vstd::prelude::*;
use vstd::string::StringExecFns;

verus! {

/// One cost metric of a group: its name and the amount as the billing
/// service wrote it.
#[derive(Clone, Debug)]
pub struct MetricEntry {
    pub name: String,
    pub amount: Option<String>,
}

/// The costs of one group (one service) within a time bucket.
#[derive(Clone, Debug)]
pub struct CostGroup {
    pub keys: Option<Vec<String>>,
    pub metrics: Option<Vec<MetricEntry>>,
}

/// The groups of one time bucket of the response.
#[derive(Clone, Debug)]
pub struct TimeBucket {
    pub groups: Option<Vec<CostGroup>>,
}

/// One service's cost for one metric over the reporting window.
#[derive(Clone, Debug)]
pub struct CostObservation {
    pub service: String,
    pub metric: String,
    pub amount: String,
}

/// A field that the response must hold and did not.
#[derive(Clone, Copy, Debug, PartialEq, Eq, Structural)]
pub enum ResponseError {
    MissingMetrics,
    MissingAmount,
    MissingKeys,
}

/// An observation as (service, metric, amount).
pub type ObservationView = (Seq<char>, Seq<char>, Seq<char>);

pub open spec fn observation_view(o: CostObservation) -> ObservationView {
    (o.service@, o.metric@, o.amount@)
}

pub open spec fn observations_view(v: Seq<CostObservation>) -> Seq<ObservationView> {
    v.map_values(|o: CostObservation| observation_view(o))
}

pub open spec fn result_view(r: Result<Vec<CostObservation>, ResponseError>) -> Result<
    Seq<ObservationView>,
    ResponseError,
> {
    match r {
        Ok(v) => Ok(observations_view(v@)),
        Err(e) => Err(e),
    }
}

/// The keys joined by `-`.
pub open spec fn joined_keys(keys: Seq<String>) -> Seq<char>
    decreases keys.len(),
{
    if keys.len() == 0 {
        Seq::empty()
    } else if keys.len() == 1 {
        keys[0]@
    } else {
        joined_keys(keys.drop_last()) + seq!['-'] + keys.last()@
    }
}

/// The observations of a group's metric entries, in order; the first
/// entry without an amount, or any entry when the group has no keys, fails.
pub open spec fn entries_result(keys: Option<Seq<String>>, es: Seq<MetricEntry>) -> Result<
    Seq<ObservationView>,
    ResponseError,
>
    decreases es.len(),
{
    if es.len() == 0 {
        Ok(Seq::empty())
    } else {
        match entries_result(keys, es.drop_last()) {
            Err(e) => Err(e),
            Ok(prev) => match es.last().amount {
                None => Err(ResponseError::MissingAmount),
                Some(a) => match keys {
                    None => Err(ResponseError::MissingKeys),
                    Some(k) => Ok(prev.push((joined_keys(k), es.last().name@, a@))),
                },
            },
        }
    }
}

pub open spec fn keys_view(keys: Option<Vec<String>>) -> Option<Seq<String>> {
    match keys {
        Some(k) => Some(k@),
        None => None,
    }
}

/// The observations of one group.
pub open spec fn group_result(g: CostGroup) -> Result<Seq<ObservationView>, ResponseError> {
    match g.metrics {
        None => Err(ResponseError::MissingMetrics),
        Some(ms) => entries_result(keys_view(g.keys), ms@),
    }
}

/// The observations of the groups, one group after the other.
pub open spec fn groups_result(gs: Seq<CostGroup>) -> Result<Seq<ObservationView>, ResponseError>
    decreases gs.len(),
{
    if gs.len() == 0 {
        Ok(Seq::empty())
    } else {
        match groups_result(gs.drop_last()) {
            Err(e) => Err(e),
            Ok(prev) => match group_result(gs.last()) {
                Err(e) => Err(e),
                Ok(x) => Ok(prev + x),
            },
        }
    }
}

/// The observations of one time bucket; a bucket without groups has none.
pub open spec fn bucket_result(b: TimeBucket) -> Result<Seq<ObservationView>, ResponseError> {
    match b.groups {
        None => Ok(Seq::empty()),
        Some(gs) => groups_result(gs@),
    }
}

/// The observations of the buckets, one bucket after the other.
pub open spec fn buckets_result(bs: Seq<TimeBucket>) -> Result<Seq<ObservationView>, ResponseError>
    decreases bs.len(),
{
    if bs.len() == 0 {
        Ok(Seq::empty())
    } else {
        match buckets_result(bs.drop_last()) {
            Err(e) => Err(e),
            Ok(prev) => match bucket_result(bs.last()) {
                Err(e) => Err(e),
                Ok(x) => Ok(prev + x),
            },
        }
    }
}

proof fn lemma_entries_error_stays(keys: Option<Seq<String>>, es: Seq<MetricEntry>, k: int)
    requires
        0 <= k <= es.len(),
        entries_result(keys, es.take(k)) is Err,
    ensures
        entries_result(keys, es) == entries_result(keys, es.take(k)),
    decreases es.len(),
{
    if k < es.len() {
        assert(es.drop_last().take(k) == es.take(k));
        lemma_entries_error_stays(keys, es.drop_last(), k);
    } else {
        assert(es.take(k) == es);
    }
}

proof fn lemma_groups_error_stays(gs: Seq<CostGroup>, k: int)
    requires
        0 <= k <= gs.len(),
        groups_result(gs.take(k)) is Err,
    ensures
        groups_result(gs) == groups_result(gs.take(k)),
    decreases gs.len(),
{
    if k < gs.len() {
        assert(gs.drop_last().take(k) == gs.take(k));
        lemma_groups_error_stays(gs.drop_last(), k);
    } else {
        assert(gs.take(k) == gs);
    }
}

proof fn lemma_buckets_error_stays(bs: Seq<TimeBucket>, k: int)
    requires
        0 <= k <= bs.len(),
        buckets_result(bs.take(k)) is Err,
    ensures
        buckets_result(bs) == buckets_result(bs.take(k)),
    decreases bs.len(),
{
    if k < bs.len() {
        assert(bs.drop_last().take(k) == bs.take(k));
        lemma_buckets_error_stays(bs.drop_last(), k);
    } else {
        assert(bs.take(k) == bs);
    }
}

/// The service label of a group: its keys joined by `-`.
pub fn service_label(keys: &Vec<String>) -> (r: String)
    ensures
        r@ == joined_keys(keys@),
{
    let mut out = String::new();
    let mut i: usize = 0;
    while i < keys.len()
        invariant
            i <= keys.len(),
            out@ == joined_keys(keys@.take(i as int)),
        decreases keys.len() - i,
    {
        assert(keys@.take(i as int + 1).drop_last() == keys@.take(i as int));
        assert(keys@.take(i as int + 1).last() == keys@[i as int]);
        proof {
            reveal_strlit("-");
        }
        if i > 0 {
            out.append("-");
        }
        out.append(keys[i].as_str());
        i = i + 1;
    }
    assert(keys@.take(i as int) == keys@);
    out
}

/// The observations of one group: one per metric entry, in order, with the
/// group's keys joined by `-` as the service. Fails with `MissingMetrics`
/// when the group has no metrics, and at the first entry that lacks an
/// amount (`MissingAmount`) or, the group having no keys, at the first
/// entry (`MissingKeys`).
pub fn group_observations(g: &CostGroup) -> (r: Result<Vec<CostObservation>, ResponseError>)
    ensures
        result_view(r) == group_result(*g),
        g.keys is Some && r is Ok ==> r->Ok_0@.len() == g.metrics->Some_0@.len(),
        g.keys is Some && r is Ok ==> forall|i: int|
            0 <= i < r->Ok_0@.len() ==> (#[trigger] r->Ok_0@[i]).service@ == joined_keys(
                g.keys->Some_0@,
            ),
{
    let ms = match &g.metrics {
        None => {
            return Err(ResponseError::MissingMetrics);
        },
        Some(ms) => ms,
    };
    let ghost keys = keys_view(g.keys);
    let mut out: Vec<CostObservation> = Vec::new();
    let mut i: usize = 0;
    assert(observations_view(out@) =~= Seq::empty());
    assert(ms@.take(0) =~= Seq::empty());
    while i < ms.len()
        invariant
            i <= ms.len(),
            keys == keys_view(g.keys),
            g.metrics == Some(*ms),
            entries_result(keys, ms@.take(i as int)) == Ok::<Seq<ObservationView>, ResponseError>(
                observations_view(out@),
            ),
        decreases ms.len() - i,
    {
        let entry = &ms[i];
        assert(ms@.take(i as int + 1).drop_last() == ms@.take(i as int));
        assert(ms@.take(i as int + 1).last() == ms@[i as int]);
        let amount = match &entry.amount {
            None => {
                proof {
                    lemma_entries_error_stays(keys, ms@, i as int + 1);
                }
                return Err(ResponseError::MissingAmount);
            },
            Some(a) => a,
        };
        let service = match &g.keys {
            None => {
                proof {
                    lemma_entries_error_stays(keys, ms@, i as int + 1);
                }
                return Err(ResponseError::MissingKeys);
            },
            Some(k) => service_label(k),
        };
        let o = CostObservation { service, metric: entry.name.clone(), amount: amount.clone() };
        let ghost prev = out@;
        out.push(o);
        assert(observations_view(out@) == observations_view(prev).push(observation_view(o)));
        i = i + 1;
    }
    assert(ms@.take(i as int) == ms@);
    proof {
        if g.keys is Some {
            lemma_group_service_is_joined_keys(*g);
            assert forall|j: int| 0 <= j < out@.len() implies (#[trigger] out@[j]).service@
                == joined_keys(g.keys->Some_0@) by {
                assert(observations_view(out@)[j] == observation_view(out@[j]));
            }
        }
    }
    Ok(out)
}

/// The observations of one time bucket, group after group; none when the
/// bucket has no groups. Fails with the first group's failure.
pub fn bucket_observations(b: &TimeBucket) -> (r: Result<Vec<CostObservation>, ResponseError>)
    ensures
        result_view(r) == bucket_result(*b),
{
    let gs = match &b.groups {
        None => {
            let none: Vec<CostObservation> = Vec::new();
            assert(observations_view(none@) =~= Seq::empty());
            return Ok(none);
        },
        Some(gs) => gs,
    };
    let mut out: Vec<CostObservation> = Vec::new();
    let mut i: usize = 0;
    assert(observations_view(out@) =~= Seq::empty());
    assert(gs@.take(0) =~= Seq::empty());
    while i < gs.len()
        invariant
            i <= gs.len(),
            b.groups == Some(*gs),
            groups_result(gs@.take(i as int)) == Ok::<Seq<ObservationView>, ResponseError>(
                observations_view(out@),
            ),
        decreases gs.len() - i,
    {
        assert(gs@.take(i as int + 1).drop_last() == gs@.take(i as int));
        assert(gs@.take(i as int + 1).last() == gs@[i as int]);
        match group_observations(&gs[i]) {
            Err(e) => {
                proof {
                    lemma_groups_error_stays(gs@, i as int + 1);
                }
                return Err(e);
            },
            Ok(mut more) => {
                let ghost prev = out@;
                let ghost added = more@;
                out.append(&mut more);
                assert(observations_view(out@) == observations_view(prev) + observations_view(
                    added,
                ));
            },
        }
        i = i + 1;
    }
    assert(gs@.take(i as int) == gs@);
    Ok(out)
}

/// Every observation of the response, bucket after bucket, group after
/// group, entry after entry. Fails, with what is missing, at the first
/// group without metrics, the first entry without an amount, or the first
/// entry of a group without keys.
pub fn flatten_response(buckets: &Vec<TimeBucket>) -> (r: Result<
    Vec<CostObservation>,
    ResponseError,
>)
    ensures
        result_view(r) == buckets_result(buckets@),
        r is Ok ==> forall|i: int|
            0 <= i < r->Ok_0@.len() ==> labels_a_response_group(
                buckets@,
                (#[trigger] r->Ok_0@[i]).service@,
            ),
{
    let mut out: Vec<CostObservation> = Vec::new();
    let mut i: usize = 0;
    assert(observations_view(out@) =~= Seq::empty());
    assert(buckets@.take(0) =~= Seq::empty());
    while i < buckets.len()
        invariant
            i <= buckets.len(),
            buckets_result(buckets@.take(i as int)) == Ok::<Seq<ObservationView>, ResponseError>(
                observations_view(out@),
            ),
        decreases buckets.len() - i,
    {
        assert(buckets@.take(i as int + 1).drop_last() == buckets@.take(i as int));
        assert(buckets@.take(i as int + 1).last() == buckets@[i as int]);
        match bucket_observations(&buckets[i]) {
            Err(e) => {
                proof {
                    lemma_buckets_error_stays(buckets@, i as int + 1);
                }
                return Err(e);
            },
            Ok(mut more) => {
                let ghost prev = out@;
                let ghost added = more@;
                out.append(&mut more);
                assert(observations_view(out@) == observations_view(prev) + observations_view(
                    added,
                ));
            },
        }
        i = i + 1;
    }
    assert(buckets@.take(i as int) == buckets@);
    proof {
        lemma_buckets_services(buckets@);
        assert forall|j: int| 0 <= j < out@.len() implies labels_a_response_group(
            buckets@,
            (#[trigger] out@[j]).service@,
        ) by {
            assert(observations_view(out@)[j] == observation_view(out@[j]));
            assert(buckets_result(buckets@)->Ok_0 == observations_view(out@));
            assert(buckets_result(buckets@)->Ok_0[j].0 == out@[j].service@);
        }
    }
    Ok(out)
}

/// The label set of an observation: its service, then its metric.
pub open spec fn label_set(o: CostObservation) -> Seq<(Seq<char>, Seq<char>)> {
    seq![("service"@, o.service@), ("metric"@, o.metric@)]
}

pub open spec fn label_views(v: Seq<(String, String)>) -> Seq<(Seq<char>, Seq<char>)> {
    v.map_values(|p: (String, String)| (p.0@, p.1@))
}

/// The label set under which an observation is published.
pub fn gauge_labels(o: &CostObservation) -> (r: Vec<(String, String)>)
    ensures
        label_views(r@) == label_set(*o),
{
    proof {
        reveal_strlit("service");
        reveal_strlit("metric");
    }
    let mut r: Vec<(String, String)> = Vec::new();
    r.push((<String as StringExecFns>::from_str("service"), o.service.clone()));
    r.push((<String as StringExecFns>::from_str("metric"), o.metric.clone()));
    assert(label_views(r@) =~= label_set(*o));
    r
}

/// Two observations of one service and metric are published under one
/// label set, so the later value takes the place of the earlier one.
pub proof fn lemma_same_labels_for_same_series(a: CostObservation, b: CostObservation)
    requires
        a.service@ == b.service@,
        a.metric@ == b.metric@,
    ensures
        label_set(a) == label_set(b),
{
}

proof fn lemma_entries_service(k: Seq<String>, es: Seq<MetricEntry>)
    requires
        entries_result(Some(k), es) is Ok,
    ensures
        entries_result(Some(k), es)->Ok_0.len() == es.len(),
        forall|i: int|
            0 <= i < es.len() ==> (#[trigger] entries_result(Some(k), es)->Ok_0[i]).0
                == joined_keys(k),
    decreases es.len(),
{
    if es.len() > 0 {
        lemma_entries_service(k, es.drop_last());
    }
}

/// Every observation of a group that has keys carries, as its service, the
/// group's keys joined by `-`, one observation per metric entry.
pub proof fn lemma_group_service_is_joined_keys(g: CostGroup)
    requires
        g.keys is Some,
        group_result(g) is Ok,
    ensures
        group_result(g)->Ok_0.len() == g.metrics->Some_0@.len(),
        forall|i: int|
            0 <= i < group_result(g)->Ok_0.len() ==> (#[trigger] group_result(g)->Ok_0[i]).0
                == joined_keys(g.keys->Some_0@),
{
    lemma_entries_service(g.keys->Some_0@, g.metrics->Some_0@);
}

/// `s` is the joined keys of one of the groups that have keys.
pub open spec fn labels_a_keyed_group(gs: Seq<CostGroup>, s: Seq<char>) -> bool {
    exists|j: int|
        0 <= j < gs.len() && (#[trigger] gs[j]).keys is Some && joined_keys(gs[j].keys->Some_0@)
            == s
}

/// `s` is the joined keys of a group with keys in one of the buckets.
pub open spec fn labels_a_response_group(bs: Seq<TimeBucket>, s: Seq<char>) -> bool {
    exists|k: int|
        0 <= k < bs.len() && (#[trigger] bs[k]).groups is Some && labels_a_keyed_group(
            bs[k].groups->Some_0@,
            s,
        )
}

proof fn lemma_keyless_entries_empty(es: Seq<MetricEntry>)
    requires
        entries_result(None, es) is Ok,
    ensures
        es.len() == 0,
{
}

proof fn lemma_groups_services(gs: Seq<CostGroup>)
    requires
        groups_result(gs) is Ok,
    ensures
        forall|i: int|
            0 <= i < groups_result(gs)->Ok_0.len() ==> labels_a_keyed_group(
                gs,
                (#[trigger] groups_result(gs)->Ok_0[i]).0,
            ),
    decreases gs.len(),
{
    if gs.len() > 0 {
        let init = gs.drop_last();
        let g = gs.last();
        lemma_groups_services(init);
        let prev = groups_result(init)->Ok_0;
        let x = group_result(g)->Ok_0;
        assert forall|i: int| 0 <= i < groups_result(gs)->Ok_0.len() implies labels_a_keyed_group(
            gs,
            (#[trigger] groups_result(gs)->Ok_0[i]).0,
        ) by {
            if i < prev.len() {
                assert(labels_a_keyed_group(init, prev[i].0));
                let j = choose|j: int|
                    0 <= j < init.len() && (#[trigger] init[j]).keys is Some && joined_keys(
                        init[j].keys->Some_0@,
                    ) == prev[i].0;
                assert(gs[j] == init[j]);
            } else {
                if g.keys is None {
                    lemma_keyless_entries_empty(g.metrics->Some_0@);
                } else {
                    lemma_group_service_is_joined_keys(g);
                    assert(x[i - prev.len()].0 == joined_keys(g.keys->Some_0@));
                    assert(gs[gs.len() - 1] == g);
                }
            }
        }
    }
}

proof fn lemma_buckets_services(bs: Seq<TimeBucket>)
    requires
        buckets_result(bs) is Ok,
    ensures
        forall|i: int|
            0 <= i < buckets_result(bs)->Ok_0.len() ==> labels_a_response_group(
                bs,
                (#[trigger] buckets_result(bs)->Ok_0[i]).0,
            ),
    decreases bs.len(),
{
    if bs.len() > 0 {
        let init = bs.drop_last();
        let b = bs.last();
        lemma_buckets_services(init);
        let prev = buckets_result(init)->Ok_0;
        assert forall|i: int| 0 <= i < buckets_result(bs)->Ok_0.len() implies labels_a_response_group(
            bs,
            (#[trigger] buckets_result(bs)->Ok_0[i]).0,
        ) by {
            if i < prev.len() {
                assert(labels_a_response_group(init, prev[i].0));
                let k = choose|k: int|
                    0 <= k < init.len() && (#[trigger] init[k]).groups is Some
                        && labels_a_keyed_group(init[k].groups->Some_0@, prev[i].0);
                assert(bs[k] == init[k]);
            } else {
                lemma_groups_services(b.groups->Some_0@);
                assert(bs[bs.len() - 1] == b);
            }
        }
    }
}

} // verus!
