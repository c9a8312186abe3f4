use cost_exporter::report::{
    bucket_observations, flatten_response, gauge_labels, group_observations, service_label,
    CostGroup, CostObservation, MetricEntry, ResponseError, TimeBucket,
};

fn entry(name: &str, amount: Option<&str>) -> MetricEntry {
    MetricEntry { name: name.to_string(), amount: amount.map(|a| a.to_string()) }
}

fn group(keys: Option<&[&str]>, metrics: Option<Vec<MetricEntry>>) -> CostGroup {
    CostGroup { keys: keys.map(|k| k.iter().map(|s| s.to_string()).collect()), metrics }
}

fn triples(v: &[CostObservation]) -> Vec<(String, String, String)> {
    v.iter().map(|o| (o.service.clone(), o.metric.clone(), o.amount.clone())).collect()
}

#[test]
fn two_services_give_exactly_two_observations() {
    let buckets = vec![TimeBucket {
        groups: Some(vec![
            group(Some(&["EC2"]), Some(vec![entry("NetUnblendedCost", Some("12.50"))])),
            group(Some(&["S3"]), Some(vec![entry("NetUnblendedCost", Some("3.75"))])),
        ]),
    }];
    let obs = flatten_response(&buckets).unwrap();
    assert_eq!(
        triples(&obs),
        vec![
            ("EC2".to_string(), "NetUnblendedCost".to_string(), "12.50".to_string()),
            ("S3".to_string(), "NetUnblendedCost".to_string(), "3.75".to_string()),
        ]
    );
    assert_eq!(obs[0].amount.parse::<f64>().unwrap(), 12.5);
    assert_eq!(obs[1].amount.parse::<f64>().unwrap(), 3.75);
}

#[test]
fn multiple_keys_are_joined_by_dash() {
    let g = group(Some(&["EC2", "us-east-1"]), Some(vec![entry("NetUnblendedCost", Some("1.00"))]));
    let obs = group_observations(&g).unwrap();
    assert_eq!(obs.len(), 1);
    assert_eq!(obs[0].service, "EC2-us-east-1");
}

#[test]
fn service_label_of_one_three_and_no_keys() {
    assert_eq!(service_label(&vec!["S3".to_string()]), "S3");
    assert_eq!(
        service_label(&vec!["a".to_string(), "b".to_string(), "c".to_string()]),
        "a-b-c"
    );
    assert_eq!(service_label(&vec![]), "");
}

#[test]
fn entries_and_buckets_keep_their_order() {
    let buckets = vec![
        TimeBucket {
            groups: Some(vec![group(
                Some(&["EC2"]),
                Some(vec![entry("NetUnblendedCost", Some("1")), entry("UsageQuantity", Some("2"))]),
            )]),
        },
        TimeBucket { groups: None },
        TimeBucket { groups: Some(vec![group(Some(&["S3"]), Some(vec![entry("NetUnblendedCost", Some("3"))]))]) },
    ];
    let obs = flatten_response(&buckets).unwrap();
    assert_eq!(
        triples(&obs),
        vec![
            ("EC2".to_string(), "NetUnblendedCost".to_string(), "1".to_string()),
            ("EC2".to_string(), "UsageQuantity".to_string(), "2".to_string()),
            ("S3".to_string(), "NetUnblendedCost".to_string(), "3".to_string()),
        ]
    );
}

#[test]
fn empty_response_gives_no_observations() {
    assert!(flatten_response(&vec![]).unwrap().is_empty());
    assert!(bucket_observations(&TimeBucket { groups: None }).unwrap().is_empty());
    assert!(bucket_observations(&TimeBucket { groups: Some(vec![]) }).unwrap().is_empty());
}

#[test]
fn group_without_metrics_fails() {
    let buckets = vec![TimeBucket { groups: Some(vec![group(Some(&["EC2"]), None)]) }];
    assert_eq!(flatten_response(&buckets).unwrap_err(), ResponseError::MissingMetrics);
}

#[test]
fn entry_without_amount_fails() {
    let g = group(Some(&["EC2"]), Some(vec![entry("NetUnblendedCost", None)]));
    assert_eq!(group_observations(&g).unwrap_err(), ResponseError::MissingAmount);
}

#[test]
fn group_without_keys_fails_only_when_it_has_entries() {
    let g = group(None, Some(vec![entry("NetUnblendedCost", Some("1"))]));
    assert_eq!(group_observations(&g).unwrap_err(), ResponseError::MissingKeys);
    let empty = group(None, Some(vec![]));
    assert!(group_observations(&empty).unwrap().is_empty());
}

#[test]
fn missing_amount_is_reported_before_missing_keys() {
    let g = group(None, Some(vec![entry("NetUnblendedCost", None)]));
    assert_eq!(group_observations(&g).unwrap_err(), ResponseError::MissingAmount);
}

#[test]
fn first_failure_in_order_is_reported() {
    let buckets = vec![TimeBucket {
        groups: Some(vec![
            group(Some(&["EC2"]), Some(vec![entry("NetUnblendedCost", None)])),
            group(Some(&["S3"]), None),
        ]),
    }];
    assert_eq!(flatten_response(&buckets).unwrap_err(), ResponseError::MissingAmount);
}

#[test]
fn labels_name_service_then_metric() {
    let o = CostObservation {
        service: "EC2".to_string(),
        metric: "NetUnblendedCost".to_string(),
        amount: "12.50".to_string(),
    };
    assert_eq!(
        gauge_labels(&o),
        vec![
            ("service".to_string(), "EC2".to_string()),
            ("metric".to_string(), "NetUnblendedCost".to_string()),
        ]
    );
    let newer = CostObservation { amount: "13.00".to_string(), ..o.clone() };
    assert_eq!(gauge_labels(&o), gauge_labels(&newer));
}
