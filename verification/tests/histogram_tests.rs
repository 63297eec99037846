use vanity_search::histogram::AddressHistogram;

#[test]
fn new_histogram_is_empty() {
    let h = AddressHistogram::new();
    assert_eq!(h.len(), 0);
    assert_eq!(h.total_count(), 0);
    assert_eq!(h.get(&String::from("anything")), 0);
}

#[test]
fn record_counts_each_address() {
    let mut h = AddressHistogram::new();
    let a = String::from("addr-a");
    let b = String::from("addr-b");
    h.record(&a);
    h.record(&b);
    h.record(&a);
    h.record(&a);
    assert_eq!(h.get(&a), 3);
    assert_eq!(h.get(&b), 1);
    assert_eq!(h.get(&String::from("addr-c")), 0);
    assert_eq!(h.len(), 2);
    assert_eq!(h.total_count(), 4);
}

#[test]
fn counts_sum_to_the_number_of_recordings() {
    let mut h = AddressHistogram::new();
    let names = ["p", "q", "p", "r", "p", "q"];
    for name in names {
        h.record(&String::from(name));
    }
    let mut sum: u64 = 0;
    for i in 0..h.len() {
        sum += h.count_at(i);
    }
    assert_eq!(sum, names.len() as u64);
    assert_eq!(h.total_count(), names.len() as u64);
}

#[test]
fn merge_adds_counts_pointwise() {
    let mut h1 = AddressHistogram::new();
    h1.record(&String::from("A"));
    h1.record(&String::from("A"));
    h1.record(&String::from("B"));
    let mut h2 = AddressHistogram::new();
    h2.record(&String::from("B"));
    h2.record(&String::from("B"));
    h2.record(&String::from("C"));
    h1.merge(&h2);
    assert_eq!(h1.get(&String::from("A")), 2);
    assert_eq!(h1.get(&String::from("B")), 3);
    assert_eq!(h1.get(&String::from("C")), 1);
    assert_eq!(h1.total_count(), 6);
    assert_eq!(h1.len(), 3);
}

#[test]
fn merge_with_empty_changes_nothing() {
    let mut h1 = AddressHistogram::new();
    h1.record(&String::from("A"));
    let h2 = AddressHistogram::new();
    h1.merge(&h2);
    assert_eq!(h1.get(&String::from("A")), 1);
    assert_eq!(h1.total_count(), 1);
}
