use std::collections::HashSet;

use logic_sim::spans::{ComponentSpan, ComponentSpans, WireEndpoints, WireSpans};

#[test]
fn component_spans_are_found_by_sub_chip_id() {
    let mut spans = ComponentSpans::new();
    assert!(spans.get(4).is_none());
    spans.insert(4, ComponentSpan { triangles: 0..12, labels: 0..1 });
    spans.insert(9, ComponentSpan { triangles: 12..30, labels: 1..1 });
    spans.insert(4, ComponentSpan { triangles: 30..36, labels: 1..2 });
    assert_eq!(spans.get(4).map(|s| s.triangles.clone()), Some(30..36), "a later insert replaces");
    assert_eq!(spans.get(9).map(|s| s.labels.clone()), Some(1..1));
    assert!(spans.get(5).is_none());
}

#[test]
fn only_wires_with_both_ends_in_the_set_are_within_it() {
    let mut wires = WireSpans::new();
    wires.insert(0, WireEndpoints { triangles: 0..6, owners: (1, 2) });
    wires.insert(1, WireEndpoints { triangles: 6..12, owners: (2, 3) });
    wires.insert(2, WireEndpoints { triangles: 12..18, owners: (2, 2) });
    let carried: HashSet<i32> = [1, 2].into_iter().collect();
    let mut within: Vec<std::ops::Range<usize>> = wires.fully_within(&carried).into_iter().map(|w| w.triangles.clone()).collect();
    within.sort_by_key(|r| r.start);
    assert_eq!(within, vec![0..6, 12..18]);
    assert!(wires.fully_within(&HashSet::new()).is_empty());
}
