use geozarr_core::byte_ranges::{any_needs_size, resolve_reads, served_spans, ReadRange};

#[test]
fn size_is_needed_only_for_open_or_end_ranges() {
    assert!(!any_needs_size(&[]));
    assert!(!any_needs_size(&[ReadRange::FromStart(0, Some(4)), ReadRange::FromStart(10, Some(2))]));
    assert!(any_needs_size(&[ReadRange::FromStart(0, Some(4)), ReadRange::FromStart(10, None)]));
    assert!(any_needs_size(&[ReadRange::FromEnd(8, Some(4))]));
}

#[test]
fn reads_fetch_exactly_the_requested_spans() {
    let ranges = [
        ReadRange::FromStart(3, Some(5)),
        ReadRange::FromStart(90, None),
        ReadRange::FromEnd(8, Some(16)),
        ReadRange::FromEnd(10, None),
    ];
    assert_eq!(resolve_reads(&ranges, 100), vec![(3, 8), (90, 100), (76, 92), (0, 90)]);
    assert_eq!(resolve_reads(&[], 100), vec![]);
}

#[test]
fn virtual_stores_cut_from_the_value() {
    let ranges = [ReadRange::FromStart(2, Some(3)), ReadRange::FromStart(4, None), ReadRange::FromEnd(1, Some(1))];
    assert_eq!(served_spans(&ranges, 10), vec![(2, 5), (4, 10), (0, 10)]);
}
