use veeduria::{after_page, PageStep, PAGE_SIZE};

#[test]
fn short_page_stops_with_everything() {
    assert_eq!(after_page(0, 10, 10, None), PageStep::Stop { keep: 10 });
    assert_eq!(after_page(2000, 2999, 999, Some(100)), PageStep::Stop { keep: 2999 });
}

#[test]
fn full_page_moves_on() {
    assert_eq!(after_page(0, 1000, 1000, None), PageStep::Fetch { offset: PAGE_SIZE });
    assert_eq!(after_page(1000, 2000, 1000, Some(5000)), PageStep::Fetch { offset: 2000 });
}

#[test]
fn cap_truncates() {
    assert_eq!(after_page(1000, 2000, 1000, Some(1500)), PageStep::Stop { keep: 1500 });
    assert_eq!(after_page(0, 1000, 1000, Some(1000)), PageStep::Stop { keep: 1000 });
}
