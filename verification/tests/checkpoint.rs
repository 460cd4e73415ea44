use thingmirror::checkpoint::{format_u64, parse_u64, should_persist};
use thingmirror::config::resolve_start;
use thingmirror::mirror::{mirror_step, MirrorStep};

#[test]
fn format_renders_the_canonical_numeral() {
    assert_eq!(format_u64(0), "0");
    assert_eq!(format_u64(1), "1");
    assert_eq!(format_u64(1234), "1234");
    assert_eq!(format_u64(u64::MAX), "18446744073709551615");
}

#[test]
fn parse_reads_digit_strings() {
    assert_eq!(parse_u64("0"), Some(0));
    assert_eq!(parse_u64("1234"), Some(1234));
    assert_eq!(parse_u64("007"), Some(7));
    assert_eq!(parse_u64("18446744073709551615"), Some(u64::MAX));
}

#[test]
fn parse_rejects_what_is_not_a_numeral() {
    assert_eq!(parse_u64(""), None);
    assert_eq!(parse_u64("12a4"), None);
    assert_eq!(parse_u64("-5"), None);
    assert_eq!(parse_u64(" 5"), None);
    // one past u64::MAX
    assert_eq!(parse_u64("18446744073709551616"), None);
}

#[test]
fn a_written_checkpoint_reads_back_unchanged() {
    for n in [0u64, 1, 999, 1000, 123456789, u64::MAX] {
        assert_eq!(parse_u64(&format_u64(n)), Some(n));
    }
}

#[test]
fn replaying_the_stored_checkpoint_resumes_from_it() {
    // a run persisted index 7; the next run starts from 7 itself
    let stored = parse_u64(&format_u64(7));
    assert_eq!(resolve_start(None, stored), 7);
    // and re-running unit 7 over an existing destination is a no-op
    assert_eq!(mirror_step(200, true), MirrorStep::SkipExisting);
}

#[test]
fn persistence_happens_only_for_committed_work() {
    assert_eq!(should_persist(true, Some(5)), Some(5));
    assert_eq!(should_persist(true, None), None);
    assert_eq!(should_persist(false, Some(5)), None);
    assert_eq!(should_persist(false, None), None);
}
