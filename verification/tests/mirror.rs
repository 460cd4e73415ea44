use thingmirror::config::{log_level, resolve_start, LogLevel};
use thingmirror::mirror::{
    bucket_base, choose_file_url, mirror_step, pick_display_size, status_skips, MirrorStep,
};
use thingmirror::model;
use thingmirror::rest;

fn size(kind: &str, size: &str, url: &str) -> rest::images::Size {
    rest::images::Size { kind: kind.to_owned(), size: size.to_owned(), url: url.to_owned() }
}

#[test]
fn absent_statuses_skip_without_error() {
    assert!(status_skips(404));
    assert!(status_skips(403));
    assert!(!status_skips(200));
    assert!(!status_skips(500));
}

#[test]
fn mirror_step_orders_its_checks() {
    assert_eq!(mirror_step(404, false), MirrorStep::SkipAbsent);
    assert_eq!(mirror_step(403, true), MirrorStep::SkipAbsent);
    assert_eq!(mirror_step(200, true), MirrorStep::SkipExisting);
    assert_eq!(mirror_step(200, false), MirrorStep::Fetch);
}

#[test]
fn indices_bucket_by_thousands() {
    assert_eq!(bucket_base(0), 0);
    assert_eq!(bucket_base(999), 0);
    assert_eq!(bucket_base(1000), 1000);
    assert_eq!(bucket_base(123456), 123000);
}

#[test]
fn the_first_large_display_rendition_is_picked() {
    let sizes = vec![
        size("thumb", "large", "u0"),
        size("display", "small", "u1"),
        size("display", "large", "u2"),
        size("display", "large", "u3"),
    ];
    assert_eq!(pick_display_size(&sizes), Some(2));
    assert_eq!(pick_display_size(&vec![]), None);
    assert_eq!(pick_display_size(&vec![size("thumb", "large", "u0")]), None);
}

#[test]
fn a_file_downloads_from_its_direct_url_when_present() {
    let with_direct = rest::files::File {
        id: 1,
        name: "part.stl".to_owned(),
        size: 10,
        public_url: "pub".to_owned(),
        direct_url: Some("direct".to_owned()),
    };
    let without_direct = rest::files::File {
        id: 2,
        name: "part.stl".to_owned(),
        size: 10,
        public_url: "pub".to_owned(),
        direct_url: None,
    };
    assert_eq!(choose_file_url(with_direct), "direct");
    assert_eq!(choose_file_url(without_direct), "pub");
}

#[test]
fn verbosity_flags_open_log_levels_one_by_one() {
    assert_eq!(log_level(0), LogLevel::Warn);
    assert_eq!(log_level(1), LogLevel::Info);
    assert_eq!(log_level(2), LogLevel::Debug);
    assert_eq!(log_level(3), LogLevel::Trace);
    assert_eq!(log_level(9), LogLevel::Trace);
}

#[test]
fn the_start_index_prefers_the_explicit_override() {
    assert_eq!(resolve_start(Some(5), Some(9)), 5);
    assert_eq!(resolve_start(Some(5), None), 5);
    assert_eq!(resolve_start(None, Some(9)), 9);
    assert_eq!(resolve_start(None, None), 1);
}

#[test]
fn the_stored_shape_flattens_tags_to_their_names() {
    let wire = rest::things::Thing {
        id: 7,
        name: "Widget".to_owned(),
        description: "desc".to_owned(),
        instructions: "inst".to_owned(),
        details: "det".to_owned(),
        details_parts: vec![],
        tags: vec![
            rest::things::Tag { name: "gear".to_owned(), tag: "t/gear".to_owned() },
            rest::things::Tag { name: "toy".to_owned(), tag: "t/toy".to_owned() },
        ],
        creator: rest::things::Creator {
            id: 3,
            name: "maker".to_owned(),
            first_name: "Ada".to_owned(),
            last_name: "L".to_owned(),
        },
        license: "cc".to_owned(),
        files_url: "f".to_owned(),
        images_url: "i".to_owned(),
    };
    let stored = model::Thing::from_rest(wire);
    assert_eq!(stored.id, 7);
    assert_eq!(stored.name, "Widget");
    assert_eq!(stored.tags, vec!["gear".to_owned(), "toy".to_owned()]);
    assert_eq!(stored.creator.first_name, "Ada");
    assert_eq!(stored.license, "cc");
}
