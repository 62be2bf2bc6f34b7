use solrcopy::args::{Backup, CommonArgs, ParallelArgs};
use solrcopy::models::{Compression, IterateMode, SolrCore, SortField, Step};
use solrcopy::steps::{Requests, Slices};

fn mockup_transfer() -> ParallelArgs {
    ParallelArgs {
        dir: "./tmp".to_string(),
        params: None,
        max_errors: 0,
        delay_before: 0,
        delay_per_request: 0,
        delay_after: 0,
        readers: 7,
        writers: 9,
    }
}

fn mockup_backup() -> Backup {
    Backup {
        query: Some("ownerId:173826 AND date:[{begin} TO {end}]".to_string()),
        fq: None,
        order: vec![
            SortField::from_str("date:asc").unwrap(),
            SortField::from_str("id:desc").unwrap(),
            SortField::from_str("vehiclePlate:asc").unwrap(),
        ],
        skip: 3,
        limit: Some(42),
        select: vec!["id".to_string(), "date".to_string(), "vehiclePlate".to_string()],
        iterate_by: IterateMode::Day,
        iterate_between: vec!["2020-05-01".to_string(), "2020-05-04T11:12:13".to_string()],
        iterate_step: 1,
        num_docs: 5,
        archive_files: 6,
        zip_prefix: Some("zip_filename".to_string()),
        workaround_shards: 0,
        archive_compression: Compression::Zip,
        options: CommonArgs {
            url: "http://solr-server.com:8983/solr".to_string(),
            core: "demo".to_string(),
        },
        transfer: mockup_transfer(),
    }
}

fn mockup_core() -> SolrCore {
    SolrCore {
        num_found: 100,
        fields: vec!["id".to_string(), "date".to_string(), "vehiclePlate".to_string()],
    }
}

#[test]
fn check_iterator_for_params_get() {
    let gets = mockup_backup();
    let core_info = mockup_core();
    let query = gets.get_query_url("", true);

    let mut i = 0;
    for step in gets.get_steps(&core_info).steps() {
        let url = step.url;
        assert_eq!(url.is_empty(), false);
        assert_eq!(url.starts_with(&query), true);
        i += 1;
    }
    assert_eq!(i, 8);
}

#[test]
fn check_iterator_for_slices_u64() {
    let slices = Slices::<String>::get_slice_of(16, 2);
    for step in slices.slices() {
        assert!(step.begin < step.end, "# {} -> {}", step.begin, step.end)
    }
}

#[test]
fn check_iterator_for_slices_datetime() {
    let src = Slices::<String> {
        curr: "2020-04-01".to_string(),
        end: "2020-04-03T11:12:13".to_string(),
        increment: 1,
        mode: IterateMode::Day,
    };

    let slices = src.get_period_slices();
    assert!(slices.is_ok());

    if let Ok(seq) = slices {
        for step in seq.slices() {
            assert!(step.begin < step.end, "# {} -> {}", step.begin, step.end)
        }
    }
}

#[test]
fn check_page_plan_windows() {
    let plan = Requests { curr: 3, limit: 42, num_docs: 5, url: "q".to_string() };
    assert_eq!(plan.len(), 8);
    let steps: Vec<Step> = plan.steps();
    let starts: Vec<u64> = steps.iter().map(|s| s.curr).collect();
    assert_eq!(starts, vec![3, 8, 13, 18, 23, 28, 33, 38]);
    let urls: Vec<&str> = steps.iter().map(|s| s.url.as_str()).collect();
    assert_eq!(urls[0], "q&start=3&rows=5");
    assert_eq!(urls[6], "q&start=33&rows=5");
    assert_eq!(urls[7], "q&start=38&rows=4");
}

#[test]
fn check_skip_applies_to_first_slice_only() {
    let gets = mockup_backup();
    let core_info = mockup_core();
    let first = gets.get_steps_at(&core_info, true);
    assert_eq!(first.curr, 3);
    let later = gets.get_steps_at(&core_info, false);
    assert_eq!(later.curr, 0);
    assert_eq!(later.limit, 42);
}

#[test]
fn check_single_step_when_limit_is_small() {
    let plan = Requests { curr: 0, limit: 3, num_docs: 100, url: "q".to_string() };
    let steps = plan.steps();
    assert_eq!(steps.len(), 1);
    assert_eq!(steps[0].url, "q&start=0&rows=3");
}

#[test]
fn check_day_slices() {
    let src = Slices::<String> {
        curr: "2020-04-01".to_string(),
        end: "2020-04-03T11:12:13".to_string(),
        increment: 1,
        mode: IterateMode::Day,
    };
    let items = src.get_iterator().ok().unwrap();
    assert_eq!(items.len(), 3);
    assert_eq!(items[0].begin, "2020-04-01T00:00:00Z");
    assert_eq!(items[0].end, "2020-04-01T23:59:59Z");
    assert_eq!(items[1].begin, "2020-04-02T00:00:00Z");
    assert_eq!(items[1].end, "2020-04-02T23:59:59Z");
    assert_eq!(items[2].begin, "2020-04-03T00:00:00Z");
    assert_eq!(items[2].end, "2020-04-03T11:12:13Z");
    assert_eq!(src.estimate_steps().ok(), Some(3));
}

#[test]
fn check_empty_temporal_range() {
    let src = Slices::<String> {
        curr: "2020-04-03T11:12:13".to_string(),
        end: "2020-04-01".to_string(),
        increment: 1,
        mode: IterateMode::Hour,
    };
    let items = src.get_iterator().ok().unwrap();
    assert_eq!(items.len(), 0);
    assert_eq!(src.estimate_steps().ok(), Some(0));
}

#[test]
fn check_unsliced_plan() {
    let src = Slices::<String> {
        curr: String::new(),
        end: String::new(),
        increment: 1,
        mode: IterateMode::Day,
    };
    let items = src.get_iterator().ok().unwrap();
    assert_eq!(items.len(), 1);
    assert_eq!(src.estimate_steps().ok(), Some(1));
}

#[test]
fn check_range_slices() {
    let src = Slices::<String> {
        curr: "0".to_string(),
        end: "16".to_string(),
        increment: 4,
        mode: IterateMode::Range,
    };
    let items = src.get_iterator().ok().unwrap();
    assert_eq!(items.len(), 4);
    assert_eq!(items[0].begin, "0");
    assert_eq!(items[0].end, "3");
    assert_eq!(items[3].begin, "12");
    assert_eq!(items[3].end, "15");
    assert_eq!(src.estimate_steps().ok(), Some(4));
    let bad = Slices::<String> {
        curr: "x".to_string(),
        end: "16".to_string(),
        increment: 4,
        mode: IterateMode::Range,
    };
    assert!(bad.get_iterator().is_err());
}

#[test]
fn check_slice_filter_binds_bounds() {
    let gets = mockup_backup();
    let slices = gets.get_slices();
    let items = slices.get_iterator().ok().unwrap();
    assert_eq!(items.len(), 4);
    let step = Step { curr: 0, url: gets.get_query_url("", true) };
    let bound = items[0].filter(step);
    assert!(bound.url.contains("date:[2020-05-01T00:00:00Z%20TO%202020-05-01T23:59:59Z]"));
}

#[test]
fn check_query_urls() {
    let gets = mockup_backup();
    let diag = gets.get_query_for_diagnostics();
    assert!(diag.ends_with("&start=0&rows=1"));
    assert!(diag.starts_with("http://solr-server.com:8983/solr/demo/select?wt=json"));
    assert!(diag.contains("&q=ownerId:173826%20AND%20date:[2020-05-01T00:00:00Z%20TO%202020-05-04T11:12:13Z]"));
    assert!(diag.contains("&fq=*:*"));
    assert!(diag.contains("&sort=date%20Asc,id%20Desc,vehiclePlate%20Asc"));

    let fields = gets.get_query_fields(&mockup_core().fields);
    assert_eq!(fields, "&fl=id,date,vehiclePlate");

    let raw = gets.get_query_url("", true);
    assert!(raw.contains("{begin}"));
}

#[test]
fn check_estimate_docs_quantity() {
    let gets = mockup_backup();
    let schema = mockup_core();
    let slices = gets.get_slices();
    assert_eq!(gets.get_docs_to_retrieve(&schema), 42);
    assert_eq!(gets.estimate_docs_quantity(&schema, &slices).ok(), Some(156));
}

#[test]
fn check_archive_pattern() {
    let gets = mockup_backup();
    assert_eq!(gets.get_archive_pattern(100), "zip_filename_docs_100_seq_{}.zip");
    let mut anon = mockup_backup();
    anon.zip_prefix = None;
    let pattern = anon.get_archive_pattern(46);
    assert!(pattern.starts_with("demo_at_"));
    assert!(pattern.ends_with("_docs_46_seq_{}.zip"));
}

#[test]
fn check_parse_between() {
    assert_eq!(Slices::<String>::parse_between_number("42").ok(), Some(42));
    assert!(Slices::<String>::parse_between_number("4x").is_err());
    let dt = Slices::<String>::parse_between_date("2020-04-01").ok().unwrap();
    assert_eq!(dt.year, 2020);
    assert_eq!(dt.month, 4);
    assert_eq!(dt.day, 1);
    assert_eq!(dt.hour, 0);
    let dt2 = Slices::<String>::parse_between_date("2020-04-03T11:12:13").ok().unwrap();
    assert_eq!(dt2.hour, 11);
    assert_eq!(dt2.minute, 12);
    assert_eq!(dt2.second, 13);
    assert!(Slices::<String>::parse_between_date("2020-13-01").is_err());
    assert!(Slices::<String>::parse_between_date("2021-02-29").is_err());
    assert!(Slices::<String>::parse_between_date("2020-04-01 11:12:13").is_err());
}
