use solrcopy::args::{check_solr_url, parse_commit_mode, parse_file_prefix, parse_millis,
    parse_quantity, parse_quantity_max, CommonArgs, ParallelArgs};
use solrcopy::models::{CommitMode, SortDirection, SortField};

#[test]
fn check_parse_quantity() {
    assert_eq!(parse_quantity("3k"), Ok(3_000));
    assert_eq!(parse_quantity("4 k"), Ok(4_000));
    assert_eq!(parse_quantity("5kb"), Ok(5_000));
    assert_eq!(parse_quantity("666m"), Ok(666_000_000));
    assert_eq!(parse_quantity("777mb"), Ok(777_000_000));
    assert_eq!(parse_quantity("888mb"), Ok(888_000_000));
    assert_eq!(parse_quantity("999 mb"), Ok(999_000_000));
}

#[test]
fn check_parse_quantity_plain_and_bad() {
    assert_eq!(parse_quantity("42"), Ok(42));
    assert_eq!(parse_quantity(" 7g "), Ok(7_000_000_000));
    assert_eq!(parse_quantity("2t"), Ok(2_000_000_000_000));
    assert!(parse_quantity("").is_err());
    assert!(parse_quantity("k3").is_err());
    assert!(parse_quantity("3x").is_err());
    assert!(parse_quantity("3kbb").is_err());
    assert!(parse_quantity("99999999999999999999").is_err());
}

#[test]
fn check_parse_quantity_max() {
    assert_eq!(parse_quantity_max("max"), Ok(u64::MAX));
    assert_eq!(parse_quantity_max("MAX"), Ok(u64::MAX));
    assert_eq!(parse_quantity_max("12k"), Ok(12_000));
    assert!(parse_quantity_max("nope").is_err());
}

#[test]
fn check_parse_millis() {
    assert_eq!(parse_millis("3ms"), Ok(3));
    assert_eq!(parse_millis("4 ms"), Ok(4));
    assert_eq!(parse_millis("5s"), Ok(5_000));
    assert_eq!(parse_millis("666s"), Ok(666_000));
    assert_eq!(parse_millis("7m"), Ok(420_000));
    assert_eq!(parse_millis("8min"), Ok(480_000));
    assert_eq!(parse_millis("9 minutes"), Ok(540_000));
    assert_eq!(parse_millis("10h"), Ok(36_000_000));
}

#[test]
fn check_parse_millis_bad() {
    assert!(parse_millis("").is_err());
    assert!(parse_millis("ms").is_err());
    assert!(parse_millis("5 parsecs").is_err());
    assert!(parse_millis("5s!").is_err());
}

#[test]
fn check_parse_commit_mode() {
    assert_eq!(parse_commit_mode("none"), Ok(CommitMode::Off));
    assert_eq!(parse_commit_mode("Soft"), Ok(CommitMode::Soft));
    assert_eq!(parse_commit_mode("HARD"), Ok(CommitMode::Hard));
    assert_eq!(parse_commit_mode("40s"), Ok(CommitMode::Within { millis: 40_000 }));
    assert!(parse_commit_mode("sometimes").is_err());
}

#[test]
fn check_commit_mode_params() {
    assert_eq!(CommitMode::Within { millis: 40000 }.as_param("?"), "?commitWithin=40000");
    assert_eq!(CommitMode::Soft.as_param("&"), "&softCommit=true");
    assert_eq!(CommitMode::Hard.as_param("?"), "?commit=true");
    assert_eq!(CommitMode::Off.as_param("?"), "");
    assert_eq!(CommitMode::default(), CommitMode::Within { millis: 40_000 });
}

#[test]
fn check_parse_file_prefix() {
    assert_eq!(parse_file_prefix("backup_01"), Ok("backup_01".to_string()));
    assert!(parse_file_prefix("").is_err());
    assert!(parse_file_prefix("bad name").is_err());
    assert!(parse_file_prefix("bad/name").is_err());
}

#[test]
fn check_sort_field_from_str() {
    let f1 = SortField::from_str("date").unwrap();
    assert_eq!(f1.field, "date");
    assert!(matches!(f1.direction, SortDirection::Asc));

    let f2 = SortField::from_str("id:desc").unwrap();
    assert_eq!(f2.field, "id");
    assert!(matches!(f2.direction, SortDirection::Desc));

    let f3 = SortField::from_str("plate asc").unwrap();
    assert_eq!(f3.field, "plate");
    assert!(matches!(f3.direction, SortDirection::Asc));

    assert!(SortField::from_str("").is_err());
    assert!(SortField::from_str("a:up").is_err());
    assert_eq!(f2.as_text(), "id%20Desc");
}

#[test]
fn check_solr_url_decision() {
    let ok = check_solr_url("localhost:8983/solr", "http", false, 1);
    assert_eq!(ok, Ok("http://localhost:8983/solr".to_string()));

    let kept = check_solr_url("https://server/solr", "https", false, 1);
    assert_eq!(kept, Ok("https://server/solr".to_string()));

    assert!(check_solr_url("ftp://x/solr", "ftp", false, 1).is_err());
    assert!(check_solr_url("http://x/solr?q=1", "http", true, 1).is_err());
    assert!(check_solr_url("http://x/solr/core", "http", false, 2).is_err());
}

#[test]
fn check_handler_urls() {
    let options = CommonArgs { url: "http://localhost:8983/solr".to_string(), core: "demo".to_string() };
    assert_eq!(
        options.get_core_handler_url("admin/ping"),
        "http://localhost:8983/solr/demo/admin/ping"
    );
    assert_eq!(options.get_update_url(), "http://localhost:8983/solr/demo/update");
    assert_eq!(
        options.get_update_url_with("commit=true"),
        "http://localhost:8983/solr/demo/update?commit=true"
    );
    let cmd = options.to_command();
    assert_eq!(cmd.options.core, "demo");
}

#[test]
fn check_get_param() {
    let transfer = ParallelArgs {
        dir: "./tmp".to_string(),
        params: Some("useParams=mine".to_string()),
        max_errors: 0,
        delay_before: 0,
        delay_per_request: 0,
        delay_after: 0,
        readers: 1,
        writers: 1,
    };
    assert_eq!(transfer.get_param("&"), "&useParams=mine");
    let bare = ParallelArgs { params: None, ..transfer };
    assert_eq!(bare.get_param("&"), "");
}
