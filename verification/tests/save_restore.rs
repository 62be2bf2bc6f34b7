use solrcopy::args::{CommonArgs, Delete, ParallelArgs, Restore};
use solrcopy::actions::{commit_content, delete_content, replication_url};
use solrcopy::connection::{
    loader_should_stop, ErrorBudget, FetchDecision, RetryBudget, RetryDecision, ShardProbe,
    SolrError,
};
use solrcopy::ingest::{estimate_batch_count, finish_action, order_archives, str_le, FinishAction};
use solrcopy::models::{CommitMode, Compression, Docs, SortOrder};
use solrcopy::save::Archiver;

fn mockup_restore(search: Option<String>) -> Restore {
    Restore {
        flush: CommitMode::Soft,
        no_final_commit: false,
        disable_replication: false,
        search,
        order: SortOrder::Off,
        options: CommonArgs { url: "http://solr-server.com:8983/solr".to_string(), core: "target".to_string() },
        transfer: ParallelArgs {
            dir: "./tmp".to_string(),
            params: None,
            max_errors: 0,
            delay_before: 0,
            delay_per_request: 500,
            delay_after: 0,
            readers: 1,
            writers: 1,
        },
    }
}

#[test]
fn check_restore_pattern() {
    let puts = mockup_restore(Some("*.zip".to_string()));
    let wilcard = puts.get_pattern();
    assert_eq!(wilcard.ends_with(".zip"), true);
    assert_eq!(wilcard, "./tmp/*.zip");

    let named = mockup_restore(Some("demo".to_string()));
    assert_eq!(named.get_pattern(), "./tmp/demo*");

    let bare = mockup_restore(None);
    assert_eq!(bare.get_pattern(), "./tmp/target*.zip");
}

#[test]
fn check_restore_update_url() {
    let puts = mockup_restore(None);
    assert_eq!(
        puts.get_update_url(),
        "http://solr-server.com:8983/solr/target/update/json/docs?overwrite=true&softCommit=true"
    );
}

#[test]
fn check_archive_rotation() {
    let mut writer = Archiver::write_on("./tmp", "demo_docs_46_seq_{}.zip", Compression::Zip, 3);
    let offsets: Vec<u64> = vec![0, 5, 10, 15, 20];
    let mut created: Vec<String> = Vec::new();
    let mut entries: Vec<String> = Vec::new();
    for off in offsets {
        let plan = writer.write_documents(off);
        if let Some(name) = plan.create {
            created.push(name);
        }
        entries.push(plan.entry_name);
    }
    assert_eq!(
        created,
        vec!["demo_docs_46_seq_000000000.zip", "demo_docs_46_seq_000000015.zip"]
    );
    assert_eq!(entries[0], "docs_at_000000000.json");
    assert_eq!(entries[4], "docs_at_000000020.json");
    assert_eq!(writer.file_count, 2);
    writer.close_archive();
    assert_eq!(writer.file_count, 0);
    writer.close_archive();
    assert_eq!(writer.file_count, 0);
}

#[test]
fn check_one_file_per_entry() {
    let mut writer = Archiver::write_on("./tmp", "one_{}.zip", Compression::Stored, 1);
    let first = writer.write_documents(7);
    let second = writer.write_documents(9);
    assert_eq!(first.create, Some("one_000000007.zip".to_string()));
    assert_eq!(second.create, Some("one_000000009.zip".to_string()));
}

#[test]
fn check_compression_ext() {
    assert_eq!(Compression::Zip.get_ext(), "zip");
    assert_eq!(Compression::Stored.get_ext(), "zip");
    assert_eq!(Compression::Zstd.get_ext(), "zstd");
}

#[test]
fn check_order_archives() {
    let found = vec!["b.zip".to_string(), "c.zip".to_string(), "a.zip".to_string()];
    let kept = order_archives(found.clone(), SortOrder::Off);
    assert_eq!(kept, found);
    let asc = order_archives(found.clone(), SortOrder::Asc);
    assert_eq!(asc, vec!["a.zip", "b.zip", "c.zip"]);
    let desc = order_archives(found, SortOrder::Desc);
    assert_eq!(desc, vec!["c.zip", "b.zip", "a.zip"]);
    assert!(str_le("a", "ab"));
    assert!(!str_le("b", "ab"));
}

#[test]
fn check_estimate_batch_count() {
    assert_eq!(estimate_batch_count(3, Some(40)).ok(), Some(120));
    assert!(estimate_batch_count(3, None).is_err());
    assert!(estimate_batch_count(u64::MAX, Some(2)).is_err());
}

#[test]
fn check_finish_action() {
    assert!(matches!(finish_action(true, 5, false), FinishAction::Abort));
    assert!(matches!(finish_action(false, 5, false), FinishAction::Commit));
    assert!(matches!(finish_action(false, 0, false), FinishAction::Done));
    assert!(matches!(finish_action(false, 5, true), FinishAction::Done));
}

#[test]
fn check_action_payloads() {
    assert_eq!(commit_content(), "{ \"commit\": {} } ");
    assert_eq!(delete_content("*:*"), "<delete><query>*:*</query></delete>");
    let del = Delete {
        query: "*:*".to_string(),
        flush: CommitMode::Hard,
        options: CommonArgs { url: "http://x/solr".to_string(), core: "demo".to_string() },
    };
    assert_eq!(del.get_delete_url(), "http://x/solr/demo/update?commit=true");
    let options = CommonArgs { url: "http://x/solr".to_string(), core: "demo".to_string() };
    assert_eq!(
        replication_url(&options, false),
        "http://x/solr/demo/replication?command=disablereplication"
    );
    assert_eq!(
        replication_url(&options, true),
        "http://x/solr/demo/replication?command=enablereplication"
    );
}

#[test]
fn check_retry_budget() {
    let mut budget = RetryBudget::new(2);
    let first = budget.on_failure(false, 5);
    assert!(first == RetryDecision::Retry { wait_secs: 5 });
    let second = budget.on_failure(false, 5);
    assert!(second == RetryDecision::Retry { wait_secs: 10 });
    let third = budget.on_failure(false, 5);
    assert!(third == RetryDecision::GiveUp);
    budget.on_success();
    assert_eq!(budget.retry_count, 1);
    let fatal = budget.on_failure(true, 5);
    assert!(fatal == RetryDecision::GiveUp);
}

#[test]
fn check_solr_error() {
    let fatal = SolrError::new("server broke".to_string(), 503);
    assert!(!fatal.is_fatal());
    let worse = SolrError::new("server gone".to_string(), 500);
    assert!(worse.is_fatal());
    let unknown = SolrError::from("no route".to_string());
    assert!(!unknown.is_fatal());
    assert_eq!(unknown.say(), "no route");
}

#[test]
fn check_shard_probe() {
    let mut probe = ShardProbe::new(1002);
    assert!(matches!(probe.on_count(998), FetchDecision::RetryAfter { secs: 1 }));
    assert!(matches!(probe.on_count(1000), FetchDecision::RetryAfter { secs: 2 }));
    assert!(matches!(probe.on_count(1002), FetchDecision::Accept));
    let mut off = ShardProbe::new(0);
    assert!(matches!(off.on_count(5), FetchDecision::Accept));
    let mut worn = ShardProbe { must_match: 7, times: 13 };
    assert!(matches!(worn.on_count(3), FetchDecision::Accept));
}

#[test]
fn check_error_budget() {
    let mut budget = ErrorBudget::new(2);
    assert!(budget.on_error());
    assert!(budget.on_error());
    assert!(!budget.on_error());
    assert!(!loader_should_stop(2, 2));
    assert!(loader_should_stop(3, 2));
}

#[test]
fn check_docs_new() {
    let docs = Docs::new("a.zip".to_string(), "docs_at_000000001.json".to_string(), "[{}]".to_string());
    assert_eq!(docs.archive, "a.zip");
    assert_eq!(docs.entry, "docs_at_000000001.json");
    assert_eq!(docs.json, "[{}]");
}

#[test]
fn check_datetime_format() {
    let dt = solrcopy::datetime::DateTime { year: 987, month: 6, day: 5, hour: 4, minute: 3, second: 2 };
    assert_eq!(solrcopy::datetime::format_solr_time(&dt), "0987-06-05T04:03:02Z");
}

#[test]
fn check_leap_day_slices() {
    let src = solrcopy::steps::Slices::<String> {
        curr: "2020-02-28".to_string(),
        end: "2020-03-01".to_string(),
        increment: 1,
        mode: solrcopy::models::IterateMode::Day,
    };
    let items = src.get_iterator().ok().unwrap();
    assert_eq!(items.len(), 2);
    assert_eq!(items[1].begin, "2020-02-29T00:00:00Z");
    assert_eq!(items[1].end, "2020-02-29T23:59:59Z");
}
