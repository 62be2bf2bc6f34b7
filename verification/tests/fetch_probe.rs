use solrcopy::args::{Backup, CommonArgs, ParallelArgs};
use solrcopy::fails::{failed, raise, rethrow, throw, Failed};
use solrcopy::fetch::check_core_counts;
use solrcopy::models::{Compression, IterateMode, SolrCore};

const CORE_1ROW: &str = r#"{
        "response":{"numFound":46,"start":0,
            "docs":[
                {
                "id":"3007WFP",
                "name":["Dell Widescreen UltraSharp 3007WFP"],
                "cat":["electronics and computer1"],
                "price":[2199],
                "_version_":16903}
            ]}}"#;

const CORE_3ROW: &str = r#"{"response":{"numFound":46,"start":0,
            "docs":[
                {"id":"3007WFP","name":["Dell Widescreen UltraSharp 3007WFP"],"cat":["electronics and computer1"],"price":[2199]},
                {"id":"100-435805","name":["ATI Radeon X1900 XTX 512 MB PCIE Video Card"],"cat":["electronics","graphics card"],"price":[649]},
                {"id":"EN7800GTX/2DHTV/256M","name":["ASUS Extreme N7800GTX/2DHTV (256 MB)"],"cat":["electronics","graphics card"],"price":[479]}
            ]}}"#;

fn mockup_backup(select: Vec<String>) -> Backup {
    Backup {
        query: None,
        fq: None,
        order: vec![],
        skip: 0,
        limit: None,
        select,
        iterate_by: IterateMode::Off,
        iterate_between: vec![],
        iterate_step: 1,
        num_docs: 10,
        archive_files: 40,
        zip_prefix: None,
        workaround_shards: 0,
        archive_compression: Compression::Zip,
        options: CommonArgs { url: "http://localhost:8983/solr".to_string(), core: "demo".to_string() },
        transfer: ParallelArgs {
            dir: "./tmp".to_string(),
            params: None,
            max_errors: 0,
            delay_before: 0,
            delay_per_request: 0,
            delay_after: 0,
            readers: 1,
            writers: 1,
        },
    }
}

#[test]
fn check_schema_num_found() {
    let num_found = SolrCore::parse_num_found(CORE_1ROW);
    assert_eq!(num_found.ok(), Some(46));
}

#[test]
fn check_num_found_errors() {
    assert!(SolrCore::parse_num_found("{}").is_err());
    assert!(SolrCore::parse_num_found("\"numFound\":,").is_err());
    assert!(SolrCore::parse_num_found("\"numFound\":12").is_err());
    assert_eq!(SolrCore::parse_num_found("x\"numFound\":9,y\"numFound\":8,").ok(), Some(9));
    assert_eq!(SolrCore::parse_num_found("\"numFound\":nope,\"numFound\":8,").ok(), Some(8));
}

#[test]
fn check_schema_fields() {
    let fields = SolrCore::parse_field_names(CORE_1ROW);
    assert_eq!(fields.is_some(), true);

    let fields2 = fields.unwrap();

    assert_eq!(fields2.len(), 4);
    assert_eq!(fields2.get(0).unwrap(), "id");
    assert_eq!(fields2.get(1).unwrap(), "name");
    assert_eq!(fields2.get(2).unwrap(), "cat");
    assert_eq!(fields2.get(3).unwrap(), "price");
}

#[test]
fn check_query_docs() {
    let docs = SolrCore::parse_docs_from_query(CORE_3ROW);
    assert_eq!(docs.is_some(), true);

    let json = solrcopy::helpers::remove_whitespace(docs.unwrap().as_str());

    let starting = &json[..2];
    assert_eq!(starting, "[{");

    let two = json.len() - 2;
    let ending = &json[two..];
    assert_eq!(ending, "}]");

    let rows = json.split("},{").collect::<Vec<&str>>();
    assert_eq!(rows.len(), 3);
}

#[test]
fn check_probe_schema() {
    let gets = mockup_backup(vec![]);
    let schema = SolrCore::parse_core_schema(&gets, CORE_1ROW).ok().unwrap();
    assert_eq!(schema.num_found, 46);
    assert_eq!(schema.fields, vec!["id", "name", "cat", "price"]);

    let picky = mockup_backup(vec!["id".to_string(), "price".to_string()]);
    let schema2 = SolrCore::parse_core_schema(&picky, CORE_1ROW).ok().unwrap();
    assert_eq!(schema2.fields, vec!["id", "price"]);

    let empty = r#"{"response":{"numFound":0,"start":0,"docs":[]}}"#;
    assert!(SolrCore::parse_core_schema(&gets, empty).is_err());
}

#[test]
fn check_probe_keeps_high_water_mark() {
    let a = SolrCore { num_found: 1000, fields: vec![] };
    let b = SolrCore { num_found: 998, fields: vec![] };
    let c = SolrCore { num_found: 1002, fields: vec![] };
    let best = SolrCore::merge_probe(SolrCore::merge_probe(a, b), c);
    assert_eq!(best.num_found, 1002);
    assert_eq!(SolrCore::probe_rounds(0), 1);
    assert_eq!(SolrCore::probe_rounds(2), 11);
}

#[test]
fn check_empty_core_fails_fast() {
    let failure = check_core_counts("demo", 0, 0);
    match failure {
        Err(cause) => assert_eq!(cause.say(), "Solr Core 'demo' is empty!"),
        Ok(_) => panic!("an empty core must fail fast"),
    }
}

#[test]
fn check_skip_past_count_fails_fast() {
    let failure = check_core_counts("demo", 40, 46);
    match failure {
        Err(cause) => {
            assert_eq!(cause.say(), "Requested 46 in --skip but found 40 docs with the query.")
        },
        Ok(_) => panic!("a skip at or past the count must fail fast"),
    }
    assert!(check_core_counts("demo", 46, 3).is_ok());
}

#[test]
fn check_throw_and_raise() {
    let failure = throw::<usize>("fail".to_string());
    assert_eq!(failure.is_ok(), false);

    let failerr: Failed = failed("fail".to_string());
    assert_eq!(rethrow::<usize>(failerr).is_ok(), false);

    assert_eq!(raise::<usize>("fail").is_ok(), false);
    assert_eq!(Failed::new("boom").say(), "boom");
    assert_eq!(Failed::from("boom".to_string()).say(), "boom");
}
