use sd_import::sd_batch_uploader::{SdBatchUploader, MAX_CAPACITY};
use sd_import::sd_import::{
    import, load_records, qualified_table_name, CompletionToken, DriverAction, LoadDriver,
};
use sd_import::sd_parser::{ParseError, SdItem};

fn item(n: usize) -> SdItem {
    SdItem { mol: vec![7u8; n], props: Vec::new() }
}

fn record(i: usize) -> String {
    format!("mol {}\n  M  END\n> <ID>\n{}\n\n> <NAME>\nname {}\n\n", i, i, i)
}

#[test]
fn copy_statement_names_table() {
    let u = SdBatchUploader::new("public.t");
    assert_eq!("COPY public.t (m, p) FROM STDIN BINARY", u.copy_stmt());
    assert_eq!(8388608u64, MAX_CAPACITY);
}

#[test]
fn upload_flushes_once_threshold_crossed() {
    let mut u = SdBatchUploader::with_threshold("t", 50);
    assert!(u.upload(item(20)).is_none());
    assert!(u.upload(item(30)).is_none());
    let batch = u.upload(item(1)).unwrap();
    assert_eq!(3, batch.len());
    assert_eq!(vec![20, 30, 1], batch.iter().map(|i| i.mol.len()).collect::<Vec<_>>());
    assert!(u.flush().is_none());
    assert!(u.upload(item(50)).is_none());
    assert_eq!(2, u.upload(item(1)).unwrap().len());
}

#[test]
fn oversized_item_is_flushed_alone() {
    let mut u = SdBatchUploader::with_threshold("t", 10);
    let batch = u.upload(item(11)).unwrap();
    assert_eq!(1, batch.len());
    assert!(u.flush().is_none());
}

#[test]
fn teardown_flush_delivers_buffered_rows() {
    let mut u = SdBatchUploader::new("t");
    assert!(u.upload(item(3)).is_none());
    assert!(u.upload(item(4)).is_none());
    let batch = u.flush().unwrap();
    assert_eq!(2, batch.len());
    assert!(u.flush().is_none());
}

#[test]
fn load_108_records() {
    let records: Vec<String> = (0..108).map(record).collect();
    let out = load_records(&records, "t", 200).ok().unwrap();
    assert_eq!(0, out.skipped);
    assert!(out.batches.len() > 1);
    assert!(out.batches.iter().all(|b| !b.is_empty()));
    let total: usize = out.batches.iter().map(|b| b.len()).sum();
    assert_eq!(108, total);
    for b in out.batches.iter() {
        for it in b.iter() {
            assert_eq!(2, it.props.len());
        }
    }
}

#[test]
fn load_counts_records_without_body() {
    let mut records: Vec<String> = (0..5).map(record).collect();
    records.insert(2, "> <ID>\n1\n".to_string());
    records.push("> <X>\n2\n".to_string());
    let out = load_records(&records, "t", MAX_CAPACITY).ok().unwrap();
    assert_eq!(2, out.skipped);
    assert_eq!(1, out.batches.len());
    assert_eq!(5, out.batches[0].len());
}

#[test]
fn load_of_nothing_hands_out_nothing() {
    let out = load_records(&Vec::new(), "t", 10).ok().unwrap();
    assert_eq!(0, out.skipped);
    assert!(out.batches.is_empty());
}

#[test]
fn load_is_order_independent() {
    let records: Vec<String> = (0..20).map(record).collect();
    let mut reversed = records.clone();
    reversed.reverse();
    let rows = |rs: &Vec<String>| {
        let out = load_records(rs, "t", 100).ok().unwrap();
        let mut v: Vec<Vec<u8>> = out.batches.into_iter().flatten().map(|i| i.mol).collect();
        v.sort();
        v
    };
    assert_eq!(rows(&records), rows(&reversed));
}

#[test]
fn driver_follows_tokens() {
    let mut d = LoadDriver::new(SdBatchUploader::with_threshold("t", 1_000_000));
    assert!(matches!(d.on_token(CompletionToken::Produced), DriverAction::AwaitItem));
    assert!(matches!(d.on_result(SdItem::new(&record(1))), Ok(None)));
    assert!(matches!(d.on_token(CompletionToken::Produced), DriverAction::AwaitItem));
    assert!(matches!(d.on_result(SdItem::new("> <A>\n1")), Ok(None)));
    assert!(matches!(d.on_result(Err(ParseError::CodecFailure)), Err(ParseError::CodecFailure)));
    assert!(matches!(d.on_token(CompletionToken::StreamEnded), DriverAction::Finish));
    assert_eq!(1, d.processed_count());
    assert_eq!(1, d.skipped_count());
    assert_eq!(1, d.finish().unwrap().len());
    assert!(d.finish().is_none());
}

#[test]
fn driver_hands_out_batch_at_threshold() {
    let mut d = LoadDriver::new(SdBatchUploader::with_threshold("t", 5));
    match d.on_result(Ok(item(6))) {
        Ok(Some(b)) => assert_eq!(1, b.len()),
        _ => panic!("threshold crossed"),
    }
    assert!(d.finish().is_none());
}

#[test]
fn import_defaults_config() {
    let job = import("in.sd.gz", "tbl", None);
    assert_eq!("in.sd.gz", job.file_name);
    assert_eq!("tbl", job.table_name);
    assert_eq!("config.yml", job.config_name);
    let job = import("in.sd.gz", "tbl", Some("other.yml".to_string()));
    assert_eq!("other.yml", job.config_name);
}

#[test]
fn table_name_is_qualified_by_schema() {
    assert_eq!("public.compounds", qualified_table_name("public", "compounds"));
}
