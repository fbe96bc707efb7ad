use picmyweb::batch::{
    load_websites, run, AddressSource, BatchRunner, BatchSummary, CaptureOutcome, Phase, Step,
};
use std::cell::RefCell;

fn strings(items: &[&str]) -> Vec<String> {
    items.iter().map(|s| s.to_string()).collect()
}

/// Drives a batch to its end, answering the captures from `results` in order.
fn drive(urls: &[&str], results: &[Result<(), &str>]) -> (BatchSummary, String, Vec<String>, usize) {
    let mut sink: Vec<String> = Vec::new();
    let mut runner = BatchRunner::new(strings(urls));
    let mut captures = 0;
    let mut step = runner.start(&mut sink);
    loop {
        match step {
            Step::Capture(url) => {
                assert_eq!(url, urls[captures]);
                assert_eq!(runner.phase(), Phase::Running);
                let result = results[captures].map_err(|detail| detail.to_string());
                captures += 1;
                step = runner.record(result, &mut sink);
            }
            Step::Done { summary, status } => {
                assert_eq!(runner.phase(), Phase::Completed);
                assert_eq!(runner.summary(), summary);
                return (summary, status, sink, captures);
            }
        }
    }
}

#[test]
fn empty_batch_has_nothing_to_do() {
    let (summary, status, log, captures) = drive(&[], &[]);
    assert_eq!(summary, BatchSummary { total_attempted: 0, succeeded_count: 0 });
    assert_eq!(log, strings(&["nothing to do: no address was found"]));
    assert_eq!(status, "nothing to capture");
    assert_eq!(captures, 0);
}

#[test]
fn failure_in_the_middle_does_not_stop_the_batch() {
    let (summary, status, log, captures) =
        drive(&["http://a", "http://b", "http://c"], &[Ok(()), Err("timeout"), Ok(())]);
    assert_eq!(summary, BatchSummary { total_attempted: 3, succeeded_count: 2 });
    assert_eq!(captures, 3);
    assert_eq!(
        log,
        strings(&[
            "processing 1/3: http://a",
            "succeeded 1/3: http://a",
            "processing 2/3: http://b",
            "failed 2/3: http://b: timeout",
            "processing 3/3: http://c",
            "succeeded 3/3: http://c",
            "batch complete",
            "summary: succeeded 2/3 sites",
        ])
    );
    assert_eq!(log.iter().filter(|line| line.starts_with("processing ")).count(), 3);
    assert_eq!(log.iter().filter(|line| line.starts_with("succeeded ")).count(), 2);
    assert_eq!(log.iter().filter(|line| line.starts_with("failed ")).count(), 1);
    assert_eq!(log.iter().filter(|line| line.starts_with("summary: ")).count(), 1);
    assert_eq!(status, "done! succeeded 2/3 sites");
}

#[test]
fn batch_of_failures_reaches_its_end() {
    let urls = ["http://a", "https://a", "http://b", "http://c"];
    let (summary, status, log, captures) =
        drive(&urls, &[Err("launch"), Err("navigation"), Err("encode"), Err("disk")]);
    assert_eq!(summary, BatchSummary { total_attempted: 4, succeeded_count: 0 });
    assert_eq!(captures, 4);
    assert_eq!(log.len(), 2 * 4 + 2);
    for (i, url) in urls.iter().enumerate() {
        assert_eq!(log[2 * i], format!("processing {}/4: {}", i + 1, url));
        assert!(log[2 * i + 1].starts_with(&format!("failed {}/4: {}: ", i + 1, url)));
    }
    assert_eq!(log[8], "batch complete");
    assert_eq!(log[9], "summary: succeeded 0/4 sites");
    assert_eq!(status, "done! succeeded 0/4 sites");
}

#[test]
fn batch_of_successes_counts_them_all() {
    let (summary, status, log, _) = drive(&["http://only"], &[Ok(())]);
    assert_eq!(summary, BatchSummary { total_attempted: 1, succeeded_count: 1 });
    assert_eq!(
        log,
        strings(&[
            "processing 1/1: http://only",
            "succeeded 1/1: http://only",
            "batch complete",
            "summary: succeeded 1/1 sites",
        ])
    );
    assert_eq!(status, "done! succeeded 1/1 sites");
}

#[test]
fn counts_are_bounded_by_the_list_for_every_pattern_of_results() {
    let urls = ["http://1", "http://2", "http://3", "http://4"];
    for pattern in 0..16u32 {
        let results: Vec<Result<(), &str>> =
            (0..4).map(|i| if pattern & (1 << i) != 0 { Ok(()) } else { Err("x") }).collect();
        let (summary, _, log, captures) = drive(&urls, &results);
        assert_eq!(summary.total_attempted, urls.len());
        assert_eq!(summary.succeeded_count, pattern.count_ones() as usize);
        assert!(summary.succeeded_count <= summary.total_attempted);
        assert_eq!(captures, urls.len());
        assert_eq!(log.len(), 10);
    }
}

#[test]
fn positions_are_written_in_decimal() {
    let urls: Vec<String> = (0..12).map(|i| format!("http://host{}", i)).collect();
    let refs: Vec<&str> = urls.iter().map(|s| s.as_str()).collect();
    let results: Vec<Result<(), &str>> = (0..12).map(|_| Ok(())).collect();
    let (summary, status, log, _) = drive(&refs, &results);
    assert_eq!(summary, BatchSummary { total_attempted: 12, succeeded_count: 12 });
    assert_eq!(log[18], "processing 10/12: http://host9");
    assert_eq!(log[23], "succeeded 12/12: http://host11");
    assert_eq!(log[25], "summary: succeeded 12/12 sites");
    assert_eq!(status, "done! succeeded 12/12 sites");
}

#[test]
fn sink_only_grows() {
    let mut sink = strings(&["starting..."]);
    let mut runner = BatchRunner::new(strings(&["http://a", "http://b"]));
    assert_eq!(runner.phase(), Phase::Idle);
    assert_eq!(sink.len(), 1);
    let _ = runner.start(&mut sink);
    assert_eq!(sink, strings(&["starting...", "processing 1/2: http://a"]));
    let _ = runner.record(Err("boom".to_string()), &mut sink);
    assert_eq!(
        sink,
        strings(&[
            "starting...",
            "processing 1/2: http://a",
            "failed 1/2: http://a: boom",
            "processing 2/2: http://b",
        ])
    );
}

#[test]
fn outcomes_are_recorded_in_order() {
    let mut sink: Vec<String> = Vec::new();
    let mut runner = BatchRunner::new(strings(&["http://a", "http://b"]));
    let _ = runner.start(&mut sink);
    assert_eq!(runner.summary(), BatchSummary { total_attempted: 0, succeeded_count: 0 });
    let _ = runner.record(Ok(()), &mut sink);
    assert_eq!(runner.summary(), BatchSummary { total_attempted: 1, succeeded_count: 1 });
    let _ = runner.record(Err("no route".to_string()), &mut sink);
    let outcomes: &Vec<CaptureOutcome> = runner.outcomes();
    assert_eq!(outcomes.len(), 2);
    assert_eq!(outcomes[0].url, "http://a");
    assert!(outcomes[0].succeeded);
    assert_eq!(outcomes[0].error_detail, None);
    assert_eq!(outcomes[1].url, "http://b");
    assert!(!outcomes[1].succeeded);
    assert_eq!(outcomes[1].error_detail, Some("no route".to_string()));
}

#[test]
fn status_of_counts() {
    assert_eq!(
        BatchSummary { total_attempted: 3, succeeded_count: 2 }.status_text(),
        "done! succeeded 2/3 sites"
    );
    assert_eq!(
        BatchSummary { total_attempted: 1000, succeeded_count: 0 }.status_text(),
        "done! succeeded 0/1000 sites"
    );
    assert_eq!(
        BatchSummary { total_attempted: 0, succeeded_count: 0 }.status_text(),
        "nothing to capture"
    );
}

#[test]
fn missing_source_ends_the_batch_before_it_begins() {
    let mut sink: Vec<String> = Vec::new();
    let loaded = load_websites("websites.txt", &AddressSource::Missing, &mut sink);
    assert_eq!(loaded.unwrap_err().status, "file not found: websites.txt");
    assert_eq!(sink, strings(&["error: file not found - websites.txt"]));
}

#[test]
fn unreadable_source_ends_the_batch_before_it_begins() {
    let mut sink: Vec<String> = Vec::new();
    let source = AddressSource::Unreadable("permission denied".to_string());
    let loaded = load_websites("list.txt", &source, &mut sink);
    assert_eq!(loaded.unwrap_err().status, "cannot read the address file: permission denied");
    assert_eq!(sink, strings(&["error: cannot read the address file - permission denied"]));
}

#[test]
fn content_of_the_source_gives_the_urls() {
    let mut sink = strings(&["starting..."]);
    let source = AddressSource::Content("example.com\n\n10.0.0.1\n".to_string());
    let loaded = load_websites("list.txt", &source, &mut sink);
    assert_eq!(
        loaded.unwrap(),
        strings(&["http://example.com", "http://10.0.0.1", "https://10.0.0.1"])
    );
    assert_eq!(sink, strings(&["starting..."]));
}

#[test]
fn blank_source_gives_an_empty_batch() {
    let mut sink: Vec<String> = Vec::new();
    let source = AddressSource::Content(" \n\n".to_string());
    let urls = load_websites("list.txt", &source, &mut sink).unwrap();
    assert!(urls.is_empty());
    let mut runner = BatchRunner::new(urls);
    match runner.start(&mut sink) {
        Step::Done { summary, status } => {
            assert_eq!(summary, BatchSummary { total_attempted: 0, succeeded_count: 0 });
            assert_eq!(status, "nothing to capture");
        }
        Step::Capture(url) => panic!("capture of {} in an empty batch", url),
    }
    assert_eq!(sink, strings(&["nothing to do: no address was found"]));
}

#[test]
fn run_calls_the_capture_once_for_each_url_in_order() {
    let calls: RefCell<Vec<String>> = RefCell::new(Vec::new());
    let mut sink: Vec<String> = Vec::new();
    let summary = run(
        strings(&["http://a", "http://b", "http://c"]),
        |url: &String| {
            calls.borrow_mut().push(url.clone());
            if url == "http://b" {
                Err("timeout".to_string())
            } else {
                Ok(())
            }
        },
        &mut sink,
    );
    assert_eq!(summary, BatchSummary { total_attempted: 3, succeeded_count: 2 });
    assert_eq!(calls.into_inner(), strings(&["http://a", "http://b", "http://c"]));
    assert_eq!(
        sink,
        strings(&[
            "processing 1/3: http://a",
            "succeeded 1/3: http://a",
            "processing 2/3: http://b",
            "failed 2/3: http://b: timeout",
            "processing 3/3: http://c",
            "succeeded 3/3: http://c",
            "batch complete",
            "summary: succeeded 2/3 sites",
        ])
    );
}

#[test]
fn run_of_an_empty_list_calls_nothing() {
    let calls: RefCell<usize> = RefCell::new(0);
    let mut sink: Vec<String> = Vec::new();
    let summary = run(
        Vec::new(),
        |_url: &String| {
            *calls.borrow_mut() += 1;
            Ok(())
        },
        &mut sink,
    );
    assert_eq!(summary, BatchSummary { total_attempted: 0, succeeded_count: 0 });
    assert_eq!(sink, strings(&["nothing to do: no address was found"]));
    assert_eq!(calls.into_inner(), 0);
}

#[test]
fn run_with_a_capture_that_always_fails_counts_no_success() {
    let mut sink = strings(&["starting..."]);
    let urls = strings(&["http://a", "http://b"]);
    let summary = run(urls.clone(), |url: &String| Err(format!("no browser for {}", url)), &mut sink);
    assert_eq!(summary, BatchSummary { total_attempted: 2, succeeded_count: 0 });
    assert_eq!(
        sink,
        strings(&[
            "starting...",
            "processing 1/2: http://a",
            "failed 1/2: http://a: no browser for http://a",
            "processing 2/2: http://b",
            "failed 2/2: http://b: no browser for http://b",
            "batch complete",
            "summary: succeeded 0/2 sites",
        ])
    );
}

#[test]
fn run_agrees_with_stepping() {
    let urls = ["http://1", "http://2", "http://3"];
    for pattern in 0..8u32 {
        let fails = |url: &str| pattern & (1 << (url.as_bytes()[7] - b'1')) != 0;
        let results: Vec<Result<(), &str>> =
            urls.iter().map(|url| if fails(url) { Err("x") } else { Ok(()) }).collect();
        let (stepped, _, stepped_log, _) = drive(&urls, &results);
        let mut sink: Vec<String> = Vec::new();
        let summary = run(
            strings(&urls),
            |url: &String| if fails(url) { Err("x".to_string()) } else { Ok(()) },
            &mut sink,
        );
        assert_eq!(summary, stepped);
        assert_eq!(sink, stepped_log);
    }
}
