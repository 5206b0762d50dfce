use invoices::audit::{encode_entry, AuditLog, LogEntry};
use invoices::bytes::{bytes_eq, copy_bytes};
use invoices::ingest::{dispatch_attachments, ingest_attachment, IngestDispatch};
use invoices::naming::{artifact_name, dec_u64, fnv64};
use invoices::period::parse_period;
use invoices::retrieval::{
    retrieve_begin, retrieve_finish, BeginOutcome, BuildStatus, ReplyPlan,
};
use invoices::store::FileStore;

#[test]
fn dispatch_decided_by_count_alone() {
    assert_eq!(dispatch_attachments(0), IngestDispatch::NoAttachment);
    assert_eq!(dispatch_attachments(1), IngestDispatch::StoreOne);
    assert_eq!(dispatch_attachments(2), IngestDispatch::TooManyAttachments);
    assert_eq!(dispatch_attachments(17), IngestDispatch::TooManyAttachments);
}

#[test]
fn period_argument_parsing() {
    assert_eq!(parse_period(&b"202403".to_vec()), Some(202403));
    assert_eq!(parse_period(&b"000102".to_vec()), Some(102));
    assert_eq!(parse_period(&b"2024".to_vec()), None);
    assert_eq!(parse_period(&b"2024035".to_vec()), None);
    assert_eq!(parse_period(&b"20240x".to_vec()), None);
    assert_eq!(parse_period(&b"".to_vec()), None);
}

#[test]
fn decimal_rendering_and_digest() {
    assert_eq!(dec_u64(0), b"0".to_vec());
    assert_eq!(dec_u64(907060).as_slice(), b"907060");
    // FNV-1a 64: the empty input gives the offset basis, and "a" the
    // well-known vector
    assert_eq!(fnv64(&Vec::new()), 0xcbf29ce484222325);
    assert_eq!(fnv64(&b"a".to_vec()), 0xaf63dc4c8601ec8c);
}

#[test]
fn artifact_names_fold_in_the_token() {
    let n7 = artifact_name(&b"alice".to_vec(), &b"202403".to_vec(), 7);
    let n8 = artifact_name(&b"alice".to_vec(), &b"202403".to_vec(), 8);
    assert_ne!(n7, n8);
    assert!(n7.starts_with(b"7-"));
    assert!(n7.ends_with(b".zip"));
    // same owner and period, same token: the name is a pure function
    let again = artifact_name(&b"alice".to_vec(), &b"202403".to_vec(), 7);
    assert_eq!(n7, again);
}

#[test]
fn audit_record_encoding_is_delimited_json() {
    let e = LogEntry {
        date: b"2024-03-05 12:00:00".to_vec(),
        author: b"alice".to_vec(),
        file: b"receipt1.png".to_vec(),
    };
    let line = encode_entry(&e);
    assert_eq!(
        line,
        b"{\"date\":\"2024-03-05 12:00:00\",\"author\":\"alice\",\"file\":\"receipt1.png\"}\n"
            .to_vec()
    );
}

#[test]
fn audit_record_encoding_escapes_controls() {
    let e = LogEntry {
        date: b"d".to_vec(),
        author: b"a\"b\\c".to_vec(),
        file: b"evil\nname\t.png".to_vec(),
    };
    let line = encode_entry(&e);
    assert_eq!(
        line,
        b"{\"date\":\"d\",\"author\":\"a\\\"b\\\\c\",\"file\":\"evil\\nname\\t.png\"}\n".to_vec()
    );
    // exactly one newline: the terminator, so records never run together
    assert_eq!(line.iter().filter(|b| **b == b'\n').count(), 1);
    assert_eq!(*line.last().unwrap(), b'\n');
}

#[test]
fn ingest_appends_one_attributed_record_each() {
    let mut st = FileStore::new();
    let mut log = AuditLog::new();
    ingest_attachment(
        &mut st,
        &mut log,
        b"alice".to_vec(),
        b"202403".to_vec(),
        b"receipt1.png".to_vec(),
        b"PNG".to_vec(),
        b"2024-03-05".to_vec(),
    );
    ingest_attachment(
        &mut st,
        &mut log,
        b"bob".to_vec(),
        b"202401".to_vec(),
        b"receipt2.png".to_vec(),
        b"JPG".to_vec(),
        b"2024-01-09".to_vec(),
    );
    ingest_attachment(
        &mut st,
        &mut log,
        b"alice".to_vec(),
        b"202403".to_vec(),
        b"receipt3.png".to_vec(),
        b"PDF".to_vec(),
        b"2024-03-06".to_vec(),
    );
    assert_eq!(log.len(), 3);
    let r0 = log.record(0);
    assert_eq!(r0.author, b"alice".to_vec());
    assert_eq!(r0.file, b"receipt1.png".to_vec());
    assert_eq!(r0.date, b"2024-03-05".to_vec());
    let r1 = log.record(1);
    assert_eq!(r1.author, b"bob".to_vec());
    assert_eq!(r1.file, b"receipt2.png".to_vec());
    let r2 = log.record(2);
    assert_eq!(r2.author, b"alice".to_vec());
    assert_eq!(r2.file, b"receipt3.png".to_vec());
}

#[test]
fn rendered_log_is_one_line_per_record() {
    let mut log = AuditLog::new();
    log.append(LogEntry {
        date: b"1".to_vec(),
        author: b"alice".to_vec(),
        file: b"a.png".to_vec(),
    });
    log.append(LogEntry {
        date: b"2".to_vec(),
        author: b"bob".to_vec(),
        file: b"b.png".to_vec(),
    });
    let rendered = log.render();
    assert_eq!(
        rendered,
        b"{\"date\":\"1\",\"author\":\"alice\",\"file\":\"a.png\"}\n{\"date\":\"2\",\"author\":\"bob\",\"file\":\"b.png\"}\n"
            .to_vec()
    );
}

#[test]
fn rejected_period_plans_no_cleanup() {
    let begin = retrieve_begin(&b"alice".to_vec(), &b"notdate".to_vec(), 1);
    assert!(matches!(begin, BeginOutcome::Rejected));
    let plan = retrieve_finish(begin, BuildStatus::NotFound, Vec::new());
    assert!(matches!(plan.reply, ReplyPlan::AskForPeriod));
    assert!(plan.cleanup.is_none());
}

#[test]
fn every_created_artifact_is_cleaned_up() {
    for status in [BuildStatus::Built, BuildStatus::NotFound, BuildStatus::Failed] {
        let begin = retrieve_begin(&b"alice".to_vec(), &b"202403".to_vec(), 42);
        let artifact = match &begin {
            BeginOutcome::Proceed(p) => p.artifact.clone(),
            BeginOutcome::Rejected => panic!("a six-digit period must be accepted"),
        };
        let plan = retrieve_finish(begin, status, vec![b"202403".to_vec()]);
        assert_eq!(plan.cleanup, Some(artifact.clone()));
        match (status, &plan.reply) {
            (BuildStatus::Built, ReplyPlan::SendArchive(a)) => assert_eq!(*a, artifact),
            (BuildStatus::Built, _) => panic!("a built archive must be delivered"),
            (_, ReplyPlan::SuggestPeriods(ps)) => {
                assert_eq!(*ps, vec![b"202403".to_vec()])
            }
            (_, _) => panic!("an unbuilt archive must yield guidance"),
        }
    }
}

#[test]
fn build_plan_targets_the_bucket_directory() {
    let begin = retrieve_begin(&b"alice".to_vec(), &b"202403".to_vec(), 9);
    match begin {
        BeginOutcome::Proceed(p) => {
            assert_eq!(p.source_dir, b"files/alice/202403".to_vec());
        }
        BeginOutcome::Rejected => panic!("a six-digit period must be accepted"),
    }
}

#[test]
fn byte_helpers() {
    assert!(bytes_eq(&b"abc".to_vec(), &b"abc".to_vec()));
    assert!(!bytes_eq(&b"abc".to_vec(), &b"abd".to_vec()));
    assert!(!bytes_eq(&b"abc".to_vec(), &b"ab".to_vec()));
    assert_eq!(copy_bytes(&b"xyz".to_vec()), b"xyz".to_vec());
}
