use server::protocol::parse_query_request;
use server::upload::{timing_record, UploadSession};

#[test]
fn session_names_files_after_document() {
    let s = UploadSession::new("docid");
    assert_eq!(s.doc_id(), "docid");
    assert_eq!(s.temp_file_name(), "docid.mp4");
    assert_eq!(s.segment_dir(), "docid");
    assert_eq!(s.clip_count(), 0);
}

#[test]
fn segment_args_are_the_command_line_cut_at_spaces() {
    let s = UploadSession::new("docid");
    assert_eq!(
        s.segment_args(),
        vec![
            "-f",
            "segment",
            "-segment_time",
            "1",
            "-reset_timestamps",
            "1",
            "-map",
            "0",
            "docid/output_%d.mp4"
        ]
    );
}

#[test]
fn segment_args_cut_a_document_name_with_spaces() {
    let s = UploadSession::new("my doc");
    let args = s.segment_args();
    assert_eq!(args.len(), 10);
    assert_eq!(args[8], "my");
    assert_eq!(args[9], "doc/output_%d.mp4");
}

#[test]
fn clip_tags_count_up_from_zero() {
    let mut s = UploadSession::new("docid");
    assert_eq!(s.next_clip_tag(), "docid:0");
    assert_eq!(s.next_clip_tag(), "docid:1");
    assert_eq!(s.next_clip_tag(), "docid:2");
    assert_eq!(s.clip_count(), 3);
    assert_eq!(s.doc_id(), "docid");
}

#[test]
fn announcement_without_clips_is_minus_one() {
    let s = UploadSession::new("docid");
    assert_eq!(s.announcement(), "docid:-1");
}

#[test]
fn announcement_names_last_clip() {
    let mut s = UploadSession::new("docid");
    let mut last = String::new();
    for _ in 0..12 {
        last = s.next_clip_tag();
    }
    assert_eq!(last, "docid:11");
    assert_eq!(s.announcement(), last);
}

#[test]
fn clip_tags_are_distinct() {
    let mut s = UploadSession::new("d");
    let tags: Vec<String> = (0..120).map(|_| s.next_clip_tag()).collect();
    for i in 0..tags.len() {
        for j in 0..i {
            assert_ne!(tags[i], tags[j]);
        }
    }
}

#[test]
fn queried_clip_tag_resolves_to_its_document() {
    let mut s = UploadSession::new("bafkq3zz");
    s.next_clip_tag();
    let tag = s.next_clip_tag();
    let q = parse_query_request(tag.clone().into_bytes()).unwrap();
    assert_eq!(q.query, tag);
    assert_eq!(q.namespace, "bafkq3zz");
    assert_eq!(q.tag, "bafkq3zz:1");
}

#[test]
fn timing_records() {
    assert_eq!(timing_record("docid", 42), "docid,42\n");
    assert_eq!(timing_record("", 0), ",0\n");
    let s = UploadSession::new("x");
    assert_eq!(s.send_time_record(1_000_000_007), "x,1000000007\n");
}
