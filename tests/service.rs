use pastebin::cache::ExpiringCache;
use pastebin::service::{
    classify_field, expiry_after, finish_lookup, submit_step, submit_transition, upload_too_large,
    FieldVerdict, Retrieval, StoreLookup, SubmitAction, SubmitEvent, Submission,
};

#[test]
fn upload_limit_in_kib() {
    assert!(!upload_too_large(1024 * 1024, None));
    assert!(upload_too_large(1024 * 1024 + 1, None));
    assert!(!upload_too_large(2048, Some(2)));
    assert!(upload_too_large(2049, Some(2)));
    assert!(upload_too_large(1, Some(0)));
    assert!(!upload_too_large(u64::MAX, Some(u64::MAX)));
}

#[test]
fn expiry_is_one_week_later() {
    assert_eq!(expiry_after(0), Some(604_800_000));
    assert_eq!(expiry_after(1_700_000_000_000), Some(1_700_604_800_000));
    assert_eq!(expiry_after(i64::MAX), None);
}

#[test]
fn fields_are_classified_by_name() {
    assert_eq!(classify_field(Some("contents")), FieldVerdict::Contents);
    assert_eq!(classify_field(Some("content")), FieldVerdict::Other);
    assert_eq!(classify_field(Some("Contents")), FieldVerdict::Other);
    assert_eq!(classify_field(None), FieldVerdict::Invalid);
}

#[test]
fn collision_retries_under_a_new_key() {
    let start = Submission::Drawing { collided: None };
    let (st, act) = submit_transition(start, SubmitEvent::Begin, "AAAAAAAA".to_string());
    assert_eq!(act, SubmitAction::Insert);
    let (st, act) = submit_transition(st, SubmitEvent::KeyTaken, "BBBBBBBB".to_string());
    assert_eq!(act, SubmitAction::Insert);
    assert!(matches!(&st, Submission::Storing { key } if key == "BBBBBBBB"));
    let (st, act) = submit_transition(st, SubmitEvent::Inserted, "CCCCCCCC".to_string());
    assert_eq!(act, SubmitAction::Finish);
    assert!(matches!(&st, Submission::Stored { key } if key == "BBBBBBBB"));
}

#[test]
fn redraw_of_refused_key_is_not_inserted() {
    let st = Submission::Storing { key: "AAAAAAAA".to_string() };
    let (st, act) = submit_transition(st, SubmitEvent::KeyTaken, "AAAAAAAA".to_string());
    assert_eq!(act, SubmitAction::DrawAgain);
    let (st, act) = submit_transition(st, SubmitEvent::Begin, "AAAAAAAA".to_string());
    assert_eq!(act, SubmitAction::DrawAgain);
    let (st, act) = submit_transition(st, SubmitEvent::Begin, "ZZZZZZZZ".to_string());
    assert_eq!(act, SubmitAction::Insert);
    assert!(matches!(&st, Submission::Storing { key } if key == "ZZZZZZZZ"));
}

#[test]
fn store_failure_aborts_without_retry() {
    let st = Submission::Storing { key: "AAAAAAAA".to_string() };
    let (st, act) = submit_transition(st, SubmitEvent::StoreFailed, "BBBBBBBB".to_string());
    assert_eq!(act, SubmitAction::Abort);
    assert!(matches!(st, Submission::Failed));
}

#[test]
fn drawn_keys_are_eight_alphanumerics() {
    let (st, act) = submit_step(Submission::Drawing { collided: None }, SubmitEvent::Begin);
    assert_eq!(act, SubmitAction::Insert);
    match st {
        Submission::Storing { key } => {
            assert_eq!(key.chars().count(), 8);
            assert!(key.chars().all(|c| c.is_ascii_alphanumeric()));
        }
        other => panic!("unexpected state {:?}", other),
    }
}

#[test]
fn store_hit_populates_cache() {
    let mut c = ExpiringCache::new(Some(1));
    let r = finish_lookup(&mut c, "k".to_string(), StoreLookup::Found("text".to_string()));
    assert!(matches!(r, Retrieval::Content(ref v) if v == "text"));
    assert_eq!(c.get(&"k".to_string()), Some("text".to_string()));
}

#[test]
fn store_miss_and_failure() {
    let mut c = ExpiringCache::new(Some(1));
    let r = finish_lookup(&mut c, "k".to_string(), StoreLookup::Missing);
    assert!(matches!(r, Retrieval::NotFound));
    let r = finish_lookup(&mut c, "k".to_string(), StoreLookup::Failed);
    assert!(matches!(r, Retrieval::Internal));
    assert_eq!(c.get(&"k".to_string()), None);
}

#[test]
fn disabled_cache_falls_through() {
    let mut c = ExpiringCache::new(None);
    let r = finish_lookup(&mut c, "k".to_string(), StoreLookup::Found("text".to_string()));
    assert!(matches!(r, Retrieval::Content(ref v) if v == "text"));
    assert_eq!(c.get(&"k".to_string()), None);
}
