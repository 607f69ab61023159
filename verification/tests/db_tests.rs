use inkgraph::db::{match_from_extraction, new_in_progress_match, new_match_from_ocr};
use inkgraph::types::ExtractedMatchData;

fn is_uuid_v4(s: &str) -> bool {
    let c: Vec<char> = s.chars().collect();
    c.len() == 36
        && c.iter().enumerate().all(|(i, ch)| {
            if i == 8 || i == 13 || i == 18 || i == 23 {
                *ch == '-'
            } else {
                ch.is_ascii_digit() || ('a'..='f').contains(ch)
            }
        })
        && c[14] == '4'
        && matches!(c[19], '8' | '9' | 'a' | 'b')
}

#[test]
fn test_new_in_progress_match() {
    let m = new_in_progress_match();
    assert!(!m.id.is_empty());
    assert_eq!(m.result, "in_progress");
    assert!(m.kill_count.is_none());
}

#[test]
fn test_new_match_reuses_id() {
    let id = "existing-id".to_string();
    let m = new_match_from_ocr(
        Some(id.clone()),
        "win",
        Some(5),
        Some(1),
        Some(2),
        Some("2341.5".to_string()),
        None,
        None,
        Some("Xマッチ".to_string()),
    );
    assert_eq!(m.id, id);
    assert_eq!(m.result, "win");
    assert_eq!(m.mode.as_deref(), Some("Xマッチ"));
}

#[test]
fn test_new_match_generates_id_when_none() {
    let m = new_match_from_ocr(None, "lose", None, None, None, None, None, None, None);
    assert!(!m.id.is_empty());
    assert_eq!(m.result, "lose");
    assert!(m.mode.is_none());
}

#[test]
fn records_have_uuid_ids_and_utc_times() {
    let a = new_in_progress_match();
    let b = new_in_progress_match();
    assert!(is_uuid_v4(&a.id), "{}", a.id);
    assert_ne!(a.id, b.id);
    assert!(a.played_at.ends_with("+00:00"), "{}", a.played_at);
    assert_eq!(a.tags.as_deref(), Some("[]"));
    let m = new_match_from_ocr(None, "win", None, None, None, None, None, None, None);
    assert!(is_uuid_v4(&m.id));
    assert!(m.played_at.ends_with("+00:00"));
}

#[test]
fn extraction_completes_the_record_under_its_id() {
    let data = ExtractedMatchData {
        result: "win".to_string(),
        mode: Some("Xマッチ".to_string()),
        kill_count: Some(5),
        death_count: Some(2),
        special_count: Some(3),
        paint_count: Some(1200),
        xp_after: Some("2341.5".to_string()),
        rule: Some("ガチエリア".to_string()),
        stage: Some("マテガイ放水路".to_string()),
        gold_award_count: Some(1),
    };
    let m = match_from_extraction("battle-1".to_string(), data);
    assert_eq!(m.id, "battle-1");
    assert_eq!(m.result, "win");
    assert_eq!(m.paint_count, Some(1200));
    assert_eq!(m.special_count, Some(3));
    assert_eq!(m.gold_award_count, Some(1));
    assert_eq!(m.xp_after.as_deref(), Some("2341.5"));
    assert_eq!(m.assist_count, None);
}
