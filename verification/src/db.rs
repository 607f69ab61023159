//! Match records as the capture loop creates them: an in-progress record
//! at the battle start, completed from the result screen under the same id.
use vstd::prelude::*;
use crate::types::{ExtractedMatchData, Match};

verus! {

/// The database the interface stores matches in.
pub const DB_URL: &'static str = "sqlite:matches.db";

/// A lower-case hexadecimal digit.
pub open spec fn hex_lower(c: char) -> bool {
    ('0' <= c && c <= '9') || ('a' <= c && c <= 'f')
}

/// The hyphenated text of a random (version 4, RFC 4122 variant) UUID:
/// 36 characters, hyphens at 8, 13, 18 and 23, lower-case hexadecimal
/// digits elsewhere, version digit `4`, variant digit `8`, `9`, `a` or `b`.
pub open spec fn uuid_v4_text(s: Seq<char>) -> bool {
    &&& s.len() == 36
    &&& forall|i: int|
        0 <= i < 36 ==> if i == 8 || i == 13 || i == 18 || i == 23 {
            #[trigger] s[i] == '-'
        } else {
            hex_lower(s[i])
        }
    &&& s[14] == '4'
    &&& (s[19] == '8' || s[19] == '9' || s[19] == 'a' || s[19] == 'b')
}

/// An RFC 3339 time in UTC: its offset is written `+00:00`.
pub open spec fn utc_text(s: Seq<char>) -> bool {
    &&& s.len() >= 6
    &&& s[s.len() - 6] == '+'
    &&& s[s.len() - 5] == '0'
    &&& s[s.len() - 4] == '0'
    &&& s[s.len() - 3] == ':'
    &&& s[s.len() - 2] == '0'
    &&& s[s.len() - 1] == '0'
}

/// `Uuid::new_v4().to_string()`: a fresh random UUID in hyphenated
/// lower-case form (uuid's `Display` writes `as_hyphenated`; `new_v4` sets
/// the version and variant bits).  Which UUID comes back is left open.
#[verifier::external_body]
fn new_uuid() -> (r: String)
    ensures
        uuid_v4_text(r@),
{
    uuid::Uuid::new_v4().to_string()
}

/// `Utc::now().to_rfc3339()`: the current time in RFC 3339 with the UTC
/// offset written `+00:00` (chrono's `write_rfc3339` without `Z`).  Which
/// time it is is left open.
#[verifier::external_body]
fn utc_now_rfc3339() -> (r: String)
    ensures
        utc_text(r@),
{
    chrono::Utc::now().to_rfc3339()
}

fn text(s: &str) -> (r: String)
    ensures
        r@ == s@,
{
    crate::text::string_of(&crate::text::chars_of(s))
}

/// A record that nothing has been read into yet: no mode, rule, stage,
/// weapon, counts, X power, gold awards, note or timestamps; an empty tag
/// list.
pub open spec fn blank_fields(m: Match) -> bool {
    &&& m.weapon is None
    &&& m.tags matches Some(t) && t@ == "[]"@
    &&& m.note is None
    &&& m.created_at is None
    &&& m.updated_at is None
}

/// The record created at a battle start: a fresh id, the current time, the
/// result `in_progress`, nothing read yet.
pub open spec fn in_progress_record(m: Match) -> bool {
    &&& uuid_v4_text(m.id@)
    &&& utc_text(m.played_at@)
    &&& m.result@ == "in_progress"@
    &&& m.mode is None && m.rule is None && m.stage is None
    &&& m.kill_count is None && m.assist_count is None && m.death_count is None
    &&& m.special_count is None && m.paint_count is None
    &&& m.xp_after is None && m.gold_award_count is None
    &&& blank_fields(m)
}

/// The `in_progress` record created when a battle starts; its id is kept
/// to complete the record at the result screen.
pub fn new_in_progress_match() -> (m: Match)
    ensures
        in_progress_record(m),
{
    Match {
        id: new_uuid(),
        played_at: utc_now_rfc3339(),
        mode: None,
        rule: None,
        stage: None,
        weapon: None,
        result: text("in_progress"),
        kill_count: None,
        assist_count: None,
        death_count: None,
        special_count: None,
        paint_count: None,
        xp_after: None,
        gold_award_count: None,
        tags: Some(text("[]")),
        note: None,
        created_at: None,
        updated_at: None,
    }
}

/// A record built from what OCR read: the given id (a fresh one when there
/// is none, so an in-progress record is overwritten under its own id), the
/// current time, and the values given.
pub fn new_match_from_ocr(
    id: Option<String>,
    result: &str,
    kill_count: Option<i64>,
    assist_count: Option<i64>,
    death_count: Option<i64>,
    xp_after: Option<String>,
    rule: Option<String>,
    stage: Option<String>,
    mode: Option<String>,
) -> (m: Match)
    ensures
        match id {
            Some(i) => m.id@ == i@,
            None => uuid_v4_text(m.id@),
        },
        utc_text(m.played_at@),
        m.result@ == result@,
        m.kill_count == kill_count,
        m.assist_count == assist_count,
        m.death_count == death_count,
        m.xp_after == xp_after,
        m.rule == rule,
        m.stage == stage,
        m.mode == mode,
        m.special_count is None,
        m.paint_count is None,
        m.gold_award_count is None,
        blank_fields(m),
{
    let id = match id {
        Some(i) => i,
        None => new_uuid(),
    };
    Match {
        id,
        played_at: utc_now_rfc3339(),
        mode,
        rule,
        stage,
        weapon: None,
        result: text(result),
        kill_count,
        assist_count,
        death_count,
        special_count: None,
        paint_count: None,
        xp_after,
        gold_award_count: None,
        tags: Some(text("[]")),
        note: None,
        created_at: None,
        updated_at: None,
    }
}

/// The completed record of the battle `id`: everything read from its
/// result screen, at the current time.
pub fn match_from_extraction(id: String, data: ExtractedMatchData) -> (m: Match)
    ensures
        m.id == id,
        utc_text(m.played_at@),
        m.result == data.result,
        m.mode == data.mode,
        m.rule == data.rule,
        m.stage == data.stage,
        m.kill_count == data.kill_count,
        m.assist_count is None,
        m.death_count == data.death_count,
        m.special_count == data.special_count,
        m.paint_count == data.paint_count,
        m.xp_after == data.xp_after,
        m.gold_award_count == data.gold_award_count,
        blank_fields(m),
{
    Match {
        id,
        played_at: utc_now_rfc3339(),
        mode: data.mode,
        rule: data.rule,
        stage: data.stage,
        weapon: None,
        result: data.result,
        kill_count: data.kill_count,
        assist_count: None,
        death_count: data.death_count,
        special_count: data.special_count,
        paint_count: data.paint_count,
        xp_after: data.xp_after,
        gold_award_count: data.gold_award_count,
        tags: Some(text("[]")),
        note: None,
        created_at: None,
        updated_at: None,
    }
}

} // verus!
