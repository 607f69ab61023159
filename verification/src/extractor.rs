//! Normalisation of OCR text: rule, stage and mode names are matched
//! against the known names by aliases, then by character recall.
use vstd::prelude::*;
use crate::cascade::{
    all_digits, digits_num, is_ascii_digit, lemma_prefix_le, HeaderInfo, PlayerStats,
};
use crate::detection::{best_detection, best_index, class_id_of, min_i, BBox, Detection, YoloClass};
use crate::geometry::{scale, scale_spec, Roi};
use crate::types::{ExtractedMatchData, OcrDebugField, OcrDebugResult};
use crate::text::{
    ascii_upper, char_from_u32, chars_of, names_view, contains_chars, contains_seq, is_ascii_seq, lemma_absent_char,
    lemma_ascii_misses, lemma_ascii_upper_is_ascii, lemma_found_upper_cased,
    lemma_trim_idempotent, occurs_at, string_of, to_upper, trim_end, trim_spec, trim_start, trim_str, upper_stable,
    uppercase,
};

verus! {

// ---------------------------------------------------------------------------
// Kana folding
// ---------------------------------------------------------------------------

/// Small katakana read as their full-size forms.
pub open spec fn small_to_large(k: char) -> char {
    if k == 'ァ' { 'ア' }
    else if k == 'ィ' { 'イ' }
    else if k == 'ゥ' { 'ウ' }
    else if k == 'ェ' { 'エ' }
    else if k == 'ォ' { 'オ' }
    else if k == 'ャ' { 'ヤ' }
    else if k == 'ュ' { 'ユ' }
    else if k == 'ョ' { 'ヨ' }
    else if k == 'ッ' { 'ツ' }
    else if k == 'ヮ' { 'ワ' }
    else if k == 'ヵ' { 'カ' }
    else if k == 'ヶ' { 'ケ' }
    else { k }
}

/// Hiragana (U+3041..U+3096) read as katakana, small katakana as full size.
pub open spec fn kana_fold(c: char) -> char {
    let u = c as u32;
    let k = if 0x3041 <= u <= 0x3096 { (u + 0x60) as char } else { c };
    small_to_large(k)
}

/// Folds every character of `s`.
pub open spec fn normalize_kana_spec(s: Seq<char>) -> Seq<char> {
    s.map_values(|c: char| kana_fold(c))
}

fn fold_char(c: char) -> (r: char)
    ensures
        r == kana_fold(c),
{
    let u = c as u32;
    let k = if 0x3041 <= u && u <= 0x3096 {
        match char_from_u32(u + 0x60) {
            Some(k) => k,
            None => c,
        }
    } else {
        c
    };
    match k {
        'ァ' => 'ア',
        'ィ' => 'イ',
        'ゥ' => 'ウ',
        'ェ' => 'エ',
        'ォ' => 'オ',
        'ャ' => 'ヤ',
        'ュ' => 'ユ',
        'ョ' => 'ヨ',
        'ッ' => 'ツ',
        'ヮ' => 'ワ',
        'ヵ' => 'カ',
        'ヶ' => 'ケ',
        _ => k,
    }
}

/// Hiragana to katakana and small katakana to full size (OCR misreads).
pub fn normalize_kana(s: &Vec<char>) -> (r: Vec<char>)
    ensures
        r@ == normalize_kana_spec(s@),
{
    let mut r: Vec<char> = Vec::new();
    let mut i: usize = 0;
    while i < s.len()
        invariant
            i <= s.len(),
            r@ == normalize_kana_spec(s@.take(i as int)),
        decreases s.len() - i,
    {
        r.push(fold_char(s[i]));
        i = i + 1;
        proof {
            assert(normalize_kana_spec(s@.take(i as int)) =~= normalize_kana_spec(s@.take(i - 1)).push(kana_fold(s@[i - 1])));
        }
    }
    proof {
        assert(s@.take(i as int) =~= s@);
    }
    r
}

// ---------------------------------------------------------------------------
// Character recall
// ---------------------------------------------------------------------------

/// First position of `c` in `pool`.
pub open spec fn first_pos(pool: Seq<char>, c: char) -> Option<int>
    decreases pool.len(),
{
    if pool.len() == 0 {
        None
    } else if pool[0] == c {
        Some(0)
    } else {
        match first_pos(pool.drop_first(), c) {
            Some(p) => Some(p + 1),
            None => None,
        }
    }
}

/// Characters of `cand` found in `pool`, each found character taken out of
/// the pool (so repeated characters count as often as they occur).
pub open spec fn consumed(cand: Seq<char>, pool: Seq<char>) -> int
    decreases cand.len(),
{
    if cand.len() == 0 {
        0
    } else {
        match first_pos(pool, cand[0]) {
            Some(p) => 1 + consumed(cand.drop_first(), pool.remove(p)),
            None => consumed(cand.drop_first(), pool),
        }
    }
}

/// Share of the candidate's characters found in the OCR text, as the
/// fraction (found, length) after kana folding; 0 / 1 for an empty
/// candidate.
pub open spec fn recall_spec(cand: Seq<char>, ocr: Seq<char>) -> (int, int) {
    if cand.len() == 0 {
        (0, 1)
    } else {
        (consumed(normalize_kana_spec(cand), normalize_kana_spec(ocr)), cand.len() as int)
    }
}

proof fn lemma_first_pos(pool: Seq<char>, c: char)
    ensures
        first_pos(pool, c) matches Some(p) ==> 0 <= p < pool.len() && pool[p] == c
            && forall|k: int| 0 <= k < p ==> pool[k] != c,
        first_pos(pool, c) is None ==> forall|k: int| 0 <= k < pool.len() ==> pool[k] != c,
    decreases pool.len(),
{
    if pool.len() > 0 && pool[0] != c {
        lemma_first_pos(pool.drop_first(), c);
        assert forall|k: int| 0 < k < pool.len() implies pool[k] == pool.drop_first()[k - 1] by {}
    }
}

proof fn lemma_consumed_bounds(cand: Seq<char>, pool: Seq<char>)
    ensures
        0 <= consumed(cand, pool) <= cand.len(),
    decreases cand.len(),
{
    if cand.len() > 0 {
        lemma_consumed_bounds(cand.drop_first(), pool);
        lemma_first_pos(pool, cand[0]);
        if let Some(p) = first_pos(pool, cand[0]) {
            lemma_consumed_bounds(cand.drop_first(), pool.remove(p));
        }
    }
}

fn position_of(pool: &Vec<char>, c: char) -> (r: Option<usize>)
    ensures
        match first_pos(pool@, c) {
            Some(p) => r matches Some(i) && i as int == p,
            None => r is None,
        },
{
    proof {
        lemma_first_pos(pool@, c);
    }
    let mut i: usize = 0;
    while i < pool.len()
        invariant
            i <= pool.len(),
            forall|k: int| 0 <= k < i ==> pool@[k] != c,
        decreases pool.len() - i,
    {
        if pool[i] == c {
            proof {
                lemma_first_pos(pool@, c);
                match first_pos(pool@, c) {
                    Some(p) => {
                        if p < i {
                            assert(pool@[p] != c);
                        } else if p > i {
                            assert(pool@[i as int] != c);
                        }
                    },
                    None => {
                        assert(pool@[i as int] != c);
                    },
                }
            }
            return Some(i);
        }
        i = i + 1;
    }
    None
}

/// How many of the candidate's characters occur in the OCR text (each OCR
/// character used once), after kana folding: (found, candidate length),
/// or 0 / 1 for an empty candidate.
pub fn char_recall(candidate: &Vec<char>, ocr: &Vec<char>) -> (r: (u64, u64))
    ensures
        r.0 == recall_spec(candidate@, ocr@).0,
        r.1 == recall_spec(candidate@, ocr@).1,
        r.1 > 0,
        r.0 <= r.1,
{
    if candidate.len() == 0 {
        return (0, 1);
    }
    let cand = normalize_kana(candidate);
    let mut pool = normalize_kana(ocr);
    let ghost c0 = cand@;
    let ghost p0 = pool@;
    let mut matched: u64 = 0;
    let mut i: usize = 0;
    proof {
        assert(c0.skip(0) =~= c0);
    }
    while i < cand.len()
        invariant
            i <= cand.len(),
            c0 == cand@,
            matched + consumed(c0.skip(i as int), pool@) == consumed(c0, p0),
            matched <= i,
        decreases cand.len() - i,
    {
        proof {
            assert(c0.skip(i as int).drop_first() =~= c0.skip(i + 1));
            assert(c0.skip(i as int)[0] == c0[i as int]);
        }
        let ghost before = pool@;
        proof {
            lemma_first_pos(before, c0[i as int]);
        }
        match position_of(&pool, cand[i]) {
            Some(p) => {
                pool.remove(p);
                proof {
                    let t = c0.skip(i as int);
                    assert(t[0] == c0[i as int]);
                    assert(cand@[i as int] == c0[i as int]);
                    match first_pos(before, c0[i as int]) {
                        Some(q) => {
                            assert(0 <= q < before.len());
                            assert(q == p as int);
                        },
                        None => {
                            assert(false);
                        },
                    }
                    assert(first_pos(before, t[0]) == Some(p as int));
                    assert(t.drop_first() =~= c0.skip(i + 1));
                    assert(consumed(t, before) == 1 + consumed(t.drop_first(), before.remove(p as int)));
                }
                matched = matched + 1;
            },
            None => {
                proof {
                    assert(consumed(c0.skip(i as int), before) == consumed(c0.skip(i + 1), before));
                }
            },
        }
        i = i + 1;
    }
    proof {
        assert(c0.skip(i as int) =~= Seq::<char>::empty());
        lemma_consumed_bounds(c0, p0);
    }
    (matched, candidate.len() as u64)
}

/// Fraction `a` is at least fraction `b` (positive denominators).
pub open spec fn frac_ge(a: (int, int), b: (int, int)) -> bool {
    a.0 * b.1 >= b.0 * a.1
}

/// Index of the candidate with the highest recall among the first `n`;
/// among equal recalls the last one.
pub open spec fn best_candidate(raw: Seq<char>, cands: Seq<Seq<char>>, n: int) -> int
    decreases n,
{
    if n <= 1 {
        0
    } else {
        let b = best_candidate(raw, cands, n - 1);
        if frac_ge(recall_spec(cands[n - 1], raw), recall_spec(cands[b], raw)) { n - 1 } else { b }
    }
}

/// The candidate of highest recall in `raw`, when its recall reaches
/// `threshold` (millionths).
pub open spec fn fuzzy_spec(raw: Seq<char>, cands: Seq<Seq<char>>, threshold: int) -> Option<int> {
    if cands.len() == 0 {
        None
    } else {
        let b = best_candidate(raw, cands, cands.len() as int);
        let r = recall_spec(cands[b], raw);
        if r.0 * 1_000_000 >= threshold * r.1 { Some(b) } else { None }
    }
}

proof fn lemma_best_candidate(raw: Seq<char>, cands: Seq<Seq<char>>, n: int)
    requires
        1 <= n,
    ensures
        0 <= best_candidate(raw, cands, n) < n,
    decreases n,
{
    if n > 1 {
        lemma_best_candidate(raw, cands, n - 1);
    }
}

fn frac_ge_exec(a: (u64, u64), b: (u64, u64)) -> (r: bool)
    ensures
        r == frac_ge((a.0 as int, a.1 as int), (b.0 as int, b.1 as int)),
{
    proof {
        lemma_u64_product(a.0, b.1);
        lemma_u64_product(b.0, a.1);
    }
    a.0 as u128 * b.1 as u128 >= b.0 as u128 * a.1 as u128
}

proof fn lemma_u64_product(x: u64, y: u64)
    ensures
        x as int * y as int <= u64::MAX as int * u64::MAX as int,
{
    assert(x as int * y as int <= u64::MAX as int * u64::MAX as int) by (nonlinear_arith)
        requires
            x <= u64::MAX,
            y <= u64::MAX,
    ;
}

/// The candidate (by index) whose characters are best recalled in `raw`,
/// if its recall reaches `threshold` (millionths).
pub fn fuzzy_best_match(raw: &Vec<char>, candidates: &[&str], threshold: u32) -> (r: Option<usize>)
    ensures
        match fuzzy_spec(raw@, names_view(candidates@), threshold as int) {
            Some(b) => r == Some(b as usize),
            None => r is None,
        },
{
    let ghost cv = names_view(candidates@);
    if candidates.len() == 0 {
        return None;
    }
    let mut best: usize = 0;
    let mut best_score = char_recall(&chars_of(candidates[0]), raw);
    let mut i: usize = 1;
    while i < candidates.len()
        invariant
            1 <= i <= candidates@.len(),
            cv == names_view(candidates@),
            best as int == best_candidate(raw@, cv, i as int),
            best < i,
            best_score.0 == recall_spec(cv[best as int], raw@).0,
            best_score.1 == recall_spec(cv[best as int], raw@).1,
            best_score.0 <= best_score.1,
            best_score.1 > 0,
        decreases candidates@.len() - i,
    {
        let score = char_recall(&chars_of(candidates[i]), raw);
        proof {
            assert(cv[i as int] == candidates@[i as int]@);
        }
        if frac_ge_exec(score, best_score) {
            best = i;
            best_score = score;
        }
        i = i + 1;
    }
    proof {
        assert(cv.len() == candidates@.len());
        lemma_u64_product(threshold as u64, best_score.1);
        lemma_u64_product(best_score.0, 1_000_000);
    }
    if best_score.0 as u128 * 1_000_000 >= threshold as u128 * best_score.1 as u128 {
        Some(best)
    } else {
        None
    }
}


// ---------------------------------------------------------------------------
// Alias matching
// ---------------------------------------------------------------------------

/// `alias` occurs in the upper-cased OCR text in upper case, or in the OCR
/// text as it is.
pub open spec fn alias_hit(raw: Seq<char>, alias: Seq<char>) -> bool {
    contains_seq(uppercase(raw), uppercase(alias)) || contains_seq(raw, alias)
}

fn alias_hit_exec(raw: &Vec<char>, upper_raw: &Vec<char>, alias: &str) -> (r: bool)
    requires
        upper_raw@ == uppercase(raw@),
    ensures
        r == alias_hit(raw@, alias@),
        is_ascii_seq(alias@) ==> uppercase(alias@) == ascii_upper(alias@),
        upper_stable(alias@) ==> uppercase(alias@) == ascii_upper(alias@),
{
    contains_chars(upper_raw, &to_upper(alias)) || contains_chars(raw, &chars_of(alias))
}

fn owned(s: &str) -> (r: String)
    ensures
        r@ == s@,
{
    string_of(&chars_of(s))
}

/// The four ranked rules.
pub open spec fn rule_names() -> Seq<Seq<char>> {
    seq!["ガチエリア"@, "ガチヤグラ"@, "ガチホコ"@, "ガチアサリ"@]
}

/// The rule whose alias (Japanese or English) occurs in the OCR text.
pub open spec fn rule_by_alias(raw: Seq<char>) -> Option<Seq<char>> {
    if alias_hit(raw, "ガチエリア"@) || alias_hit(raw, "エリア"@) || alias_hit(raw, "AREA"@)
        || alias_hit(raw, "SPLAT ZONES"@) {
        Some("ガチエリア"@)
    } else if alias_hit(raw, "ガチヤグラ"@) || alias_hit(raw, "ヤグラ"@) || alias_hit(raw, "TOWER"@)
        || alias_hit(raw, "TOWER CONTROL"@) {
        Some("ガチヤグラ"@)
    } else if alias_hit(raw, "ガチホコ"@) || alias_hit(raw, "ホコ"@) || alias_hit(raw, "RAINMAKER"@) {
        Some("ガチホコ"@)
    } else if alias_hit(raw, "ガチアサリ"@) || alias_hit(raw, "アサリ"@) || alias_hit(raw, "CLAM"@)
        || alias_hit(raw, "CLAM BLITZ"@) {
        Some("ガチアサリ"@)
    } else {
        None
    }
}

/// The rule read from OCR text: by alias, else the rule name best recalled
/// in the trimmed text when at least 30% of its characters are found.
pub open spec fn normalize_rule_spec(raw: Seq<char>) -> Option<Seq<char>> {
    match rule_by_alias(raw) {
        Some(c) => Some(c),
        None => match fuzzy_spec(trim_spec(raw), rule_names(), 300_000) {
            Some(i) => Some(rule_names()[i]),
            None => None,
        },
    }
}

fn picked(names: &[&str], i: Option<usize>) -> (r: Option<String>)
    requires
        i matches Some(k) ==> k < names@.len(),
    ensures
        match i {
            Some(k) => r matches Some(s) && s@ == names@[k as int]@,
            None => r is None,
        },
{
    match i {
        Some(k) => Some(owned(names[k])),
        None => None,
    }
}

/// The canonical rule name for OCR text, if one can be read.  English
/// aliases match in any ASCII case: ASCII text with `area` or `splat
/// zones` in it, in upper or lower case, reads as ガチエリア.  Each rule
/// name reads as itself.
pub fn normalize_rule(raw: &str) -> (r: Option<String>)
    ensures
        match normalize_rule_spec(raw@) {
            Some(c) => r matches Some(s) && s@ == c,
            None => r is None,
        },
        is_ascii_seq(raw@) && (contains_seq(ascii_upper(raw@), "AREA"@) || contains_seq(
            ascii_upper(raw@),
            "SPLAT ZONES"@,
        )) ==> (r matches Some(s) && s@ == "ガチエリア"@),
        rule_names().contains(raw@) ==> (r matches Some(s) && s@ == raw@),
        is_ascii_seq(raw@) && english_rule(ascii_upper(raw@)) is Some ==> opt_view(r) == english_rule(
            ascii_upper(raw@),
        ),
{
    let v = chars_of(raw);
    let up = to_upper(raw);
    proof {
        lemma_rule_literals_stable();
        lemma_rule_names_found();
        if is_ascii_seq(raw@) {
            lemma_rule_aliases_in_ascii(raw@);
        }
        if rule_names().contains(raw@) {
            let k = choose|k: int| 0 <= k < rule_names().len() && rule_names()[k] == raw@;
            assert(raw@ == "ガチエリア"@ || raw@ == "ガチヤグラ"@ || raw@ == "ガチホコ"@ || raw@ == "ガチアサリ"@);
        }
        reveal_strlit("AREA");
        reveal_strlit("SPLAT ZONES");
        assert(ascii_upper("AREA"@) =~= "AREA"@);
        assert(ascii_upper("SPLAT ZONES"@) =~= "SPLAT ZONES"@);
    }
    if alias_hit_exec(&v, &up, "ガチエリア") || alias_hit_exec(&v, &up, "エリア") || alias_hit_exec(&v, &up, "AREA")
        || alias_hit_exec(&v, &up, "SPLAT ZONES") {
        return Some(owned("ガチエリア"));
    }
    if alias_hit_exec(&v, &up, "ガチヤグラ") || alias_hit_exec(&v, &up, "ヤグラ") || alias_hit_exec(&v, &up, "TOWER")
        || alias_hit_exec(&v, &up, "TOWER CONTROL") {
        return Some(owned("ガチヤグラ"));
    }
    if alias_hit_exec(&v, &up, "ガチホコ") || alias_hit_exec(&v, &up, "ホコ") || alias_hit_exec(&v, &up, "RAINMAKER") {
        return Some(owned("ガチホコ"));
    }
    if alias_hit_exec(&v, &up, "ガチアサリ") || alias_hit_exec(&v, &up, "アサリ") || alias_hit_exec(&v, &up, "CLAM")
        || alias_hit_exec(&v, &up, "CLAM BLITZ") {
        return Some(owned("ガチアサリ"));
    }
    let names: [&str; 4] = ["ガチエリア", "ガチヤグラ", "ガチホコ", "ガチアサリ"];
    proof {
        assert(names_view(names@) =~= rule_names());
        reveal_strlit("ガチエリア");
        reveal_strlit("ガチヤグラ");
        reveal_strlit("ガチホコ");
        reveal_strlit("ガチアサリ");
    }
    let t = trim_str(raw);
    let i = fuzzy_best_match(&t, &names, 300_000);
    proof {
        if let Some(b) = fuzzy_spec(t@, rule_names(), 300_000) {
            lemma_best_candidate(t@, rule_names(), 4);
        }
    }
    picked(&names, i)
}


// ---------------------------------------------------------------------------
// Stages
// ---------------------------------------------------------------------------

/// The stages of the game, in the order they are tried.
pub open spec fn stage_names() -> Seq<Seq<char>> {
    seq![
        "ユノハナ大渓谷"@, "ゴンズイ地区"@, "ヤガラ市場"@, "マテガイ放水路"@,
        "ナメロウ金属"@, "ナンプラー遺跡"@, "クサヤ温泉"@, "ヒラメが丘団地"@,
        "マサバ海峡大橋"@, "スメーシーワールド"@, "キンメダイ美術館"@,
        "タラポートショッピングパーク"@, "バイガイ亭"@, "海女美術大学"@,
        "チョウザメ造船"@, "ザトウマーケット"@, "リュウグウターミナル"@,
        "オヒョウ海運"@, "カジキ空港"@,
        "ネギトロ炭鉱"@, "ショッツル鉱山"@, "デカライン高架下"@,
        "コンブトラック"@, "マヒマヒリゾート&スパ"@, "マンタマリア号"@, "タカアシ経済特区"@,
    ]
}

/// The stage names as literals, in the order of `stage_names`.
fn stage_list() -> (r: [&'static str; 26])
    ensures
        names_view(r@) == stage_names(),
{
    let r: [&'static str; 26] = [
        "ユノハナ大渓谷", "ゴンズイ地区", "ヤガラ市場", "マテガイ放水路",
        "ナメロウ金属", "ナンプラー遺跡", "クサヤ温泉", "ヒラメが丘団地",
        "マサバ海峡大橋", "スメーシーワールド", "キンメダイ美術館",
        "タラポートショッピングパーク", "バイガイ亭", "海女美術大学",
        "チョウザメ造船", "ザトウマーケット", "リュウグウターミナル",
        "オヒョウ海運", "カジキ空港",
        "ネギトロ炭鉱", "ショッツル鉱山", "デカライン高架下",
        "コンブトラック", "マヒマヒリゾート&スパ", "マンタマリア号", "タカアシ経済特区",
    ];
    proof {
        assert(names_view(r@) =~= stage_names());
    }
    r
}

/// The stage name `t` matches directly: `t` contains the name, or `t` has
/// at least four characters and the name contains `t`.
pub open spec fn stage_hit(t: Seq<char>, name: Seq<char>) -> bool {
    contains_seq(t, name) || (t.len() >= 4 && contains_seq(name, t))
}

/// The first name from index `i` on that `t` matches directly.
pub open spec fn first_stage_hit(t: Seq<char>, names: Seq<Seq<char>>, i: int) -> Option<int>
    decreases names.len() - i,
{
    if i < 0 || i >= names.len() {
        None
    } else if stage_hit(t, names[i]) {
        Some(i)
    } else {
        first_stage_hit(t, names, i + 1)
    }
}

/// The stage read from OCR text: none for blank text; else the first stage
/// matched directly by the trimmed text; else the stage best recalled when
/// at least 35% of its characters are found.
pub open spec fn normalize_stage_spec(raw: Seq<char>) -> Option<Seq<char>> {
    let t = trim_spec(raw);
    if t.len() == 0 {
        None
    } else {
        match first_stage_hit(t, stage_names(), 0) {
            Some(i) => Some(stage_names()[i]),
            None => match fuzzy_spec(t, stage_names(), 350_000) {
                Some(i) => Some(stage_names()[i]),
                None => None,
            },
        }
    }
}

proof fn lemma_first_stage_hit(t: Seq<char>, names: Seq<Seq<char>>, i: int)
    requires
        0 <= i,
    ensures
        first_stage_hit(t, names, i) matches Some(k) ==> i <= k < names.len(),
    decreases names.len() - i,
{
    if i < names.len() && !stage_hit(t, names[i]) {
        lemma_first_stage_hit(t, names, i + 1);
    }
}

/// The canonical stage name for OCR text, if one can be read.
pub fn normalize_stage(raw: &str) -> (r: Option<String>)
    ensures
        match normalize_stage_spec(raw@) {
            Some(c) => r matches Some(s) && s@ == c,
            None => r is None,
        },
{
    let t = trim_str(raw);
    if t.len() == 0 {
        return None;
    }
    let stages = stage_list();
    let ghost sv = stage_names();
    let mut i: usize = 0;
    while i < 26
        invariant
            i <= 26,
            t@ == trim_spec(raw@),
            t@.len() > 0,
            names_view(stages@) == sv,
            sv == stage_names(),
            first_stage_hit(t@, sv, 0) == first_stage_hit(t@, sv, i as int),
        decreases 26 - i,
    {
        let name = chars_of(stages[i]);
        proof {
            assert(sv[i as int] == stages@[i as int]@);
        }
        if contains_chars(&t, &name) || (t.len() >= 4 && contains_chars(&name, &t)) {
            return Some(owned(stages[i]));
        }
        i = i + 1;
    }
    let k = fuzzy_best_match(&t, &stages, 350_000);
    proof {
        if let Some(b) = fuzzy_spec(t@, sv, 350_000) {
            lemma_best_candidate(t@, sv, 26);
        }
    }
    picked(&stages, k)
}

// ---------------------------------------------------------------------------
// Modes
// ---------------------------------------------------------------------------

/// The mode whose alias (Japanese or English) occurs in the OCR text.
pub open spec fn mode_by_alias(raw: Seq<char>) -> Option<Seq<char>> {
    if alias_hit(raw, "Xマッチ"@) || alias_hit(raw, "X BATTLE"@) || alias_hit(raw, "Xバトル"@)
        || alias_hit(raw, "X MATCH"@) {
        Some("Xマッチ"@)
    } else if alias_hit(raw, "チャレンジ"@) || alias_hit(raw, "CHALLENGE"@) || alias_hit(raw, "ANARCHY OPEN"@) {
        Some("バンカラマッチ(チャレンジ)"@)
    } else if alias_hit(raw, "オープン"@) || alias_hit(raw, "OPEN"@) || alias_hit(raw, "ANARCHY BATTLE"@)
        || alias_hit(raw, "バンカラ"@) || alias_hit(raw, "オーフン"@) || alias_hit(raw, "オーブン"@) {
        Some("バンカラマッチ(オープン)"@)
    } else if alias_hit(raw, "ナワバリ"@) || alias_hit(raw, "TURF WAR"@) {
        Some("ナワバリバトル"@)
    } else if alias_hit(raw, "サーモン"@) || alias_hit(raw, "SALMON"@) {
        Some("サーモンラン"@)
    } else {
        None
    }
}

/// The upper-cased OCR text names a rule (so it is no mode).
pub open spec fn names_rule(raw: Seq<char>) -> bool {
    let u = uppercase(raw);
    ||| contains_seq(u, uppercase("ガチエリア"@))
    ||| contains_seq(u, uppercase("ガチヤグラ"@))
    ||| contains_seq(u, uppercase("ガチホコ"@))
    ||| contains_seq(u, uppercase("ガチアサリ"@))
    ||| contains_seq(u, uppercase("AREA"@))
    ||| contains_seq(u, uppercase("TOWER"@))
    ||| contains_seq(u, uppercase("RAINMAKER"@))
    ||| contains_seq(u, uppercase("CLAM"@))
}

/// The four battle modes tried by recall.
pub open spec fn mode_names() -> Seq<Seq<char>> {
    seq!["Xマッチ"@, "バンカラマッチ(チャレンジ)"@, "バンカラマッチ(オープン)"@, "ナワバリバトル"@]
}

/// The mode read from OCR text: none for blank text; else by alias; none
/// when the text names a rule or recalls a rule name at 35%; else the mode
/// best recalled at 40%.
pub open spec fn normalize_mode_spec(raw: Seq<char>) -> Option<Seq<char>> {
    let t = trim_spec(raw);
    if t.len() == 0 {
        None
    } else {
        match mode_by_alias(raw) {
            Some(c) => Some(c),
            None => if names_rule(raw) || fuzzy_spec(t, rule_names(), 350_000) is Some {
                None
            } else {
                match fuzzy_spec(t, mode_names(), 400_000) {
                    Some(i) => Some(mode_names()[i]),
                    None => None,
                }
            },
        }
    }
}

fn upper_contains(upper_raw: &Vec<char>, name: &str) -> (r: bool)
    ensures
        r == contains_seq(upper_raw@, uppercase(name@)),
        is_ascii_seq(name@) ==> uppercase(name@) == ascii_upper(name@),
        upper_stable(name@) ==> uppercase(name@) == ascii_upper(name@),
{
    contains_chars(upper_raw, &to_upper(name))
}

/// The canonical mode name for OCR text, if one can be read.  English
/// rule names count in any ASCII case: ASCII text that names no mode and
/// has `area`, `tower`, `rainmaker` or `clam` in it, in upper or lower
/// case, is no mode.  Each mode name reads as itself.
#[verifier::rlimit(60)]
#[verifier::spinoff_prover]
pub fn normalize_mode(raw: &str) -> (r: Option<String>)
    ensures
        match normalize_mode_spec(raw@) {
            Some(c) => r matches Some(s) && s@ == c,
            None => r is None,
        },
        is_ascii_seq(raw@) && mode_by_alias(raw@) is None && (contains_seq(ascii_upper(raw@), "AREA"@)
            || contains_seq(ascii_upper(raw@), "TOWER"@) || contains_seq(ascii_upper(raw@), "RAINMAKER"@)
            || contains_seq(ascii_upper(raw@), "CLAM"@)) ==> r is None,
        mode_names().push("サーモンラン"@).contains(raw@) ==> (r matches Some(s) && s@ == raw@),
        is_ascii_seq(raw@) && trim_spec(raw@).len() > 0 && english_mode(ascii_upper(raw@)) is Some ==> opt_view(r)
            == english_mode(ascii_upper(raw@)),
{
    proof {
        lemma_mode_literals_stable();
        lemma_mode_names_found();
        if is_ascii_seq(raw@) {
            lemma_mode_aliases_in_ascii(raw@);
        }
        if mode_names().push("サーモンラン"@).contains(raw@) {
            let m = mode_names().push("サーモンラン"@);
            let k = choose|k: int| 0 <= k < m.len() && m[k] == raw@;
            assert(raw@ == "Xマッチ"@ || raw@ == "バンカラマッチ(チャレンジ)"@ || raw@ == "バンカラマッチ(オープン)"@
                || raw@ == "ナワバリバトル"@ || raw@ == "サーモンラン"@);
        }
    }
    let t = trim_str(raw);
    if t.len() == 0 {
        return None;
    }
    let v = chars_of(raw);
    let up = to_upper(raw);
    proof {
        reveal_strlit("AREA");
        reveal_strlit("TOWER");
        reveal_strlit("RAINMAKER");
        reveal_strlit("CLAM");
        assert(ascii_upper("AREA"@) =~= "AREA"@);
        assert(ascii_upper("TOWER"@) =~= "TOWER"@);
        assert(ascii_upper("RAINMAKER"@) =~= "RAINMAKER"@);
        assert(ascii_upper("CLAM"@) =~= "CLAM"@);
    }
    if alias_hit_exec(&v, &up, "Xマッチ") || alias_hit_exec(&v, &up, "X BATTLE") || alias_hit_exec(&v, &up, "Xバトル")
        || alias_hit_exec(&v, &up, "X MATCH") {
        return Some(owned("Xマッチ"));
    }
    if alias_hit_exec(&v, &up, "チャレンジ") || alias_hit_exec(&v, &up, "CHALLENGE")
        || alias_hit_exec(&v, &up, "ANARCHY OPEN") {
        return Some(owned("バンカラマッチ(チャレンジ)"));
    }
    if alias_hit_exec(&v, &up, "オープン") || alias_hit_exec(&v, &up, "OPEN")
        || alias_hit_exec(&v, &up, "ANARCHY BATTLE") || alias_hit_exec(&v, &up, "バンカラ")
        || alias_hit_exec(&v, &up, "オーフン") || alias_hit_exec(&v, &up, "オーブン") {
        return Some(owned("バンカラマッチ(オープン)"));
    }
    if alias_hit_exec(&v, &up, "ナワバリ") || alias_hit_exec(&v, &up, "TURF WAR") {
        return Some(owned("ナワバリバトル"));
    }
    if alias_hit_exec(&v, &up, "サーモン") || alias_hit_exec(&v, &up, "SALMON") {
        return Some(owned("サーモンラン"));
    }
    if upper_contains(&up, "ガチエリア") || upper_contains(&up, "ガチヤグラ") || upper_contains(&up, "ガチホコ")
        || upper_contains(&up, "ガチアサリ") || upper_contains(&up, "AREA") || upper_contains(&up, "TOWER")
        || upper_contains(&up, "RAINMAKER") || upper_contains(&up, "CLAM") {
        return None;
    }
    let rules: [&str; 4] = ["ガチエリア", "ガチヤグラ", "ガチホコ", "ガチアサリ"];
    proof {
        assert(names_view(rules@) =~= rule_names());
    }
    if fuzzy_best_match(&t, &rules, 350_000).is_some() {
        return None;
    }
    let modes: [&str; 4] = ["Xマッチ", "バンカラマッチ(チャレンジ)", "バンカラマッチ(オープン)", "ナワバリバトル"];
    proof {
        assert(names_view(modes@) =~= mode_names());
    }
    let k = fuzzy_best_match(&t, &modes, 400_000);
    proof {
        if let Some(b) = fuzzy_spec(t@, mode_names(), 400_000) {
            lemma_best_candidate(t@, mode_names(), 4);
        }
    }
    picked(&modes, k)
}


// ---------------------------------------------------------------------------
// Numbers read by OCR
// ---------------------------------------------------------------------------

/// A character kept in numeric text: an ASCII digit or a point.
pub open spec fn numeric_char(c: char) -> bool {
    is_ascii_digit(c) || c == '.'
}

/// The digits and points of `s`, in order.
pub open spec fn clean_numeric_spec(s: Seq<char>) -> Seq<char> {
    s.filter(|c: char| numeric_char(c))
}

/// Keeps only the ASCII digits and points of OCR text.
pub fn clean_numeric_text(text: &str) -> (r: String)
    ensures
        r@ == clean_numeric_spec(text@),
{
    let v = chars_of(text);
    let mut kept: Vec<char> = Vec::new();
    let mut i: usize = 0;
    while i < v.len()
        invariant
            i <= v.len(),
            v@ == text@,
            kept@ == clean_numeric_spec(v@.subrange(0, i as int)),
        decreases v.len() - i,
    {
        proof {
            reveal_with_fuel(Seq::filter, 1);
            assert(v@.subrange(0, i + 1).drop_last() =~= v@.subrange(0, i as int));
        }
        let c = v[i];
        if ('0' <= c && c <= '9') || c == '.' {
            kept.push(c);
        }
        i = i + 1;
    }
    proof {
        assert(v@.subrange(0, v.len() as int) =~= v@);
    }
    string_of(&kept)
}

/// `i64::from_str` on text made of digits and points: the value when the
/// text is one or more digits only and the value fits in an `i64`.
pub open spec fn parse_i64_spec(s: Seq<char>) -> Option<i64> {
    if s.len() > 0 && all_digits(s) && digits_num(s) <= i64::MAX {
        Some(digits_num(s) as i64)
    } else {
        None
    }
}

/// The count OCR text shows: its digits and points read as an `i64`.
pub open spec fn count_spec(text: Seq<char>) -> Option<i64> {
    parse_i64_spec(clean_numeric_spec(text))
}

fn parse_digits_i64(s: &Vec<char>) -> (r: Option<i64>)
    ensures
        r == parse_i64_spec(s@),
{
    if s.len() == 0 {
        return None;
    }
    let mut v: i64 = 0;
    let mut i: usize = 0;
    while i < s.len()
        invariant
            i <= s.len(),
            forall|m: int| 0 <= m < i ==> is_ascii_digit(#[trigger] s@[m]),
            v as int == digits_num(s@.subrange(0, i as int)),
            v >= 0,
        decreases s.len() - i,
    {
        let c = s[i];
        if !('0' <= c && c <= '9') {
            proof {
                assert(!is_ascii_digit(s@[i as int]));
            }
            return None;
        }
        proof {
            assert(s@.subrange(0, i + 1).drop_last() =~= s@.subrange(0, i as int));
        }
        let d: i64 = (c as u32 - '0' as u32) as i64;
        let next = match v.checked_mul(10) {
            Some(m) => m.checked_add(d),
            None => None,
        };
        match next {
            Some(nv) => {
                v = nv;
            },
            None => {
                proof {
                    let p = s@.subrange(0, i + 1);
                    assert(p.last() == c);
                    assert(digits_num(p) > i64::MAX);
                    if all_digits(s@) {
                        lemma_prefix_le(s@, i + 1);
                    }
                }
                return None;
            },
        }
        i = i + 1;
    }
    proof {
        assert(s@.subrange(0, s.len() as int) =~= s@);
    }
    Some(v)
}

/// The count OCR text shows: its digits and points read as an `i64`
/// (`None` when they are not a number).
pub fn parse_count(text: &str) -> (r: Option<i64>)
    ensures
        r == count_spec(text@),
{
    let cleaned = clean_numeric_text(text);
    parse_digits_i64(&chars_of(cleaned.as_str()))
}

/// The count read from a region: the read of its white-text rendering when
/// that is a number, else the read of the plain crop.
pub open spec fn read_count_spec(white: Option<Seq<char>>, plain: Option<Seq<char>>) -> Option<i64> {
    let w = match white {
        Some(t) => count_spec(t),
        None => None,
    };
    match w {
        Some(v) => Some(v),
        None => match plain {
            Some(t) => count_spec(t),
            None => None,
        },
    }
}

/// The count read from a region, from the OCR reads of its white-text
/// rendering and of the plain crop (`None` where OCR failed).
pub fn read_count(white: Option<&str>, plain: Option<&str>) -> (r: Option<i64>)
    ensures
        r == read_count_spec(
            match white { Some(t) => Some(t@), None => None },
            match plain { Some(t) => Some(t@), None => None },
        ),
{
    let w = match white {
        Some(t) => parse_count(t),
        None => None,
    };
    match w {
        Some(v) => Some(v),
        None => match plain {
            Some(t) => parse_count(t),
            None => None,
        },
    }
}

/// The text a count field shows in debugging: the white-text read when it
/// is a number, else the plain read.
pub fn pick_count_text(white: String, plain: String) -> (r: String)
    ensures
        count_spec(white@) is Some ==> r@ == white@,
        count_spec(white@) is None ==> r@ == plain@,
{
    if parse_count(white.as_str()).is_some() {
        white
    } else {
        plain
    }
}

/// Text made of digits and points that `f64::from_str` accepts: at least
/// one digit and at most one point.
pub open spec fn decimal_text(s: Seq<char>) -> bool {
    (exists|i: int| 0 <= i < s.len() && is_ascii_digit(#[trigger] s[i]))
        && s.filter(|c: char| c == '.').len() <= 1
}

/// The X power read from OCR text: its digits and points, when they form
/// a decimal number.
pub open spec fn xp_text_spec(text: Seq<char>) -> Option<Seq<char>> {
    let c = clean_numeric_spec(text);
    if decimal_text(c) { Some(c) } else { None }
}

/// The X power shown by OCR text, as decimal text (`None` when its digits
/// and points are no number).
pub fn xp_text(text: &str) -> (r: Option<String>)
    ensures
        match xp_text_spec(text@) {
            Some(c) => r matches Some(s) && s@ == c,
            None => r is None,
        },
{
    let cleaned = clean_numeric_text(text);
    let v = chars_of(cleaned.as_str());
    let mut digits: usize = 0;
    let mut points: usize = 0;
    let mut i: usize = 0;
    while i < v.len()
        invariant
            i <= v.len(),
            v@ == cleaned@,
            points == v@.subrange(0, i as int).filter(|c: char| c == '.').len(),
            digits == 0 <==> forall|k: int| 0 <= k < i ==> !is_ascii_digit(#[trigger] v@[k]),
            digits <= i,
            points <= i,
        decreases v.len() - i,
    {
        proof {
            reveal_with_fuel(Seq::filter, 1);
            assert(v@.subrange(0, i + 1).drop_last() =~= v@.subrange(0, i as int));
        }
        let c = v[i];
        if c == '.' {
            points = points + 1;
        }
        if '0' <= c && c <= '9' {
            digits = digits + 1;
        }
        i = i + 1;
    }
    proof {
        assert(v@.subrange(0, v.len() as int) =~= v@);
        if digits > 0 {
            let k = choose|k: int| 0 <= k < v.len() && is_ascii_digit(#[trigger] v@[k]);
            assert(is_ascii_digit(v@[k]));
        }
    }
    if digits > 0 && points <= 1 {
        Some(cleaned)
    } else {
        None
    }
}


// ---------------------------------------------------------------------------
// Regions of the result screen
// ---------------------------------------------------------------------------

/// Left edge of the kill column (millionths of the frame width).
pub const KILL_COL_X: u32 = 758_000;
/// Left edge of the death column.
pub const DEATH_COL_X: u32 = 822_000;
/// Left edge of the special column.
pub const SPEC_COL_X: u32 = 878_000;
/// Width of a count column.
pub const KDA_COL_W: u32 = 60_000;
/// Height of a player row (millionths of the frame height).
pub const KDA_ROW_H: u32 = 52_000;

/// Area of the rule name in the header.
pub open spec fn rule_roi_spec() -> Roi {
    Roi { x_ratio: 450_000, y_ratio: 60_000, w_ratio: 120_000, h_ratio: 58_000 }
}

/// Area of the rule name in the header.
pub fn rule_roi() -> (r: Roi)
    ensures
        r == rule_roi_spec(),
{
    Roi { x_ratio: 450_000, y_ratio: 60_000, w_ratio: 120_000, h_ratio: 58_000 }
}

/// Area of the stage name in the header.
pub open spec fn stage_roi_spec() -> Roi {
    Roi { x_ratio: 545_000, y_ratio: 60_000, w_ratio: 240_000, h_ratio: 58_000 }
}

/// Area of the stage name in the header.
pub fn stage_roi() -> (r: Roi)
    ensures
        r == stage_roi_spec(),
{
    Roi { x_ratio: 545_000, y_ratio: 60_000, w_ratio: 240_000, h_ratio: 58_000 }
}

/// Area of the mode name, where the model finds no mode text.
pub open spec fn mode_roi_spec() -> Roi {
    Roi { x_ratio: 350_000, y_ratio: 55_000, w_ratio: 110_000, h_ratio: 60_000 }
}

/// Area of the mode name, where the model finds no mode text.
pub fn mode_roi() -> (r: Roi)
    ensures
        r == mode_roi_spec(),
{
    Roi { x_ratio: 350_000, y_ratio: 55_000, w_ratio: 110_000, h_ratio: 60_000 }
}

/// Area of the X power after the match.
pub open spec fn xp_roi_spec() -> Roi {
    Roi { x_ratio: 455_000, y_ratio: 185_000, w_ratio: 180_000, h_ratio: 60_000 }
}

/// Area of the X power after the match.
pub fn xp_roi() -> (r: Roi)
    ensures
        r == xp_roi_spec(),
{
    Roi { x_ratio: 455_000, y_ratio: 185_000, w_ratio: 180_000, h_ratio: 60_000 }
}

/// Top of the player row centred at `y_center`, clamped at the frame top.
pub open spec fn row_top(y_center: int) -> int {
    if y_center >= KDA_ROW_H / 2 { y_center - KDA_ROW_H / 2 } else { 0 }
}

/// A count cell: the column from `x` in the row centred at `y_center`.
pub open spec fn count_cell(x: u32, y_center: u32) -> Roi {
    Roi { x_ratio: x, y_ratio: row_top(y_center as int) as u32, w_ratio: KDA_COL_W, h_ratio: KDA_ROW_H }
}

/// The kill, death and special cells of the row centred at `y_center`,
/// with columns starting at `cols`.
pub fn kda_rois(y_center: u32, cols: (u32, u32, u32)) -> (r: (Roi, Roi, Roi))
    ensures
        r.0 == count_cell(cols.0, y_center),
        r.1 == count_cell(cols.1, y_center),
        r.2 == count_cell(cols.2, y_center),
{
    let top = if y_center >= KDA_ROW_H / 2 { y_center - KDA_ROW_H / 2 } else { 0 };
    (
        Roi { x_ratio: cols.0, y_ratio: top, w_ratio: KDA_COL_W, h_ratio: KDA_ROW_H },
        Roi { x_ratio: cols.1, y_ratio: top, w_ratio: KDA_COL_W, h_ratio: KDA_ROW_H },
        Roi { x_ratio: cols.2, y_ratio: top, w_ratio: KDA_COL_W, h_ratio: KDA_ROW_H },
    )
}

/// Left edge of a count column: half a column left of its icon's centre
/// (clamped at 0) when the icon was found, else the fixed column.
pub open spec fn column_x(default: u32, anchor: Option<u32>) -> u32 {
    match anchor {
        Some(a) => if a >= KDA_COL_W / 2 { (a - KDA_COL_W / 2) as u32 } else { 0 },
        None => default,
    }
}

/// The kill, death and special columns, placed on the icons found by the
/// cascade where it found them.
pub open spec fn kda_columns_spec(anchors: Option<(Option<u32>, Option<u32>, Option<u32>)>) -> (u32, u32, u32) {
    match anchors {
        Some((k, d, s)) => (column_x(KILL_COL_X, k), column_x(DEATH_COL_X, d), column_x(SPEC_COL_X, s)),
        None => (KILL_COL_X, DEATH_COL_X, SPEC_COL_X),
    }
}

fn column_x_exec(default: u32, anchor: Option<u32>) -> (r: u32)
    ensures
        r == column_x(default, anchor),
{
    match anchor {
        Some(a) => if a >= KDA_COL_W / 2 { a - KDA_COL_W / 2 } else { 0 },
        None => default,
    }
}

/// The kill, death and special columns (see `kda_columns_spec`).
pub fn kda_columns(anchors: Option<(Option<u32>, Option<u32>, Option<u32>)>) -> (r: (u32, u32, u32))
    ensures
        r == kda_columns_spec(anchors),
{
    match anchors {
        Some((k, d, s)) => (column_x_exec(KILL_COL_X, k), column_x_exec(DEATH_COL_X, d), column_x_exec(SPEC_COL_X, s)),
        None => (KILL_COL_X, DEATH_COL_X, SPEC_COL_X),
    }
}

/// Centre height of the best `MyArrow` detection.
pub open spec fn arrow_center_spec(s: Seq<Detection>) -> Option<u32> {
    match best_index(s, class_id_of(YoloClass::MyArrow) as int) {
        Some(i) => Some(((s[i].bbox.y1 as int + s[i].bbox.y2 as int) / 2) as u32),
        None => None,
    }
}

/// Centre height of the player's arrow (the best `MyArrow` detection).
pub fn arrow_center_y(detections: &[Detection]) -> (r: Option<u32>)
    ensures
        r == arrow_center_spec(detections@),
{
    match best_detection(detections, YoloClass::MyArrow) {
        Some(d) => Some(((d.bbox.y1 as u64 + d.bbox.y2 as u64) / 2) as u32),
        None => None,
    }
}

/// Centre of the player row: the arrow's centre, or mid-frame without one.
pub fn kda_row_center(detections: &[Detection]) -> (r: u32)
    ensures
        r == match arrow_center_spec(detections@) {
            Some(y) => y,
            None => 500_000,
        },
{
    match arrow_center_y(detections) {
        Some(y) => y,
        None => 500_000,
    }
}

/// Pixel rectangle `(x, y, w, h)` of a detection box in a frame of
/// `frame_w` x `frame_h`: the far corner clamped into the frame, at least
/// one pixel each way.
pub open spec fn bbox_rect_spec(b: BBox, frame_w: u32, frame_h: u32) -> (u32, u32, u32, u32) {
    let x1 = scale_spec(b.x1 as int, frame_w as int);
    let y1 = scale_spec(b.y1 as int, frame_h as int);
    let x2 = min_i(scale_spec(b.x2 as int, frame_w as int), if frame_w > 0 { frame_w - 1 } else { 0 });
    let y2 = min_i(scale_spec(b.y2 as int, frame_h as int), if frame_h > 0 { frame_h - 1 } else { 0 });
    let w = if x2 > x1 { x2 - x1 } else { 1 };
    let h = if y2 > y1 { y2 - y1 } else { 1 };
    (x1 as u32, y1 as u32, w as u32, h as u32)
}

/// Pixel rectangle of a detection box (see `bbox_rect_spec`).
pub fn bbox_rect(b: &BBox, frame_w: u32, frame_h: u32) -> (r: (u32, u32, u32, u32))
    ensures
        r == bbox_rect_spec(*b, frame_w, frame_h),
{
    let x1 = scale(b.x1, frame_w);
    let y1 = scale(b.y1, frame_h);
    let xs = scale(b.x2, frame_w);
    let ys = scale(b.y2, frame_h);
    let xm = if frame_w > 0 { frame_w - 1 } else { 0 };
    let ym = if frame_h > 0 { frame_h - 1 } else { 0 };
    let x2 = if xs < xm { xs } else { xm };
    let y2 = if ys < ym { ys } else { ym };
    let w = if x2 > x1 { x2 - x1 } else { 1 };
    let h = if y2 > y1 { y2 - y1 } else { 1 };
    (x1, y1, w, h)
}

// ---------------------------------------------------------------------------
// Header
// ---------------------------------------------------------------------------

/// An OCR read worth using: trimmed, and not empty.
pub open spec fn usable_spec(text: Seq<char>) -> Option<Seq<char>> {
    let t = trim_spec(text);
    if t.len() > 0 { Some(t) } else { None }
}

/// The OCR read trimmed, if anything is left.
pub fn usable_read(text: &str) -> (r: Option<String>)
    ensures
        match usable_spec(text@) {
            Some(t) => r matches Some(s) && s@ == t,
            None => r is None,
        },
{
    let t = trim_str(text);
    if t.len() > 0 {
        Some(string_of(&t))
    } else {
        None
    }
}

/// Normalises a read with `f` (after trimming), if there is a read.
pub open spec fn normalized_read(read: Option<String>, f: spec_fn(Seq<char>) -> Option<Seq<char>>) -> Option<Seq<char>> {
    match read {
        Some(t) => f(trim_spec(t@)),
        None => None,
    }
}

/// The view of an optional string.
pub open spec fn opt_view(s: Option<String>) -> Option<Seq<char>> {
    match s {
        Some(t) => Some(t@),
        None => None,
    }
}

/// Rule, stage and mode from the header reads, each trimmed and
/// normalised.
pub fn header_from_reads(rule: Option<String>, stage: Option<String>, mode: Option<String>) -> (r: HeaderInfo)
    ensures
        opt_view(r.rule) == normalized_read(rule, |t: Seq<char>| normalize_rule_spec(t)),
        opt_view(r.stage) == normalized_read(stage, |t: Seq<char>| normalize_stage_spec(t)),
        opt_view(r.mode) == normalized_read(mode, |t: Seq<char>| normalize_mode_spec(t)),
{
    let rule_n = match rule {
        Some(t) => normalize_rule(string_of(&trim_str(t.as_str())).as_str()),
        None => None,
    };
    let stage_n = match stage {
        Some(t) => normalize_stage(string_of(&trim_str(t.as_str())).as_str()),
        None => None,
    };
    let mode_n = match mode {
        Some(t) => normalize_mode(string_of(&trim_str(t.as_str())).as_str()),
        None => None,
    };
    proof {
        assert(opt_view(rule_n) == normalized_read(rule, |t: Seq<char>| normalize_rule_spec(t)));
    }
    HeaderInfo { mode: mode_n, rule: rule_n, stage: stage_n }
}

/// A header field from the cascade's header, or the OCR read where the
/// cascade gave none.
pub open spec fn merged(preferred: Option<String>, fallback: Option<String>) -> Option<Seq<char>> {
    match preferred {
        Some(s) => Some(s@),
        None => opt_view(fallback),
    }
}

/// The cascade's header where there is one, each field preferring the
/// cascade's value and falling back to the OCR read.
pub fn merge_header(ocr: HeaderInfo, preferred: Option<HeaderInfo>) -> (r: HeaderInfo)
    ensures
        match preferred {
            Some(h) => {
                &&& opt_view(r.rule) == merged(h.rule, ocr.rule)
                &&& opt_view(r.stage) == merged(h.stage, ocr.stage)
                &&& opt_view(r.mode) == merged(h.mode, ocr.mode)
            },
            None => opt_view(r.rule) == opt_view(ocr.rule) && opt_view(r.stage) == opt_view(ocr.stage)
                && opt_view(r.mode) == opt_view(ocr.mode),
        },
{
    match preferred {
        Some(h) => HeaderInfo {
            mode: match h.mode { Some(m) => Some(m), None => ocr.mode },
            rule: match h.rule { Some(m) => Some(m), None => ocr.rule },
            stage: match h.stage { Some(m) => Some(m), None => ocr.stage },
        },
        None => ocr,
    }
}

// ---------------------------------------------------------------------------
// Records
// ---------------------------------------------------------------------------

/// Number of detections of class `id`.
pub open spec fn class_count(s: Seq<Detection>, id: int) -> int
    decreases s.len(),
{
    if s.len() == 0 {
        0
    } else {
        class_count(s.drop_last(), id) + if s.last().class_id == id { 1int } else { 0int }
    }
}

proof fn lemma_class_count_bound(s: Seq<Detection>, id: int)
    ensures
        0 <= class_count(s, id) <= s.len(),
    decreases s.len(),
{
    if s.len() > 0 {
        lemma_class_count_bound(s.drop_last(), id);
    }
}

/// Number of gold awards detected.
pub fn gold_award_count(detections: &[Detection]) -> (r: i64)
    requires
        detections@.len() <= i64::MAX,
    ensures
        r == class_count(detections@, class_id_of(YoloClass::GoldAward) as int),
{
    let id = YoloClass::GoldAward.id();
    let mut n: i64 = 0;
    let mut i: usize = 0;
    while i < detections.len()
        invariant
            i <= detections@.len() <= i64::MAX,
            id == class_id_of(YoloClass::GoldAward),
            n == class_count(detections@.subrange(0, i as int), id as int),
        decreases detections@.len() - i,
    {
        proof {
            assert(detections@.subrange(0, i + 1).drop_last() =~= detections@.subrange(0, i as int));
            lemma_class_count_bound(detections@.subrange(0, i as int), id as int);
        }
        if detections[i].class_id == id {
            n = n + 1;
        }
        i = i + 1;
    }
    proof {
        assert(detections@.subrange(0, i as int) =~= detections@);
    }
    n
}

/// Owned copy of a string.
fn copy_str(s: &str) -> (r: String)
    ensures
        r@ == s@,
{
    string_of(&chars_of(s))
}

/// The record of a result screen read with the model's detections: the
/// cascade's header where it has a value, else the header read by OCR; kills, deaths,
/// specials and paint points from the cascade's statistics when there are
/// any, else the three counts read by OCR and no paint points; no X power;
/// the number of gold awards detected.
pub fn extract_from_yolo_detections(
    detections: &[Detection],
    result: &str,
    header_ocr: HeaderInfo,
    kda_ocr: (Option<i64>, Option<i64>, Option<i64>),
    stats_override: Option<PlayerStats>,
    header_override: Option<HeaderInfo>,
) -> (r: ExtractedMatchData)
    requires
        detections@.len() <= i64::MAX,
    ensures
        r.result@ == result@,
        match header_override {
            Some(h) => {
                &&& opt_view(r.rule) == merged(h.rule, header_ocr.rule)
                &&& opt_view(r.stage) == merged(h.stage, header_ocr.stage)
                &&& opt_view(r.mode) == merged(h.mode, header_ocr.mode)
            },
            None => opt_view(r.rule) == opt_view(header_ocr.rule) && opt_view(r.stage) == opt_view(header_ocr.stage)
                && opt_view(r.mode) == opt_view(header_ocr.mode),
        },
        match stats_override {
            Some(s) => r.kill_count == s.kill && r.death_count == s.death && r.special_count == s.special
                && r.paint_count == s.paint,
            None => r.kill_count == kda_ocr.0 && r.death_count == kda_ocr.1 && r.special_count == kda_ocr.2
                && r.paint_count is None,
        },
        r.xp_after is None,
        r.gold_award_count == Some(class_count(detections@, class_id_of(YoloClass::GoldAward) as int) as i64),
{
    let header = merge_header(header_ocr, header_override);
    let (kill_count, death_count, special_count, paint_count) = match stats_override {
        Some(s) => (s.kill, s.death, s.special, s.paint),
        None => (kda_ocr.0, kda_ocr.1, kda_ocr.2, None),
    };
    let gold = gold_award_count(detections);
    ExtractedMatchData {
        result: copy_str(result),
        mode: header.mode,
        kill_count,
        death_count,
        special_count,
        paint_count,
        xp_after: None,
        rule: header.rule,
        stage: header.stage,
        gold_award_count: Some(gold),
    }
}

/// The rule region's OCR read, trimmed; empty where OCR failed.
pub fn extract_rule_raw(read: Option<&str>) -> (r: String)
    ensures
        r@ == match read {
            Some(t) => trim_spec(t@),
            None => Seq::<char>::empty(),
        },
{
    match read {
        Some(t) => string_of(&trim_str(t)),
        None => String::new(),
    }
}

/// The stage region's OCR read, trimmed; empty where OCR failed.
pub fn extract_stage_raw(read: Option<&str>) -> (r: String)
    ensures
        r@ == match read {
            Some(t) => trim_spec(t@),
            None => Seq::<char>::empty(),
        },
{
    match read {
        Some(t) => string_of(&trim_str(t)),
        None => String::new(),
    }
}

/// The rule named in the rule region's OCR read.
pub fn extract_rule(read: Option<&str>) -> (r: Option<String>)
    ensures
        opt_view(r) == normalize_rule_spec(match read {
            Some(t) => trim_spec(t@),
            None => Seq::<char>::empty(),
        }),
{
    let raw = extract_rule_raw(read);
    let r = normalize_rule(raw.as_str());
    proof {
        assert(opt_view(r) == normalize_rule_spec(raw@));
    }
    r
}

/// The stage named in the stage region's OCR read.
pub fn extract_stage(read: Option<&str>) -> (r: Option<String>)
    ensures
        opt_view(r) == normalize_stage_spec(match read {
            Some(t) => trim_spec(t@),
            None => Seq::<char>::empty(),
        }),
{
    let raw = extract_stage_raw(read);
    let r = normalize_stage(raw.as_str());
    proof {
        assert(opt_view(r) == normalize_stage_spec(raw@));
    }
    r
}

/// The record of a result screen read from fixed regions: the three counts
/// of the player's row, the X power, the rule and the stage; no mode, paint
/// points or gold awards.
pub fn extract_match_data(
    result: &str,
    kda: (Option<i64>, Option<i64>, Option<i64>),
    xp_read: &str,
    rule_read: Option<&str>,
    stage_read: Option<&str>,
) -> (r: ExtractedMatchData)
    ensures
        r.result@ == result@,
        r.mode is None,
        r.kill_count == kda.0,
        r.death_count == kda.1,
        r.special_count == kda.2,
        r.paint_count is None,
        opt_view(r.xp_after) == xp_text_spec(xp_read@),
        opt_view(r.rule) == normalize_rule_spec(match rule_read {
            Some(t) => trim_spec(t@),
            None => Seq::<char>::empty(),
        }),
        opt_view(r.stage) == normalize_stage_spec(match stage_read {
            Some(t) => trim_spec(t@),
            None => Seq::<char>::empty(),
        }),
        r.gold_award_count is None,
{
    let xp = xp_text(xp_read);
    let rule = extract_rule(rule_read);
    let stage = extract_stage(stage_read);
    proof {
        assert(opt_view(xp) == xp_text_spec(xp_read@));
    }
    ExtractedMatchData {
        result: copy_str(result),
        mode: None,
        kill_count: kda.0,
        death_count: kda.1,
        special_count: kda.2,
        paint_count: None,
        xp_after: xp,
        rule,
        stage,
        gold_award_count: None,
    }
}


// ---------------------------------------------------------------------------
// Debugging
// ---------------------------------------------------------------------------

/// The character of decimal digit `d`.
pub open spec fn digit_char(d: int) -> char {
    ('0' as int + d) as char
}

/// Decimal digits of `n`, most significant first.
pub open spec fn decimal_digits(n: nat) -> Seq<char>
    decreases n,
{
    if n < 10 {
        seq![digit_char(n as int)]
    } else {
        decimal_digits(n / 10).push(digit_char((n % 10) as int))
    }
}

/// Decimal text of `v`, with a leading `-` when negative (`i64::to_string`).
pub open spec fn decimal_spec(v: int) -> Seq<char> {
    if v < 0 { seq!['-'] + decimal_digits((-v) as nat) } else { decimal_digits(v as nat) }
}

fn push_decimal(n: u64, out: &mut Vec<char>)
    ensures
        final(out)@ == old(out)@ + decimal_digits(n as nat),
    decreases n,
{
    if n >= 10 {
        push_decimal(n / 10, out);
    }
    let d: u8 = (n % 10) as u8;
    let c = (48u8 + d) as char;
    proof {
        assert(c == digit_char((n % 10) as int));
    }
    out.push(c);
    proof {
        if n >= 10 {
            assert(decimal_digits(n as nat) == decimal_digits((n / 10) as nat).push(digit_char((n % 10) as int)));
        }
    }
}

/// Decimal text of a count.
pub fn format_count(v: i64) -> (r: String)
    ensures
        r@ == decimal_spec(v as int),
{
    let mut out: Vec<char> = Vec::new();
    if v < 0 {
        out.push('-');
        let m: u64 = ((-(v + 1)) as u64) + 1;
        push_decimal(m, &mut out);
        proof {
            assert(out@ =~= seq!['-'] + decimal_digits((-v) as nat));
        }
    } else {
        push_decimal(v as u64, &mut out);
        proof {
            assert(out@ =~= decimal_digits(v as nat));
        }
    }
    string_of(&out)
}

/// The normalised text of a count in debugging: the cascade's value when
/// it has one, else the number the OCR text shows, in decimal.
pub open spec fn debug_count_spec(cascade: Option<i64>, raw: Seq<char>) -> Option<Seq<char>> {
    match cascade {
        Some(v) => Some(decimal_spec(v as int)),
        None => match count_spec(raw) {
            Some(v) => Some(decimal_spec(v as int)),
            None => None,
        },
    }
}

fn debug_count(cascade: Option<i64>, raw: &str) -> (r: Option<String>)
    ensures
        opt_view(r) == debug_count_spec(cascade, raw@),
{
    match cascade {
        Some(v) => Some(format_count(v)),
        None => match parse_count(raw) {
            Some(v) => Some(format_count(v)),
            None => None,
        },
    }
}

/// An OCR read of one field for debugging, with its crop as a base64 PNG.
pub struct RawRead {
    pub text: String,
    pub crop: Option<String>,
}

/// The kill, death and special cells read in debugging: on the row of the
/// player's arrow, with the columns placed on the cascade's icons where it
/// found them; none without an arrow.
pub fn debug_kda_rois(
    detections: &[Detection],
    kda_anchors: Option<(Option<u32>, Option<u32>, Option<u32>)>,
) -> (r: Option<(Roi, Roi, Roi)>)
    ensures
        match arrow_center_spec(detections@) {
            Some(y) => r matches Some(c) && c.0 == count_cell(kda_columns_spec(kda_anchors).0, y)
                && c.1 == count_cell(kda_columns_spec(kda_anchors).1, y)
                && c.2 == count_cell(kda_columns_spec(kda_anchors).2, y),
            None => r is None,
        },
{
    match arrow_center_y(detections) {
        Some(y) => Some(kda_rois(y, kda_columns(kda_anchors))),
        None => None,
    }
}

/// The text of a count cell as the debug record keeps it: the read on the
/// arrow's row, empty without an arrow (no row is read then).
pub open spec fn cell_text(detections: Seq<Detection>, text: Seq<char>) -> Seq<char> {
    if arrow_center_spec(detections) is Some { text } else { Seq::empty() }
}

/// The crop of a count cell as the debug record keeps it: none without an
/// arrow.
pub open spec fn cell_crop(detections: Seq<Detection>, crop: Option<String>) -> Option<String> {
    if arrow_center_spec(detections) is Some { crop } else { None }
}

/// A count cell's read where the player's arrow was found, an empty read
/// otherwise.
fn cell_read(has_arrow: bool, read: RawRead) -> (r: RawRead)
    ensures
        has_arrow ==> r.text@ == read.text@ && r.crop == read.crop,
        !has_arrow ==> r.text@ == Seq::<char>::empty() && r.crop is None,
{
    if has_arrow {
        read
    } else {
        RawRead { text: string_of(&Vec::new()), crop: None }
    }
}

/// Every field of a result screen as read and as normalised, for
/// debugging: rule, stage and mode normalised from their reads (untrimmed);
/// the kill, death and special cells read on the arrow's row, left empty
/// when no arrow was found; the counts from the cascade where it read them,
/// else from the cells' reads; the arrow's centre height.
pub fn extract_debug_ocr(
    detections: &[Detection],
    rule: RawRead,
    stage: RawRead,
    mode: RawRead,
    kill: RawRead,
    death: RawRead,
    special: RawRead,
    cascade_kda: Option<(Option<i64>, Option<i64>, Option<i64>)>,
) -> (r: OcrDebugResult)
    ensures
        r.rule.raw@ == rule.text@ && opt_view(r.rule.normalized) == normalize_rule_spec(rule.text@)
            && r.rule.crop_image_base64 == rule.crop,
        r.stage.raw@ == stage.text@ && opt_view(r.stage.normalized) == normalize_stage_spec(stage.text@)
            && r.stage.crop_image_base64 == stage.crop,
        r.mode.raw@ == mode.text@ && opt_view(r.mode.normalized) == normalize_mode_spec(mode.text@)
            && r.mode.crop_image_base64 == mode.crop,
        r.kill.raw@ == cell_text(detections@, kill.text@) && r.kill.crop_image_base64 == cell_crop(
            detections@,
            kill.crop,
        ),
        r.death.raw@ == cell_text(detections@, death.text@) && r.death.crop_image_base64 == cell_crop(
            detections@,
            death.crop,
        ),
        r.special.raw@ == cell_text(detections@, special.text@) && r.special.crop_image_base64 == cell_crop(
            detections@,
            special.crop,
        ),
        arrow_center_spec(detections@) is None ==> r.kill.raw@.len() == 0 && r.kill.crop_image_base64 is None
            && r.death.raw@.len() == 0 && r.death.crop_image_base64 is None && r.special.raw@.len() == 0
            && r.special.crop_image_base64 is None,
        match cascade_kda {
            Some((k, d, s)) => {
                &&& opt_view(r.kill.normalized) == debug_count_spec(k, r.kill.raw@)
                &&& opt_view(r.death.normalized) == debug_count_spec(d, r.death.raw@)
                &&& opt_view(r.special.normalized) == debug_count_spec(s, r.special.raw@)
            },
            None => {
                &&& opt_view(r.kill.normalized) == debug_count_spec(None, r.kill.raw@)
                &&& opt_view(r.death.normalized) == debug_count_spec(None, r.death.raw@)
                &&& opt_view(r.special.normalized) == debug_count_spec(None, r.special.raw@)
            },
        },
        r.arrow_y == arrow_center_spec(detections@),
{
    let (ck, cd, cs) = match cascade_kda {
        Some(t) => t,
        None => (None, None, None),
    };
    let arrow_y = arrow_center_y(detections);
    let has_arrow = arrow_y.is_some();
    let kill = cell_read(has_arrow, kill);
    let death = cell_read(has_arrow, death);
    let special = cell_read(has_arrow, special);
    let rule_n = normalize_rule(rule.text.as_str());
    let stage_n = normalize_stage(stage.text.as_str());
    let mode_n = normalize_mode(mode.text.as_str());
    let kill_n = debug_count(ck, kill.text.as_str());
    let death_n = debug_count(cd, death.text.as_str());
    let special_n = debug_count(cs, special.text.as_str());
    proof {
        assert(opt_view(rule_n) == normalize_rule_spec(rule.text@));
        assert(opt_view(stage_n) == normalize_stage_spec(stage.text@));
        assert(opt_view(mode_n) == normalize_mode_spec(mode.text@));
    }
    OcrDebugResult {
        rule: OcrDebugField { raw: rule.text, normalized: rule_n, crop_image_base64: rule.crop },
        stage: OcrDebugField { raw: stage.text, normalized: stage_n, crop_image_base64: stage.crop },
        mode: OcrDebugField { raw: mode.text, normalized: mode_n, crop_image_base64: mode.crop },
        kill: OcrDebugField { raw: kill.text, normalized: kill_n, crop_image_base64: kill.crop },
        death: OcrDebugField { raw: death.text, normalized: death_n, crop_image_base64: death.crop },
        special: OcrDebugField { raw: special.text, normalized: special_n, crop_image_base64: special.crop },
        arrow_y,
    }
}


/// The rule names and their aliases are upper-case ASCII or caseless
/// text, which upper-casing leaves as it is.
proof fn lemma_rule_literals_stable()
    ensures
        upper_stable("ガチエリア"@) && ascii_upper("ガチエリア"@) == "ガチエリア"@,
        upper_stable("エリア"@) && ascii_upper("エリア"@) == "エリア"@,
        upper_stable("AREA"@) && ascii_upper("AREA"@) == "AREA"@,
        upper_stable("SPLAT ZONES"@) && ascii_upper("SPLAT ZONES"@) == "SPLAT ZONES"@,
        upper_stable("ガチヤグラ"@) && ascii_upper("ガチヤグラ"@) == "ガチヤグラ"@,
        upper_stable("ヤグラ"@) && ascii_upper("ヤグラ"@) == "ヤグラ"@,
        upper_stable("TOWER"@) && ascii_upper("TOWER"@) == "TOWER"@,
        upper_stable("TOWER CONTROL"@) && ascii_upper("TOWER CONTROL"@) == "TOWER CONTROL"@,
        upper_stable("ガチホコ"@) && ascii_upper("ガチホコ"@) == "ガチホコ"@,
        upper_stable("ホコ"@) && ascii_upper("ホコ"@) == "ホコ"@,
        upper_stable("RAINMAKER"@) && ascii_upper("RAINMAKER"@) == "RAINMAKER"@,
        upper_stable("ガチアサリ"@) && ascii_upper("ガチアサリ"@) == "ガチアサリ"@,
        upper_stable("アサリ"@) && ascii_upper("アサリ"@) == "アサリ"@,
        upper_stable("CLAM"@) && ascii_upper("CLAM"@) == "CLAM"@,
        upper_stable("CLAM BLITZ"@) && ascii_upper("CLAM BLITZ"@) == "CLAM BLITZ"@,
{
    reveal_strlit("ガチエリア");
    reveal_strlit("エリア");
    reveal_strlit("AREA");
    reveal_strlit("SPLAT ZONES");
    reveal_strlit("ガチヤグラ");
    reveal_strlit("ヤグラ");
    reveal_strlit("TOWER");
    reveal_strlit("TOWER CONTROL");
    reveal_strlit("ガチホコ");
    reveal_strlit("ホコ");
    reveal_strlit("RAINMAKER");
    reveal_strlit("ガチアサリ");
    reveal_strlit("アサリ");
    reveal_strlit("CLAM");
    reveal_strlit("CLAM BLITZ");
    assert(ascii_upper("ガチエリア"@) =~= "ガチエリア"@);
    assert(ascii_upper("エリア"@) =~= "エリア"@);
    assert(ascii_upper("AREA"@) =~= "AREA"@);
    assert(ascii_upper("SPLAT ZONES"@) =~= "SPLAT ZONES"@);
    assert(ascii_upper("ガチヤグラ"@) =~= "ガチヤグラ"@);
    assert(ascii_upper("ヤグラ"@) =~= "ヤグラ"@);
    assert(ascii_upper("TOWER"@) =~= "TOWER"@);
    assert(ascii_upper("TOWER CONTROL"@) =~= "TOWER CONTROL"@);
    assert(ascii_upper("ガチホコ"@) =~= "ガチホコ"@);
    assert(ascii_upper("ホコ"@) =~= "ホコ"@);
    assert(ascii_upper("RAINMAKER"@) =~= "RAINMAKER"@);
    assert(ascii_upper("ガチアサリ"@) =~= "ガチアサリ"@);
    assert(ascii_upper("アサリ"@) =~= "アサリ"@);
    assert(ascii_upper("CLAM"@) =~= "CLAM"@);
    assert(ascii_upper("CLAM BLITZ"@) =~= "CLAM BLITZ"@);
}

/// Each rule name is found by an alias of its own rule and by no alias of
/// an earlier rule.
proof fn lemma_rule_names_found()
    ensures
        contains_seq("ガチエリア"@, "ガチエリア"@),
        !contains_seq("ガチヤグラ"@, "ガチエリア"@),
        !contains_seq("ガチヤグラ"@, "エリア"@),
        !contains_seq("ガチヤグラ"@, "AREA"@),
        !contains_seq("ガチヤグラ"@, "SPLAT ZONES"@),
        contains_seq("ガチヤグラ"@, "ガチヤグラ"@),
        !contains_seq("ガチホコ"@, "ガチエリア"@),
        !contains_seq("ガチホコ"@, "エリア"@),
        !contains_seq("ガチホコ"@, "AREA"@),
        !contains_seq("ガチホコ"@, "SPLAT ZONES"@),
        !contains_seq("ガチホコ"@, "ガチヤグラ"@),
        !contains_seq("ガチホコ"@, "ヤグラ"@),
        !contains_seq("ガチホコ"@, "TOWER"@),
        !contains_seq("ガチホコ"@, "TOWER CONTROL"@),
        contains_seq("ガチホコ"@, "ガチホコ"@),
        !contains_seq("ガチアサリ"@, "ガチエリア"@),
        !contains_seq("ガチアサリ"@, "エリア"@),
        !contains_seq("ガチアサリ"@, "AREA"@),
        !contains_seq("ガチアサリ"@, "SPLAT ZONES"@),
        !contains_seq("ガチアサリ"@, "ガチヤグラ"@),
        !contains_seq("ガチアサリ"@, "ヤグラ"@),
        !contains_seq("ガチアサリ"@, "TOWER"@),
        !contains_seq("ガチアサリ"@, "TOWER CONTROL"@),
        !contains_seq("ガチアサリ"@, "ガチホコ"@),
        !contains_seq("ガチアサリ"@, "ホコ"@),
        !contains_seq("ガチアサリ"@, "RAINMAKER"@),
        contains_seq("ガチアサリ"@, "ガチアサリ"@),
{
    broadcast use vstd::seq_lib::lemma_seq_contains_after_push;
    reveal_strlit("ガチエリア");
    reveal_strlit("エリア");
    reveal_strlit("AREA");
    reveal_strlit("SPLAT ZONES");
    reveal_strlit("ガチヤグラ");
    reveal_strlit("ヤグラ");
    reveal_strlit("TOWER");
    reveal_strlit("TOWER CONTROL");
    reveal_strlit("ガチホコ");
    reveal_strlit("ホコ");
    reveal_strlit("RAINMAKER");
    reveal_strlit("ガチアサリ");
    reveal_strlit("アサリ");
    reveal_strlit("CLAM");
    reveal_strlit("CLAM BLITZ");
    assert("ガチエリア"@.subrange(0, 5) =~= "ガチエリア"@);
    assert(occurs_at("ガチエリア"@, "ガチエリア"@, 0));
    assert("ガチエリア"@[2] == 'エ');
    lemma_absent_char("ガチヤグラ"@, "ガチエリア"@, 'エ');
    assert("エリア"@[0] == 'エ');
    lemma_absent_char("ガチヤグラ"@, "エリア"@, 'エ');
    assert("AREA"@[0] == 'A');
    lemma_absent_char("ガチヤグラ"@, "AREA"@, 'A');
    assert("SPLAT ZONES"@[0] == 'S');
    lemma_absent_char("ガチヤグラ"@, "SPLAT ZONES"@, 'S');
    assert("ガチヤグラ"@.subrange(0, 5) =~= "ガチヤグラ"@);
    assert(occurs_at("ガチヤグラ"@, "ガチヤグラ"@, 0));
    assert("ガチエリア"@[2] == 'エ');
    lemma_absent_char("ガチホコ"@, "ガチエリア"@, 'エ');
    assert("エリア"@[0] == 'エ');
    lemma_absent_char("ガチホコ"@, "エリア"@, 'エ');
    assert("AREA"@[0] == 'A');
    lemma_absent_char("ガチホコ"@, "AREA"@, 'A');
    assert("SPLAT ZONES"@[0] == 'S');
    lemma_absent_char("ガチホコ"@, "SPLAT ZONES"@, 'S');
    assert("ガチヤグラ"@[2] == 'ヤ');
    lemma_absent_char("ガチホコ"@, "ガチヤグラ"@, 'ヤ');
    assert("ヤグラ"@[0] == 'ヤ');
    lemma_absent_char("ガチホコ"@, "ヤグラ"@, 'ヤ');
    assert("TOWER"@[0] == 'T');
    lemma_absent_char("ガチホコ"@, "TOWER"@, 'T');
    assert("TOWER CONTROL"@[0] == 'T');
    lemma_absent_char("ガチホコ"@, "TOWER CONTROL"@, 'T');
    assert("ガチホコ"@.subrange(0, 4) =~= "ガチホコ"@);
    assert(occurs_at("ガチホコ"@, "ガチホコ"@, 0));
    assert("ガチエリア"@[2] == 'エ');
    lemma_absent_char("ガチアサリ"@, "ガチエリア"@, 'エ');
    assert("エリア"@[0] == 'エ');
    lemma_absent_char("ガチアサリ"@, "エリア"@, 'エ');
    assert("AREA"@[0] == 'A');
    lemma_absent_char("ガチアサリ"@, "AREA"@, 'A');
    assert("SPLAT ZONES"@[0] == 'S');
    lemma_absent_char("ガチアサリ"@, "SPLAT ZONES"@, 'S');
    assert("ガチヤグラ"@[2] == 'ヤ');
    lemma_absent_char("ガチアサリ"@, "ガチヤグラ"@, 'ヤ');
    assert("ヤグラ"@[0] == 'ヤ');
    lemma_absent_char("ガチアサリ"@, "ヤグラ"@, 'ヤ');
    assert("TOWER"@[0] == 'T');
    lemma_absent_char("ガチアサリ"@, "TOWER"@, 'T');
    assert("TOWER CONTROL"@[0] == 'T');
    lemma_absent_char("ガチアサリ"@, "TOWER CONTROL"@, 'T');
    assert("ガチホコ"@[2] == 'ホ');
    lemma_absent_char("ガチアサリ"@, "ガチホコ"@, 'ホ');
    assert("ホコ"@[0] == 'ホ');
    lemma_absent_char("ガチアサリ"@, "ホコ"@, 'ホ');
    assert("RAINMAKER"@[0] == 'R');
    lemma_absent_char("ガチアサリ"@, "RAINMAKER"@, 'R');
    assert("ガチアサリ"@.subrange(0, 5) =~= "ガチアサリ"@);
    assert(occurs_at("ガチアサリ"@, "ガチアサリ"@, 0));
}

/// The mode names and their aliases are upper-case ASCII or caseless
/// text, which upper-casing leaves as it is.
proof fn lemma_mode_literals_stable()
    ensures
        upper_stable("Xマッチ"@) && ascii_upper("Xマッチ"@) == "Xマッチ"@,
        upper_stable("X BATTLE"@) && ascii_upper("X BATTLE"@) == "X BATTLE"@,
        upper_stable("Xバトル"@) && ascii_upper("Xバトル"@) == "Xバトル"@,
        upper_stable("X MATCH"@) && ascii_upper("X MATCH"@) == "X MATCH"@,
        upper_stable("バンカラマッチ(チャレンジ)"@) && ascii_upper("バンカラマッチ(チャレンジ)"@) == "バンカラマッチ(チャレンジ)"@,
        upper_stable("チャレンジ"@) && ascii_upper("チャレンジ"@) == "チャレンジ"@,
        upper_stable("CHALLENGE"@) && ascii_upper("CHALLENGE"@) == "CHALLENGE"@,
        upper_stable("ANARCHY OPEN"@) && ascii_upper("ANARCHY OPEN"@) == "ANARCHY OPEN"@,
        upper_stable("バンカラマッチ(オープン)"@) && ascii_upper("バンカラマッチ(オープン)"@) == "バンカラマッチ(オープン)"@,
        upper_stable("オープン"@) && ascii_upper("オープン"@) == "オープン"@,
        upper_stable("OPEN"@) && ascii_upper("OPEN"@) == "OPEN"@,
        upper_stable("ANARCHY BATTLE"@) && ascii_upper("ANARCHY BATTLE"@) == "ANARCHY BATTLE"@,
        upper_stable("バンカラ"@) && ascii_upper("バンカラ"@) == "バンカラ"@,
        upper_stable("オーフン"@) && ascii_upper("オーフン"@) == "オーフン"@,
        upper_stable("オーブン"@) && ascii_upper("オーブン"@) == "オーブン"@,
        upper_stable("ナワバリバトル"@) && ascii_upper("ナワバリバトル"@) == "ナワバリバトル"@,
        upper_stable("ナワバリ"@) && ascii_upper("ナワバリ"@) == "ナワバリ"@,
        upper_stable("TURF WAR"@) && ascii_upper("TURF WAR"@) == "TURF WAR"@,
        upper_stable("サーモンラン"@) && ascii_upper("サーモンラン"@) == "サーモンラン"@,
        upper_stable("サーモン"@) && ascii_upper("サーモン"@) == "サーモン"@,
        upper_stable("SALMON"@) && ascii_upper("SALMON"@) == "SALMON"@,
        trim_spec("Xマッチ"@) == "Xマッチ"@ && "Xマッチ"@.len() > 0,
        trim_spec("バンカラマッチ(チャレンジ)"@) == "バンカラマッチ(チャレンジ)"@ && "バンカラマッチ(チャレンジ)"@.len() > 0,
        trim_spec("バンカラマッチ(オープン)"@) == "バンカラマッチ(オープン)"@ && "バンカラマッチ(オープン)"@.len() > 0,
        trim_spec("ナワバリバトル"@) == "ナワバリバトル"@ && "ナワバリバトル"@.len() > 0,
        trim_spec("サーモンラン"@) == "サーモンラン"@ && "サーモンラン"@.len() > 0,
{
    reveal_strlit("Xマッチ");
    reveal_strlit("X BATTLE");
    reveal_strlit("Xバトル");
    reveal_strlit("X MATCH");
    reveal_strlit("バンカラマッチ(チャレンジ)");
    reveal_strlit("チャレンジ");
    reveal_strlit("CHALLENGE");
    reveal_strlit("ANARCHY OPEN");
    reveal_strlit("バンカラマッチ(オープン)");
    reveal_strlit("オープン");
    reveal_strlit("OPEN");
    reveal_strlit("ANARCHY BATTLE");
    reveal_strlit("バンカラ");
    reveal_strlit("オーフン");
    reveal_strlit("オーブン");
    reveal_strlit("ナワバリバトル");
    reveal_strlit("ナワバリ");
    reveal_strlit("TURF WAR");
    reveal_strlit("サーモンラン");
    reveal_strlit("サーモン");
    reveal_strlit("SALMON");
    assert(ascii_upper("Xマッチ"@) =~= "Xマッチ"@);
    assert(ascii_upper("X BATTLE"@) =~= "X BATTLE"@);
    assert(ascii_upper("Xバトル"@) =~= "Xバトル"@);
    assert(ascii_upper("X MATCH"@) =~= "X MATCH"@);
    assert(ascii_upper("バンカラマッチ(チャレンジ)"@) =~= "バンカラマッチ(チャレンジ)"@);
    assert(ascii_upper("チャレンジ"@) =~= "チャレンジ"@);
    assert(ascii_upper("CHALLENGE"@) =~= "CHALLENGE"@);
    assert(ascii_upper("ANARCHY OPEN"@) =~= "ANARCHY OPEN"@);
    assert(ascii_upper("バンカラマッチ(オープン)"@) =~= "バンカラマッチ(オープン)"@);
    assert(ascii_upper("オープン"@) =~= "オープン"@);
    assert(ascii_upper("OPEN"@) =~= "OPEN"@);
    assert(ascii_upper("ANARCHY BATTLE"@) =~= "ANARCHY BATTLE"@);
    assert(ascii_upper("バンカラ"@) =~= "バンカラ"@);
    assert(ascii_upper("オーフン"@) =~= "オーフン"@);
    assert(ascii_upper("オーブン"@) =~= "オーブン"@);
    assert(ascii_upper("ナワバリバトル"@) =~= "ナワバリバトル"@);
    assert(ascii_upper("ナワバリ"@) =~= "ナワバリ"@);
    assert(ascii_upper("TURF WAR"@) =~= "TURF WAR"@);
    assert(ascii_upper("サーモンラン"@) =~= "サーモンラン"@);
    assert(ascii_upper("サーモン"@) =~= "サーモン"@);
    assert(ascii_upper("SALMON"@) =~= "SALMON"@);
    assert(trim_start("Xマッチ"@) == "Xマッチ"@);
    assert(trim_end("Xマッチ"@) == "Xマッチ"@);
    assert(trim_start("バンカラマッチ(チャレンジ)"@) == "バンカラマッチ(チャレンジ)"@);
    assert(trim_end("バンカラマッチ(チャレンジ)"@) == "バンカラマッチ(チャレンジ)"@);
    assert(trim_start("バンカラマッチ(オープン)"@) == "バンカラマッチ(オープン)"@);
    assert(trim_end("バンカラマッチ(オープン)"@) == "バンカラマッチ(オープン)"@);
    assert(trim_start("ナワバリバトル"@) == "ナワバリバトル"@);
    assert(trim_end("ナワバリバトル"@) == "ナワバリバトル"@);
    assert(trim_start("サーモンラン"@) == "サーモンラン"@);
    assert(trim_end("サーモンラン"@) == "サーモンラン"@);
}

/// Each mode name is found by an alias of its own mode and by no alias of
/// an earlier mode.
proof fn lemma_mode_names_found()
    ensures
        contains_seq("Xマッチ"@, "Xマッチ"@),
        !contains_seq("バンカラマッチ(チャレンジ)"@, "Xマッチ"@),
        !contains_seq("バンカラマッチ(チャレンジ)"@, "X BATTLE"@),
        !contains_seq("バンカラマッチ(チャレンジ)"@, "Xバトル"@),
        !contains_seq("バンカラマッチ(チャレンジ)"@, "X MATCH"@),
        contains_seq("バンカラマッチ(チャレンジ)"@, "チャレンジ"@),
        !contains_seq("バンカラマッチ(オープン)"@, "Xマッチ"@),
        !contains_seq("バンカラマッチ(オープン)"@, "X BATTLE"@),
        !contains_seq("バンカラマッチ(オープン)"@, "Xバトル"@),
        !contains_seq("バンカラマッチ(オープン)"@, "X MATCH"@),
        !contains_seq("バンカラマッチ(オープン)"@, "チャレンジ"@),
        !contains_seq("バンカラマッチ(オープン)"@, "CHALLENGE"@),
        !contains_seq("バンカラマッチ(オープン)"@, "ANARCHY OPEN"@),
        contains_seq("バンカラマッチ(オープン)"@, "オープン"@),
        !contains_seq("ナワバリバトル"@, "Xマッチ"@),
        !contains_seq("ナワバリバトル"@, "X BATTLE"@),
        !contains_seq("ナワバリバトル"@, "Xバトル"@),
        !contains_seq("ナワバリバトル"@, "X MATCH"@),
        !contains_seq("ナワバリバトル"@, "チャレンジ"@),
        !contains_seq("ナワバリバトル"@, "CHALLENGE"@),
        !contains_seq("ナワバリバトル"@, "ANARCHY OPEN"@),
        !contains_seq("ナワバリバトル"@, "オープン"@),
        !contains_seq("ナワバリバトル"@, "OPEN"@),
        !contains_seq("ナワバリバトル"@, "ANARCHY BATTLE"@),
        !contains_seq("ナワバリバトル"@, "バンカラ"@),
        !contains_seq("ナワバリバトル"@, "オーフン"@),
        !contains_seq("ナワバリバトル"@, "オーブン"@),
        contains_seq("ナワバリバトル"@, "ナワバリ"@),
        !contains_seq("サーモンラン"@, "Xマッチ"@),
        !contains_seq("サーモンラン"@, "X BATTLE"@),
        !contains_seq("サーモンラン"@, "Xバトル"@),
        !contains_seq("サーモンラン"@, "X MATCH"@),
        !contains_seq("サーモンラン"@, "チャレンジ"@),
        !contains_seq("サーモンラン"@, "CHALLENGE"@),
        !contains_seq("サーモンラン"@, "ANARCHY OPEN"@),
        !contains_seq("サーモンラン"@, "オープン"@),
        !contains_seq("サーモンラン"@, "OPEN"@),
        !contains_seq("サーモンラン"@, "ANARCHY BATTLE"@),
        !contains_seq("サーモンラン"@, "バンカラ"@),
        !contains_seq("サーモンラン"@, "オーフン"@),
        !contains_seq("サーモンラン"@, "オーブン"@),
        !contains_seq("サーモンラン"@, "ナワバリ"@),
        !contains_seq("サーモンラン"@, "TURF WAR"@),
        contains_seq("サーモンラン"@, "サーモン"@),
{
    broadcast use vstd::seq_lib::lemma_seq_contains_after_push;
    reveal_strlit("Xマッチ");
    reveal_strlit("X BATTLE");
    reveal_strlit("Xバトル");
    reveal_strlit("X MATCH");
    reveal_strlit("バンカラマッチ(チャレンジ)");
    reveal_strlit("チャレンジ");
    reveal_strlit("CHALLENGE");
    reveal_strlit("ANARCHY OPEN");
    reveal_strlit("バンカラマッチ(オープン)");
    reveal_strlit("オープン");
    reveal_strlit("OPEN");
    reveal_strlit("ANARCHY BATTLE");
    reveal_strlit("バンカラ");
    reveal_strlit("オーフン");
    reveal_strlit("オーブン");
    reveal_strlit("ナワバリバトル");
    reveal_strlit("ナワバリ");
    reveal_strlit("TURF WAR");
    reveal_strlit("サーモンラン");
    reveal_strlit("サーモン");
    reveal_strlit("SALMON");
    assert("Xマッチ"@.subrange(0, 4) =~= "Xマッチ"@);
    assert(occurs_at("Xマッチ"@, "Xマッチ"@, 0));
    assert("Xマッチ"@[0] == 'X');
    lemma_absent_char("バンカラマッチ(チャレンジ)"@, "Xマッチ"@, 'X');
    assert("X BATTLE"@[0] == 'X');
    lemma_absent_char("バンカラマッチ(チャレンジ)"@, "X BATTLE"@, 'X');
    assert("Xバトル"@[0] == 'X');
    lemma_absent_char("バンカラマッチ(チャレンジ)"@, "Xバトル"@, 'X');
    assert("X MATCH"@[0] == 'X');
    lemma_absent_char("バンカラマッチ(チャレンジ)"@, "X MATCH"@, 'X');
    assert("バンカラマッチ(チャレンジ)"@.subrange(8, 13) =~= "チャレンジ"@);
    assert(occurs_at("バンカラマッチ(チャレンジ)"@, "チャレンジ"@, 8));
    assert("Xマッチ"@[0] == 'X');
    lemma_absent_char("バンカラマッチ(オープン)"@, "Xマッチ"@, 'X');
    assert("X BATTLE"@[0] == 'X');
    lemma_absent_char("バンカラマッチ(オープン)"@, "X BATTLE"@, 'X');
    assert("Xバトル"@[0] == 'X');
    lemma_absent_char("バンカラマッチ(オープン)"@, "Xバトル"@, 'X');
    assert("X MATCH"@[0] == 'X');
    lemma_absent_char("バンカラマッチ(オープン)"@, "X MATCH"@, 'X');
    assert("チャレンジ"@[1] == 'ャ');
    lemma_absent_char("バンカラマッチ(オープン)"@, "チャレンジ"@, 'ャ');
    assert("CHALLENGE"@[0] == 'C');
    lemma_absent_char("バンカラマッチ(オープン)"@, "CHALLENGE"@, 'C');
    assert("ANARCHY OPEN"@[0] == 'A');
    lemma_absent_char("バンカラマッチ(オープン)"@, "ANARCHY OPEN"@, 'A');
    assert("バンカラマッチ(オープン)"@.subrange(8, 12) =~= "オープン"@);
    assert(occurs_at("バンカラマッチ(オープン)"@, "オープン"@, 8));
    assert("Xマッチ"@[0] == 'X');
    lemma_absent_char("ナワバリバトル"@, "Xマッチ"@, 'X');
    assert("X BATTLE"@[0] == 'X');
    lemma_absent_char("ナワバリバトル"@, "X BATTLE"@, 'X');
    assert("Xバトル"@[0] == 'X');
    lemma_absent_char("ナワバリバトル"@, "Xバトル"@, 'X');
    assert("X MATCH"@[0] == 'X');
    lemma_absent_char("ナワバリバトル"@, "X MATCH"@, 'X');
    assert("チャレンジ"@[0] == 'チ');
    lemma_absent_char("ナワバリバトル"@, "チャレンジ"@, 'チ');
    assert("CHALLENGE"@[0] == 'C');
    lemma_absent_char("ナワバリバトル"@, "CHALLENGE"@, 'C');
    assert("ANARCHY OPEN"@[0] == 'A');
    lemma_absent_char("ナワバリバトル"@, "ANARCHY OPEN"@, 'A');
    assert("オープン"@[0] == 'オ');
    lemma_absent_char("ナワバリバトル"@, "オープン"@, 'オ');
    assert("OPEN"@[0] == 'O');
    lemma_absent_char("ナワバリバトル"@, "OPEN"@, 'O');
    assert("ANARCHY BATTLE"@[0] == 'A');
    lemma_absent_char("ナワバリバトル"@, "ANARCHY BATTLE"@, 'A');
    assert("バンカラ"@[1] == 'ン');
    lemma_absent_char("ナワバリバトル"@, "バンカラ"@, 'ン');
    assert("オーフン"@[0] == 'オ');
    lemma_absent_char("ナワバリバトル"@, "オーフン"@, 'オ');
    assert("オーブン"@[0] == 'オ');
    lemma_absent_char("ナワバリバトル"@, "オーブン"@, 'オ');
    assert("ナワバリバトル"@.subrange(0, 4) =~= "ナワバリ"@);
    assert(occurs_at("ナワバリバトル"@, "ナワバリ"@, 0));
    assert("Xマッチ"@[0] == 'X');
    lemma_absent_char("サーモンラン"@, "Xマッチ"@, 'X');
    assert("X BATTLE"@[0] == 'X');
    lemma_absent_char("サーモンラン"@, "X BATTLE"@, 'X');
    assert("Xバトル"@[0] == 'X');
    lemma_absent_char("サーモンラン"@, "Xバトル"@, 'X');
    assert("X MATCH"@[0] == 'X');
    lemma_absent_char("サーモンラン"@, "X MATCH"@, 'X');
    assert("チャレンジ"@[0] == 'チ');
    lemma_absent_char("サーモンラン"@, "チャレンジ"@, 'チ');
    assert("CHALLENGE"@[0] == 'C');
    lemma_absent_char("サーモンラン"@, "CHALLENGE"@, 'C');
    assert("ANARCHY OPEN"@[0] == 'A');
    lemma_absent_char("サーモンラン"@, "ANARCHY OPEN"@, 'A');
    assert("オープン"@[0] == 'オ');
    lemma_absent_char("サーモンラン"@, "オープン"@, 'オ');
    assert("OPEN"@[0] == 'O');
    lemma_absent_char("サーモンラン"@, "OPEN"@, 'O');
    assert("ANARCHY BATTLE"@[0] == 'A');
    lemma_absent_char("サーモンラン"@, "ANARCHY BATTLE"@, 'A');
    assert("バンカラ"@[0] == 'バ');
    lemma_absent_char("サーモンラン"@, "バンカラ"@, 'バ');
    assert("オーフン"@[0] == 'オ');
    lemma_absent_char("サーモンラン"@, "オーフン"@, 'オ');
    assert("オーブン"@[0] == 'オ');
    lemma_absent_char("サーモンラン"@, "オーブン"@, 'オ');
    assert("ナワバリ"@[0] == 'ナ');
    lemma_absent_char("サーモンラン"@, "ナワバリ"@, 'ナ');
    assert("TURF WAR"@[0] == 'T');
    lemma_absent_char("サーモンラン"@, "TURF WAR"@, 'T');
    assert("サーモンラン"@.subrange(0, 4) =~= "サーモン"@);
    assert(occurs_at("サーモンラン"@, "サーモン"@, 0));
}

/// In ASCII text no Japanese rule alias occurs, upper-cased or not, and an
/// English rule alias found in the text is found in it upper-cased.
proof fn lemma_rule_aliases_in_ascii(raw: Seq<char>)
    requires
        is_ascii_seq(raw),
    ensures
        !contains_seq(raw, "ガチエリア"@) && !contains_seq(ascii_upper(raw), "ガチエリア"@),
        !contains_seq(raw, "エリア"@) && !contains_seq(ascii_upper(raw), "エリア"@),
        !contains_seq(raw, "ガチヤグラ"@) && !contains_seq(ascii_upper(raw), "ガチヤグラ"@),
        !contains_seq(raw, "ヤグラ"@) && !contains_seq(ascii_upper(raw), "ヤグラ"@),
        !contains_seq(raw, "ガチホコ"@) && !contains_seq(ascii_upper(raw), "ガチホコ"@),
        !contains_seq(raw, "ホコ"@) && !contains_seq(ascii_upper(raw), "ホコ"@),
        !contains_seq(raw, "ガチアサリ"@) && !contains_seq(ascii_upper(raw), "ガチアサリ"@),
        !contains_seq(raw, "アサリ"@) && !contains_seq(ascii_upper(raw), "アサリ"@),
        contains_seq(raw, "AREA"@) ==> contains_seq(ascii_upper(raw), "AREA"@),
        contains_seq(raw, "SPLAT ZONES"@) ==> contains_seq(ascii_upper(raw), "SPLAT ZONES"@),
        contains_seq(raw, "TOWER"@) ==> contains_seq(ascii_upper(raw), "TOWER"@),
        contains_seq(raw, "TOWER CONTROL"@) ==> contains_seq(ascii_upper(raw), "TOWER CONTROL"@),
        contains_seq(raw, "RAINMAKER"@) ==> contains_seq(ascii_upper(raw), "RAINMAKER"@),
        contains_seq(raw, "CLAM"@) ==> contains_seq(ascii_upper(raw), "CLAM"@),
        contains_seq(raw, "CLAM BLITZ"@) ==> contains_seq(ascii_upper(raw), "CLAM BLITZ"@),
{
    reveal_strlit("ガチエリア");
    reveal_strlit("エリア");
    reveal_strlit("ガチヤグラ");
    reveal_strlit("ヤグラ");
    reveal_strlit("ガチホコ");
    reveal_strlit("ホコ");
    reveal_strlit("ガチアサリ");
    reveal_strlit("アサリ");
    reveal_strlit("AREA");
    reveal_strlit("SPLAT ZONES");
    reveal_strlit("TOWER");
    reveal_strlit("TOWER CONTROL");
    reveal_strlit("RAINMAKER");
    reveal_strlit("CLAM");
    reveal_strlit("CLAM BLITZ");
    lemma_ascii_upper_is_ascii(raw);
    assert("ガチエリア"@[0] == 'ガ');
    lemma_ascii_misses(raw, "ガチエリア"@, 0);
    lemma_ascii_misses(ascii_upper(raw), "ガチエリア"@, 0);
    assert("エリア"@[0] == 'エ');
    lemma_ascii_misses(raw, "エリア"@, 0);
    lemma_ascii_misses(ascii_upper(raw), "エリア"@, 0);
    assert("ガチヤグラ"@[0] == 'ガ');
    lemma_ascii_misses(raw, "ガチヤグラ"@, 0);
    lemma_ascii_misses(ascii_upper(raw), "ガチヤグラ"@, 0);
    assert("ヤグラ"@[0] == 'ヤ');
    lemma_ascii_misses(raw, "ヤグラ"@, 0);
    lemma_ascii_misses(ascii_upper(raw), "ヤグラ"@, 0);
    assert("ガチホコ"@[0] == 'ガ');
    lemma_ascii_misses(raw, "ガチホコ"@, 0);
    lemma_ascii_misses(ascii_upper(raw), "ガチホコ"@, 0);
    assert("ホコ"@[0] == 'ホ');
    lemma_ascii_misses(raw, "ホコ"@, 0);
    lemma_ascii_misses(ascii_upper(raw), "ホコ"@, 0);
    assert("ガチアサリ"@[0] == 'ガ');
    lemma_ascii_misses(raw, "ガチアサリ"@, 0);
    lemma_ascii_misses(ascii_upper(raw), "ガチアサリ"@, 0);
    assert("アサリ"@[0] == 'ア');
    lemma_ascii_misses(raw, "アサリ"@, 0);
    lemma_ascii_misses(ascii_upper(raw), "アサリ"@, 0);
    assert(ascii_upper("AREA"@) =~= "AREA"@);
    if contains_seq(raw, "AREA"@) {
        lemma_found_upper_cased(raw, "AREA"@);
    }
    assert(ascii_upper("SPLAT ZONES"@) =~= "SPLAT ZONES"@);
    if contains_seq(raw, "SPLAT ZONES"@) {
        lemma_found_upper_cased(raw, "SPLAT ZONES"@);
    }
    assert(ascii_upper("TOWER"@) =~= "TOWER"@);
    if contains_seq(raw, "TOWER"@) {
        lemma_found_upper_cased(raw, "TOWER"@);
    }
    assert(ascii_upper("TOWER CONTROL"@) =~= "TOWER CONTROL"@);
    if contains_seq(raw, "TOWER CONTROL"@) {
        lemma_found_upper_cased(raw, "TOWER CONTROL"@);
    }
    assert(ascii_upper("RAINMAKER"@) =~= "RAINMAKER"@);
    if contains_seq(raw, "RAINMAKER"@) {
        lemma_found_upper_cased(raw, "RAINMAKER"@);
    }
    assert(ascii_upper("CLAM"@) =~= "CLAM"@);
    if contains_seq(raw, "CLAM"@) {
        lemma_found_upper_cased(raw, "CLAM"@);
    }
    assert(ascii_upper("CLAM BLITZ"@) =~= "CLAM BLITZ"@);
    if contains_seq(raw, "CLAM BLITZ"@) {
        lemma_found_upper_cased(raw, "CLAM BLITZ"@);
    }
}

/// In ASCII text no Japanese mode alias occurs, upper-cased or not, and an
/// English mode alias found in the text is found in it upper-cased.
proof fn lemma_mode_aliases_in_ascii(raw: Seq<char>)
    requires
        is_ascii_seq(raw),
    ensures
        !contains_seq(raw, "Xマッチ"@) && !contains_seq(ascii_upper(raw), "Xマッチ"@),
        !contains_seq(raw, "Xバトル"@) && !contains_seq(ascii_upper(raw), "Xバトル"@),
        !contains_seq(raw, "チャレンジ"@) && !contains_seq(ascii_upper(raw), "チャレンジ"@),
        !contains_seq(raw, "オープン"@) && !contains_seq(ascii_upper(raw), "オープン"@),
        !contains_seq(raw, "バンカラ"@) && !contains_seq(ascii_upper(raw), "バンカラ"@),
        !contains_seq(raw, "オーフン"@) && !contains_seq(ascii_upper(raw), "オーフン"@),
        !contains_seq(raw, "オーブン"@) && !contains_seq(ascii_upper(raw), "オーブン"@),
        !contains_seq(raw, "ナワバリ"@) && !contains_seq(ascii_upper(raw), "ナワバリ"@),
        !contains_seq(raw, "サーモン"@) && !contains_seq(ascii_upper(raw), "サーモン"@),
        contains_seq(raw, "X BATTLE"@) ==> contains_seq(ascii_upper(raw), "X BATTLE"@),
        contains_seq(raw, "X MATCH"@) ==> contains_seq(ascii_upper(raw), "X MATCH"@),
        contains_seq(raw, "CHALLENGE"@) ==> contains_seq(ascii_upper(raw), "CHALLENGE"@),
        contains_seq(raw, "ANARCHY OPEN"@) ==> contains_seq(ascii_upper(raw), "ANARCHY OPEN"@),
        contains_seq(raw, "OPEN"@) ==> contains_seq(ascii_upper(raw), "OPEN"@),
        contains_seq(raw, "ANARCHY BATTLE"@) ==> contains_seq(ascii_upper(raw), "ANARCHY BATTLE"@),
        contains_seq(raw, "TURF WAR"@) ==> contains_seq(ascii_upper(raw), "TURF WAR"@),
        contains_seq(raw, "SALMON"@) ==> contains_seq(ascii_upper(raw), "SALMON"@),
{
    reveal_strlit("Xマッチ");
    reveal_strlit("Xバトル");
    reveal_strlit("チャレンジ");
    reveal_strlit("オープン");
    reveal_strlit("バンカラ");
    reveal_strlit("オーフン");
    reveal_strlit("オーブン");
    reveal_strlit("ナワバリ");
    reveal_strlit("サーモン");
    reveal_strlit("X BATTLE");
    reveal_strlit("X MATCH");
    reveal_strlit("CHALLENGE");
    reveal_strlit("ANARCHY OPEN");
    reveal_strlit("OPEN");
    reveal_strlit("ANARCHY BATTLE");
    reveal_strlit("TURF WAR");
    reveal_strlit("SALMON");
    lemma_ascii_upper_is_ascii(raw);
    assert("Xマッチ"@[1] == 'マ');
    lemma_ascii_misses(raw, "Xマッチ"@, 1);
    lemma_ascii_misses(ascii_upper(raw), "Xマッチ"@, 1);
    assert("Xバトル"@[1] == 'バ');
    lemma_ascii_misses(raw, "Xバトル"@, 1);
    lemma_ascii_misses(ascii_upper(raw), "Xバトル"@, 1);
    assert("チャレンジ"@[0] == 'チ');
    lemma_ascii_misses(raw, "チャレンジ"@, 0);
    lemma_ascii_misses(ascii_upper(raw), "チャレンジ"@, 0);
    assert("オープン"@[0] == 'オ');
    lemma_ascii_misses(raw, "オープン"@, 0);
    lemma_ascii_misses(ascii_upper(raw), "オープン"@, 0);
    assert("バンカラ"@[0] == 'バ');
    lemma_ascii_misses(raw, "バンカラ"@, 0);
    lemma_ascii_misses(ascii_upper(raw), "バンカラ"@, 0);
    assert("オーフン"@[0] == 'オ');
    lemma_ascii_misses(raw, "オーフン"@, 0);
    lemma_ascii_misses(ascii_upper(raw), "オーフン"@, 0);
    assert("オーブン"@[0] == 'オ');
    lemma_ascii_misses(raw, "オーブン"@, 0);
    lemma_ascii_misses(ascii_upper(raw), "オーブン"@, 0);
    assert("ナワバリ"@[0] == 'ナ');
    lemma_ascii_misses(raw, "ナワバリ"@, 0);
    lemma_ascii_misses(ascii_upper(raw), "ナワバリ"@, 0);
    assert("サーモン"@[0] == 'サ');
    lemma_ascii_misses(raw, "サーモン"@, 0);
    lemma_ascii_misses(ascii_upper(raw), "サーモン"@, 0);
    assert(ascii_upper("X BATTLE"@) =~= "X BATTLE"@);
    if contains_seq(raw, "X BATTLE"@) {
        lemma_found_upper_cased(raw, "X BATTLE"@);
    }
    assert(ascii_upper("X MATCH"@) =~= "X MATCH"@);
    if contains_seq(raw, "X MATCH"@) {
        lemma_found_upper_cased(raw, "X MATCH"@);
    }
    assert(ascii_upper("CHALLENGE"@) =~= "CHALLENGE"@);
    if contains_seq(raw, "CHALLENGE"@) {
        lemma_found_upper_cased(raw, "CHALLENGE"@);
    }
    assert(ascii_upper("ANARCHY OPEN"@) =~= "ANARCHY OPEN"@);
    if contains_seq(raw, "ANARCHY OPEN"@) {
        lemma_found_upper_cased(raw, "ANARCHY OPEN"@);
    }
    assert(ascii_upper("OPEN"@) =~= "OPEN"@);
    if contains_seq(raw, "OPEN"@) {
        lemma_found_upper_cased(raw, "OPEN"@);
    }
    assert(ascii_upper("ANARCHY BATTLE"@) =~= "ANARCHY BATTLE"@);
    if contains_seq(raw, "ANARCHY BATTLE"@) {
        lemma_found_upper_cased(raw, "ANARCHY BATTLE"@);
    }
    assert(ascii_upper("TURF WAR"@) =~= "TURF WAR"@);
    if contains_seq(raw, "TURF WAR"@) {
        lemma_found_upper_cased(raw, "TURF WAR"@);
    }
    assert(ascii_upper("SALMON"@) =~= "SALMON"@);
    if contains_seq(raw, "SALMON"@) {
        lemma_found_upper_cased(raw, "SALMON"@);
    }
}

/// The rule whose English alias occurs in upper-cased text, in the order
/// the aliases are tried.
pub open spec fn english_rule(u: Seq<char>) -> Option<Seq<char>> {
    if contains_seq(u, "AREA"@) || contains_seq(u, "SPLAT ZONES"@) {
        Some("ガチエリア"@)
    } else if contains_seq(u, "TOWER"@) || contains_seq(u, "TOWER CONTROL"@) {
        Some("ガチヤグラ"@)
    } else if contains_seq(u, "RAINMAKER"@) {
        Some("ガチホコ"@)
    } else if contains_seq(u, "CLAM"@) || contains_seq(u, "CLAM BLITZ"@) {
        Some("ガチアサリ"@)
    } else {
        None
    }
}

/// The mode whose English alias occurs in upper-cased text, in the order
/// the aliases are tried.
pub open spec fn english_mode(u: Seq<char>) -> Option<Seq<char>> {
    if contains_seq(u, "X BATTLE"@) || contains_seq(u, "X MATCH"@) {
        Some("Xマッチ"@)
    } else if contains_seq(u, "CHALLENGE"@) || contains_seq(u, "ANARCHY OPEN"@) {
        Some("バンカラマッチ(チャレンジ)"@)
    } else if contains_seq(u, "OPEN"@) || contains_seq(u, "ANARCHY BATTLE"@) {
        Some("バンカラマッチ(オープン)"@)
    } else if contains_seq(u, "TURF WAR"@) {
        Some("ナワバリバトル"@)
    } else if contains_seq(u, "SALMON"@) {
        Some("サーモンラン"@)
    } else {
        None
    }
}

/// A character of each stage name that no other stage name has.
spec fn stage_mark(i: int) -> char {
    if i == 0 {
        'ユ'
    } else if i == 1 {
        'ゴ'
    } else if i == 2 {
        '市'
    } else if i == 3 {
        'テ'
    } else if i == 4 {
        '金'
    } else if i == 5 {
        'プ'
    } else if i == 6 {
        '温'
    } else if i == 7 {
        'が'
    } else if i == 8 {
        '峡'
    } else if i == 9 {
        'ワ'
    } else if i == 10 {
        'ダ'
    } else if i == 11 {
        'ポ'
    } else if i == 12 {
        '亭'
    } else if i == 13 {
        '女'
    } else if i == 14 {
        'チ'
    } else if i == 15 {
        'ケ'
    } else if i == 16 {
        'ュ'
    } else if i == 17 {
        'オ'
    } else if i == 18 {
        'ジ'
    } else if i == 19 {
        'ネ'
    } else if i == 20 {
        'ツ'
    } else if i == 21 {
        'デ'
    } else if i == 22 {
        'コ'
    } else if i == 23 {
        'ゾ'
    } else if i == 24 {
        '号'
    } else {
        '経'
    }
}

/// The stage names: each has its own mark and no other stage's mark, and
/// each is its own trimmed, non-empty text.
proof fn lemma_stage_table()
    ensures
        forall|j: int| 0 <= j < 26 ==> #[trigger] stage_names()[j].contains(stage_mark(j)),
        forall|i: int, j: int|
            0 <= i < 26 && 0 <= j < 26 && i != j ==> !#[trigger] stage_names()[j].contains(#[trigger] stage_mark(i)),
        forall|j: int|
            0 <= j < 26 ==> trim_spec(#[trigger] stage_names()[j]) == stage_names()[j] && stage_names()[j].len() > 0,
{
    broadcast use vstd::seq_lib::lemma_seq_contains_after_push;
    reveal_strlit("ユノハナ大渓谷");
    reveal_strlit("ゴンズイ地区");
    reveal_strlit("ヤガラ市場");
    reveal_strlit("マテガイ放水路");
    reveal_strlit("ナメロウ金属");
    reveal_strlit("ナンプラー遺跡");
    reveal_strlit("クサヤ温泉");
    reveal_strlit("ヒラメが丘団地");
    reveal_strlit("マサバ海峡大橋");
    reveal_strlit("スメーシーワールド");
    reveal_strlit("キンメダイ美術館");
    reveal_strlit("タラポートショッピングパーク");
    reveal_strlit("バイガイ亭");
    reveal_strlit("海女美術大学");
    reveal_strlit("チョウザメ造船");
    reveal_strlit("ザトウマーケット");
    reveal_strlit("リュウグウターミナル");
    reveal_strlit("オヒョウ海運");
    reveal_strlit("カジキ空港");
    reveal_strlit("ネギトロ炭鉱");
    reveal_strlit("ショッツル鉱山");
    reveal_strlit("デカライン高架下");
    reveal_strlit("コンブトラック");
    reveal_strlit("マヒマヒリゾート&スパ");
    reveal_strlit("マンタマリア号");
    reveal_strlit("タカアシ経済特区");
    assert(stage_names()[0][0] == 'ユ');
    assert forall|i: int| 0 <= i < 26 && i != 0 implies !stage_names()[0].contains(stage_mark(i)) by {}
    assert(trim_start(stage_names()[0]) == stage_names()[0]);
    assert(trim_end(stage_names()[0]) == stage_names()[0]);
    assert(stage_names()[1][0] == 'ゴ');
    assert forall|i: int| 0 <= i < 26 && i != 1 implies !stage_names()[1].contains(stage_mark(i)) by {}
    assert(trim_start(stage_names()[1]) == stage_names()[1]);
    assert(trim_end(stage_names()[1]) == stage_names()[1]);
    assert(stage_names()[2][3] == '市');
    assert forall|i: int| 0 <= i < 26 && i != 2 implies !stage_names()[2].contains(stage_mark(i)) by {}
    assert(trim_start(stage_names()[2]) == stage_names()[2]);
    assert(trim_end(stage_names()[2]) == stage_names()[2]);
    assert(stage_names()[3][1] == 'テ');
    assert forall|i: int| 0 <= i < 26 && i != 3 implies !stage_names()[3].contains(stage_mark(i)) by {}
    assert(trim_start(stage_names()[3]) == stage_names()[3]);
    assert(trim_end(stage_names()[3]) == stage_names()[3]);
    assert(stage_names()[4][4] == '金');
    assert forall|i: int| 0 <= i < 26 && i != 4 implies !stage_names()[4].contains(stage_mark(i)) by {}
    assert(trim_start(stage_names()[4]) == stage_names()[4]);
    assert(trim_end(stage_names()[4]) == stage_names()[4]);
    assert(stage_names()[5][2] == 'プ');
    assert forall|i: int| 0 <= i < 26 && i != 5 implies !stage_names()[5].contains(stage_mark(i)) by {}
    assert(trim_start(stage_names()[5]) == stage_names()[5]);
    assert(trim_end(stage_names()[5]) == stage_names()[5]);
    assert(stage_names()[6][3] == '温');
    assert forall|i: int| 0 <= i < 26 && i != 6 implies !stage_names()[6].contains(stage_mark(i)) by {}
    assert(trim_start(stage_names()[6]) == stage_names()[6]);
    assert(trim_end(stage_names()[6]) == stage_names()[6]);
    assert(stage_names()[7][3] == 'が');
    assert forall|i: int| 0 <= i < 26 && i != 7 implies !stage_names()[7].contains(stage_mark(i)) by {}
    assert(trim_start(stage_names()[7]) == stage_names()[7]);
    assert(trim_end(stage_names()[7]) == stage_names()[7]);
    assert(stage_names()[8][4] == '峡');
    assert forall|i: int| 0 <= i < 26 && i != 8 implies !stage_names()[8].contains(stage_mark(i)) by {}
    assert(trim_start(stage_names()[8]) == stage_names()[8]);
    assert(trim_end(stage_names()[8]) == stage_names()[8]);
    assert(stage_names()[9][5] == 'ワ');
    assert forall|i: int| 0 <= i < 26 && i != 9 implies !stage_names()[9].contains(stage_mark(i)) by {}
    assert(trim_start(stage_names()[9]) == stage_names()[9]);
    assert(trim_end(stage_names()[9]) == stage_names()[9]);
    assert(stage_names()[10][3] == 'ダ');
    assert forall|i: int| 0 <= i < 26 && i != 10 implies !stage_names()[10].contains(stage_mark(i)) by {}
    assert(trim_start(stage_names()[10]) == stage_names()[10]);
    assert(trim_end(stage_names()[10]) == stage_names()[10]);
    assert(stage_names()[11][2] == 'ポ');
    assert forall|i: int| 0 <= i < 26 && i != 11 implies !stage_names()[11].contains(stage_mark(i)) by {}
    assert(trim_start(stage_names()[11]) == stage_names()[11]);
    assert(trim_end(stage_names()[11]) == stage_names()[11]);
    assert(stage_names()[12][4] == '亭');
    assert forall|i: int| 0 <= i < 26 && i != 12 implies !stage_names()[12].contains(stage_mark(i)) by {}
    assert(trim_start(stage_names()[12]) == stage_names()[12]);
    assert(trim_end(stage_names()[12]) == stage_names()[12]);
    assert(stage_names()[13][1] == '女');
    assert forall|i: int| 0 <= i < 26 && i != 13 implies !stage_names()[13].contains(stage_mark(i)) by {}
    assert(trim_start(stage_names()[13]) == stage_names()[13]);
    assert(trim_end(stage_names()[13]) == stage_names()[13]);
    assert(stage_names()[14][0] == 'チ');
    assert forall|i: int| 0 <= i < 26 && i != 14 implies !stage_names()[14].contains(stage_mark(i)) by {}
    assert(trim_start(stage_names()[14]) == stage_names()[14]);
    assert(trim_end(stage_names()[14]) == stage_names()[14]);
    assert(stage_names()[15][5] == 'ケ');
    assert forall|i: int| 0 <= i < 26 && i != 15 implies !stage_names()[15].contains(stage_mark(i)) by {}
    assert(trim_start(stage_names()[15]) == stage_names()[15]);
    assert(trim_end(stage_names()[15]) == stage_names()[15]);
    assert(stage_names()[16][1] == 'ュ');
    assert forall|i: int| 0 <= i < 26 && i != 16 implies !stage_names()[16].contains(stage_mark(i)) by {}
    assert(trim_start(stage_names()[16]) == stage_names()[16]);
    assert(trim_end(stage_names()[16]) == stage_names()[16]);
    assert(stage_names()[17][0] == 'オ');
    assert forall|i: int| 0 <= i < 26 && i != 17 implies !stage_names()[17].contains(stage_mark(i)) by {}
    assert(trim_start(stage_names()[17]) == stage_names()[17]);
    assert(trim_end(stage_names()[17]) == stage_names()[17]);
    assert(stage_names()[18][1] == 'ジ');
    assert forall|i: int| 0 <= i < 26 && i != 18 implies !stage_names()[18].contains(stage_mark(i)) by {}
    assert(trim_start(stage_names()[18]) == stage_names()[18]);
    assert(trim_end(stage_names()[18]) == stage_names()[18]);
    assert(stage_names()[19][0] == 'ネ');
    assert forall|i: int| 0 <= i < 26 && i != 19 implies !stage_names()[19].contains(stage_mark(i)) by {}
    assert(trim_start(stage_names()[19]) == stage_names()[19]);
    assert(trim_end(stage_names()[19]) == stage_names()[19]);
    assert(stage_names()[20][3] == 'ツ');
    assert forall|i: int| 0 <= i < 26 && i != 20 implies !stage_names()[20].contains(stage_mark(i)) by {}
    assert(trim_start(stage_names()[20]) == stage_names()[20]);
    assert(trim_end(stage_names()[20]) == stage_names()[20]);
    assert(stage_names()[21][0] == 'デ');
    assert forall|i: int| 0 <= i < 26 && i != 21 implies !stage_names()[21].contains(stage_mark(i)) by {}
    assert(trim_start(stage_names()[21]) == stage_names()[21]);
    assert(trim_end(stage_names()[21]) == stage_names()[21]);
    assert(stage_names()[22][0] == 'コ');
    assert forall|i: int| 0 <= i < 26 && i != 22 implies !stage_names()[22].contains(stage_mark(i)) by {}
    assert(trim_start(stage_names()[22]) == stage_names()[22]);
    assert(trim_end(stage_names()[22]) == stage_names()[22]);
    assert(stage_names()[23][5] == 'ゾ');
    assert forall|i: int| 0 <= i < 26 && i != 23 implies !stage_names()[23].contains(stage_mark(i)) by {}
    assert(trim_start(stage_names()[23]) == stage_names()[23]);
    assert(trim_end(stage_names()[23]) == stage_names()[23]);
    assert(stage_names()[24][6] == '号');
    assert forall|i: int| 0 <= i < 26 && i != 24 implies !stage_names()[24].contains(stage_mark(i)) by {}
    assert(trim_start(stage_names()[24]) == stage_names()[24]);
    assert(trim_end(stage_names()[24]) == stage_names()[24]);
    assert(stage_names()[25][4] == '経');
    assert forall|i: int| 0 <= i < 26 && i != 25 implies !stage_names()[25].contains(stage_mark(i)) by {}
    assert(trim_start(stage_names()[25]) == stage_names()[25]);
    assert(trim_end(stage_names()[25]) == stage_names()[25]);
    assert forall|j: int| 0 <= j < 26 implies #[trigger] stage_names()[j].contains(stage_mark(j)) && (forall|i: int| 0 <= i < 26 && i != j ==> !stage_names()[j].contains(stage_mark(i))) && trim_spec(stage_names()[j]) == stage_names()[j] && stage_names()[j].len() > 0 by {
        assert(j == 0 || j == 1 || j == 2 || j == 3 || j == 4 || j == 5 || j == 6 || j == 7 || j == 8 || j == 9 || j == 10 || j == 11 || j == 12 || j == 13 || j == 14 || j == 15 || j == 16 || j == 17 || j == 18 || j == 19 || j == 20 || j == 21 || j == 22 || j == 23 || j == 24 || j == 25);
    }
}
proof fn lemma_first_hit(t: Seq<char>, names: Seq<Seq<char>>, k: int, i: int)
    requires
        0 <= k <= i < names.len(),
        forall|j: int| k <= j < i ==> !stage_hit(t, #[trigger] names[j]),
        stage_hit(t, names[i]),
    ensures
        first_stage_hit(t, names, k) == Some(i),
    decreases i - k,
{
    if k < i {
        lemma_first_hit(t, names, k + 1, i);
    }
}

// ---------------------------------------------------------------------------
// Laws
// ---------------------------------------------------------------------------

proof fn lemma_fuzzy_range(raw: Seq<char>, cands: Seq<Seq<char>>, threshold: int)
    ensures
        fuzzy_spec(raw, cands, threshold) matches Some(i) ==> 0 <= i < cands.len(),
{
    if cands.len() > 0 {
        lemma_best_candidate(raw, cands, cands.len() as int);
    }
}

/// A rule read from OCR text is one of the four ranked rules.
pub proof fn law_rule_is_canonical(raw: Seq<char>)
    ensures
        normalize_rule_spec(raw) matches Some(c) ==> rule_names().contains(c),
{
    lemma_fuzzy_range(trim_spec(raw), rule_names(), 300_000);
    let n = rule_names();
    assert(n[0] == "ガチエリア"@ && n[1] == "ガチヤグラ"@ && n[2] == "ガチホコ"@ && n[3] == "ガチアサリ"@);
}

/// A stage read from OCR text is one of the stages of the game.
pub proof fn law_stage_is_canonical(raw: Seq<char>)
    ensures
        normalize_stage_spec(raw) matches Some(c) ==> stage_names().contains(c),
{
    let t = trim_spec(raw);
    lemma_fuzzy_range(t, stage_names(), 350_000);
    lemma_first_stage_hit(t, stage_names(), 0);
}

/// Stage reading ignores white space around the text: the text and its
/// trimmed form read as the same stage, and blank text reads as none.
pub proof fn law_stage_ignores_outer_space(raw: Seq<char>)
    ensures
        normalize_stage_spec(raw) == normalize_stage_spec(trim_spec(raw)),
        trim_spec(raw).len() == 0 ==> normalize_stage_spec(raw) is None,
{
    lemma_trim_idempotent(raw);
}

/// Each stage name reads as itself: no other stage name occurs in it or
/// holds it.
pub proof fn law_stage_names_read_as_themselves(i: int)
    requires
        0 <= i < stage_names().len(),
    ensures
        normalize_stage_spec(stage_names()[i]) == Some(stage_names()[i]),
{
    lemma_stage_table();
    let t = stage_names()[i];
    assert forall|j: int| 0 <= j < i implies !stage_hit(t, #[trigger] stage_names()[j]) by {
        lemma_absent_char(t, stage_names()[j], stage_mark(j));
        lemma_absent_char(stage_names()[j], t, stage_mark(i));
    }
    assert(t.subrange(0, t.len() as int) =~= t);
    assert(occurs_at(t, t, 0));
    lemma_first_hit(t, stage_names(), 0, i);
}

/// A mode read from OCR text is one of the five modes.
pub proof fn law_mode_is_canonical(raw: Seq<char>)
    ensures
        normalize_mode_spec(raw) matches Some(c) ==> mode_names().push("サーモンラン"@).contains(c),
{
    let t = trim_spec(raw);
    lemma_fuzzy_range(t, mode_names(), 400_000);
    let m = mode_names().push("サーモンラン"@);
    assert(m[0] == "Xマッチ"@ && m[1] == "バンカラマッチ(チャレンジ)"@ && m[2] == "バンカラマッチ(オープン)"@
        && m[3] == "ナワバリバトル"@ && m[4] == "サーモンラン"@);
    if let Some(c) = normalize_mode_spec(raw) {
        if mode_by_alias(raw) is None {
            let i = fuzzy_spec(t, mode_names(), 400_000)->0;
            assert(m[i] == mode_names()[i]);
        }
    }
}

/// Text that names a rule and no mode is no mode.
pub proof fn law_rule_text_is_no_mode(raw: Seq<char>)
    requires
        mode_by_alias(raw) is None,
        names_rule(raw),
    ensures
        normalize_mode_spec(raw) is None,
{
}

proof fn lemma_frac_ge_trans(a: (int, int), b: (int, int), c: (int, int))
    requires
        a.1 > 0,
        b.1 > 0,
        c.1 > 0,
        frac_ge(a, b),
        frac_ge(b, c),
    ensures
        frac_ge(a, c),
{
    assert(a.0 * b.1 * c.1 >= b.0 * a.1 * c.1) by (nonlinear_arith)
        requires
            a.0 * b.1 >= b.0 * a.1,
            c.1 > 0,
    ;
    assert(b.0 * c.1 * a.1 >= c.0 * b.1 * a.1) by (nonlinear_arith)
        requires
            b.0 * c.1 >= c.0 * b.1,
            a.1 > 0,
    ;
    assert(a.0 * c.1 * b.1 >= c.0 * a.1 * b.1) by (nonlinear_arith)
        requires
            a.0 * b.1 * c.1 >= b.0 * a.1 * c.1,
            b.0 * c.1 * a.1 >= c.0 * b.1 * a.1,
    ;
    assert(a.0 * c.1 >= c.0 * a.1) by (nonlinear_arith)
        requires
            a.0 * c.1 * b.1 >= c.0 * a.1 * b.1,
            b.1 > 0,
    ;
}

proof fn lemma_recall_den(cand: Seq<char>, ocr: Seq<char>)
    ensures
        recall_spec(cand, ocr).1 > 0,
{
}

proof fn lemma_best_candidate_max(raw: Seq<char>, cands: Seq<Seq<char>>, n: int, k: int)
    requires
        1 <= n <= cands.len(),
        0 <= k < n,
    ensures
        frac_ge(recall_spec(cands[best_candidate(raw, cands, n)], raw), recall_spec(cands[k], raw)),
    decreases n,
{
    lemma_best_candidate(raw, cands, n);
    if n > 1 {
        let b = best_candidate(raw, cands, n - 1);
        lemma_best_candidate(raw, cands, n - 1);
        lemma_recall_den(cands[n - 1], raw);
        lemma_recall_den(cands[b], raw);
        lemma_recall_den(cands[k], raw);
        let rn = recall_spec(cands[n - 1], raw);
        let rb = recall_spec(cands[b], raw);
        let rk = recall_spec(cands[k], raw);
        if k < n - 1 {
            lemma_best_candidate_max(raw, cands, n - 1, k);
            if frac_ge(rn, rb) {
                lemma_frac_ge_trans(rn, rb, rk);
            }
        } else if !frac_ge(rn, rb) {
            assert(rb.0 * rn.1 >= rn.0 * rb.1) by (nonlinear_arith)
                requires
                    !(rn.0 * rb.1 >= rb.0 * rn.1),
            ;
        }
    }
}

/// Fuzzy matching picks a best-recalled candidate: no candidate has a
/// higher character recall in the OCR text than the one returned.
pub proof fn law_fuzzy_picks_best(raw: Seq<char>, cands: Seq<Seq<char>>, threshold: int, k: int)
    requires
        0 <= k < cands.len(),
        fuzzy_spec(raw, cands, threshold) is Some,
    ensures
        frac_ge(recall_spec(cands[fuzzy_spec(raw, cands, threshold)->0], raw), recall_spec(cands[k], raw)),
{
    lemma_best_candidate_max(raw, cands, cands.len() as int, k);
}

/// Keeping the digits and points of text already made of digits and
/// points changes nothing: cleaning is idempotent.
pub proof fn law_clean_idempotent(s: Seq<char>)
    ensures
        clean_numeric_spec(clean_numeric_spec(s)) == clean_numeric_spec(s),
    decreases s.len(),
{
    lemma_clean_all_numeric(s);
    lemma_clean_keeps(clean_numeric_spec(s));
}

proof fn lemma_clean_all_numeric(s: Seq<char>)
    ensures
        forall|i: int| 0 <= i < clean_numeric_spec(s).len() ==> numeric_char(#[trigger] clean_numeric_spec(s)[i]),
{
    s.lemma_filter_len(|c: char| numeric_char(c));
    assert forall|i: int| 0 <= i < clean_numeric_spec(s).len() implies numeric_char(
        #[trigger] clean_numeric_spec(s)[i],
    ) by {
        s.lemma_filter_pred(|c: char| numeric_char(c), i);
    }
}

proof fn lemma_clean_keeps(s: Seq<char>)
    requires
        forall|i: int| 0 <= i < s.len() ==> numeric_char(#[trigger] s[i]),
    ensures
        clean_numeric_spec(s) == s,
    decreases s.len(),
{
    reveal_with_fuel(Seq::filter, 1);
    if s.len() > 0 {
        assert forall|i: int| 0 <= i < s.drop_last().len() implies numeric_char(#[trigger] s.drop_last()[i]) by {
            assert(s.drop_last()[i] == s[i]);
        }
        lemma_clean_keeps(s.drop_last());
        assert(numeric_char(s[s.len() - 1]));
        assert(s.drop_last().push(s.last()) =~= s);
    }
}

proof fn lemma_decimal_digits(n: nat)
    ensures
        decimal_digits(n).len() > 0,
        all_digits(decimal_digits(n)),
        digits_num(decimal_digits(n)) == n,
    decreases n,
{
    if n < 10 {
        let d = decimal_digits(n);
        assert(d[0] == digit_char(n as int));
        assert(digit_char(n as int) as int == '0' as int + n);
        assert(d.drop_last() =~= Seq::<char>::empty());
        assert(d.last() == d[0]);
        assert(digits_num(d.drop_last()) == 0);
        assert(digits_num(d) == digits_num(d.drop_last()) * 10 + (d.last() as int - '0' as int));
    } else {
        lemma_decimal_digits(n / 10);
        let d = decimal_digits(n);
        let p = decimal_digits(n / 10);
        assert(d.drop_last() =~= p);
        assert(d.last() == digit_char((n % 10) as int));
        assert(digit_char((n % 10) as int) as int == '0' as int + n % 10);
        assert((n / 10) * 10 + n % 10 == n);
        assert(digits_num(d) == digits_num(d.drop_last()) * 10 + (d.last() as int - '0' as int));
        assert forall|i: int| 0 <= i < d.len() implies is_ascii_digit(#[trigger] d[i]) by {
            if i < p.len() {
                assert(d[i] == p[i]);
            }
        }
    }
}

/// A count written in decimal reads back as the same count.
pub proof fn law_count_round_trip(v: i64)
    requires
        v >= 0,
    ensures
        count_spec(decimal_spec(v as int)) == Some(v),
{
    let d = decimal_digits(v as nat);
    lemma_decimal_digits(v as nat);
    assert forall|i: int| 0 <= i < d.len() implies numeric_char(#[trigger] d[i]) by {
        assert(is_ascii_digit(d[i]));
    }
    lemma_clean_keeps(d);
}

} // verus!
