use inkgraph::cascade::{HeaderInfo, PlayerStats};
use inkgraph::detection::{BBox, Detection};
use inkgraph::extractor::{
    bbox_rect, char_recall, debug_kda_rois, xp_roi, clean_numeric_text, extract_debug_ocr, extract_from_yolo_detections,
    extract_match_data, extract_rule, extract_rule_raw, extract_stage, extract_stage_raw, format_count,
    fuzzy_best_match, header_from_reads, kda_columns, kda_rois, kda_row_center, merge_header, normalize_kana,
    normalize_mode, normalize_rule, normalize_stage, parse_count, pick_count_text, read_count, usable_read,
    xp_text, RawRead, DEATH_COL_X, KILL_COL_X, SPEC_COL_X,
};
use inkgraph::ocr_rec::ctc_collapse;

fn chars(s: &str) -> Vec<char> {
    s.chars().collect()
}

fn det(class_id: usize, name: &str, conf: u32, y1: u32, y2: u32) -> Detection {
    Detection {
        bbox: BBox { x1: 100_000, y1, x2: 200_000, y2 },
        class_id,
        class_name: name.to_string(),
        confidence: conf,
    }
}

#[test]
fn test_normalize_rule() {
    assert_eq!(normalize_rule("ガチエリア"), Some("ガチエリア".to_string()));
    assert_eq!(normalize_rule("エリア"), Some("ガチエリア".to_string()));
    assert_eq!(normalize_rule("AREA"), Some("ガチエリア".to_string()));
    assert_eq!(normalize_rule("ガチヤグラ"), Some("ガチヤグラ".to_string()));
    assert_eq!(normalize_rule("RAINMAKER"), Some("ガチホコ".to_string()));
    assert_eq!(normalize_rule("ヤグ"), Some("ガチヤグラ".to_string()));
}

#[test]
fn test_normalize_stage() {
    assert_eq!(normalize_stage("マテガイ放水路"), Some("マテガイ放水路".to_string()));
    assert_eq!(normalize_stage("ナメロウ金属"), Some("ナメロウ金属".to_string()));
    assert_eq!(normalize_stage(""), None);
    assert_eq!(normalize_stage("リュウグウラ - ミカ↓"), Some("リュウグウターミナル".to_string()));
    assert_eq!(normalize_stage("デカライン高架下"), Some("デカライン高架下".to_string()));
}

#[test]
fn test_normalize_mode() {
    assert_eq!(normalize_mode("Xマッチ"), Some("Xマッチ".to_string()));
    assert_eq!(normalize_mode("X BATTLE"), Some("Xマッチ".to_string()));
    assert_eq!(normalize_mode("チャレンジ"), Some("バンカラマッチ(チャレンジ)".to_string()));
    assert_eq!(normalize_mode("ANARCHY BATTLE"), Some("バンカラマッチ(オープン)".to_string()));
    assert_eq!(normalize_mode("ナワバリ"), Some("ナワバリバトル".to_string()));
    assert_eq!(normalize_mode("TURF WAR"), Some("ナワバリバトル".to_string()));
    assert_eq!(normalize_mode(""), None);
    assert_eq!(normalize_mode("多ャグラ"), None);
    assert_eq!(normalize_mode("ガチヤグラ"), None);
}

#[test]
fn test_char_recall() {
    let (f, n) = char_recall(&chars("リュウグウターミナル"), &chars("リュウグウラ - ミカ↓"));
    let score = f as f32 / n as f32;
    assert!(score >= 0.35, "recall={score}");
    let (f2, n2) = char_recall(&chars("ガチヤグラ"), &chars("ヤグ"));
    let score2 = f2 as f32 / n2 as f32;
    assert!(score2 >= 0.30, "recall={score2}");
    let (f3, n3) = char_recall(&chars("ガチヤグラ"), &chars("多ャグう"));
    let score3 = f3 as f32 / n3 as f32;
    assert!(score3 >= 0.35, "recall={score3}");
}

#[test]
fn test_normalize_mode_garbled() {
    assert_eq!(normalize_mode("多ャグう"), None);
    assert_eq!(normalize_mode("zzzz"), None);
}

#[test]
fn test_normalize_mode_ocr_errors() {
    assert_eq!(normalize_mode("オーフン"), Some("バンカラマッチ(オープン)".to_string()));
    assert_eq!(normalize_mode("バンッチ(オーフン)"), Some("バンカラマッチ(オープン)".to_string()));
    assert_eq!(normalize_mode("ガチヤグラ"), None);
}

#[test]
fn test_normalize_rule_garbled() {
    assert_eq!(normalize_rule("多ャワう"), None);
    assert_eq!(normalize_rule("多ャグう"), Some("ガチヤグラ".to_string()));
}

#[test]
fn test_clean_numeric_text() {
    assert_eq!(clean_numeric_text("2341.5 XP"), "2341.5");
    assert_eq!(clean_numeric_text("Kill: 5"), "5");
    assert_eq!(clean_numeric_text("abc"), "");
}

// ---------------------------------------------------------------------------
// Further cases
// ---------------------------------------------------------------------------

#[test]
fn rule_alias_found_in_lower_case_text() {
    // Only the upper-case mapping of "area" contains "AREA".
    assert_eq!(normalize_rule("area"), Some("ガチエリア".to_string()));
    assert_eq!(normalize_rule("tower control"), Some("ガチヤグラ".to_string()));
    assert_eq!(normalize_rule("Clam Blitz"), Some("ガチアサリ".to_string()));
}

#[test]
fn mode_lower_case_and_salmon() {
    assert_eq!(normalize_mode("turf war"), Some("ナワバリバトル".to_string()));
    assert_eq!(normalize_mode("サーモンラン"), Some("サーモンラン".to_string()));
    assert_eq!(normalize_mode("   "), None);
    // A rule name written in English is no mode.
    assert_eq!(normalize_mode("rainmaker"), None);
}

#[test]
fn stage_from_fragment_and_blank() {
    // Four or more characters found inside a stage name.
    assert_eq!(normalize_stage("ショッピング"), Some("タラポートショッピングパーク".to_string()));
    // Surrounding noise around a full name.
    assert_eq!(normalize_stage("  ゴンズイ地区 "), Some("ゴンズイ地区".to_string()));
    assert_eq!(normalize_stage(" \t "), None);
    assert_eq!(normalize_stage("zzzzzzzz"), None);
}

#[test]
fn kana_folding_maps_hiragana_and_small_kana() {
    assert_eq!(normalize_kana(&chars("やぐら")), chars("ヤグラ"));
    assert_eq!(normalize_kana(&chars("ャッ")), chars("ヤツ"));
    assert_eq!(normalize_kana(&chars("AB1")), chars("AB1"));
}

#[test]
fn recall_counts_repeated_characters_once_each() {
    assert_eq!(char_recall(&chars("ググ"), &chars("グ")), (1, 2));
    assert_eq!(char_recall(&chars(""), &chars("abc")), (0, 1));
    assert_eq!(char_recall(&chars("abc"), &chars("cab")), (3, 3));
}

#[test]
fn fuzzy_match_threshold_and_best() {
    let names = ["abcd", "wxyz"];
    assert_eq!(fuzzy_best_match(&chars("abxx"), &names, 500_000), Some(0));
    assert_eq!(fuzzy_best_match(&chars("abxx"), &names, 600_000), None);
    assert_eq!(fuzzy_best_match(&chars("yz"), &names, 500_000), Some(1));
    let none: [&str; 0] = [];
    assert_eq!(fuzzy_best_match(&chars("abc"), &none, 0), None);
}

#[test]
fn counts_parse_and_fall_back() {
    assert_eq!(parse_count("Kill: 5"), Some(5));
    assert_eq!(parse_count("12"), Some(12));
    assert_eq!(parse_count("1.5"), None);
    assert_eq!(parse_count(""), None);
    assert_eq!(parse_count("99999999999999999999"), None);
    assert_eq!(read_count(Some("7"), Some("3")), Some(7));
    assert_eq!(read_count(Some("x"), Some("3")), Some(3));
    assert_eq!(read_count(None, Some("4")), Some(4));
    assert_eq!(read_count(None, None), None);
    assert_eq!(pick_count_text("8".to_string(), "9".to_string()), "8");
    assert_eq!(pick_count_text("-".to_string(), "9".to_string()), "9");
}

#[test]
fn count_round_trip_and_formatting() {
    for v in [0i64, 7, 10, 305, 9_223_372_036_854_775_807] {
        assert_eq!(parse_count(&format_count(v)), Some(v));
    }
    assert_eq!(format_count(-42), "-42");
    assert_eq!(format_count(i64::MIN), "-9223372036854775808");
}

#[test]
fn xp_text_needs_one_point_at_most() {
    assert_eq!(xp_text("2341.5 XP"), Some("2341.5".to_string()));
    assert_eq!(xp_text("XP 2000"), Some("2000".to_string()));
    assert_eq!(xp_text("1.2.3"), None);
    assert_eq!(xp_text("."), None);
    assert_eq!(xp_text("none"), None);
}

#[test]
fn cleaning_twice_is_cleaning_once() {
    let once = clean_numeric_text("a1.b2 c.3");
    assert_eq!(clean_numeric_text(&once), once);
}

#[test]
fn kda_cells_follow_the_row_and_icons() {
    let (k, d, s) = kda_rois(500_000, kda_columns(None));
    assert_eq!((k.x_ratio, d.x_ratio, s.x_ratio), (KILL_COL_X, DEATH_COL_X, SPEC_COL_X));
    assert_eq!(k.y_ratio, 474_000);
    assert_eq!((k.w_ratio, k.h_ratio), (60_000, 52_000));
    // Near the top the row is clamped at 0.
    let (k2, _, _) = kda_rois(10_000, kda_columns(None));
    assert_eq!(k2.y_ratio, 0);
    // Anchored columns start half a column left of the icon centre.
    let cols = kda_columns(Some((Some(700_000), None, Some(10_000))));
    assert_eq!(cols, (670_000, DEATH_COL_X, 0));
}

#[test]
fn row_centre_from_arrow_or_middle() {
    let dets = vec![det(7, "MyArrow", 900_000, 300_000, 340_000)];
    assert_eq!(kda_row_center(&dets), 320_000);
    assert_eq!(kda_row_center(&[]), 500_000);
}

#[test]
fn bbox_rect_clamps_and_has_a_pixel() {
    let b = BBox { x1: 500_000, y1: 500_000, x2: 1_000_000, y2: 1_000_000 };
    assert_eq!(bbox_rect(&b, 1920, 1080), (960, 540, 959, 539));
    let flat = BBox { x1: 500_000, y1: 500_000, x2: 500_000, y2: 500_000 };
    assert_eq!(bbox_rect(&flat, 1920, 1080), (960, 540, 1, 1));
}

#[test]
fn header_reads_are_normalised_and_merged() {
    assert_eq!(usable_read("  ガチホコ "), Some("ガチホコ".to_string()));
    assert_eq!(usable_read("   "), None);
    let h = header_from_reads(Some(" エリア ".to_string()), None, Some("X MATCH".to_string()));
    assert_eq!(h.rule, Some("ガチエリア".to_string()));
    assert_eq!(h.stage, None);
    assert_eq!(h.mode, Some("Xマッチ".to_string()));
    let fallback = HeaderInfo {
        mode: Some("ナワバリバトル".to_string()),
        rule: Some("ガチホコ".to_string()),
        stage: Some("ヤガラ市場".to_string()),
    };
    let m = merge_header(h.clone(), Some(fallback));
    // The cascade's header wins where it has a value.
    assert_eq!(m.rule, Some("ガチホコ".to_string()));
    assert_eq!(m.stage, Some("ヤガラ市場".to_string()));
    assert_eq!(m.mode, Some("ナワバリバトル".to_string()));
    // Where it has none, the OCR read stays.
    let empty = HeaderInfo { mode: None, rule: None, stage: None };
    let m2 = merge_header(h, Some(empty));
    assert_eq!(m2.rule, Some("ガチエリア".to_string()));
    assert_eq!(m2.mode, Some("Xマッチ".to_string()));
}

#[test]
fn yolo_extraction_prefers_cascade_stats_and_counts_gold() {
    let dets = vec![
        det(1, "GoldAward", 800_000, 0, 10),
        det(1, "GoldAward", 700_000, 20, 30),
        det(7, "MyArrow", 900_000, 300_000, 340_000),
    ];
    let header = HeaderInfo { mode: None, rule: Some("ガチホコ".to_string()), stage: None };
    let stats = PlayerStats { paint: Some(1234), kill: Some(5), death: Some(2), special: Some(3) };
    let over = HeaderInfo { mode: Some("Xマッチ".to_string()), rule: None, stage: Some("ヤガラ市場".to_string()) };
    let data = extract_from_yolo_detections(&dets, "win", header, (Some(1), Some(1), Some(1)), Some(stats), Some(over));
    assert_eq!(data.result, "win");
    assert_eq!((data.kill_count, data.death_count, data.special_count, data.paint_count), (Some(5), Some(2), Some(3), Some(1234)));
    assert_eq!(data.gold_award_count, Some(2));
    assert_eq!(data.rule, Some("ガチホコ".to_string()));
    assert_eq!(data.mode, Some("Xマッチ".to_string()));
    // A cascade rule that differs from the OCR rule wins.
    let header3 = HeaderInfo { mode: None, rule: Some("ガチホコ".to_string()), stage: None };
    let over3 = HeaderInfo { mode: None, rule: Some("ガチエリア".to_string()), stage: None };
    let data3 = extract_from_yolo_detections(&dets, "win", header3, (None, None, None), None, Some(over3));
    assert_eq!(data3.rule, Some("ガチエリア".to_string()));
    assert_eq!(data.stage, Some("ヤガラ市場".to_string()));
    assert_eq!(data.xp_after, None);

    let header2 = HeaderInfo { mode: None, rule: None, stage: None };
    let data2 = extract_from_yolo_detections(&[], "lose", header2, (Some(4), None, Some(6)), None, None);
    assert_eq!((data2.kill_count, data2.death_count, data2.special_count, data2.paint_count), (Some(4), None, Some(6), None));
    assert_eq!(data2.gold_award_count, Some(0));
}

#[test]
fn fixed_region_extraction() {
    assert_eq!(extract_rule_raw(Some("  ガチアサリ ")), "ガチアサリ");
    assert_eq!(extract_rule_raw(None), "");
    assert_eq!(extract_stage_raw(Some(" ヤガラ市場")), "ヤガラ市場");
    assert_eq!(extract_rule(Some("CLAM")), Some("ガチアサリ".to_string()));
    assert_eq!(extract_stage(None), None);
    let data = extract_match_data("win", (Some(5), Some(1), None), "2341.5 XP", Some("エリア"), Some("マテガイ放水路"));
    assert_eq!(data.xp_after, Some("2341.5".to_string()));
    assert_eq!(data.rule, Some("ガチエリア".to_string()));
    assert_eq!(data.stage, Some("マテガイ放水路".to_string()));
    assert_eq!(data.mode, None);
    assert_eq!(data.gold_award_count, None);
    assert_eq!((data.kill_count, data.death_count, data.special_count), (Some(5), Some(1), None));
}

#[test]
fn debug_ocr_uses_cascade_counts_first() {
    let dets = vec![det(7, "MyArrow", 900_000, 600_000, 700_000)];
    let read = |t: &str| RawRead { text: t.to_string(), crop: None };
    let r = extract_debug_ocr(
        &dets,
        read("AREA"),
        read("ナメロウ金属"),
        read("ナワバリ"),
        read("Kill 5"),
        read("x"),
        read("3"),
        Some((Some(7), None, None)),
    );
    assert_eq!(r.rule.normalized, Some("ガチエリア".to_string()));
    assert_eq!(r.stage.normalized, Some("ナメロウ金属".to_string()));
    assert_eq!(r.mode.normalized, Some("ナワバリバトル".to_string()));
    assert_eq!(r.kill.normalized, Some("7".to_string()));
    assert_eq!(r.kill.raw, "Kill 5");
    assert_eq!(r.death.normalized, None);
    assert_eq!(r.special.normalized, Some("3".to_string()));
    assert_eq!(r.arrow_y, Some(650_000));
}

#[test]
fn ctc_collapses_repeats_and_blanks() {
    let dict = vec!["あ".to_string(), "い".to_string(), "う".to_string()];
    assert_eq!(ctc_collapse(&[0, 1, 1, 0, 1, 2, 2, 3, 0], &dict), "ああいう");
    assert_eq!(ctc_collapse(&[4, 0], &dict), "");
    assert_eq!(ctc_collapse(&[], &dict), "");
}

#[test]
fn debug_cells_need_an_arrow() {
    assert!(debug_kda_rois(&[], None).is_none());
    let dets = vec![det(7, "MyArrow", 900_000, 300_000, 340_000)];
    let (k, d, s) = debug_kda_rois(&dets, Some((Some(700_000), None, None))).expect("cells");
    assert_eq!((k.x_ratio, d.x_ratio, s.x_ratio), (670_000, DEATH_COL_X, SPEC_COL_X));
    assert_eq!(k.y_ratio, 294_000);
    let xp = xp_roi();
    assert_eq!((xp.x_ratio, xp.y_ratio, xp.w_ratio, xp.h_ratio), (455_000, 185_000, 180_000, 60_000));
}

#[test]
fn canonical_names_normalise_to_themselves() {
    let stages = [
        "ユノハナ大渓谷", "ゴンズイ地区", "ヤガラ市場", "マテガイ放水路", "ナメロウ金属", "ナンプラー遺跡",
        "クサヤ温泉", "ヒラメが丘団地", "マサバ海峡大橋", "スメーシーワールド", "キンメダイ美術館",
        "タラポートショッピングパーク", "バイガイ亭", "海女美術大学", "チョウザメ造船", "ザトウマーケット",
        "リュウグウターミナル", "オヒョウ海運", "カジキ空港", "ネギトロ炭鉱", "ショッツル鉱山", "デカライン高架下",
        "コンブトラック", "マヒマヒリゾート&スパ", "マンタマリア号", "タカアシ経済特区",
    ];
    for s in stages {
        assert_eq!(normalize_stage(s), Some(s.to_string()), "{s}");
    }
    for r in ["ガチエリア", "ガチヤグラ", "ガチホコ", "ガチアサリ"] {
        assert_eq!(normalize_rule(r), Some(r.to_string()), "{r}");
    }
    for m in ["Xマッチ", "バンカラマッチ(チャレンジ)", "バンカラマッチ(オープン)", "ナワバリバトル", "サーモンラン"] {
        assert_eq!(normalize_mode(m), Some(m.to_string()), "{m}");
    }
}

#[test]
fn english_aliases_ignore_ascii_case() {
    assert_eq!(normalize_rule("Splat Zones"), Some("ガチエリア".to_string()));
    assert_eq!(normalize_rule("clam blitz"), Some("ガチアサリ".to_string()));
    assert_eq!(normalize_rule("Tower Control"), Some("ガチヤグラ".to_string()));
    assert_eq!(normalize_mode("tower"), None);
    assert_eq!(normalize_mode("Clam"), None);
    assert_eq!(normalize_mode("x match"), Some("Xマッチ".to_string()));
}

#[test]
fn stage_reading_ignores_outer_space() {
    assert_eq!(normalize_stage("\t ヤガラ市場 \n"), normalize_stage("ヤガラ市場"));
    assert_eq!(normalize_stage("   "), None);
}

#[test]
fn debug_ocr_without_arrow_reads_no_cells() {
    let read = |t: &str| RawRead { text: t.to_string(), crop: Some("crop".to_string()) };
    let r = extract_debug_ocr(
        &[],
        read("AREA"),
        read("ナメロウ金属"),
        read("ナワバリ"),
        read("5"),
        read("2"),
        read("3"),
        Some((Some(7), None, None)),
    );
    assert_eq!(r.rule.normalized, Some("ガチエリア".to_string()));
    assert_eq!((r.kill.raw.as_str(), r.death.raw.as_str(), r.special.raw.as_str()), ("", "", ""));
    assert_eq!((r.kill.crop_image_base64, r.death.crop_image_base64, r.special.crop_image_base64), (None, None, None));
    assert_eq!(r.kill.normalized, Some("7".to_string()));
    assert_eq!(r.death.normalized, None);
    assert_eq!(r.special.normalized, None);
    assert_eq!(r.arrow_y, None);
}

#[test]
fn canonical_names_read_as_themselves() {
    for r in ["ガチエリア", "ガチヤグラ", "ガチホコ", "ガチアサリ"] {
        assert_eq!(normalize_rule(r), Some(r.to_string()));
    }
    for m in ["Xマッチ", "バンカラマッチ(チャレンジ)", "バンカラマッチ(オープン)", "ナワバリバトル", "サーモンラン"] {
        assert_eq!(normalize_mode(m), Some(m.to_string()));
    }
    let stages = [
        "ユノハナ大渓谷", "ゴンズイ地区", "ヤガラ市場", "マテガイ放水路", "ナメロウ金属", "ナンプラー遺跡", "クサヤ温泉",
        "ヒラメが丘団地", "マサバ海峡大橋", "スメーシーワールド", "キンメダイ美術館", "タラポートショッピングパーク",
        "バイガイ亭", "海女美術大学", "チョウザメ造船", "ザトウマーケット", "リュウグウターミナル", "オヒョウ海運",
        "カジキ空港", "ネギトロ炭鉱", "ショッツル鉱山", "デカライン高架下", "コンブトラック", "マヒマヒリゾート&スパ",
        "マンタマリア号", "タカアシ経済特区",
    ];
    for s in stages {
        assert_eq!(normalize_stage(s), Some(s.to_string()));
    }
    assert_eq!(normalize_mode("anarchy battle"), Some("バンカラマッチ(オープン)".to_string()));
}
