//! Detections of the result-screen model: classes, boxes, selection of the
//! best detection of a class, and per-class non-maximum suppression.
use vstd::prelude::*;
use crate::text::names_view;

verus! {

/// Classes of the result-screen model, in the model's class order.
#[derive(Clone, Copy, PartialEq, Eq, Structural, Debug)]
pub enum YoloClass {
    BattleStart,
    GoldAward,
    KillLog,
    Win,
    Lose,
    Draw,
    ModeText,
    MyArrow,
    RuleText,
    StageText,
}

/// Class id of each class in the model's output.
pub open spec fn class_id_of(c: YoloClass) -> nat {
    match c {
        YoloClass::BattleStart => 0,
        YoloClass::GoldAward => 1,
        YoloClass::KillLog => 2,
        YoloClass::Win => 3,
        YoloClass::Lose => 4,
        YoloClass::Draw => 5,
        YoloClass::ModeText => 6,
        YoloClass::MyArrow => 7,
        YoloClass::RuleText => 8,
        YoloClass::StageText => 9,
    }
}

impl YoloClass {
    /// The class with model class id `id`, if there is one.
    pub fn from_id(id: usize) -> (r: Option<YoloClass>)
        ensures
            match r {
                Some(c) => class_id_of(c) == id,
                None => id >= 10,
            },
    {
        match id {
            0 => Some(YoloClass::BattleStart),
            1 => Some(YoloClass::GoldAward),
            2 => Some(YoloClass::KillLog),
            3 => Some(YoloClass::Win),
            4 => Some(YoloClass::Lose),
            5 => Some(YoloClass::Draw),
            6 => Some(YoloClass::ModeText),
            7 => Some(YoloClass::MyArrow),
            8 => Some(YoloClass::RuleText),
            9 => Some(YoloClass::StageText),
            _ => None,
        }
    }

    /// The model class id of this class.
    pub fn id(&self) -> (r: usize)
        ensures
            r == class_id_of(*self),
    {
        match self {
            YoloClass::BattleStart => 0,
            YoloClass::GoldAward => 1,
            YoloClass::KillLog => 2,
            YoloClass::Win => 3,
            YoloClass::Lose => 4,
            YoloClass::Draw => 5,
            YoloClass::ModeText => 6,
            YoloClass::MyArrow => 7,
            YoloClass::RuleText => 8,
            YoloClass::StageText => 9,
        }
    }

    /// Number of classes of the model.
    pub fn num_classes() -> (r: usize)
        ensures
            r == 10,
    {
        10
    }

    /// The class's name, as the detections carry it.
    pub fn name(&self) -> (r: &'static str)
        ensures
            r@ == class_name_of(*self),
    {
        match self {
            YoloClass::BattleStart => "BattleStart",
            YoloClass::GoldAward => "GoldAward",
            YoloClass::KillLog => "KillLog",
            YoloClass::Win => "Win",
            YoloClass::Lose => "Lose",
            YoloClass::Draw => "Draw",
            YoloClass::ModeText => "ModeText",
            YoloClass::MyArrow => "MyArrow",
            YoloClass::RuleText => "RuleText",
            YoloClass::StageText => "StageText",
        }
    }
}

/// Name of each class.
pub open spec fn class_name_of(c: YoloClass) -> Seq<char> {
    match c {
        YoloClass::BattleStart => "BattleStart"@,
        YoloClass::GoldAward => "GoldAward"@,
        YoloClass::KillLog => "KillLog"@,
        YoloClass::Win => "Win"@,
        YoloClass::Lose => "Lose"@,
        YoloClass::Draw => "Draw"@,
        YoloClass::ModeText => "ModeText"@,
        YoloClass::MyArrow => "MyArrow"@,
        YoloClass::RuleText => "RuleText"@,
        YoloClass::StageText => "StageText"@,
    }
}

/// A box in coordinates normalised to the image (millionths of its width
/// and height).
#[derive(Clone, Copy, PartialEq, Eq, Structural, Debug)]
pub struct BBox {
    pub x1: u32,
    pub y1: u32,
    pub x2: u32,
    pub y2: u32,
}

pub open spec fn max_i(a: int, b: int) -> int {
    if a >= b { a } else { b }
}

pub open spec fn min_i(a: int, b: int) -> int {
    if a <= b { a } else { b }
}

/// Area of the intersection of two boxes (zero when they are apart).
pub open spec fn inter_area(a: BBox, b: BBox) -> int {
    let iw = min_i(a.x2 as int, b.x2 as int) - max_i(a.x1 as int, b.x1 as int);
    let ih = min_i(a.y2 as int, b.y2 as int) - max_i(a.y1 as int, b.y1 as int);
    max_i(iw, 0) * max_i(ih, 0)
}

/// Signed area of a box: width times height.
pub open spec fn signed_area(a: BBox) -> int {
    (a.x2 - a.x1) * (a.y2 - a.y1)
}

/// The intersection over union of two boxes as a fraction
/// (numerator, denominator); `0 / 1` when the union is empty.
pub open spec fn iou_spec(a: BBox, b: BBox) -> (int, int) {
    let inter = inter_area(a, b);
    let union = signed_area(a) + signed_area(b) - inter;
    if union <= 0 { (0, 1) } else { (inter, union) }
}

/// The overlap of `a` and `b` exceeds `threshold` (millionths).
pub open spec fn iou_exceeds(a: BBox, b: BBox, threshold: int) -> bool {
    let (n, d) = iou_spec(a, b);
    n * 1_000_000 > threshold * d
}

fn area_part(lo1: u32, hi1: u32, lo2: u32, hi2: u32) -> (r: i64)
    ensures
        r == max_i(min_i(hi1 as int, hi2 as int) - max_i(lo1 as int, lo2 as int), 0),
        0 <= r <= u32::MAX,
{
    let lo = if lo1 >= lo2 { lo1 } else { lo2 };
    let hi = if hi1 <= hi2 { hi1 } else { hi2 };
    if hi > lo { (hi - lo) as i64 } else { 0 }
}

impl BBox {
    /// Width (may be negative for a degenerate box).
    pub fn width(&self) -> (r: i64)
        ensures
            r == self.x2 - self.x1,
    {
        self.x2 as i64 - self.x1 as i64
    }

    /// Height (may be negative for a degenerate box).
    pub fn height(&self) -> (r: i64)
        ensures
            r == self.y2 - self.y1,
    {
        self.y2 as i64 - self.y1 as i64
    }

    /// Intersection over union, as (numerator, denominator).
    pub fn iou(&self, other: &BBox) -> (r: (i128, i128))
        ensures
            r.0 == iou_spec(*self, *other).0,
            r.1 == iou_spec(*self, *other).1,
            0 <= r.0 <= u32::MAX as int * u32::MAX as int,
            0 < r.1 <= 2 * u32::MAX as int * u32::MAX as int,
    {
        let iw = area_part(self.x1, self.x2, other.x1, other.x2);
        let ih = area_part(self.y1, self.y2, other.y1, other.y2);
        proof {
            assert(0 <= iw as int * ih as int <= u32::MAX as int * u32::MAX as int) by (nonlinear_arith)
                requires
                    0 <= iw <= u32::MAX,
                    0 <= ih <= u32::MAX,
            ;
            assert(-(u32::MAX as int) * u32::MAX as int <= (self.x2 - self.x1) * (self.y2 - self.y1) <= u32::MAX as int * u32::MAX as int) by (nonlinear_arith)
                requires
                    -(u32::MAX as int) <= self.x2 - self.x1 <= u32::MAX as int,
                    -(u32::MAX as int) <= self.y2 - self.y1 <= u32::MAX as int,
            ;
            assert(-(u32::MAX as int) * u32::MAX as int <= (other.x2 - other.x1) * (other.y2 - other.y1) <= u32::MAX as int * u32::MAX as int) by (nonlinear_arith)
                requires
                    -(u32::MAX as int) <= other.x2 - other.x1 <= u32::MAX as int,
                    -(u32::MAX as int) <= other.y2 - other.y1 <= u32::MAX as int,
            ;
        }
        let inter: i128 = iw as i128 * ih as i128;
        let a1: i128 = self.width() as i128 * self.height() as i128;
        let a2: i128 = other.width() as i128 * other.height() as i128;
        let union: i128 = a1 + a2 - inter;
        if union <= 0 {
            (0, 1)
        } else {
            (inter, union)
        }
    }

    /// The overlap with `other` exceeds `threshold` (millionths).
    pub fn overlaps(&self, other: &BBox, threshold: u32) -> (r: bool)
        ensures
            r == iou_exceeds(*self, *other, threshold as int),
    {
        let (n, d) = self.iou(other);
        proof {
            assert(0 <= threshold as int * d as int <= u32::MAX as int * (2 * u32::MAX as int * u32::MAX as int))
                by (nonlinear_arith)
                requires
                    0 < d <= 2 * u32::MAX as int * u32::MAX as int,
                    0 <= threshold <= u32::MAX,
            ;
        }
        n * 1_000_000 > threshold as i128 * d
    }
}

/// One detection: its box, class id and name, and confidence (millionths).
#[derive(Clone, Debug)]
pub struct Detection {
    pub bbox: BBox,
    pub class_id: usize,
    pub class_name: String,
    pub confidence: u32,
}

impl Detection {
    /// A copy of this detection.
    pub fn duplicate(&self) -> (r: Detection)
        ensures
            r == *self,
    {
        Detection {
            bbox: self.bbox,
            class_id: self.class_id,
            class_name: self.class_name.clone(),
            confidence: self.confidence,
        }
    }
}


// ---------------------------------------------------------------------------
// Best detection of a class
// ---------------------------------------------------------------------------

/// Index of the detection of class `id` with the highest confidence; among
/// equal confidences the last one.
pub open spec fn best_index(s: Seq<Detection>, id: int) -> Option<int>
    decreases s.len(),
{
    if s.len() == 0 {
        None
    } else {
        let b = best_index(s.drop_last(), id);
        let k = s.len() - 1;
        if s[k].class_id == id {
            match b {
                None => Some(k),
                Some(j) => if s[k].confidence >= s[j].confidence { Some(k) } else { Some(j) },
            }
        } else {
            b
        }
    }
}

proof fn lemma_best_index_range(s: Seq<Detection>, id: int)
    ensures
        best_index(s, id) matches Some(i) ==> 0 <= i < s.len() && s[i].class_id == id,
        best_index(s, id) is None ==> forall|k: int| 0 <= k < s.len() ==> s[k].class_id != id,
    decreases s.len(),
{
    if s.len() > 0 {
        lemma_best_index_range(s.drop_last(), id);
        assert forall|k: int| 0 <= k < s.len() - 1 implies s.drop_last()[k] == s[k] by {}
    }
}

/// The detection of `class` with the highest confidence (the last one among
/// equals), if any.
pub fn best_detection<'a>(detections: &'a [Detection], class: YoloClass) -> (r: Option<&'a Detection>)
    ensures
        match best_index(detections@, class_id_of(class) as int) {
            None => r is None,
            Some(i) => r matches Some(d) && *d == detections@[i],
        },
{
    let id = class.id();
    let mut best: Option<usize> = None;
    let mut i: usize = 0;
    while i < detections.len()
        invariant
            i <= detections@.len(),
            id == class_id_of(class),
            match best_index(detections@.subrange(0, i as int), id as int) {
                None => best is None,
                Some(j) => best == Some(j as usize),
            },
        decreases detections@.len() - i,
    {
        proof {
            let pre = detections@.subrange(0, i as int);
            let nxt = detections@.subrange(0, i + 1);
            assert(nxt.drop_last() =~= pre);
            lemma_best_index_range(pre, id as int);
        }
        if detections[i].class_id == id {
            match best {
                None => {
                    best = Some(i);
                },
                Some(j) => {
                    if detections[i].confidence >= detections[j].confidence {
                        best = Some(i);
                    }
                },
            }
        }
        i = i + 1;
    }
    proof {
        assert(detections@.subrange(0, detections@.len() as int) =~= detections@);
        lemma_best_index_range(detections@, id as int);
    }
    match best {
        None => None,
        Some(j) => Some(&detections[j]),
    }
}

// ---------------------------------------------------------------------------
// Stable sorting of detections
// ---------------------------------------------------------------------------

/// Doubled horizontal centre of a box: `x1 + x2`.
pub open spec fn center2(d: Detection) -> int {
    d.bbox.x1 + d.bbox.x2
}

/// Sort key: the horizontal centre, or the confidence in decreasing order.
pub open spec fn sort_key(d: Detection, by_confidence: bool) -> int {
    if by_confidence { -(d.confidence as int) } else { center2(d) }
}

/// Inserts `d` into `s` after every element whose key is not greater.
pub open spec fn insert_sorted(s: Seq<Detection>, d: Detection, by_confidence: bool) -> Seq<Detection>
    decreases s.len(),
{
    if s.len() == 0 {
        seq![d]
    } else if sort_key(s.last(), by_confidence) > sort_key(d, by_confidence) {
        insert_sorted(s.drop_last(), d, by_confidence).push(s.last())
    } else {
        s.push(d)
    }
}

/// Stable sort by the key: equal keys keep their order.
pub open spec fn stable_sorted(s: Seq<Detection>, by_confidence: bool) -> Seq<Detection>
    decreases s.len(),
{
    if s.len() == 0 {
        Seq::empty()
    } else {
        insert_sorted(stable_sorted(s.drop_last(), by_confidence), s.last(), by_confidence)
    }
}

fn key_greater(a: &Detection, b: &Detection, by_confidence: bool) -> (r: bool)
    ensures
        r == (sort_key(*a, by_confidence) > sort_key(*b, by_confidence)),
{
    if by_confidence {
        a.confidence < b.confidence
    } else {
        a.bbox.x1 as u64 + a.bbox.x2 as u64 > b.bbox.x1 as u64 + b.bbox.x2 as u64
    }
}

/// Sorts detections stably by horizontal centre (ascending) or by
/// confidence (descending).
pub fn sort_detections(v: Vec<Detection>, by_confidence: bool) -> (r: Vec<Detection>)
    ensures
        r@ == stable_sorted(v@, by_confidence),
{
    let ghost orig = v@;
    let mut rest = v;
    let mut out: Vec<Detection> = Vec::new();
    let ghost mut i: int = 0;
    while rest.len() > 0
        invariant
            0 <= i <= orig.len(),
            rest@ == orig.skip(i),
            out@ == stable_sorted(orig.take(i), by_confidence),
        decreases rest.len(),
    {
        let d = rest.remove(0);
        proof {
            assert(orig.take(i + 1).drop_last() =~= orig.take(i));
            assert(orig.take(i + 1).last() == d);
            assert(rest@ =~= orig.skip(i + 1));
        }
        let mut p: usize = out.len();
        proof {
            assert(out@.take(p as int) =~= out@);
            assert(out@.skip(p as int) =~= Seq::<Detection>::empty());
            assert(insert_sorted(out@, d, by_confidence) + Seq::<Detection>::empty() =~= insert_sorted(out@, d, by_confidence));
        }
        while p > 0 && key_greater(&out[p - 1], &d, by_confidence)
            invariant
                p <= out.len(),
                insert_sorted(out@, d, by_confidence) == insert_sorted(out@.take(p as int), d, by_confidence)
                    + out@.skip(p as int),
            decreases p,
        {
            proof {
                let t = out@.take(p as int);
                assert(t.drop_last() =~= out@.take(p - 1));
                assert(t.last() == out@[p - 1]);
                assert(out@.skip(p - 1) =~= seq![out@[p - 1]] + out@.skip(p as int));
                assert(insert_sorted(t, d, by_confidence) == insert_sorted(out@.take(p - 1), d, by_confidence).push(out@[p - 1]));
                assert(insert_sorted(out@.take(p - 1), d, by_confidence).push(out@[p - 1]) + out@.skip(p as int)
                    =~= insert_sorted(out@.take(p - 1), d, by_confidence) + out@.skip(p - 1));
            }
            p = p - 1;
        }
        proof {
            let t = out@.take(p as int);
            if p == 0 {
                assert(t =~= Seq::<Detection>::empty());
                assert(out@.insert(0, d) =~= seq![d] + out@.skip(0));
            } else {
                assert(t.last() == out@[p - 1]);
                assert(out@.insert(p as int, d) =~= t.push(d) + out@.skip(p as int));
            }
        }
        out.insert(p, d);
        proof {
            i = i + 1;
        }
    }
    proof {
        assert(orig.take(i) =~= orig);
    }
    out
}


// ---------------------------------------------------------------------------
// Per-class non-maximum suppression
// ---------------------------------------------------------------------------

/// The detections of class `c`, in order.
pub open spec fn class_members(s: Seq<Detection>, c: int) -> Seq<Detection> {
    s.filter(|d: Detection| d.class_id == c)
}

/// `d` overlaps one of `kept` by more than `threshold`.
pub open spec fn suppressed(kept: Seq<Detection>, d: Detection, threshold: int) -> bool {
    exists|j: int| 0 <= j < kept.len() && iou_exceeds(d.bbox, kept[j].bbox, threshold)
}

/// Greedy suppression: walks `s` in order and keeps each detection that
/// overlaps none of those kept before it.
pub open spec fn greedy_keep(s: Seq<Detection>, threshold: int) -> Seq<Detection>
    decreases s.len(),
{
    if s.len() == 0 {
        Seq::empty()
    } else {
        let k = greedy_keep(s.drop_last(), threshold);
        if suppressed(k, s.last(), threshold) { k } else { k.push(s.last()) }
    }
}

/// Survivors of class `c`: the class's detections by decreasing confidence
/// (stable), then greedy suppression.
pub open spec fn class_survivors(s: Seq<Detection>, c: int, threshold: int) -> Seq<Detection> {
    greedy_keep(stable_sorted(class_members(s, c), true), threshold)
}

/// Survivors of the classes `0 .. c`, class by class.
pub open spec fn nms_upto(s: Seq<Detection>, threshold: int, c: int) -> Seq<Detection>
    decreases c,
{
    if c <= 0 {
        Seq::empty()
    } else {
        nms_upto(s, threshold, c - 1) + class_survivors(s, c - 1, threshold)
    }
}

/// Largest class id among the detections (0 when there is none).
pub open spec fn max_class_id(s: Seq<Detection>) -> int
    decreases s.len(),
{
    if s.len() == 0 {
        0
    } else {
        max_i(max_class_id(s.drop_last()), s.last().class_id as int)
    }
}

/// Non-maximum suppression applied to each class on its own.
pub open spec fn nms_spec(s: Seq<Detection>, threshold: int) -> Seq<Detection> {
    nms_upto(s, threshold, max_class_id(s) + 1)
}

fn max_class(detections: &Vec<Detection>) -> (r: usize)
    ensures
        r == max_class_id(detections@),
{
    let mut m: usize = 0;
    let mut i: usize = 0;
    while i < detections.len()
        invariant
            i <= detections.len(),
            m == max_class_id(detections@.take(i as int)),
        decreases detections.len() - i,
    {
        proof {
            assert(detections@.take(i + 1).drop_last() =~= detections@.take(i as int));
        }
        if detections[i].class_id > m {
            m = detections[i].class_id;
        }
        i = i + 1;
    }
    proof {
        assert(detections@.take(i as int) =~= detections@);
    }
    m
}

fn members_of_class(detections: &Vec<Detection>, c: usize) -> (r: Vec<Detection>)
    ensures
        r@ == class_members(detections@, c as int),
{
    let mut r: Vec<Detection> = Vec::new();
    let mut i: usize = 0;
    while i < detections.len()
        invariant
            i <= detections.len(),
            r@ == class_members(detections@.take(i as int), c as int),
        decreases detections.len() - i,
    {
        proof {
            reveal_with_fuel(Seq::filter, 1);
            assert(detections@.take(i + 1).drop_last() =~= detections@.take(i as int));
        }
        if detections[i].class_id == c {
            r.push(detections[i].duplicate());
        }
        i = i + 1;
    }
    proof {
        assert(detections@.take(i as int) =~= detections@);
    }
    r
}

fn is_suppressed(kept: &Vec<Detection>, d: &Detection, threshold: u32) -> (r: bool)
    ensures
        r == suppressed(kept@, *d, threshold as int),
{
    let mut j: usize = 0;
    while j < kept.len()
        invariant
            j <= kept.len(),
            forall|k: int| 0 <= k < j ==> !iou_exceeds(d.bbox, kept@[k].bbox, threshold as int),
        decreases kept.len() - j,
    {
        if d.bbox.overlaps(&kept[j].bbox, threshold) {
            return true;
        }
        j = j + 1;
    }
    false
}

fn keep_greedy(sorted: Vec<Detection>, threshold: u32) -> (r: Vec<Detection>)
    ensures
        r@ == greedy_keep(sorted@, threshold as int),
{
    let ghost orig = sorted@;
    let mut rest = sorted;
    let mut kept: Vec<Detection> = Vec::new();
    let ghost mut i: int = 0;
    while rest.len() > 0
        invariant
            0 <= i <= orig.len(),
            rest@ == orig.skip(i),
            kept@ == greedy_keep(orig.take(i), threshold as int),
        decreases rest.len(),
    {
        let d = rest.remove(0);
        proof {
            assert(orig.take(i + 1).drop_last() =~= orig.take(i));
            assert(orig.take(i + 1).last() == d);
            assert(rest@ =~= orig.skip(i + 1));
        }
        if !is_suppressed(&kept, &d, threshold) {
            kept.push(d);
        }
        proof {
            i = i + 1;
        }
    }
    proof {
        assert(orig.take(i) =~= orig);
    }
    kept
}

/// Suppresses, class by class, each detection that overlaps a more
/// confident detection of its class by more than `iou_threshold`
/// (millionths).  The survivors come class by class in increasing class
/// id, each class by decreasing confidence.
pub fn nms_per_class(detections: Vec<Detection>, iou_threshold: u32) -> (r: Vec<Detection>)
    ensures
        r@ == nms_spec(detections@, iou_threshold as int),
{
    let top = max_class(&detections);
    let mut result: Vec<Detection> = Vec::new();
    let mut c: u128 = 0;
    while c <= top as u128
        invariant
            c <= top as u128 + 1,
            top == max_class_id(detections@),
            result@ == nms_upto(detections@, iou_threshold as int, c as int),
        decreases top as u128 + 1 - c,
    {
        let members = members_of_class(&detections, c as usize);
        let sorted = sort_detections(members, true);
        let mut kept = keep_greedy(sorted, iou_threshold);
        result.append(&mut kept);
        c = c + 1;
    }
    result
}


// ---------------------------------------------------------------------------
// Decoding the model's output
// ---------------------------------------------------------------------------

/// Confidence a detection of the result-screen model needs (millionths).
pub const DEFAULT_CONF_THRESHOLD: u32 = 500_000;
/// Overlap above which non-maximum suppression drops a detection.
pub const DEFAULT_IOU_THRESHOLD: u32 = 450_000;

/// One anchor of the model's output: its box (normalised to the frame) and
/// the score of each class (millionths).
pub struct AnchorOutput {
    pub bbox: BBox,
    pub scores: Vec<u32>,
}

/// The best of the first `n` class scores: the first class with the
/// highest score above 0, as `(class, score)`; `(0, 0)` when none is.
pub open spec fn best_class(scores: Seq<u32>, n: int) -> (int, int)
    decreases n,
{
    if n <= 0 {
        (0, 0)
    } else {
        let prev = best_class(scores, n - 1);
        if scores[n - 1] > prev.1 { (n - 1, scores[n - 1] as int) } else { prev }
    }
}

/// `d` is the detection of anchor `a` for a model whose classes are
/// named `names`: its box, its best class with that class's name, and
/// that class's score.
pub open spec fn anchor_detection(a: AnchorOutput, names: Seq<Seq<char>>, d: Detection) -> bool {
    let (c, sc) = best_class(a.scores@, names.len() as int);
    &&& d.bbox == a.bbox
    &&& d.class_id == c
    &&& d.confidence == sc
    &&& d.class_name@ == names[c]
}

/// Indices, in order, of the anchors whose best of `n` scores reaches
/// `threshold`.
pub open spec fn confident_anchors(a: Seq<AnchorOutput>, n: int, threshold: u32) -> Seq<int>
    decreases a.len(),
{
    if a.len() == 0 {
        Seq::empty()
    } else {
        let p = confident_anchors(a.drop_last(), n, threshold);
        if best_class(a.last().scores@, n).1 >= threshold { p.push(a.len() - 1) } else { p }
    }
}

/// `raw` holds the detections of the confident anchors, in order.
pub open spec fn decoded_from(a: Seq<AnchorOutput>, names: Seq<Seq<char>>, threshold: u32, raw: Seq<Detection>) -> bool {
    let idx = confident_anchors(a, names.len() as int, threshold);
    &&& raw.len() == idx.len()
    &&& forall|j: int|
        0 <= j < raw.len() ==> 0 <= #[trigger] idx[j] < a.len() && anchor_detection(a[idx[j]], names, raw[j])
}

proof fn lemma_confident_prefix(a: Seq<AnchorOutput>, n: int, threshold: u32, i: int)
    requires
        0 <= i < a.len(),
    ensures
        confident_anchors(a.take(i + 1), n, threshold) == if best_class(a[i].scores@, n).1 >= threshold {
            confident_anchors(a.take(i), n, threshold).push(i)
        } else {
            confident_anchors(a.take(i), n, threshold)
        },
{
    assert(a.take(i + 1).drop_last() =~= a.take(i));
}

fn best_class_of(scores: &Vec<u32>, n: usize) -> (r: (usize, u32))
    requires
        scores@.len() >= n,
    ensures
        r.0 as int == best_class(scores@, n as int).0,
        r.1 as int == best_class(scores@, n as int).1,
{
    let mut c: usize = 0;
    let mut best: u32 = 0;
    let mut k: usize = 0;
    while k < n
        invariant
            k <= n,
            scores@.len() >= n,
            c as int == best_class(scores@, k as int).0,
            best as int == best_class(scores@, k as int).1,
        decreases n - k,
    {
        if scores[k] > best {
            c = k;
            best = scores[k];
        }
        k = k + 1;
    }
    (c, best)
}

proof fn lemma_best_class_range(scores: Seq<u32>, n: int)
    requires
        0 <= n,
    ensures
        0 <= best_class(scores, n).0 < if n > 0 { n } else { 1 },
    decreases n,
{
    if n > 0 {
        lemma_best_class_range(scores, n - 1);
    }
}

/// The names of the result-screen model's classes, by class id.
pub fn result_class_names() -> (r: Vec<&'static str>)
    ensures
        r@.len() == 10,
        forall|i: int| 0 <= i < 10 ==> (#[trigger] r@[i])@ == class_name_of(class_by_id(i)),
{
    let mut r: Vec<&'static str> = Vec::new();
    let mut i: usize = 0;
    while i < 10
        invariant
            i <= 10,
            r@.len() == i,
            forall|k: int| 0 <= k < i ==> (#[trigger] r@[k])@ == class_name_of(class_by_id(k)),
        decreases 10 - i,
    {
        let c = match YoloClass::from_id(i) {
            Some(c) => c,
            None => YoloClass::BattleStart,
        };
        proof {
            assert(c == class_by_id(i as int));
        }
        r.push(c.name());
        i = i + 1;
    }
    r
}

/// The class with id `id` (ids past the last class read as the first).
pub open spec fn class_by_id(id: int) -> YoloClass {
    if id == 1 { YoloClass::GoldAward }
    else if id == 2 { YoloClass::KillLog }
    else if id == 3 { YoloClass::Win }
    else if id == 4 { YoloClass::Lose }
    else if id == 5 { YoloClass::Draw }
    else if id == 6 { YoloClass::ModeText }
    else if id == 7 { YoloClass::MyArrow }
    else if id == 8 { YoloClass::RuleText }
    else if id == 9 { YoloClass::StageText }
    else { YoloClass::BattleStart }
}

/// The detections in a model's output, for classes named `names`: each
/// anchor whose best class scores at least `conf_threshold` gives a
/// detection of that class with that score, then per-class non-maximum
/// suppression at `iou_threshold`.
pub fn decode_detections(anchors: &[AnchorOutput], names: &[&str], conf_threshold: u32, iou_threshold: u32) -> (r: Vec<
    Detection,
>)
    requires
        names@.len() > 0,
        forall|i: int| 0 <= i < anchors@.len() ==> (#[trigger] anchors@[i]).scores@.len() >= names@.len(),
    ensures
        exists|raw: Seq<Detection>|
            #[trigger] decoded_from(anchors@, names_view(names@), conf_threshold, raw) && r@ == nms_spec(
                raw,
                iou_threshold as int,
            ),
{
    let ghost a = anchors@;
    let ghost nv = names_view(names@);
    let n = names.len();
    let mut raw: Vec<Detection> = Vec::new();
    let mut i: usize = 0;
    proof {
        assert(a.take(0) =~= Seq::<AnchorOutput>::empty());
    }
    while i < anchors.len()
        invariant
            i <= a.len(),
            a == anchors@,
            n == names@.len(),
            n > 0,
            nv == names_view(names@),
            forall|m: int| 0 <= m < a.len() ==> (#[trigger] a[m]).scores@.len() >= n,
            raw@.len() == confident_anchors(a.take(i as int), n as int, conf_threshold).len(),
            forall|j: int|
                0 <= j < raw@.len() ==> 0 <= #[trigger] confident_anchors(a.take(i as int), n as int, conf_threshold)[j]
                    < i && anchor_detection(a[confident_anchors(a.take(i as int), n as int, conf_threshold)[j]], nv, raw@[j]),
        decreases a.len() - i,
    {
        proof {
            lemma_confident_prefix(a, n as int, conf_threshold, i as int);
            lemma_best_class_range(a[i as int].scores@, n as int);
        }
        let (c, sc) = best_class_of(&anchors[i].scores, n);
        if sc >= conf_threshold {
            let d = Detection {
                bbox: anchors[i].bbox,
                class_id: c,
                class_name: crate::text::string_of(&crate::text::chars_of(names[c])),
                confidence: sc,
            };
            proof {
                assert(nv[c as int] == names@[c as int]@);
            }
            raw.push(d);
        }
        i = i + 1;
    }
    proof {
        assert(a.take(i as int) =~= a);
        assert(decoded_from(a, nv, conf_threshold, raw@));
    }
    nms_per_class(raw, iou_threshold)
}

// ---------------------------------------------------------------------------
// Laws
// ---------------------------------------------------------------------------

/// The overlap of two boxes does not depend on their order.
pub proof fn law_iou_symmetric(a: BBox, b: BBox)
    ensures
        iou_spec(a, b) == iou_spec(b, a),
        iou_exceeds(a, b, 0) == iou_exceeds(b, a, 0),
{
    assert(inter_area(a, b) == inter_area(b, a));
}

proof fn lemma_iou_exceeds_symmetric(a: BBox, b: BBox, threshold: int)
    ensures
        iou_exceeds(a, b, threshold) == iou_exceeds(b, a, threshold),
{
    assert(inter_area(a, b) == inter_area(b, a));
}

/// The best detection of a class is at least as confident as every
/// detection of that class.
pub proof fn law_best_is_most_confident(s: Seq<Detection>, id: int, k: int)
    requires
        0 <= k < s.len(),
        s[k].class_id == id,
    ensures
        best_index(s, id) matches Some(b) && s[k].confidence <= s[b].confidence,
    decreases s.len(),
{
    lemma_best_index_range(s, id);
    if k < s.len() - 1 {
        assert(s.drop_last()[k] == s[k]);
        law_best_is_most_confident(s.drop_last(), id, k);
        lemma_best_index_range(s.drop_last(), id);
    }
}

proof fn lemma_insert_sorted_from(s: Seq<Detection>, d: Detection, by_confidence: bool)
    ensures
        insert_sorted(s, d, by_confidence).len() == s.len() + 1,
        forall|k: int| 0 <= k < insert_sorted(s, d, by_confidence).len() ==> (#[trigger] insert_sorted(s, d,
            by_confidence)[k] == d || s.contains(insert_sorted(s, d, by_confidence)[k])),
    decreases s.len(),
{
    if s.len() > 0 && sort_key(s.last(), by_confidence) > sort_key(d, by_confidence) {
        lemma_insert_sorted_from(s.drop_last(), d, by_confidence);
        let r = insert_sorted(s, d, by_confidence);
        let q = insert_sorted(s.drop_last(), d, by_confidence);
        assert forall|k: int| 0 <= k < r.len() implies (#[trigger] r[k] == d || s.contains(r[k])) by {
            if k < q.len() {
                if q[k] != d {
                    let j = choose|j: int| 0 <= j < s.drop_last().len() && s.drop_last()[j] == q[k];
                    assert(s[j] == q[k]);
                }
            } else {
                assert(r[k] == s[s.len() - 1]);
            }
        }
    } else if s.len() > 0 {
        let r = insert_sorted(s, d, by_confidence);
        assert forall|k: int| 0 <= k < r.len() implies (#[trigger] r[k] == d || s.contains(r[k])) by {
            if k < s.len() {
                assert(r[k] == s[k]);
            }
        }
    }
}

proof fn lemma_stable_sorted_from(s: Seq<Detection>, by_confidence: bool)
    ensures
        stable_sorted(s, by_confidence).len() == s.len(),
        forall|k: int| 0 <= k < stable_sorted(s, by_confidence).len() ==> s.contains(
            #[trigger] stable_sorted(s, by_confidence)[k],
        ),
    decreases s.len(),
{
    if s.len() > 0 {
        lemma_stable_sorted_from(s.drop_last(), by_confidence);
        let t = stable_sorted(s.drop_last(), by_confidence);
        lemma_insert_sorted_from(t, s.last(), by_confidence);
        let r = stable_sorted(s, by_confidence);
        assert forall|k: int| 0 <= k < r.len() implies s.contains(#[trigger] r[k]) by {
            if r[k] == s.last() {
                assert(s[s.len() - 1] == r[k]);
            } else {
                assert(t.contains(r[k]));
                let j = choose|j: int| 0 <= j < t.len() && t[j] == r[k];
                let i = choose|i: int| 0 <= i < s.drop_last().len() && s.drop_last()[i] == t[j];
                assert(s[i] == r[k]);
            }
        }
    }
}

proof fn lemma_greedy_keep(s: Seq<Detection>, threshold: int)
    ensures
        forall|j: int, k: int|
            0 <= j < k < greedy_keep(s, threshold).len() ==> !iou_exceeds(
                #[trigger] greedy_keep(s, threshold)[k].bbox,
                #[trigger] greedy_keep(s, threshold)[j].bbox,
                threshold,
            ),
        forall|k: int| 0 <= k < greedy_keep(s, threshold).len() ==> s.contains(#[trigger] greedy_keep(s, threshold)[k]),
    decreases s.len(),
{
    if s.len() > 0 {
        lemma_greedy_keep(s.drop_last(), threshold);
        let g0 = greedy_keep(s.drop_last(), threshold);
        let g = greedy_keep(s, threshold);
        assert forall|k: int| 0 <= k < g.len() implies s.contains(#[trigger] g[k]) by {
            if k < g0.len() {
                assert(g[k] == g0[k]);
                let i = choose|i: int| 0 <= i < s.drop_last().len() && s.drop_last()[i] == g0[k];
                assert(s[i] == g[k]);
            } else {
                assert(g[k] == s[s.len() - 1]);
            }
        }
        if !suppressed(g0, s.last(), threshold) {
            assert forall|j: int, k: int| 0 <= j < k < g.len() implies !iou_exceeds(
                #[trigger] g[k].bbox,
                #[trigger] g[j].bbox,
                threshold,
            ) by {
                assert(g[j] == g0[j]);
                if k < g0.len() {
                    assert(g[k] == g0[k]);
                } else {
                    assert(!iou_exceeds(s.last().bbox, g0[j].bbox, threshold));
                }
            }
        }
    }
}

/// The survivors of non-maximum suppression in one class are detections of
/// that class from the input, and no two of them overlap by more than the
/// threshold.  (`nms_spec` lists the survivors of every class, class after
/// class.)
pub proof fn law_class_survivors(s: Seq<Detection>, c: int, threshold: int)
    ensures
        forall|k: int|
            0 <= k < class_survivors(s, c, threshold).len() ==> s.contains(
                #[trigger] class_survivors(s, c, threshold)[k],
            ) && class_survivors(s, c, threshold)[k].class_id == c,
        forall|j: int, k: int|
            0 <= j < k < class_survivors(s, c, threshold).len() ==> !iou_exceeds(
                #[trigger] class_survivors(s, c, threshold)[j].bbox,
                #[trigger] class_survivors(s, c, threshold)[k].bbox,
                threshold,
            ),
{
    let m = class_members(s, c);
    let t = stable_sorted(m, true);
    let g = greedy_keep(t, threshold);
    lemma_greedy_keep(t, threshold);
    lemma_stable_sorted_from(m, true);
    assert forall|k: int| 0 <= k < g.len() implies s.contains(#[trigger] g[k]) && g[k].class_id == c by {
        assert(t.contains(g[k]));
        let j = choose|j: int| 0 <= j < t.len() && t[j] == g[k];
        assert(m.contains(t[j]));
        let i = choose|i: int| 0 <= i < m.len() && m[i] == t[j];
        s.lemma_filter_pred(|d: Detection| d.class_id == c, i);
        s.lemma_filter_contains_rev(|d: Detection| d.class_id == c, m[i]);
    }
    assert forall|j: int, k: int| 0 <= j < k < g.len() implies !iou_exceeds(
        #[trigger] g[j].bbox,
        #[trigger] g[k].bbox,
        threshold,
    ) by {
        assert(!iou_exceeds(g[k].bbox, g[j].bbox, threshold));
        lemma_iou_exceeds_symmetric(g[j].bbox, g[k].bbox, threshold);
    }
}


/// Confidences never increase along `t`.
pub open spec fn by_confidence_order(t: Seq<Detection>) -> bool {
    forall|i: int, j: int| 0 <= i < j < t.len() ==> #[trigger] t[i].confidence >= #[trigger] t[j].confidence
}

proof fn lemma_insert_sorted_keeps(s: Seq<Detection>, d: Detection, by_confidence: bool)
    ensures
        insert_sorted(s, d, by_confidence).contains(d),
        forall|k: int| 0 <= k < s.len() ==> insert_sorted(s, d, by_confidence).contains(#[trigger] s[k]),
    decreases s.len(),
{
    let r = insert_sorted(s, d, by_confidence);
    if s.len() == 0 {
        assert(r[0] == d);
    } else if sort_key(s.last(), by_confidence) > sort_key(d, by_confidence) {
        let q = insert_sorted(s.drop_last(), d, by_confidence);
        lemma_insert_sorted_keeps(s.drop_last(), d, by_confidence);
        lemma_insert_sorted_from(s.drop_last(), d, by_confidence);
        assert(r == q.push(s.last()));
        let jd = choose|j: int| 0 <= j < q.len() && q[j] == d;
        assert(r[jd] == d);
        assert forall|k: int| 0 <= k < s.len() implies r.contains(#[trigger] s[k]) by {
            if k == s.len() - 1 {
                assert(r[r.len() - 1] == s[k]);
            } else {
                assert(s.drop_last()[k] == s[k]);
                assert(q.contains(s.drop_last()[k]));
                let j = choose|j: int| 0 <= j < q.len() && q[j] == s[k];
                assert(r[j] == s[k]);
            }
        }
    } else {
        assert(r == s.push(d));
        assert(r[s.len() as int] == d);
        assert forall|k: int| 0 <= k < s.len() implies r.contains(#[trigger] s[k]) by {
            assert(r[k] == s[k]);
        }
    }
}

proof fn lemma_stable_sorted_keeps(s: Seq<Detection>, by_confidence: bool)
    ensures
        forall|k: int| 0 <= k < s.len() ==> stable_sorted(s, by_confidence).contains(#[trigger] s[k]),
    decreases s.len(),
{
    if s.len() > 0 {
        let t = stable_sorted(s.drop_last(), by_confidence);
        lemma_stable_sorted_keeps(s.drop_last(), by_confidence);
        lemma_insert_sorted_keeps(t, s.last(), by_confidence);
        let r = stable_sorted(s, by_confidence);
        assert forall|k: int| 0 <= k < s.len() implies r.contains(#[trigger] s[k]) by {
            if k < s.len() - 1 {
                assert(s.drop_last()[k] == s[k]);
                assert(t.contains(s[k]));
                let j = choose|j: int| 0 <= j < t.len() && t[j] == s[k];
                assert(r.contains(t[j]));
            }
        }
    }
}

proof fn lemma_insert_sorted_order(s: Seq<Detection>, d: Detection)
    requires
        by_confidence_order(s),
    ensures
        by_confidence_order(insert_sorted(s, d, true)),
    decreases s.len(),
{
    let r = insert_sorted(s, d, true);
    if s.len() == 0 {
    } else if sort_key(s.last(), true) > sort_key(d, true) {
        let q = insert_sorted(s.drop_last(), d, true);
        assert(by_confidence_order(s.drop_last()));
        lemma_insert_sorted_order(s.drop_last(), d);
        lemma_insert_sorted_from(s.drop_last(), d, true);
        assert(r == q.push(s.last()));
        assert forall|i: int, j: int| 0 <= i < j < r.len() implies #[trigger] r[i].confidence >= #[trigger] r[j].confidence by {
            if j == r.len() - 1 {
                assert(r[i] == q[i]);
                if q[i] != d {
                    let m = choose|m: int| 0 <= m < s.drop_last().len() && s.drop_last()[m] == q[i];
                    assert(s[m] == q[i]);
                    assert(s[m].confidence >= s[s.len() - 1].confidence);
                }
            } else {
                assert(r[i] == q[i] && r[j] == q[j]);
            }
        }
    } else {
        assert(r == s.push(d));
        assert forall|i: int, j: int| 0 <= i < j < r.len() implies #[trigger] r[i].confidence >= #[trigger] r[j].confidence by {
            if j == s.len() {
                assert(r[i] == s[i]);
                if i < s.len() - 1 {
                    assert(s[i].confidence >= s[s.len() - 1].confidence);
                }
            } else {
                assert(r[i] == s[i] && r[j] == s[j]);
            }
        }
    }
}

proof fn lemma_stable_sorted_order(s: Seq<Detection>)
    ensures
        by_confidence_order(stable_sorted(s, true)),
    decreases s.len(),
{
    if s.len() > 0 {
        lemma_stable_sorted_order(s.drop_last());
        lemma_insert_sorted_order(stable_sorted(s.drop_last(), true), s.last());
    }
}

proof fn lemma_greedy_covers(t: Seq<Detection>, threshold: int)
    requires
        by_confidence_order(t),
    ensures
        forall|i: int|
            0 <= i < t.len() ==> greedy_keep(t, threshold).contains(#[trigger] t[i]) || exists|k: int|
                0 <= k < greedy_keep(t, threshold).len() && iou_exceeds(t[i].bbox, greedy_keep(t, threshold)[k].bbox, threshold)
                    && greedy_keep(t, threshold)[k].confidence >= t[i].confidence,
    decreases t.len(),
{
    if t.len() > 0 {
        let t0 = t.drop_last();
        assert(by_confidence_order(t0));
        lemma_greedy_covers(t0, threshold);
        lemma_greedy_keep(t0, threshold);
        let g0 = greedy_keep(t0, threshold);
        let g = greedy_keep(t, threshold);
        assert forall|k: int| 0 <= k < g0.len() implies g[k] == g0[k] by {}
        assert forall|i: int|
            0 <= i < t.len() implies g.contains(#[trigger] t[i]) || exists|k: int|
                0 <= k < g.len() && iou_exceeds(t[i].bbox, g[k].bbox, threshold) && g[k].confidence >= t[i].confidence by {
            if i < t.len() - 1 {
                assert(t0[i] == t[i]);
                if g0.contains(t0[i]) {
                    let j = choose|j: int| 0 <= j < g0.len() && g0[j] == t0[i];
                    assert(g[j] == t[i]);
                } else {
                    let k = choose|k: int|
                        0 <= k < g0.len() && iou_exceeds(t0[i].bbox, g0[k].bbox, threshold) && g0[k].confidence
                            >= t0[i].confidence;
                    assert(g[k] == g0[k]);
                }
            } else if suppressed(g0, t.last(), threshold) {
                let k = choose|k: int| 0 <= k < g0.len() && iou_exceeds(t.last().bbox, g0[k].bbox, threshold);
                assert(t0.contains(g0[k]));
                let m = choose|m: int| 0 <= m < t0.len() && t0[m] == g0[k];
                assert(t[m] == g0[k]);
                assert(t[m].confidence >= t[i].confidence);
                assert(g[k] == g0[k]);
            } else {
                assert(g[g.len() - 1] == t[i]);
            }
        }
    }
}

/// Non-maximum suppression drops a detection only for a more confident
/// one: each detection of a class either survives, or overlaps by more
/// than the threshold a survivor of its class that is at least as
/// confident.
pub proof fn law_suppressed_by_more_confident(s: Seq<Detection>, c: int, threshold: int, i: int)
    requires
        0 <= i < s.len(),
        s[i].class_id == c,
    ensures
        class_survivors(s, c, threshold).contains(s[i]) || exists|k: int|
            0 <= k < class_survivors(s, c, threshold).len() && iou_exceeds(
                s[i].bbox,
                class_survivors(s, c, threshold)[k].bbox,
                threshold,
            ) && class_survivors(s, c, threshold)[k].confidence >= s[i].confidence,
{
    let m = class_members(s, c);
    let t = stable_sorted(m, true);
    s.lemma_filter_contains(|d: Detection| d.class_id == c, i);
    let j = choose|j: int| 0 <= j < m.len() && m[j] == s[i];
    lemma_stable_sorted_keeps(m, true);
    assert(t.contains(m[j]));
    let p = choose|p: int| 0 <= p < t.len() && t[p] == s[i];
    lemma_stable_sorted_order(m);
    lemma_greedy_covers(t, threshold);
    assert(greedy_keep(t, threshold).contains(t[p]) || exists|k: int|
        0 <= k < greedy_keep(t, threshold).len() && iou_exceeds(t[p].bbox, greedy_keep(t, threshold)[k].bbox, threshold)
            && greedy_keep(t, threshold)[k].confidence >= t[p].confidence);
}


proof fn lemma_nms_upto(s: Seq<Detection>, threshold: int, c: int)
    requires
        c >= 0,
    ensures
        forall|k: int|
            0 <= k < nms_upto(s, threshold, c).len() ==> s.contains(#[trigger] nms_upto(s, threshold, c)[k])
                && 0 <= nms_upto(s, threshold, c)[k].class_id < c,
        forall|j: int, k: int|
            0 <= j < k < nms_upto(s, threshold, c).len() && nms_upto(s, threshold, c)[j].class_id == nms_upto(
                s,
                threshold,
                c,
            )[k].class_id ==> !iou_exceeds(
                #[trigger] nms_upto(s, threshold, c)[j].bbox,
                #[trigger] nms_upto(s, threshold, c)[k].bbox,
                threshold,
            ),
        forall|d: Detection, q: int|
            0 <= q < c && #[trigger] class_survivors(s, q, threshold).contains(d) ==> nms_upto(s, threshold, c).contains(d),
    decreases c,
{
    if c > 0 {
        lemma_nms_upto(s, threshold, c - 1);
        law_class_survivors(s, c - 1, threshold);
        let p = nms_upto(s, threshold, c - 1);
        let b = class_survivors(s, c - 1, threshold);
        let r = nms_upto(s, threshold, c);
        assert(r == p + b);
        assert forall|k: int| 0 <= k < r.len() implies s.contains(#[trigger] r[k]) && 0 <= r[k].class_id < c by {
            if k < p.len() {
                assert(r[k] == p[k]);
            } else {
                assert(r[k] == b[k - p.len()]);
            }
        }
        assert forall|j: int, k: int|
            0 <= j < k < r.len() && r[j].class_id == r[k].class_id implies !iou_exceeds(
                #[trigger] r[j].bbox,
                #[trigger] r[k].bbox,
                threshold,
            ) by {
            if k < p.len() {
                assert(r[j] == p[j] && r[k] == p[k]);
            } else if j >= p.len() {
                assert(r[j] == b[j - p.len()] && r[k] == b[k - p.len()]);
            } else {
                assert(r[j] == p[j] && r[k] == b[k - p.len()]);
                assert(p[j].class_id < c - 1);
            }
        }
        assert forall|d: Detection, q: int|
            0 <= q < c && #[trigger] class_survivors(s, q, threshold).contains(d) implies r.contains(d) by {
            if q < c - 1 {
                let i = choose|i: int| 0 <= i < p.len() && p[i] == d;
                assert(r[i] == d);
            } else {
                let i = choose|i: int| 0 <= i < b.len() && b[i] == d;
                assert(r[p.len() + i] == d);
            }
        }
    }
}

proof fn lemma_max_class_id(s: Seq<Detection>, i: int)
    requires
        0 <= i < s.len(),
    ensures
        s[i].class_id <= max_class_id(s),
    decreases s.len(),
{
    if i < s.len() - 1 {
        assert(s.drop_last()[i] == s[i]);
        lemma_max_class_id(s.drop_last(), i);
    }
}

/// Non-maximum suppression over all classes: every survivor is an input
/// detection; no two survivors of one class overlap by more than the
/// threshold; and every input detection survives or overlaps by more than
/// the threshold a survivor of its class that is at least as confident.
pub proof fn law_nms(s: Seq<Detection>, threshold: int)
    ensures
        forall|k: int| 0 <= k < nms_spec(s, threshold).len() ==> s.contains(#[trigger] nms_spec(s, threshold)[k]),
        forall|j: int, k: int|
            0 <= j < k < nms_spec(s, threshold).len() && nms_spec(s, threshold)[j].class_id == nms_spec(
                s,
                threshold,
            )[k].class_id ==> !iou_exceeds(
                #[trigger] nms_spec(s, threshold)[j].bbox,
                #[trigger] nms_spec(s, threshold)[k].bbox,
                threshold,
            ),
        forall|i: int|
            0 <= i < s.len() ==> nms_spec(s, threshold).contains(#[trigger] s[i]) || exists|k: int|
                0 <= k < nms_spec(s, threshold).len() && nms_spec(s, threshold)[k].class_id == s[i].class_id
                    && iou_exceeds(s[i].bbox, nms_spec(s, threshold)[k].bbox, threshold)
                    && nms_spec(s, threshold)[k].confidence >= s[i].confidence,
{
    let top = max_class_id(s) + 1;
    lemma_max_class_id_nonneg(s);
    lemma_nms_upto(s, threshold, top);
    let r = nms_spec(s, threshold);
    assert forall|i: int|
        0 <= i < s.len() implies r.contains(#[trigger] s[i]) || exists|k: int|
            0 <= k < r.len() && r[k].class_id == s[i].class_id && iou_exceeds(s[i].bbox, r[k].bbox, threshold)
                && r[k].confidence >= s[i].confidence by {
        let c = s[i].class_id as int;
        lemma_max_class_id(s, i);
        law_suppressed_by_more_confident(s, c, threshold, i);
        law_class_survivors(s, c, threshold);
        let b = class_survivors(s, c, threshold);
        if !b.contains(s[i]) {
            let k = choose|k: int|
                0 <= k < b.len() && iou_exceeds(s[i].bbox, b[k].bbox, threshold) && b[k].confidence >= s[i].confidence;
            assert(b.contains(b[k]));
            assert(r.contains(b[k]));
            let m = choose|m: int| 0 <= m < r.len() && r[m] == b[k];
            assert(r[m].class_id == s[i].class_id);
        }
    }
}

proof fn lemma_max_class_id_nonneg(s: Seq<Detection>)
    ensures
        max_class_id(s) >= 0,
    decreases s.len(),
{
    if s.len() > 0 {
        lemma_max_class_id_nonneg(s.drop_last());
    }
}

} // verus!
