//! The second stage of the cascade: digits and icons detected in the
//! statistics strip of the player's row are grouped by the icons into
//! paint points, kills, deaths and specials.
use vstd::prelude::*;
use crate::detection::{center2, Detection};
use crate::text::{chars_of, names_view, same_chars, str_eq};
use crate::types::{CascadeDebugDetection, CascadeDebugResult, CascadeGroup};

verus! {

/// Detections closer than this (millionths of the strip width) are one
/// digit position; the most confident one is taken.
pub const X_DEDUP_TOL: u32 = 8_000;

/// Statistics of one player read by the cascade.
#[derive(Clone, Copy, PartialEq, Eq, Structural, Debug)]
pub struct PlayerStats {
    pub paint: Option<i64>,
    pub kill: Option<i64>,
    pub death: Option<i64>,
    pub special: Option<i64>,
}

/// The statistics model's class names, by class id.
pub open spec fn stats_class_names_spec() -> Seq<Seq<char>> {
    seq![
        "digit_0"@, "digit_1"@, "digit_2"@, "digit_3"@, "digit_4"@, "digit_5"@, "digit_6"@, "digit_7"@,
        "digit_8"@, "digit_9"@, "icon_death"@, "icon_kill"@, "icon_special"@,
    ]
}

/// The statistics model's class names, by class id.
pub fn stats_class_names() -> (r: Vec<&'static str>)
    ensures
        names_view(r@) == stats_class_names_spec(),
{
    let r = vec![
        "digit_0", "digit_1", "digit_2", "digit_3", "digit_4", "digit_5", "digit_6", "digit_7", "digit_8",
        "digit_9", "icon_death", "icon_kill", "icon_special",
    ];
    proof {
        assert(names_view(r@) =~= stats_class_names_spec());
    }
    r
}

/// Mode, rule and stage of a match as read from the result header.
#[derive(Clone, Debug)]
pub struct HeaderInfo {
    pub mode: Option<String>,
    pub rule: Option<String>,
    pub stage: Option<String>,
}

// ---------------------------------------------------------------------------
// Digit classes
// ---------------------------------------------------------------------------

pub open spec fn is_ascii_digit(c: char) -> bool {
    '0' <= c && c <= '9'
}

/// Decimal value of a string of ASCII digits.
pub open spec fn digits_num(s: Seq<char>) -> int
    decreases s.len(),
{
    if s.len() == 0 {
        0
    } else {
        digits_num(s.drop_last()) * 10 + (s.last() as int - '0' as int)
    }
}

/// `u8::from_str`: an optional `+`, then one or more ASCII digits whose
/// value is at most 255.
pub open spec fn parse_u8_spec(s: Seq<char>) -> Option<u8> {
    let d = unsigned_part(s);
    if d.len() > 0 && all_digits(d) && digits_num(d) <= 255 {
        Some(digits_num(d) as u8)
    } else {
        None
    }
}

/// `s` without a leading `+`.
pub open spec fn unsigned_part(s: Seq<char>) -> Seq<char> {
    if s.len() > 0 && s[0] == '+' { s.drop_first() } else { s }
}

/// Every character of `s` is an ASCII digit.
pub open spec fn all_digits(s: Seq<char>) -> bool {
    forall|i: int| 0 <= i < s.len() ==> is_ascii_digit(#[trigger] s[i])
}

/// The digit of a class name `digit_N`: `N` parsed as a `u8`.
pub open spec fn digit_value_spec(name: Seq<char>) -> Option<u8> {
    if name.len() >= 6 && name.take(6) == "digit_"@ {
        parse_u8_spec(name.skip(6))
    } else {
        None
    }
}

/// A string of digits has a non-negative value.
pub proof fn lemma_digits_num_bound(s: Seq<char>)
    requires
        forall|i: int| 0 <= i < s.len() ==> is_ascii_digit(#[trigger] s[i]),
    ensures
        digits_num(s) >= 0,
    decreases s.len(),
{
    if s.len() > 0 {
        assert forall|i: int| 0 <= i < s.drop_last().len() implies is_ascii_digit(#[trigger] s.drop_last()[i]) by {
            assert(s.drop_last()[i] == s[i]);
        }
        lemma_digits_num_bound(s.drop_last());
    }
}

fn parse_u8_chars(s: &Vec<char>, start: usize) -> (r: Option<u8>)
    requires
        start <= s.len(),
    ensures
        r == parse_u8_spec(s@.skip(start as int)),
{
    let ghost t = s@.skip(start as int);
    let mut k: usize = start;
    if k < s.len() && s[k] == '+' {
        k = k + 1;
    }
    let ghost d = s@.skip(k as int);
    proof {
        if start < s.len() && s@[start as int] == '+' {
            assert(d =~= t.drop_first());
        } else {
            assert(d =~= t);
        }
    }
    if k >= s.len() {
        return None;
    }
    let mut v: u32 = 0;
    let mut i: usize = k;
    while i < s.len()
        invariant
            k <= i <= s.len(),
            d == s@.skip(k as int),
            t == s@.skip(start as int),
            d == unsigned_part(t),
            forall|m: int| k <= m < i ==> is_ascii_digit(#[trigger] s@[m]),
            v as int == digits_num(s@.subrange(k as int, i as int)),
            v <= 255,
        decreases s.len() - i,
    {
        let c = s[i];
        if !('0' <= c && c <= '9') {
            proof {
                assert(d[i - k] == c);
                assert(!is_ascii_digit(d[i - k]));
                assert(!all_digits(d));
                assert(parse_u8_spec(t) is None);
            }
            return None;
        }
        proof {
            assert(s@.subrange(k as int, i + 1).drop_last() =~= s@.subrange(k as int, i as int));
        }
        let nv: u32 = v * 10 + (c as u32 - '0' as u32);
        if nv > 255 {
            proof {
                let p = s@.subrange(k as int, i + 1);
                assert(d.subrange(0, (i + 1 - k) as int) =~= p);
                assert(p.drop_last() =~= s@.subrange(k as int, i as int));
                assert(p.last() == c);
                assert(digits_num(p) == nv);
                if all_digits(d) {
                    lemma_prefix_le(d, (i + 1 - k) as int);
                    assert(digits_num(d) > 255);
                }
                assert(parse_u8_spec(t) is None);
            }
            return None;
        }
        v = nv;
        i = i + 1;
    }
    proof {
        assert(s@.subrange(k as int, s.len() as int) =~= d);
        assert forall|m: int| 0 <= m < d.len() implies is_ascii_digit(#[trigger] d[m]) by {
            assert(d[m] == s@[k + m]);
        }
    }
    Some(v as u8)
}

/// A prefix of a digit string is worth no more than the whole string.
pub proof fn lemma_prefix_le(s: Seq<char>, n: int)
    requires
        0 <= n <= s.len(),
        forall|i: int| 0 <= i < s.len() ==> is_ascii_digit(#[trigger] s[i]),
    ensures
        digits_num(s.subrange(0, n)) <= digits_num(s),
    decreases s.len() - n,
{
    if n < s.len() {
        let p = s.subrange(0, n + 1);
        assert forall|i: int| 0 <= i < p.len() implies is_ascii_digit(#[trigger] p[i]) by {
            assert(p[i] == s[i]);
        }
        assert(p.drop_last() =~= s.subrange(0, n));
        assert forall|i: int| 0 <= i < s.subrange(0, n).len() implies is_ascii_digit(#[trigger] s.subrange(0, n)[i]) by {
            assert(s.subrange(0, n)[i] == s[i]);
        }
        lemma_digits_num_bound(s.subrange(0, n));
        lemma_prefix_le(s, n + 1);
    } else {
        assert(s.subrange(0, n) =~= s);
    }
}

/// The digit of a class name `digit_N`, if it is one.
pub fn digit_value(class_name: &str) -> (r: Option<u8>)
    ensures
        r == digit_value_spec(class_name@),
{
    let s = chars_of(class_name);
    let prefix = chars_of("digit_");
    if s.len() < 6 {
        return None;
    }
    let mut head: Vec<char> = Vec::new();
    let mut i: usize = 0;
    while i < 6
        invariant
            i <= 6,
            6 <= s.len(),
            head@ == s@.take(i as int),
        decreases 6 - i,
    {
        head.push(s[i]);
        i = i + 1;
        proof {
            assert(s@.take(i as int) =~= s@.take(i - 1).push(s@[i - 1]));
        }
    }
    if !same_chars(&head, &prefix) {
        return None;
    }
    parse_u8_chars(&s, 6)
}

// ---------------------------------------------------------------------------
// Joining digits
// ---------------------------------------------------------------------------

/// Value of digits read left to right: `d0 d1 ... dn` is
/// `((d0 * 10 + d1) * 10 + ...) + dn`.
pub open spec fn decimal_value(s: Seq<u8>) -> int
    decreases s.len(),
{
    if s.len() == 0 {
        0
    } else {
        decimal_value(s.drop_last()) * 10 + s.last()
    }
}

/// The number the digits spell, or `None` for no digits or a number
/// beyond `i64::MAX`.
pub open spec fn digits_to_int_spec(s: Seq<u8>) -> Option<i64> {
    if s.len() == 0 || decimal_value(s) > i64::MAX {
        None
    } else {
        Some(decimal_value(s) as i64)
    }
}

proof fn lemma_decimal_prefix(s: Seq<u8>, n: int)
    requires
        0 <= n <= s.len(),
    ensures
        0 <= decimal_value(s.take(n)) <= decimal_value(s),
    decreases s.len() - n,
{
    if n < s.len() {
        lemma_decimal_prefix(s, n + 1);
        assert(s.take(n + 1).drop_last() =~= s.take(n));
    } else {
        assert(s.take(n) =~= s);
    }
    lemma_decimal_nonneg(s.take(n));
}

proof fn lemma_decimal_nonneg(s: Seq<u8>)
    ensures
        decimal_value(s) >= 0,
    decreases s.len(),
{
    if s.len() > 0 {
        lemma_decimal_nonneg(s.drop_last());
    }
}

/// Joins digits left to right into a number; `None` for no digits or on
/// overflow.
pub fn digits_to_int(digits: &[u8]) -> (r: Option<i64>)
    ensures
        r == digits_to_int_spec(digits@),
{
    if digits.len() == 0 {
        return None;
    }
    let mut acc: i64 = 0;
    let mut i: usize = 0;
    while i < digits.len()
        invariant
            i <= digits.len(),
            acc as int == decimal_value(digits@.take(i as int)),
            acc >= 0,
        decreases digits.len() - i,
    {
        proof {
            assert(digits@.take(i + 1).drop_last() =~= digits@.take(i as int));
            lemma_decimal_prefix(digits@, i + 1);
        }
        match acc.checked_mul(10) {
            None => {
                return None;
            },
            Some(m) => {
                match m.checked_add(digits[i] as i64) {
                    None => {
                        return None;
                    },
                    Some(a) => {
                        acc = a;
                    },
                }
            },
        }
        i = i + 1;
    }
    proof {
        assert(digits@.take(i as int) =~= digits@);
    }
    Some(acc)
}


// ---------------------------------------------------------------------------
// Icons: the group boundaries
// ---------------------------------------------------------------------------

/// Index of the detection named `name` with the highest confidence; among
/// equal confidences the last one.
pub open spec fn best_named(s: Seq<Detection>, name: Seq<char>) -> Option<int>
    decreases s.len(),
{
    if s.len() == 0 {
        None
    } else {
        let b = best_named(s.drop_last(), name);
        let k = s.len() - 1;
        if s[k].class_name@ == name {
            match b {
                None => Some(k),
                Some(j) => if s[k].confidence >= s[j].confidence { Some(k) } else { Some(j) },
            }
        } else {
            b
        }
    }
}

proof fn lemma_best_named_range(s: Seq<Detection>, name: Seq<char>)
    ensures
        best_named(s, name) matches Some(i) ==> 0 <= i < s.len() && s[i].class_name@ == name,
    decreases s.len(),
{
    if s.len() > 0 {
        lemma_best_named_range(s.drop_last(), name);
    }
}

fn best_named_index(dets: &[Detection], name: &str) -> (r: Option<usize>)
    ensures
        match best_named(dets@, name@) {
            None => r is None,
            Some(i) => r == Some(i as usize),
        },
{
    let target = chars_of(name);
    let mut best: Option<usize> = None;
    let mut i: usize = 0;
    while i < dets.len()
        invariant
            i <= dets@.len(),
            target@ == name@,
            match best_named(dets@.take(i as int), name@) {
                None => best is None,
                Some(j) => best == Some(j as usize),
            },
        decreases dets@.len() - i,
    {
        proof {
            assert(dets@.take(i + 1).drop_last() =~= dets@.take(i as int));
            lemma_best_named_range(dets@.take(i as int), name@);
        }
        if same_chars(&chars_of(dets[i].class_name.as_str()), &target) {
            match best {
                None => {
                    best = Some(i);
                },
                Some(j) => {
                    if dets[i].confidence >= dets[j].confidence {
                        best = Some(i);
                    }
                },
            }
        }
        i = i + 1;
    }
    proof {
        assert(dets@.take(dets@.len() as int) =~= dets@);
    }
    best
}

/// Left edge of the most confident icon named `name`.
pub open spec fn icon_left_spec(s: Seq<Detection>, name: Seq<char>) -> Option<u32> {
    match best_named(s, name) {
        None => None,
        Some(i) => Some(s[i].bbox.x1),
    }
}

/// Horizontal centre (rounded down) of the most confident icon named
/// `name`.
pub open spec fn icon_center_spec(s: Seq<Detection>, name: Seq<char>) -> Option<u32> {
    match best_named(s, name) {
        None => None,
        Some(i) => Some(((s[i].bbox.x1 + s[i].bbox.x2) / 2) as u32),
    }
}

/// Left edge of the most confident icon named `name` (a group boundary).
pub fn icon_left_x(dets: &[Detection], name: &str) -> (r: Option<u32>)
    ensures
        r == icon_left_spec(dets@, name@),
{
    proof {
        lemma_best_named_range(dets@, name@);
    }
    match best_named_index(dets, name) {
        None => None,
        Some(i) => Some(dets[i].bbox.x1),
    }
}

/// Horizontal centre of the most confident icon named `name` (for display).
pub fn icon_x(dets: &[Detection], name: &str) -> (r: Option<u32>)
    ensures
        r == icon_center_spec(dets@, name@),
{
    proof {
        lemma_best_named_range(dets@, name@);
    }
    match best_named_index(dets, name) {
        None => None,
        Some(i) => Some(((dets[i].bbox.x1 as u64 + dets[i].bbox.x2 as u64) / 2) as u32),
    }
}

// ---------------------------------------------------------------------------
// Grouping digits
// ---------------------------------------------------------------------------

/// A digit detection of confidence at least `min_conf` whose centre lies in
/// `[lo, hi)` (an absent bound is no bound).
pub open spec fn digit_candidate(d: Detection, lo: Option<u32>, hi: Option<u32>, min_conf: u32) -> bool {
    &&& digit_value_spec(d.class_name@) is Some
    &&& d.confidence >= min_conf
    &&& (lo matches Some(l) ==> center2(d) >= 2 * l)
    &&& (hi matches Some(h) ==> center2(d) < 2 * h)
}

/// The digit candidates in order.
pub open spec fn candidates(s: Seq<Detection>, lo: Option<u32>, hi: Option<u32>, min_conf: u32) -> Seq<Detection> {
    s.filter(|d: Detection| digit_candidate(d, lo, hi, min_conf))
}

/// `a` and `b` sit at the same digit position.
pub open spec fn near(a: Detection, b: Detection) -> bool {
    let diff = center2(a) - center2(b);
    -2 * (X_DEDUP_TOL as int) <= diff <= 2 * (X_DEDUP_TOL as int)
}

/// End of the position group starting at `i`: the detections from `j` on
/// that sit at the position of detection `i`.
pub open spec fn group_end(s: Seq<Detection>, i: int, j: int) -> int
    decreases s.len() - j,
{
    if 0 <= j < s.len() && near(s[j], s[i]) {
        group_end(s, i, j + 1)
    } else {
        j
    }
}

/// Most confident detection in `[i, j)`; among equals the first one.
pub open spec fn group_best(s: Seq<Detection>, i: int, j: int) -> int
    decreases j - i,
{
    if j <= i + 1 {
        i
    } else {
        let b = group_best(s, i, j - 1);
        if s[j - 1].confidence > s[b].confidence { j - 1 } else { b }
    }
}

/// A position group ends at or after its start and within the sequence.
pub proof fn lemma_group_end(s: Seq<Detection>, i: int, j: int)
    ensures
        group_end(s, i, j) >= j,
        j <= s.len() ==> group_end(s, i, j) <= s.len(),
    decreases s.len() - j,
{
    if 0 <= j < s.len() && near(s[j], s[i]) {
        lemma_group_end(s, i, j + 1);
    }
}

proof fn lemma_group_best(s: Seq<Detection>, i: int, j: int)
    requires
        i < j,
    ensures
        i <= group_best(s, i, j) < j,
    decreases j - i,
{
    if j > i + 1 {
        lemma_group_best(s, i, j - 1);
    }
}

/// The digit of a candidate.
pub open spec fn digit_of(d: Detection) -> u8 {
    match digit_value_spec(d.class_name@) {
        Some(v) => v,
        None => 0,
    }
}

/// Digits read from position groups, from group start `i` on.
pub open spec fn dedup_digits(s: Seq<Detection>, i: int) -> Seq<u8>
    decreases s.len() - i,
{
    if i < 0 || i >= s.len() {
        Seq::empty()
    } else {
        let j = group_end(s, i, i + 1);
        proof {
            lemma_group_end(s, i, i + 1);
        }
        seq![digit_of(s[group_best(s, i, j)])] + dedup_digits(s, j)
    }
}

/// The digits in `[lo, hi)`, one per position.
pub open spec fn collect_digits_spec(s: Seq<Detection>, lo: Option<u32>, hi: Option<u32>, min_conf: u32) -> Seq<u8> {
    dedup_digits(candidates(s, lo, hi, min_conf), 0)
}

fn is_candidate(d: &Detection, lo: Option<u32>, hi: Option<u32>, min_conf: u32) -> (r: bool)
    ensures
        r == digit_candidate(*d, lo, hi, min_conf),
{
    if digit_value(d.class_name.as_str()).is_none() {
        return false;
    }
    if d.confidence < min_conf {
        return false;
    }
    let c2: u64 = d.bbox.x1 as u64 + d.bbox.x2 as u64;
    let lo_ok = match lo {
        Some(l) => c2 >= 2 * l as u64,
        None => true,
    };
    let hi_ok = match hi {
        Some(h) => c2 < 2 * h as u64,
        None => true,
    };
    lo_ok && hi_ok
}

fn near_exec(a: &Detection, b: &Detection) -> (r: bool)
    ensures
        r == near(*a, *b),
{
    let ca: i64 = a.bbox.x1 as i64 + a.bbox.x2 as i64;
    let cb: i64 = b.bbox.x1 as i64 + b.bbox.x2 as i64;
    let diff = ca - cb;
    let tol: i64 = 2 * (X_DEDUP_TOL as i64);
    -tol <= diff && diff <= tol
}

/// Collects the digits whose centre lies in `[lo, hi)` from detections
/// sorted by centre; detections within `X_DEDUP_TOL` of a group's first
/// detection are one position, read from its most confident detection.
pub fn collect_best_digits(dets: &[Detection], lo: Option<u32>, hi: Option<u32>, min_conf: u32) -> (r: Vec<u8>)
    ensures
        r@ == collect_digits_spec(dets@, lo, hi, min_conf),
{
    let mut cands: Vec<Detection> = Vec::new();
    let mut k: usize = 0;
    while k < dets.len()
        invariant
            k <= dets@.len(),
            cands@ == candidates(dets@.take(k as int), lo, hi, min_conf),
        decreases dets@.len() - k,
    {
        proof {
            reveal_with_fuel(Seq::filter, 1);
            assert(dets@.take(k + 1).drop_last() =~= dets@.take(k as int));
        }
        if is_candidate(&dets[k], lo, hi, min_conf) {
            cands.push(dets[k].duplicate());
        }
        k = k + 1;
    }
    proof {
        assert(dets@.take(k as int) =~= dets@);
    }
    let ghost c = cands@;
    let mut result: Vec<u8> = Vec::new();
    let mut i: usize = 0;
    while i < cands.len()
        invariant
            i <= cands.len(),
            c == cands@,
            result@ + dedup_digits(c, i as int) == dedup_digits(c, 0),
        decreases cands.len() - i,
    {
        let mut best: usize = i;
        let mut j: usize = i + 1;
        while j < cands.len() && near_exec(&cands[j], &cands[i])
            invariant
                i < j <= cands.len(),
                c == cands@,
                group_end(c, i as int, i + 1) == group_end(c, i as int, j as int),
                best as int == group_best(c, i as int, j as int),
                i <= best < j,
            decreases cands.len() - j,
        {
            if cands[j].confidence > cands[best].confidence {
                best = j;
            }
            j = j + 1;
        }
        proof {
            lemma_group_end(c, i as int, i + 1);
            assert(group_end(c, i as int, j as int) == j);
            assert(dedup_digits(c, i as int) == seq![digit_of(c[best as int])] + dedup_digits(c, j as int));
            reveal_with_fuel(Seq::filter, 1);
        }
        let v = match digit_value(cands[best].class_name.as_str()) {
            Some(v) => v,
            None => 0,
        };
        proof {
            assert(result@.push(v) + dedup_digits(c, j as int) =~= result@ + (seq![v] + dedup_digits(c, j as int)));
        }
        result.push(v);
        i = j;
    }
    proof {
        assert(result@ + dedup_digits(c, i as int) =~= result@);
    }
    result
}

// ---------------------------------------------------------------------------
// Parsing the strip
// ---------------------------------------------------------------------------

/// The statistics read from a strip's detections (sorted by centre):
/// paint points left of the kill icon, kills between the kill and the death
/// icon, deaths between the death and the special icon, specials right of
/// the special icon; a group whose boundary icon is missing is `None`.
pub open spec fn cluster_spec(s: Seq<Detection>, min_conf: u32) -> PlayerStats {
    let kill_lo = icon_left_spec(s, "icon_kill"@);
    let death_lo = icon_left_spec(s, "icon_death"@);
    let special_lo = icon_left_spec(s, "icon_special"@);
    PlayerStats {
        paint: if kill_lo is Some {
            digits_to_int_spec(collect_digits_spec(s, None, kill_lo, min_conf))
        } else {
            None
        },
        kill: if kill_lo is Some && death_lo is Some {
            digits_to_int_spec(collect_digits_spec(s, kill_lo, death_lo, min_conf))
        } else {
            None
        },
        death: if death_lo is Some && special_lo is Some {
            digits_to_int_spec(collect_digits_spec(s, death_lo, special_lo, min_conf))
        } else {
            None
        },
        special: if special_lo is Some {
            digits_to_int_spec(collect_digits_spec(s, special_lo, None, min_conf))
        } else {
            None
        },
    }
}

/// Groups the detections of a statistics strip (sorted by centre) by the
/// left edges of the icons and reads each group's digits as a number.
/// Digits below `digit_min_conf` are ignored; icons of any confidence serve
/// as boundaries.
pub fn cluster_and_parse(dets: &[Detection], digit_min_conf: u32) -> (r: PlayerStats)
    ensures
        r == cluster_spec(dets@, digit_min_conf),
{
    let kill_lo = icon_left_x(dets, "icon_kill");
    let death_lo = icon_left_x(dets, "icon_death");
    let special_lo = icon_left_x(dets, "icon_special");
    let paint = if kill_lo.is_some() {
        digits_to_int(collect_best_digits(dets, None, kill_lo, digit_min_conf).as_slice())
    } else {
        None
    };
    let kill = if kill_lo.is_some() && death_lo.is_some() {
        digits_to_int(collect_best_digits(dets, kill_lo, death_lo, digit_min_conf).as_slice())
    } else {
        None
    };
    let death = if death_lo.is_some() && special_lo.is_some() {
        digits_to_int(collect_best_digits(dets, death_lo, special_lo, digit_min_conf).as_slice())
    } else {
        None
    };
    let special = if special_lo.is_some() {
        digits_to_int(collect_best_digits(dets, special_lo, None, digit_min_conf).as_slice())
    } else {
        None
    };
    PlayerStats { paint, kill, death, special }
}


// ---------------------------------------------------------------------------
// Debugging
// ---------------------------------------------------------------------------

/// The group of a detection for display: icons are anchors; digits go by
/// their centre against the icons' left edges (paint before the kill icon,
/// then kill, death, special); anything else is ignored.
pub open spec fn group_spec(d: Detection, kill_lo: Option<u32>, death_lo: Option<u32>, special_lo: Option<u32>) -> CascadeGroup {
    if d.class_name@ == "icon_kill"@ {
        CascadeGroup::AnchorKill
    } else if d.class_name@ == "icon_death"@ {
        CascadeGroup::AnchorDeath
    } else if d.class_name@ == "icon_special"@ {
        CascadeGroup::AnchorSpecial
    } else if digit_value_spec(d.class_name@) is None {
        CascadeGroup::Ignored
    } else if !(kill_lo matches Some(k) && center2(d) >= 2 * k) {
        CascadeGroup::Paint
    } else if !(death_lo matches Some(k) && center2(d) >= 2 * k) {
        CascadeGroup::Kill
    } else if !(special_lo matches Some(k) && center2(d) >= 2 * k) {
        CascadeGroup::Death
    } else {
        CascadeGroup::Special
    }
}

fn before_edge(d: &Detection, lo: Option<u32>) -> (r: bool)
    ensures
        r == !(lo matches Some(k) && center2(*d) >= 2 * k),
{
    match lo {
        Some(k) => (d.bbox.x1 as u64 + d.bbox.x2 as u64) < 2 * k as u64,
        None => true,
    }
}

/// The group of a detection for display (see `group_spec`).
pub fn assign_group(d: &Detection, kill_lo: Option<u32>, death_lo: Option<u32>, special_lo: Option<u32>) -> (r: CascadeGroup)
    ensures
        r == group_spec(*d, kill_lo, death_lo, special_lo),
{
    if str_eq(d.class_name.as_str(), "icon_kill") {
        CascadeGroup::AnchorKill
    } else if str_eq(d.class_name.as_str(), "icon_death") {
        CascadeGroup::AnchorDeath
    } else if str_eq(d.class_name.as_str(), "icon_special") {
        CascadeGroup::AnchorSpecial
    } else if digit_value(d.class_name.as_str()).is_none() {
        CascadeGroup::Ignored
    } else if before_edge(d, kill_lo) {
        CascadeGroup::Paint
    } else if before_edge(d, death_lo) {
        CascadeGroup::Kill
    } else if before_edge(d, special_lo) {
        CascadeGroup::Death
    } else {
        CascadeGroup::Special
    }
}

/// Digits below this confidence are left out of the debug statistics.
pub const DEBUG_DIGIT_MIN_CONF: u32 = 500_000;

/// The debug record of a strip whose model inference succeeded: every
/// detection with its centre and group, the icons' centres, and the
/// statistics read from digits of confidence at least 0.5.
pub fn cascade_debug_result(
    frame_w: u32,
    frame_h: u32,
    stats_model_loaded: bool,
    crop: (u32, u32, u32, u32),
    crop_image_base64: Option<String>,
    dets: &[Detection],
) -> (r: CascadeDebugResult)
    ensures
        r.frame_w == frame_w && r.frame_h == frame_h && r.stats_model_loaded == stats_model_loaded,
        r.arrow_found,
        (r.crop_x, r.crop_y, r.crop_w, r.crop_h) == crop,
        r.crop_image_base64 == crop_image_base64,
        r.detections@.len() == dets@.len(),
        forall|i: int| 0 <= i < dets@.len() ==> {
            &&& (#[trigger] r.detections@[i]).class_name@ == dets@[i].class_name@
            &&& r.detections@[i].confidence == dets@[i].confidence
            &&& r.detections@[i].x_center == center2(dets@[i]) / 2
            &&& r.detections@[i].group == group_spec(
                dets@[i],
                icon_left_spec(dets@, "icon_kill"@),
                icon_left_spec(dets@, "icon_death"@),
                icon_left_spec(dets@, "icon_special"@),
            )
        },
        r.kill_anchor_x == icon_center_spec(dets@, "icon_kill"@),
        r.death_anchor_x == icon_center_spec(dets@, "icon_death"@),
        r.special_anchor_x == icon_center_spec(dets@, "icon_special"@),
        (PlayerStats { paint: r.paint, kill: r.kill, death: r.death, special: r.special }) == cluster_spec(
            dets@,
            DEBUG_DIGIT_MIN_CONF,
        ),
        r.error is None,
{
    let kill_lo = icon_left_x(dets, "icon_kill");
    let death_lo = icon_left_x(dets, "icon_death");
    let special_lo = icon_left_x(dets, "icon_special");
    let stats = cluster_and_parse(dets, DEBUG_DIGIT_MIN_CONF);
    let mut out: Vec<CascadeDebugDetection> = Vec::new();
    let mut i: usize = 0;
    while i < dets.len()
        invariant
            i <= dets@.len(),
            out@.len() == i,
            kill_lo == icon_left_spec(dets@, "icon_kill"@),
            death_lo == icon_left_spec(dets@, "icon_death"@),
            special_lo == icon_left_spec(dets@, "icon_special"@),
            forall|k: int| 0 <= k < i ==> {
                &&& (#[trigger] out@[k]).class_name@ == dets@[k].class_name@
                &&& out@[k].confidence == dets@[k].confidence
                &&& out@[k].x_center == center2(dets@[k]) / 2
                &&& out@[k].group == group_spec(dets@[k], kill_lo, death_lo, special_lo)
            },
        decreases dets@.len() - i,
    {
        let d = &dets[i];
        let cx = ((d.bbox.x1 as u64 + d.bbox.x2 as u64) / 2) as u32;
        out.push(
            CascadeDebugDetection {
                class_name: d.class_name.clone(),
                confidence: d.confidence,
                x_center: cx,
                group: assign_group(d, kill_lo, death_lo, special_lo),
            },
        );
        i = i + 1;
    }
    CascadeDebugResult {
        frame_w,
        frame_h,
        stats_model_loaded,
        arrow_found: true,
        crop_x: crop.0,
        crop_y: crop.1,
        crop_w: crop.2,
        crop_h: crop.3,
        crop_image_base64,
        detections: out,
        kill_anchor_x: icon_x(dets, "icon_kill"),
        death_anchor_x: icon_x(dets, "icon_death"),
        special_anchor_x: icon_x(dets, "icon_special"),
        paint: stats.paint,
        kill: stats.kill,
        death: stats.death,
        special: stats.special,
        error: None,
    }
}


// ---------------------------------------------------------------------------
// Laws
// ---------------------------------------------------------------------------

proof fn lemma_icon_names_are_no_digits(name: Seq<char>)
    requires
        digit_value_spec(name) is Some,
    ensures
        name != "icon_kill"@,
        name != "icon_death"@,
        name != "icon_special"@,
{
    reveal_strlit("icon_kill");
    reveal_strlit("icon_death");
    reveal_strlit("icon_special");
    reveal_strlit("digit_");
    assert(name.take(6) == "digit_"@);
    assert("digit_"@[0] == 'd');
    assert(name.take(6)[0] == name[0]);
    assert(name[0] == 'd');
    assert("icon_kill"@[0] == 'i');
    assert("icon_death"@[0] == 'i');
    assert("icon_special"@[0] == 'i');
}

/// With the icons in their screen order (kill, death, special), the group
/// the diagnosis shows a confident digit in is the group whose number the
/// digit is read into: paint before the kill icon, then kills, deaths and
/// specials.
pub proof fn law_groups_agree_with_reading(d: Detection, kill_lo: u32, death_lo: u32, special_lo: u32, min_conf: u32)
    requires
        kill_lo <= death_lo <= special_lo,
        digit_value_spec(d.class_name@) is Some,
        d.confidence >= min_conf,
    ensures
        digit_candidate(d, None, Some(kill_lo), min_conf) <==> group_spec(d, Some(kill_lo), Some(death_lo), Some(special_lo))
            == CascadeGroup::Paint,
        digit_candidate(d, Some(kill_lo), Some(death_lo), min_conf) <==> group_spec(
            d,
            Some(kill_lo),
            Some(death_lo),
            Some(special_lo),
        ) == CascadeGroup::Kill,
        digit_candidate(d, Some(death_lo), Some(special_lo), min_conf) <==> group_spec(
            d,
            Some(kill_lo),
            Some(death_lo),
            Some(special_lo),
        ) == CascadeGroup::Death,
        digit_candidate(d, Some(special_lo), None, min_conf) <==> group_spec(
            d,
            Some(kill_lo),
            Some(death_lo),
            Some(special_lo),
        ) == CascadeGroup::Special,
{
    lemma_icon_names_are_no_digits(d.class_name@);
}

/// The detection a position group is read from is at least as confident
/// as every detection of the group.
proof fn lemma_group_best_max(s: Seq<Detection>, i: int, j: int)
    requires
        i < j,
    ensures
        i <= group_best(s, i, j) < j,
        forall|k: int| i <= k < j ==> #[trigger] s[k].confidence <= s[group_best(s, i, j)].confidence,
    decreases j - i,
{
    if j > i + 1 {
        lemma_group_best_max(s, i, j - 1);
    }
}

/// A digit position is read from its most confident detection: the first
/// digit read from the group starting at `i` (the detections from `i` on
/// within the tolerance of detection `i`) is the digit of a detection of
/// the group whose confidence is at least that of every detection of the
/// group, and the rest is read from the next group on.
pub proof fn law_position_read_from_most_confident(s: Seq<Detection>, i: int)
    requires
        0 <= i < s.len(),
    ensures
        ({
            let j = group_end(s, i, i + 1);
            &&& i < j <= s.len()
            &&& forall|k: int| i <= k < j ==> near(#[trigger] s[k], s[i])
            &&& exists|b: int|
                #![trigger s[b]]
                i <= b < j && dedup_digits(s, i) == seq![digit_of(s[b])] + dedup_digits(s, j) && forall|k: int|
                    i <= k < j ==> #[trigger] s[k].confidence <= s[b].confidence
        }),
{
    let j = group_end(s, i, i + 1);
    lemma_group_end(s, i, i + 1);
    lemma_group_members_near(s, i, i + 1);
    lemma_group_best_max(s, i, j);
    let b = group_best(s, i, j);
    assert(s[b] == s[b]);
}

/// Every detection between `k` and the end of the group starting at `i`
/// sits at the position of detection `i`.
proof fn lemma_group_members_near(s: Seq<Detection>, i: int, k: int)
    requires
        0 <= k,
    ensures
        forall|m: int| k <= m < group_end(s, i, k) ==> near(#[trigger] s[m], s[i]),
    decreases s.len() - k,
{
    if 0 <= k < s.len() && near(s[k], s[i]) {
        lemma_group_members_near(s, i, k + 1);
    }
}

} // verus!
