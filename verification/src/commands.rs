//! What the interface's commands compute from OCR and detector output.
use vstd::prelude::*;
use crate::text::{chars_of, string_of, trim_chars, trim_spec};
use crate::types::{OcrTestResult, WindowInfo};

verus! {

/// The segments of `s` between line feeds, the last one included.
pub open spec fn segments(s: Seq<char>) -> Seq<Seq<char>>
    decreases s.len(),
{
    if s.len() == 0 {
        seq![Seq::empty()]
    } else {
        let rest = segments(s.drop_last());
        if s.last() == '\n' {
            rest.push(Seq::empty())
        } else {
            rest.update(rest.len() - 1, rest.last().push(s.last()))
        }
    }
}

/// The non-blank lines of OCR text, trimmed.
pub open spec fn text_lines(s: Seq<char>) -> Seq<Seq<char>> {
    segments(s).map_values(|l: Seq<char>| trim_spec(l)).filter(|l: Seq<char>| l.len() > 0)
}

proof fn lemma_segments_nonempty(s: Seq<char>)
    ensures
        segments(s).len() >= 1,
    decreases s.len(),
{
    if s.len() > 0 {
        lemma_segments_nonempty(s.drop_last());
    }
}

/// The views of a list of strings.
pub open spec fn strings_view(v: Seq<String>) -> Seq<Seq<char>> {
    v.map_values(|s: String| s@)
}

/// The result of an OCR test: the raw text and its non-blank lines,
/// trimmed.
pub fn ocr_test_result(text: String) -> (r: OcrTestResult)
    ensures
        r.raw_text == text,
        strings_view(r.lines@) == text_lines(text@),
{
    let v = chars_of(text.as_str());
    let ghost s = v@;
    let mut lines: Vec<String> = Vec::new();
    let mut cur: Vec<char> = Vec::new();
    let mut i: usize = 0;
    proof {
        assert(s.take(0) =~= Seq::<char>::empty());
    }
    while i < v.len()
        invariant
            i <= v.len(),
            s == v@,
            segments(s.take(i as int)) == segments(s.take(i as int)).drop_last().push(cur@),
            strings_view(lines@) == segments(s.take(i as int)).drop_last().map_values(|l: Seq<char>| trim_spec(l)).filter(
                |l: Seq<char>| l.len() > 0,
            ),
        decreases v.len() - i,
    {
        let ghost before = segments(s.take(i as int));
        proof {
            lemma_segments_nonempty(s.take(i as int));
            assert(s.take(i + 1).drop_last() =~= s.take(i as int));
        }
        if v[i] == '\n' {
            let t = trim_chars(&cur);
            let ghost old_lines = lines@;
            if t.len() > 0 {
                lines.push(string_of(&t));
            }
            proof {
                let done = before.drop_last();
                let now = segments(s.take(i + 1));
                assert(now == before.push(Seq::<char>::empty()));
                assert(now.drop_last() =~= done.push(cur@));
                reveal_with_fuel(Seq::filter, 1);
                assert(done.push(cur@).map_values(|l: Seq<char>| trim_spec(l)) =~= done.map_values(
                    |l: Seq<char>| trim_spec(l),
                ).push(trim_spec(cur@)));
                assert(done.push(cur@).map_values(|l: Seq<char>| trim_spec(l)).drop_last() =~= done.map_values(
                    |l: Seq<char>| trim_spec(l),
                ));
                assert(strings_view(lines@) =~= now.drop_last().map_values(|l: Seq<char>| trim_spec(l)).filter(
                    |l: Seq<char>| l.len() > 0,
                ));
                assert(now.drop_last().push(Seq::<char>::empty()) =~= now);
            }
            cur = Vec::new();
        } else {
            cur.push(v[i]);
            proof {
                let now = segments(s.take(i + 1));
                assert(now =~= before.update(before.len() - 1, before.last().push(v@[i as int])));
                assert(now.drop_last() =~= before.drop_last());
                assert(now =~= now.drop_last().push(cur@));
            }
        }
        i = i + 1;
    }
    let t = trim_chars(&cur);
    let ghost old_lines = lines@;
    if t.len() > 0 {
        lines.push(string_of(&t));
    }
    proof {
        assert(s.take(i as int) =~= s);
        let all = segments(s);
        let done = all.drop_last();
        assert(all =~= done.push(cur@));
        reveal_with_fuel(Seq::filter, 1);
        assert(all.map_values(|l: Seq<char>| trim_spec(l)) =~= done.map_values(|l: Seq<char>| trim_spec(l)).push(
            trim_spec(cur@),
        ));
        assert(all.map_values(|l: Seq<char>| trim_spec(l)).drop_last() =~= done.map_values(
            |l: Seq<char>| trim_spec(l),
        ));
        assert(strings_view(lines@) =~= text_lines(text@));
    }
    OcrTestResult { raw_text: text, lines }
}

/// The counts the cascade read, when it read at least one of them.
pub fn cascade_counts(kill: Option<i64>, death: Option<i64>, special: Option<i64>) -> (r: Option<(Option<i64>, Option<i64>, Option<i64>)>)
    ensures
        r == (if kill is Some || death is Some || special is Some { Some((kill, death, special)) } else { None }),
{
    if kill.is_some() || death.is_some() || special.is_some() {
        Some((kill, death, special))
    } else {
        None
    }
}

/// The window list offered where window capture is unavailable: one
/// placeholder entry.
pub fn placeholder_windows() -> (r: Vec<WindowInfo>)
    ensures
        r@.len() == 1,
        r@[0].hwnd == 0,
        r@[0].title@ == "[stub] Non-Windows platform"@,
{
    let mut v: Vec<WindowInfo> = Vec::new();
    v.push(WindowInfo { hwnd: 0, title: string_of(&chars_of("[stub] Non-Windows platform")) });
    v
}

} // verus!
