//! Decoding of the text recogniser's output: greedy CTC collapse of the
//! per-step best classes into text.
use vstd::prelude::*;
use crate::text::{chars_of, string_of};

verus! {

/// The text of the best classes `ix` from a step whose predecessor had
/// class `prev`: class 0 is the blank; a class `i` other than the blank and
/// the predecessor's adds dictionary entry `i - 1`, when there is one.
pub open spec fn ctc_from(ix: Seq<usize>, dict: Seq<Seq<char>>, prev: int) -> Seq<char>
    decreases ix.len(),
{
    if ix.len() == 0 {
        Seq::empty()
    } else {
        let i = ix[0] as int;
        let piece = if i != 0 && i != prev && i - 1 < dict.len() { dict[i - 1] } else { Seq::empty() };
        piece + ctc_from(ix.drop_first(), dict, i)
    }
}

/// The dictionary entries as character sequences.
pub open spec fn dict_view(dict: Seq<String>) -> Seq<Seq<char>> {
    dict.map_values(|s: String| s@)
}

/// Greedy CTC decoding: collapses repeated classes, drops blanks (class 0)
/// and maps class `i` to dictionary entry `i - 1`.
pub fn ctc_collapse(best: &[usize], dict: &[String]) -> (r: String)
    ensures
        r@ == ctc_from(best@, dict_view(dict@), usize::MAX as int),
{
    let ghost dv = dict_view(dict@);
    let mut out: Vec<char> = Vec::new();
    let mut prev: usize = usize::MAX;
    let mut t: usize = 0;
    proof {
        assert(best@.skip(0) =~= best@);
        assert(out@ + ctc_from(best@.skip(0), dv, prev as int) =~= ctc_from(best@, dv, usize::MAX as int));
    }
    while t < best.len()
        invariant
            t <= best.len(),
            dv == dict_view(dict@),
            out@ + ctc_from(best@.skip(t as int), dv, prev as int) == ctc_from(best@, dv, usize::MAX as int),
        decreases best.len() - t,
    {
        let idx = best[t];
        let ghost before = out@;
        proof {
            assert(best@.skip(t as int)[0] == idx);
            assert(best@.skip(t as int).drop_first() =~= best@.skip(t + 1));
        }
        if idx != 0 && idx != prev && idx - 1 < dict.len() {
            let piece = chars_of(dict[idx - 1].as_str());
            proof {
                assert(dv[idx - 1] == dict@[idx - 1]@);
            }
            let mut k: usize = 0;
            while k < piece.len()
                invariant
                    k <= piece.len(),
                    out@ == before + piece@.subrange(0, k as int),
                decreases piece.len() - k,
            {
                out.push(piece[k]);
                k = k + 1;
                proof {
                    assert(piece@.subrange(0, k as int) =~= piece@.subrange(0, k - 1).push(piece@[k - 1]));
                }
            }
            proof {
                assert(piece@.subrange(0, piece.len() as int) =~= piece@);
                assert(before + (piece@ + ctc_from(best@.skip(t + 1), dv, idx as int)) =~= out@ + ctc_from(
                    best@.skip(t + 1),
                    dv,
                    idx as int,
                ));
            }
        } else {
            proof {
                assert(out@ + (Seq::<char>::empty() + ctc_from(best@.skip(t + 1), dv, idx as int)) =~= out@
                    + ctc_from(best@.skip(t + 1), dv, idx as int));
            }
        }
        prev = idx;
        t = t + 1;
    }
    proof {
        assert(best@.skip(t as int) =~= Seq::<usize>::empty());
        assert(out@ + Seq::<char>::empty() =~= out@);
    }
    string_of(&out)
}

/// Every step is decoded, the last one too: appending a step with class
/// `i` to the classes `ix` appends exactly that step's text, which is
/// dictionary entry `i - 1` unless `i` is the blank, repeats the class of
/// the step before (or `prev` when `ix` is empty) or lies past the
/// dictionary.  In particular a single non-blank class in the dictionary
/// decodes to its entry.
pub proof fn law_ctc_decodes_each_step(ix: Seq<usize>, i: usize, dict: Seq<Seq<char>>, prev: int)
    ensures
        ({
            let before = if ix.len() == 0 { prev } else { ix.last() as int };
            ctc_from(ix.push(i), dict, prev) == ctc_from(ix, dict, prev) + (if i != 0 && i as int != before && i - 1
                < dict.len() {
                dict[i - 1]
            } else {
                Seq::empty()
            })
        }),
        i != 0 && i as int != prev && i - 1 < dict.len() ==> ctc_from(seq![i], dict, prev) == dict[i - 1],
    decreases ix.len(),
{
    assert(seq![i].drop_first() =~= Seq::<usize>::empty());
    assert(ctc_from(Seq::<usize>::empty(), dict, i as int) == Seq::<char>::empty());
    if ix.len() == 0 {
        assert(ix.push(i) =~= seq![i]);
        assert(ctc_from(seq![i], dict, prev) =~= (if i != 0 && i as int != prev && i - 1 < dict.len() {
            dict[i - 1]
        } else {
            Seq::empty()
        }));
    } else {
        let h = ix[0] as int;
        assert(ix.push(i).drop_first() =~= ix.drop_first().push(i));
        assert(ix.push(i)[0] == ix[0]);
        law_ctc_decodes_each_step(ix.drop_first(), i, dict, h);
        if ix.len() > 1 {
            assert(ix.drop_first().last() == ix.last());
        }
        let piece = if h != 0 && h != prev && h - 1 < dict.len() { dict[h - 1] } else { Seq::<char>::empty() };
        let tail = if i != 0 && i as int != (ix.last() as int) && i - 1 < dict.len() {
            dict[i - 1]
        } else {
            Seq::<char>::empty()
        };
        assert(piece + (ctc_from(ix.drop_first(), dict, h) + tail) =~= (piece + ctc_from(ix.drop_first(), dict, h))
            + tail);
    }
}

} // verus!
