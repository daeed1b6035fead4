//! Looking for terminators: the places in a run of bytes where one of the patterns of a CPU
//! profile matches.
use vstd::prelude::*;
use crate::cpu::{pattern_wf, patterns_view, patterns_wf, PatternModel};
use crate::session::RopProfileStrategy;

verus! {

/// Whether the pattern matches the bytes from offset `k` on: the pattern fits inside `bytes`
/// there, and every byte under its mask is the opcode byte.
pub open spec fn matches_at(bytes: Seq<u8>, p: PatternModel, k: int) -> bool {
    &&& 0 <= k
    &&& k + p.0.len() <= bytes.len()
    &&& forall|i: int| 0 <= i < p.0.len() ==> bytes[k + i] & p.1[i] == #[trigger] p.0[i]
}

/// The matches of one pattern that start at an offset from `lo` up to `hi`, by ascending
/// offset. A match is the pair of its offset and the length of the pattern.
pub open spec fn pattern_matches(bytes: Seq<u8>, p: PatternModel, lo: int, hi: int) -> Seq<
    (usize, usize),
>
    decreases hi - lo,
{
    if hi <= lo {
        Seq::empty()
    } else {
        let before = pattern_matches(bytes, p, lo, hi - 1);
        if matches_at(bytes, p, hi - 1) {
            before.push(((hi - 1) as usize, p.0.len() as usize))
        } else {
            before
        }
    }
}

/// The matches of a group of patterns that start at an offset from `lo` up to `hi`: those of
/// the first pattern, then those of the second, and so on. With `fast`, the patterns that
/// follow the first one with a match are not tried.
pub open spec fn candidates(
    bytes: Seq<u8>,
    patterns: Seq<PatternModel>,
    fast: bool,
    lo: int,
    hi: int,
) -> Seq<(usize, usize)>
    decreases patterns.len(),
{
    if patterns.len() == 0 {
        Seq::empty()
    } else {
        let first = pattern_matches(bytes, patterns[0], lo, hi);
        if first.len() > 0 && fast {
            first
        } else {
            first + candidates(bytes, patterns.drop_first(), fast, lo, hi)
        }
    }
}

/// Whether the pattern matches the bytes from offset `k` on.
fn pattern_matches_at(bytes: &Vec<u8>, opcode: &Vec<u8>, mask: &Vec<u8>, k: usize) -> (b: bool)
    requires
        opcode@.len() == mask@.len(),
    ensures
        b == matches_at(bytes@, (opcode@, mask@), k as int),
{
    let n: usize = opcode.len();
    if bytes.len() < n || k > bytes.len() - n {
        return false;
    }
    let mut i: usize = 0;
    while i < n
        invariant
            i <= n,
            n == opcode@.len(),
            n == mask@.len(),
            k + n <= bytes.len(),
            forall|j: int| 0 <= j < i ==> bytes@[k + j] & mask@[j] == #[trigger] opcode@[j],
        decreases n - i,
    {
        if bytes[k + i] & mask[i] != opcode[i] {
            return false;
        }
        i = i + 1;
    }
    true
}

/// Searches the bytes for the patterns of a group, among the offsets from `lo` up to `hi`.
///
/// The matches come pattern by pattern, in the order of the group, and by ascending offset
/// under one pattern. Matches may overlap, and one offset may be listed under several
/// patterns. The fast strategy stops at the first pattern that matches anywhere.
pub fn scan_patterns(
    strategy: RopProfileStrategy,
    group: &Vec<(Vec<u8>, Vec<u8>)>,
    bytes: &Vec<u8>,
    lo: usize,
    hi: usize,
) -> (out: Vec<(usize, usize)>)
    requires
        patterns_wf(patterns_view(group@)),
    ensures
        out@ == candidates(
            bytes@,
            patterns_view(group@),
            strategy == RopProfileStrategy::Fast,
            lo as int,
            hi as int,
        ),
{
    let ghost wanted = candidates(
        bytes@,
        patterns_view(group@),
        strategy == RopProfileStrategy::Fast,
        lo as int,
        hi as int,
    );
    let ghost patterns = patterns_view(group@);
    let ghost fast = strategy == RopProfileStrategy::Fast;
    proof {
        lemma_candidates_inside(bytes@, patterns, fast, lo as int, hi as int);
    }
    // no pattern matches at the end of the bytes or behind it
    let hi: usize = if hi < bytes.len() {
        hi
    } else {
        bytes.len()
    };
    let lo: usize = if lo < hi {
        lo
    } else {
        hi
    };
    let mut out: Vec<(usize, usize)> = Vec::new();
    let mut g: usize = 0;
    assert(patterns.skip(0) =~= patterns);
    while g < group.len()
        invariant_except_break
            g <= group@.len(),
            patterns == patterns_view(group@),
            patterns_wf(patterns),
            fast == (strategy == RopProfileStrategy::Fast),
            lo <= hi,
            candidates(bytes@, patterns, fast, lo as int, hi as int) == wanted,
            candidates(bytes@, patterns, fast, lo as int, hi as int) == out@ + candidates(
                bytes@,
                patterns.skip(g as int),
                fast,
                lo as int,
                hi as int,
            ),
        ensures
            out@ == candidates(bytes@, patterns, fast, lo as int, hi as int),
            candidates(bytes@, patterns, fast, lo as int, hi as int) == wanted,
        decreases group@.len() - g,
    {
        let opcode = &group[g].0;
        let mask = &group[g].1;
        let ghost p = patterns[g as int];
        assert(p == (opcode@, mask@));
        assert(pattern_wf(p));
        let ghost seen = out@;
        let mut found: Vec<(usize, usize)> = Vec::new();
        let bytes_length: usize = opcode.len();
        let mut k: usize = lo;
        while k < hi
            invariant
                lo <= k <= hi,
                p == (opcode@, mask@),
                opcode@.len() == mask@.len(),
                bytes_length == opcode@.len(),
                found@ == pattern_matches(bytes@, p, lo as int, k as int),
            decreases hi - k,
        {
            if pattern_matches_at(bytes, opcode, mask, k) {
                found.push((k, bytes_length));
            }
            k = k + 1;
        }
        let ghost first = pattern_matches(bytes@, p, lo as int, hi as int);
        let ghost rest = candidates(bytes@, patterns.skip(g + 1), fast, lo as int, hi as int);
        proof {
            assert(found@ == first);
            assert(patterns.skip(g as int).len() > 0);
            assert(patterns.skip(g as int)[0] == p);
            assert(patterns.skip(g as int).drop_first() =~= patterns.skip(g + 1));
            assert(candidates(bytes@, patterns.skip(g as int), fast, lo as int, hi as int) == if first.len()
                > 0 && fast {
                first
            } else {
                first + rest
            });
        }
        let any: bool = found.len() > 0;
        out.append(&mut found);
        assert(out@ == seen + first);
        if any {
            match strategy {
                RopProfileStrategy::Fast => {
                    break ;
                },
                RopProfileStrategy::Complete => {},
            }
        }
        proof {
            assert(seen + (first + rest) =~= (seen + first) + rest);
        }
        g = g + 1;
    }
    proof {
        if g == group@.len() {
            assert(patterns.skip(g as int) =~= Seq::<PatternModel>::empty());
        }
    }
    out
}

/// The offset `x`, or the offset `end` if that comes first.
pub open spec fn spec_at_most(x: int, end: int) -> int {
    if x < end {
        x
    } else {
        end
    }
}

/// A pattern has no match at the end of the bytes or behind it: the matches from `lo` up to
/// `hi` are those among the offsets that lie in the bytes.
pub proof fn lemma_pattern_matches_inside(bytes: Seq<u8>, p: PatternModel, lo: int, hi: int)
    requires
        pattern_wf(p),
    ensures
        pattern_matches(bytes, p, lo, hi) == pattern_matches(
            bytes,
            p,
            spec_at_most(lo, spec_at_most(hi, bytes.len() as int)),
            spec_at_most(hi, bytes.len() as int),
        ),
    decreases hi - lo,
{
    if lo < hi && hi > bytes.len() {
        assert(!matches_at(bytes, p, hi - 1));
        lemma_pattern_matches_inside(bytes, p, lo, hi - 1);
    }
}

/// The candidates from `lo` up to `hi` are those among the offsets that lie in the bytes.
pub proof fn lemma_candidates_inside(
    bytes: Seq<u8>,
    patterns: Seq<PatternModel>,
    fast: bool,
    lo: int,
    hi: int,
)
    requires
        patterns_wf(patterns),
    ensures
        candidates(bytes, patterns, fast, lo, hi) == candidates(
            bytes,
            patterns,
            fast,
            spec_at_most(lo, spec_at_most(hi, bytes.len() as int)),
            spec_at_most(hi, bytes.len() as int),
        ),
    decreases patterns.len(),
{
    if patterns.len() > 0 {
        lemma_pattern_matches_inside(bytes, patterns[0], lo, hi);
        assert forall|k: int| 0 <= k < patterns.drop_first().len() implies pattern_wf(
            #[trigger] patterns.drop_first()[k],
        ) by {
            assert(patterns.drop_first()[k] == patterns[k + 1]);
        }
        lemma_candidates_inside(bytes, patterns.drop_first(), fast, lo, hi);
    }
}

/// Every match of one pattern is listed once, where it lies, and nothing else is listed; the
/// offsets ascend.
pub proof fn lemma_pattern_matches(bytes: Seq<u8>, p: PatternModel, lo: int, hi: int)
    requires
        0 <= lo,
        hi <= usize::MAX,
        p.0.len() <= usize::MAX,
    ensures
        forall|j: int|
            0 <= j < pattern_matches(bytes, p, lo, hi).len() ==> {
                let m = #[trigger] pattern_matches(bytes, p, lo, hi)[j];
                &&& lo <= m.0 < hi
                &&& m.1 == p.0.len()
                &&& matches_at(bytes, p, m.0 as int)
            },
        forall|k: int|
            lo <= k < hi && matches_at(bytes, p, k) ==> pattern_matches(bytes, p, lo, hi).contains(
                (k as usize, p.0.len() as usize),
            ),
        forall|i: int, j: int|
            0 <= i < j < pattern_matches(bytes, p, lo, hi).len() ==> pattern_matches(
                bytes,
                p,
                lo,
                hi,
            )[i].0 < pattern_matches(bytes, p, lo, hi)[j].0,
    decreases hi - lo,
{
    if hi > lo {
        lemma_pattern_matches(bytes, p, lo, hi - 1);
        let before = pattern_matches(bytes, p, lo, hi - 1);
        let all = pattern_matches(bytes, p, lo, hi);
        assert forall|k: int| lo <= k < hi && matches_at(bytes, p, k) implies all.contains(
            (k as usize, p.0.len() as usize),
        ) by {
            if k == hi - 1 {
                assert(all[all.len() - 1] == ((k as usize, p.0.len() as usize)));
            } else {
                assert(before.contains((k as usize, p.0.len() as usize)));
                let j = choose|j: int|
                    0 <= j < before.len() && before[j] == (k as usize, p.0.len() as usize);
                assert(all[j] == before[j]);
            }
        }
    }
}

/// Whether `m` is a match of one of the patterns, at an offset from `lo` up to `hi`.
pub open spec fn is_match_of(
    bytes: Seq<u8>,
    patterns: Seq<PatternModel>,
    lo: int,
    hi: int,
    m: (usize, usize),
) -> bool {
    exists|k: int|
        0 <= k < patterns.len() && #[trigger] matches_at(bytes, patterns[k], m.0 as int) && m.1
            == patterns[k].0.len() && lo <= m.0 < hi
}

/// Every candidate is a match of one of the patterns, at an offset from `lo` up to `hi`.
pub proof fn lemma_candidates_match(
    bytes: Seq<u8>,
    patterns: Seq<PatternModel>,
    fast: bool,
    lo: int,
    hi: int,
)
    requires
        0 <= lo,
        hi <= usize::MAX,
        forall|k: int| 0 <= k < patterns.len() ==> (#[trigger] patterns[k]).0.len() <= usize::MAX,
    ensures
        forall|j: int|
            0 <= j < candidates(bytes, patterns, fast, lo, hi).len() ==> is_match_of(
                bytes,
                patterns,
                lo,
                hi,
                #[trigger] candidates(bytes, patterns, fast, lo, hi)[j],
            ),
    decreases patterns.len(),
{
    if patterns.len() > 0 {
        let first = pattern_matches(bytes, patterns[0], lo, hi);
        let rest = candidates(bytes, patterns.drop_first(), fast, lo, hi);
        let all = candidates(bytes, patterns, fast, lo, hi);
        lemma_pattern_matches(bytes, patterns[0], lo, hi);
        lemma_candidates_match(bytes, patterns.drop_first(), fast, lo, hi);
        assert forall|j: int| 0 <= j < all.len() implies is_match_of(
            bytes,
            patterns,
            lo,
            hi,
            #[trigger] all[j],
        ) by {
            if j < first.len() {
                assert(all[j] == first[j]);
                assert(matches_at(bytes, patterns[0], all[j].0 as int));
            } else {
                let m = rest[j - first.len()];
                assert(all[j] == m);
                assert(is_match_of(bytes, patterns.drop_first(), lo, hi, m));
                let k = choose|k: int|
                    0 <= k < patterns.drop_first().len() && #[trigger] matches_at(
                        bytes,
                        patterns.drop_first()[k],
                        m.0 as int,
                    ) && m.1 == patterns.drop_first()[k].0.len() && lo <= m.0 < hi;
                assert(patterns.drop_first()[k] == patterns[k + 1]);
                assert(matches_at(bytes, patterns[k + 1], m.0 as int));
            }
        }
    }
}

/// The number of bytes that one worker searches for terminators, where `nb_thread` workers
/// share `len` bytes: an equal share, and at least one byte. Where no worker at all is asked
/// for, one worker gets all the bytes.
pub open spec fn spec_chunk_size(len: int, nb_thread: int) -> int {
    let workers = if nb_thread <= 0 {
        1
    } else {
        nb_thread
    };
    if len / workers < 1 {
        1
    } else {
        len / workers
    }
}

/// The number of bytes that one worker searches for terminators.
pub fn chunk_size(len: usize, nb_thread: u8) -> (chunk: usize)
    ensures
        chunk == spec_chunk_size(len as int, nb_thread as int),
        chunk >= 1,
{
    let workers: usize = if nb_thread == 0 {
        1
    } else {
        nb_thread as usize
    };
    let share: usize = len / workers;
    if share < 1 {
        1
    } else {
        share
    }
}

/// The offset at which the chunk that starts at `cursor` is searched from: the cursor, as
/// long as it lies in the section.
pub open spec fn spec_chunk_start(len: int, cursor: int) -> int {
    if cursor < len {
        cursor
    } else {
        len
    }
}

/// The offset just behind the chunk that starts at `cursor`.
pub open spec fn spec_chunk_end(len: int, nb_thread: int, cursor: int) -> int {
    if cursor + spec_chunk_size(len, nb_thread) < len {
        cursor + spec_chunk_size(len, nb_thread)
    } else {
        len
    }
}

} // verus!
