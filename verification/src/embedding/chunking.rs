//! Splitting text into overlapping chunks of bounded length.
//!
//! A chunk ends at the last whitespace of the window when that keeps more
//! than half the window, and the next chunk starts `overlap` characters
//! before the end of the previous one.

use vstd::prelude::*;
use crate::text::{chars_of, is_whitespace, is_ws, lemma_trim_len, string_of, strs, trim, trim_chars};

verus! {

/// The window length actually used: at least one character.
pub open spec fn eff_max(max_chars: nat) -> nat {
    if max_chars == 0 {
        1
    } else {
        max_chars
    }
}

/// The overlap actually used: less than the window.
pub open spec fn eff_overlap(max_chars: nat, overlap: nat) -> nat {
    let m = eff_max(max_chars);
    if overlap < m - 1 {
        overlap
    } else {
        (m - 1) as nat
    }
}

/// Moving back from `b` towards `start` until just after a whitespace.
pub open spec fn back_from(cs: Seq<char>, start: int, b: int) -> int
    decreases b - start,
{
    if b > start && !is_ws(cs[b - 1]) {
        back_from(cs, start, b - 1)
    } else {
        b
    }
}

/// Where the chunk starting at `start` ends.
pub open spec fn end_at(cs: Seq<char>, start: int, max: nat) -> int {
    let e0 = if start + max < cs.len() {
        start + max
    } else {
        cs.len() as int
    };
    if e0 < cs.len() && back_from(cs, start, e0) > start + max / 2 {
        back_from(cs, start, e0)
    } else {
        e0
    }
}

/// Where the chunk after the one on `start..end` starts.
pub open spec fn next_start(start: int, end: int, ov: nat) -> int {
    let step_back = if ov < end - start {
        ov as int
    } else {
        end - start
    };
    if step_back == 0 {
        end + 1
    } else {
        end - step_back
    }
}

/// Whether splitting from `start` comes to an end: every step moves forward.
pub open spec fn halts_from(cs: Seq<char>, start: int, max: nat, ov: nat) -> bool
    decreases cs.len() - start,
{
    if start < 0 || start >= cs.len() {
        true
    } else {
        let e = end_at(cs, start, max);
        if e >= cs.len() {
            true
        } else {
            let n = next_start(start, e, ov);
            if n <= start || n > cs.len() {
                false
            } else {
                halts_from(cs, n, max, ov)
            }
        }
    }
}

/// The chunks from `start` on: each window trimmed, empty ones left out.
pub open spec fn chunks_from(cs: Seq<char>, start: int, max: nat, ov: nat) -> Seq<Seq<char>>
    decreases cs.len() - start,
{
    if start < 0 || start >= cs.len() {
        Seq::empty()
    } else {
        let e = end_at(cs, start, max);
        let c = trim(cs.subrange(start, e));
        let here = if c.len() > 0 {
            seq![c]
        } else {
            Seq::empty()
        };
        if e >= cs.len() {
            here
        } else {
            let n = next_start(start, e, ov);
            if n <= start || n > cs.len() {
                here
            } else {
                here + chunks_from(cs, n, max, ov)
            }
        }
    }
}

/// Whether splitting `text` comes to an end.
pub open spec fn split_halts(text: Seq<char>, max_chars: nat, overlap: nat) -> bool {
    halts_from(trim(text), 0, eff_max(max_chars), eff_overlap(max_chars, overlap))
}

/// The chunks of `text`.
pub open spec fn text_chunks(text: Seq<char>, max_chars: nat, overlap: nat) -> Seq<Seq<char>> {
    chunks_from(trim(text), 0, eff_max(max_chars), eff_overlap(max_chars, overlap))
}

/// The back position lies between `start` and `b`.
proof fn lemma_back_from_range(cs: Seq<char>, start: int, b: int)
    requires
        start <= b,
    ensures
        start <= back_from(cs, start, b) <= b,
    decreases b - start,
{
    if b > start && !is_ws(cs[b - 1]) {
        lemma_back_from_range(cs, start, b - 1);
    }
}

/// A chunk ends after it starts and at most one window later.
proof fn lemma_end_at_range(cs: Seq<char>, start: int, max: nat)
    requires
        0 <= start < cs.len(),
        max >= 1,
    ensures
        start < end_at(cs, start, max) <= cs.len(),
        end_at(cs, start, max) <= start + max,
{
    let e0 = if start + max < cs.len() {
        start + max
    } else {
        cs.len() as int
    };
    lemma_back_from_range(cs, start, e0);
}

/// With an overlap of at most half the window, splitting always ends.
pub proof fn lemma_halts_with_small_overlap(cs: Seq<char>, start: int, max: nat, ov: nat)
    requires
        max >= 1,
        2 * ov <= max,
        0 <= start,
    ensures
        halts_from(cs, start, max, ov),
    decreases cs.len() - start,
{
    if start < cs.len() {
        lemma_end_at_range(cs, start, max);
        let e = end_at(cs, start, max);
        if e < cs.len() {
            let e0 = if start + max < cs.len() {
                start + max
            } else {
                cs.len() as int
            };
            assert(e - start > ov) by {
                if e != e0 {
                    assert(back_from(cs, start, e0) > start + max / 2);
                }
            }
            lemma_halts_with_small_overlap(cs, next_start(start, e, ov), max, ov);
        }
    }
}

/// Every chunk is non-empty and no longer than the window.
pub proof fn lemma_chunks_bounded(cs: Seq<char>, start: int, max: nat, ov: nat)
    requires
        max >= 1,
    ensures
        forall|i: int| 0 <= i < chunks_from(cs, start, max, ov).len() ==> 0 < (
        #[trigger] chunks_from(cs, start, max, ov)[i]).len() <= max,
    decreases cs.len() - start,
{
    if 0 <= start < cs.len() {
        lemma_end_at_range(cs, start, max);
        let e = end_at(cs, start, max);
        lemma_trim_len(cs.subrange(start, e));
        let c = trim(cs.subrange(start, e));
        let here = if c.len() > 0 {
            seq![c]
        } else {
            Seq::<Seq<char>>::empty()
        };
        if e < cs.len() {
            let n = next_start(start, e, ov);
            if n > start && n <= cs.len() {
                lemma_chunks_bounded(cs, n, max, ov);
                let rest = chunks_from(cs, n, max, ov);
                assert forall|i: int| 0 <= i < (here + rest).len() implies 0 < (#[trigger] (here + rest)[i]).len()
                    <= max by {
                    if i >= here.len() {
                        assert((here + rest)[i] == rest[i - here.len()]);
                    }
                }
            }
        }
    }
}

/// Split `text` into chunks of at most `max_chars` characters (at least
/// one), each trimmed and non-empty, successive chunks overlapping by
/// `overlap` characters (less than a window). The caller makes sure that
/// the splitting comes to an end (it always does when the overlap is at
/// most half the window).
pub fn split_text_with_overlap(text: &str, max_chars: usize, overlap: usize) -> (r: Vec<String>)
    requires
        split_halts(text@, max_chars as nat, overlap as nat),
    ensures
        strs(r@) == text_chunks(text@, max_chars as nat, overlap as nat),
        forall|i: int| 0 <= i < r@.len() ==> 0 < (#[trigger] r@[i])@.len() <= eff_max(max_chars as nat),
{
    let tv = chars_of(text);
    let chars = trim_chars(tv.as_slice());
    let ghost cs = chars@;
    let ghost mx = eff_max(max_chars as nat);
    let ghost ov = eff_overlap(max_chars as nat, overlap as nat);
    proof {
        lemma_chunks_bounded(cs, 0, mx, ov);
    }
    if chars.len() == 0 {
        return Vec::new();
    }
    let len = chars.len();
    let mut chunks: Vec<String> = Vec::new();
    let mut start: usize = 0;
    let window: usize = if max_chars == 0 {
        1
    } else {
        max_chars
    };
    let ov_used: usize = if overlap < window - 1 {
        overlap
    } else {
        window - 1
    };
    assert(window == mx && ov_used == ov);
    loop
        invariant
            cs == chars@,
            cs == trim(text@),
            len == cs.len() > 0,
            start < len,
            mx == eff_max(max_chars as nat),
            ov == eff_overlap(max_chars as nat, overlap as nat),
            window == mx >= 1,
            ov_used == ov,
            forall|i: int| 0 <= i < chunks_from(cs, 0, mx, ov).len() ==> 0 < (
            #[trigger] chunks_from(cs, 0, mx, ov)[i]).len() <= mx,
            halts_from(cs, start as int, mx, ov),
            strs(chunks@) + chunks_from(cs, start as int, mx, ov) == chunks_from(cs, 0, mx, ov),
        decreases len - start,
    {
        proof {
            lemma_end_at_range(cs, start as int, mx);
        }
        let mut end: usize = if window < len - start {
            start + window
        } else {
            len
        };
        let ghost e0 = end as int;
        if end < len {
            let mut back = end;
            while back > start && !is_whitespace(chars[back - 1])
                invariant
                    start <= back <= end < len,
                    len == cs.len(),
                    cs == chars@,
                    back_from(cs, start as int, back as int) == back_from(cs, start as int, e0),
                decreases back,
            {
                back = back - 1;
            }
            if back > start + window / 2 {
                end = back;
            }
        }
        assert(end as int == end_at(cs, start as int, mx));
        if end == start {
            end = if window < len - start {
                start + window
            } else {
                len
            };
        }
        let mut piece: Vec<char> = Vec::new();
        let mut k = start;
        while k < end
            invariant
                start <= k <= end <= len,
                len == cs.len(),
                cs == chars@,
                piece@ == cs.subrange(start as int, k as int),
            decreases end - k,
        {
            piece.push(chars[k]);
            k = k + 1;
        }
        let trimmed = trim_chars(piece.as_slice());
        let ghost before = strs(chunks@);
        let ghost here = if trimmed@.len() > 0 {
            seq![trimmed@]
        } else {
            Seq::<Seq<char>>::empty()
        };
        if trimmed.len() > 0 {
            let chunk = string_of(trimmed.as_slice());
            chunks.push(chunk);
            assert(strs(chunks@) =~= before + here);
        } else {
            assert(strs(chunks@) =~= before + here);
        }
        if end == len {
            assert(chunks_from(cs, start as int, mx, ov) == here);
            assert(strs(chunks@) == chunks_from(cs, 0, mx, ov));
            assert forall|i: int| 0 <= i < chunks@.len() implies 0 < (#[trigger] chunks@[i])@.len() <= mx by {
                assert(chunks@[i]@ == strs(chunks@)[i]);
            }
            return chunks;
        }
        let step_back: usize = if ov_used < end - start {
            ov_used
        } else {
            end - start
        };
        let next = if step_back == 0 {
            end + 1
        } else {
            end - step_back
        };
        assert(next as int == next_start(start as int, end as int, ov));
        assert(chunks_from(cs, start as int, mx, ov) == here + chunks_from(cs, next as int, mx, ov));
        assert(strs(chunks@) + chunks_from(cs, next as int, mx, ov) =~= before + (here + chunks_from(
            cs,
            next as int,
            mx,
            ov,
        )));
        if next >= len {
            assert(chunks_from(cs, next as int, mx, ov) == Seq::<Seq<char>>::empty());
            assert(strs(chunks@) == chunks_from(cs, 0, mx, ov));
            assert forall|i: int| 0 <= i < chunks@.len() implies 0 < (#[trigger] chunks@[i])@.len() <= mx by {
                assert(chunks@[i]@ == strs(chunks@)[i]);
            }
            return chunks;
        }
        start = next;
    }
}

/// Whether splitting `text` into chunks of `max_chars` overlapping by
/// `overlap` comes to an end: every step moves forward.
pub fn split_comes_to_end(text: &str, max_chars: usize, overlap: usize) -> (b: bool)
    ensures
        b == split_halts(text@, max_chars as nat, overlap as nat),
{
    let tv = chars_of(text);
    let chars = trim_chars(tv.as_slice());
    let ghost cs = chars@;
    let ghost mx = eff_max(max_chars as nat);
    let ghost ov = eff_overlap(max_chars as nat, overlap as nat);
    let len = chars.len();
    if len == 0 {
        return true;
    }
    let window: usize = if max_chars == 0 {
        1
    } else {
        max_chars
    };
    let ov_used: usize = if overlap < window - 1 {
        overlap
    } else {
        window - 1
    };
    let mut start: usize = 0;
    loop
        invariant
            cs == chars@,
            cs == trim(text@),
            len == cs.len() > 0,
            start < len,
            mx == eff_max(max_chars as nat),
            ov == eff_overlap(max_chars as nat, overlap as nat),
            window == mx >= 1,
            ov_used == ov,
            halts_from(cs, start as int, mx, ov) == halts_from(cs, 0, mx, ov),
        decreases len - start,
    {
        proof {
            lemma_end_at_range(cs, start as int, mx);
        }
        let mut end: usize = if window < len - start {
            start + window
        } else {
            len
        };
        let ghost e0 = end as int;
        if end < len {
            let mut back = end;
            while back > start && !is_whitespace(chars[back - 1])
                invariant
                    start <= back <= end < len,
                    len == cs.len(),
                    cs == chars@,
                    back_from(cs, start as int, back as int) == back_from(cs, start as int, e0),
                decreases back,
            {
                back = back - 1;
            }
            if back > start + window / 2 {
                end = back;
            }
        }
        assert(end as int == end_at(cs, start as int, mx));
        if end == len {
            return true;
        }
        let step_back: usize = if ov_used < end - start {
            ov_used
        } else {
            end - start
        };
        let next = if step_back == 0 {
            end + 1
        } else {
            end - step_back
        };
        assert(next as int == next_start(start as int, end as int, ov));
        if next <= start || next > len {
            return false;
        }
        assert(halts_from(cs, start as int, mx, ov) == halts_from(cs, next as int, mx, ov));
        if next == len {
            assert(halts_from(cs, next as int, mx, ov));
            return true;
        }
        start = next;
    }
}

/// The number of characters of `text`.
pub fn char_len(text: &str) -> (n: usize)
    ensures
        n == text@.len(),
{
    chars_of(text).len()
}

/// The first `max_chars` characters of `text` (at least one).
pub open spec fn truncated(text: Seq<char>, max_chars: nat) -> Seq<char> {
    let m = eff_max(max_chars);
    if text.len() <= m {
        text
    } else {
        text.take(m as int)
    }
}

/// Truncate `text` to its first `max_chars` characters (at least one).
pub fn truncate_to_chars(text: &str, max_chars: usize) -> (r: String)
    ensures
        r@ == truncated(text@, max_chars as nat),
{
    let cs = chars_of(text);
    let m: usize = if max_chars == 0 {
        1
    } else {
        max_chars
    };
    let mut out: Vec<char> = Vec::new();
    let mut i: usize = 0;
    while i < cs.len() && i < m
        invariant
            i <= cs@.len(),
            i <= m,
            out@ == cs@.take(i as int),
        decreases cs@.len() - i,
    {
        out.push(cs[i]);
        assert(cs@.take(i + 1) == cs@.take(i as int).push(cs@[i as int]));
        i = i + 1;
    }
    assert(cs@.take(cs@.len() as int) == cs@);
    string_of(out.as_slice())
}

} // verus!
