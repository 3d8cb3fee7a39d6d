//! Incremental tailing of one append-only log file.
//!
//! The caller owns the I/O: it watches the file for change notifications,
//! and on each one reads the bytes between the committed cursor position
//! and the current end of file, seeking to exactly the cursor — not one
//! past it. This module owns the decisions: which complete lines those
//! bytes contain, how far the cursor advances, and when a shrunken file
//! must be surfaced instead of silently reread.

use vstd::prelude::*;

verus! {

pub open spec fn has_nl(s: Seq<u8>) -> bool {
    exists|i: int| 0 <= i < s.len() && s[i] == 10
}

/// The complete newline-terminated lines at the front of a byte block,
/// in order, without their terminators. A trailing fragment that no
/// newline has terminated yet is not a line.
pub open spec fn complete_lines(s: Seq<u8>) -> Seq<Seq<u8>>
    decreases s.len(),
{
    if s.len() == 0 {
        Seq::<Seq<u8>>::empty()
    } else if s[0] == 10 {
        seq![Seq::<u8>::empty()] + complete_lines(s.skip(1))
    } else if has_nl(s) {
        let rest = complete_lines(s.skip(1));
        seq![seq![s[0]] + rest[0]] + rest.skip(1)
    } else {
        Seq::<Seq<u8>>::empty()
    }
}

/// How many leading bytes the complete lines account for: the position
/// one past the last newline, or zero if there is none.
pub open spec fn consumed_len(s: Seq<u8>) -> int
    decreases s.len(),
{
    if s.len() == 0 {
        0
    } else if has_nl(s) {
        1 + consumed_len(s.skip(1))
    } else {
        0
    }
}

pub proof fn lemma_complete_lines_len(s: Seq<u8>)
    ensures
        has_nl(s) ==> complete_lines(s).len() >= 1,
        !has_nl(s) ==> complete_lines(s) == Seq::<Seq<u8>>::empty(),
        0 <= consumed_len(s) <= s.len(),
    decreases s.len(),
{
    if s.len() != 0 {
        if s[0] != 10 && has_nl(s) {
            let w = choose|i: int| 0 <= i < s.len() && s[i] == 10;
            assert(s.skip(1)[w - 1] == s[w]);
            assert(has_nl(s.skip(1)));
        }
        lemma_complete_lines_len(s.skip(1));
        if has_nl(s.skip(1)) {
            let w = choose|i: int| 0 <= i < s.skip(1).len() && s.skip(1)[i] == 10;
            assert(s[w + 1] == s.skip(1)[w]);
            assert(has_nl(s));
        }
    }
}

/// Reading the lines segment-wise: if no newline stands before position
/// `j`, the first line is exactly the bytes before `j`, and the remaining
/// lines are those of what follows the newline at `j`; with no newline at
/// all, nothing is a line and nothing is consumed.
pub proof fn lemma_lines_segment(s: Seq<u8>, j: int)
    requires
        0 <= j <= s.len(),
        forall|k: int| 0 <= k < j ==> s[k] != 10,
        j < s.len() ==> s[j] == 10,
    ensures
        j == s.len() ==> complete_lines(s) == Seq::<Seq<u8>>::empty() && consumed_len(s) == 0,
        j < s.len() ==> complete_lines(s) == seq![s.subrange(0, j)] + complete_lines(
            s.skip(j + 1),
        ) && consumed_len(s) == j + 1 + consumed_len(s.skip(j + 1)),
    decreases s.len(),
{
    if j == s.len() {
        assert(!has_nl(s));
    } else {
        assert(s[j] == 10);
        assert(has_nl(s));
        if j == 0 {
            assert(s.subrange(0, 0) =~= Seq::<u8>::empty());
            assert(s.subrange(1, s.len() as int) =~= s.skip(1));
            assert(complete_lines(s) =~~= seq![s.subrange(0, 0)] + complete_lines(s.skip(1)));
        } else {
            let t = s.skip(1);
            assert(forall|k: int| 0 <= k < j - 1 ==> t[k] == s[k + 1]);
            assert(t[j - 1] == s[j]);
            lemma_lines_segment(t, j - 1);
            lemma_complete_lines_len(t);
            assert(has_nl(t)) by {
                assert(t[j - 1] == 10);
            }
            let rest = complete_lines(t);
            assert(rest == seq![t.subrange(0, j - 1)] + complete_lines(t.skip(j)));
            assert(seq![s[0]] + rest[0] =~= s.subrange(0, j));
            assert(t.skip(j) =~= s.skip(j + 1));
            assert(rest.skip(1) =~= complete_lines(s.skip(j + 1)));
            assert(complete_lines(s) =~~= seq![s.subrange(0, j)] + complete_lines(s.skip(j + 1)));
            assert(consumed_len(s) == 1 + consumed_len(t));
        }
    }
}

/// The uncommitted tail is a fragment: no newline stands past the
/// consumed prefix, so nothing deliverable is ever withheld.
pub proof fn lemma_leftover_no_nl(s: Seq<u8>)
    ensures
        !has_nl(s.skip(consumed_len(s))),
    decreases s.len(),
{
    if s.len() == 0 {
        assert(s.skip(0) =~= s);
    } else if !has_nl(s) {
        assert(s.skip(0) =~= s);
    } else {
        lemma_complete_lines_len(s.skip(1));
        lemma_leftover_no_nl(s.skip(1));
        assert(s.skip(1 + consumed_len(s.skip(1))) =~= s.skip(1).skip(consumed_len(s.skip(1))));
    }
}

/// Prepending a fully consumed block: its lines come first, the rest's
/// lines after, and the consumed lengths add up.
pub proof fn lemma_lines_concat(c: Seq<u8>, t: Seq<u8>)
    requires
        consumed_len(c) == c.len(),
    ensures
        complete_lines(c + t) == complete_lines(c) + complete_lines(t),
        consumed_len(c + t) == c.len() + consumed_len(t),
    decreases c.len(),
{
    if c.len() == 0 {
        assert(c + t =~= t);
        assert(complete_lines(c) + complete_lines(t) =~= complete_lines(t));
    } else {
        assert(has_nl(c)) by {
            if !has_nl(c) {
                assert(consumed_len(c) == 0);
            }
        }
        let u = c + t;
        assert(u[0] == c[0]);
        assert(u.skip(1) =~= c.skip(1) + t);
        assert(consumed_len(c.skip(1)) == c.len() - 1);
        lemma_lines_concat(c.skip(1), t);
        assert(has_nl(u)) by {
            let w = choose|i: int| 0 <= i < c.len() && c[i] == 10;
            assert(u[w] == c[w]);
        }
        if c[0] == 10 {
            assert(complete_lines(u) =~~= complete_lines(c) + complete_lines(t));
        } else {
            assert(c.len() >= 2) by {
                if c.len() == 1 {
                    assert(!has_nl(c.skip(1)));
                    assert(consumed_len(c.skip(1)) == 0);
                }
            }
            assert(has_nl(c.skip(1))) by {
                if !has_nl(c.skip(1)) {
                    assert(consumed_len(c.skip(1)) == 0);
                }
            }
            lemma_complete_lines_len(c.skip(1));
            let rest_c = complete_lines(c.skip(1));
            let rest_u = complete_lines(u.skip(1));
            assert(rest_u == rest_c + complete_lines(t));
            assert(rest_u[0] == rest_c[0]);
            assert(rest_u.skip(1) =~= rest_c.skip(1) + complete_lines(t));
            assert(complete_lines(u) =~~= complete_lines(c) + complete_lines(t));
        }
    }
}

/// The committed prefix is fully consumed and already carries every
/// complete line of the block.
pub proof fn lemma_consumed_prefix(s: Seq<u8>)
    ensures
        consumed_len(s.take(consumed_len(s))) == consumed_len(s),
        complete_lines(s.take(consumed_len(s))) == complete_lines(s),
    decreases s.len(),
{
    lemma_complete_lines_len(s);
    if !has_nl(s) {
        assert(s.take(0) =~= Seq::<u8>::empty());
    } else {
        let cp = consumed_len(s.skip(1));
        let p = s.take(1 + cp);
        lemma_complete_lines_len(s.skip(1));
        lemma_consumed_prefix(s.skip(1));
        assert(p.skip(1) =~= s.skip(1).take(cp));
        if s[0] == 10 {
            assert(p[0] == 10);
            assert(has_nl(p));
            assert(complete_lines(p) =~~= complete_lines(s));
        } else {
            assert(has_nl(s.skip(1))) by {
                if !has_nl(s.skip(1)) {
                    assert(consumed_len(s.skip(1)) == 0);
                    let w = choose|i: int| 0 <= i < s.len() && s[i] == 10;
                    assert(s.skip(1)[w - 1] == s[w]);
                }
            }
            assert(cp >= 1) by {
                if consumed_len(s.skip(1)) == 0 {
                    lemma_leftover_no_nl(s.skip(1));
                    assert(s.skip(1).skip(0) =~= s.skip(1));
                }
            }
            assert(p[0] == s[0]);
            assert(has_nl(p.skip(1))) by {
                if !has_nl(s.skip(1).take(cp)) {
                    assert(consumed_len(s.skip(1).take(cp)) == 0);
                }
            }
            assert(has_nl(p)) by {
                let w = choose|i: int|
                    0 <= i < p.skip(1).len() && p.skip(1)[i] == 10;
                assert(p[w + 1] == p.skip(1)[w]);
            }
            assert(complete_lines(p.skip(1)) == complete_lines(s.skip(1)));
            assert(complete_lines(p) =~~= complete_lines(s));
        }
    }
}

/// No line is delivered twice and none is lost: the lines of one read,
/// followed by the lines of the next — which re-presents the uncommitted
/// fragment before the newly appended bytes — are exactly the complete
/// lines of everything appended, and the cursor advances add up the same
/// way.
pub proof fn lemma_tail_no_redelivery(b1: Seq<u8>, b2: Seq<u8>)
    ensures
        complete_lines(b1) + complete_lines(b1.skip(consumed_len(b1)) + b2) == complete_lines(
            b1 + b2,
        ),
        consumed_len(b1) + consumed_len(b1.skip(consumed_len(b1)) + b2) == consumed_len(b1 + b2),
{
    lemma_complete_lines_len(b1);
    let m = consumed_len(b1);
    let c = b1.take(m);
    let l = b1.skip(m);
    lemma_consumed_prefix(b1);
    lemma_lines_concat(c, l + b2);
    assert(c + (l + b2) =~= b1 + b2);
}

/// The resumable position of one watched file: how many leading bytes of
/// the file have been committed — read and fully accounted for as
/// delivered lines. It moves only after a successful read, and only
/// forward, to just past the last delivered newline.
pub struct WatchCursor {
    pub position: u64,
}

/// A watched file shrank below the committed cursor: resolution of the
/// cursor is undefined, and the caller must be told rather than have the
/// file silently reread from the start.
#[derive(Clone, Copy, PartialEq, Eq, Structural, Debug)]
pub enum TailError {
    FileShrunk,
}

/// React to one change notification. `file_len` is the file's current
/// length and `new_bytes` the bytes from the committed position to that
/// end (empty for a spurious notification). Emits every complete new
/// line, in arrival order, each exactly once; a trailing fragment not yet
/// newline-terminated is left uncommitted, to be emitted once later data
/// completes it. A file now shorter than the committed position is
/// reported as `FileShrunk` and moves nothing.
pub fn tail_step(cursor: &mut WatchCursor, file_len: u64, new_bytes: &Vec<u8>) -> (r: Result<
    Vec<Vec<u8>>,
    TailError,
>)
    requires
        file_len >= old(cursor).position ==> old(cursor).position + new_bytes@.len() == file_len,
    ensures
        file_len < old(cursor).position ==> r == Err::<Vec<Vec<u8>>, TailError>(
            TailError::FileShrunk,
        ) && *final(cursor) == *old(cursor),
        file_len >= old(cursor).position ==> (r matches Ok(lines) && lines@.map_values(
            |l: Vec<u8>| l@,
        ) == complete_lines(new_bytes@) && final(cursor).position == old(cursor).position
            + consumed_len(new_bytes@)),
{
    if file_len < cursor.position {
        return Err(TailError::FileShrunk);
    }
    let ghost bv = new_bytes@;
    let n = new_bytes.len();
    let mut lines: Vec<Vec<u8>> = Vec::new();
    let mut start: usize = 0;
    let mut i: usize = 0;
    proof {
        assert(bv.skip(0) =~= bv);
        assert(lines@.map_values(|l: Vec<u8>| l@) + complete_lines(bv) =~= complete_lines(bv));
    }
    while i < n
        invariant
            0 <= start as int <= i as int <= n as int,
            n == bv.len(),
            new_bytes@ == bv,
            forall|k: int| start <= k < i ==> bv[k] != 10,
            complete_lines(bv) == lines@.map_values(|l: Vec<u8>| l@) + complete_lines(
                bv.skip(start as int),
            ),
            consumed_len(bv) == start + consumed_len(bv.skip(start as int)),
        decreases n - i,
    {
        if new_bytes[i] == 10 {
            let mut line: Vec<u8> = Vec::new();
            let mut k: usize = start;
            while k < i
                invariant
                    start <= k <= i <= n,
                    n == bv.len(),
                    new_bytes@ == bv,
                    line@ == bv.subrange(start as int, k as int),
                decreases i - k,
            {
                line.push(new_bytes[k]);
                proof {
                    assert(line@ =~= bv.subrange(start as int, k + 1));
                }
                k += 1;
            }
            proof {
                let tail = bv.skip(start as int);
                assert(forall|t: int| 0 <= t < i - start ==> tail[t] == bv[t + start]);
                assert(tail[i - start] == bv[i as int]);
                lemma_lines_segment(tail, i - start);
                assert(tail.subrange(0, i - start) =~= bv.subrange(start as int, i as int));
                assert(tail.skip(i - start + 1) =~= bv.skip(i + 1));
                assert(lines@.push(line).map_values(|l: Vec<u8>| l@) =~= lines@.map_values(
                    |l: Vec<u8>| l@,
                ).push(line@));
                assert(lines@.map_values(|l: Vec<u8>| l@).push(line@) + complete_lines(
                    bv.skip(i + 1),
                ) =~= lines@.map_values(|l: Vec<u8>| l@) + (seq![
                    bv.subrange(start as int, i as int),
                ] + complete_lines(bv.skip(i + 1))));
            }
            lines.push(line);
            start = i + 1;
        }
        i += 1;
    }
    proof {
        let tail = bv.skip(start as int);
        assert(forall|t: int| 0 <= t < n - start ==> tail[t] == bv[t + start]);
        lemma_lines_segment(tail, n - start);
        assert(lines@.map_values(|l: Vec<u8>| l@) + complete_lines(tail) =~= lines@.map_values(
            |l: Vec<u8>| l@,
        ));
        lemma_complete_lines_len(bv);
    }
    cursor.position = cursor.position + (start as u64);
    Ok(lines)
}

} // verus!
