use vstd::prelude::*;

use crate::opcode::{spec_op_of, OpCode};
use vstd::pervasive::VecAdditionalExecFns;
use vstd::string::StrSliceExecFns;

verus! {

/// Translation failure: the source's loop markers do not pair up, either a
/// closer without an opener or an opener without a closer.
#[derive(Clone, Copy, Debug, PartialEq, Eq, Structural)]
pub enum ParseError {
    UnbalancedLoop,
}

/// The provisional program of a source text: the instructions of its
/// recognized symbols in source order, jump positions still the placeholder.
pub open spec fn prov(s: Seq<char>) -> Seq<OpCode>
    decreases s.len(),
{
    if s.len() == 0 {
        Seq::empty()
    } else {
        prov(s.drop_last()) + (match spec_op_of(s.last()) {
            Some(op) => seq![op],
            None => Seq::<OpCode>::empty(),
        })
    }
}

/// The contribution of one instruction to the loop-nesting depth.
pub open spec fn delta(op: OpCode) -> int {
    match op {
        OpCode::JmpFront(_) => 1,
        OpCode::JmpBack(_) => -1,
        _ => 0,
    }
}

/// The loop-nesting depth after the first `i` instructions of `p`:
/// openers seen so far minus closers seen so far.
pub open spec fn depth(p: Seq<OpCode>, i: int) -> int
    decreases i,
{
    if i <= 0 {
        0
    } else {
        depth(p, i - 1) + delta(p[i - 1])
    }
}

/// The loop markers of `p` pair up: the nesting depth never dips below zero
/// and returns to zero at the end.
pub open spec fn balanced(p: Seq<OpCode>) -> bool {
    &&& depth(p, p.len() as int) == 0
    &&& forall|i: int| 0 <= i <= p.len() ==> #[trigger] depth(p, i) >= 0
}

/// The instructions of `p` from position `a` (inclusive) to `b` (exclusive)
/// pair up among themselves: relative to the depth at `a`, the segment never
/// dips below and ends level.
pub open spec fn seg_balanced(p: Seq<OpCode>, a: int, b: int) -> bool {
    &&& depth(p, b) == depth(p, a)
    &&& forall|m: int| a <= m <= b ==> #[trigger] depth(p, m) >= depth(p, a)
}

/// `x` and `y` are the same instruction up to their jump positions.
pub open spec fn shape_eq(x: OpCode, y: OpCode) -> bool {
    match x {
        OpCode::JmpFront(_) => y is JmpFront,
        OpCode::JmpBack(_) => y is JmpBack,
        _ => y == x,
    }
}

/// `a` and `b` hold the same instructions up to jump positions.
pub open spec fn same_shape(a: Seq<OpCode>, b: Seq<OpCode>) -> bool {
    &&& a.len() == b.len()
    &&& forall|i: int| 0 <= i < a.len() ==> shape_eq(#[trigger] a[i], #[trigger] b[i])
}

/// The jump at position `i` of `p`, if any, carries its partner's position:
/// an opener points at a closer that points back (and vice versa), and the
/// instructions strictly between the two pair up among themselves.
pub open spec fn resolved_at(p: Seq<OpCode>, i: int) -> bool {
    match p[i] {
        OpCode::JmpFront(t) => {
            &&& i < t < p.len()
            &&& p[t as int] == OpCode::JmpBack(i as usize)
            &&& seg_balanced(p, i + 1, t as int)
        },
        OpCode::JmpBack(t) => {
            &&& t < i
            &&& p[t as int] == OpCode::JmpFront(i as usize)
            &&& seg_balanced(p, t + 1, i)
        },
        _ => true,
    }
}

/// Every jump of `p` carries its partner's position.
pub open spec fn resolved(p: Seq<OpCode>) -> bool {
    forall|i: int| 0 <= i < p.len() ==> #[trigger] resolved_at(p, i)
}

/// The jump at position `i` of `p`, if any, lands inside `p`.
pub open spec fn target_in_range(p: Seq<OpCode>, i: int) -> bool {
    match p[i] {
        OpCode::JmpFront(t) => t < p.len(),
        OpCode::JmpBack(t) => t < p.len(),
        _ => true,
    }
}

/// Every jump of `p` lands inside `p`: all the executor assumes of a program.
pub open spec fn prog_wf(p: Seq<OpCode>) -> bool {
    forall|i: int| 0 <= i < p.len() ==> #[trigger] target_in_range(p, i)
}

/// One pending opener during resolution: `st[k]` is an opener position left
/// of `j` at depth `k`, and the depth stays above `k` from just past it to `j`.
spec fn stack_entry_ok(g: Seq<OpCode>, st: Seq<usize>, j: int, k: int) -> bool {
    &&& st[k] < j
    &&& g[st[k] as int] is JmpFront
    &&& depth(g, st[k] as int) == k
    &&& forall|m: int| st[k] < m <= j ==> #[trigger] depth(g, m) >= k + 1
}

/// Positions `o` and `z` of `c` hold a finished pair: an opener pointing at
/// a closer pointing back, with a balanced segment strictly between.
spec fn pair_ok(c: Seq<OpCode>, g: Seq<OpCode>, o: int, z: int) -> bool {
    &&& 0 <= o < z < c.len()
    &&& c[o] == OpCode::JmpFront(z as usize)
    &&& c[z] == OpCode::JmpBack(o as usize)
    &&& seg_balanced(g, o + 1, z)
}

/// The jump at position `p`, if any, is either still pending on the stack
/// (an opener) or part of a finished pair lying entirely left of `j`.
spec fn jump_resolved(c: Seq<OpCode>, g: Seq<OpCode>, st: Seq<usize>, j: int, p: int) -> bool {
    match c[p] {
        OpCode::JmpFront(t) => st.contains(p as usize) || (t < j && pair_ok(c, g, p, t as int)),
        OpCode::JmpBack(t) => pair_ok(c, g, t as int, p) && !st.contains(t as usize),
        _ => true,
    }
}

/// Programs of the same shape have the same depths: depth reads only the
/// kind of each instruction, never a jump position.
proof fn lemma_depth_same_shape(a: Seq<OpCode>, b: Seq<OpCode>, i: int)
    requires
        same_shape(a, b),
        0 <= i <= a.len(),
    ensures
        depth(a, i) == depth(b, i),
    decreases i,
{
    if i > 0 {
        lemma_depth_same_shape(a, b, i - 1);
        assert(shape_eq(a[i - 1], b[i - 1]));
    }
}

/// No opener has two partners: a closer with a balanced segment before it
/// is the first return to the opener's level, the same in both programs; a
/// later one would have to dip below that level first.
proof fn lemma_closer_unique(a: Seq<OpCode>, b: Seq<OpCode>, i: int, ta: int, tb: int)
    requires
        same_shape(a, b),
        0 <= i < a.len(),
        i < ta < a.len(),
        a[ta] is JmpBack,
        seg_balanced(a, i + 1, ta),
        i < tb < b.len(),
        b[tb] is JmpBack,
        seg_balanced(b, i + 1, tb),
    ensures
        ta == tb,
{
    assert forall|m: int| 0 <= m <= a.len() implies #[trigger] depth(a, m) == depth(b, m) by {
        lemma_depth_same_shape(a, b, m);
    }
    if ta < tb {
        assert(depth(a, ta) == depth(a, i + 1));
        assert(delta(a[ta]) == -1);
        assert(depth(a, ta + 1) == depth(a, i + 1) - 1);
        assert(depth(b, ta + 1) >= depth(b, i + 1));
        assert(false);
    } else if tb < ta {
        assert(depth(b, tb) == depth(b, i + 1));
        assert(delta(b[tb]) == -1);
        assert(depth(b, tb + 1) == depth(b, i + 1) - 1);
        assert(depth(a, tb + 1) >= depth(a, i + 1));
        assert(false);
    }
}

/// The pairing is exact: programs of the same shape admit at most one
/// resolution, so a translated program is fully determined by which
/// characters its source holds.
pub proof fn lemma_resolution_unique(a: Seq<OpCode>, b: Seq<OpCode>)
    requires
        a.len() <= usize::MAX,
        same_shape(a, b),
        resolved(a),
        resolved(b),
    ensures
        a =~= b,
{
    assert forall|i: int| 0 <= i < a.len() && a[i] is JmpFront implies a[i] == b[i] by {
        assert(resolved_at(a, i));
        assert(resolved_at(b, i));
        assert(shape_eq(a[i], b[i]));
        let ta = a[i]->JmpFront_0 as int;
        let tb = b[i]->JmpFront_0 as int;
        assert(a[ta] is JmpBack);
        assert(b[tb] is JmpBack);
        if ta < tb {
            lemma_closer_unique(a, b, i, ta, tb);
        } else if tb < ta {
            lemma_closer_unique(b, a, i, tb, ta);
        }
    }
    assert forall|i: int| 0 <= i < a.len() implies a[i] == b[i] by {
        assert(resolved_at(a, i));
        assert(resolved_at(b, i));
        assert(shape_eq(a[i], b[i]));
        match a[i] {
            OpCode::JmpFront(_) => {}
            OpCode::JmpBack(t) => {
                let o = t as int;
                assert(a[o] == OpCode::JmpFront(i as usize));
                assert(a[o] is JmpFront);
                assert(a[o] == b[o]);
                assert(resolved_at(b, o));
                let t2 = b[o]->JmpFront_0 as int;
                assert(t2 == i);
                assert(b[t2] == OpCode::JmpBack(o as usize));
                assert(b[i] == OpCode::JmpBack(t));
            }
            _ => {}
        }
    }
}

/// A fully resolved program is well formed: each jump position is its
/// partner's, which lies inside the program.
pub proof fn lemma_resolved_implies_wf(p: Seq<OpCode>)
    requires
        resolved(p),
    ensures
        prog_wf(p),
{
    assert forall|i: int| 0 <= i < p.len() implies #[trigger] target_in_range(p, i) by {
        assert(resolved_at(p, i));
    }
}

/// A source text of comment characters alone translates to the empty
/// program, which is balanced.
pub proof fn lemma_comments_only(s: Seq<char>)
    requires
        forall|i: int| 0 <= i < s.len() ==> spec_op_of(#[trigger] s[i]) is None,
    ensures
        prov(s) == Seq::<OpCode>::empty(),
        balanced(prov(s)),
    decreases s.len(),
{
    if s.len() > 0 {
        assert(forall|i: int|
            0 <= i < s.drop_last().len() ==> spec_op_of(#[trigger] s.drop_last()[i]) is None);
        lemma_comments_only(s.drop_last());
        assert(spec_op_of(s.last()) is None);
        assert(prov(s) =~= Seq::<OpCode>::empty());
    } else {
        assert(prov(s) =~= Seq::<OpCode>::empty());
    }
}

/// Translate source text into an executable program.
///
/// The recognized symbols of the text become instructions in source order;
/// every other character is a comment and leaves no instruction behind. The
/// translation succeeds exactly when the text's loop markers are balanced,
/// and then every jump carries its partner's position; otherwise it fails
/// with the unbalanced-loop error, whether a closer lacks an opener or an
/// opener lacks a closer.
pub fn parse_bf(input: &str) -> (r: Result<Vec<OpCode>, ParseError>)
    ensures
        (r matches Ok(code) ==> balanced(prov(input@)) && same_shape(prov(input@), code@)
            && resolved(code@)),
        (r matches Err(e) ==> !balanced(prov(input@)) && e == ParseError::UnbalancedLoop),
{
    let n_chars = input.unicode_len();
    let mut code: Vec<OpCode> = Vec::new();
    let mut i: usize = 0;
    while i < n_chars
        invariant
            i <= n_chars,
            n_chars == input@.len(),
            code@ == prov(input@.subrange(0, i as int)),
        decreases n_chars - i,
    {
        let c = input.get_char(i);
        match OpCode::try_from(c) {
            Ok(op) => code.push(op),
            Err(_) => {}
        }
        proof {
            let pre = input@.subrange(0, i as int);
            let post = input@.subrange(0, i + 1 as int);
            assert(post.drop_last() =~= pre);
            assert(post.last() == input@[i as int]);
        }
        i += 1;
    }
    proof {
        assert(input@.subrange(0, n_chars as int) =~= input@);
    }

    let ghost g = code@;
    let n = code.len();
    let mut stack: Vec<usize> = Vec::new();
    let mut j: usize = 0;
    while j < n
        invariant
            j <= n,
            n == code@.len(),
            g == prov(input@),
            g.len() == n,
            same_shape(g, code@),
            depth(g, j as int) == stack@.len(),
            forall|m: int| 0 <= m <= j ==> #[trigger] depth(g, m) >= 0,
            forall|k: int| 0 <= k < stack@.len() ==> #[trigger] stack_entry_ok(g, stack@, j as int, k),
            forall|p: int| 0 <= p < j ==> #[trigger] jump_resolved(code@, g, stack@, j as int, p),
        decreases n - j,
    {
        let ghost st_pre = stack@;
        let ghost ji = j as int;
        let op = code[j];
        proof {
            assert(shape_eq(g[ji], code@[ji]));
        }
        match op {
            OpCode::JmpFront(_) => {
                stack.push(j);
                proof {
                    let st1 = stack@;
                    assert(st1 == st_pre.push(j));
                    assert(depth(g, ji + 1) == st1.len());
                    assert forall|k: int| 0 <= k < st1.len() implies #[trigger] stack_entry_ok(
                        g,
                        st1,
                        ji + 1,
                        k,
                    ) by {
                        if k < st_pre.len() {
                            assert(stack_entry_ok(g, st_pre, ji, k));
                            assert(st1[k] == st_pre[k]);
                        } else {
                            assert(st1[k] == j);
                        }
                    }
                    assert forall|p: int| 0 <= p < ji + 1 implies #[trigger] jump_resolved(
                        code@,
                        g,
                        st1,
                        ji + 1,
                        p,
                    ) by {
                        if p < ji {
                            assert(jump_resolved(code@, g, st_pre, ji, p));
                            match code@[p] {
                                OpCode::JmpFront(_) => {
                                    if st_pre.contains(p as usize) {
                                        let w = choose|w: int|
                                            0 <= w < st_pre.len() && st_pre[w] == p as usize;
                                        assert(st1[w] == p as usize);
                                        assert(st1.contains(p as usize));
                                    }
                                }
                                OpCode::JmpBack(t) => {
                                    // the partner opener lies left of p, so the
                                    // freshly pushed j is not it
                                    assert(pair_ok(code@, g, t as int, p));
                                    assert forall|w: int| 0 <= w < st1.len() implies st1[w] != t by {
                                        if w < st_pre.len() {
                                            assert(st1[w] == st_pre[w]);
                                        } else {
                                            assert(st1[w] == j);
                                        }
                                    }
                                    assert(!st1.contains(t));
                                }
                                _ => {}
                            }
                        } else {
                            assert(st1[st1.len() - 1] == j);
                            assert(st1.contains(j as usize));
                        }
                    }
                }
            }
            OpCode::JmpBack(_) => {
                let popped = stack.pop();
                match popped {
                    None => {
                        proof {
                            assert(depth(g, ji) == 0);
                            assert(delta(g[ji]) == -1);
                            assert(depth(g, ji + 1) == -1);
                            assert(!balanced(g));
                        }
                        return Err(ParseError::UnbalancedLoop);
                    }
                    Some(p) => {
                        proof {
                            assert(st_pre =~= stack@.push(p));
                            assert(stack_entry_ok(g, st_pre, ji, st_pre.len() - 1));
                        }
                        let ghost c0 = code@;
                        code.set(p, OpCode::JmpFront(j));
                        code.set(j, OpCode::JmpBack(p));
                        proof {
                            let st1 = stack@;
                            let c1 = code@;
                            let pi = p as int;
                            // the popped opener sits one depth below the closer
                            assert(depth(g, pi) == st1.len());
                            assert(depth(g, pi + 1) == st1.len() + 1);
                            assert(depth(g, ji + 1) == st1.len());
                            // shapes survive the two position updates
                            assert(g[ji] is JmpBack);
                            assert forall|q: int| 0 <= q < g.len() implies shape_eq(
                                #[trigger] g[q],
                                #[trigger] c1[q],
                            ) by {
                                if q != pi && q != ji {
                                    assert(shape_eq(g[q], c0[q]));
                                }
                            }
                            // the new pair is finished: the segment between the
                            // two positions never dips below the closer's depth
                            assert(seg_balanced(g, pi + 1, ji));
                            assert(pair_ok(c1, g, pi, ji));
                            // remaining stack entries still pend at j + 1
                            assert forall|k: int| 0 <= k < st1.len() implies #[trigger] stack_entry_ok(
                                g,
                                st1,
                                ji + 1,
                                k,
                            ) by {
                                assert(stack_entry_ok(g, st_pre, ji, k));
                                assert(st_pre[k] == st1[k]);
                            }
                            // the popped position is not among the remaining
                            // entries: entries carry pairwise distinct depths
                            assert forall|k: int| 0 <= k < st1.len() implies st1[k] != p by {
                                assert(stack_entry_ok(g, st_pre, ji, k));
                            }
                            assert(!st1.contains(p));
                            // every jump left of j + 1 is pending or finished
                            assert forall|q: int| 0 <= q < ji + 1 implies #[trigger] jump_resolved(
                                c1,
                                g,
                                st1,
                                ji + 1,
                                q,
                            ) by {
                                if q == ji {
                                    assert(c1[q] == OpCode::JmpBack(p));
                                } else if q == pi {
                                    assert(c1[q] == OpCode::JmpFront(j));
                                } else {
                                    assert(jump_resolved(c0, g, st_pre, ji, q));
                                    lemma_jump_resolved_after_pair(c0, c1, g, st_pre, st1, ji, pi, q);
                                }
                            }
                        }
                    }
                }
            }
            _ => {
                proof {
                    assert(delta(g[ji]) == 0);
                    assert forall|k: int| 0 <= k < stack@.len() implies #[trigger] stack_entry_ok(
                        g,
                        stack@,
                        ji + 1,
                        k,
                    ) by {
                        assert(stack_entry_ok(g, st_pre, ji, k));
                    }
                    assert forall|p: int| 0 <= p < ji + 1 implies #[trigger] jump_resolved(
                        code@,
                        g,
                        stack@,
                        ji + 1,
                        p,
                    ) by {
                        if p < ji {
                            assert(jump_resolved(code@, g, st_pre, ji, p));
                        }
                    }
                }
            }
        }
        j += 1;
    }
    if stack.len() > 0 {
        proof {
            assert(depth(g, n as int) == stack@.len());
            assert(!balanced(g));
        }
        return Err(ParseError::UnbalancedLoop);
    }
    proof {
        assert(balanced(g));
        assert forall|idx: int| 0 <= idx <= n implies #[trigger] depth(code@, idx) == depth(g, idx) by {
            lemma_depth_same_shape(g, code@, idx);
        }
        assert forall|p: int| 0 <= p < n implies #[trigger] resolved_at(code@, p) by {
            assert(jump_resolved(code@, g, stack@, n as int, p));
            match code@[p] {
                OpCode::JmpFront(t) => {
                    assert(pair_ok(code@, g, p, t as int));
                    assert(seg_balanced(code@, p + 1, t as int));
                }
                OpCode::JmpBack(t) => {
                    assert(pair_ok(code@, g, t as int, p));
                    assert(seg_balanced(code@, t + 1, p));
                }
                _ => {}
            }
        }
    }
    Ok(code)
}

/// A jump finished before this iteration stays finished once the popped
/// opener and the current closer are written: neither update touches it or
/// its partner.
proof fn lemma_jump_resolved_after_pair(
    c0: Seq<OpCode>,
    c1: Seq<OpCode>,
    g: Seq<OpCode>,
    st0: Seq<usize>,
    st1: Seq<usize>,
    j: int,
    p: int,
    q: int,
)
    requires
        st0.len() > 0,
        st1 =~= st0.drop_last(),
        c0.len() <= usize::MAX,
        0 <= p < j < c0.len(),
        st0[st0.len() - 1] == p as usize,
        c1 == c0.update(p, OpCode::JmpFront(j as usize)).update(j, OpCode::JmpBack(p as usize)),
        same_shape(g, c0),
        g[p] is JmpFront,
        g[j] is JmpBack,
        0 <= q < j,
        q != p,
        jump_resolved(c0, g, st0, j, q),
        forall|k: int| 0 <= k < st0.len() ==> #[trigger] stack_entry_ok(g, st0, j, k),
    ensures
        jump_resolved(c1, g, st1, j + 1, q),
{
    assert(c1[q] == c0[q]);
    match c0[q] {
        OpCode::JmpFront(t) => {
            if st0.contains(q as usize) {
                let k = choose|k: int| 0 <= k < st0.len() && st0[k] == q as usize;
                assert(stack_entry_ok(g, st0, j, k));
                if k < st0.len() - 1 {
                    assert(st1[k] == q as usize);
                    assert(st1.contains(q as usize));
                } else {
                    assert(st0[k] == p as usize);
                    assert(false);
                }
            } else {
                // a finished opener's partner is a closer left of j: untouched
                let ti = t as int;
                assert(pair_ok(c0, g, q, ti));
                assert(shape_eq(g[p], c0[p]));
                assert(c0[ti] is JmpBack && c0[p] is JmpFront);
                assert(ti != p && ti != j);
                assert(c1[ti] == c0[ti]);
            }
        }
        OpCode::JmpBack(t) => {
            let ti = t as int;
            assert(pair_ok(c0, g, ti, q));
            assert(shape_eq(g[p], c0[p]));
            assert(c0[ti] is JmpFront && c0[p] is JmpFront);
            assert(ti < q < j);
            assert(ti != p);
            assert(c1[ti] == c0[ti]);
            assert forall|w: int| 0 <= w < st1.len() implies st1[w] != t by {
                assert(st1[w] == st0[w]);
                assert(!st0.contains(t));
            }
            assert(!st1.contains(t));
        }
        _ => {}
    }
}


} // verus!
