//! Properties that relate several calls of the engine, proved over the
//! specifications the functions are verified against.

use vstd::prelude::*;
use crate::text::{ends_with_nl, is_white_space, join_spec, lines_spec, split_nl, strip_cr, trim_end_spec};
use crate::hashing::{file_digest, line_hash};
use crate::anchor::{candidate_index, lemma_matches_upto, line_hashes, matches_upto, resolve_in};
use crate::ops::{apply_spec, plan_all, plan_op, sort_desc, insert_desc, HashlineOperation};

verus! {

proof fn lemma_trim_end_append_white(s: Seq<char>, w: Seq<char>)
    requires
        forall|i: int| 0 <= i < w.len() ==> is_white_space(#[trigger] w[i]),
    ensures
        trim_end_spec(s + w) == trim_end_spec(s),
    decreases w.len(),
{
    if w.len() > 0 {
        assert((s + w).drop_last() =~= s + w.drop_last());
        assert(is_white_space(w[w.len() - 1]));
        lemma_trim_end_append_white(s, w.drop_last());
    } else {
        assert(s + w =~= s);
    }
}

/// Appending trailing whitespace to a line does not change its hash.
pub proof fn lemma_hash_ignores_trailing_whitespace(s: Seq<char>, w: Seq<char>)
    requires
        forall|i: int| 0 <= i < w.len() ==> is_white_space(#[trigger] w[i]),
    ensures
        line_hash(s + w) == line_hash(s),
{
    lemma_trim_end_append_white(s, w);
}

/// The digest of a text depends on its characters alone: two reads of the
/// same content give the same digest.
pub proof fn lemma_digest_deterministic(a: Seq<char>, b: Seq<char>)
    requires
        a == b,
    ensures
        file_digest(a) == file_digest(b),
{
}

/// No carriage return stands right before a newline.
pub open spec fn no_crlf(s: Seq<char>) -> bool {
    forall|i: int| 0 < i < s.len() && s[i] == '\n' ==> #[trigger] s[i - 1] != '\r'
}

proof fn lemma_split_nl(s: Seq<char>)
    requires
        no_crlf(s),
    ensures
        split_nl(s).len() >= 1,
        join_spec(split_nl(s)) == s,
        split_nl(s).last().len() > 0 ==> s.len() > 0 && split_nl(s).last().last() == s.last(),
        forall|i: int| 0 <= i < split_nl(s).len() - 1 ==> strip_cr(#[trigger] split_nl(s)[i]) == split_nl(s)[i],
    decreases s.len(),
{
    if s.len() > 0 {
        let d = s.drop_last();
        assert(no_crlf(d)) by {
            assert forall|i: int| 0 < i < d.len() && d[i] == '\n' implies #[trigger] d[i - 1] != '\r' by {
                assert(s[i] == '\n');
            }
        }
        lemma_split_nl(d);
        let p = split_nl(d);
        if s.last() == '\n' {
            let q = p.push(Seq::<char>::empty());
            assert(q.drop_last() =~= p);
            assert(join_spec(q) =~= s);
            assert forall|i: int| 0 <= i < q.len() - 1 implies strip_cr(#[trigger] q[i]) == q[i] by {
                if i == p.len() - 1 && p.last().len() > 0 {
                    assert(s[s.len() - 1] == '\n');
                    assert(s[s.len() - 2] == d.last());
                }
            }
        } else {
            let q = p.update(p.len() - 1, p.last().push(s.last()));
            assert(d.push(s.last()) =~= s);
            if p.len() == 1 {
                assert(join_spec(p) == p[0]);
                assert(join_spec(q) == q[0]);
                assert(q[0] == p[0].push(s.last()));
                assert(join_spec(q) =~= s);
            } else {
                assert(q.drop_last() =~= p.drop_last());
                assert(join_spec(p) == join_spec(p.drop_last()) + seq!['\n'] + p.last());
                assert(join_spec(q) == join_spec(p.drop_last()) + seq!['\n'] + q.last());
                assert(q.last() == p.last().push(s.last()));
                assert(join_spec(q) =~= s);
            }
            assert forall|i: int| 0 <= i < q.len() - 1 implies strip_cr(#[trigger] q[i]) == q[i] by {
                assert(q[i] == p[i]);
            }
        }
    }
}

/// An empty batch gives the content back unchanged, final newline included,
/// for every text with no `\r\n` terminator.
pub proof fn lemma_empty_batch_round_trip(s: Seq<char>)
    requires
        no_crlf(s),
    ensures
        apply_spec(s, Seq::<HashlineOperation>::empty()) == Ok::<Seq<char>, crate::anchor::HashlineError>(s),
{
    lemma_split_nl(s);
    let p = split_nl(s);
    let lines = lines_spec(s);
    assert(sort_desc(Seq::<crate::ops::EditPlan>::empty()) == Seq::<crate::ops::EditPlan>::empty());
    if s.len() == 0 {
        assert(join_spec(lines) =~= s);
    } else if ends_with_nl(s) {
        let d = s.drop_last();
        assert(p.drop_last() == split_nl(d));
        assert(no_crlf(d)) by {
            assert forall|i: int| 0 < i < d.len() && d[i] == '\n' implies #[trigger] d[i - 1] != '\r' by {
                assert(s[i] == '\n');
            }
        }
        lemma_split_nl(d);
        assert(lines =~= p.drop_last());
        assert(join_spec(lines) + seq!['\n'] =~= s);
    } else {
        assert(lines =~= p);
    }
}

/// Two operations whose anchors resolve, to different start lines, give the
/// same outcome in either order.
pub proof fn lemma_batch_order_independent(content: Seq<char>, a: HashlineOperation, b: HashlineOperation)
    requires
        plan_op(line_hashes(lines_spec(content)), a) is Ok,
        plan_op(line_hashes(lines_spec(content)), b) is Ok,
        plan_op(line_hashes(lines_spec(content)), a)->Ok_0.start != plan_op(line_hashes(lines_spec(content)), b)->Ok_0.start,
    ensures
        apply_spec(content, seq![a, b]) == apply_spec(content, seq![b, a]),
{
    let lines = line_hashes(lines_spec(content));
    reveal_with_fuel(plan_all, 3);
    reveal_with_fuel(sort_desc, 3);
    reveal_with_fuel(insert_desc, 3);
    let pa = plan_op(lines, a)->Ok_0;
    let pb = plan_op(lines, b)->Ok_0;
    assert(seq![a, b].drop_last() =~= seq![a]);
    assert(seq![b, a].drop_last() =~= seq![b]);
    assert(seq![a].drop_last() =~= Seq::<HashlineOperation>::empty());
    assert(seq![b].drop_last() =~= Seq::<HashlineOperation>::empty());
    assert(Seq::<crate::ops::EditPlan>::empty().push(pa) =~= seq![pa]);
    assert(Seq::<crate::ops::EditPlan>::empty().push(pb) =~= seq![pb]);
    assert(seq![a].last() == a);
    assert(seq![b].last() == b);
    assert(plan_all(lines, seq![a]) == Ok::<Seq<crate::ops::EditPlan>, crate::anchor::HashlineError>(seq![pa]));
    assert(plan_all(lines, seq![b]) == Ok::<Seq<crate::ops::EditPlan>, crate::anchor::HashlineError>(seq![pb]));
    let sab = seq![pa, pb];
    let sba = seq![pb, pa];
    assert(sab.drop_last() =~= seq![pa]);
    assert(sba.drop_last() =~= seq![pb]);
    assert(seq![pa].drop_last() =~= Seq::<crate::ops::EditPlan>::empty());
    assert(seq![pb].drop_last() =~= Seq::<crate::ops::EditPlan>::empty());
    assert(insert_desc(Seq::<crate::ops::EditPlan>::empty(), pa) == seq![pa]);
    assert(insert_desc(Seq::<crate::ops::EditPlan>::empty(), pb) == seq![pb]);
    assert(sort_desc(seq![pa]) == seq![pa]);
    assert(sort_desc(seq![pb]) == seq![pb]);
    assert(seq![pa].drop_first() =~= Seq::<crate::ops::EditPlan>::empty());
    assert(seq![pb].drop_first() =~= Seq::<crate::ops::EditPlan>::empty());
    assert(seq![pa][0] == pa);
    assert(seq![pb][0] == pb);
    assert(seq![pa] + seq![pb] =~= seq![pa, pb]);
    assert(seq![pb] + seq![pa] =~= seq![pb, pa]);
    if pa.start < pb.start {
        assert(insert_desc(seq![pa], pb) =~= seq![pb, pa]);
        assert(insert_desc(seq![pb], pa) =~= seq![pb, pa]);
    } else {
        assert(insert_desc(seq![pa], pb) =~= seq![pa, pb]);
        assert(insert_desc(seq![pb], pa) =~= seq![pa, pb]);
    }
    assert(sort_desc(sab) == sort_desc(sba));
}

proof fn lemma_matches_complete(hs: Seq<Seq<char>>, h: Seq<char>, n: int)
    requires
        0 <= n <= hs.len(),
    ensures
        forall|j: int| 0 <= j < n && #[trigger] hs[j] == h ==> matches_upto(hs, h, n).contains(j),
    decreases n,
{
    if n > 0 {
        lemma_matches_complete(hs, h, n - 1);
        let m = matches_upto(hs, h, n - 1);
        assert forall|j: int| 0 <= j < n && #[trigger] hs[j] == h implies matches_upto(hs, h, n).contains(j) by {
            if j < n - 1 {
                let k = choose|k: int| 0 <= k < m.len() && m[k] == j;
                assert(matches_upto(hs, h, n)[k] == j);
            } else {
                assert(matches_upto(hs, h, n)[m.len() as int] == j);
            }
        }
    }
}

/// A resolved anchor lands on a line with its hash; when the line number
/// missed, that line is the only one with the hash; an anchor that is not
/// found has its hash on no line.
pub proof fn lemma_resolution_is_exact_or_unique(hs: Seq<Seq<char>>, line_num: usize, h: Seq<char>)
    ensures
        resolve_in(hs, line_num, h) matches Ok(i) ==> 0 <= i < hs.len() && hs[i] == h,
        resolve_in(hs, line_num, h) is Ok && !(0 <= candidate_index(line_num) < hs.len()
            && hs[candidate_index(line_num)] == h) ==> forall|j: int|
            0 <= j < hs.len() && #[trigger] hs[j] == h ==> j == resolve_in(hs, line_num, h)->Ok_0,
        resolve_in(hs, line_num, h) == Err::<int, nat>(0) ==> forall|j: int| 0 <= j < hs.len() ==> #[trigger] hs[j] != h,
{
    lemma_matches_upto(hs, h, hs.len() as int);
    lemma_matches_complete(hs, h, hs.len() as int);
}

} // verus!
