//! Edit operations and their application to a text as one batch.

use vstd::prelude::*;
use crate::text::{chars_of, ends_with_nl, join_lines, join_spec, lines_of, lines_spec, push_char, texts};
use crate::anchor::{hash_lines, line_hashes, resolve_error, resolve_hashed, resolve_in, str_texts, HashlineError, LineAnchor};

verus! {

/// The four kinds of edit.
#[derive(Clone, Copy, Debug, PartialEq, Eq, Structural)]
pub enum OperationType {
    Replace,
    InsertAfter,
    InsertBefore,
    Delete,
}

/// One edit: what to do, at which anchor, up to which anchor (inclusive),
/// and the text to put in.
pub struct HashlineOperation {
    pub op_type: OperationType,
    pub anchor: LineAnchor,
    pub end_anchor: Option<LineAnchor>,
    pub content: Option<String>,
}

/// An operation with its anchors resolved against the original lines.
pub struct EditPlan {
    pub start: int,
    pub end: Option<int>,
    pub kind: OperationType,
    pub insert: Seq<Seq<char>>,
}

/// The lines an operation puts in: none without content.
pub open spec fn inserted(content: Option<String>) -> Seq<Seq<char>> {
    match content {
        Some(c) => lines_spec(c@),
        None => Seq::empty(),
    }
}

pub open spec fn is_range_kind(k: OperationType) -> bool {
    k == OperationType::Replace || k == OperationType::Delete
}

/// Resolves the anchors of one operation against lines with hashes `hs`.
pub open spec fn plan_op(hs: Seq<Seq<char>>, op: HashlineOperation) -> Result<EditPlan, HashlineError> {
    match resolve_in(hs, op.anchor.line_num, op.anchor.hash@) {
        Err(n) => Err(resolve_error(op.anchor, n)),
        Ok(s) => match op.end_anchor {
            None => Ok(EditPlan { start: s, end: None, kind: op.op_type, insert: inserted(op.content) }),
            Some(e) => match resolve_in(hs, e.line_num, e.hash@) {
                Err(n) => Err(resolve_error(e, n)),
                Ok(t) => if is_range_kind(op.op_type) && t < s {
                    Err(HashlineError::InvertedRange)
                } else {
                    Ok(EditPlan { start: s, end: Some(t), kind: op.op_type, insert: inserted(op.content) })
                },
            },
        },
    }
}

/// Resolves a whole batch; the first operation that fails decides the error.
pub open spec fn plan_all(hs: Seq<Seq<char>>, ops: Seq<HashlineOperation>) -> Result<Seq<EditPlan>, HashlineError>
    decreases ops.len(),
{
    if ops.len() == 0 {
        Ok(Seq::empty())
    } else {
        match plan_all(hs, ops.drop_last()) {
            Err(e) => Err(e),
            Ok(ps) => match plan_op(hs, ops.last()) {
                Err(e) => Err(e),
                Ok(p) => Ok(ps.push(p)),
            },
        }
    }
}

/// Puts `x` into a sequence ordered by descending start, after every plan
/// whose start is not below its own.
pub open spec fn insert_desc(s: Seq<EditPlan>, x: EditPlan) -> Seq<EditPlan>
    decreases s.len(),
{
    if s.len() == 0 {
        seq![x]
    } else if s[0].start < x.start {
        seq![x] + s
    } else {
        seq![s[0]] + insert_desc(s.drop_first(), x)
    }
}

/// Plans ordered by descending start; plans with equal starts keep their order.
pub open spec fn sort_desc(s: Seq<EditPlan>) -> Seq<EditPlan>
    decreases s.len(),
{
    if s.len() == 0 {
        Seq::empty()
    } else {
        insert_desc(sort_desc(s.drop_last()), s.last())
    }
}

/// How many lines a replace or delete removes.
pub open spec fn span_len(p: EditPlan) -> int {
    match p.end {
        Some(e) => e - p.start + 1,
        None => 1,
    }
}

/// One plan applied to the lines as they are at its turn.
pub open spec fn apply_one(l: Seq<Seq<char>>, p: EditPlan) -> Result<Seq<Seq<char>>, HashlineError> {
    let s = p.start;
    let n = span_len(p);
    match p.kind {
        OperationType::Replace => if s + n <= l.len() {
            Ok(l.take(s) + p.insert + l.skip(s + n))
        } else {
            Err(HashlineError::RangeOutOfBounds)
        },
        OperationType::Delete => if s + n <= l.len() {
            Ok(l.take(s) + l.skip(s + n))
        } else {
            Err(HashlineError::RangeOutOfBounds)
        },
        OperationType::InsertAfter => if s + 1 <= l.len() {
            Ok(l.take(s + 1) + p.insert + l.skip(s + 1))
        } else {
            Err(HashlineError::RangeOutOfBounds)
        },
        OperationType::InsertBefore => if s <= l.len() {
            Ok(l.take(s) + p.insert + l.skip(s))
        } else {
            Err(HashlineError::RangeOutOfBounds)
        },
    }
}

/// The plans applied one after the other.
pub open spec fn apply_seq(l: Seq<Seq<char>>, ps: Seq<EditPlan>) -> Result<Seq<Seq<char>>, HashlineError>
    decreases ps.len(),
{
    if ps.len() == 0 {
        Ok(l)
    } else {
        match apply_seq(l, ps.drop_last()) {
            Err(e) => Err(e),
            Ok(m) => apply_one(m, ps.last()),
        }
    }
}

/// The lines joined, with a final newline when the original text had one.
pub open spec fn render(out: Seq<Seq<char>>, final_nl: bool) -> Seq<char> {
    if final_nl { join_spec(out) + seq!['\n'] } else { join_spec(out) }
}

/// The outcome of a batch on a text: every anchor is resolved against the
/// original lines, then the operations are applied from the highest start down.
pub open spec fn apply_spec(content: Seq<char>, ops: Seq<HashlineOperation>) -> Result<Seq<char>, HashlineError> {
    let lines = lines_spec(content);
    match plan_all(line_hashes(lines), ops) {
        Err(e) => Err(e),
        Ok(ps) => match apply_seq(lines, sort_desc(ps)) {
            Err(e) => Err(e),
            Ok(out) => Ok(render(out, ends_with_nl(content))),
        },
    }
}

/// An operation whose anchors are resolved, in executable form.
pub struct ResolvedEdit {
    pub start: usize,
    pub end: Option<usize>,
    pub kind: OperationType,
    pub new_lines: Vec<String>,
}

impl ResolvedEdit {
    pub open spec fn plan(&self) -> EditPlan {
        EditPlan {
            start: self.start as int,
            end: match self.end {
                Some(e) => Some(e as int),
                None => None,
            },
            kind: self.kind,
            insert: texts(self.new_lines@),
        }
    }
}

pub open spec fn plans(v: Seq<ResolvedEdit>) -> Seq<EditPlan> {
    v.map_values(|r: ResolvedEdit| r.plan())
}

proof fn lemma_plan_all_err(hs: Seq<Seq<char>>, ops: Seq<HashlineOperation>, j: int)
    requires
        0 <= j <= ops.len(),
        plan_all(hs, ops.take(j)) is Err,
    ensures
        plan_all(hs, ops) == plan_all(hs, ops.take(j)),
    decreases ops.len(),
{
    if j == ops.len() {
        assert(ops.take(j) =~= ops);
    } else {
        assert(ops.drop_last().take(j) =~= ops.take(j));
        lemma_plan_all_err(hs, ops.drop_last(), j);
    }
}

proof fn lemma_apply_seq_err(l: Seq<Seq<char>>, ps: Seq<EditPlan>, j: int)
    requires
        0 <= j <= ps.len(),
        apply_seq(l, ps.take(j)) is Err,
    ensures
        apply_seq(l, ps) == apply_seq(l, ps.take(j)),
    decreases ps.len(),
{
    if j == ps.len() {
        assert(ps.take(j) =~= ps);
    } else {
        assert(ps.drop_last().take(j) =~= ps.take(j));
        lemma_apply_seq_err(l, ps.drop_last(), j);
    }
}

proof fn lemma_insert_desc_at(s: Seq<EditPlan>, x: EditPlan, p: int)
    requires
        0 <= p <= s.len(),
        forall|j: int| 0 <= j < p ==> #[trigger] s[j].start >= x.start,
        p < s.len() ==> s[p].start < x.start,
    ensures
        insert_desc(s, x) == s.take(p) + seq![x] + s.skip(p),
    decreases p,
{
    if p == 0 {
        if s.len() > 0 {
            assert(s.skip(0) =~= s);
        }
        assert(s.take(0) + seq![x] + s.skip(p) =~= seq![x] + s);
    } else {
        assert forall|j: int| 0 <= j < p - 1 implies #[trigger] s.drop_first()[j].start >= x.start by {
            assert(s[j + 1].start >= x.start);
        }
        lemma_insert_desc_at(s.drop_first(), x, p - 1);
        assert(seq![s[0]] + (s.drop_first().take(p - 1) + seq![x] + s.drop_first().skip(p - 1))
            =~= s.take(p) + seq![x] + s.skip(p));
    }
}

/// Puts `x` into `sorted` as `insert_desc` does.
fn insert_sorted(sorted: &mut Vec<ResolvedEdit>, x: ResolvedEdit) -> (p: usize)
    ensures
        p <= old(sorted)@.len(),
        final(sorted)@ == old(sorted)@.insert(p as int, x),
        plans(final(sorted)@) == insert_desc(plans(old(sorted)@), x.plan()),
{
    let mut p: usize = 0;
    while p < sorted.len() && sorted[p].start >= x.start
        invariant
            p <= sorted.len(),
            forall|j: int| 0 <= j < p ==> #[trigger] sorted@[j].start >= x.start,
        decreases sorted.len() - p,
    {
        p = p + 1;
    }
    let ghost before = plans(sorted@);
    proof {
        lemma_insert_desc_at(before, x.plan(), p as int);
    }
    sorted.insert(p, x);
    assert(plans(sorted@) =~= before.take(p as int) + seq![x.plan()] + before.skip(p as int));
    p
}

/// The lines of the content of an operation.
fn inserted_lines(content: &Option<String>) -> (r: Vec<String>)
    ensures
        texts(r@) == inserted(*content),
{
    match content {
        Some(c) => lines_of(c.as_str()),
        None => {
            let r: Vec<String> = Vec::new();
            assert(texts(r@) =~= Seq::<Seq<char>>::empty());
            r
        },
    }
}

/// Resolves the anchors of one operation.
fn plan_operation(hashes: &Vec<String>, op: &HashlineOperation) -> (r: Result<ResolvedEdit, HashlineError>)
    ensures
        match plan_op(texts(hashes@), *op) {
            Ok(p) => r matches Ok(x) && x.plan() == p && x.start < hashes@.len()
                && (x.end matches Some(e) ==> e < hashes@.len()),
            Err(e) => r matches Err(x) && x == e,
        },
{
    let start = match resolve_hashed(hashes, &op.anchor) {
        Ok(i) => i,
        Err(e) => return Err(e),
    };
    let end = match &op.end_anchor {
        None => None,
        Some(ea) => match resolve_hashed(hashes, ea) {
            Ok(t) => {
                let ranged = match op.op_type {
                    OperationType::Replace | OperationType::Delete => true,
                    _ => false,
                };
                if ranged && t < start {
                    return Err(HashlineError::InvertedRange);
                }
                Some(t)
            },
            Err(e) => return Err(e),
        },
    };
    let new_lines = inserted_lines(&op.content);
    Ok(ResolvedEdit { start, end, kind: op.op_type, new_lines })
}

/// `lines` with `remove` lines at `at` replaced by `new_lines`.
fn splice(lines: Vec<String>, at: usize, remove: usize, new_lines: &Vec<String>) -> (r: Vec<String>)
    requires
        at + remove <= lines@.len(),
    ensures
        texts(r@) == texts(lines@).take(at as int) + texts(new_lines@) + texts(lines@).skip(at + remove),
{
    let ghost l = texts(lines@);
    let mut head = lines;
    let mut tail = head.split_off(at);
    let mut rest = tail.split_off(remove);
    assert(texts(head@) =~= l.take(at as int));
    assert(texts(rest@) =~= l.skip(at + remove));
    let ghost h0 = texts(head@);
    let mut j: usize = 0;
    while j < new_lines.len()
        invariant
            j <= new_lines.len(),
            texts(head@) == h0 + texts(new_lines@).take(j as int),
        decreases new_lines.len() - j,
    {
        let ghost hb = head@;
        let c = new_lines[j].clone();
        assert(c@ == texts(new_lines@)[j as int]);
        head.push(c);
        assert(texts(head@) =~= texts(hb).push(c@));
        assert(texts(head@) =~= h0 + texts(new_lines@).take(j + 1));
        j = j + 1;
    }
    assert(texts(new_lines@).take(j as int) =~= texts(new_lines@));
    let ghost h1 = texts(head@);
    head.append(&mut rest);
    assert(texts(head@) =~= h1 + l.skip(at + remove));
    head
}

/// Applies one resolved operation to the current lines.
fn apply_edit(lines: Vec<String>, e: &ResolvedEdit) -> (r: Result<Vec<String>, HashlineError>)
    requires
        e.end matches Some(t) ==> (is_range_kind(e.kind) ==> e.start <= t) && t < usize::MAX,
        e.start < usize::MAX,
    ensures
        match apply_one(texts(lines@), e.plan()) {
            Ok(l) => r matches Ok(x) && texts(x@) == l,
            Err(err) => r matches Err(x) && x == err,
        },
{
    let n = lines.len();
    match e.kind {
        OperationType::Replace => {
            let count = match e.end { Some(t) => t - e.start + 1, None => 1 };
            if count <= n && e.start <= n - count {
                Ok(splice(lines, e.start, count, &e.new_lines))
            } else {
                Err(HashlineError::RangeOutOfBounds)
            }
        },
        OperationType::Delete => {
            let count = match e.end { Some(t) => t - e.start + 1, None => 1 };
            if count <= n && e.start <= n - count {
                let none: Vec<String> = Vec::new();
                let r = splice(lines, e.start, count, &none);
                assert(texts(none@) =~= Seq::<Seq<char>>::empty());
                assert(texts(r@) =~= texts(lines@).take(e.start as int) + texts(lines@).skip(e.start + count));
                Ok(r)
            } else {
                Err(HashlineError::RangeOutOfBounds)
            }
        },
        OperationType::InsertAfter => {
            if e.start < n {
                Ok(splice(lines, e.start + 1, 0, &e.new_lines))
            } else {
                Err(HashlineError::RangeOutOfBounds)
            }
        },
        OperationType::InsertBefore => {
            if e.start <= n {
                Ok(splice(lines, e.start, 0, &e.new_lines))
            } else {
                Err(HashlineError::RangeOutOfBounds)
            }
        },
    }
}

/// Applies a batch of operations to a text. All anchors are resolved against
/// the original lines before anything changes; the operations are then applied
/// from the highest start index down, and a final newline is kept.
pub fn apply_operations(content: &str, operations: Vec<HashlineOperation>) -> (r: Result<String, HashlineError>)
    ensures
        match apply_spec(content@, operations@) {
            Ok(s) => r matches Ok(x) && x@ == s,
            Err(e) => r matches Err(x) && x == e,
        },
{
    let lines = lines_of(content);
    let ghost ls = texts(lines@);
    let mut refs: Vec<&str> = Vec::new();
    let mut i: usize = 0;
    while i < lines.len()
        invariant
            i <= lines.len(),
            ls == texts(lines@),
            str_texts(refs@) == ls.take(i as int),
        decreases lines.len() - i,
    {
        let ghost rb = refs@;
        let t = lines[i].as_str();
        refs.push(t);
        assert(str_texts(refs@) =~= str_texts(rb).push(t@));
        assert(str_texts(refs@) =~= ls.take(i + 1));
        i = i + 1;
    }
    assert(ls.take(i as int) =~= ls);
    let hashes = hash_lines(refs.as_slice());
    let ghost hs = line_hashes(ls);
    let ghost ops = operations@;
    let ghost nl = refs@.len();
    let mut sorted: Vec<ResolvedEdit> = Vec::new();
    let mut k: usize = 0;
    while k < operations.len()
        invariant
            k <= operations.len(),
            ops == operations@,
            str_texts(refs@) == ls,
            nl == refs@.len(),
            nl <= usize::MAX,
            nl == ls.len(),
            ls == lines_spec(content@),
            texts(hashes@) == hs,
            hs == line_hashes(ls),
            plan_all(hs, ops.take(k as int)) is Ok,
            plans(sorted@) == sort_desc(plan_all(hs, ops.take(k as int))->Ok_0),
            forall|j: int| 0 <= j < sorted@.len() ==> (#[trigger] sorted@[j]).start < nl
                && (sorted@[j].end matches Some(t) ==> (is_range_kind(sorted@[j].kind) ==> sorted@[j].start <= t)
                    && t < nl),
        decreases operations.len() - k,
    {
        assert(ops.take(k + 1).drop_last() =~= ops.take(k as int));
        match plan_operation(&hashes, &operations[k]) {
            Ok(x) => {
                let ghost sb = sorted@;
                let p = insert_sorted(&mut sorted, x);
                assert forall|j: int| 0 <= j < sorted@.len() implies (#[trigger] sorted@[j]).start < nl
                    && (sorted@[j].end matches Some(t) ==> (is_range_kind(sorted@[j].kind) ==> sorted@[j].start <= t)
                    && t < nl) by {
                    if j < p {
                        assert(sorted@[j] == sb[j]);
                    } else if j > p {
                        assert(sorted@[j] == sb[j - 1]);
                    }
                }
                assert(plans(sorted@) == sort_desc(plan_all(hs, ops.take(k + 1))->Ok_0)) by {
                    let ps = plan_all(hs, ops.take(k as int))->Ok_0;
                    assert(ps.push(x.plan()).drop_last() =~= ps);
                };
            },
            Err(e) => {
                proof {
                    lemma_plan_all_err(hs, ops, k + 1);
                }
                return Err(e);
            },
        }
        k = k + 1;
    }
    assert(ops.take(k as int) =~= ops);
    let ghost ps = sort_desc(plan_all(hs, ops)->Ok_0);
    let mut cur = lines;
    let mut m: usize = 0;
    assert(apply_seq(ls, ps.take(0)) == Ok::<Seq<Seq<char>>, HashlineError>(ls));
    while m < sorted.len()
        invariant
            m <= sorted.len(),
            plans(sorted@) == ps,
            ops == operations@,
            ls == lines_spec(content@),
            hs == line_hashes(ls),
            plan_all(hs, ops) is Ok,
            ps == sort_desc(plan_all(hs, ops)->Ok_0),
            nl == ls.len(),
            nl <= usize::MAX,
            apply_seq(ls, ps.take(m as int)) == Ok::<Seq<Seq<char>>, HashlineError>(texts(cur@)),
            forall|j: int| 0 <= j < sorted@.len() ==> (#[trigger] sorted@[j]).start < nl
                && (sorted@[j].end matches Some(t) ==> (is_range_kind(sorted@[j].kind) ==> sorted@[j].start <= t)
                    && t < nl),
        decreases sorted.len() - m,
    {
        assert(ps.take(m + 1).drop_last() =~= ps.take(m as int));
        match apply_edit(cur, &sorted[m]) {
            Ok(next) => {
                cur = next;
            },
            Err(e) => {
                proof {
                    lemma_apply_seq_err(ls, ps, m + 1);
                }
                return Err(e);
            },
        }
        m = m + 1;
    }
    assert(ps.take(m as int) =~= ps);
    let mut out = join_lines(&cur);
    let cs = chars_of(content);
    if cs.len() > 0 && cs[cs.len() - 1] == '\n' {
        push_char(&mut out, '\n');
    }
    Ok(out)
}

} // verus!
