//! Where the time of a generation goes. Times are in nanoseconds.
use crate::graph::{GraphOp, Op, OpModel};
use crate::text::same;
use vstd::prelude::*;

verus! {

/// The name of an operation.
pub open spec fn op_name(op: OpModel) -> Seq<char> {
    match op {
        Op::EmbeddingBatch { .. } => "EmbeddingBatch"@,
        Op::MatMul { .. } => "MatMul"@,
        Op::MatVec { .. } => "MatVec"@,
        Op::Add { .. } => "Add"@,
        Op::SiluMul { .. } => "SiluMul"@,
        Op::RmsNorm { .. } => "RmsNorm"@,
        Op::Reshape { .. } => "Reshape"@,
        Op::Rope { .. } => "Rope"@,
        Op::KvCacheUpdate { .. } => "KvCacheUpdate"@,
        Op::QkNormRopeKvPrefill { .. } => "QkNormRopeKvPrefill"@,
        Op::Attention { .. } => "Attention"@,
        Op::GatherRow { .. } => "GatherRow"@,
        Op::SliceCols { .. } => "SliceCols"@,
        Op::MatMulSlice { .. } => "MatMulSlice"@,
        Op::AddRmsNorm { .. } => "AddRmsNorm"@,
    }
}

/// The name of an operation.
pub fn graph_op_name(op: &GraphOp) -> (r: &'static str)
    ensures
        r@ == op_name(op@),
{
    match op {
        Op::EmbeddingBatch { .. } => "EmbeddingBatch",
        Op::MatMul { .. } => "MatMul",
        Op::MatVec { .. } => "MatVec",
        Op::Add { .. } => "Add",
        Op::SiluMul { .. } => "SiluMul",
        Op::RmsNorm { .. } => "RmsNorm",
        Op::Reshape { .. } => "Reshape",
        Op::Rope { .. } => "Rope",
        Op::KvCacheUpdate { .. } => "KvCacheUpdate",
        Op::QkNormRopeKvPrefill { .. } => "QkNormRopeKvPrefill",
        Op::Attention { .. } => "Attention",
        Op::GatherRow { .. } => "GatherRow",
        Op::SliceCols { .. } => "SliceCols",
        Op::MatMulSlice { .. } => "MatMulSlice",
        Op::AddRmsNorm { .. } => "AddRmsNorm",
    }
}

/// How often operations of one name ran, and for how long.
#[derive(Clone, Copy, Debug)]
pub struct OpTotal {
    pub name: &'static str,
    pub count: usize,
    pub total: u128,
}

/// The names of totals.
pub open spec fn total_names(s: Seq<OpTotal>) -> Seq<Seq<char>> {
    s.map_values(|t: OpTotal| t.name@)
}

/// Times of steps and operations.
#[derive(Debug)]
pub struct RunProfile {
    pub prefill_steps: usize,
    pub decode_steps: usize,
    pub prefill_step_total: u128,
    pub decode_step_total: u128,
    pub op_profile_enabled: bool,
    pub op_profile_sync_enabled: bool,
    pub op_totals: Vec<OpTotal>,
}

/// A line of the report.
#[derive(Clone, Copy, Debug)]
pub enum ReportLine {
    Title,
    /// Steps and their times.
    Steps { prefill_steps: usize, prefill_total: u128, decode_steps: usize, decode_total: u128 },
    /// Each operation waited for the device.
    SyncNote,
    OpTitle,
    /// One name.
    Op { name: &'static str, count: usize, total: u128 },
}

/// The line of a total.
pub open spec fn op_line(t: OpTotal) -> ReportLine {
    ReportLine::Op { name: t.name, count: t.count, total: t.total }
}

/// Whether `now` are the totals `before` after an operation of this name that took `dur`.
pub open spec fn op_counted(
    before: Seq<OpTotal>,
    now: Seq<OpTotal>,
    op_name: &'static str,
    dur: u128,
) -> bool {
    if total_names(before).contains(op_name@) {
        exists|i: int|
            #![trigger before[i]]
            0 <= i < before.len() && before[i].name@ == op_name@ && now == before.update(
                i,
                OpTotal {
                    name: before[i].name,
                    count: (before[i].count + 1) as usize,
                    total: (before[i].total + dur) as u128,
                },
            )
    } else {
        now == before.push(OpTotal { name: op_name, count: 1, total: dur })
    }
}

/// How often and for how long all operations ran together.
pub open spec fn all_counted(s: Seq<OpTotal>) -> (int, int)
    decreases s.len(),
{
    if s.len() == 0 {
        (0, 0)
    } else {
        let before = all_counted(s.drop_last());
        (before.0 + s.last().count, before.1 + s.last().total)
    }
}

proof fn lemma_counted_update(s: Seq<OpTotal>, i: int, t: OpTotal)
    requires
        0 <= i < s.len(),
    ensures
        all_counted(s.update(i, t)).0 == all_counted(s).0 - s[i].count + t.count,
        all_counted(s.update(i, t)).1 == all_counted(s).1 - s[i].total + t.total,
    decreases s.len(),
{
    let u = s.update(i, t);
    if i == s.len() - 1 {
        assert(u.drop_last() =~= s.drop_last());
    } else {
        assert(u.drop_last() =~= s.drop_last().update(i, t));
        lemma_counted_update(s.drop_last(), i, t);
    }
}

/// No time is lost or counted twice: with every operation the counts grow by one together and
/// the times by what it took, and only its own name changes.
pub proof fn law_operations_are_counted_once(
    before: Seq<OpTotal>,
    now: Seq<OpTotal>,
    op_name: &'static str,
    dur: u128,
    k: int,
)
    requires
        op_counted(before, now, op_name, dur),
        forall|i: int|
            0 <= i < before.len() ==> (#[trigger] before[i]).count < usize::MAX && before[i].total
                + dur <= u128::MAX,
    ensures
        all_counted(now).0 == all_counted(before).0 + 1,
        all_counted(now).1 == all_counted(before).1 + dur,
        0 <= k < before.len() && before[k].name@ != op_name@ ==> now[k] == before[k],
        total_names(now).contains(op_name@),
{
    if total_names(before).contains(op_name@) {
        let i = choose|i: int|
            #![trigger before[i]]
            0 <= i < before.len() && before[i].name@ == op_name@ && now == before.update(
                i,
                OpTotal {
                    name: before[i].name,
                    count: (before[i].count + 1) as usize,
                    total: (before[i].total + dur) as u128,
                },
            );
        lemma_counted_update(before, i, now[i]);
        assert(total_names(now)[i] == op_name@);
    } else {
        assert(now.drop_last() =~= before);
        assert(total_names(now)[before.len() as int] == op_name@);
    }
}

/// A step counts as one of its own kind, and its time with the times of that kind.
pub proof fn law_steps_are_counted_once(p: RunProfile, dur: u128)
    requires
        p.room(dur),
    ensures
        p.stepped(dur, true).decode_steps == p.decode_steps + 1,
        p.stepped(dur, true).decode_step_total == p.decode_step_total + dur,
        p.stepped(dur, true).prefill_steps == p.prefill_steps,
        p.stepped(dur, true).prefill_step_total == p.prefill_step_total,
        p.stepped(dur, false).prefill_steps == p.prefill_steps + 1,
        p.stepped(dur, false).prefill_step_total == p.prefill_step_total + dur,
        p.stepped(dur, false).decode_steps == p.decode_steps,
        p.stepped(dur, false).decode_step_total == p.decode_step_total,
        p.stepped(dur, true).op_totals == p.op_totals,
        p.stepped(dur, false).op_totals == p.op_totals,
{
}

/// A report names the steps and, where operations were timed, each of them in a line of its
/// own, those that took longest first.
pub proof fn law_report_has_every_operation(p: RunProfile, sorted: Seq<OpTotal>, i: int, j: int)
    requires
        longest_first(sorted),
        sorted.to_multiset() == p.op_totals@.to_multiset(),
    ensures
        ({
            let lines = report_lines(p, sorted);
            let first = (if p.op_profile_sync_enabled {
                4
            } else {
                3int
            });
            &&& lines[0] is Title
            &&& lines[1] == (ReportLine::Steps {
                prefill_steps: p.prefill_steps,
                prefill_total: p.prefill_step_total,
                decode_steps: p.decode_steps,
                decode_total: p.decode_step_total,
            })
            &&& sorted.len() == p.op_totals@.len()
            &&& !p.op_profile_enabled || sorted.len() == 0 ==> lines.len() == 2
            &&& p.op_profile_enabled && sorted.len() > 0 ==> {
                &&& lines.len() == first + sorted.len()
                &&& lines[first - 1] is OpTitle
                &&& p.op_profile_sync_enabled ==> lines[2] is SyncNote
                &&& 0 <= i < sorted.len() ==> (lines[first + i] matches ReportLine::Op {
                    name,
                    count,
                    total,
                } && name == sorted[i].name && count == sorted[i].count && total
                    == sorted[i].total)
                &&& 0 <= i < j < sorted.len() ==> lines[first + i]->Op_total >= lines[first
                    + j]->Op_total
            }
        }),
{
    broadcast use vstd::seq_lib::group_to_multiset_ensures;

    assert(sorted.len() == sorted.to_multiset().len());
    assert(p.op_totals@.len() == p.op_totals@.to_multiset().len());
    if 0 <= i < j < sorted.len() {
        assert(sorted[i].total >= sorted[j].total);
    }
}

/// Operations are timed under the names of their kinds.
pub proof fn law_operations_have_names(op: OpModel)
    ensures
        op is EmbeddingBatch ==> op_name(op) == "EmbeddingBatch"@,
        op is MatMul ==> op_name(op) == "MatMul"@,
        op is MatVec ==> op_name(op) == "MatVec"@,
        op is Add ==> op_name(op) == "Add"@,
        op is SiluMul ==> op_name(op) == "SiluMul"@,
        op is RmsNorm ==> op_name(op) == "RmsNorm"@,
        op is Reshape ==> op_name(op) == "Reshape"@,
        op is Rope ==> op_name(op) == "Rope"@,
        op is KvCacheUpdate ==> op_name(op) == "KvCacheUpdate"@,
        op is QkNormRopeKvPrefill ==> op_name(op) == "QkNormRopeKvPrefill"@,
        op is Attention ==> op_name(op) == "Attention"@,
        op is GatherRow ==> op_name(op) == "GatherRow"@,
        op is SliceCols ==> op_name(op) == "SliceCols"@,
        op is MatMulSlice ==> op_name(op) == "MatMulSlice"@,
        op is AddRmsNorm ==> op_name(op) == "AddRmsNorm"@,
{
}

/// The longest come first.
pub open spec fn longest_first(s: Seq<OpTotal>) -> bool {
    forall|i: int, j: int|
        #![trigger s[i], s[j]]
        0 <= i < j < s.len() ==> s[i].total >= s[j].total
}

/// The lines of a report whose totals come in the order `sorted`.
pub open spec fn report_lines(p: RunProfile, sorted: Seq<OpTotal>) -> Seq<ReportLine> {
    let top = seq![
        ReportLine::Title,
        ReportLine::Steps {
            prefill_steps: p.prefill_steps,
            prefill_total: p.prefill_step_total,
            decode_steps: p.decode_steps,
            decode_total: p.decode_step_total,
        },
    ];
    if p.op_profile_enabled && p.op_totals@.len() > 0 {
        let note = (if p.op_profile_sync_enabled {
            top.push(ReportLine::SyncNote)
        } else {
            top
        });
        note.push(ReportLine::OpTitle) + sorted.map_values(|t: OpTotal| op_line(t))
    } else {
        top
    }
}

/// The same totals, the longest first.
fn sort_totals(totals: &Vec<OpTotal>) -> (r: Vec<OpTotal>)
    ensures
        longest_first(r@),
        r@.to_multiset() == totals@.to_multiset(),
{
    let ghost all = totals@;
    let mut out: Vec<OpTotal> = Vec::new();
    let mut i: usize = 0;
    assert(all.subrange(0, 0) =~= Seq::empty());
    while i < totals.len()
        invariant
            i <= totals@.len(),
            all == totals@,
            longest_first(out@),
            out@.to_multiset() == all.subrange(0, i as int).to_multiset(),
        decreases totals@.len() - i,
    {
        let t: OpTotal = totals[i];
        let mut j: usize = 0;
        while j < out.len() && out[j].total >= t.total
            invariant
                j <= out@.len(),
                forall|k: int| 0 <= k < j ==> (#[trigger] out@[k]).total >= t.total,
            decreases out@.len() - j,
        {
            j = j + 1;
        }
        let ghost before = out@;
        proof {
            vstd::seq_lib::to_multiset_insert(before, j as int, t);
            vstd::seq_lib::to_multiset_build(all.subrange(0, i as int), t);
            assert(all.subrange(0, i + 1) =~= all.subrange(0, i as int).push(t));
        }
        out.insert(j, t);
        assert(out@ =~= before.insert(j as int, t));
        assert forall|a: int, b: int|
            #![trigger out@[a], out@[b]]
            0 <= a < b < out@.len() implies out@[a].total >= out@[b].total by {
            if j < before.len() {
                assert(before[j as int].total < t.total);
            }
            let x = (if a < j {
                a
            } else {
                a - 1
            });
            let y = (if b < j {
                b
            } else {
                b - 1
            });
            if a != j {
                assert(out@[a] == before[x]);
            }
            if b != j {
                assert(out@[b] == before[y]);
            }
            if a == j && y > j {
                assert(before[j as int].total >= before[y].total);
            }
        }
        i = i + 1;
    }
    assert(all.subrange(0, all.len() as int) =~= all);
    out
}

impl RunProfile {
    /// The names are different.
    pub open spec fn wf(&self) -> bool {
        forall|i: int, j: int|
            #![trigger self.op_totals@[i], self.op_totals@[j]]
            0 <= i < j < self.op_totals@.len() ==> self.op_totals@[i].name@
                != self.op_totals@[j].name@
    }

    /// Nothing ran yet. Operations are timed where the setting is `1`, and waited for
    /// where the other is.
    pub fn new(ops: Option<&str>, sync_ops: Option<&str>) -> (r: Self)
        ensures
            r.wf(),
            r.prefill_steps == 0 && r.decode_steps == 0,
            r.prefill_step_total == 0 && r.decode_step_total == 0,
            r.op_totals@ == Seq::<OpTotal>::empty(),
            r.op_profile_enabled == (crate::knobs::text_of(ops) == Some("1"@)),
            r.op_profile_sync_enabled == (crate::knobs::text_of(sync_ops) == Some("1"@)),
    {
        let op_profile_enabled: bool = match ops {
            Some(v) => same(v, "1"),
            None => false,
        };
        let op_profile_sync_enabled: bool = match sync_ops {
            Some(v) => same(v, "1"),
            None => false,
        };
        RunProfile {
            prefill_steps: 0,
            decode_steps: 0,
            prefill_step_total: 0,
            decode_step_total: 0,
            op_profile_enabled,
            op_profile_sync_enabled,
            op_totals: Vec::new(),
        }
    }

    /// Another time can be added to every count and sum.
    pub open spec fn room(&self, dur: u128) -> bool {
        &&& self.prefill_steps < usize::MAX && self.prefill_step_total + dur <= u128::MAX
        &&& self.decode_steps < usize::MAX && self.decode_step_total + dur <= u128::MAX
        &&& forall|i: int|
            0 <= i < self.op_totals@.len() ==> (#[trigger] self.op_totals@[i]).count < usize::MAX
                && self.op_totals@[i].total + dur <= u128::MAX
    }

    /// Whether another time can be added to every count and sum.
    pub fn has_room(&self, dur: u128) -> (r: bool)
        ensures
            r == self.room(dur),
    {
        if self.prefill_steps == usize::MAX || self.decode_steps == usize::MAX
            || self.prefill_step_total > u128::MAX - dur || self.decode_step_total > u128::MAX
            - dur {
            return false;
        }
        let mut i: usize = 0;
        while i < self.op_totals.len()
            invariant
                i <= self.op_totals@.len(),
                forall|k: int|
                    0 <= k < i ==> (#[trigger] self.op_totals@[k]).count < usize::MAX
                        && self.op_totals@[k].total + dur <= u128::MAX,
            decreases self.op_totals@.len() - i,
        {
            let t: &OpTotal = &self.op_totals[i];
            if t.count == usize::MAX || t.total > u128::MAX - dur {
                return false;
            }
            i = i + 1;
        }
        true
    }

    /// The profile after a step that took `dur`.
    pub open spec fn stepped(&self, dur: u128, is_decode: bool) -> RunProfile {
        if is_decode {
            RunProfile {
                decode_steps: (self.decode_steps + 1) as usize,
                decode_step_total: (self.decode_step_total + dur) as u128,
                ..*self
            }
        } else {
            RunProfile {
                prefill_steps: (self.prefill_steps + 1) as usize,
                prefill_step_total: (self.prefill_step_total + dur) as u128,
                ..*self
            }
        }
    }

    /// Counts a step.
    pub fn add_step(&mut self, dur: u128, is_decode: bool)
        requires
            is_decode ==> old(self).decode_steps < usize::MAX && old(self).decode_step_total + dur
                <= u128::MAX,
            !is_decode ==> old(self).prefill_steps < usize::MAX && old(self).prefill_step_total
                + dur <= u128::MAX,
        ensures
            *final(self) == old(self).stepped(dur, is_decode),
    {
        if is_decode {
            self.decode_steps = self.decode_steps + 1;
            self.decode_step_total = self.decode_step_total + dur;
        } else {
            self.prefill_steps = self.prefill_steps + 1;
            self.prefill_step_total = self.prefill_step_total + dur;
        }
    }

    /// Counts an operation, where operations are timed.
    pub fn add_op(&mut self, op_name: &'static str, dur: u128)
        requires
            old(self).wf(),
            forall|i: int|
                0 <= i < old(self).op_totals@.len() ==> (#[trigger] old(self).op_totals@[i]).count
                    < usize::MAX && old(self).op_totals@[i].total + dur <= u128::MAX,
        ensures
            final(self).wf(),
            final(self).prefill_steps == old(self).prefill_steps,
            final(self).decode_steps == old(self).decode_steps,
            final(self).prefill_step_total == old(self).prefill_step_total,
            final(self).decode_step_total == old(self).decode_step_total,
            final(self).op_profile_enabled == old(self).op_profile_enabled,
            final(self).op_profile_sync_enabled == old(self).op_profile_sync_enabled,
            !old(self).op_profile_enabled ==> final(self).op_totals@ == old(self).op_totals@,
            old(self).op_profile_enabled ==> op_counted(
                old(self).op_totals@,
                final(self).op_totals@,
                op_name,
                dur,
            ),
    {
        if !self.op_profile_enabled {
            return;
        }
        let ghost before = self.op_totals@;
        let mut i: usize = 0;
        while i < self.op_totals.len()
            invariant
                i <= self.op_totals@.len(),
                *self == *old(self),
                before == self.op_totals@,
                self.wf(),
                self.op_profile_enabled,
                forall|k: int| 0 <= k < i ==> (#[trigger] before[k]).name@ != op_name@,
                forall|k: int|
                    0 <= k < before.len() ==> (#[trigger] before[k]).count < usize::MAX
                        && before[k].total + dur <= u128::MAX,
            decreases self.op_totals@.len() - i,
        {
            let t: OpTotal = self.op_totals[i];
            assert(t == before[i as int]);
            if same(t.name, op_name) {
                assert(total_names(before)[i as int] == op_name@);
                let now = OpTotal { name: t.name, count: t.count + 1, total: t.total + dur };
                self.op_totals.set(i, now);
                assert(self.op_totals@ =~= before.update(i as int, now));
                assert forall|a: int, b: int|
                    #![trigger self.op_totals@[a], self.op_totals@[b]]
                    0 <= a < b < self.op_totals@.len() implies self.op_totals@[a].name@
                    != self.op_totals@[b].name@ by {
                    assert(before[a].name@ != before[b].name@);
                }
                return;
            }
            i = i + 1;
        }
        self.op_totals.push(OpTotal { name: op_name, count: 1, total: dur });
        proof {
            if total_names(before).contains(op_name@) {
                let k = choose|k: int|
                    0 <= k < total_names(before).len() && total_names(before)[k] == op_name@;
                assert(before[k].name@ == op_name@);
            }
            assert forall|a: int, b: int|
                #![trigger self.op_totals@[a], self.op_totals@[b]]
                0 <= a < b < self.op_totals@.len() implies self.op_totals@[a].name@
                != self.op_totals@[b].name@ by {
                assert(self.op_totals@[a] == before[a]);
                if b < before.len() {
                    assert(before[a].name@ != before[b].name@);
                }
            }
        }
    }

    /// The lines of the report. Names that took the longest come first.
    pub fn render(&self) -> (r: Vec<ReportLine>)
        ensures
            exists|sorted: Seq<OpTotal>|
                longest_first(sorted) && sorted.to_multiset() == self.op_totals@.to_multiset()
                    && r@ == #[trigger] report_lines(*self, sorted),
    {
        let mut out: Vec<ReportLine> = Vec::new();
        out.push(ReportLine::Title);
        out.push(
            ReportLine::Steps {
                prefill_steps: self.prefill_steps,
                prefill_total: self.prefill_step_total,
                decode_steps: self.decode_steps,
                decode_total: self.decode_step_total,
            },
        );
        let sorted: Vec<OpTotal> = sort_totals(&self.op_totals);
        if self.op_profile_enabled && self.op_totals.len() > 0 {
            if self.op_profile_sync_enabled {
                out.push(ReportLine::SyncNote);
            }
            out.push(ReportLine::OpTitle);
            let ghost top = out@;
            let ghost want = report_lines(*self, sorted@);
            assert(want.len() == top.len() + sorted@.len());
            assert forall|k: int| 0 <= k < top.len() implies top[k] == want[k] by {}
            let mut i: usize = 0;
            while i < sorted.len()
                invariant
                    i <= sorted@.len(),
                    out@.len() == top.len() + i,
                    forall|k: int| 0 <= k < top.len() ==> out@[k] == top[k],
                    forall|k: int|
                        #![trigger out@[top.len() + k]]
                        0 <= k < i ==> out@[top.len() + k] == op_line(sorted@[k]),
                decreases sorted@.len() - i,
            {
                let t: OpTotal = sorted[i];
                out.push(ReportLine::Op { name: t.name, count: t.count, total: t.total });
                i = i + 1;
            }
            assert forall|k: int| 0 <= k < want.len() implies out@[k] == want[k] by {
                if k >= top.len() {
                    assert(out@[top.len() + (k - top.len())] == op_line(
                        sorted@[k - top.len()],
                    ));
                }
            }
        }
        assert(out@ =~= report_lines(*self, sorted@));
        out
    }
}

} // verus!
