//! Stimulus schedules: externally supplied timelines of signal injections,
//! grouped by step in ascending order.

use vstd::prelude::*;

use crate::millis::{mul_milli, spec_div_milli, spec_mul_milli};
use crate::strutil::str_eq;

verus! {

/// One injection command: at `step`, publish `value` milli-units on `topic`.
#[derive(Debug, PartialEq)]
pub struct StimulusCommand {
    pub step: u32,
    pub topic: String,
    /// Magnitude in milli-units.
    pub value: u32,
}

impl Clone for StimulusCommand {
    fn clone(&self) -> (r: Self)
        ensures
            r == *self,
    {
        StimulusCommand { step: self.step, topic: self.topic.clone(), value: self.value }
    }
}

/// Step keys strictly ascending: the vector mirrors an ordered map.
pub open spec fn spec_sorted(s: Seq<(u32, Vec<StimulusCommand>)>) -> bool {
    forall|i: int, j: int| 0 <= i < j < s.len() ==> #[trigger] s[i].0 < #[trigger] s[j].0
}

/// The set of step keys present.
pub open spec fn spec_keys(s: Seq<(u32, Vec<StimulusCommand>)>) -> Set<u32> {
    Set::new(|k: u32| exists|i: int| 0 <= i < s.len() && #[trigger] s[i].0 == k)
}

/// The commands stored for `step`, if any.
pub open spec fn spec_sched_get(s: Seq<(u32, Vec<StimulusCommand>)>, step: u32) -> Option<
    Vec<StimulusCommand>,
>
    decreases s.len(),
{
    if s.len() == 0 {
        None
    } else if s[0].0 == step {
        Some(s[0].1)
    } else {
        spec_sched_get(s.drop_first(), step)
    }
}

/// `s` without the first entry keyed `step`.
pub open spec fn spec_remove_key(s: Seq<(u32, Vec<StimulusCommand>)>, step: u32) -> Seq<
    (u32, Vec<StimulusCommand>),
>
    decreases s.len(),
{
    if s.len() == 0 {
        s
    } else if s[0].0 == step {
        s.drop_first()
    } else {
        seq![s[0]] + spec_remove_key(s.drop_first(), step)
    }
}

/// One command after a stimulus-scaling mutation on `topic`: multiplied by
/// `factor` when boosting, divided by it when damping (an untouched command
/// when the damping factor is zero).
pub open spec fn spec_scale_cmd(c: StimulusCommand, topic: Seq<char>, factor: u32, up: bool) -> StimulusCommand {
    if c.topic@ == topic {
        if up {
            StimulusCommand { value: spec_mul_milli(c.value, factor), ..c }
        } else if factor > 0 {
        StimulusCommand { value: spec_div_milli(c.value, factor), ..c }
        } else {
            c
        }
    } else {
        c
    }
}

pub open spec fn spec_scale_group(s: Seq<StimulusCommand>, topic: Seq<char>, factor: u32, up: bool) -> Seq<StimulusCommand> {
    s.map_values(|c: StimulusCommand| spec_scale_cmd(c, topic, factor, up))
}

/// All commands in step order, groups flattened.
pub open spec fn spec_flatten(s: Seq<(u32, Vec<StimulusCommand>)>) -> Seq<StimulusCommand>
    decreases s.len(),
{
    if s.len() == 0 {
        Seq::empty()
    } else {
        spec_flatten(s.drop_last()) + s.last().1@
    }
}

/// The view of a grouped command list: each group's commands as a sequence.
pub open spec fn spec_group_views(s: Seq<(u32, Vec<StimulusCommand>)>) -> Seq<
    (u32, Seq<StimulusCommand>),
> {
    s.map_values(|g: (u32, Vec<StimulusCommand>)| (g.0, g.1@))
}

/// `s` with `cmd` appended to its step's group, the group created in key
/// order when missing.
pub open spec fn spec_insert_cmd(
    s: Seq<(u32, Seq<StimulusCommand>)>,
    cmd: StimulusCommand,
) -> Seq<(u32, Seq<StimulusCommand>)>
    decreases s.len(),
{
    if s.len() == 0 {
        seq![(cmd.step, seq![cmd])]
    } else if s[0].0 == cmd.step {
        seq![(s[0].0, s[0].1.push(cmd))] + s.drop_first()
    } else if cmd.step < s[0].0 {
        seq![(cmd.step, seq![cmd])] + s
    } else {
        seq![s[0]] + spec_insert_cmd(s.drop_first(), cmd)
    }
}

/// The grouped form of a flat command list, built by inserting each command
/// in order.
pub open spec fn spec_regroup(cmds: Seq<StimulusCommand>) -> Seq<(u32, Seq<StimulusCommand>)>
    decreases cmds.len(),
{
    if cmds.len() == 0 {
        Seq::empty()
    } else {
        spec_insert_cmd(spec_regroup(cmds.drop_last()), cmds.last())
    }
}

/// An externally supplied timeline of signal injections, grouped by step.
#[derive(Debug)]
pub struct StimulusSchedule {
    pub commands: Vec<(u32, Vec<StimulusCommand>)>,
    pub source: Option<String>,
}

impl StimulusSchedule {
    /// Step keys strictly ascending, as an ordered map requires.
    pub open spec fn wf(self) -> bool {
        spec_sorted(self.commands@)
    }

    /// Wrap grouped commands whose step keys are already ascending.
    pub fn new(commands: Vec<(u32, Vec<StimulusCommand>)>, source: Option<String>) -> (r:
        StimulusSchedule)
        requires
            spec_sorted(commands@),
        ensures
            r.wf(),
            r.commands == commands,
            r.source == source,
    {
        StimulusSchedule { commands, source }
    }

    /// The path this schedule was loaded from, if any.
    pub fn source(&self) -> (r: &Option<String>)
        ensures
            r == &self.source,
    {
        &self.source
    }

    /// Remove and return the commands scheduled for `step`; an empty vector
    /// where none are.
    pub fn take_for_step(&mut self, step: u32) -> (r: Vec<StimulusCommand>)
        ensures
            final (self).commands@ == spec_remove_key(old(self).commands@, step),
            final (self).source == old(self).source,
            match spec_sched_get(old(self).commands@, step) {
                Some(cmds) => r == cmds,
                None => r@.len() == 0,
            },
            old(self).wf() ==> final (self).wf(),
    {
        let ghost orig = self.commands@;
        let n = self.commands.len();
        let mut i: usize = 0;
        while i < n
            invariant
                n == orig.len(),
                i <= n,
                orig == old(self).commands@,
                self.commands@ == orig,
                self.source == old(self).source,
                forall|j: int| 0 <= j < i ==> #[trigger] orig[j].0 != step,
            decreases n - i,
        {
            if self.commands[i].0 == step {
                let entry = self.commands.remove(i);
                proof {
                    lemma_remove_at(orig, step, i as int);
                    lemma_get_at(orig, step, i as int);
                    if spec_sorted(orig) {
                        lemma_remove_sorted(orig, step);
                    }
                }
                return entry.1;
            }
            i = i + 1;
        }
        proof {
            lemma_remove_absent(orig, step);
            lemma_get_absent(orig, step);
        }
        Vec::new()
    }
}

proof fn lemma_remove_at(s: Seq<(u32, Vec<StimulusCommand>)>, step: u32, i: int)
    requires
        0 <= i < s.len(),
        s[i].0 == step,
        forall|j: int| 0 <= j < i ==> #[trigger] s[j].0 != step,
    ensures
        spec_remove_key(s, step) == s.remove(i),
    decreases s.len(),
{
    if i == 0 {
        assert(spec_remove_key(s, step) =~= s.remove(0));
    } else {
        lemma_remove_at(s.drop_first(), step, i - 1);
        assert(spec_remove_key(s, step) =~= s.remove(i));
    }
}

proof fn lemma_remove_absent(s: Seq<(u32, Vec<StimulusCommand>)>, step: u32)
    requires
        forall|j: int| 0 <= j < s.len() ==> #[trigger] s[j].0 != step,
    ensures
        spec_remove_key(s, step) == s,
    decreases s.len(),
{
    if s.len() == 0 {
    } else {
        lemma_remove_absent(s.drop_first(), step);
        assert(spec_remove_key(s, step) =~= s);
    }
}

proof fn lemma_get_at(s: Seq<(u32, Vec<StimulusCommand>)>, step: u32, i: int)
    requires
        0 <= i < s.len(),
        s[i].0 == step,
        forall|j: int| 0 <= j < i ==> #[trigger] s[j].0 != step,
    ensures
        spec_sched_get(s, step) == Some(s[i].1),
    decreases s.len(),
{
    if i == 0 {
    } else {
        lemma_get_at(s.drop_first(), step, i - 1);
    }
}

proof fn lemma_get_absent(s: Seq<(u32, Vec<StimulusCommand>)>, step: u32)
    requires
        forall|j: int| 0 <= j < s.len() ==> #[trigger] s[j].0 != step,
    ensures
        spec_sched_get(s, step) is None,
    decreases s.len(),
{
    if s.len() == 0 {
    } else {
        lemma_get_absent(s.drop_first(), step);
    }
}

proof fn lemma_remove_sorted(s: Seq<(u32, Vec<StimulusCommand>)>, step: u32)
    requires
        spec_sorted(s),
    ensures
        spec_sorted(spec_remove_key(s, step)),
    decreases s.len(),
{
    if s.len() == 0 {
    } else if s[0].0 == step {
        assert forall|i: int, j: int|
            0 <= i < j < spec_remove_key(s, step).len() implies #[trigger] spec_remove_key(
            s,
            step,
        )[i].0 < #[trigger] spec_remove_key(s, step)[j].0 by {
            assert(spec_remove_key(s, step)[i] == s[i + 1]);
            assert(spec_remove_key(s, step)[j] == s[j + 1]);
        }
    } else {
        assert(spec_sorted(s.drop_first()));
        lemma_remove_sorted(s.drop_first(), step);
        let r = spec_remove_key(s, step);
        assert forall|i: int, j: int| 0 <= i < j < r.len() implies #[trigger] r[i].0
            < #[trigger] r[j].0 by {
            if i == 0 {
                assert(r[0] == s[0]);
                assert(r[j] == spec_remove_key(s.drop_first(), step)[j - 1]);
                lemma_remove_member(s.drop_first(), step, j - 1);
            } else {
                assert(r[i] == spec_remove_key(s.drop_first(), step)[i - 1]);
                assert(r[j] == spec_remove_key(s.drop_first(), step)[j - 1]);
            }
        }
    }
}

/// Every entry of a removal's result is one of the original entries.
proof fn lemma_remove_member(s: Seq<(u32, Vec<StimulusCommand>)>, step: u32, i: int)
    requires
        0 <= i < spec_remove_key(s, step).len(),
    ensures
        exists|j: int|
            0 <= j < s.len() && #[trigger] s[j] == spec_remove_key(s, step)[i],
    decreases s.len(),
{
    if s.len() == 0 {
    } else if s[0].0 == step {
        assert(s[i + 1] == spec_remove_key(s, step)[i]);
    } else {
        if i == 0 {
            assert(s[0] == spec_remove_key(s, step)[0]);
        } else {
            lemma_remove_member(s.drop_first(), step, i - 1);
            let j0 = choose|j: int|
                0 <= j < s.drop_first().len() && #[trigger] s.drop_first()[j]
                    == spec_remove_key(s.drop_first(), step)[i - 1];
            assert(s[j0 + 1] == spec_remove_key(s, step)[i]);
        }
    }
}

} // verus!

verus! {

proof fn lemma_insert_at_existing(s: Seq<(u32, Seq<StimulusCommand>)>, cmd: StimulusCommand, i: int)
    requires
        0 <= i < s.len(),
        s[i].0 == cmd.step,
        forall|j: int| 0 <= j < i ==> (#[trigger] s[j]).0 < cmd.step,
    ensures
        spec_insert_cmd(s, cmd) == s.update(i, (s[i].0, s[i].1.push(cmd))),
    decreases s.len(),
{
    if i == 0 {
        assert(spec_insert_cmd(s, cmd) =~= s.update(0, (s[0].0, s[0].1.push(cmd))));
    } else {
        lemma_insert_at_existing(s.drop_first(), cmd, i - 1);
        assert(spec_insert_cmd(s, cmd) =~= s.update(i, (s[i].0, s[i].1.push(cmd))));
    }
}

proof fn lemma_insert_at_gap(s: Seq<(u32, Seq<StimulusCommand>)>, cmd: StimulusCommand, i: int)
    requires
        0 <= i < s.len(),
        s[i].0 > cmd.step,
        forall|j: int| 0 <= j < i ==> (#[trigger] s[j]).0 < cmd.step,
    ensures
        spec_insert_cmd(s, cmd) == s.insert(i, (cmd.step, seq![cmd])),
    decreases s.len(),
{
    if i == 0 {
        assert(spec_insert_cmd(s, cmd) =~= s.insert(0, (cmd.step, seq![cmd])));
    } else {
        lemma_insert_at_gap(s.drop_first(), cmd, i - 1);
        assert(spec_insert_cmd(s, cmd) =~= s.insert(i, (cmd.step, seq![cmd])));
    }
}

proof fn lemma_insert_at_end(s: Seq<(u32, Seq<StimulusCommand>)>, cmd: StimulusCommand)
    requires
        forall|j: int| 0 <= j < s.len() ==> (#[trigger] s[j]).0 < cmd.step,
    ensures
        spec_insert_cmd(s, cmd) == s.push((cmd.step, seq![cmd])),
    decreases s.len(),
{
    if s.len() == 0 {
        assert(spec_insert_cmd(s, cmd) =~= s.push((cmd.step, seq![cmd])));
    } else {
        lemma_insert_at_end(s.drop_first(), cmd);
        assert(spec_insert_cmd(s, cmd) =~= s.push((cmd.step, seq![cmd])));
    }
}

/// Insert one command into grouped storage, appending to its step's group or
/// creating the group in key order; ascending keys are preserved.
fn insert_grouped(groups: &mut Vec<(u32, Vec<StimulusCommand>)>, cmd: StimulusCommand)
    requires
        spec_sorted(old(groups)@),
    ensures
        spec_sorted(final (groups)@),
        spec_group_views(final (groups)@) == spec_insert_cmd(spec_group_views(old(groups)@), cmd),
{
    let ghost orig = groups@;
    let ghost origv = spec_group_views(orig);
    proof {
        assert(origv.len() == orig.len());
    }
    let n = groups.len();
    let mut i: usize = 0;
    while i < n
        invariant
            n == orig.len(),
            i <= n,
            orig == old(groups)@,
            origv == spec_group_views(orig),
            origv.len() == orig.len(),
            groups@ == orig,
            spec_sorted(orig),
            forall|j: int| 0 <= j < i ==> (#[trigger] orig[j]).0 < cmd.step,
        decreases n - i,
    {
        proof {
            assert(forall|j: int|
                0 <= j < orig.len() ==> #[trigger] origv[j] == (orig[j].0, orig[j].1@));
        }
        if groups[i].0 == cmd.step {
            let ghost gv = orig[i as int].1@;
            let gref = &mut groups[i];
            gref.1.push(cmd);
            proof {
                assert(forall|j: int| 0 <= j < origv.len() ==> (#[trigger] origv[j]).0 == orig[
                j].0);
                lemma_insert_at_existing(origv, cmd, i as int);
                assert(groups@ =~= orig.update(i as int, groups@[i as int]));
                assert(groups@[i as int].0 == orig[i as int].0);
                assert(groups@[i as int].1@ == gv.push(cmd));
                assert(spec_group_views(groups@) =~= origv.update(
                    i as int,
                    (origv[i as int].0, origv[i as int].1.push(cmd)),
                ));
                assert(forall|p: int, q: int|
                    0 <= p < q < groups@.len() ==> (#[trigger] groups@[p]).0 < (
                    #[trigger] groups@[q]).0);
            }
            return ;
        }
        if groups[i].0 > cmd.step {
            let step_val = cmd.step;
            let mut single: Vec<StimulusCommand> = Vec::new();
            single.push(cmd);
            let ghost cmdv = single@[0];
            groups.insert(i, (step_val, single));
            proof {
                lemma_insert_at_gap(origv, cmdv, i as int);
                assert(spec_group_views(groups@) =~= origv.insert(
                    i as int,
                    (cmdv.step, seq![cmdv]),
                ));
                assert(forall|p: int, q: int|
                    0 <= p < q < groups@.len() ==> (#[trigger] groups@[p]).0 < (
                    #[trigger] groups@[q]).0);
            }
            return ;
        }
        i = i + 1;
    }
    let step_val = cmd.step;
    let mut single: Vec<StimulusCommand> = Vec::new();
    single.push(cmd);
    let ghost cmdv = single@[0];
    groups.push((step_val, single));
    proof {
        assert(forall|j: int| 0 <= j < origv.len() ==> (#[trigger] origv[j]).0 == orig[j].0);
        lemma_insert_at_end(origv, cmdv);
        assert(spec_group_views(groups@) =~= origv.push((cmdv.step, seq![cmdv])));
        assert(forall|p: int, q: int|
            0 <= p < q < groups@.len() ==> (#[trigger] groups@[p]).0 < (#[trigger] groups@[q]).0);
    }
}

impl StimulusSchedule {
    /// All commands in step order, groups flattened.
    pub fn flatten(&self) -> (r: Vec<StimulusCommand>)
        ensures
            r@ == spec_flatten(self.commands@),
    {
        let mut out: Vec<StimulusCommand> = Vec::new();
        let n = self.commands.len();
        let mut i: usize = 0;
        while i < n
            invariant
                n == self.commands@.len(),
                i <= n,
                out@ == spec_flatten(self.commands@.take(i as int)),
            decreases n - i,
        {
            proof {
                assert(self.commands@.take(i as int + 1).drop_last() =~= self.commands@.take(
                    i as int,
                ));
                assert(self.commands@.take(i as int + 1).last() == self.commands@[i as int]);
            }
            let ghost before = out@;
            let group = &self.commands[i].1;
            let gn = group.len();
            let mut j: usize = 0;
            while j < gn
                invariant
                    gn == group@.len(),
                    j <= gn,
                    group == &self.commands@[i as int].1,
                    out@ == before + group@.take(j as int),
                decreases gn - j,
            {
                out.push(group[j].clone());
                proof {
                    assert(out@ =~= before + group@.take(j as int + 1));
                }
                j = j + 1;
            }
            proof {
                assert(group@.take(gn as int) =~= group@);
                assert(out@ =~= spec_flatten(self.commands@.take(i as int + 1)));
            }
            i = i + 1;
        }
        proof {
            assert(self.commands@.take(n as int) =~= self.commands@);
        }
        out
    }

    /// Scale every command on `topic`: multiplied by `factor` when boosting,
    /// divided by it when damping.
    fn scale_topic(&mut self, topic: &str, factor: u32, up: bool)
        ensures
            final (self).commands@.len() == old(self).commands@.len(),
            forall|i: int|
                0 <= i < old(self).commands@.len() ==> (#[trigger] final (self).commands@[i]).0
                    == old(self).commands@[i].0 && final (self).commands@[i].1@
                    == spec_scale_group(old(self).commands@[i].1@, topic@, factor, up),
            final (self).source == old(self).source,
            old(self).wf() ==> final (self).wf(),
    {
        let ghost orig = self.commands@;
        let mut rebuilt: Vec<(u32, Vec<StimulusCommand>)> = Vec::new();
        let n = self.commands.len();
        let mut i: usize = 0;
        while i < n
            invariant
                n == orig.len(),
                i <= n,
                orig == old(self).commands@,
                self.commands@ == orig,
                self.source == old(self).source,
                rebuilt@.len() == i,
                forall|k: int|
                    0 <= k < i ==> (#[trigger] rebuilt@[k]).0 == orig[k].0 && rebuilt@[k].1@
                        == spec_scale_group(orig[k].1@, topic@, factor, up),
            decreases n - i,
        {
            let key = self.commands[i].0;
            let group = &self.commands[i].1;
            let gn = group.len();
            let mut scaled: Vec<StimulusCommand> = Vec::new();
            let mut j: usize = 0;
            while j < gn
                invariant
                    gn == group@.len(),
                    j <= gn,
                    group == &self.commands@[i as int].1,
                    self.commands@ == orig,
                    scaled@ =~= spec_scale_group(group@, topic@, factor, up).take(j as int),
                decreases gn - j,
            {
                let cref = &group[j];
                let next: StimulusCommand = if str_eq(cref.topic.as_str(), topic) {
                    if up {
                        StimulusCommand {
                            step: cref.step,
                            topic: cref.topic.clone(),
                            value: mul_milli(cref.value, factor),
                        }
                    } else if factor > 0 {
                        StimulusCommand {
                            step: cref.step,
                            topic: cref.topic.clone(),
                            value: crate::millis::div_milli(cref.value, factor),
                        }
                    } else {
                        cref.clone()
                    }
                } else {
                    cref.clone()
                };
                scaled.push(next);
                proof {
                    assert(scaled@ =~= spec_scale_group(group@, topic@, factor, up).take(
                        j as int + 1,
                    ));
                }
                j = j + 1;
            }
            proof {
                assert(spec_scale_group(group@, topic@, factor, up).take(gn as int)
                    =~= spec_scale_group(group@, topic@, factor, up));
            }
            rebuilt.push((key, scaled));
            i = i + 1;
        }
        proof {
            if spec_sorted(orig) {
                assert(forall|p: int, q: int|
                    0 <= p < q < rebuilt@.len() ==> (#[trigger] rebuilt@[p]).0 < (
                    #[trigger] rebuilt@[q]).0);
            }
        }
        self.commands = rebuilt;
    }

    /// Apply a structured mutation: boost or damp a topic's stimulus values,
    /// or move one command (by flattened index) to a new step and regroup;
    /// spike mutations belong to the scenario and leave the schedule alone.
    pub fn apply_mutation(&mut self, mutation: &crate::adversarial::Mutation)
        ensures
            old(self).wf() ==> final (self).wf(),
            final (self).source == old(self).source,
            match *mutation {
                crate::adversarial::Mutation::IncreaseStimulus { ref topic, factor } => {
                    &&& final (self).commands@.len() == old(self).commands@.len()
                    &&& forall|i: int|
                        0 <= i < old(self).commands@.len() ==> (#[trigger] final (
                        self).commands@[i]).0 == old(self).commands@[i].0 && final (
                        self).commands@[i].1@ == spec_scale_group(
                            old(self).commands@[i].1@,
                            topic@,
                            factor,
                            true,
                        )
                },
                crate::adversarial::Mutation::DecreaseStimulus { ref topic, factor } => {
                    &&& final (self).commands@.len() == old(self).commands@.len()
                    &&& forall|i: int|
                        0 <= i < old(self).commands@.len() ==> (#[trigger] final (
                        self).commands@[i]).0 == old(self).commands@[i].0 && final (
                        self).commands@[i].1@ == spec_scale_group(
                            old(self).commands@[i].1@,
                            topic@,
                            factor,
                            false,
                        )
                },
                crate::adversarial::Mutation::AddSpike { .. } => *final (self) == *old(self),
                crate::adversarial::Mutation::ChangeEventTiming { event_index, new_step } => {
                    old(self).wf() ==> {
                        let flat = spec_flatten(old(self).commands@);
                        let updated = if event_index < flat.len() {
                            flat.update(
                                event_index as int,
                                StimulusCommand {
                                    step: new_step,
                                    ..flat[event_index as int]
                                },
                            )
                        } else {
                            flat
                        };
                        spec_group_views(final (self).commands@) == spec_regroup(updated)
                    }
                },
            },
    {
        match mutation {
            crate::adversarial::Mutation::IncreaseStimulus { topic, factor } => {
                self.scale_topic(topic.as_str(), *factor, true);
            },
            crate::adversarial::Mutation::DecreaseStimulus { topic, factor } => {
                self.scale_topic(topic.as_str(), *factor, false);
            },
            crate::adversarial::Mutation::AddSpike { .. } => {},
            crate::adversarial::Mutation::ChangeEventTiming { event_index, new_step } => {
                let mut flat = self.flatten();
                if *event_index < flat.len() {
                    let topic = flat[*event_index].topic.clone();
                    let value = flat[*event_index].value;
                    flat[*event_index] = StimulusCommand { step: *new_step, topic, value };
                }
                let ghost updated = flat@;
                let mut regrouped: Vec<(u32, Vec<StimulusCommand>)> = Vec::new();
                let fn_len = flat.len();
                let mut k: usize = 0;
                while k < fn_len
                    invariant
                        fn_len == updated.len(),
                        k <= fn_len,
                        flat@ == updated,
                        spec_sorted(regrouped@),
                        spec_group_views(regrouped@) == spec_regroup(updated.take(k as int)),
                    decreases fn_len - k,
                {
                    proof {
                        assert(updated.take(k as int + 1).drop_last() =~= updated.take(k as int));
                        assert(updated.take(k as int + 1).last() == updated[k as int]);
                    }
                    insert_grouped(&mut regrouped, flat[k].clone());
                    k = k + 1;
                }
                proof {
                    assert(updated.take(fn_len as int) =~= updated);
                }
                self.commands = regrouped;
            },
        }
    }
}

} // verus!
