//! High-level orchestration: one simulation step drains the signal queue
//! into an immutable snapshot, lets every cell decide against that snapshot,
//! then applies the collected actions in order.

use vstd::prelude::*;

use crate::cellular::{
    spec_genome_drifted, spec_opt_view, CellAction, CellEnvironment, CellLineage,
    PopulationStats, SecurityCell,
};
use crate::config::{TopologyConfig, TopologyStrategy};
use crate::immune::PublicKeyDirectory;
use crate::millis::{sat_add64, spec_sat_add64};
use crate::signaling::{views_of, Signal, SignalBus, SignalView};
use crate::strutil::str_eq;
use crate::table::{contains_str, spec_key_in};
use crate::telemetry::{TelemetryEvent, TelemetrySink, TopologyStats};

verus! {

// ---------------------------------------------------------------------------
// Adjacency bookkeeping
// ---------------------------------------------------------------------------

/// The view of an adjacency table: each identity with its neighbour list.
pub open spec fn spec_adjv(s: Seq<(String, Vec<String>)>) -> Seq<(String, Seq<String>)> {
    s.map_values(|p: (String, Vec<String>)| (p.0, p.1@))
}

/// The neighbour list stored for `k`, if any.
pub open spec fn spec_adj_get(s: Seq<(String, Seq<String>)>, k: Seq<char>) -> Option<Seq<String>>
    decreases s.len(),
{
    if s.len() == 0 {
        None
    } else if s[0].0@ == k {
        Some(s[0].1)
    } else {
        spec_adj_get(s.drop_first(), k)
    }
}

/// `s` with `id` appended to `k`'s neighbour list, the entry created at the
/// end when missing.
pub open spec fn spec_adj_add(
    s: Seq<(String, Seq<String>)>,
    k: String,
    id: String,
) -> Seq<(String, Seq<String>)>
    decreases s.len(),
{
    if s.len() == 0 {
        seq![(k, seq![id])]
    } else if s[0].0@ == k@ {
        seq![(s[0].0, s[0].1.push(id))] + s.drop_first()
    } else {
        seq![s[0]] + spec_adj_add(s.drop_first(), k, id)
    }
}

/// `s` without the first entry keyed `k`.
pub open spec fn spec_adj_remove_key(s: Seq<(String, Seq<String>)>, k: Seq<char>) -> Seq<
    (String, Seq<String>),
>
    decreases s.len(),
{
    if s.len() == 0 {
        s
    } else if s[0].0@ == k {
        s.drop_first()
    } else {
        seq![s[0]] + spec_adj_remove_key(s.drop_first(), k)
    }
}

/// A list without the first occurrence of `x`.
pub open spec fn spec_list_remove(s: Seq<String>, x: Seq<char>) -> Seq<String>
    decreases s.len(),
{
    if s.len() == 0 {
        s
    } else if s[0]@ == x {
        s.drop_first()
    } else {
        seq![s[0]] + spec_list_remove(s.drop_first(), x)
    }
}

/// `s` with `x` dropped (first occurrence) from `k`'s neighbour list.
pub open spec fn spec_adj_unlink(
    s: Seq<(String, Seq<String>)>,
    k: Seq<char>,
    x: Seq<char>,
) -> Seq<(String, Seq<String>)>
    decreases s.len(),
{
    if s.len() == 0 {
        s
    } else if s[0].0@ == k {
        seq![(s[0].0, spec_list_remove(s[0].1, x))] + s.drop_first()
    } else {
        seq![s[0]] + spec_adj_unlink(s.drop_first(), k, x)
    }
}

fn adj_get<'a>(s: &'a Vec<(String, Vec<String>)>, k: &str) -> (r: Option<&'a Vec<String>>)
    ensures
        match r {
            Some(v) => spec_adj_get(spec_adjv(s@), k@) == Some(v@),
            None => spec_adj_get(spec_adjv(s@), k@) is None,
        },
{
    let ghost sv = spec_adjv(s@);
    proof {
        assert(sv.len() == s@.len());
        assert(sv.skip(0) =~= sv);
    }
    let n = s.len();
    let mut i: usize = 0;
    while i < n
        invariant
            n == s@.len(),
            sv == spec_adjv(s@),
            sv.len() == s@.len(),
            i <= n,
            spec_adj_get(sv, k@) == spec_adj_get(sv.skip(i as int), k@),
        decreases n - i,
    {
        proof {
            assert(forall|j: int| 0 <= j < s@.len() ==> #[trigger] sv[j] == (s@[j].0, s@[j].1@));
            assert(sv.skip(i as int)[0] == sv[i as int]);
            assert(sv.skip(i as int).drop_first() =~= sv.skip(i as int + 1));
        }
        if str_eq(s[i].0.as_str(), k) {
            return Some(&s[i].1);
        }
        i = i + 1;
    }
    None
}

fn adj_push(s: &mut Vec<(String, Vec<String>)>, k: &String, id: String)
    ensures
        spec_adjv(final (s)@) == spec_adj_add(spec_adjv(old(s)@), *k, id),
{
    let ghost orig = old(s)@;
    let ghost origv = spec_adjv(orig);

    proof {
        assert(origv.len() == orig.len());
    }
    let n = s.len();
    let mut i: usize = 0;
    while i < n
        invariant
            n == orig.len(),
            i <= n,
            orig == old(s)@,
            origv == spec_adjv(orig),
            origv.len() == orig.len(),
            s@ == orig,
            forall|j: int| 0 <= j < i ==> (#[trigger] orig[j]).0@ != k@,
        decreases n - i,
    {
        proof {
            assert(forall|j: int|
                0 <= j < orig.len() ==> #[trigger] origv[j] == (orig[j].0, orig[j].1@));
        }
        if str_eq(s[i].0.as_str(), k.as_str()) {
            let ghost gv = orig[i as int].1@;
            let entry = &mut s[i];
            entry.1.push(id);
            proof {
                lemma_adj_add_at(origv, *k, id, i as int);
                assert(s@ =~= orig.update(i as int, s@[i as int]));
                assert(s@[i as int].0 == orig[i as int].0);
                assert(s@[i as int].1@ == gv.push(id));
                assert(spec_adjv(s@) =~= origv.update(
                    i as int,
                    (origv[i as int].0, origv[i as int].1.push(id)),
                ));
            }
            return ;
        }
        i = i + 1;
    }
    let mut single: Vec<String> = Vec::new();
    single.push(id);
    s.push((k.clone(), single));
    proof {
        assert(forall|j: int|
            0 <= j < orig.len() ==> #[trigger] origv[j] == (orig[j].0, orig[j].1@));
        lemma_adj_add_absent(origv, *k, id);
        assert(spec_adjv(s@) =~= origv.push((*k, seq![id])));
    }
}

proof fn lemma_adj_add_at(s: Seq<(String, Seq<String>)>, k: String, id: String, i: int)
    requires
        0 <= i < s.len(),
        s[i].0@ == k@,
        forall|j: int| 0 <= j < i ==> (#[trigger] s[j]).0@ != k@,
    ensures
        spec_adj_add(s, k, id) == s.update(i, (s[i].0, s[i].1.push(id))),
    decreases s.len(),
{
    if i == 0 {
        assert(spec_adj_add(s, k, id) =~= s.update(0, (s[0].0, s[0].1.push(id))));
    } else {
        lemma_adj_add_at(s.drop_first(), k, id, i - 1);
        assert(spec_adj_add(s, k, id) =~= s.update(i, (s[i].0, s[i].1.push(id))));
    }
}

proof fn lemma_adj_add_absent(s: Seq<(String, Seq<String>)>, k: String, id: String)
    requires
        forall|j: int| 0 <= j < s.len() ==> (#[trigger] s[j]).0@ != k@,
    ensures
        spec_adj_add(s, k, id) == s.push((k, seq![id])),
    decreases s.len(),
{
    if s.len() == 0 {
        assert(spec_adj_add(s, k, id) =~= s.push((k, seq![id])));
    } else {
        lemma_adj_add_absent(s.drop_first(), k, id);
        assert(spec_adj_add(s, k, id) =~= s.push((k, seq![id])));
    }
}

fn adj_remove_key(s: &mut Vec<(String, Vec<String>)>, k: &str) -> (r: Option<Vec<String>>)
    ensures
        spec_adjv(final (s)@) == spec_adj_remove_key(spec_adjv(old(s)@), k@),
        match r {
            Some(v) => spec_adj_get(spec_adjv(old(s)@), k@) == Some(v@),
            None => spec_adj_get(spec_adjv(old(s)@), k@) is None,
        },
{
    let ghost orig = old(s)@;
    let ghost origv = spec_adjv(orig);
    proof {
        assert(origv.len() == orig.len());
    }
    let n = s.len();
    let mut i: usize = 0;
    while i < n
        invariant
            n == orig.len(),
            i <= n,
            orig == old(s)@,
            origv == spec_adjv(orig),
            origv.len() == orig.len(),
            s@ == orig,
            forall|j: int| 0 <= j < i ==> (#[trigger] orig[j]).0@ != k@,
        decreases n - i,
    {
        proof {
            assert(forall|j: int|
                0 <= j < orig.len() ==> #[trigger] origv[j] == (orig[j].0, orig[j].1@));
        }
        if str_eq(s[i].0.as_str(), k) {
            let entry = s.remove(i);
            proof {
                lemma_adj_remove_at(origv, k@, i as int);
                lemma_adj_get_at(origv, k@, i as int);
                assert(spec_adjv(s@) =~= origv.remove(i as int));
            }
            return Some(entry.1);
        }
        i = i + 1;
    }
    proof {
        assert(forall|j: int|
            0 <= j < orig.len() ==> #[trigger] origv[j] == (orig[j].0, orig[j].1@));
        lemma_adj_remove_absent(origv, k@);
        lemma_adj_get_absent(origv, k@);
    }
    None
}

proof fn lemma_adj_remove_at(s: Seq<(String, Seq<String>)>, k: Seq<char>, i: int)
    requires
        0 <= i < s.len(),
        s[i].0@ == k,
        forall|j: int| 0 <= j < i ==> (#[trigger] s[j]).0@ != k,
    ensures
        spec_adj_remove_key(s, k) == s.remove(i),
    decreases s.len(),
{
    if i == 0 {
        assert(spec_adj_remove_key(s, k) =~= s.remove(0));
    } else {
        lemma_adj_remove_at(s.drop_first(), k, i - 1);
        assert(spec_adj_remove_key(s, k) =~= s.remove(i));
    }
}

proof fn lemma_adj_remove_absent(s: Seq<(String, Seq<String>)>, k: Seq<char>)
    requires
        forall|j: int| 0 <= j < s.len() ==> (#[trigger] s[j]).0@ != k,
    ensures
        spec_adj_remove_key(s, k) == s,
    decreases s.len(),
{
    if s.len() == 0 {
    } else {
        lemma_adj_remove_absent(s.drop_first(), k);
        assert(spec_adj_remove_key(s, k) =~= s);
    }
}

proof fn lemma_adj_get_at(s: Seq<(String, Seq<String>)>, k: Seq<char>, i: int)
    requires
        0 <= i < s.len(),
        s[i].0@ == k,
        forall|j: int| 0 <= j < i ==> (#[trigger] s[j]).0@ != k,
    ensures
        spec_adj_get(s, k) == Some(s[i].1),
    decreases s.len(),
{
    if i == 0 {
    } else {
        lemma_adj_get_at(s.drop_first(), k, i - 1);
    }
}

proof fn lemma_adj_get_absent(s: Seq<(String, Seq<String>)>, k: Seq<char>)
    requires
        forall|j: int| 0 <= j < s.len() ==> (#[trigger] s[j]).0@ != k,
    ensures
        spec_adj_get(s, k) is None,
    decreases s.len(),
{
    if s.len() == 0 {
    } else {
        lemma_adj_get_absent(s.drop_first(), k);
    }
}

fn list_remove_first(v: &mut Vec<String>, x: &str)
    ensures
        final (v)@ == spec_list_remove(old(v)@, x@),
{
    let ghost orig = old(v)@;
    let n = v.len();
    let mut i: usize = 0;
    while i < n
        invariant
            n == orig.len(),
            i <= n,
            orig == old(v)@,
            v@ == orig,
            forall|j: int| 0 <= j < i ==> (#[trigger] orig[j])@ != x@,
        decreases n - i,
    {
        if str_eq(v[i].as_str(), x) {
            let removed = v.remove(i);
            proof {
                lemma_list_remove_at(orig, x@, i as int);
                assert(v@ =~= orig.remove(i as int));
            }
            return ;
        }
        i = i + 1;
    }
    proof {
        lemma_list_remove_absent(orig, x@);
    }
}

proof fn lemma_list_remove_at(s: Seq<String>, x: Seq<char>, i: int)
    requires
        0 <= i < s.len(),
        s[i]@ == x,
        forall|j: int| 0 <= j < i ==> (#[trigger] s[j])@ != x,
    ensures
        spec_list_remove(s, x) == s.remove(i),
    decreases s.len(),
{
    if i == 0 {
        assert(spec_list_remove(s, x) =~= s.remove(0));
    } else {
        lemma_list_remove_at(s.drop_first(), x, i - 1);
        assert(spec_list_remove(s, x) =~= s.remove(i));
    }
}

proof fn lemma_list_remove_absent(s: Seq<String>, x: Seq<char>)
    requires
        forall|j: int| 0 <= j < s.len() ==> (#[trigger] s[j])@ != x,
    ensures
        spec_list_remove(s, x) == s,
    decreases s.len(),
{
    if s.len() == 0 {
    } else {
        lemma_list_remove_absent(s.drop_first(), x);
        assert(spec_list_remove(s, x) =~= s);
    }
}

/// Drop `x` (first occurrence) from `k`'s neighbour list, if `k` has one.
fn adj_unlink(s: &mut Vec<(String, Vec<String>)>, k: &str, x: &str)
    ensures
        spec_adjv(final (s)@) == spec_adj_unlink(spec_adjv(old(s)@), k@, x@),
{
    let ghost orig = old(s)@;
    let ghost origv = spec_adjv(orig);
    proof {
        assert(origv.len() == orig.len());
    }
    let n = s.len();
    let mut i: usize = 0;
    while i < n
        invariant
            n == orig.len(),
            i <= n,
            orig == old(s)@,
            origv == spec_adjv(orig),
            origv.len() == orig.len(),
            s@ == orig,
            forall|j: int| 0 <= j < i ==> (#[trigger] orig[j]).0@ != k@,
        decreases n - i,
    {
        proof {
            assert(forall|j: int|
                0 <= j < orig.len() ==> #[trigger] origv[j] == (orig[j].0, orig[j].1@));
        }
        if str_eq(s[i].0.as_str(), k) {
            let ghost gv = orig[i as int].1@;
            let entry = &mut s[i];
            list_remove_first(&mut entry.1, x);
            proof {
                lemma_adj_unlink_at(origv, k@, x@, i as int);
                assert(s@ =~= orig.update(i as int, s@[i as int]));
                assert(s@[i as int].0 == orig[i as int].0);
                assert(s@[i as int].1@ == spec_list_remove(gv, x@));
                assert(spec_adjv(s@) =~= origv.update(
                    i as int,
                    (origv[i as int].0, spec_list_remove(origv[i as int].1, x@)),
                ));
            }
            return ;
        }
        i = i + 1;
    }
    proof {
        assert(forall|j: int|
            0 <= j < orig.len() ==> #[trigger] origv[j] == (orig[j].0, orig[j].1@));
        lemma_adj_unlink_absent(origv, k@, x@);
    }
}

proof fn lemma_adj_unlink_at(s: Seq<(String, Seq<String>)>, k: Seq<char>, x: Seq<char>, i: int)
    requires
        0 <= i < s.len(),
        s[i].0@ == k,
        forall|j: int| 0 <= j < i ==> (#[trigger] s[j]).0@ != k,
    ensures
        spec_adj_unlink(s, k, x) == s.update(i, (s[i].0, spec_list_remove(s[i].1, x))),
    decreases s.len(),
{
    if i == 0 {
        assert(spec_adj_unlink(s, k, x) =~= s.update(0, (s[0].0, spec_list_remove(s[0].1, x))));
    } else {
        lemma_adj_unlink_at(s.drop_first(), k, x, i - 1);
        assert(spec_adj_unlink(s, k, x) =~= s.update(i, (s[i].0, spec_list_remove(s[i].1, x))));
    }
}

proof fn lemma_adj_unlink_absent(s: Seq<(String, Seq<String>)>, k: Seq<char>, x: Seq<char>)
    requires
        forall|j: int| 0 <= j < s.len() ==> (#[trigger] s[j]).0@ != k,
    ensures
        spec_adj_unlink(s, k, x) == s,
    decreases s.len(),
{
    if s.len() == 0 {
    } else {
        lemma_adj_unlink_absent(s.drop_first(), k, x);
        assert(spec_adj_unlink(s, k, x) =~= s);
    }
}

// ---------------------------------------------------------------------------
// The signal router
// ---------------------------------------------------------------------------

/// Whether a signal's unicast target (if any) names `me`.
pub open spec fn spec_target_ok(v: SignalView, me: Seq<char>) -> bool {
    match v.target {
        Some(t) => t == me,
        None => true,
    }
}

/// Global delivery: every signal is visible except one from a blacklisted
/// source or one aimed at someone else.
pub open spec fn spec_vis_global(
    vs: Seq<SignalView>,
    me: Seq<char>,
    blacklist: Seq<String>,
) -> Seq<SignalView>
    decreases vs.len(),
{
    if vs.len() == 0 {
        vs
    } else {
        let rest = spec_vis_global(vs.drop_last(), me, blacklist);
        let v = vs.last();
        let from_ok = match v.source {
            Some(src) => !spec_key_in(blacklist, src),
            None => true,
        };
        if from_ok && spec_target_ok(v, me) {
            rest.push(v)
        } else {
            rest
        }
    }
}

/// Graph delivery: a signal is visible only if it is unsourced (a system
/// injection) or its source sits in the recipient's adjacency list, subject
/// to the same target filter.
pub open spec fn spec_vis_graph(
    vs: Seq<SignalView>,
    me: Seq<char>,
    adj: Seq<String>,
) -> Seq<SignalView>
    decreases vs.len(),
{
    if vs.len() == 0 {
        vs
    } else {
        let rest = spec_vis_graph(vs.drop_last(), me, adj);
        let v = vs.last();
        let from_ok = match v.source {
            Some(src) => spec_key_in(adj, src),
            None => true,
        };
        if from_ok && spec_target_ok(v, me) {
            rest.push(v)
        } else {
            rest
        }
    }
}

fn target_ok(signal: &Signal, me: &str) -> (r: bool)
    ensures
        r == spec_target_ok(signal@, me@),
{
    match &signal.target {
        Some(t) => str_eq(t.as_str(), me),
        None => true,
    }
}

/// The signals a cell sees under global delivery.
pub fn visible_signals_global(
    signals: &Vec<Signal>,
    me: &str,
    blacklist: &Vec<String>,
) -> (r: Vec<Signal>)
    ensures
        views_of(r@) == spec_vis_global(views_of(signals@), me@, blacklist@),
{
    let mut out: Vec<Signal> = Vec::new();
    let n = signals.len();
    let mut i: usize = 0;
    while i < n
        invariant
            n == signals@.len(),
            i <= n,
            views_of(out@) =~= spec_vis_global(views_of(signals@.take(i as int)), me@, blacklist@),
        decreases n - i,
    {
        proof {
            assert(views_of(signals@.take(i as int + 1)).drop_last() =~= views_of(
                signals@.take(i as int),
            ));
            assert(views_of(signals@.take(i as int + 1)).last() == signals@[i as int]@);
        }
        let from_ok = match &signals[i].source {
            Some(src) => !contains_str(blacklist, src.as_str()),
            None => true,
        };
        if from_ok && target_ok(&signals[i], me) {
            let ghost before = out@;
            out.push(signals[i].clone());
            proof {
                assert(views_of(out@) =~= views_of(before).push(signals@[i as int]@));
            }
        }
        i = i + 1;
    }
    proof {
        assert(views_of(signals@.take(n as int)) =~= views_of(signals@));
    }
    out
}

/// The signals a cell sees under graph delivery.
pub fn visible_signals_graph(signals: &Vec<Signal>, me: &str, adj: &Vec<String>) -> (r: Vec<
    Signal,
>)
    ensures
        views_of(r@) == spec_vis_graph(views_of(signals@), me@, adj@),
{
    let mut out: Vec<Signal> = Vec::new();
    let n = signals.len();
    let mut i: usize = 0;
    while i < n
        invariant
            n == signals@.len(),
            i <= n,
            views_of(out@) =~= spec_vis_graph(views_of(signals@.take(i as int)), me@, adj@),
        decreases n - i,
    {
        proof {
            assert(views_of(signals@.take(i as int + 1)).drop_last() =~= views_of(
                signals@.take(i as int),
            ));
            assert(views_of(signals@.take(i as int + 1)).last() == signals@[i as int]@);
        }
        let from_ok = match &signals[i].source {
            Some(src) => contains_str(adj, src.as_str()),
            None => true,
        };
        if from_ok && target_ok(&signals[i], me) {
            let ghost before = out@;
            out.push(signals[i].clone());
            proof {
                assert(views_of(out@) =~= views_of(before).push(signals@[i as int]@));
            }
        }
        i = i + 1;
    }
    proof {
        assert(views_of(signals@.take(n as int)) =~= views_of(signals@));
    }
    out
}

/// The identities a cell detects under global delivery: everyone else,
/// blacklisted identities excluded.
pub open spec fn spec_detected_global(
    cells: Seq<SecurityCell>,
    me: Seq<char>,
    blacklist: Seq<String>,
) -> Seq<String>
    decreases cells.len(),
{
    if cells.len() == 0 {
        Seq::empty()
    } else {
        let rest = spec_detected_global(cells.drop_last(), me, blacklist);
        let id = cells.last().id;
        if id@ != me && !spec_key_in(blacklist, id@) {
            rest.push(id)
        } else {
            rest
        }
    }
}

pub fn detected_neighbors_global(
    cells: &Vec<SecurityCell>,
    me: &str,
    blacklist: &Vec<String>,
) -> (r: Vec<String>)
    ensures
        r@ == spec_detected_global(cells@, me@, blacklist@),
{
    let mut out: Vec<String> = Vec::new();
    let n = cells.len();
    let mut i: usize = 0;
    while i < n
        invariant
            n == cells@.len(),
            i <= n,
            out@ =~= spec_detected_global(cells@.take(i as int), me@, blacklist@),
        decreases n - i,
    {
        proof {
            assert(cells@.take(i as int + 1).drop_last() =~= cells@.take(i as int));
            assert(cells@.take(i as int + 1).last() == cells@[i as int]);
        }
        if !str_eq(cells[i].id.as_str(), me) && !contains_str(blacklist, cells[i].id.as_str()) {
            out.push(cells[i].id.clone());
        }
        i = i + 1;
    }
    proof {
        assert(cells@.take(n as int) =~= cells@);
    }
    out
}

fn clone_strings(v: &Vec<String>) -> (r: Vec<String>)
    ensures
        r@ == v@,
{
    let mut out: Vec<String> = Vec::new();
    let n = v.len();
    let mut i: usize = 0;
    while i < n
        invariant
            n == v@.len(),
            i <= n,
            out@ =~= v@.take(i as int),
        decreases n - i,
    {
        out.push(v[i].clone());
        proof {
            assert(out@ =~= v@.take(i as int + 1));
        }
        i = i + 1;
    }
    proof {
        assert(v@.take(n as int) =~= v@);
    }
    out
}

} // verus!

verus! {

/// Every cell in range: energy, stress and trust within bounds, signing
/// module intact.
pub open spec fn spec_cells_wf(cells: Seq<SecurityCell>) -> bool {
    forall|i: int| 0 <= i < cells.len() ==> (#[trigger] cells[i]).wf()
}

/// The linear-chain adjacency built for a fresh graph-topology run.
pub open spec fn spec_chain(cells: Seq<SecurityCell>) -> Seq<(String, Seq<String>)>
    decreases cells.len(),
{
    if cells.len() <= 1 {
        Seq::empty()
    } else {
        let rest = spec_chain(cells.drop_last());
        let cur = cells.last().id;
        let prev = cells[cells.len() - 2].id;
        spec_adj_add(spec_adj_add(rest, cur, prev), prev, cur)
    }
}

fn clone_events(v: &Vec<crate::immune::ThreatEvent>) -> (r: Vec<crate::immune::ThreatEvent>)
    ensures
        r@ == v@,
{
    let mut out: Vec<crate::immune::ThreatEvent> = Vec::new();
    let n = v.len();
    let mut i: usize = 0;
    while i < n
        invariant
            n == v@.len(),
            i <= n,
            out@ =~= v@.take(i as int),
        decreases n - i,
    {
        out.push(v[i].clone());
        proof {
            assert(out@ =~= v@.take(i as int + 1));
        }
        i = i + 1;
    }
    proof {
        assert(v@.take(n as int) =~= v@);
    }
    out
}

fn lineage_label(l: CellLineage) -> (r: String)
    ensures
        l == CellLineage::Stem ==> r@ == "Stem"@,
        l == CellLineage::Firewall ==> r@ == "Firewall"@,
        l == CellLineage::IntrusionDetection ==> r@ == "IntrusionDetection"@,
        l == CellLineage::Encryption ==> r@ == "Encryption"@,
        l == CellLineage::Healer ==> r@ == "Healer"@,
{
    match l {
        CellLineage::Stem => "Stem".to_owned(),
        CellLineage::Firewall => "Firewall".to_owned(),
        CellLineage::IntrusionDetection => "IntrusionDetection".to_owned(),
        CellLineage::Encryption => "Encryption".to_owned(),
        CellLineage::Healer => "Healer".to_owned(),
    }
}

/// The morphogenetic security runtime: a cell population, the signal bus,
/// the telemetry sink, the topology selector and the neighbour graph.
#[derive(Debug)]
pub struct MorphogeneticApp<TSink: TelemetrySink> {
    pub cells: Vec<SecurityCell>,
    pub signal_bus: SignalBus,
    pub telemetry: TSink,
    pub topology_config: TopologyConfig,
    pub neighbors: Vec<(String, Vec<String>)>,
}

impl<TSink: TelemetrySink> MorphogeneticApp<TSink> {
    pub open spec fn wf(self) -> bool {
        spec_cells_wf(self.cells@)
    }

    /// Assemble a runtime over `cells`. A graph topology starts as a linear
    /// chain, each link logged to telemetry.
    pub fn new(
        cells: Vec<SecurityCell>,
        telemetry: TSink,
        topology_config: TopologyConfig,
        now_ms: u128,
    ) -> (r: MorphogeneticApp<TSink>)
        requires
            spec_cells_wf(cells@),
        ensures
            r.wf(),
            r.cells == cells,
            r.topology_config == topology_config,
            r.signal_bus@ =~= Seq::<SignalView>::empty(),
            topology_config.strategy == TopologyStrategy::Global ==> r.neighbors@.len() == 0,
            topology_config.strategy == TopologyStrategy::Graph ==> spec_adjv(r.neighbors@)
                == spec_chain(cells@),
    {
        let mut telemetry = telemetry;
        let mut neighbors: Vec<(String, Vec<String>)> = Vec::new();
        match topology_config.strategy {
            TopologyStrategy::Global => {},
            TopologyStrategy::Graph => {
                let n = cells.len();
                let mut i: usize = 1;
                proof {
                    if n > 0 {
                        assert(spec_adjv(neighbors@) =~= spec_chain(cells@.take(1)));
                    }
                }
                while i < n
                    invariant
                        n == cells@.len(),
                        1 <= i,
                        i <= n || n == 0,
                        n == 0 ==> neighbors@.len() == 0,
                        n > 0 ==> spec_adjv(neighbors@) == spec_chain(cells@.take(i as int)),
                    decreases n - i,
                {
                    proof {
                        assert(cells@.take(i as int + 1).drop_last() =~= cells@.take(i as int));
                        assert(cells@.take(i as int + 1).last() == cells@[i as int]);
                        assert(cells@.take(i as int + 1)[i as int - 1] == cells@[i as int - 1]);
                    }
                    let current_id = cells[i].id.clone();
                    let prev_id = cells[i - 1].id.clone();
                    adj_push(&mut neighbors, &current_id, prev_id.clone());
                    adj_push(&mut neighbors, &prev_id, current_id.clone());
                    telemetry.record(
                        now_ms,
                        TelemetryEvent::LinkAdded { source: current_id, target: prev_id },
                    );
                    i = i + 1;
                }
                proof {
                    if n > 0 {
                        assert(cells@.take(n as int) =~= cells@);
                    } else {
                        assert(spec_adjv(neighbors@) =~= Seq::<(String, Seq<String>)>::empty());
                        assert(spec_chain(cells@) =~= Seq::<(String, Seq<String>)>::empty());
                    }
                }
            },
        }
        MorphogeneticApp { cells, signal_bus: SignalBus::new(), telemetry, topology_config, neighbors }
    }

    /// The telemetry sink, read-only.
    pub fn telemetry(&self) -> (r: &TSink)
        ensures
            r == &self.telemetry,
    {
        &self.telemetry
    }

    /// The telemetry sink, for direct recording.
    pub fn telemetry_mut(&mut self) -> (r: &mut TSink)
        ensures
            *r == old(self).telemetry,
            final (self).telemetry == *final (r),
            final (self).cells == old(self).cells,
            final (self).signal_bus == old(self).signal_bus,
            final (self).topology_config == old(self).topology_config,
            final (self).neighbors == old(self).neighbors,
    {
        &mut self.telemetry
    }

    /// Queue a signal for delivery at the next step.
    pub fn inject_signal(&mut self, signal: Signal)
        ensures
            final (self).signal_bus@ =~= old(self).signal_bus@.push(signal@),
            final (self).cells == old(self).cells,
            final (self).telemetry == old(self).telemetry,
            final (self).topology_config == old(self).topology_config,
            final (self).neighbors == old(self).neighbors,
    {
        self.signal_bus.publish(signal);
    }
}

} // verus!

verus! {

/// The degree of `id` in the adjacency table.
pub open spec fn spec_degree(adjv: Seq<(String, Seq<String>)>, id: Seq<char>) -> int {
    match spec_adj_get(adjv, id) {
        Some(l) => l.len() as int,
        None => 0,
    }
}

/// The sum of all cells' degrees, saturating.
pub open spec fn spec_total_degree(cells: Seq<SecurityCell>, adjv: Seq<(String, Seq<String>)>) -> u64
    decreases cells.len(),
{
    if cells.len() == 0 {
        0
    } else {
        let d = spec_degree(adjv, cells.last().id@);
        let capped: u64 = if d > u64::MAX { u64::MAX } else { d as u64 };
        spec_sat_add64(spec_total_degree(cells.drop_last(), adjv), capped)
    }
}

/// How many cells have no neighbours at all.
pub open spec fn spec_isolated(cells: Seq<SecurityCell>, adjv: Seq<(String, Seq<String>)>) -> int
    decreases cells.len(),
{
    if cells.len() == 0 {
        0
    } else {
        spec_isolated(cells.drop_last(), adjv) + if spec_degree(adjv, cells.last().id@) == 0 {
            1 as int
        } else {
            0 as int
        }
    }
}

impl<TSink: TelemetrySink> MorphogeneticApp<TSink> {
    /// Average degree (in milli-units) and isolation count of the current
    /// neighbour graph.
    pub fn calculate_topology_stats(&self) -> (r: TopologyStats)
        ensures
            self.cells@.len() == 0 ==> r == (TopologyStats {
                avg_degree: 0u32,
                isolation_count: 0u32,
            }),
            self.cells@.len() > 0 ==> {
                let total = spec_total_degree(self.cells@, spec_adjv(self.neighbors@));
                let avg = (total as int) * 1000 / (self.cells@.len() as int);
                &&& r.avg_degree == (if avg > u32::MAX { u32::MAX as int } else { avg })
                &&& r.isolation_count == {
                    let iso = spec_isolated(self.cells@, spec_adjv(self.neighbors@));
                    if iso > u32::MAX { u32::MAX as int } else { iso }
                }
            },
    {
        let n = self.cells.len();
        if n == 0 {
            return TopologyStats { avg_degree: 0, isolation_count: 0 };
        }
        let mut total: u64 = 0;
        let mut isolated: u64 = 0;
        let mut i: usize = 0;
        while i < n
            invariant
                n == self.cells@.len(),
                i <= n,
                total == spec_total_degree(self.cells@.take(i as int), spec_adjv(self.neighbors@)),
                isolated <= i,
                isolated == spec_isolated(self.cells@.take(i as int), spec_adjv(self.neighbors@)),
            decreases n - i,
        {
            proof {
                assert(self.cells@.take(i as int + 1).drop_last() =~= self.cells@.take(i as int));
                assert(self.cells@.take(i as int + 1).last() == self.cells@[i as int]);
            }
            let degree: usize = match adj_get(&self.neighbors, self.cells[i].id.as_str()) {
                Some(l) => l.len(),
                None => 0,
            };
            total = sat_add64(total, degree as u64);
            if degree == 0 {
                isolated = isolated + 1;
            }
            i = i + 1;
        }
        proof {
            assert(self.cells@.take(n as int) =~= self.cells@);
        }
        let avg128: u128 = (total as u128) * 1000 / (n as u128);
        let avg_degree: u32 = if avg128 > u32::MAX as u128 {
            u32::MAX
        } else {
            avg128 as u32
        };
        let isolation_count: u32 = if isolated > u32::MAX as u64 {
            u32::MAX
        } else {
            isolated as u32
        };
        TopologyStats { avg_degree, isolation_count }
    }

    /// Apply one collected action: grow, differentiate, emit, die, rewire or
    /// report, with the matching telemetry.
    fn handle_action(
        &mut self,
        index: usize,
        action: CellAction,
        now_ms: u128,
        directory: &mut PublicKeyDirectory,
    )
        requires
            index < old(self).cells@.len(),
            spec_cells_wf(old(self).cells@),
        ensures
            spec_cells_wf(final (self).cells@),
            final (self).cells@.len() >= old(self).cells@.len(),
            final (self).topology_config == old(self).topology_config,
            match action {
                CellAction::Idle => final (self).cells == old(self).cells && final (self).neighbors
                    == old(self).neighbors && final (self).signal_bus@ == old(self).signal_bus@,
                CellAction::Replicate(child_id) => {
                    &&& final (self).cells@.len() == old(self).cells@.len() + 1
                    &&& forall|j: int|
                        0 <= j < old(self).cells@.len() ==> #[trigger] final (self).cells@[j]
                            == old(self).cells@[j]
                    &&& final (self).cells@.last().id@ == child_id@
                    &&& !final (self).cells@.last().state.dead
                    &&& final (self).cells@.last().state.energy == 1000
                    &&& final (self).cells@.last().state.stress_level == 0
                    &&& final (self).cells@.last().state.blacklist@.len() == 0
                    &&& spec_genome_drifted(
                        old(self).cells@[index as int].genome,
                        final (self).cells@.last().genome,
                    )
                    &&& final (self).cells@.last().state.lineage == CellLineage::Stem
                    &&& final (self).cells@.last().state.immune_memory@ == old(self).cells@[index as int].state.immune_memory@
                    &&& final (self).cells@.last().state.neighbor_trust.entries@ == old(self).cells@[index as int].state.neighbor_trust.entries@
                    &&& (old(self).topology_config.strategy == TopologyStrategy::Graph
                        ==> spec_adjv(final (self).neighbors@) == spec_adj_add(
                        spec_adj_add(
                            spec_adjv(old(self).neighbors@),
                            old(self).cells@[index as int].id,
                            child_id,
                        ),
                        child_id,
                        old(self).cells@[index as int].id,
                    ))
                    &&& (old(self).topology_config.strategy == TopologyStrategy::Global ==> final (self).neighbors == old(self).neighbors)
                    &&& final (self).signal_bus@ == old(self).signal_bus@
                },
                CellAction::Differentiate(lineage) => {
                    &&& final (self).cells@.len() == old(self).cells@.len()
                    &&& forall|j: int|
                        0 <= j < old(self).cells@.len() && j != index ==> #[trigger] final (
                        self).cells@[j] == old(self).cells@[j]
                    &&& final (self).cells@[index as int].state.lineage == lineage
                    &&& final (self).cells@[index as int].id == old(self).cells@[index as int].id
                    &&& final (self).cells@[index as int].state.energy == old(self).cells@[index as int].state.energy
                    &&& final (self).cells@[index as int].state.dead == old(self).cells@[index as int].state.dead
                    &&& final (self).neighbors == old(self).neighbors
                    &&& final (self).signal_bus@ == old(self).signal_bus@
                },
                CellAction::EmitSignal(topic, value) => {
                    &&& final (self).cells == old(self).cells
                    &&& final (self).neighbors == old(self).neighbors
                    &&& final (self).signal_bus@.len() == old(self).signal_bus@.len() + 1
                    &&& final (self).signal_bus@.last() == (SignalView {
                        topic: topic@,
                        value: value,
                        source: Some(old(self).cells@[index as int].id@),
                        target: None,
                        attestation: None,
                    })
                    &&& final (self).signal_bus@.take(old(self).signal_bus@.len() as int) == old(self).signal_bus@
                },
                CellAction::Die => {
                    &&& final (self).cells@.len() == old(self).cells@.len()
                    &&& forall|j: int|
                        0 <= j < old(self).cells@.len() && j != index ==> #[trigger] final (
                        self).cells@[j] == old(self).cells@[j]
                    &&& final (self).cells@[index as int].state.dead
                    &&& final (self).cells@[index as int].id == old(self).cells@[index as int].id
                    &&& final (self).neighbors == old(self).neighbors
                    &&& final (self).signal_bus@ == old(self).signal_bus@
                },
                CellAction::Disconnect(target_id) => {
                    &&& final (self).cells@.len() == old(self).cells@.len()
                    &&& forall|j: int|
                        0 <= j < old(self).cells@.len() && j != index ==> #[trigger] final (
                        self).cells@[j] == old(self).cells@[j]
                    &&& final (self).cells@[index as int].id == old(self).cells@[index as int].id
                    &&& final (self).cells@[index as int].state.lineage == old(
                        self,
                    ).cells@[index as int].state.lineage
                    &&& final (self).cells@[index as int].state.energy == old(
                        self,
                    ).cells@[index as int].state.energy
                    &&& final (self).cells@[index as int].state.stress_level == old(
                        self,
                    ).cells@[index as int].state.stress_level
                    &&& final (self).cells@[index as int].state.dead == old(
                        self,
                    ).cells@[index as int].state.dead
                    &&& final (self).cells@[index as int].state.immune_memory == old(
                        self,
                    ).cells@[index as int].state.immune_memory
                    &&& final (self).cells@[index as int].state.neighbor_trust == old(
                        self,
                    ).cells@[index as int].state.neighbor_trust
                    &&& final (self).cells@[index as int].genome == old(
                        self,
                    ).cells@[index as int].genome
                    &&& final (self).cells@[index as int].state.blacklist@ == (
                    if spec_key_in(old(self).cells@[index as int].state.blacklist@, target_id@) {
                        old(self).cells@[index as int].state.blacklist@
                    } else {
                        old(self).cells@[index as int].state.blacklist@.push(target_id)
                    })
                    &&& (old(self).topology_config.strategy == TopologyStrategy::Graph
                        ==> spec_adjv(final (self).neighbors@) == spec_adj_unlink(
                        spec_adj_unlink(
                            spec_adjv(old(self).neighbors@),
                            old(self).cells@[index as int].id@,
                            target_id@,
                        ),
                        target_id@,
                        old(self).cells@[index as int].id@,
                    ))
                    &&& (old(self).topology_config.strategy == TopologyStrategy::Global ==> final (self).neighbors == old(self).neighbors)
                    &&& final (self).signal_bus@ == old(self).signal_bus@
                },
                CellAction::Connect(target_id) => {
                    &&& final (self).cells == old(self).cells
                    &&& (old(self).topology_config.strategy == TopologyStrategy::Graph
                        ==> spec_adjv(final (self).neighbors@) == spec_adj_add(
                        spec_adj_add(
                            spec_adjv(old(self).neighbors@),
                            old(self).cells@[index as int].id,
                            target_id,
                        ),
                        target_id,
                        old(self).cells@[index as int].id,
                    ))
                    &&& (old(self).topology_config.strategy == TopologyStrategy::Global ==> final (self).neighbors == old(self).neighbors)
                    &&& final (self).signal_bus@ == old(self).signal_bus@
                },
                CellAction::ReportAnomaly(topic, confidence, target, attestation) => {
                    &&& final (self).cells == old(self).cells
                    &&& final (self).neighbors == old(self).neighbors
                    &&& final (self).signal_bus@.len() == old(self).signal_bus@.len() + 1
                    &&& final (self).signal_bus@.last().topic == "consensus:"@ + topic@
                    &&& final (self).signal_bus@.last().value == confidence
                    &&& final (self).signal_bus@.last().source == Some(
                        old(self).cells@[index as int].id@,
                    )
                    &&& final (self).signal_bus@.last().target == spec_opt_view(target)
                    &&& final (self).signal_bus@.last().attestation == (match attestation {
                        Some(a) => Some(a@),
                        None => None,
                    })
                    &&& final (self).signal_bus@.take(old(self).signal_bus@.len() as int) == old(
                        self,
                    ).signal_bus@
                },
            },
    {
        match action {
            CellAction::Idle => {},
            CellAction::Replicate(child_id) => {
                let mut child = SecurityCell::new(child_id.as_str(), directory);
                child.genome = self.cells[index].genome;
                child.state.immune_memory = clone_events(&self.cells[index].state.immune_memory);
                child.state.neighbor_trust = self.cells[index].state.neighbor_trust.clone_table();
                child.genome.mutate();
                let parent_id = self.cells[index].id.clone();
                match self.topology_config.strategy {
                    TopologyStrategy::Graph => {
                        adj_push(&mut self.neighbors, &parent_id, child_id.clone());
                        adj_push(&mut self.neighbors, &child_id, parent_id.clone());
                        self.telemetry.record(
                            now_ms,
                            TelemetryEvent::LinkAdded {
                                source: parent_id.clone(),
                                target: child_id.clone(),
                            },
                        );
                    },
                    TopologyStrategy::Global => {},
                }
                self.telemetry.record(
                    now_ms,
                    TelemetryEvent::CellReplicated { cell_id: parent_id, child_id },
                );
                let ghost before = self.cells@;
                self.cells.push(child);
                proof {
                    assert(forall|j: int|
                        0 <= j < before.len() ==> #[trigger] self.cells@[j] == before[j]);
                }
            },
            CellAction::Differentiate(lineage) => {
                let cref = &mut self.cells[index];
                cref.state.lineage = lineage;
                let cell_id = self.cells[index].id.clone();
                self.telemetry.record(
                    now_ms,
                    TelemetryEvent::LineageShift { cell_id, lineage: lineage_label(lineage) },
                );
            },
            CellAction::EmitSignal(topic, value) => {
                let cell_id = self.cells[index].id.clone();
                self.signal_bus.publish(
                    Signal {
                        topic: topic.clone(),
                        value,
                        source: Some(cell_id.clone()),
                        target: None,
                        attestation: None,
                    },
                );
                self.telemetry.record(
                    now_ms,
                    TelemetryEvent::SignalEmitted { cell_id, topic, value },
                );
            },
            CellAction::Die => {
                let cref = &mut self.cells[index];
                cref.state.dead = true;
                let cell_id = self.cells[index].id.clone();
                self.telemetry.record(now_ms, TelemetryEvent::CellDied { cell_id });
            },
            CellAction::Disconnect(target_id) => {
                let cell_id = self.cells[index].id.clone();
                let cref = &mut self.cells[index];
                if !contains_str(&cref.state.blacklist, target_id.as_str()) {
                    cref.state.blacklist.push(target_id.clone());
                }
                match self.topology_config.strategy {
                    TopologyStrategy::Graph => {
                        adj_unlink(&mut self.neighbors, cell_id.as_str(), target_id.as_str());
                        adj_unlink(&mut self.neighbors, target_id.as_str(), cell_id.as_str());
                        self.telemetry.record(
                            now_ms,
                            TelemetryEvent::LinkRemoved { source: cell_id, target: target_id },
                        );
                    },
                    TopologyStrategy::Global => {
                        self.telemetry.record(
                            now_ms,
                            TelemetryEvent::LinkRemoved { source: cell_id, target: target_id },
                        );
                    },
                }
            },
            CellAction::Connect(target_id) => {
                match self.topology_config.strategy {
                    TopologyStrategy::Graph => {
                        let cell_id = self.cells[index].id.clone();
                        adj_push(&mut self.neighbors, &cell_id, target_id.clone());
                        adj_push(&mut self.neighbors, &target_id, cell_id.clone());
                        self.telemetry.record(
                            now_ms,
                            TelemetryEvent::LinkAdded { source: cell_id, target: target_id },
                        );
                    },
                    TopologyStrategy::Global => {},
                }
            },
            CellAction::ReportAnomaly(topic, confidence, target, attestation) => {
                let cell_id = self.cells[index].id.clone();
                self.telemetry.record(
                    now_ms,
                    TelemetryEvent::AnomalyDetected {
                        cell_id: cell_id.clone(),
                        topic: topic.clone(),
                        confidence,
                    },
                );
                let consensus_topic = crate::strutil::str_concat("consensus:", topic.as_str());
                self.signal_bus.publish(
                    Signal {
                        topic: consensus_topic,
                        value: confidence,
                        source: Some(cell_id.clone()),
                        target,
                        attestation,
                    },
                );
                self.telemetry.record(
                    now_ms,
                    TelemetryEvent::VoteCast { cell_id, target_topic: topic },
                );
            },
        }
    }
}

} // verus!

verus! {

/// One cell's environment for a step, as the router builds it from the
/// drained signal snapshot: the step index and threat score, the signals the
/// topology delivers to this cell, and the neighbours it detects.
pub open spec fn spec_env_of(
    cells: Seq<SecurityCell>,
    neighbors: Seq<(String, Vec<String>)>,
    strategy: TopologyStrategy,
    bus: Seq<SignalView>,
    i: int,
    env: CellEnvironment,
    step_index: u32,
    threat_score: u32,
) -> bool
    recommends
        0 <= i < cells.len(),
{
    &&& env.step == step_index
    &&& env.local_threat_score == threat_score
    &&& match strategy {
        TopologyStrategy::Global => {
            &&& views_of(env.neighbor_signals@) == spec_vis_global(
                bus,
                cells[i].id@,
                cells[i].state.blacklist@,
            )
            &&& env.detected_neighbors@ == spec_detected_global(
                cells,
                cells[i].id@,
                cells[i].state.blacklist@,
            )
        },
        TopologyStrategy::Graph => {
            &&& views_of(env.neighbor_signals@) == spec_vis_graph(
                bus,
                cells[i].id@,
                env.detected_neighbors@,
            )
            &&& match spec_adj_get(spec_adjv(neighbors), cells[i].id@) {
                Some(l) => env.detected_neighbors@ == l,
                None => env.detected_neighbors@.len() == 0,
            }
        },
    }
}

/// The signals the applied actions publish, in order: each emission and each
/// consensus report, attributed to the acting cell.
pub open spec fn spec_emissions(actions: Seq<CellAction>, cells: Seq<SecurityCell>) -> Seq<
    SignalView,
>
    recommends
        actions.len() <= cells.len(),
    decreases actions.len(),
{
    if actions.len() == 0 {
        Seq::empty()
    } else {
        let rest = spec_emissions(actions.drop_last(), cells);
        match actions.last() {
            CellAction::EmitSignal(topic, value) => rest.push(
                SignalView {
                    topic: topic@,
                    value: value,
                    source: Some(cells[actions.len() - 1].id@),
                    target: None,
                    attestation: None,
                },
            ),
            CellAction::ReportAnomaly(topic, confidence, target, attestation) => rest.push(
                SignalView {
                    topic: "consensus:"@ + topic@,
                    value: confidence,
                    source: Some(cells[actions.len() - 1].id@),
                    target: spec_opt_view(target),
                    attestation: match attestation {
                        Some(a) => Some(a@),
                        None => None,
                    },
                },
            ),
            _ => rest,
        }
    }
}

/// How many first-phase cells survive the step: those that neither entered
/// it dead nor were ordered to die.
pub open spec fn spec_survivor_count(mid: Seq<SecurityCell>, actions: Seq<CellAction>) -> int
    recommends
        mid.len() == actions.len(),
    decreases actions.len(),
{
    if actions.len() == 0 || mid.len() == 0 {
        0
    } else {
        spec_survivor_count(mid.drop_last(), actions.drop_last()) + (
        if mid.last().state.dead || actions.last() is Die {
            0 as int
        } else {
            1 as int
        })
    }
}

/// How many of the actions replicate, each appending one child.
pub open spec fn spec_replicate_count(actions: Seq<CellAction>) -> int
    decreases actions.len(),
{
    if actions.len() == 0 {
        0
    } else {
        spec_replicate_count(actions.drop_last()) + (
        if actions.last() is Replicate {
            1 as int
        } else {
            0 as int
        })
    }
}

/// How many cells are alive.
pub open spec fn spec_alive_count(cells: Seq<SecurityCell>) -> int
    decreases cells.len(),
{
    if cells.len() == 0 {
        0
    } else {
        spec_alive_count(cells.drop_last()) + (
        if cells.last().state.dead {
            0 as int
        } else {
            1 as int
        })
    }
}

proof fn lemma_alive_count_first(cells: Seq<SecurityCell>)
    requires
        cells.len() > 0,
    ensures
        spec_alive_count(cells) == spec_alive_count(cells.drop_first()) + (
        if cells[0].state.dead {
            0 as int
        } else {
            1 as int
        }),
    decreases cells.len(),
{
    if cells.len() == 1 {
        assert(spec_alive_count(Seq::<SecurityCell>::empty()) == 0);
        assert(cells.drop_first() =~= Seq::<SecurityCell>::empty());
        assert(cells.drop_last() =~= Seq::<SecurityCell>::empty());
        assert(cells.last() == cells[0]);
    } else {
        assert(cells.drop_last().len() > 0);
        lemma_alive_count_first(cells.drop_last());
        assert(cells.drop_first().drop_last() =~= cells.drop_last().drop_first());
        assert(cells.drop_first().last() == cells.last());
        assert(cells.drop_last()[0] == cells[0]);
        assert(spec_alive_count(cells.drop_first()) == spec_alive_count(
            cells.drop_first().drop_last(),
        ) + (if cells.drop_first().last().state.dead {
            0 as int
        } else {
            1 as int
        }));
        assert(spec_alive_count(cells) == spec_alive_count(cells.drop_last()) + (
        if cells.last().state.dead {
            0 as int
        } else {
            1 as int
        }));
    }
}

proof fn lemma_alive_count_all(cells: Seq<SecurityCell>)
    requires
        forall|i: int| 0 <= i < cells.len() ==> !(#[trigger] cells[i]).state.dead,
    ensures
        spec_alive_count(cells) == cells.len(),
    decreases cells.len(),
{
    if cells.len() > 0 {
        assert(forall|i: int|
            0 <= i < cells.drop_last().len() ==> !(#[trigger] cells.drop_last()[i]).state.dead);
        lemma_alive_count_all(cells.drop_last());
    }
}

/// Splitting the population after the second phase: the first `n0` slots
/// carry the death marks the actions ordered, the rest are freshly
/// replicated children, all alive.
proof fn lemma_alive_count_split(
    cells: Seq<SecurityCell>,
    mid: Seq<SecurityCell>,
    actions: Seq<CellAction>,
)
    requires
        mid.len() == actions.len(),
        actions.len() <= cells.len(),
        forall|i: int|
            0 <= i < actions.len() ==> (#[trigger] cells[i]).state.dead == (mid[i].state.dead
                || actions[i] is Die),
        forall|i: int|
            actions.len() <= i < cells.len() ==> !(#[trigger] cells[i]).state.dead,
    ensures
        spec_alive_count(cells) == spec_survivor_count(mid, actions) + (cells.len()
            - actions.len()),
    decreases cells.len(),
{
    if cells.len() == 0 {
    } else if cells.len() > actions.len() {
        lemma_alive_count_split(cells.drop_last(), mid, actions);
    } else {
        assert(cells.len() == actions.len());
        lemma_alive_count_split(cells.drop_last(), mid.drop_last(), actions.drop_last());
        assert(cells.last().state.dead == (mid.last().state.dead || actions.last() is Die));
    }
}

/// The two-phase trace of one step: every cell's environment comes from the
/// router over the drained queue, every cell's new state and action obey the
/// tick relation against that snapshot, the final queue holds exactly the
/// signals the applied actions published, in order, and the final population
/// holds exactly the survivors plus the replicated children.
pub open spec fn spec_step_trace(
    cells: Seq<SecurityCell>,
    neighbors: Seq<(String, Vec<String>)>,
    strategy: TopologyStrategy,
    bus: Seq<SignalView>,
    dir: Seq<(String, Vec<u8>)>,
    step_index: u32,
    threat_score: u32,
    bus_after: Seq<SignalView>,
    cells_after: Seq<SecurityCell>,
    envs: Seq<CellEnvironment>,
    actions: Seq<CellAction>,
    mid: Seq<SecurityCell>,
) -> bool {
    &&& envs.len() == cells.len()
    &&& actions.len() == cells.len()
    &&& mid.len() == cells.len()
    &&& forall|i: int|
        0 <= i < cells.len() ==> spec_env_of(
            cells,
            neighbors,
            strategy,
            bus,
            i,
            #[trigger] envs[i],
            step_index,
            threat_score,
        )
    &&& forall|i: int|
        0 <= i < cells.len() ==> crate::cellular::spec_tick_post(
            cells[i],
            envs[i],
            dir,
            mid[i],
            #[trigger] actions[i],
        )
    &&& bus_after == spec_emissions(actions, cells)
    &&& cells_after.len() == spec_survivor_count(mid, actions) + spec_replicate_count(actions)
}

proof fn lemma_detected_ids(
    a: Seq<SecurityCell>,
    b: Seq<SecurityCell>,
    me: Seq<char>,
    blacklist: Seq<String>,
)
    requires
        a.len() == b.len(),
        forall|i: int| 0 <= i < a.len() ==> (#[trigger] a[i]).id == b[i].id,
    ensures
        spec_detected_global(a, me, blacklist) == spec_detected_global(b, me, blacklist),
    decreases a.len(),
{
    if a.len() == 0 {
    } else {
        assert(forall|i: int|
            0 <= i < a.drop_last().len() ==> (#[trigger] a.drop_last()[i]).id == b.drop_last()[
            i].id);
        lemma_detected_ids(a.drop_last(), b.drop_last(), me, blacklist);
    }
}

impl<TSink: TelemetrySink> MorphogeneticApp<TSink> {
    /// One discrete time step, strictly two-phase: the queue is drained into
    /// an immutable snapshot and every cell's action is computed against it;
    /// the collected actions are then applied in order. The trace clause
    /// pins the phases down: each cell's environment is the router's view of
    /// the drained queue, each new cell state and action obey the tick
    /// relation, and the final queue holds exactly the signals the applied
    /// actions published, in order. Cells whose energy ran out are removed
    /// together with every edge that references them, and a step summary is
    /// recorded. No dead cell survives the step.
    #[verifier::rlimit(100)]
    pub fn step(
        &mut self,
        step_index: u32,
        threat_score: u32,
        now_ms: u128,
        directory: &mut PublicKeyDirectory,
    )
        requires
            spec_cells_wf(old(self).cells@),
        ensures
            spec_cells_wf(final (self).cells@),
            final (self).topology_config == old(self).topology_config,
            forall|i: int|
                0 <= i < final (self).cells@.len() ==> !(#[trigger] final (
                self).cells@[i]).state.dead,
            exists|envs: Seq<CellEnvironment>, actions: Seq<CellAction>, mid: Seq<SecurityCell>|
                spec_step_trace(
                    old(self).cells@,
                    old(self).neighbors@,
                    old(self).topology_config.strategy,
                    old(self).signal_bus@,
                    old(directory).entries@,
                    step_index,
                    threat_score,
                    final (self).signal_bus@,
                    final (self).cells@,
                    envs,
                    actions,
                    mid,
                ),
    {
        let ghost cells0 = self.cells@;
        let ghost bus0 = self.signal_bus@;
        let ghost neighbors0 = self.neighbors@;
        let ghost dir0 = directory.entries@;
        let ghost strat0 = self.topology_config.strategy;
        let ghost mut genvs: Seq<CellEnvironment> = Seq::empty();
        let ghost mut gactions: Seq<CellAction> = Seq::empty();
        let signals = self.signal_bus.drain();
        let n0 = self.cells.len();
        let mut actions: Vec<(usize, CellAction)> = Vec::new();
        let mut i: usize = 0;
        while i < n0
            invariant
                i <= n0,
                n0 == self.cells@.len(),
                n0 == cells0.len(),
                views_of(signals@) == bus0,
                self.signal_bus@ =~= Seq::<SignalView>::empty(),
                dir0 == directory.entries@,
                self.topology_config == old(self).topology_config,
                strat0 == old(self).topology_config.strategy,
                neighbors0 == old(self).neighbors@,
                self.neighbors == old(self).neighbors,
                spec_cells_wf(self.cells@),
                genvs.len() == i,
                gactions.len() == i,
                actions@.len() == i,
                forall|j: int|
                    0 <= j < i ==> (#[trigger] actions@[j]).0 == j && actions@[j].1 == gactions[j],
                forall|j: int| i <= j < n0 ==> #[trigger] self.cells@[j] == cells0[j],
                forall|j: int|
                    0 <= j < i ==> spec_env_of(
                        cells0,
                        neighbors0,
                        strat0,
                        bus0,
                        j,
                        #[trigger] genvs[j],
                        step_index,
                        threat_score,
                    ),
                forall|j: int|
                    0 <= j < i ==> crate::cellular::spec_tick_post(
                        cells0[j],
                        #[trigger] genvs[j],
                        dir0,
                        self.cells@[j],
                        gactions[j],
                    ),
                forall|j: int|
                    0 <= j < n0 ==> (#[trigger] self.cells@[j]).id == cells0[j].id,
            decreases n0 - i,
        {
            let me = self.cells[i].id.clone();
            let environment = match self.topology_config.strategy {
                TopologyStrategy::Global => {
                    let vis = visible_signals_global(
                        &signals,
                        me.as_str(),
                        &self.cells[i].state.blacklist,
                    );
                    let det = detected_neighbors_global(
                        &self.cells,
                        me.as_str(),
                        &self.cells[i].state.blacklist,
                    );
                    proof {
                        lemma_detected_ids(
                            self.cells@,
                            cells0,
                            me@,
                            cells0[i as int].state.blacklist@,
                        );
                    }
                    CellEnvironment {
                        step: step_index,
                        local_threat_score: threat_score,
                        neighbor_signals: vis,
                        detected_neighbors: det,
                    }
                },
                TopologyStrategy::Graph => {
                    let adj: Vec<String> = match adj_get(&self.neighbors, me.as_str()) {
                        Some(l) => clone_strings(l),
                        None => Vec::new(),
                    };
                    let vis = visible_signals_graph(&signals, me.as_str(), &adj);
                    CellEnvironment {
                        step: step_index,
                        local_threat_score: threat_score,
                        neighbor_signals: vis,
                        detected_neighbors: adj,
                    }
                },
            };
            let ghost env_g = environment;
            proof {
                assert(spec_env_of(
                    cells0,
                    neighbors0,
                    strat0,
                    bus0,
                    i as int,
                    env_g,
                    step_index,
                    threat_score,
                ));
            }
            let ghost pre_cells = self.cells@;
            let cref = &mut self.cells[i];
            let action = cref.tick(&environment, directory);
            let ghost act_g = action;
            proof {
                assert(self.cells@ =~= pre_cells.update(i as int, self.cells@[i as int]));
                assert(self.cells@[i as int].wf());
                assert forall|j: int| 0 <= j < self.cells@.len() implies (#[trigger] self.cells@[
                j]).wf() by {
                    if j != i {
                        assert(self.cells@[j] == pre_cells[j]);
                    }
                }
                genvs = genvs.push(env_g);
                gactions = gactions.push(act_g);
            }
            actions.push((i, action));
            i = i + 1;
        }
        let ghost gmid = self.cells@;
        let mut applied: usize = 0;
        proof {
            assert(gactions.take(0) =~= Seq::<CellAction>::empty());
        }
        while actions.len() > 0
            invariant
                spec_cells_wf(self.cells@),
                self.topology_config == old(self).topology_config,
                self.cells@.len() >= n0,
                n0 == cells0.len(),
                n0 == gmid.len(),
                gactions.len() == n0,
                applied + actions@.len() == n0,
                forall|j: int|
                    0 <= j < actions@.len() ==> (#[trigger] actions@[j]).0 == applied + j
                        && actions@[j].1 == gactions[applied + j],
                self.signal_bus@ == spec_emissions(gactions.take(applied as int), cells0),
                self.cells@.len() == n0 + spec_replicate_count(gactions.take(applied as int)),
                forall|j: int|
                    0 <= j < applied ==> (#[trigger] self.cells@[j]).state.dead == (
                    gmid[j].state.dead || gactions[j] is Die),
                forall|j: int| applied <= j < n0 ==> #[trigger] self.cells@[j] == gmid[j],
                forall|j: int|
                    n0 <= j < self.cells@.len() ==> !(#[trigger] self.cells@[j]).state.dead,
                forall|j: int|
                    0 <= j < n0 ==> (#[trigger] self.cells@[j]).id == cells0[j].id,
            decreases actions@.len(),
        {
            let ghost acts = actions@;
            let pair = actions.remove(0);
            proof {
                assert(forall|j: int|
                    0 <= j < actions@.len() ==> #[trigger] actions@[j] == acts[j + 1]);
            }
            let ghost pre_call_cells = self.cells@;
            self.handle_action(pair.0, pair.1, now_ms, directory);
            proof {
                assert(gactions.take(applied as int + 1).drop_last() =~= gactions.take(
                    applied as int,
                ));
                assert(gactions.take(applied as int + 1).last() == gactions[applied as int]);
                assert(pre_call_cells[applied as int].id == cells0[applied as int].id);
                assert(self.signal_bus@ =~= spec_emissions(
                    gactions.take(applied as int + 1),
                    cells0,
                ));
                assert forall|j: int| 0 <= j < n0 implies (#[trigger] self.cells@[j]).id
                    == cells0[j].id by {
                    assert(pre_call_cells[j].id == cells0[j].id);
                }
                assert(self.cells@.len() == n0 + spec_replicate_count(
                    gactions.take(applied as int + 1),
                ));
                assert(pre_call_cells[applied as int] == gmid[applied as int]);
                assert forall|j: int| 0 <= j < applied + 1 implies (#[trigger] self.cells@[
                j]).state.dead == (gmid[j].state.dead || gactions[j] is Die) by {
                    if j < applied {
                        assert(pre_call_cells[j].state.dead == (gmid[j].state.dead || gactions[j]
                            is Die));
                    }
                }
            }
            applied = applied + 1;
        }
        let ghost post2 = self.cells@;
        let ghost survivor_total = spec_survivor_count(gmid, gactions) + spec_replicate_count(
            gactions,
        );
        proof {
            assert(gactions.take(n0 as int) =~= gactions);
            lemma_alive_count_split(post2, gmid, gactions);
            assert(spec_alive_count(post2) == survivor_total);
        }
        let mut dead_ids: Vec<String> = Vec::new();
        let nn = self.cells.len();
        let mut di: usize = 0;
        while di < nn
            invariant
                di <= nn,
                nn == self.cells@.len(),
                spec_cells_wf(self.cells@),
                self.topology_config == old(self).topology_config,
                self.signal_bus@ == spec_emissions(gactions, cells0),
                dead_ids@.len() > 0 || forall|j: int|
                    0 <= j < di ==> !(#[trigger] self.cells@[j]).state.dead,
            decreases nn - di,
        {
            if self.cells[di].state.dead {
                dead_ids.push(self.cells[di].id.clone());
            }
            di = di + 1;
        }
        if dead_ids.len() > 0 {
            let mut alive: Vec<SecurityCell> = Vec::new();
            while self.cells.len() > 0
                invariant
                    spec_cells_wf(self.cells@),
                    spec_cells_wf(alive@),
                    forall|j: int|
                        0 <= j < alive@.len() ==> !(#[trigger] alive@[j]).state.dead,
                    self.topology_config == old(self).topology_config,
                    self.signal_bus@ == spec_emissions(gactions, cells0),
                    alive@.len() + spec_alive_count(self.cells@) == spec_alive_count(post2),
                decreases self.cells@.len(),
            {
                let ghost pre = self.cells@;
                let c = self.cells.remove(0);
                proof {
                    assert(c == pre[0]);
                    assert(c.wf());
                    lemma_alive_count_first(pre);
                    assert(self.cells@ =~= pre.drop_first());
                }
                if !c.state.dead {
                    alive.push(c);
                }
            }
            proof {
                assert(alive@.len() == spec_alive_count(post2));
            }
            self.cells = alive;
            match self.topology_config.strategy {
                TopologyStrategy::Graph => {
                    let dn = dead_ids.len();
                    let mut k: usize = 0;
                    while k < dn
                        invariant
                            k <= dn,
                            dn == dead_ids@.len(),
                            spec_cells_wf(self.cells@),
                            forall|j: int|
                                0 <= j < self.cells@.len() ==> !(#[trigger] self.cells@[
                                j]).state.dead,
                            self.topology_config == old(self).topology_config,
                            self.signal_bus@ == spec_emissions(gactions, cells0),
                            self.cells@.len() as int == survivor_total,
                        decreases dn - k,
                    {
                        match adj_remove_key(&mut self.neighbors, dead_ids[k].as_str()) {
                            Some(nbrs) => {
                                let bn = nbrs.len();
                                let mut b: usize = 0;
                                while b < bn
                                    invariant
                                        b <= bn,
                                        bn == nbrs@.len(),
                                        k < dead_ids@.len(),
                                        spec_cells_wf(self.cells@),
                                        forall|j: int|
                                            0 <= j < self.cells@.len() ==> !(
                                            #[trigger] self.cells@[j]).state.dead,
                                        self.topology_config == old(self).topology_config,
                                        self.signal_bus@ == spec_emissions(gactions, cells0),
                                        self.cells@.len() as int == survivor_total,
                                    decreases bn - b,
                                {
                                    self.telemetry.record(
                                        now_ms,
                                        TelemetryEvent::LinkRemoved {
                                            source: dead_ids[k].clone(),
                                            target: nbrs[b].clone(),
                                        },
                                    );
                                    b = b + 1;
                                }
                            },
                            None => {},
                        }
                        let en = self.neighbors.len();
                        let mut e: usize = 0;
                        while e < en
                            invariant
                                e <= en,
                                en == self.neighbors@.len(),
                                k < dead_ids@.len(),
                                spec_cells_wf(self.cells@),
                                forall|j: int|
                                    0 <= j < self.cells@.len() ==> !(#[trigger] self.cells@[
                                    j]).state.dead,
                                self.topology_config == old(self).topology_config,
                                self.signal_bus@ == spec_emissions(gactions, cells0),
                                self.cells@.len() as int == survivor_total,
                            decreases en - e,
                        {
                            let has = contains_str(&self.neighbors[e].1, dead_ids[k].as_str());
                            if has {
                                let nbr_id = self.neighbors[e].0.clone();
                                let ghost pre_adj = self.neighbors@;
                                let entry = &mut self.neighbors[e];
                                list_remove_first(&mut entry.1, dead_ids[k].as_str());
                                proof {
                                    assert(self.neighbors@ =~= pre_adj.update(
                                        e as int,
                                        self.neighbors@[e as int],
                                    ));
                                }
                                self.telemetry.record(
                                    now_ms,
                                    TelemetryEvent::LinkRemoved {
                                        source: nbr_id,
                                        target: dead_ids[k].clone(),
                                    },
                                );
                            }
                            e = e + 1;
                        }
                        k = k + 1;
                    }
                },
                TopologyStrategy::Global => {},
            }
        }
        proof {
            if dead_ids@.len() == 0 {
                assert(self.cells@ == post2);
                lemma_alive_count_all(post2);
            }
            assert(self.cells@.len() as int == survivor_total);
        }
        let cell_count = self.cells.len();
        let population_stats: Option<PopulationStats> = if (step_index % 10 == 0 || cell_count
            < 100) && cell_count <= u32::MAX as usize {
            Some(PopulationStats::from_cells(&self.cells))
        } else {
            None
        };
        let topology_stats = Some(self.calculate_topology_stats());
        self.telemetry.record(
            now_ms,
            TelemetryEvent::StepSummary {
                step: step_index,
                threat_score,
                cell_count,
                population_stats,
                topology_stats,
            },
        );
        proof {
            assert(spec_step_trace(
                cells0,
                neighbors0,
                strat0,
                bus0,
                dir0,
                step_index,
                threat_score,
                self.signal_bus@,
                self.cells@,
                genvs,
                gactions,
                gmid,
            ));
        }
    }
}

} // verus!
