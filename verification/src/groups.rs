//! Commands as the pickers list them: the runs of each command grouped,
//! newest command first, and the fuzzy filtering of runs and commands by
//! what the user types.

use vstd::prelude::*;
use crate::calendar::{local_string, local_text_ok, valid_ts};
use crate::differ::{code_of, Differ};
use crate::fuzzy_matcher::{bytes_of, ranked_matches, score_fits, FzfMatcher, MatchResult};
use crate::numbers::{parse_usize, parsed_usize};
use crate::selection::all_runs_valid;
use crate::storage::{CommandExecution, CommandRecord, Timestamp, ts_lt};
use crate::text::{dec_digits, decimal, owned, push_str, same_text, trim, trim_str};
use crate::time_order::{lemma_perm_onto, reached, sort_by_time, sorted_by_time};

verus! {

/// The runs of one command: its hash, the command line of its newest run,
/// how many runs it has, and when the newest ran.
#[derive(Debug)]
pub struct CommandGroup {
    pub command_hash: String,
    pub command: String,
    pub count: usize,
    pub latest: Timestamp,
}

/// The runs whose command has hash `h`.
pub open spec fn of_hash(h: Seq<char>) -> spec_fn(CommandRecord) -> bool {
    |r: CommandRecord| r.command_hash@ == h
}

/// `g` describes the runs of its command among `records`: their number,
/// the latest time, and the command line of the first run at that time.
pub open spec fn group_ok(records: Seq<CommandRecord>, g: CommandGroup) -> bool {
    let rs = records.filter(of_hash(g.command_hash@));
    &&& g.count == rs.len()
    &&& rs.len() > 0
    &&& forall|j: int| 0 <= j < rs.len() ==> !ts_lt(g.latest, #[trigger] rs[j].timestamp)
    &&& exists|k: int|
        0 <= k < rs.len() && (#[trigger] rs[k]).timestamp == g.latest && rs[k].command@ == g.command@
            && forall|j: int| 0 <= j < k ==> ts_lt(#[trigger] rs[j].timestamp, g.latest)
}

/// Some group of `gs` has hash `h`.
pub open spec fn has_hash(gs: Seq<CommandGroup>, h: Seq<char>) -> bool {
    exists|i: int| 0 <= i < gs.len() && (#[trigger] gs[i]).command_hash@ == h
}

/// `gs` groups `records`: each group right, one group per command, and
/// every run's command has its group.
pub open spec fn grouping_ok(records: Seq<CommandRecord>, gs: Seq<CommandGroup>) -> bool {
    &&& forall|i: int| 0 <= i < gs.len() ==> group_ok(records, #[trigger] gs[i])
    &&& forall|i: int, j: int|
        0 <= i < j < gs.len() ==> (#[trigger] gs[i]).command_hash@ != (#[trigger] gs[j]).command_hash@
    &&& forall|k: int| 0 <= k < records.len() ==> has_hash(gs, (#[trigger] records[k]).command_hash@)
}

/// `gs` groups `records`, the group with the newest run first.
pub open spec fn groups_ok(records: Seq<CommandRecord>, gs: Seq<CommandGroup>) -> bool {
    &&& grouping_ok(records, gs)
    &&& forall|i: int, j: int|
        0 <= i < j < gs.len() ==> !ts_lt((#[trigger] gs[i]).latest, (#[trigger] gs[j]).latest)
}

/// The text a run is found by: its position (from 1), its time, its
/// command, and its short code when it has one.
pub open spec fn run_search_text(i: int, date: Seq<char>, e: CommandExecution) -> Seq<char> {
    dec_digits((i + 1) as nat) + " "@ + date + " "@ + e.record.command@ + if code_of(e).len() > 0 {
        " "@ + code_of(e)
    } else {
        Seq::<char>::empty()
    }
}

/// The text a command group is found by: its command, its number of runs,
/// its latest time and its position (from 1).
pub open spec fn group_search_text(i: int, date: Seq<char>, g: CommandGroup) -> Seq<char> {
    g.command@ + " "@ + dec_digits(g.count as nat) + " "@ + date + " "@ + dec_digits((i + 1) as nat)
}

/// `r` lists the positions of the entries the fuzzy matcher ranks for
/// `input` among `texts`, best first; all positions, in order, when the
/// input is empty.
pub open spec fn filtered_ok(texts: Seq<Seq<char>>, input: Seq<char>, r: Seq<usize>) -> bool {
    if input.len() == 0 {
        r.len() == texts.len() && forall|i: int| 0 <= i < r.len() ==> #[trigger] r[i] == i
    } else {
        exists|items: Seq<(usize, String)>, out: Seq<(usize, String, MatchResult)>, src: Seq<int>|
            #![trigger ranked_matches(items, input, out, src)]
            items.len() == texts.len() && (forall|i: int|
                0 <= i < items.len() ==> (#[trigger] items[i]).0 == i && items[i].1@ == texts[i])
                && ranked_matches(items, input, out, src) && r == out.map_values(
                |o: (usize, String, MatchResult)| o.0,
            )
    }
}

/// Every listed position names one of the texts.
pub proof fn lemma_filtered_bounds(texts: Seq<Seq<char>>, input: Seq<char>, r: Seq<usize>)
    requires
        filtered_ok(texts, input, r),
    ensures
        forall|i: int| 0 <= i < r.len() ==> (#[trigger] r[i]) < texts.len(),
{
    if input.len() > 0 {
        let (items, out, src) = choose|items: Seq<(usize, String)>, out: Seq<(usize, String, MatchResult)>, src: Seq<int>|
            #![trigger ranked_matches(items, input, out, src)]
            items.len() == texts.len() && (forall|i: int|
                0 <= i < items.len() ==> (#[trigger] items[i]).0 == i && items[i].1@ == texts[i])
                && ranked_matches(items, input, out, src) && r == out.map_values(
                |o: (usize, String, MatchResult)| o.0,
            );
        assert forall|i: int| 0 <= i < r.len() implies (#[trigger] r[i]) < texts.len() by {
            assert(r[i] == out[i].0);
            assert(out[i].0 == items[src[i]].0);
            assert(items[src[i]].0 == src[i]);
        }
    }
}

/// The positions of `texts` that match `input`, best first (see
/// `filtered_ok`).
pub fn rank_positions(texts: Vec<String>, input: &str) -> (r: Vec<usize>)
    requires
        score_fits(bytes_of(input@)),
    ensures
        filtered_ok(texts@.map_values(|s: String| s@), input@, r@),
{
    let ghost tv = texts@.map_values(|s: String| s@);
    let n = texts.len();
    if input.is_empty() {
        let mut r: Vec<usize> = Vec::new();
        let mut i: usize = 0;
        while i < n
            invariant
                n == tv.len(),
                i <= n,
                r@.len() == i,
                forall|k: int| 0 <= k < i ==> #[trigger] r@[k] == k,
            decreases n - i,
        {
            r.push(i);
            i += 1;
        }
        return r;
    }
    let mut items: Vec<(usize, String)> = Vec::new();
    let mut i: usize = 0;
    for t in it: texts
        invariant
            it.seq().map_values(|s: String| s@) == tv,
            it.seq().len() == n,
            i == it.index(),
            items@.len() == i,
            forall|k: int| 0 <= k < i ==> (#[trigger] items@[k]).0 == k && items@[k].1@ == tv[k],
    {
        assert(tv[i as int] == t@);
        items.push((i, t));
        i += 1;
    }
    let ghost iv = items@;
    let m = FzfMatcher::new();
    let out = m.match_and_sort(input, items);
    let ghost ov = out@;
    let mut r: Vec<usize> = Vec::new();
    let mut j: usize = 0;
    while j < out.len()
        invariant
            ov == out@,
            j <= ov.len(),
            r@ == ov.take(j as int).map_values(|o: (usize, String, MatchResult)| o.0),
        decreases ov.len() - j,
    {
        r.push(out[j].0);
        j += 1;
        assert(r@ =~= ov.take(j as int).map_values(|o: (usize, String, MatchResult)| o.0));
    }
    proof {
        assert(ov.take(j as int) =~= ov);
        let src = choose|src: Seq<int>| ranked_matches(iv, input@, ov, src);
        assert(ranked_matches(iv, input@, ov, src));
        assert(iv.len() == tv.len());
    }
    r
}

/// The groups' records hold the group's facts after one more run.
proof fn lemma_group_push(records: Seq<CommandRecord>, r: CommandRecord, g: CommandGroup, g2: CommandGroup)
    requires
        group_ok(records, g),
        g2.command_hash@ == g.command_hash@,
        r.command_hash@ == g.command_hash@,
        g2.count == g.count + 1,
        ts_lt(g.latest, r.timestamp) ==> g2.latest == r.timestamp && g2.command@ == r.command@,
        !ts_lt(g.latest, r.timestamp) ==> g2.latest == g.latest && g2.command@ == g.command@,
    ensures
        group_ok(records.push(r), g2),
{
    let p = of_hash(g.command_hash@);
    records.lemma_filter_push(r, p);
    let rs = records.filter(p);
    let rs2 = records.push(r).filter(p);
    assert(rs2 == rs.push(r));
    let k = choose|k: int|
        0 <= k < rs.len() && (#[trigger] rs[k]).timestamp == g.latest && rs[k].command@ == g.command@
            && forall|j: int| 0 <= j < k ==> ts_lt(#[trigger] rs[j].timestamp, g.latest);
    if ts_lt(g.latest, r.timestamp) {
        assert forall|j: int| 0 <= j < rs2.len() implies !ts_lt(g2.latest, #[trigger] rs2[j].timestamp) by {
            if j < rs.len() {
                assert(rs2[j] == rs[j]);
                assert(!ts_lt(g.latest, rs[j].timestamp));
            }
        }
        let k2 = rs.len() as int;
        assert(rs2[k2] == r);
        assert forall|j: int| 0 <= j < k2 implies ts_lt(#[trigger] rs2[j].timestamp, g2.latest) by {
            assert(rs2[j] == rs[j]);
            assert(!ts_lt(g.latest, rs[j].timestamp));
        }
    } else {
        assert forall|j: int| 0 <= j < rs2.len() implies !ts_lt(g2.latest, #[trigger] rs2[j].timestamp) by {
            if j < rs.len() {
                assert(rs2[j] == rs[j]);
            }
        }
        assert(rs2[k] == rs[k]);
        assert forall|j: int| 0 <= j < k implies ts_lt(#[trigger] rs2[j].timestamp, g2.latest) by {
            assert(rs2[j] == rs[j]);
        }
    }
}

/// A group whose command is not the new run's keeps its facts.
proof fn lemma_group_other(records: Seq<CommandRecord>, r: CommandRecord, g: CommandGroup)
    requires
        group_ok(records, g),
        r.command_hash@ != g.command_hash@,
    ensures
        group_ok(records.push(r), g),
{
    let p = of_hash(g.command_hash@);
    records.lemma_filter_push(r, p);
    assert(records.push(r).filter(p) == records.filter(p));
}

/// A new group for a command with no runs so far.
proof fn lemma_group_new(records: Seq<CommandRecord>, r: CommandRecord, g: CommandGroup)
    requires
        forall|k: int| 0 <= k < records.len() ==> (#[trigger] records[k]).command_hash@ != r.command_hash@,
        g.command_hash@ == r.command_hash@,
        g.command@ == r.command@,
        g.count == 1,
        g.latest == r.timestamp,
    ensures
        group_ok(records.push(r), g),
{
    let p = of_hash(g.command_hash@);
    records.lemma_filter_push(r, p);
    assert(records.filter(p) =~= Seq::<CommandRecord>::empty()) by {
        let f = records.filter(p);
        if f.len() > 0 {
            assert(f.contains(f[0]));
            records.lemma_filter_contains_rev(p, f[0]);
            records.lemma_filter_pred(p, 0);
        }
    }
    let rs2 = records.push(r).filter(p);
    assert(rs2 =~= seq![r]);
    assert(rs2[0] == r);
}

impl Differ {
    /// The runs grouped by command (see `groups_ok`).
    pub fn build_command_groups(records: &Vec<CommandRecord>) -> (r: Vec<CommandGroup>)
        ensures
            groups_ok(records@, r@),
    {
        let mut groups: Vec<CommandGroup> = Vec::new();
        let mut i: usize = 0;
        while i < records.len()
            invariant
                i <= records@.len(),
                grouping_ok(records@.take(i as int), groups@),
                forall|g: int| 0 <= g < groups@.len() ==> (#[trigger] groups@[g]).count <= i,
            decreases records@.len() - i,
        {
            let rec = &records[i];
            let ghost pre = records@.take(i as int);
            let ghost post = records@.take(i + 1);
            assert(post =~= pre.push(*rec));
            let mut g: usize = 0;
            while g < groups.len() && !same_text(groups[g].command_hash.as_str(), rec.command_hash.as_str())
                invariant
                    g <= groups@.len(),
                    forall|q: int| 0 <= q < g ==> (#[trigger] groups@[q]).command_hash@ != rec.command_hash@,
                decreases groups@.len() - g,
            {
                g += 1;
            }
            let ghost old_groups = groups@;
            if g < groups.len() {
                let old_count = groups[g].count;
                let newer = groups[g].latest.is_before(&rec.timestamp);
                let latest = if newer {
                    rec.timestamp
                } else {
                    groups[g].latest
                };
                let command = if newer {
                    rec.command.clone()
                } else {
                    groups[g].command.clone()
                };
                let updated = CommandGroup {
                    command_hash: groups[g].command_hash.clone(),
                    command,
                    count: old_count + 1,
                    latest,
                };
                proof {
                    lemma_group_push(pre, *rec, old_groups[g as int], updated);
                }
                groups.set(g, updated);
                proof {
                    assert forall|q: int| 0 <= q < groups@.len() implies group_ok(post, #[trigger] groups@[q]) by {
                        if q != g {
                            assert(groups@[q] == old_groups[q]);
                            lemma_group_other(pre, *rec, old_groups[q]);
                        }
                    }
                    assert forall|a: int, b: int| 0 <= a < b < groups@.len() implies (#[trigger] groups@[a]).command_hash@
                        != (#[trigger] groups@[b]).command_hash@ by {
                        assert(groups@[a].command_hash@ == old_groups[a].command_hash@);
                        assert(groups@[b].command_hash@ == old_groups[b].command_hash@);
                    }
                    assert forall|k: int| 0 <= k < post.len() implies has_hash(groups@, (#[trigger] post[k]).command_hash@) by {
                        if k < pre.len() {
                            assert(post[k] == pre[k]);
                            assert(has_hash(old_groups, pre[k].command_hash@));
                            let q = choose|q: int| 0 <= q < old_groups.len() && (#[trigger] old_groups[q]).command_hash@ == pre[k].command_hash@;
                            assert(groups@[q].command_hash@ == old_groups[q].command_hash@);
                        } else {
                            assert(post[k] == *rec);
                            assert(groups@[g as int].command_hash@ == rec.command_hash@);
                        }
                    }
                }
            } else {
                let fresh = CommandGroup {
                    command_hash: rec.command_hash.clone(),
                    command: rec.command.clone(),
                    count: 1,
                    latest: rec.timestamp,
                };
                proof {
                    assert forall|k: int| 0 <= k < pre.len() implies (#[trigger] pre[k]).command_hash@ != rec.command_hash@ by {
                        assert(has_hash(old_groups, pre[k].command_hash@));
                        let q = choose|q: int| 0 <= q < old_groups.len() && (#[trigger] old_groups[q]).command_hash@ == pre[k].command_hash@;
                    }
                    lemma_group_new(pre, *rec, fresh);
                }
                groups.push(fresh);
                proof {
                    assert forall|q: int| 0 <= q < groups@.len() implies group_ok(post, #[trigger] groups@[q]) by {
                        if q < old_groups.len() {
                            assert(groups@[q] == old_groups[q]);
                            lemma_group_other(pre, *rec, old_groups[q]);
                        }
                    }
                    assert forall|a: int, b: int| 0 <= a < b < groups@.len() implies (#[trigger] groups@[a]).command_hash@
                        != (#[trigger] groups@[b]).command_hash@ by {
                        assert(groups@[a] == old_groups[a]);
                        if b < old_groups.len() {
                            assert(groups@[b] == old_groups[b]);
                        }
                    }
                    assert forall|k: int| 0 <= k < post.len() implies has_hash(groups@, (#[trigger] post[k]).command_hash@) by {
                        if k < pre.len() {
                            assert(post[k] == pre[k]);
                            assert(has_hash(old_groups, pre[k].command_hash@));
                            let q = choose|q: int| 0 <= q < old_groups.len() && (#[trigger] old_groups[q]).command_hash@ == pre[k].command_hash@;
                            assert(groups@[q] == old_groups[q]);
                        } else {
                            assert(post[k] == *rec);
                            assert(groups@[old_groups.len() as int].command_hash@ == rec.command_hash@);
                        }
                    }
                }
            }
            i += 1;
        }
        assert(records@.take(i as int) =~= records@);
        let ghost unsorted = groups@;
        let mut pairs: Vec<(Timestamp, CommandGroup)> = Vec::new();
        for grp in it: groups
            invariant
                it.seq() == unsorted,
                pairs@.len() == it.index(),
                forall|k: int| 0 <= k < it.index() ==> #[trigger] pairs@[k] == (unsorted[k].latest, unsorted[k]),
        {
            pairs.push((grp.latest, grp));
        }
        let ghost packed = pairs@;
        let sorted = sort_by_time(pairs, true);
        let ghost sv = sorted@;
        let ghost src = choose|src: Seq<int>| sorted_by_time(packed, sv, src, true);
        let mut out: Vec<CommandGroup> = Vec::new();
        for p in it: sorted
            invariant
                it.seq() == sv,
                out@.len() == it.index(),
                forall|k: int| 0 <= k < it.index() ==> #[trigger] out@[k] == sv[k].1,
        {
            out.push(p.1);
        }
        proof {
            let n = unsorted.len() as int;
            assert(sorted_by_time(packed, sv, src, true));
            assert forall|k: int| 0 <= k < out@.len() implies #[trigger] out@[k] == unsorted[src[k]] by {
                assert(sv[k] == packed[src[k]]);
            }
            assert forall|a: int| 0 <= a < out@.len() implies group_ok(records@, #[trigger] out@[a]) by {
                assert(out@[a] == unsorted[src[a]]);
            }
            assert forall|a: int, b: int| 0 <= a < b < out@.len() implies (#[trigger] out@[a]).command_hash@
                != (#[trigger] out@[b]).command_hash@ by {
                assert(out@[a] == unsorted[src[a]]);
                assert(out@[b] == unsorted[src[b]]);
                if src[a] < src[b] {
                } else {
                    assert(src[a] != src[b]);
                }
            }
            lemma_perm_onto(src, n);
            assert forall|k: int| 0 <= k < records@.len() implies has_hash(out@, (#[trigger] records@[k]).command_hash@) by {
                assert(has_hash(unsorted, records@[k].command_hash@));
                let q = choose|q: int| 0 <= q < unsorted.len() && (#[trigger] unsorted[q]).command_hash@ == records@[k].command_hash@;
                assert(reached(src, n, q));
                let a = choose|a: int| 0 <= a < n && #[trigger] src[a] == q;
                assert(out@[a] == unsorted[q]);
            }
            assert forall|a: int, b: int| 0 <= a < b < out@.len() implies !ts_lt((#[trigger] out@[a]).latest, (#[trigger] out@[b]).latest) by {
                assert(sv[a] == packed[src[a]]);
                assert(sv[b] == packed[src[b]]);
                assert(!crate::time_order::time_before(sv[b].0, sv[a].0, true));
            }
        }
        out
    }

    /// The local times of the runs, as the pickers show them: each run's
    /// time in the machine's time zone (see `local_text_ok`).
    pub fn local_times(executions: &Vec<CommandExecution>) -> (r: Vec<String>)
        requires
            all_runs_valid(executions@),
        ensures
            r@.len() == executions@.len(),
            forall|i: int| 0 <= i < r@.len() ==> local_text_ok(executions@[i].record.timestamp, #[trigger] r@[i]@),
    {
        let mut out: Vec<String> = Vec::new();
        let mut i: usize = 0;
        while i < executions.len()
            invariant
                i <= executions@.len(),
                all_runs_valid(executions@),
                out@.len() == i,
                forall|j: int| 0 <= j < i ==> local_text_ok(executions@[j].record.timestamp, #[trigger] out@[j]@),
            decreases executions@.len() - i,
        {
            out.push(local_string(executions[i].record.timestamp));
            i += 1;
        }
        out
    }

    /// The local times of the groups' newest runs, as the pickers show
    /// them (see `local_text_ok`).
    pub fn group_times(groups: &Vec<CommandGroup>) -> (r: Vec<String>)
        requires
            forall|i: int| 0 <= i < groups@.len() ==> valid_ts(#[trigger] groups@[i].latest),
        ensures
            r@.len() == groups@.len(),
            forall|i: int| 0 <= i < r@.len() ==> local_text_ok(groups@[i].latest, #[trigger] r@[i]@),
    {
        let mut out: Vec<String> = Vec::new();
        let mut i: usize = 0;
        while i < groups.len()
            invariant
                i <= groups@.len(),
                forall|i: int| 0 <= i < groups@.len() ==> valid_ts(#[trigger] groups@[i].latest),
                out@.len() == i,
                forall|j: int| 0 <= j < i ==> local_text_ok(groups@[j].latest, #[trigger] out@[j]@),
            decreases groups@.len() - i,
        {
            out.push(local_string(groups[i].latest));
            i += 1;
        }
        out
    }

    /// The texts the runs are found by (see `run_search_text`); `dates`
    /// are the runs' times as shown.
    pub fn run_search_texts(executions: &Vec<CommandExecution>, dates: &Vec<String>) -> (r: Vec<String>)
        requires
            dates@.len() == executions@.len(),
        ensures
            r@.map_values(|s: String| s@) == Seq::new(
                executions@.len(),
                |i: int| run_search_text(i, dates@[i]@, executions@[i]),
            ),
    {
        let ghost want = Seq::new(executions@.len(), |i: int| run_search_text(i, dates@[i]@, executions@[i]));
        let mut texts: Vec<String> = Vec::new();
        let mut i: usize = 0;
        while i < executions.len()
            invariant
                i <= executions@.len(),
                dates@.len() == executions@.len(),
                texts@.map_values(|s: String| s@) == want.take(i as int),
                want == Seq::new(executions@.len(), |i: int| run_search_text(i, dates@[i]@, executions@[i])),
            decreases executions@.len() - i,
        {
            let e = &executions[i];
            let mut t = decimal((i + 1) as u64);
            push_str(&mut t, " ");
            push_str(&mut t, dates[i].as_str());
            push_str(&mut t, " ");
            push_str(&mut t, e.record.command.as_str());
            let ghost before = t@;
            match &e.record.short_code {
                Some(c) => {
                    if !c.as_str().is_empty() {
                        push_str(&mut t, " ");
                        push_str(&mut t, c.as_str());
                    }
                },
                None => {},
            }
            proof {
                if code_of(*e).len() > 0 {
                    assert(t@ =~= before + (" "@ + code_of(*e)));
                } else {
                    assert(t@ =~= before + Seq::<char>::empty());
                }
                assert(t@ =~= run_search_text(i as int, dates@[i as int]@, *e));
            }
            let ghost tb = texts@.map_values(|s: String| s@);
            texts.push(t);
            assert(texts@.map_values(|s: String| s@) =~= tb.push(want[i as int]));
            i += 1;
            assert(want.take(i as int) =~= tb.push(want[i - 1]));
        }
        assert(want.take(i as int) =~= want);
        texts
    }

    /// The runs that match what the user typed, best first (see
    /// `filtered_ok` and `run_search_text`); `dates` are the runs' times as
    /// shown.
    pub fn compute_filtered_indices(executions: &Vec<CommandExecution>, dates: &Vec<String>, input: &str) -> (r: Vec<
        usize,
    >)
        requires
            dates@.len() == executions@.len(),
            score_fits(bytes_of(input@)),
        ensures
            filtered_ok(
                Seq::new(executions@.len(), |i: int| run_search_text(i, dates@[i]@, executions@[i])),
                input@,
                r@,
            ),
    {
        let texts = Self::run_search_texts(executions, dates);
        rank_positions(texts, input)
    }

    /// The texts the command groups are found by (see
    /// `group_search_text`); `dates` are the groups' latest times as shown.
    pub fn group_search_texts(groups: &Vec<CommandGroup>, dates: &Vec<String>) -> (r: Vec<String>)
        requires
            dates@.len() == groups@.len(),
        ensures
            r@.map_values(|s: String| s@) == Seq::new(
                groups@.len(),
                |i: int| group_search_text(i, dates@[i]@, groups@[i]),
            ),
    {
        let ghost want = Seq::new(groups@.len(), |i: int| group_search_text(i, dates@[i]@, groups@[i]));
        let mut texts: Vec<String> = Vec::new();
        let mut i: usize = 0;
        while i < groups.len()
            invariant
                i <= groups@.len(),
                dates@.len() == groups@.len(),
                texts@.map_values(|s: String| s@) == want.take(i as int),
                want == Seq::new(groups@.len(), |i: int| group_search_text(i, dates@[i]@, groups@[i])),
            decreases groups@.len() - i,
        {
            let g = &groups[i];
            let mut t = owned(g.command.as_str());
            push_str(&mut t, " ");
            let c = decimal(g.count as u64);
            push_str(&mut t, c.as_str());
            push_str(&mut t, " ");
            push_str(&mut t, dates[i].as_str());
            push_str(&mut t, " ");
            let p = decimal((i + 1) as u64);
            push_str(&mut t, p.as_str());
            assert(t@ =~= group_search_text(i as int, dates@[i as int]@, *g));
            let ghost tb = texts@.map_values(|s: String| s@);
            texts.push(t);
            assert(texts@.map_values(|s: String| s@) =~= tb.push(want[i as int]));
            i += 1;
            assert(want.take(i as int) =~= tb.push(want[i - 1]));
        }
        assert(want.take(i as int) =~= want);
        texts
    }

    /// The command groups that match what the user typed, best first (see
    /// `filtered_ok` and `group_search_text`); `dates` are the groups'
    /// latest times as shown.
    pub fn filter_group_indices(groups: &Vec<CommandGroup>, dates: &Vec<String>, input: &str) -> (r: Vec<usize>)
        requires
            dates@.len() == groups@.len(),
            score_fits(bytes_of(input@)),
        ensures
            filtered_ok(
                Seq::new(groups@.len(), |i: int| group_search_text(i, dates@[i]@, groups@[i])),
                input@,
                r@,
            ),
    {
        let texts = Self::group_search_texts(groups, dates);
        rank_positions(texts, input)
    }

    /// The group a typed number picks in the simple command selection: the
    /// trimmed input as a position from 1 among `n` groups.
    pub fn pick_group(n: usize, input: &str) -> (r: Option<usize>)
        ensures
            match r {
                Some(i) => i < n && parsed_usize(trim(input@)) == Some(i + 1),
                None => !(parsed_usize(trim(input@)) is Some && 1 <= parsed_usize(trim(input@))->0 <= n),
            },
    {
        let t = trim_str(input);
        match parse_usize(t.as_str()) {
            Some(idx) => if idx > 0 && idx <= n {
                Some(idx - 1)
            } else {
                None
            },
            None => None,
        }
    }
}

} // verus!
