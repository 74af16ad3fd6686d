//! Where records live and how the index of records is maintained: which
//! records stay in the index, which move to yearly archives, how records
//! are ordered, which records a clean-up selects, and which short code a
//! new run receives.

use vstd::prelude::*;
use crate::calendar::{days_before, is_valid_ts, min_secs, utc_date, utc_date_of, valid_ts};
use crate::config::Config;
use crate::path::{
    diff_paths_text, has_extension, join, opt_view, path_eq, path_has_extension, path_join,
    relative_path, same_path,
};
use crate::short_code::{base62, first_unused_code, is_first_unused};
use crate::storage::{CommandExecution, CommandRecord, Timestamp, ts_lt};
use crate::text::{decimal, dec_digits, owned, push_str, same_text, signed_decimal, signed_digits, trim};
use crate::time_order::{is_perm, lemma_perm_onto, reached, sort_by_time, sorted_by_time, time_before};
use crate::words::{contains_text, has_infix, is_subseq, is_subsequence, lowercase, split_words, texts, to_lower, words};

verus! {

/// `out` is `items` reordered by the permutation `src`, ordered by
/// timestamp in the requested direction, records with equal timestamps in
/// input order.
pub open spec fn records_sorted(
    items: Seq<CommandRecord>,
    out: Seq<CommandRecord>,
    src: Seq<int>,
    newest_first: bool,
) -> bool {
    &&& is_perm(src, items.len() as int)
    &&& out.len() == items.len()
    &&& forall|i: int| 0 <= i < out.len() ==> out[i] == items[#[trigger] src[i]]
    &&& forall|i: int, j: int|
        0 <= i < j < out.len() ==> !time_before(
            #[trigger] out[j].timestamp,
            #[trigger] out[i].timestamp,
            newest_first,
        )
    &&& forall|i: int, j: int|
        0 <= i < j < out.len() && out[i].timestamp == out[j].timestamp ==> #[trigger] src[i]
            < #[trigger] src[j]
}

/// Stable sort of records by timestamp (newest first or oldest first).
pub fn sort_records(records: Vec<CommandRecord>, newest_first: bool) -> (r: Vec<CommandRecord>)
    ensures
        exists|src: Seq<int>| records_sorted(records@, r@, src, newest_first),
{
    let ghost input = records@;
    let mut pairs: Vec<(Timestamp, CommandRecord)> = Vec::new();
    for rec in it: records
        invariant
            it.seq() == input,
            pairs@.len() == it.index(),
            forall|i: int| 0 <= i < it.index() ==> #[trigger] pairs@[i] == (input[i].timestamp, input[i]),
    {
        pairs.push((rec.timestamp, rec));
    }
    let ghost packed = pairs@;
    let sorted = sort_by_time(pairs, newest_first);
    let ghost src = choose|src: Seq<int>| sorted_by_time(packed, sorted@, src, newest_first);
    let ghost sorted_view = sorted@;
    let mut out: Vec<CommandRecord> = Vec::new();
    for p in it: sorted
        invariant
            it.seq() == sorted_view,
            sorted_by_time(packed, sorted_view, src, newest_first),
            forall|i: int| 0 <= i < packed.len() ==> #[trigger] packed[i] == (input[i].timestamp, input[i]),
            out@.len() == it.index(),
            forall|i: int| 0 <= i < it.index() ==> #[trigger] out@[i] == sorted_view[i].1,
    {
        out.push(p.1);
    }
    proof {
        assert forall|i: int| 0 <= i < out@.len() implies out@[i] == input[#[trigger] src[i]] by {
            assert(sorted_view[i] == packed[src[i]]);
        }
        assert forall|i: int| 0 <= i < out@.len() implies #[trigger] out@[i].timestamp == sorted_view[i].0 by {
            assert(sorted_view[i] == packed[src[i]]);
        }
        assert(records_sorted(input, out@, src, newest_first));
    }
    out
}

/// A record-by-record copy of `records`.
pub fn copy_records(records: &Vec<CommandRecord>) -> (r: Vec<CommandRecord>)
    ensures
        r@ == records@,
{
    let mut out: Vec<CommandRecord> = Vec::new();
    let mut i: usize = 0;
    while i < records.len()
        invariant
            i <= records@.len(),
            out@ == records@.take(i as int),
        decreases records@.len() - i,
    {
        out.push(records[i].duplicate());
        i += 1;
        assert(out@ =~= records@.take(i as int));
    }
    assert(records@.take(i as int) =~= records@);
    out
}

/// The records whose timestamp is strictly later than `c`.
pub open spec fn newer_than(records: Seq<CommandRecord>, c: Timestamp) -> Seq<CommandRecord> {
    records.filter(|r: CommandRecord| ts_lt(c, r.timestamp))
}

/// The records whose timestamp is not later than `c`.
pub open spec fn not_newer_than(records: Seq<CommandRecord>, c: Timestamp) -> Seq<CommandRecord> {
    records.filter(|r: CommandRecord| !ts_lt(c, r.timestamp))
}

/// Splitting at a cutoff loses no run: the runs later than the cutoff and
/// those that are not together are as many as all the runs.
pub proof fn lemma_split_keeps_all(records: Seq<CommandRecord>, c: Timestamp)
    ensures
        newer_than(records, c).len() + not_newer_than(records, c).len() == records.len(),
    decreases records.len(),
{
    if records.len() > 0 {
        let pre = records.drop_last();
        lemma_split_keeps_all(pre, c);
        assert(pre.push(records.last()) =~= records);
        pre.lemma_filter_push(records.last(), |r: CommandRecord| ts_lt(c, r.timestamp));
        pre.lemma_filter_push(records.last(), |r: CommandRecord| !ts_lt(c, r.timestamp));
    }
}

/// The index after a run joins it (as `index_update` orders it) holds the
/// run when it is later than the retention cutoff, and holds only runs
/// later than the cutoff.
pub proof fn lemma_saved_run_indexed(
    entries: Seq<CommandRecord>,
    record: CommandRecord,
    cutoff: Timestamp,
    index: Seq<CommandRecord>,
    src: Seq<int>,
)
    requires
        records_sorted(newer_than(entries.push(record), cutoff), index, src, true),
    ensures
        ts_lt(cutoff, record.timestamp) ==> index.contains(record),
        forall|i: int| 0 <= i < index.len() ==> ts_lt(cutoff, #[trigger] index[i].timestamp),
{
    let pred = |r: CommandRecord| ts_lt(cutoff, r.timestamp);
    let f = newer_than(entries.push(record), cutoff);
    entries.lemma_filter_push(record, pred);
    assert forall|i: int| 0 <= i < index.len() implies ts_lt(cutoff, #[trigger] index[i].timestamp) by {
        assert(index[i] == f[src[i]]);
        entries.push(record).lemma_filter_pred(pred, src[i]);
    }
    if ts_lt(cutoff, record.timestamp) {
        assert(f == newer_than(entries, cutoff).push(record));
        let last = f.len() - 1;
        lemma_perm_onto(src, f.len() as int);
        assert(reached(src, f.len() as int, last));
        let i = choose|i: int| 0 <= i < f.len() && #[trigger] src[i] == last;
        assert(index[i] == record);
    }
}

/// The records from `records` that are newer (or not newer) than `c`, in order.
fn split_by_cutoff(records: &Vec<CommandRecord>, c: Timestamp, newer: bool) -> (r: Vec<CommandRecord>)
    ensures
        r@ == if newer {
            newer_than(records@, c)
        } else {
            not_newer_than(records@, c)
        },
{
    let mut out: Vec<CommandRecord> = Vec::new();
    let mut i: usize = 0;
    while i < records.len()
        invariant
            i <= records@.len(),
            out@ == if newer {
                newer_than(records@.take(i as int), c)
            } else {
                not_newer_than(records@.take(i as int), c)
            },
        decreases records@.len() - i,
    {
        let rec = &records[i];
        let keep = if newer {
            c.is_before(&rec.timestamp)
        } else {
            !c.is_before(&rec.timestamp)
        };
        proof {
            assert(records@.take(i + 1) =~= records@.take(i as int).push(records@[i as int]));
            records@.take(i as int).lemma_filter_push(
                records@[i as int],
                |r: CommandRecord| ts_lt(c, r.timestamp),
            );
            records@.take(i as int).lemma_filter_push(
                records@[i as int],
                |r: CommandRecord| !ts_lt(c, r.timestamp),
            );
        }
        if keep {
            out.push(rec.duplicate());
        }
        i += 1;
    }
    proof {
        assert(records@.take(i as int) =~= records@);
    }
    out
}

/// The year of a record's timestamp in UTC, as a `u32` (`year() as u32`).
pub open spec fn year_of(r: CommandRecord) -> u32 {
    utc_date(r.timestamp.secs, r.timestamp.nanos).0 as u32
}

/// The records of `records` grouped by year: the years are distinct, every
/// record's year has a group, and each group holds exactly the records of
/// its year, in their order.
pub open spec fn grouped_by_year(records: Seq<CommandRecord>, groups: Seq<(u32, Vec<CommandRecord>)>) -> bool {
    &&& forall|i: int, j: int| 0 <= i < j < groups.len() ==> groups[i].0 != groups[j].0
    &&& forall|i: int|
        0 <= i < groups.len() ==> (#[trigger] groups[i]).1@ == records.filter(
            |r: CommandRecord| year_of(r) == groups[i].0,
        )
    &&& forall|k: int| 0 <= k < records.len() ==> has_group(groups, year_of(#[trigger] records[k]))
}

/// Some group of `groups` is labelled with year `y`.
pub open spec fn has_group(groups: Seq<(u32, Vec<CommandRecord>)>, y: u32) -> bool {
    exists|i: int| 0 <= i < groups.len() && #[trigger] groups[i].0 == y
}

/// A timestamp `chrono` can hold, for every record.
pub open spec fn all_valid(records: Seq<CommandRecord>) -> bool {
    forall|i: int| 0 <= i < records.len() ==> valid_ts(#[trigger] records[i].timestamp)
}

/// Groups records by the year of their timestamp, groups in order of first
/// appearance, records in their order within each group.
pub fn group_by_year(records: &Vec<CommandRecord>) -> (r: Vec<(u32, Vec<CommandRecord>)>)
    requires
        all_valid(records@),
    ensures
        grouped_by_year(records@, r@),
{
    let mut groups: Vec<(u32, Vec<CommandRecord>)> = Vec::new();
    let mut k: usize = 0;
    while k < records.len()
        invariant
            k <= records@.len(),
            all_valid(records@),
            grouped_by_year(records@.take(k as int), groups@),
        decreases records@.len() - k,
    {
        let rec = &records[k];
        let (y, _, _) = utc_date_of(rec.timestamp);
        let year = y as u32;
        let ghost pre = records@.take(k as int);
        let ghost post = records@.take(k + 1);
        proof {
            assert(post =~= pre.push(records@[k as int]));
            assert(year == year_of(records@[k as int]));
        }
        let mut g: usize = 0;
        while g < groups.len() && groups[g].0 != year
            invariant
                g <= groups@.len(),
                forall|q: int| 0 <= q < g ==> groups@[q].0 != year,
            decreases groups@.len() - g,
        {
            g += 1;
        }
        let ghost old_groups = groups@;
        if g < groups.len() {
            let mut members = copy_records(&groups[g].1);
            let ghost old_members = groups@[g as int].1@;
            members.push(rec.duplicate());
            groups.set(g, (year, members));
            proof {
                assert forall|i: int, j: int| 0 <= i < j < groups@.len() implies groups@[i].0
                    != groups@[j].0 by {
                    assert(groups@[i].0 == old_groups[i].0);
                    assert(groups@[j].0 == old_groups[j].0);
                }
                assert forall|i: int| 0 <= i < groups@.len() implies (#[trigger] groups@[i]).1@
                    == post.filter(|r: CommandRecord| year_of(r) == groups@[i].0) by {
                    pre.lemma_filter_push(records@[k as int], |r: CommandRecord| year_of(r) == groups@[i].0);
                    if i != g {
                        assert(groups@[i] == old_groups[i]);
                    }
                }
                assert forall|q: int| 0 <= q < post.len() implies has_group(groups@, year_of(#[trigger] post[q])) by {
                    if q < pre.len() {
                        assert(post[q] == pre[q]);
                        assert(has_group(old_groups, year_of(pre[q])));
                        let i = choose|i: int| 0 <= i < old_groups.len() && #[trigger] old_groups[i].0 == year_of(pre[q]);
                        assert(groups@[i].0 == old_groups[i].0);
                    } else {
                        assert(post[q] == records@[k as int]);
                        assert(groups@[g as int].0 == year_of(post[q]));
                    }
                }
            }
        } else {
            let mut members: Vec<CommandRecord> = Vec::new();
            members.push(rec.duplicate());
            groups.push((year, members));
            proof {
                assert forall|i: int, j: int| 0 <= i < j < groups@.len() implies groups@[i].0
                    != groups@[j].0 by {
                    assert(groups@[i].0 == old_groups[i].0);
                    if j < old_groups.len() {
                        assert(groups@[j].0 == old_groups[j].0);
                    }
                }
                assert forall|i: int| 0 <= i < groups@.len() implies (#[trigger] groups@[i]).1@
                    == post.filter(|r: CommandRecord| year_of(r) == groups@[i].0) by {
                    pre.lemma_filter_push(records@[k as int], |r: CommandRecord| year_of(r) == groups@[i].0);
                    if i < old_groups.len() {
                        assert(groups@[i] == old_groups[i]);
                    } else {
                        assert forall|q: int| 0 <= q < pre.len() implies year_of(#[trigger] pre[q]) != year by {
                            assert(has_group(old_groups, year_of(pre[q])));
                            let j = choose|j: int| 0 <= j < old_groups.len() && #[trigger] old_groups[j].0 == year_of(pre[q]);
                        }
                        assert(pre.filter(|r: CommandRecord| year_of(r) == year) =~= Seq::<CommandRecord>::empty()) by {
                            let f = pre.filter(|r: CommandRecord| year_of(r) == year);
                            if f.len() > 0 {
                                pre.lemma_filter_contains_rev(|r: CommandRecord| year_of(r) == year, f[0]);
                                assert(f.contains(f[0]));
                            }
                        }
                        assert(members@ =~= seq![records@[k as int]]);
                    }
                }
                assert forall|q: int| 0 <= q < post.len() implies has_group(groups@, year_of(#[trigger] post[q])) by {
                    if q < pre.len() {
                        assert(post[q] == pre[q]);
                        assert(has_group(old_groups, year_of(pre[q])));
                        let i = choose|i: int| 0 <= i < old_groups.len() && #[trigger] old_groups[i].0 == year_of(pre[q]);
                        assert(groups@[i].0 == old_groups[i].0);
                    } else {
                        assert(post[q] == records@[k as int]);
                        assert(groups@[old_groups.len() as int].0 == year_of(post[q]));
                    }
                }
            }
        }
        assert(grouped_by_year(post, groups@));
        k += 1;
    }
    proof {
        assert(records@.take(k as int) =~= records@);
    }
    groups
}

/// Whether every record's timestamp is one `chrono` can hold.
pub fn records_valid(records: &Vec<CommandRecord>) -> (r: bool)
    ensures
        r == all_valid(records@),
{
    let mut i: usize = 0;
    while i < records.len()
        invariant
            i <= records@.len(),
            forall|j: int| 0 <= j < i ==> valid_ts(#[trigger] records@[j].timestamp),
        decreases records@.len() - i,
    {
        if !is_valid_ts(records[i].timestamp) {
            return false;
        }
        i += 1;
    }
    true
}

/// `out` is `items` reordered by the permutation `src`, ordered by the
/// runs' timestamps in the requested direction, executions with equal
/// timestamps in input order.
pub open spec fn executions_sorted(
    items: Seq<CommandExecution>,
    out: Seq<CommandExecution>,
    src: Seq<int>,
    newest_first: bool,
) -> bool {
    &&& is_perm(src, items.len() as int)
    &&& out.len() == items.len()
    &&& forall|i: int| 0 <= i < out.len() ==> out[i] == items[#[trigger] src[i]]
    &&& forall|i: int, j: int|
        0 <= i < j < out.len() ==> !time_before(
            #[trigger] out[j].record.timestamp,
            #[trigger] out[i].record.timestamp,
            newest_first,
        )
    &&& forall|i: int, j: int|
        0 <= i < j < out.len() && out[i].record.timestamp == out[j].record.timestamp
            ==> #[trigger] src[i] < #[trigger] src[j]
}

/// Stable sort of executions by the runs' timestamps (newest first or
/// oldest first).
pub fn sort_executions(executions: Vec<CommandExecution>, newest_first: bool) -> (r: Vec<CommandExecution>)
    ensures
        exists|src: Seq<int>| executions_sorted(executions@, r@, src, newest_first),
{
    let ghost input = executions@;
    let mut pairs: Vec<(Timestamp, CommandExecution)> = Vec::new();
    for e in it: executions
        invariant
            it.seq() == input,
            pairs@.len() == it.index(),
            forall|i: int|
                0 <= i < it.index() ==> #[trigger] pairs@[i] == (input[i].record.timestamp, input[i]),
    {
        pairs.push((e.record.timestamp, e));
    }
    let ghost packed = pairs@;
    let sorted = sort_by_time(pairs, newest_first);
    let ghost src = choose|src: Seq<int>| sorted_by_time(packed, sorted@, src, newest_first);
    let ghost sorted_view = sorted@;
    let mut out: Vec<CommandExecution> = Vec::new();
    for p in it: sorted
        invariant
            it.seq() == sorted_view,
            sorted_by_time(packed, sorted_view, src, newest_first),
            forall|i: int|
                0 <= i < packed.len() ==> #[trigger] packed[i] == (input[i].record.timestamp, input[i]),
            out@.len() == it.index(),
            forall|i: int| 0 <= i < it.index() ==> #[trigger] out@[i] == sorted_view[i].1,
    {
        out.push(p.1);
    }
    proof {
        assert forall|i: int| 0 <= i < out@.len() implies out@[i] == input[#[trigger] src[i]] by {
            assert(sorted_view[i] == packed[src[i]]);
        }
        assert forall|i: int| 0 <= i < out@.len() implies #[trigger] out@[i].record.timestamp
            == sorted_view[i].0 by {
            assert(sorted_view[i] == packed[src[i]]);
        }
        assert(executions_sorted(input, out@, src, newest_first));
    }
    out
}

/// An archive after new records join it: the existing and the new records
/// together, newest first, records of equal time in that order.
pub fn merge_archive(existing: Vec<CommandRecord>, records: Vec<CommandRecord>) -> (r: Vec<
    CommandRecord,
>)
    ensures
        exists|src: Seq<int>| records_sorted(existing@ + records@, r@, src, true),
{
    let mut all = existing;
    let mut more = records;
    let ghost a = all@;
    let ghost b = more@;
    all.append(&mut more);
    assert(all@ == a + b);
    sort_records(all, true)
}

/// The base directory when none is given: `.dt` under the home directory,
/// or under the current directory when there is no home directory.
pub open spec fn default_base(home: Option<Seq<char>>) -> Seq<char> {
    path_join(
        match home {
            Some(h) => h,
            None => "."@,
        },
        ".dt"@,
    )
}

/// The base directory: the one given, else the default under `home`.
pub open spec fn chosen_base(base_override: Option<Seq<char>>, home: Option<Seq<char>>) -> Seq<char> {
    match base_override {
        Some(d) => d,
        None => default_base(home),
    }
}

/// The base directory for the given override and home directory.
pub fn base_dir_for(base_override: Option<String>, home: Option<String>) -> (r: String)
    ensures
        r@ == chosen_base(opt_view(base_override), opt_view(home)),
{
    match base_override {
        Some(d) => d,
        None => match home {
            Some(h) => join(h.as_str(), ".dt"),
            None => join(".", ".dt"),
        },
    }
}

/// The user's home directory (`dirs::home_dir`), as text. Nothing is
/// claimed: the answer comes from the environment.
#[verifier::external_body]
pub(crate) fn home_dir_text() -> (r: Option<String>) {
    dirs::home_dir().map(|p| p.to_string_lossy().into_owned())
}

/// A file name of a run: `prefix`, the run's second, `ext`.
pub open spec fn run_file(prefix: Seq<char>, secs: i64, ext: Seq<char>) -> Seq<char> {
    prefix + signed_digits(secs as int) + ext
}

fn run_file_name(prefix: &str, secs: i64, ext: &str) -> (r: String)
    ensures
        r@ == run_file(prefix@, secs, ext@),
{
    let mut r = owned(prefix);
    let d = signed_decimal(secs);
    push_str(&mut r, d.as_str());
    push_str(&mut r, ext);
    r
}

/// Whether a record concerns a file: it ran in that directory (`target`,
/// the file's absolute form, compared as a path), or its command mentions
/// the file as given, as absolute path, or relative to the run's directory.
pub open spec fn matches_file(r: CommandRecord, file: Seq<char>, target: Seq<char>) -> bool {
    ||| path_eq(r.working_dir@, target)
    ||| has_infix(r.command@, file)
    ||| has_infix(r.command@, target)
    ||| (match relative_path(file, r.working_dir@) {
        Some(rel) => has_infix(r.command@, rel),
        None => false,
    })
}

/// The test `matches_file` for one file, as a predicate on records.
pub open spec fn concerns(file: Seq<char>, target: Seq<char>) -> spec_fn(CommandRecord) -> bool {
    |c: CommandRecord| matches_file(c, file, target)
}

/// Whether a record's command matches a lower-cased query, as a substring
/// or as a subsequence of the lower-cased command.
pub open spec fn query_selects(command: Seq<char>, q: Seq<char>) -> bool {
    has_infix(lowercase(command), q) || is_subseq(q, lowercase(command))
}

/// The record ids of `records`.
pub open spec fn ids(records: Seq<CommandRecord>) -> Seq<Seq<char>> {
    records.map_values(|r: CommandRecord| r.record_id@)
}

/// The records of `items` whose id is neither in `seen` nor taken by an
/// earlier record of `items`.
pub open spec fn unique_new(seen: Seq<Seq<char>>, items: Seq<CommandRecord>) -> Seq<CommandRecord>
    decreases items.len(),
{
    if items.len() == 0 {
        seq![]
    } else if seen.contains(items[0].record_id@) {
        unique_new(seen, items.skip(1))
    } else {
        seq![items[0]] + unique_new(seen.push(items[0].record_id@), items.skip(1))
    }
}

/// A token of a command that may name a file: it holds a `/`, has an
/// extension, or is `ls` or `cat`.
pub open spec fn path_like(w: Seq<char>) -> bool {
    w.contains('/') || path_has_extension(w) || w == "ls"@ || w == "cat"@
}

/// The tokens of a command that may name files, in order.
pub open spec fn command_paths_of(command: Seq<char>) -> Seq<Seq<char>> {
    words(command).filter(|w: Seq<char>| path_like(w))
}

/// The paths related to `records`, in order: each record's working
/// directory (`false`), then the tokens of its command that may name files
/// (`true`, to be resolved against the file system).
pub open spec fn related_of(records: Seq<CommandRecord>) -> Seq<(Seq<char>, bool)>
    decreases records.len(),
{
    if records.len() == 0 {
        seq![]
    } else {
        related_of(records.drop_last()) + seq![(records.last().working_dir@, false)]
            + command_paths_of(records.last().command@).map_values(|w: Seq<char>| (w, true))
    }
}

/// The texts of a list of flagged paths.
pub open spec fn flagged(v: Seq<(String, bool)>) -> Seq<(Seq<char>, bool)> {
    v.map_values(|p: (String, bool)| (p.0@, p.1))
}

/// Where records are stored and how the index is kept.
pub struct StoreManager {
    base_dir: String,
    config: Config,
}

impl StoreManager {
    /// The base directory.
    pub closed spec fn base(&self) -> Seq<char> {
        self.base_dir@
    }

    /// The settings.
    pub closed spec fn settings(&self) -> Config {
        self.config
    }

    /// A manager for the given base directory, or for the default one
    /// (`.dt` in the home directory) when none is given. Creating the
    /// directories is left to the caller.
    pub fn new_with_config_and_base_dir(config: Config, base_override: Option<String>) -> (r: Self)
        ensures
            r.settings() == config,
            base_override is Some ==> r.base() == base_override->0@,
            base_override is None ==> exists|h: Option<Seq<char>>| r.base() == default_base(h),
    {
        let home = match base_override {
            Some(_) => None,
            None => home_dir_text(),
        };
        let ghost h = opt_view(home);
        let base_dir = base_dir_for(base_override, home);
        StoreManager { base_dir, config }
    }

    /// A manager for the default base directory (`.dt` in the home
    /// directory).
    pub fn new_with_config(config: Config) -> (r: Self)
        ensures
            r.settings() == config,
            exists|h: Option<Seq<char>>| r.base() == default_base(h),
    {
        Self::new_with_config_and_base_dir(config, None)
    }

    /// The base directory.
    pub fn base_dir(&self) -> (r: &str)
        ensures
            r@ == self.base(),
    {
        self.base_dir.as_str()
    }

    /// `<base>/records`.
    pub fn records_dir(&self) -> (r: String)
        ensures
            r@ == path_join(self.base(), "records"@),
    {
        join(self.base_dir.as_str(), "records")
    }

    /// `<base>/records/<command_hash>`: the runs of one command.
    pub fn record_dir(&self, command_hash: &str) -> (r: String)
        ensures
            r@ == path_join(path_join(self.base(), "records"@), command_hash@),
    {
        let d = self.records_dir();
        join(d.as_str(), command_hash)
    }

    /// The metadata file of a run: `meta_<second>.json` in its command's
    /// directory.
    pub fn meta_path(&self, record: &CommandRecord) -> (r: String)
        ensures
            r@ == path_join(
                path_join(path_join(self.base(), "records"@), record.command_hash@),
                run_file("meta_"@, record.timestamp.secs, ".json"@),
            ),
    {
        let d = self.record_dir(record.command_hash.as_str());
        let f = run_file_name("meta_", record.timestamp.secs, ".json");
        join(d.as_str(), f.as_str())
    }

    /// The standard output file of a run: `stdout_<second>.txt`.
    pub fn stdout_path(&self, record: &CommandRecord) -> (r: String)
        ensures
            r@ == path_join(
                path_join(path_join(self.base(), "records"@), record.command_hash@),
                run_file("stdout_"@, record.timestamp.secs, ".txt"@),
            ),
    {
        let d = self.record_dir(record.command_hash.as_str());
        let f = run_file_name("stdout_", record.timestamp.secs, ".txt");
        join(d.as_str(), f.as_str())
    }

    /// The standard error file of a run: `stderr_<second>.txt`.
    pub fn stderr_path(&self, record: &CommandRecord) -> (r: String)
        ensures
            r@ == path_join(
                path_join(path_join(self.base(), "records"@), record.command_hash@),
                run_file("stderr_"@, record.timestamp.secs, ".txt"@),
            ),
    {
        let d = self.record_dir(record.command_hash.as_str());
        let f = run_file_name("stderr_", record.timestamp.secs, ".txt");
        join(d.as_str(), f.as_str())
    }

    /// `<base>/index`: the current runs, newest first.
    pub fn index_path(&self) -> (r: String)
        ensures
            r@ == path_join(self.base(), "index"@),
    {
        join(self.base_dir.as_str(), "index")
    }

    /// `<base>/index_<year>.json`: the archive of one year.
    pub fn archive_path(&self, year: u32) -> (r: String)
        ensures
            r@ == path_join(self.base(), "index_"@ + dec_digits(year as nat) + ".json"@),
    {
        let mut f = owned("index_");
        let d = decimal(year as u64);
        push_str(&mut f, d.as_str());
        push_str(&mut f, ".json");
        join(self.base_dir.as_str(), f.as_str())
    }

    /// The short code numbered `n` (from 1): bijective base 62 over
    /// `a`-`z`, `A`-`Z`, `0`-`9`; empty for 0.
    pub fn encode_bijective_base62(n: u64) -> (r: String)
        ensures
            r@ == base62(n as nat),
    {
        crate::short_code::encode_bijective_base62(n)
    }

    /// Gives `record` the smallest short code that none of `used` (the
    /// codes of the command's earlier runs) holds; the rest of the record
    /// stays as it was.
    pub fn assign_short_code(&self, record: &mut CommandRecord, used: &Vec<String>)
        requires
            used@.len() < u64::MAX,
        ensures
            final(record).short_code is Some,
            is_first_unused(used@, final(record).short_code->0@),
            *final(record) == (CommandRecord { short_code: final(record).short_code, ..*old(record) }),
    {
        let code = first_unused_code(used);
        record.short_code = Some(code);
    }

    /// The oldest time a run may have to stay in the index: `days` whole
    /// days before `now`, `days` being the retention setting.
    pub fn retention_cutoff(&self, now: Timestamp) -> (r: Timestamp)
        requires
            valid_ts(now),
            now.secs - 86400 * self.settings().storage.max_retention_days >= min_secs(),
        ensures
            r.secs == now.secs - 86400 * self.settings().storage.max_retention_days,
            r.nanos == now.nanos,
    {
        days_before(now, self.config.storage.max_retention_days)
    }

    /// The retention cutoff for the time `now`, checked: `None` when `now`
    /// is not a time `chrono` can hold, or when going back the retention
    /// period would fall before the earliest time it holds; else the
    /// cutoff that `retention_cutoff` gives.
    pub fn retention_cutoff_checked(&self, now: Timestamp) -> (r: Option<Timestamp>)
        ensures
            r is Some <==> (valid_ts(now) && now.secs - 86400 * self.settings().storage.max_retention_days
                >= min_secs()),
            r is Some ==> r->0.secs == now.secs - 86400 * self.settings().storage.max_retention_days
                && r->0.nanos == now.nanos,
    {
        if !is_valid_ts(now) {
            return None;
        }
        let days = self.config.storage.max_retention_days;
        let back: i64 = 86400 * (days as i64);
        if now.secs - back < -8334601315200i64 {
            return None;
        }
        Some(self.retention_cutoff(now))
    }

    /// The index after a run joins it, and the archive groups: of the
    /// index `entries` and the new `record`, the runs later than `cutoff`
    /// stay, newest first; with archiving on, the earlier runs of `entries`
    /// go to the archive of their year, grouped by year.
    pub fn index_update(&self, entries: Vec<CommandRecord>, record: &CommandRecord, cutoff: Timestamp) -> (r: (
        Vec<CommandRecord>,
        Vec<(u32, Vec<CommandRecord>)>,
    ))
        requires
            all_valid(entries@),
        ensures
            exists|src: Seq<int>| records_sorted(newer_than(entries@.push(*record), cutoff), r.0@, src, true),
            self.settings().storage.auto_archive ==> grouped_by_year(
                not_newer_than(entries@, cutoff),
                r.1@,
            ),
            !self.settings().storage.auto_archive ==> r.1@.len() == 0,
    {
        let mut groups: Vec<(u32, Vec<CommandRecord>)> = Vec::new();
        if self.config.storage.auto_archive {
            let old = split_by_cutoff(&entries, cutoff, false);
            proof {
                assert forall|i: int| 0 <= i < old@.len() implies valid_ts(#[trigger] old@[i].timestamp) by {
                    assert(old@.contains(old@[i]));
                    entries@.lemma_filter_contains_rev(|r: CommandRecord| !ts_lt(cutoff, r.timestamp), old@[i]);
                    let k = choose|k: int| 0 <= k < entries@.len() && entries@[k] == old@[i];
                    assert(valid_ts(entries@[k].timestamp));
                }
            }
            groups = group_by_year(&old);
        }
        let ghost e = entries@;
        let mut all = entries;
        all.push(record.duplicate());
        assert(all@ == e.push(*record));
        let kept = split_by_cutoff(&all, cutoff, true);
        let ghost kv = kept@;
        assert(kv == newer_than(e.push(*record), cutoff));
        let index = sort_records(kept, true);
        proof {
            let src = choose|src: Seq<int>| records_sorted(kv, index@, src, true);
            assert(records_sorted(newer_than(e.push(*record), cutoff), index@, src, true));
            assert(e == entries@);
            assert(records_sorted(newer_than(entries@.push(*record), cutoff), index@, src, true));
        }
        let ghost iv = index@;
        let r = (index, groups);
        assert(r.0@ == iv);
        r
    }

    /// The runs to clean for a query: `None` when the trimmed query is
    /// empty (nothing is cleaned), else the records whose lower-cased
    /// command holds the lower-cased query as a substring or as a
    /// subsequence, in order.
    pub fn clean_by_query(&self, records: Vec<CommandRecord>, query: &str) -> (r: Option<Vec<CommandRecord>>)
        ensures
            trim(query@).len() == 0 ==> r is None,
            trim(query@).len() > 0 ==> r is Some && r->0@ == records@.filter(
                |c: CommandRecord| query_selects(c.command@, lowercase(trim(query@))),
            ),
    {
        let q = crate::text::trim_str(query);
        if q.as_str().is_empty() {
            return None;
        }
        let ql = to_lower(q.as_str());
        let mut out: Vec<CommandRecord> = Vec::new();
        let mut i: usize = 0;
        let ghost pred = |c: CommandRecord| query_selects(c.command@, lowercase(trim(query@)));
        while i < records.len()
            invariant
                i <= records@.len(),
                ql@ == lowercase(trim(query@)),
                pred == (|c: CommandRecord| query_selects(c.command@, lowercase(trim(query@)))),
                out@ == records@.take(i as int).filter(pred),
            decreases records@.len() - i,
        {
            let rec = &records[i];
            let cl = to_lower(rec.command.as_str());
            let substring = contains_text(cl.as_str(), ql.as_str());
            let fuzzy = !substring && is_subsequence(ql.as_str(), cl.as_str());
            proof {
                assert(records@.take(i + 1) =~= records@.take(i as int).push(records@[i as int]));
                records@.take(i as int).lemma_filter_push(records@[i as int], pred);
            }
            if substring || fuzzy {
                out.push(rec.duplicate());
            }
            i += 1;
        }
        proof {
            assert(records@.take(i as int) =~= records@);
        }
        Some(out)
    }

    /// Whether a record concerns a file (see `matches_file`); `target_path`
    /// is the file's absolute form, or the path as given when it has none.
    pub fn record_matches_file(&self, record: &CommandRecord, file_path: &str, target_path: &str) -> (r: bool)
        ensures
            r == matches_file(*record, file_path@, target_path@),
    {
        let mut matched = false;
        if same_path(record.working_dir.as_str(), target_path) {
            matched = true;
        }
        if contains_text(record.command.as_str(), file_path) || contains_text(
            record.command.as_str(),
            target_path,
        ) {
            matched = true;
        }
        match diff_paths_text(file_path, record.working_dir.as_str()) {
            Some(rel) => {
                if contains_text(record.command.as_str(), rel.as_str()) {
                    matched = true;
                }
            },
            None => {},
        }
        matched
    }

    /// The records that concern a file, in order.
    pub fn clean_by_file(&self, records: Vec<CommandRecord>, file_path: &str, target_path: &str) -> (r: Vec<
        CommandRecord,
    >)
        ensures
            r@ == records@.filter(concerns(file_path@, target_path@)),
    {
        let mut out: Vec<CommandRecord> = Vec::new();
        let mut i: usize = 0;
        let ghost pred = concerns(file_path@, target_path@);
        while i < records.len()
            invariant
                i <= records@.len(),
                pred == concerns(file_path@, target_path@),
                out@ == records@.take(i as int).filter(pred),
            decreases records@.len() - i,
        {
            let rec = &records[i];
            let m = self.record_matches_file(rec, file_path, target_path);
            proof {
                assert(records@.take(i + 1) =~= records@.take(i as int).push(records@[i as int]));
                records@.take(i as int).lemma_filter_push(records@[i as int], pred);
            }
            if m {
                out.push(rec.duplicate());
            }
            i += 1;
        }
        proof {
            assert(records@.take(i as int) =~= records@);
        }
        out
    }

    /// The archive after a backup for a file: `None` when no record
    /// concerns the file (nothing is written), else the `existing` archive
    /// with the concerned records whose id it does not hold yet (each id
    /// once), newest first.
    pub fn backup_by_file(
        &self,
        records: Vec<CommandRecord>,
        file_path: &str,
        target_path: &str,
        existing: Vec<CommandRecord>,
    ) -> (r: Option<Vec<CommandRecord>>)
        ensures
            ({
                let chosen = records@.filter(concerns(file_path@, target_path@));
                &&& chosen.len() == 0 ==> r is None
                &&& chosen.len() > 0 ==> r is Some && exists|src: Seq<int>|
                    records_sorted(existing@ + unique_new(ids(existing@), chosen), r->0@, src, true)
            }),
    {
        let chosen = self.clean_by_file(records, file_path, target_path);
        if chosen.len() == 0 {
            return None;
        }
        let ghost ch = chosen@;
        let mut seen: Vec<String> = Vec::new();
        let mut i: usize = 0;
        while i < existing.len()
            invariant
                i <= existing@.len(),
                texts(seen@) == ids(existing@).take(i as int),
            decreases existing@.len() - i,
        {
            let ghost before = seen@;
            seen.push(existing[i].record_id.clone());
            assert(seen@ == before.push(existing@[i as int].record_id));
            assert(ids(existing@).take(i + 1) =~= ids(existing@).take(i as int).push(existing@[i as int].record_id@));
            assert(texts(seen@) =~= texts(before).push(existing@[i as int].record_id@));
            i += 1;
        }
        assert(ids(existing@).take(i as int) =~= ids(existing@));
        let mut added: Vec<CommandRecord> = Vec::new();
        let mut k: usize = 0;
        assert(ch.skip(0) =~= ch);
        assert(added@ + unique_new(texts(seen@), ch.skip(0)) =~= unique_new(ids(existing@), ch));
        while k < chosen.len()
            invariant
                ch == chosen@,
                k <= ch.len(),
                added@ + unique_new(texts(seen@), ch.skip(k as int)) == unique_new(ids(existing@), ch),
            decreases ch.len() - k,
        {
            let r = &chosen[k];
            let ghost rest = ch.skip(k as int);
            assert(rest.skip(1) =~= ch.skip(k + 1));
            let mut found = false;
            let mut j: usize = 0;
            while j < seen.len()
                invariant
                    j <= seen@.len(),
                    !found ==> forall|q: int| 0 <= q < j ==> seen@[q]@ != r.record_id@,
                    found ==> texts(seen@).contains(r.record_id@),
                decreases seen@.len() - j,
            {
                if !found && same_text(seen[j].as_str(), r.record_id.as_str()) {
                    found = true;
                    assert(texts(seen@)[j as int] == r.record_id@);
                }
                j += 1;
            }
            if !found {
                proof {
                    if texts(seen@).contains(r.record_id@) {
                        let q = choose|q: int| 0 <= q < texts(seen@).len() && texts(seen@)[q] == r.record_id@;
                        assert(seen@[q]@ == r.record_id@);
                    }
                }
                let ghost before_seen = texts(seen@);
                let ghost before_added = added@;
                seen.push(r.record_id.clone());
                added.push(r.duplicate());
                proof {
                    assert(texts(seen@) =~= before_seen.push(r.record_id@));
                    assert(added@ =~= before_added + seq![*r]);
                    assert(added@ + unique_new(texts(seen@), ch.skip(k + 1)) =~= before_added + (seq![*r]
                        + unique_new(before_seen.push(r.record_id@), rest.skip(1))));
                }
            }
            k += 1;
        }
        assert(ch.skip(k as int) =~= Seq::<CommandRecord>::empty());
        assert(added@ =~= unique_new(ids(existing@), ch));
        let ghost ex = existing@;
        let merged = merge_archive(existing, added);
        proof {
            let src = choose|src: Seq<int>| records_sorted(ex + unique_new(ids(ex), ch), merged@, src, true);
            assert(records_sorted(ex + unique_new(ids(ex), ch), merged@, src, true));
        }
        let ghost mv = merged@;
        let r = Some(merged);
        assert(r->0@ == mv);
        r
    }

    /// The tokens of a command that may name files, in order.
    pub fn command_paths(&self, command: &str) -> (r: Vec<String>)
        ensures
            texts(r@) == command_paths_of(command@),
    {
        let ws = split_words(command);
        let ghost all = texts(ws@);
        let mut out: Vec<String> = Vec::new();
        let mut i: usize = 0;
        while i < ws.len()
            invariant
                i <= ws@.len(),
                all == texts(ws@),
                texts(out@) == all.take(i as int).filter(|w: Seq<char>| path_like(w)),
            decreases ws@.len() - i,
        {
            let w = &ws[i];
            let keep = crate::text::has_char(w.as_str(), '/') || has_extension(w.as_str()) || same_text(
                w.as_str(),
                "ls",
            ) || same_text(w.as_str(), "cat");
            proof {
                assert(all.take(i + 1) =~= all.take(i as int).push(all[i as int]));
                all.take(i as int).lemma_filter_push(all[i as int], |w: Seq<char>| path_like(w));
                assert(all[i as int] == w@);
            }
            if keep {
                let ghost before = texts(out@);
                out.push(w.clone());
                assert(texts(out@) =~= before.push(w@));
            }
            i += 1;
        }
        assert(all.take(i as int) =~= all);
        out
    }

    /// The paths related to the records (see `related_of`): the caller
    /// resolves the flagged command tokens against the file system, then
    /// `sort_paths` keeps each path once, sorted.
    pub fn get_related_files(&self, records: &Vec<CommandRecord>) -> (r: Vec<(String, bool)>)
        ensures
            flagged(r@) == related_of(records@),
    {
        let mut out: Vec<(String, bool)> = Vec::new();
        let mut i: usize = 0;
        while i < records.len()
            invariant
                i <= records@.len(),
                flagged(out@) == related_of(records@.take(i as int)),
            decreases records@.len() - i,
        {
            let rec = &records[i];
            let ghost before = flagged(out@);
            out.push((rec.working_dir.clone(), false));
            let paths = self.command_paths(rec.command.as_str());
            let ghost mid = flagged(out@);
            let mut j: usize = 0;
            while j < paths.len()
                invariant
                    j <= paths@.len(),
                    flagged(out@) == mid + texts(paths@).take(j as int).map_values(|w: Seq<char>| (w, true)),
                decreases paths@.len() - j,
            {
                let ghost b = out@;
                out.push((paths[j].clone(), true));
                assert(out@ == b.push((paths@[j as int], true)));
                assert(flagged(out@) =~= flagged(b).push((paths@[j as int]@, true)));
                assert(texts(paths@).take(j + 1) =~= texts(paths@).take(j as int).push(paths@[j as int]@));
                assert(flagged(out@) =~= mid + texts(paths@).take(j + 1).map_values(|w: Seq<char>| (w, true)));
                j += 1;
            }
            proof {
                let pre = records@.take(i as int);
                let post = records@.take(i + 1);
                assert(post.drop_last() =~= pre);
                assert(post.last() == *rec);
                assert(texts(paths@).take(j as int) =~= texts(paths@));
                assert(mid =~= before + seq![(rec.working_dir@, false)]);
                assert(flagged(out@) =~= related_of(post));
            }
            i += 1;
        }
        assert(records@.take(i as int) =~= records@);
        out
    }
}

} // verus!
