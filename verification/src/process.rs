//! Process table modeling, filtering and sorting.
//!
//! Each tick the process table arrives as a flat list of samples.  This
//! module filters it against the user's search text (case-insensitive
//! substring match on name or command line), computes memory percentages,
//! and sorts by the chosen column with a stable order, ascending or
//! descending.  Tree-shaped output is built in the `tree` module.

use vstd::prelude::*;
use vstd::multiset::Multiset;

use crate::text::{contains_sub, lex_le, lemma_lex_total, lower_of, to_lower, lex_le_str,
    contains_str};

verus! {

/// The sortable columns, cycled in the order Pid, Name, Cpu, Memory.
#[derive(Clone, Copy, PartialEq, Eq, Structural, Debug)]
pub enum SortColumn {
    Pid,
    Name,
    Cpu,
    Memory,
}

/// One process as sampled from the operating system.  `cpu_usage` is in
/// hundredths of a percent.
pub struct ProcSample {
    pub pid: u32,
    pub parent_pid: Option<u32>,
    pub name: String,
    pub cmd: String,
    pub cpu_usage: u64,
    pub memory: u64,
    pub status: String,
}

/// Ghost image of a `ProcSample`.
pub struct SampleView {
    pub pid: u32,
    pub parent_pid: Option<u32>,
    pub name: Seq<char>,
    pub cmd: Seq<char>,
    pub cpu_usage: u64,
    pub memory: u64,
    pub status: Seq<char>,
}

impl View for ProcSample {
    type V = SampleView;

    open spec fn view(&self) -> SampleView {
        SampleView {
            pid: self.pid,
            parent_pid: self.parent_pid,
            name: self.name@,
            cmd: self.cmd@,
            cpu_usage: self.cpu_usage,
            memory: self.memory,
            status: self.status@,
        }
    }
}

/// One process as displayed.  `cpu_usage` is in hundredths of a percent,
/// `memory_percent` in hundredths of a percent of total memory, and `depth`
/// is the tree indentation level (0 in flat views).
pub struct ProcessInfo {
    pub pid: u32,
    pub parent_pid: Option<u32>,
    pub name: String,
    pub cpu_usage: u64,
    pub memory: u64,
    pub memory_percent: u64,
    pub status: String,
    pub depth: usize,
}

/// Ghost image of a `ProcessInfo`.
pub struct PView {
    pub pid: u32,
    pub parent_pid: Option<u32>,
    pub name: Seq<char>,
    pub cpu_usage: u64,
    pub memory: u64,
    pub memory_percent: u64,
    pub status: Seq<char>,
    pub depth: nat,
}

impl View for ProcessInfo {
    type V = PView;

    open spec fn view(&self) -> PView {
        PView {
            pid: self.pid,
            parent_pid: self.parent_pid,
            name: self.name@,
            cpu_usage: self.cpu_usage,
            memory: self.memory,
            memory_percent: self.memory_percent,
            status: self.status@,
            depth: self.depth as nat,
        }
    }
}

/// The views of a record list.
pub open spec fn record_views(s: Seq<ProcessInfo>) -> Seq<PView> {
    s.map_values(|x: ProcessInfo| x@)
}

/// An exact copy of a record.
pub fn clone_info(p: &ProcessInfo) -> (r: ProcessInfo)
    ensures
        r@ == p@,
{
    ProcessInfo {
        pid: p.pid,
        parent_pid: p.parent_pid,
        name: p.name.clone(),
        cpu_usage: p.cpu_usage,
        memory: p.memory,
        memory_percent: p.memory_percent,
        status: p.status.clone(),
        depth: p.depth,
    }
}

// ---------------------------------------------------------------------------
// Filtering and record construction

/// A sample passes a non-empty filter when its lowercased name or command
/// line contains the lowercased filter text.
pub open spec fn passes_filter(s: SampleView, filter: Seq<char>) -> bool {
    contains_sub(lower_of(s.name), lower_of(filter)) || contains_sub(
        lower_of(s.cmd),
        lower_of(filter),
    )
}

/// Memory share in hundredths of a percent, zero when the total is unknown.
pub open spec fn mem_share(memory: u64, total: u64) -> u64 {
    if total > 0 {
        if (memory as int) * 10000 / (total as int) > u64::MAX {
            u64::MAX
        } else {
            ((memory as int) * 10000 / (total as int)) as u64
        }
    } else {
        0
    }
}

/// The display record for a sample, at depth zero.
pub open spec fn to_record(s: SampleView, total_memory: u64) -> PView {
    PView {
        pid: s.pid,
        parent_pid: s.parent_pid,
        name: s.name,
        cpu_usage: s.cpu_usage,
        memory: s.memory,
        memory_percent: mem_share(s.memory, total_memory),
        status: s.status,
        depth: 0,
    }
}

/// Display records for the first `n` samples that pass the filter, in input
/// order.  An empty filter passes everything.
pub open spec fn records_of(
    samples: Seq<SampleView>,
    filter: Seq<char>,
    total_memory: u64,
    n: int,
) -> Seq<PView>
    decreases n,
{
    if n <= 0 || n > samples.len() {
        Seq::empty()
    } else {
        let rest = records_of(samples, filter, total_memory, n - 1);
        if filter.len() == 0 || passes_filter(samples[n - 1], filter) {
            rest.push(to_record(samples[n - 1], total_memory))
        } else {
            rest
        }
    }
}

/// A status string reported for a running process.
pub open spec fn is_running(status: Seq<char>) -> bool {
    contains_sub(status, "Run"@)
}

/// How many of the first `n` samples are running.
pub open spec fn count_running(samples: Seq<SampleView>, n: int) -> int
    decreases n,
{
    if n <= 0 || n > samples.len() {
        0
    } else {
        count_running(samples, n - 1) + if is_running(samples[n - 1].status) {
            1int
        } else {
            0int
        }
    }
}

// ---------------------------------------------------------------------------
// Stable sorting

/// Column order: `a` sorts at or before `b` ascending.  Names compare
/// case-insensitively; equal keys leave the order to stability.
pub open spec fn key_le(col: SortColumn, a: PView, b: PView) -> bool {
    match col {
        SortColumn::Pid => a.pid <= b.pid,
        SortColumn::Name => lex_le(lower_of(a.name), lower_of(b.name)),
        SortColumn::Cpu => a.cpu_usage <= b.cpu_usage,
        SortColumn::Memory => a.memory <= b.memory,
    }
}

/// The order actually applied: the column order, reversed when descending.
pub open spec fn dir_le(col: SortColumn, asc: bool, a: PView, b: PView) -> bool {
    if asc {
        key_le(col, a, b)
    } else {
        key_le(col, b, a)
    }
}

/// Any two records are comparable.
pub proof fn lemma_dir_le_total(col: SortColumn, asc: bool, a: PView, b: PView)
    ensures
        dir_le(col, asc, a, b) || dir_le(col, asc, b, a),
{
    if col is Name {
        lemma_lex_total(lower_of(a.name), lower_of(b.name));
    }
}

/// Stable insertion: `x` goes after every already-placed record that sorts
/// at or before it, so equal keys keep their existing order.
pub open spec fn insert_sorted(col: SortColumn, asc: bool, x: PView, s: Seq<PView>) -> Seq<PView>
    decreases s.len(),
{
    if s.len() == 0 {
        seq![x]
    } else if dir_le(col, asc, s[0], x) {
        seq![s[0]] + insert_sorted(col, asc, x, s.drop_first())
    } else {
        seq![x] + s
    }
}

/// Stable sort by repeated insertion, processing input left to right.
pub open spec fn sort_spec(col: SortColumn, asc: bool, s: Seq<PView>) -> Seq<PView>
    decreases s.len(),
{
    if s.len() == 0 {
        Seq::empty()
    } else {
        insert_sorted(col, asc, s.last(), sort_spec(col, asc, s.drop_last()))
    }
}

/// Adjacent records are ordered.
pub open spec fn sorted_by(col: SortColumn, asc: bool, s: Seq<PView>) -> bool {
    forall|k: int| 0 <= k < s.len() - 1 ==> dir_le(col, asc, #[trigger] s[k], s[k + 1])
}

/// Insertion preserves adjacent ordering.
proof fn lemma_insert_sorted(col: SortColumn, asc: bool, x: PView, s: Seq<PView>)
    requires
        sorted_by(col, asc, s),
    ensures
        sorted_by(col, asc, insert_sorted(col, asc, x, s)),
    decreases s.len(),
{
    if s.len() == 0 {
    } else if dir_le(col, asc, s[0], x) {
        assert(sorted_by(col, asc, s.drop_first())) by {
            assert(forall|k: int|
                0 <= k < s.drop_first().len() - 1 ==> dir_le(
                    col,
                    asc,
                    #[trigger] s.drop_first()[k],
                    s.drop_first()[k + 1],
                )) by {
                assert(forall|k: int|
                    0 <= k < s.len() - 2 ==> #[trigger] s.drop_first()[k] == s[k + 1]);
            }
        }
        lemma_insert_sorted(col, asc, x, s.drop_first());
        let t = insert_sorted(col, asc, x, s.drop_first());
        let r = seq![s[0]] + t;
        assert(t.len() > 0);
        assert(t[0] == x || (s.drop_first().len() > 0 && t[0] == s.drop_first()[0]));
        assert(dir_le(col, asc, r[0], r[1]));
        assert(forall|k: int| 1 <= k < r.len() ==> r[k] == t[k - 1]);
    } else {
        lemma_dir_le_total(col, asc, x, s[0]);
        let r = seq![x] + s;
        assert(forall|k: int| 1 <= k < r.len() ==> r[k] == s[k - 1]);
    }
}

/// Insertion adds exactly one record.
proof fn lemma_insert_mset(col: SortColumn, asc: bool, x: PView, s: Seq<PView>)
    ensures
        insert_sorted(col, asc, x, s).to_multiset() == s.to_multiset().insert(x),
        insert_sorted(col, asc, x, s).len() == s.len() + 1,
    decreases s.len(),
{
    broadcast use vstd::seq_lib::group_to_multiset_ensures;
    broadcast use vstd::multiset::group_multiset_axioms;

    if s.len() == 0 {
        assert(insert_sorted(col, asc, x, s) =~= Seq::<PView>::empty().push(x));
        assert(s.to_multiset() =~= Multiset::<PView>::empty());
        assert(Seq::<PView>::empty().to_multiset() =~= Multiset::<PView>::empty());
    } else if dir_le(col, asc, s[0], x) {
        lemma_insert_mset(col, asc, x, s.drop_first());
        let t = insert_sorted(col, asc, x, s.drop_first());
        let r = seq![s[0]] + t;
        vstd::seq_lib::lemma_multiset_commutative(seq![s[0]], t);
        vstd::seq_lib::lemma_multiset_commutative(seq![s[0]], s.drop_first());
        assert(s =~= seq![s[0]] + s.drop_first());
        assert(r.to_multiset() =~= s.to_multiset().insert(x));
    } else {
        let r = seq![x] + s;
        vstd::seq_lib::lemma_multiset_commutative(seq![x], s);
        assert(seq![x] =~= Seq::<PView>::empty().push(x));
        assert(r.to_multiset() =~= s.to_multiset().insert(x));
    }
}

/// The sort is a permutation and orders adjacent records.
pub proof fn lemma_sort_spec(col: SortColumn, asc: bool, s: Seq<PView>)
    ensures
        sorted_by(col, asc, sort_spec(col, asc, s)),
        sort_spec(col, asc, s).to_multiset() == s.to_multiset(),
        sort_spec(col, asc, s).len() == s.len(),
    decreases s.len(),
{
    broadcast use vstd::seq_lib::group_to_multiset_ensures;
    broadcast use vstd::multiset::group_multiset_axioms;

    if s.len() == 0 {
        assert(sort_spec(col, asc, s).to_multiset() =~= s.to_multiset());
    } else {
        lemma_sort_spec(col, asc, s.drop_last());
        lemma_insert_sorted(col, asc, s.last(), sort_spec(col, asc, s.drop_last()));
        lemma_insert_mset(col, asc, s.last(), sort_spec(col, asc, s.drop_last()));
        assert(s =~= s.drop_last().push(s.last()));
        assert(s.drop_last().push(s.last()).to_multiset() =~= s.drop_last().to_multiset().insert(
            s.last(),
        ));
    }
}

/// Executable order test, equal to `dir_le`.
fn dir_le_exec(col: SortColumn, asc: bool, a: &ProcessInfo, b: &ProcessInfo) -> (r: bool)
    ensures
        r == dir_le(col, asc, a@, b@),
{
    let (x, y) = if asc {
        (a, b)
    } else {
        (b, a)
    };
    match col {
        SortColumn::Pid => x.pid <= y.pid,
        SortColumn::Name => {
            let xl = to_lower(x.name.as_str());
            let yl = to_lower(y.name.as_str());
            lex_le_str(xl.as_str(), yl.as_str())
        },
        SortColumn::Cpu => x.cpu_usage <= y.cpu_usage,
        SortColumn::Memory => x.memory <= y.memory,
    }
}

/// The position where stable insertion places `x`: after the longest prefix
/// that sorts at or before it.
fn find_insert_pos(col: SortColumn, asc: bool, out: &Vec<ProcessInfo>, x: &ProcessInfo) -> (j:
    usize)
    ensures
        j <= out@.len(),
        forall|k: int| 0 <= k < j ==> dir_le(col, asc, record_views(out@)[k], x@),
        j < out@.len() ==> !dir_le(col, asc, record_views(out@)[j as int], x@),
{
    let mut j: usize = 0;
    while j < out.len()
        invariant
            j <= out@.len(),
            forall|k: int| 0 <= k < j ==> dir_le(col, asc, record_views(out@)[k], x@),
        decreases out@.len() - j,
    {
        if !dir_le_exec(col, asc, &out[j], x) {
            return j;
        }
        j = j + 1;
    }
    j
}

/// Splitting at the first non-ordered position realizes stable insertion.
proof fn lemma_insert_split(col: SortColumn, asc: bool, x: PView, s: Seq<PView>, j: int)
    requires
        0 <= j <= s.len(),
        forall|k: int| 0 <= k < j ==> dir_le(col, asc, #[trigger] s[k], x),
        j < s.len() ==> !dir_le(col, asc, s[j], x),
    ensures
        insert_sorted(col, asc, x, s) == s.take(j) + seq![x] + s.skip(j),
    decreases j,
{
    if j == 0 {
        if s.len() == 0 {
            assert(insert_sorted(col, asc, x, s) =~= s.take(0) + seq![x] + s.skip(0));
        } else {
            assert(!dir_le(col, asc, s[0], x));
            assert(insert_sorted(col, asc, x, s) =~= s.take(0) + seq![x] + s.skip(0));
        }
    } else {
        assert(dir_le(col, asc, s[0], x));
        let t = s.drop_first();
        assert(forall|k: int| 0 <= k < j - 1 ==> #[trigger] t[k] == s[k + 1]);
        lemma_insert_split(col, asc, x, t, j - 1);
        assert(insert_sorted(col, asc, x, s) == seq![s[0]] + (t.take(j - 1) + seq![x] + t.skip(
            j - 1,
        )));
        assert(seq![s[0]] + (t.take(j - 1) + seq![x] + t.skip(j - 1)) =~= s.take(j) + seq![x]
            + s.skip(j));
    }
}

/// Stable sort of the records by the chosen column and direction.
pub fn sort_records(col: SortColumn, asc: bool, input: Vec<ProcessInfo>) -> (r: Vec<ProcessInfo>)
    ensures
        record_views(r@) == sort_spec(col, asc, record_views(input@)),
        sorted_by(col, asc, record_views(r@)),
        record_views(r@).to_multiset() == record_views(input@).to_multiset(),
        r@.len() == input@.len(),
{
    proof {
        lemma_sort_spec(col, asc, record_views(input@));
    }
    let ghost iv = record_views(input@);
    let mut out: Vec<ProcessInfo> = Vec::new();
    proof {
        assert(record_views(out@) =~= sort_spec(col, asc, iv.take(0)));
    }
    let mut i: usize = 0;
    while i < input.len()
        invariant
            i <= input@.len(),
            iv == record_views(input@),
            record_views(out@) == sort_spec(col, asc, iv.take(i as int)),
        decreases input@.len() - i,
    {
        let x = clone_info(&input[i]);
        let j = find_insert_pos(col, asc, &out, &x);
        proof {
            lemma_insert_split(col, asc, x@, record_views(out@), j as int);
            assert(iv.take(i + 1).drop_last() =~= iv.take(i as int));
            assert(iv.take(i + 1).last() == iv[i as int]);
            assert(x@ == iv[i as int]);
        }
        let ghost before = record_views(out@);
        out.insert(j, x);
        proof {
            assert(record_views(out@) =~= before.take(j as int) + seq![x@] + before.skip(
                j as int,
            ));
        }
        i = i + 1;
    }
    proof {
        assert(iv.take(input@.len() as int) =~= iv);
    }
    out
}

/// Memory share in hundredths of a percent, executable.
fn mem_share_exec(memory: u64, total: u64) -> (r: u64)
    ensures
        r == mem_share(memory, total),
{
    if total > 0 {
        let p: u128 = (memory as u128) * 10000 / (total as u128);
        if p > u64::MAX as u128 {
            u64::MAX
        } else {
            p as u64
        }
    } else {
        0
    }
}

/// Whether a sample passes the filter text, executable.
fn passes_filter_exec(sample: &ProcSample, filter: &str) -> (r: bool)
    ensures
        r == passes_filter(sample@, filter@),
{
    let fl = to_lower(filter);
    let nl = to_lower(sample.name.as_str());
    if contains_str(nl.as_str(), fl.as_str()) {
        return true;
    }
    let cl = to_lower(sample.cmd.as_str());
    contains_str(cl.as_str(), fl.as_str())
}

/// The display list for one tick: filtered records, then either the
/// depth-annotated tree (tree view with no active filter) or the stable
/// column sort.  A non-empty filter always forces the flat, depth-0 form.
pub open spec fn view_spec(
    samples: Seq<SampleView>,
    filter: Seq<char>,
    total_memory: u64,
    col: SortColumn,
    asc: bool,
    tree_view: bool,
) -> Seq<PView> {
    let recs = records_of(samples, filter, total_memory, samples.len() as int);
    if tree_view && filter.len() == 0 {
        crate::tree::tree_spec(recs)
    } else {
        sort_spec(col, asc, recs)
    }
}

/// Re-running the builder on identical input and settings yields identical
/// ordering and depths: the display list is a function of the tick's samples
/// and the view settings alone.
pub proof fn lemma_view_deterministic(
    r1: Seq<PView>,
    r2: Seq<PView>,
    samples: Seq<SampleView>,
    filter: Seq<char>,
    total_memory: u64,
    col: SortColumn,
    asc: bool,
    tree_view: bool,
)
    requires
        r1 == view_spec(samples, filter, total_memory, col, asc, tree_view),
        r2 == view_spec(samples, filter, total_memory, col, asc, tree_view),
    ensures
        r1 == r2,
{
}

/// Every filtered record starts at depth zero.
proof fn lemma_records_depth0(
    samples: Seq<SampleView>,
    filter: Seq<char>,
    total_memory: u64,
    n: int,
)
    ensures
        forall|k: int|
            0 <= k < records_of(samples, filter, total_memory, n).len() ==> (
            #[trigger] records_of(samples, filter, total_memory, n)[k]).depth == 0,
    decreases n,
{
    if n > 0 && n <= samples.len() {
        lemma_records_depth0(samples, filter, total_memory, n - 1);
    }
}

/// Sorting keeps every record at depth zero.
proof fn lemma_sort_depth0(col: SortColumn, asc: bool, recs: Seq<PView>)
    requires
        forall|k: int| 0 <= k < recs.len() ==> (#[trigger] recs[k]).depth == 0,
    ensures
        forall|k: int|
            0 <= k < sort_spec(col, asc, recs).len() ==> (#[trigger] sort_spec(
                col,
                asc,
                recs,
            )[k]).depth == 0,
{
    broadcast use vstd::seq_lib::group_to_multiset_ensures;
    broadcast use vstd::multiset::group_multiset_axioms;

    lemma_sort_spec(col, asc, recs);
    let t = sort_spec(col, asc, recs);
    assert forall|k: int| 0 <= k < t.len() implies (#[trigger] t[k]).depth == 0 by {
        assert(t.to_multiset().count(t[k]) > 0);
        assert(recs.to_multiset().count(t[k]) > 0);
        assert(recs.contains(t[k]));
    }
}

/// The process table for one tick: the display list plus total and running
/// counts.
pub struct ProcessData {
    pub processes: Vec<ProcessInfo>,
    pub total_processes: usize,
    pub running_processes: usize,
}

impl ProcessData {
    /// An empty table.
    pub fn new() -> (r: ProcessData)
        ensures
            r.processes@.len() == 0,
            r.total_processes == 0,
            r.running_processes == 0,
    {
        ProcessData { processes: Vec::new(), total_processes: 0, running_processes: 0 }
    }

    /// Rebuilds the display list from this tick's samples: counts all and
    /// running processes, filters case-insensitively against `filter`, and
    /// produces either the tree view (only with no active filter) or the
    /// stable column sort.  A non-empty filter forces flat, depth-0 output
    /// whatever the tree flag says.
    pub fn update(
        &mut self,
        samples: Vec<ProcSample>,
        total_memory: u64,
        filter: &str,
        sort_column: SortColumn,
        sort_ascending: bool,
        tree_view: bool,
    )
        ensures
            record_views(final(self).processes@) == view_spec(
                samples@.map_values(|x: ProcSample| x@),
                filter@,
                total_memory,
                sort_column,
                sort_ascending,
                tree_view,
            ),
            final(self).total_processes == samples@.len(),
            final(self).running_processes == count_running(
                samples@.map_values(|x: ProcSample| x@),
                samples@.len() as int,
            ),
            filter@.len() > 0 ==> forall|k: int|
                0 <= k < final(self).processes@.len() ==> (#[trigger] record_views(
                    final(self).processes@,
                )[k]).depth == 0,
    {
        let ghost smv = samples@.map_values(|x: ProcSample| x@);
        let n = samples.len();

        let mut running: usize = 0;
        let mut recs: Vec<ProcessInfo> = Vec::new();
        proof {
            assert(record_views(recs@) =~= records_of(smv, filter@, total_memory, 0));
        }
        let filter_empty = filter.is_empty();
        let mut i: usize = 0;
        while i < n
            invariant
                i <= n,
                n == samples@.len(),
                smv == samples@.map_values(|x: ProcSample| x@),
                filter_empty == (filter@.len() == 0),
                running <= i,
                running == count_running(smv, i as int),
                record_views(recs@) == records_of(smv, filter@, total_memory, i as int),
            decreases n - i,
        {
            proof {
                assert(smv[i as int] == samples@[i as int]@);
            }
            if contains_str(samples[i].status.as_str(), "Run") {
                running = running + 1;
            }
            let keep = if filter_empty {
                true
            } else {
                passes_filter_exec(&samples[i], filter)
            };
            if keep {
                let rec = ProcessInfo {
                    pid: samples[i].pid,
                    parent_pid: samples[i].parent_pid,
                    name: samples[i].name.clone(),
                    cpu_usage: samples[i].cpu_usage,
                    memory: samples[i].memory,
                    memory_percent: mem_share_exec(samples[i].memory, total_memory),
                    status: samples[i].status.clone(),
                    depth: 0,
                };
                proof {
                    assert(rec@ == to_record(smv[i as int], total_memory));
                }
                let ghost before = record_views(recs@);
                recs.push(rec);
                proof {
                    assert(record_views(recs@) =~= before.push(
                        to_record(smv[i as int], total_memory),
                    ));
                }
            }
            i = i + 1;
        }

        self.total_processes = n;
        self.running_processes = running;

        proof {
            lemma_records_depth0(smv, filter@, total_memory, n as int);
        }
        if tree_view && filter_empty {
            self.processes = crate::tree::build_process_tree(recs);
        } else {
            let ghost rv = record_views(recs@);
            self.processes = sort_records(sort_column, sort_ascending, recs);
            proof {
                lemma_sort_depth0(sort_column, sort_ascending, rv);
            }
        }
    }
}

} // verus!
