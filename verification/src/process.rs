//! The process table: instantaneous process snapshots and the ordering
//! engine that turns them into the display order.
//!
//! In sort mode the table is totally ordered by the selected column; in
//! search mode it is ranked by a fuzzy match score against each process
//! name, best match first, unmatched processes after all matches.

use vstd::prelude::*;

use fuzzy_matcher::FuzzyMatcher;

use vstd::multiset::group_multiset_axioms;
use vstd::seq_lib::group_to_multiset_ensures;
use vstd::seq_lib::lemma_multiset_commutative;

use crate::input::{Column, InputModel, InputState, SortDirection};
use crate::lex::{lemma_lex_le_total, lemma_lex_le_trans, lex_le, bytes_le};
use crate::text::{lower_bytes, lower_of};

verus! {

/// One process in the snapshot: replaced wholesale every sampling cycle.
/// `cpu` is the CPU share in milli-percent, already normalized across all
/// cores so a busy multi-core process does not exceed `100_000`.
#[derive(Debug, Clone)]
pub struct ProcessInfo {
    pub pid: u64,
    pub cpu: u64,
    pub mem: u64,
    pub name: String,
    pub disk_r: u64,
    pub disk_w: u64,
}

/// What the fuzzy matcher scores a name against a pattern: a function of
/// the two strings alone, `None` when the pattern is no subsequence of the
/// name.
pub uninterp spec fn fuzzy_score_of(name: Seq<char>, pattern: Seq<char>) -> Option<i64>;

/// Relies on fuzzy_matcher's `SkimMatcherV2::fuzzy_match` with default
/// options: the score depends on the two strings alone, and an empty
/// pattern matches everything with score zero.
#[verifier::external_body]
fn fuzzy_score(name: &str, pattern: &str) -> (r: Option<i64>)
    ensures
        r == fuzzy_score_of(name@, pattern@),
        pattern@.len() == 0 ==> r == Some(0i64),
{
    fuzzy_matcher::skim::SkimMatcherV2::default().fuzzy_match(name, pattern)
}

/// The characters a column shows for one process: the pid in decimal, the
/// name verbatim, the CPU share as a percentage with one decimal place,
/// and the byte magnitudes under their best unit prefix.
pub open spec fn column_chars(c: Column, p: ProcessInfo) -> Seq<char> {
    match c {
        Column::Pid => crate::text::dec_rep(p.pid as nat),
        Column::Name => p.name@,
        Column::Cpu => {
            let tenths = crate::text::milli_tenths(p.cpu as nat);
            crate::text::dec_rep(tenths / 10) + seq!['.'] + seq![
                crate::text::digit_char(tenths % 10),
            ] + seq!['%']
        },
        Column::Memory => crate::units::best_chars(p.mem as nat),
        Column::DiskRead => crate::units::best_chars(p.disk_r as nat),
        Column::DiskWrite => crate::units::best_chars(p.disk_w as nat),
    }
}

impl Column {
    /// The cell text this column shows for one process.
    pub fn extract_data_as_string(&self, info: &ProcessInfo) -> (r: String)
        ensures
            r@ == column_chars(*self, *info),
    {
        match self {
            Column::Pid => crate::text::fmt_u64(info.pid),
            Column::Name => info.name.clone(),
            Column::Cpu => {
                let mut s = crate::text::fmt_milli(info.cpu);
                crate::text::push_char(&mut s, '%');
                proof {
                    assert(s@ =~= column_chars(Column::Cpu, *info));
                }
                s
            },
            Column::Memory => crate::units::MemPrefix::best_string(info.mem),
            Column::DiskRead => crate::units::MemPrefix::best_string(info.disk_r),
            Column::DiskWrite => crate::units::MemPrefix::best_string(info.disk_w),
        }
    }
}

/// Whether `a` comes before `b` (or ties) under the ascending order of
/// column `c`: numeric for the numeric columns, case-folded lexicographic
/// for the name column.
pub open spec fn col_le(c: Column, a: ProcessInfo, b: ProcessInfo) -> bool {
    match c {
        Column::Pid => a.pid <= b.pid,
        Column::Name => lex_le(lower_of(a.name@), lower_of(b.name@)),
        Column::Cpu => a.cpu <= b.cpu,
        Column::Memory => a.mem <= b.mem,
        Column::DiskRead => a.disk_r <= b.disk_r,
        Column::DiskWrite => a.disk_w <= b.disk_w,
    }
}

/// Whether `a` ranks at or above `b` for the search pattern: higher score
/// first, any match before any non-match, non-matches tie.
pub open spec fn search_le(pattern: Seq<char>, a: ProcessInfo, b: ProcessInfo) -> bool {
    match (fuzzy_score_of(a.name@, pattern), fuzzy_score_of(b.name@, pattern)) {
        (Some(x), Some(y)) => x >= y,
        (Some(_), None) => true,
        (None, Some(_)) => false,
        (None, None) => true,
    }
}

/// The display order the interaction state asks for: by column and
/// direction in sort mode, by fuzzy rank in search mode.
pub open spec fn proc_le(m: InputModel, a: ProcessInfo, b: ProcessInfo) -> bool {
    match m {
        InputModel::Sort { column, direction } => match direction {
            SortDirection::Ascending => col_le(column, a, b),
            SortDirection::Descending => col_le(column, b, a),
        },
        InputModel::Search { text, .. } => search_le(text, a, b),
    }
}

/// Whether `s` is ordered as the interaction state asks, every element at
/// or before every later one.
pub open spec fn ordered(s: Seq<ProcessInfo>, m: InputModel) -> bool {
    forall|i: int, j: int| 0 <= i < j < s.len() ==> proc_le(m, #[trigger] s[i], #[trigger] s[j])
}

/// The display order is total: any two processes are comparable, in every
/// interaction state.
pub proof fn lemma_proc_le_total(m: InputModel, a: ProcessInfo, b: ProcessInfo)
    ensures
        proc_le(m, a, b) || proc_le(m, b, a),
{
    match m {
        InputModel::Sort { column, direction } => {
            if column is Name {
                lemma_lex_le_total(lower_of(a.name@), lower_of(b.name@));
            }
        },
        InputModel::Search { .. } => {},
    }
}

/// The display order is transitive, in every interaction state.
pub proof fn lemma_proc_le_trans(m: InputModel, a: ProcessInfo, b: ProcessInfo, c: ProcessInfo)
    requires
        proc_le(m, a, b),
        proc_le(m, b, c),
    ensures
        proc_le(m, a, c),
{
    match m {
        InputModel::Sort { column, direction } => {
            if column is Name {
                match direction {
                    SortDirection::Ascending => lemma_lex_le_trans(
                        lower_of(a.name@),
                        lower_of(b.name@),
                        lower_of(c.name@),
                    ),
                    SortDirection::Descending => lemma_lex_le_trans(
                        lower_of(c.name@),
                        lower_of(b.name@),
                        lower_of(a.name@),
                    ),
                }
            }
        },
        InputModel::Search { .. } => {},
    }
}

/// Case-folded name order, as a run-time check.
fn name_le(a: &ProcessInfo, b: &ProcessInfo) -> (r: bool)
    ensures
        r == lex_le(lower_of(a.name@), lower_of(b.name@)),
{
    let la = lower_bytes(a.name.as_str());
    let lb = lower_bytes(b.name.as_str());
    bytes_le(la.as_slice(), lb.as_slice())
}

/// Ascending column order, as a run-time check.
fn col_le_exec(c: Column, a: &ProcessInfo, b: &ProcessInfo) -> (r: bool)
    ensures
        r == col_le(c, *a, *b),
{
    match c {
        Column::Pid => a.pid <= b.pid,
        Column::Name => name_le(a, b),
        Column::Cpu => a.cpu <= b.cpu,
        Column::Memory => a.mem <= b.mem,
        Column::DiskRead => a.disk_r <= b.disk_r,
        Column::DiskWrite => a.disk_w <= b.disk_w,
    }
}

/// Search rank order, as a run-time check.
fn search_le_exec(pattern: &String, a: &ProcessInfo, b: &ProcessInfo) -> (r: bool)
    ensures
        r == search_le(pattern@, *a, *b),
{
    let sa = fuzzy_score(a.name.as_str(), pattern.as_str());
    let sb = fuzzy_score(b.name.as_str(), pattern.as_str());
    match (sa, sb) {
        (Some(x), Some(y)) => x >= y,
        (Some(_), None) => true,
        (None, Some(_)) => false,
        (None, None) => true,
    }
}

/// The display order for the current interaction state, as a run-time
/// check.
fn proc_le_exec(state: &InputState, a: &ProcessInfo, b: &ProcessInfo) -> (r: bool)
    ensures
        r == proc_le(state@, *a, *b),
{
    match state {
        InputState::ProcessesSortSelection { column, direction } => match direction {
            SortDirection::Ascending => col_le_exec(*column, a, b),
            SortDirection::Descending => col_le_exec(*column, b, a),
        },
        InputState::ProcessesSearch { search, .. } => search_le_exec(search, a, b),
    }
}

/// Inserting an element anywhere adds exactly that element to the
/// contents.
proof fn lemma_to_multiset_insert<A>(s: Seq<A>, pos: int, e: A)
    requires
        0 <= pos <= s.len(),
    ensures
        s.insert(pos, e).to_multiset() =~= s.to_multiset().insert(e),
{
    broadcast use group_to_multiset_ensures, group_multiset_axioms;

    let t = s.insert(pos, e);
    assert(t =~= s.take(pos).push(e) + s.skip(pos));
    lemma_multiset_commutative(s.take(pos).push(e), s.skip(pos));
    assert(s =~= s.take(pos) + s.skip(pos));
    lemma_multiset_commutative(s.take(pos), s.skip(pos));
    assert(s.take(pos).push(e).to_multiset() =~= s.take(pos).to_multiset().insert(e));
}

/// Moving one element to another position leaves the contents unchanged.
proof fn lemma_remove_insert_multiset<A>(s: Seq<A>, i: int, pos: int)
    requires
        0 <= i < s.len(),
        0 <= pos <= s.len() - 1,
    ensures
        s.remove(i).insert(pos, s[i]).to_multiset() =~= s.to_multiset(),
{
    broadcast use group_to_multiset_ensures, group_multiset_axioms;

    lemma_to_multiset_insert(s.remove(i), pos, s[i]);
    assert(s.contains(s[i]));
    assert(s.to_multiset().count(s[i]) > 0);
    assert(s.to_multiset().remove(s[i]).insert(s[i]) =~= s.to_multiset());
}

/// Produce the display order of `procs` for the interaction state: a
/// reordering with the same contents, ordered as the state asks; a list
/// already in order comes back unchanged, so ordering twice equals
/// ordering once.
pub fn order_processes(procs: Vec<ProcessInfo>, state: &InputState) -> (r: Vec<ProcessInfo>)
    ensures
        r@.to_multiset() == procs@.to_multiset(),
        ordered(r@, state@),
        ordered(procs@, state@) ==> r@ == procs@,
{
    let ghost m = state@;
    let mut v = procs;
    if v.len() == 0 {
        return v;
    }
    let mut i: usize = 1;
    while i < v.len()
        invariant
            1 <= i <= v@.len(),
            v@.len() == procs@.len(),
            v@.to_multiset() == procs@.to_multiset(),
            forall|p: int, q: int|
                0 <= p < q < i ==> proc_le(m, #[trigger] v@[p], #[trigger] v@[q]),
            forall|k: int| i <= k < v@.len() ==> v@[k] == procs@[k],
            ordered(procs@, m) ==> v@ == procs@,
            m == state@,
        decreases v@.len() - i,
    {
        let ghost before = v@;
        let ghost oi = i as int;
        // Find the first position whose element must come after v[i]; the
        // element is inserted there, after every element it ties with.
        let mut j: usize = 0;
        while j < i && proc_le_exec(state, &v[j], &v[i])
            invariant
                0 <= j <= i < v@.len(),
                v@ == before,
                forall|k: int| 0 <= k < j ==> proc_le(m, #[trigger] v@[k], v@[i as int]),
                m == state@,
            decreases i - j,
        {
            j = j + 1;
        }
        proof {
            if j < i {
                lemma_proc_le_total(m, before[j as int], before[oi]);
                assert(proc_le(m, before[oi], before[j as int]));
            }
        }
        let e = v.remove(i);
        v.insert(j, e);
        i = i + 1;
        proof {
            lemma_remove_insert_multiset(before, oi, j as int);
            assert(v@ =~= before.remove(oi).insert(j as int, before[oi]));
            let now = v@;
            let ei = before[oi];
            // The new prefix is ordered: elements left of the insertion
            // point stay, the inserted element goes after everything it
            // ties with and before everything that must follow it.
            assert forall|p: int, q: int| 0 <= p < q < i implies proc_le(
                m,
                #[trigger] now[p],
                #[trigger] now[q],
            ) by {
                if q < j {
                    assert(now[p] == before[p] && now[q] == before[q]);
                } else if q == j {
                    assert(now[q] == ei && now[p] == before[p]);
                } else {
                    if p < j {
                        assert(now[p] == before[p] && now[q] == before[q - 1]);
                        if q - 1 == p {
                            assert(proc_le(m, now[p], ei));
                        }
                    } else if p == j {
                        assert(now[p] == ei && now[q] == before[q - 1]);
                        if q - 1 > j {
                            assert(proc_le(m, before[j as int], before[q - 1]));
                            lemma_proc_le_trans(m, ei, before[j as int], before[q - 1]);
                        }
                    } else {
                        assert(now[p] == before[p - 1] && now[q] == before[q - 1]);
                    }
                }
            }
            // The untouched suffix.
            assert forall|k: int| i <= k < now.len() implies now[k] == procs@[k] by {
                assert(now[k] == before[k]);
            }
            // A list already in order never moves an element.
            if ordered(procs@, m) {
                assert(before == procs@);
                assert(j == i - 1) by {
                    if j < i - 1 {
                        assert(proc_le(m, procs@[j as int], procs@[oi]));
                    }
                }
                assert(now =~= before);
            }
        }
    }
    v
}

} // verus!
