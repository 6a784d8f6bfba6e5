//! Disk devices: cumulative sector counters, per-tick deltas, and the table
//! of device records keyed by device name.
//!
//! Cumulative counters are differenced across samples to obtain rates; a
//! counter that went backwards (a re-enumerated device) clamps to a zero
//! delta rather than wrapping.

use vstd::prelude::*;

use vstd::string::StrSliceExecFns;
use vstd::string::StringSliceAdditionalSpecFns;

use crate::history::{pushed, zero_window, History};
use crate::lex::{
    bytes_eq, bytes_le, lemma_lex_le_total, lemma_lex_lt_ne, lemma_lex_lt_trans, lex_le, lex_lt,
};

verus! {

/// One reading of a device's cumulative sector counters.
#[derive(Debug, Clone, Copy, PartialEq, Eq, Structural)]
pub struct DiskInfo {
    pub r_sectors: usize,
    pub w_sectors: usize,
}

impl Default for DiskInfo {
    /// The reading before a device was first observed: zero sectors.
    fn default() -> (r: DiskInfo)
        ensures
            r.r_sectors == 0,
            r.w_sectors == 0,
    {
        DiskInfo { r_sectors: 0, w_sectors: 0 }
    }
}

/// The per-tick delta of one cumulative counter: the difference, clamped to
/// zero when the counter went backwards.
pub open spec fn sector_delta(prev: nat, cur: nat) -> nat {
    if cur >= prev {
        (cur - prev) as nat
    } else {
        0
    }
}

impl DiskInfo {
    /// The per-tick delta between the previous and this reading, per
    /// counter: `max(0, current - previous)`, never negative, never
    /// wrapping.
    pub fn delta_from(&self, prev: &DiskInfo) -> (r: DiskInfo)
        ensures
            r.r_sectors == sector_delta(prev.r_sectors as nat, self.r_sectors as nat),
            r.w_sectors == sector_delta(prev.w_sectors as nat, self.w_sectors as nat),
    {
        DiskInfo {
            r_sectors: if self.r_sectors >= prev.r_sectors {
                self.r_sectors - prev.r_sectors
            } else {
                0
            },
            w_sectors: if self.w_sectors >= prev.w_sectors {
                self.w_sectors - prev.w_sectors
            } else {
                0
            },
        }
    }
}

/// Whether the byte `b` is a decimal digit.
pub open spec fn is_digit_byte(b: u8) -> bool {
    48 <= b && b <= 57
}

/// Whether the byte `b` is a lowercase letter.
pub open spec fn is_lower_byte(b: u8) -> bool {
    97 <= b && b <= 122
}

/// An NVMe namespace device name: `nvme`, digits, `n`, digits.
pub open spec fn is_nvme_name(b: Seq<u8>) -> bool {
    &&& b.len() >= 6
    &&& b[0] == 110
    &&& b[1] == 118
    &&& b[2] == 109
    &&& b[3] == 101
    &&& exists|k: int|
        {
            &&& 5 <= k <= b.len() - 2
            &&& (forall|i: int| 4 <= i < k ==> is_digit_byte(#[trigger] b[i]))
            &&& b[k] == 110
            &&& (forall|i: int| k < i < b.len() ==> is_digit_byte(#[trigger] b[i]))
        }
}

/// A two-letter prefix followed by one or more lowercase letters, the
/// SATA/IDE convention (`sd...`, `hd...`).
pub open spec fn is_lettered_name(b: Seq<u8>, p0: u8, p1: u8) -> bool {
    &&& b.len() >= 3
    &&& b[0] == p0
    &&& b[1] == p1
    &&& (forall|i: int| 2 <= i < b.len() ==> is_lower_byte(#[trigger] b[i]))
}

/// A numbered whole-disk name: `disk` followed by one or more digits.
pub open spec fn is_numbered_disk_name(b: Seq<u8>) -> bool {
    &&& b.len() >= 5
    &&& b[0] == 100
    &&& b[1] == 105
    &&& b[2] == 115
    &&& b[3] == 107
    &&& (forall|i: int| 4 <= i < b.len() ==> is_digit_byte(#[trigger] b[i]))
}

/// Whether a device name, as UTF-8 bytes, names a real block device by the
/// NVMe, SATA/IDE or whole-disk naming conventions.  Virtual and loopback
/// devices fall outside these patterns and are excluded.
pub open spec fn is_disk_device(b: Seq<u8>) -> bool {
    ||| is_nvme_name(b)
    ||| is_lettered_name(b, 115, 100)
    ||| is_lettered_name(b, 104, 100)
    ||| is_numbered_disk_name(b)
}

/// Whether every byte from `from` on lies in `lo ..= hi`.
fn all_in_range(b: &[u8], from: usize, lo: u8, hi: u8) -> (r: bool)
    requires
        from <= b@.len(),
    ensures
        r == (forall|i: int| from <= i < b@.len() ==> lo <= #[trigger] b@[i] <= hi),
{
    let mut i: usize = from;
    while i < b.len()
        invariant
            from <= i <= b@.len(),
            forall|k: int| from <= k < i ==> lo <= #[trigger] b@[k] <= hi,
        decreases b@.len() - i,
    {
        if b[i] < lo || b[i] > hi {
            return false;
        }
        i = i + 1;
    }
    true
}

/// The first index at or after `from` that holds no decimal digit.
fn scan_digits(b: &[u8], from: usize) -> (r: usize)
    requires
        from <= b@.len(),
    ensures
        from <= r <= b@.len(),
        forall|i: int| from <= i < r ==> is_digit_byte(#[trigger] b@[i]),
        r < b@.len() ==> !is_digit_byte(b@[r as int]),
{
    let mut i: usize = from;
    while i < b.len()
        invariant
            from <= i <= b@.len(),
            forall|k: int| from <= k < i ==> is_digit_byte(#[trigger] b@[k]),
        decreases b@.len() - i,
    {
        if b[i] < 48 || b[i] > 57 {
            return i;
        }
        i = i + 1;
    }
    i
}

/// Whether `name` names a real block device by the NVMe, SATA/IDE or
/// whole-disk naming conventions.
pub fn is_disk_name(name: &str) -> (r: bool)
    ensures
        r == is_disk_device(name.spec_bytes()),
{
    let b = name.as_bytes();
    let n = b.len();
    if n >= 3 && ((b[0] == 115 && b[1] == 100) || (b[0] == 104 && b[1] == 100)) {
        if all_in_range(b, 2, 97, 122) {
            return true;
        }
    }
    if n >= 5 && b[0] == 100 && b[1] == 105 && b[2] == 115 && b[3] == 107 {
        if all_in_range(b, 4, 48, 57) {
            return true;
        }
    }
    if n >= 6 && b[0] == 110 && b[1] == 118 && b[2] == 109 && b[3] == 101 {
        let k = scan_digits(b, 4);
        if k > 4 && k < n && b[k] == 110 && k + 1 < n {
            if all_in_range(b, k + 1, 48, 57) {
                proof {
                    assert(is_nvme_name(b@)) by {
                        assert(5 <= k <= b@.len() - 2);
                        assert((forall|i: int| 4 <= i < k ==> is_digit_byte(#[trigger] b@[i]))
                            && b@[k as int] == 110 && (forall|i: int|
                            k < i < b@.len() ==> is_digit_byte(#[trigger] b@[i])));
                    }
                }
                return true;
            }
        }
        proof {
            assert(!is_nvme_name(b@)) by {
                if is_nvme_name(b@) {
                    let k0 = choose|k0: int|
                        {
                            &&& 5 <= k0 <= b@.len() - 2
                            &&& (forall|i: int| 4 <= i < k0 ==> is_digit_byte(#[trigger] b@[i]))
                            &&& b@[k0] == 110
                            &&& (forall|i: int|
                                k0 < i < b@.len() ==> is_digit_byte(#[trigger] b@[i]))
                        };
                    assert(k0 <= k) by {
                        if k0 > k {
                            assert(is_digit_byte(b@[k as int]));
                        }
                    }
                    assert(k0 == k) by {
                        if k0 < k {
                            assert(is_digit_byte(b@[k0]));
                        }
                    }
                }
            }
        }
        return false;
    }
    proof {
        if n < 3 {
            assert(!is_disk_device(b@));
        }
    }
    false
}

/// One tracked device: the last-seen cumulative reading and the windows of
/// per-tick deltas, one for reads and one for writes.
#[derive(Debug)]
pub struct DiskRecord {
    pub name: String,
    pub prev: DiskInfo,
    pub read_history: History,
    pub write_history: History,
}

/// The mathematical value of a device record.
pub struct DiskRecModel {
    pub name: Seq<char>,
    pub prev: DiskInfo,
    pub reads: Seq<u64>,
    pub writes: Seq<u64>,
}

impl View for DiskRecord {
    type V = DiskRecModel;

    open spec fn view(&self) -> DiskRecModel {
        DiskRecModel {
            name: self.name@,
            prev: self.prev,
            reads: self.read_history@,
            writes: self.write_history@,
        }
    }
}

/// A device name as the bytes the table orders by.
pub open spec fn key_of(name: Seq<char>) -> Seq<u8> {
    vstd::utf8::encode_utf8(name)
}

/// Both history windows hold exactly their fixed number of samples.
pub open spec fn rec_wf(r: DiskRecModel) -> bool {
    r.reads.len() == crate::HISTORY_LEN && r.writes.len() == crate::HISTORY_LEN
}

/// A record advanced by one reading: the clamped delta of each counter
/// enters its window, and the reading becomes the new previous value.
pub open spec fn rec_advanced(r: DiskRecModel, cur: DiskInfo) -> DiskRecModel {
    DiskRecModel {
        name: r.name,
        prev: cur,
        reads: pushed(
            r.reads,
            sector_delta(r.prev.r_sectors as nat, cur.r_sectors as nat) as u64,
        ),
        writes: pushed(
            r.writes,
            sector_delta(r.prev.w_sectors as nat, cur.w_sectors as nat) as u64,
        ),
    }
}

/// The record a newly observed device starts with: zero previous reading
/// and zero-filled windows, advanced by the first reading — so the first
/// delta equals the full cumulative value, a documented one-time spike.
pub open spec fn fresh_rec(name: Seq<char>, cur: DiskInfo) -> DiskRecModel {
    rec_advanced(
        DiskRecModel {
            name,
            prev: DiskInfo { r_sectors: 0, w_sectors: 0 },
            reads: zero_window(),
            writes: zero_window(),
        },
        cur,
    )
}

/// The index of the record named `name`, front first.
pub open spec fn find_rec(t: Seq<DiskRecModel>, name: Seq<char>) -> Option<int>
    decreases t.len(),
{
    if t.len() == 0 {
        None
    } else if t[0].name == name {
        Some(0int)
    } else {
        match find_rec(t.drop_first(), name) {
            Some(i) => Some(i + 1),
            None => None,
        }
    }
}

/// Where a new record with byte key `key` enters to keep the table ordered.
pub open spec fn insert_pos(t: Seq<DiskRecModel>, key: Seq<u8>) -> int
    decreases t.len(),
{
    if t.len() == 0 {
        0
    } else if lex_lt(key_of(t[0].name), key) {
        1 + insert_pos(t.drop_first(), key)
    } else {
        0
    }
}

/// What one reading does to the table: the named record is advanced if it
/// exists; otherwise a fresh record enters at its ordered position.
/// Records are never removed, even for a device that disappeared.
pub open spec fn upserted(t: Seq<DiskRecModel>, name: Seq<char>, cur: DiskInfo) -> Seq<
    DiskRecModel,
> {
    match find_rec(t, name) {
        Some(i) => t.update(i, rec_advanced(t[i], cur)),
        None => t.insert(insert_pos(t, key_of(name)), fresh_rec(name, cur)),
    }
}

/// Every window is full and the records are strictly ordered by name, so
/// each device appears once and the display order is deterministic.
pub open spec fn table_wf(t: Seq<DiskRecModel>) -> bool {
    &&& (forall|i: int| 0 <= i < t.len() ==> rec_wf(#[trigger] t[i]))
    &&& (forall|i: int, j: int|
        0 <= i < j < t.len() ==> lex_lt(key_of((#[trigger] t[i]).name), key_of((#[trigger] t[j]).name)))
}

/// Whether the record's name comes strictly before `key` in byte order.
fn rec_name_lt(rec: &DiskRecord, key: &[u8]) -> (r: bool)
    ensures
        r == lex_lt(key_of(rec@.name), key@),
{
    !bytes_le(key, rec.name.as_str().as_bytes())
}

/// The table of disk device records, ordered by name.  Records are created
/// lazily the first time a device name is observed and never removed.
#[derive(Debug)]
pub struct DiskTable {
    recs: Vec<DiskRecord>,
}

impl View for DiskTable {
    type V = Seq<DiskRecModel>;

    closed spec fn view(&self) -> Seq<DiskRecModel> {
        self.recs@.map_values(|r: DiskRecord| r@)
    }
}

impl DiskTable {
    /// See `table_wf`.
    pub open spec fn wf(&self) -> bool {
        table_wf(self@)
    }

    /// An empty table.
    pub fn new() -> (r: DiskTable)
        ensures
            r.wf(),
            r@ == Seq::<DiskRecModel>::empty(),
    {
        let r = DiskTable { recs: Vec::new() };
        proof {
            assert(r@ =~= Seq::<DiskRecModel>::empty());
        }
        r
    }

    /// How many devices the table tracks.
    pub fn len(&self) -> (r: usize)
        ensures
            r == self@.len(),
    {
        self.recs.len()
    }

    /// The record at position `i` in name order.
    pub fn get(&self, i: usize) -> (r: &DiskRecord)
        requires
            i < self@.len(),
        ensures
            r@ == self@[i as int],
    {
        &self.recs[i]
    }

    /// Take one reading for the device `name`: advance its record, creating
    /// it first if the name is new.
    pub fn record(&mut self, name: &str, cur: DiskInfo)
        requires
            old(self).wf(),
        ensures
            final(self).wf(),
            final(self)@ == upserted(old(self)@, name@, cur),
    {
        broadcast use vstd::utf8::encode_utf8_decode_utf8;

        let nb = name.as_bytes();
        let n = self.recs.len();
        let mut pos: usize = 0;
        while pos < n && rec_name_lt(&self.recs[pos], nb)
            invariant
                pos <= n,
                n == self@.len(),
                self == old(self),
                forall|k: int| 0 <= k < pos ==> lex_lt(key_of(#[trigger] self@[k].name), nb@),
            decreases n - pos,
        {
            pos = pos + 1;
        }
        let ghost t = self@;
        let found = if pos < n {
            bytes_eq(nb, self.recs[pos].name.as_str().as_bytes())
        } else {
            false
        };
        if found {
            proof {
                assert(t[pos as int].name == name@) by {
                    vstd::utf8::encode_utf8_decode_utf8(name@);
                    vstd::utf8::encode_utf8_decode_utf8(t[pos as int].name);
                }
                assert forall|k: int| 0 <= k < pos implies t[k].name != name@ by {
                    lemma_lex_lt_ne(key_of(t[k].name), nb@);
                }
                lemma_find_rec_at(t, name@, pos as int);
            }
            let mut rec = self.recs.remove(pos);
            let delta = cur.delta_from(&rec.prev);
            rec.read_history.push(delta.r_sectors as u64);
            rec.write_history.push(delta.w_sectors as u64);
            rec.prev = cur;
            self.recs.insert(pos, rec);
            proof {
                assert(self@ =~= t.update(pos as int, rec_advanced(t[pos as int], cur)));
                assert(table_wf(self@)) by {
                    assert forall|i: int| 0 <= i < self@.len() implies rec_wf(
                        #[trigger] self@[i],
                    ) by {
                        assert(rec_wf(t[i]));
                    }
                    assert forall|i: int, j: int| 0 <= i < j < self@.len() implies lex_lt(
                        key_of((#[trigger] self@[i]).name),
                        key_of((#[trigger] self@[j]).name),
                    ) by {
                        assert(self@[i].name == t[i].name);
                        assert(self@[j].name == t[j].name);
                    }
                }
            }
        } else {
            proof {
                if (pos as int) < t.len() {
                    assert(lex_lt(nb@, key_of(t[pos as int].name))) by {
                        if lex_le(key_of(t[pos as int].name), nb@) {
                            crate::lex::lemma_lex_le_antisym(key_of(t[pos as int].name), nb@);
                        }
                    }
                }
                assert forall|k: int| pos <= k < t.len() implies lex_lt(
                    nb@,
                    key_of((#[trigger] t[k]).name),
                ) by {
                    if k > pos {
                        lemma_lex_lt_trans(nb@, key_of(t[pos as int].name), key_of(t[k].name));
                    }
                }
                assert forall|k: int| 0 <= k < t.len() implies t[k].name != name@ by {
                    if k < pos {
                        lemma_lex_lt_ne(key_of(t[k].name), nb@);
                    } else {
                        lemma_lex_lt_ne(nb@, key_of(t[k].name));
                    }
                }
                lemma_find_rec_none(t, name@);
                lemma_insert_pos_at(t, nb@, pos as int);
            }
            let mut read_history = History::new();
            let mut write_history = History::new();
            let zero = DiskInfo::default();
            let delta = cur.delta_from(&zero);
            read_history.push(delta.r_sectors as u64);
            write_history.push(delta.w_sectors as u64);
            let rec = DiskRecord { name: name.to_owned(), prev: cur, read_history, write_history };
            self.recs.insert(pos, rec);
            proof {
                assert(self@ =~= t.insert(pos as int, fresh_rec(name@, cur)));
                assert(table_wf(self@)) by {
                    let u = self@;
                    assert forall|i: int| 0 <= i < u.len() implies rec_wf(#[trigger] u[i]) by {
                        if i < pos {
                            assert(u[i] == t[i]);
                        } else if i > pos {
                            assert(u[i] == t[i - 1]);
                        }
                    }
                    assert forall|i: int, j: int| 0 <= i < j < u.len() implies lex_lt(
                        key_of((#[trigger] u[i]).name),
                        key_of((#[trigger] u[j]).name),
                    ) by {
                        if i < pos && j < pos {
                            assert(u[i] == t[i] && u[j] == t[j]);
                        } else if i < pos && j == pos {
                            assert(u[i] == t[i]);
                        } else if i < pos && j > pos {
                            assert(u[i] == t[i] && u[j] == t[j - 1]);
                            assert(lex_lt(key_of(t[i].name), nb@));
                            assert(lex_lt(nb@, key_of(t[j - 1].name)));
                            lemma_lex_lt_trans(key_of(t[i].name), nb@, key_of(t[j - 1].name));
                        } else if i == pos {
                            assert(u[i].name == name@ && u[j] == t[j - 1]);
                        } else {
                            assert(u[i] == t[i - 1] && u[j] == t[j - 1]);
                        }
                    }
                }
            }
        }
    }
}

/// `insert_pos` always points into the table or just past its end.
proof fn lemma_insert_pos_bounds(t: Seq<DiskRecModel>, key: Seq<u8>)
    ensures
        0 <= insert_pos(t, key) <= t.len(),
    decreases t.len(),
{
    if t.len() > 0 && lex_lt(key_of(t[0].name), key) {
        lemma_insert_pos_bounds(t.drop_first(), key);
    }
}

/// A found index lies in the table and carries the name.
proof fn lemma_find_rec_bounds(t: Seq<DiskRecModel>, name: Seq<char>)
    requires
        find_rec(t, name) is Some,
    ensures
        0 <= find_rec(t, name)->0 < t.len(),
        t[find_rec(t, name)->0].name == name,
    decreases t.len(),
{
    if t.len() > 0 && t[0].name != name {
        lemma_find_rec_bounds(t.drop_first(), name);
    }
}

/// A device record, once created, is never removed: a reading for any
/// device keeps every existing record's name in the table, even for a
/// device that no longer appears in provider output.
pub proof fn lemma_record_kept(t: Seq<DiskRecModel>, name: Seq<char>, cur: DiskInfo, j: int)
    requires
        0 <= j < t.len(),
    ensures
        upserted(t, name, cur).len() >= t.len(),
        exists|k: int|
            0 <= k < upserted(t, name, cur).len() && (#[trigger] upserted(t, name, cur)[k]).name
                == t[j].name,
{
    let u = upserted(t, name, cur);
    match find_rec(t, name) {
        Some(i) => {
            lemma_find_rec_bounds(t, name);
            assert(u[j].name == t[j].name);
        },
        None => {
            let pos = insert_pos(t, key_of(name));
            lemma_insert_pos_bounds(t, key_of(name));
            if j < pos {
                assert(u[j].name == t[j].name);
            } else {
                assert(u[j + 1].name == t[j].name);
            }
        },
    }
}

/// `find_rec` returns the position of the first record carrying the name.
proof fn lemma_find_rec_at(t: Seq<DiskRecModel>, name: Seq<char>, pos: int)
    requires
        0 <= pos < t.len(),
        t[pos].name == name,
        forall|k: int| 0 <= k < pos ==> (#[trigger] t[k].name) != name,
    ensures
        find_rec(t, name) == Some(pos),
    decreases pos,
{
    if pos > 0 {
        lemma_find_rec_at(t.drop_first(), name, pos - 1);
    }
}

/// `find_rec` finds nothing when no record carries the name.
proof fn lemma_find_rec_none(t: Seq<DiskRecModel>, name: Seq<char>)
    requires
        forall|k: int| 0 <= k < t.len() ==> (#[trigger] t[k].name) != name,
    ensures
        find_rec(t, name) is None,
    decreases t.len(),
{
    if t.len() > 0 {
        lemma_find_rec_none(t.drop_first(), name);
    }
}

/// `insert_pos` is the boundary between the keys before `key` and the rest.
proof fn lemma_insert_pos_at(t: Seq<DiskRecModel>, key: Seq<u8>, pos: int)
    requires
        0 <= pos <= t.len(),
        forall|k: int| 0 <= k < pos ==> lex_lt(key_of((#[trigger] t[k]).name), key),
        pos == t.len() || lex_lt(key, key_of(t[pos].name)),
    ensures
        insert_pos(t, key) == pos,
    decreases pos,
{
    if pos == 0 {
        if t.len() > 0 {
            assert(!lex_lt(key_of(t[0].name), key)) by {
                lemma_lex_le_total(key, key_of(t[0].name));
            }
        }
    } else {
        lemma_insert_pos_at(t.drop_first(), key, pos - 1);
    }
}

} // verus!
