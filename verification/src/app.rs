//! The application state and the sampling engine: one refresh cycle per
//! tick advances every time series by exactly one step.
//!
//! The engine owns all history windows, the disk record table and the
//! process snapshot; the driver around it reads the metrics provider and
//! hands the readings in as plain values.

use vstd::prelude::*;

use crate::disk::{is_disk_device, key_of, upserted, DiskInfo, DiskRecModel, DiskTable};
use crate::history::{pushed, zero_window, History};
use crate::input::{step, Column, InputModel, InputState, KeyCommand, SortDirection};
use crate::process::ProcessInfo;
use crate::units::{best_prefix_exp, scaled_milli, MemPrefix};

verus! {

/// The provider's own minimum interval between CPU reads, in milliseconds:
/// two reads closer than this give no meaningful utilization.
pub const MIN_CPU_INTERVAL_MILLIS: u64 = 200;

/// One disk reading handed in by the driver: a device name and its
/// cumulative sector counters.
pub struct DiskSample {
    pub name: String,
    pub stats: DiskInfo,
}

/// The mathematical value of a disk reading.
pub struct DiskSampleModel {
    pub name: Seq<char>,
    pub stats: DiskInfo,
}

impl View for DiskSample {
    type V = DiskSampleModel;

    open spec fn view(&self) -> DiskSampleModel {
        DiskSampleModel { name: self.name@, stats: self.stats }
    }
}

/// The readings of disk samples, as mathematical values.
pub open spec fn samples_of(ds: Seq<DiskSample>) -> Seq<DiskSampleModel> {
    ds.map_values(|s: DiskSample| s@)
}

/// Everything one sampling cycle reads from the metrics provider.  An empty
/// collection means "no data this cycle" and is never an error.
pub struct TickInput {
    /// The driver's clock at this tick, in milliseconds.
    pub now_millis: u64,
    /// Per-core utilization in milli-percent; `None` when the provider was
    /// not read this cycle.
    pub cpu_percents: Option<Vec<u64>>,
    /// Used physical memory in bytes.
    pub mem_used: u64,
    /// The full process list; per-process CPU still raw, in milli-percent
    /// summed over all cores.
    pub processes: Vec<ProcessInfo>,
    /// Cumulative counters of every reported block device.
    pub disks: Vec<DiskSample>,
}

/// The application state.
pub struct App {
    /// Is the application running?
    pub running: bool,
    pub input_state: InputState,

    pub cpu_history: Vec<History>,
    pub mem_history: History,
    /// Total physical memory in milli-units of `mem_prefix`.
    pub mem_total: u64,
    /// The unit prefix chosen once at startup from total physical memory
    /// and reused for every memory sample.
    pub mem_prefix: MemPrefix,

    pub processes: Vec<ProcessInfo>,
    pub disks: DiskTable,

    /// The driver clock value of the last CPU refresh, in milliseconds.
    pub last_refresh: u64,
}

/// A process with its CPU share divided by the core count, so a busy
/// multi-core process does not exceed one hundred percent.
pub open spec fn normalized(p: ProcessInfo, cores: nat) -> ProcessInfo {
    ProcessInfo {
        pid: p.pid,
        cpu: (p.cpu as nat / (if cores == 0 {
            1nat
        } else {
            cores
        })) as u64,
        mem: p.mem,
        name: p.name,
        disk_r: p.disk_r,
        disk_w: p.disk_w,
    }
}

/// The whole process list, normalized.
pub open spec fn normalized_procs(ps: Seq<ProcessInfo>, cores: nat) -> Seq<ProcessInfo> {
    ps.map_values(|p: ProcessInfo| normalized(p, cores))
}

/// The memory sample pushed for `used` bytes under `prefix`: the scaled
/// milli-units, saturated at the widest sample.
pub open spec fn mem_sample(prefix: MemPrefix, used: u64) -> u64 {
    if scaled_milli(used as nat, prefix.exp()) <= u64::MAX as nat {
        scaled_milli(used as nat, prefix.exp()) as u64
    } else {
        u64::MAX
    }
}

/// The disk table after one cycle's readings: each reading that names a
/// real block device advances (or creates) its record, in input order;
/// the rest are ignored.
pub open spec fn disks_after(t: Seq<DiskRecModel>, samples: Seq<DiskSampleModel>) -> Seq<
    DiskRecModel,
>
    decreases samples.len(),
{
    if samples.len() == 0 {
        t
    } else {
        let rest = disks_after(t, samples.drop_last());
        let s = samples.last();
        if is_disk_device(key_of(s.name)) {
            upserted(rest, s.name, s.stats)
        } else {
            rest
        }
    }
}

impl App {
    /// Every history window is full and the disk table well-formed.
    pub open spec fn wf(&self) -> bool {
        &&& (forall|i: int|
            0 <= i < self.cpu_history@.len() ==> (#[trigger] self.cpu_history@[i]).wf())
        &&& self.mem_history.wf()
        &&& self.disks.wf()
    }

    /// Whether enough wall-clock time has passed since the last CPU refresh
    /// for a new provider read to be meaningful.
    pub open spec fn cpu_due(self, now: u64) -> bool {
        now as int >= self.last_refresh as int + MIN_CPU_INTERVAL_MILLIS
    }

    /// `cpu_due`, as a run-time check for the driver.
    pub fn cpu_refresh_due(&self, now: u64) -> (r: bool)
        ensures
            r == self.cpu_due(now),
    {
        now >= self.last_refresh && now - self.last_refresh >= MIN_CPU_INTERVAL_MILLIS
    }

    /// A fresh application: one zero-filled window per core, a zero-filled
    /// memory window under the prefix chosen from total memory, no
    /// processes, no disks, sort mode on the default column.
    pub fn new(cpu_count: usize, total_memory: u64, now_millis: u64) -> (r: App)
        ensures
            r.wf(),
            r.running,
            r.input_state@ == (InputModel::Sort {
                column: Column::Cpu,
                direction: SortDirection::Descending,
            }),
            r.cpu_history@.len() == cpu_count,
            forall|i: int| 0 <= i < cpu_count ==> (#[trigger] r.cpu_history@[i])@ == zero_window(),
            r.mem_history@ == zero_window(),
            r.mem_prefix == MemPrefix::from_exp(best_prefix_exp(total_memory as nat)),
            r.mem_total as nat == scaled_milli(total_memory as nat, r.mem_prefix.exp()),
            r.processes@ == Seq::<ProcessInfo>::empty(),
            r.disks@ == Seq::<DiskRecModel>::empty(),
            r.last_refresh == now_millis,
    {
        let mut cpu_history: Vec<History> = Vec::new();
        let mut i: usize = 0;
        while i < cpu_count
            invariant
                i <= cpu_count,
                cpu_history@.len() == i,
                forall|k: int|
                    0 <= k < i ==> (#[trigger] cpu_history@[k]).wf() && cpu_history@[k]@
                        == zero_window(),
            decreases cpu_count - i,
        {
            cpu_history.push(History::new());
            i = i + 1;
        }
        let (mem_total, mem_prefix) = MemPrefix::find_best(total_memory);
        App {
            running: true,
            input_state: InputState::default(),
            cpu_history,
            mem_history: History::new(),
            mem_total,
            mem_prefix,
            processes: Vec::new(),
            disks: DiskTable::new(),
            last_refresh: now_millis,
        }
    }

    /// Stop the application.
    pub fn quit(&mut self)
        ensures
            *final(self) == (App { running: false, ..*old(self) }),
    {
        self.running = false;
    }

    /// Handle one key command: `Quit` stops the application from any state;
    /// everything else drives the interaction state machine one step.
    pub fn handle_command(&mut self, cmd: KeyCommand)
        ensures
            final(self).running == (old(self).running && !(cmd is Quit)),
            final(self).input_state@ == step(old(self).input_state@, cmd),
            final(self).cpu_history == old(self).cpu_history,
            final(self).mem_history == old(self).mem_history,
            final(self).mem_total == old(self).mem_total,
            final(self).mem_prefix == old(self).mem_prefix,
            final(self).processes == old(self).processes,
            final(self).disks == old(self).disks,
            final(self).last_refresh == old(self).last_refresh,
    {
        match cmd {
            KeyCommand::Quit => {
                self.quit();
            },
            _ => {
                let mut st = InputState::default();
                core::mem::swap(&mut st, &mut self.input_state);
                self.input_state = st.apply(cmd);
            },
        }
    }

    /// Advance every time series by exactly one cycle: push one CPU sample
    /// per core when a read is due and provided, always push one scaled
    /// memory sample, replace the process snapshot wholesale (normalized by
    /// the core count), and advance the record of every real block device
    /// reported.
    #[verifier::loop_isolation(false)]
    pub fn tick(&mut self, input: TickInput)
        requires
            old(self).wf(),
        ensures
            final(self).wf(),
            final(self).cpu_history@.len() == old(self).cpu_history@.len(),
            (forall|i: int|
                #![trigger final(self).cpu_history@[i]]
                0 <= i < old(self).cpu_history@.len() ==> final(self).cpu_history@[i]@ == (match input.cpu_percents {
                    Some(ps) => if old(self).cpu_due(input.now_millis) && i < ps@.len() {
                        pushed(old(self).cpu_history@[i]@, ps@[i])
                    } else {
                        old(self).cpu_history@[i]@
                    },
                    None => old(self).cpu_history@[i]@,
                })),
            final(self).last_refresh == (if old(self).cpu_due(input.now_millis)
                && input.cpu_percents is Some {
                input.now_millis
            } else {
                old(self).last_refresh
            }),
            final(self).mem_history@ == pushed(
                old(self).mem_history@,
                mem_sample(old(self).mem_prefix, input.mem_used),
            ),
            final(self).processes@ == normalized_procs(
                input.processes@,
                old(self).cpu_history@.len() as nat,
            ),
            final(self).disks@ == disks_after(old(self).disks@, samples_of(input.disks@)),
            final(self).running == old(self).running,
            final(self).input_state == old(self).input_state,
            final(self).mem_total == old(self).mem_total,
            final(self).mem_prefix == old(self).mem_prefix,
    {
        let ghost o = *old(self);
        // CPU: only when the provider interval has passed and a read came.
        if self.cpu_refresh_due(input.now_millis) {
            match &input.cpu_percents {
                Some(percents) => {
                    let n = if percents.len() < self.cpu_history.len() {
                        percents.len()
                    } else {
                        self.cpu_history.len()
                    };
                    let mut i: usize = 0;
                    while i < n
                        invariant
                            i <= n,
                            self.running == o.running,
                            self.input_state == o.input_state,
                            self.mem_history == o.mem_history,
                            self.mem_total == o.mem_total,
                            self.mem_prefix == o.mem_prefix,
                            self.processes == o.processes,
                            self.disks == o.disks,
                            self.last_refresh == o.last_refresh,
                            self.cpu_history@.len() == o.cpu_history@.len(),
                            forall|k: int|
                                0 <= k < i ==> (#[trigger] self.cpu_history@[k])@ == pushed(
                                    o.cpu_history@[k]@,
                                    percents@[k],
                                ),
                            forall|k: int|
                                i <= k < self.cpu_history@.len() ==> (#[trigger] self
                                    .cpu_history@[k]) == o.cpu_history@[k],
                        decreases n - i,
                    {
                        self.cpu_history[i].push(percents[i]);
                        i = i + 1;
                    }
                    self.last_refresh = input.now_millis;
                },
                None => {},
            }
        }
        // Memory: unconditionally, scaled through the fixed prefix.
        let sample = self.mem_prefix.convert(input.mem_used);
        self.mem_history.push(sample);
        // Processes: replaced wholesale, CPU normalized by the core count.
        let cores = self.cpu_history.len();
        let divisor: u64 = if cores == 0 {
            1
        } else {
            cores as u64
        };
        let mut procs = input.processes;
        let ghost raw = procs@;
        let mut pi: usize = 0;
        while pi < procs.len()
            invariant
                pi <= procs@.len(),
                procs@.len() == raw.len(),
                forall|k: int|
                    0 <= k < pi ==> procs@[k] == normalized(
                        #[trigger] raw[k],
                        o.cpu_history@.len() as nat,
                    ),
                forall|k: int| pi <= k < raw.len() ==> #[trigger] procs@[k] == raw[k],
            decreases procs@.len() - pi,
        {
            let elem = &mut procs[pi];
            elem.cpu = elem.cpu / divisor;
            pi = pi + 1;
        }
        self.processes = procs;
        proof {
            assert(self.processes@ =~= normalized_procs(raw, o.cpu_history@.len() as nat));
        }
        // Disks: every reported real block device advances its record.
        let ghost mid = *self;
        let ghost disks0 = self.disks@;
        let mut di: usize = 0;
        while di < input.disks.len()
            invariant
                di <= input.disks@.len(),
                self.running == mid.running,
                self.input_state == mid.input_state,
                self.cpu_history == mid.cpu_history,
                self.mem_history == mid.mem_history,
                self.mem_total == mid.mem_total,
                self.mem_prefix == mid.mem_prefix,
                self.processes == mid.processes,
                self.last_refresh == mid.last_refresh,
                self.disks.wf(),
                self.disks@ == disks_after(disks0, samples_of(input.disks@.take(di as int))),
            decreases input.disks@.len() - di,
        {
            let s = &input.disks[di];
            if crate::disk::is_disk_name(s.name.as_str()) {
                self.disks.record(s.name.as_str(), s.stats);
            }
            di = di + 1;
            proof {
                let taken = samples_of(input.disks@.take(di as int));
                assert(taken.drop_last() =~= samples_of(input.disks@.take(di as int - 1)));
                assert(taken.last() == input.disks@[di as int - 1]@);
            }
        }
        proof {
            assert(input.disks@.take(input.disks@.len() as int) =~= input.disks@);
        }
    }
}

} // verus!
