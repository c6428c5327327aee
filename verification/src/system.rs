use vstd::prelude::*;

use crate::cpu::{
    core_in_use, core_in_use_abs, core_total, core_total_abs, core_usage_abs_bp, core_usage_bp,
    sum_bp, usage_bp, MeanShare, Processor,
};
use crate::disks::{Disk, DiskTypeCache};
use crate::process::{pids_distinct, Process, ProcessModel};

verus! {

/// Swap totals as the host reports them, in bytes.
#[derive(Clone, Copy, PartialEq, Eq, Structural, Debug)]
pub struct SwapUsage {
    pub total_bytes: u64,
    pub avail_bytes: u64,
}

/// Host virtual-memory statistics, in page counts.
#[derive(Clone, Copy, PartialEq, Eq, Structural, Debug)]
pub struct VmStats {
    pub active: u32,
    pub inactive: u32,
    pub wire: u32,
    pub speculative: u32,
    pub purgeable: u32,
}

/// One round of host-wide memory readings; a counter the host could not
/// deliver is absent and leaves the corresponding fields untouched.
#[derive(Clone, Copy, PartialEq, Eq, Structural, Debug)]
pub struct MemoryReadings {
    pub uptime: u64,
    pub swap: Option<SwapUsage>,
    pub mem_total_bytes: Option<u64>,
    pub vm: Option<VmStats>,
}

/// Free memory derived from the page counters: the total minus what the
/// active, inactive, wired and speculative pages hold beyond the purgeable
/// ones; zero whenever the counters cannot be reconciled with the total.
pub open spec fn spec_mem_free(total_kb: u64, page_size_kb: u64, v: VmStats) -> u64 {
    let pages = v.active + v.inactive + v.wire + v.speculative;
    if v.purgeable > pages {
        0u64
    } else if (pages - v.purgeable) * page_size_kb > total_kb {
        0u64
    } else {
        (total_kb - (pages - v.purgeable) * page_size_kb) as u64
    }
}

/// The live snapshot of the host: process table, per-core processor table,
/// memory and swap totals, uptime, and the classified disk list.
pub struct System {
    pub process_list: Vec<Process>,
    pub mem_total: u64,
    pub mem_free: u64,
    pub swap_total: u64,
    pub swap_free: u64,
    pub page_size_kb: u64,
    pub processors: Vec<Processor>,
    pub cpu_ticks: Vec<u32>,
    pub aggregate: MeanShare,
    pub uptime: u64,
    pub disks: Vec<Disk>,
    pub disk_types: DiskTypeCache,
}

impl System {
    /// The process table as a sequence of mathematical descriptors.
    pub open spec fn procs(&self) -> Seq<ProcessModel> {
        self.process_list.deep_view()
    }

    /// The snapshot's invariant: the process table keys are unique, free
    /// never exceeds total, and the processor table matches the tick
    /// array it was computed from.
    pub open spec fn wf(&self) -> bool {
        &&& pids_distinct(self.procs())
        &&& self.mem_free <= self.mem_total
        &&& self.swap_free <= self.swap_total
        &&& (self.processors@.len() == 0 || self.processors@.len() == 1 + self.cpu_ticks@.len()
            / 4)
        &&& self.cpu_ticks@.len() <= 0x1000_0000
    }

    /// An empty snapshot. The page size comes from the platform layer,
    /// once, at construction.
    pub fn new(page_size_kb: u64) -> (r: System)
        ensures
            r.wf(),
            r.procs() =~= Seq::<ProcessModel>::empty(),
            r.mem_total == 0 && r.mem_free == 0 && r.swap_total == 0 && r.swap_free == 0,
            r.page_size_kb == page_size_kb,
            r.processors@.len() == 0,
            r.uptime == 0,
            r.disks@.len() == 0,
            !r.disk_types.initialized(),
            r.disk_types.wf(),
    {
        System {
            process_list: Vec::new(),
            mem_total: 0,
            mem_free: 0,
            swap_total: 0,
            swap_free: 0,
            page_size_kb,
            processors: Vec::new(),
            cpu_ticks: Vec::new(),
            aggregate: MeanShare { sum_bp: 0, count: 1 },
            uptime: 0,
            disks: Vec::new(),
            disk_types: DiskTypeCache::new(),
        }
    }

    /// Folds one round of host memory readings into the snapshot: swap
    /// totals in kibibytes, the physical total once it is first known, and
    /// the derived free-memory figure.
    pub fn refresh_memory(&mut self, r: &MemoryReadings)
        requires
            old(self).wf(),
        ensures
            final(self).wf(),
            final(self).uptime == r.uptime,
            final(self).swap_total == (match r.swap {
                Some(s) => s.total_bytes / 1024,
                None => old(self).swap_total,
            }),
            final(self).swap_free == (match r.swap {
                Some(s) => (if s.avail_bytes / 1024 <= s.total_bytes / 1024 {
                    s.avail_bytes / 1024
                } else {
                    s.total_bytes / 1024
                }),
                None => old(self).swap_free,
            }),
            final(self).mem_total == (if old(self).mem_total < 1 {
                match r.mem_total_bytes {
                    Some(b) => b / 1024,
                    None => 0u64,
                }
            } else {
                old(self).mem_total
            }),
            final(self).mem_free == (match r.vm {
                Some(v) => spec_mem_free(final(self).mem_total, final(self).page_size_kb, v),
                None => (if old(self).mem_free <= final(self).mem_total {
                    old(self).mem_free
                } else {
                    final(self).mem_total
                }),
            }),
            final(self).process_list == old(self).process_list,
            final(self).processors == old(self).processors,
            final(self).page_size_kb == old(self).page_size_kb,
            final(self).disk_types == old(self).disk_types,
            final(self).disks == old(self).disks,
    {
        self.uptime = r.uptime;
        match r.swap {
            Some(s) => {
                self.swap_total = s.total_bytes / 1024;
                let avail = s.avail_bytes / 1024;
                self.swap_free = if avail <= self.swap_total {
                    avail
                } else {
                    self.swap_total
                };
            },
            None => {},
        }
        if self.mem_total < 1 {
            match r.mem_total_bytes {
                Some(b) => {
                    self.mem_total = b / 1024;
                },
                None => {
                    self.mem_total = 0;
                },
            }
            if self.mem_free > self.mem_total {
                self.mem_free = self.mem_total;
            }
        }
        match r.vm {
            Some(v) => {
                let pages: u64 = (v.active as u64) + (v.inactive as u64) + (v.wire as u64) + (
                v.speculative as u64);
                if (v.purgeable as u64) > pages {
                    self.mem_free = 0;
                } else {
                    let held: u64 = pages - (v.purgeable as u64);
                    proof {
                        assert((held as int) * (self.page_size_kb as int) <= 17179869184int
                            * 18446744073709551615int) by (nonlinear_arith)
                            requires
                                held <= 17179869184,
                                self.page_size_kb <= 18446744073709551615,
                        ;
                    }
                    let used: u128 = (held as u128) * (self.page_size_kb as u128);
                    if used > (self.mem_total as u128) {
                        self.mem_free = 0;
                    } else {
                        self.mem_free = self.mem_total - (used as u64);
                    }
                }
            },
            None => {
                if self.mem_free > self.mem_total {
                    self.mem_free = self.mem_total;
                }
            },
        }
    }

    /// The per-core shares held by the processor table, aggregate entry
    /// excluded.
    pub open spec fn core_shares(&self) -> Seq<u64> {
        Seq::new((self.processors@.len() - 1) as nat, |i: int| self.processors@[i + 1].usage_bp)
    }

    /// Folds one snapshot of the host's flat per-core tick array into the
    /// processor table.
    ///
    /// The first round builds the table: the aggregate entry, then one
    /// entry per core with its share read from the bare counters. Every
    /// later round derives each core's share from the counter deltas and
    /// sets the aggregate to the exact arithmetic mean of the per-core
    /// shares — `aggregate` keeps the sum and the count, the stored
    /// aggregate entry shows the rounded-down mean. A tick array whose
    /// size changed mid-run is refused and leaves everything but the
    /// uptime untouched.
    pub fn refresh_cpu(&mut self, uptime: u64, new_ticks: Vec<u32>)
        requires
            old(self).wf(),
            new_ticks@.len() <= 0x1000_0000,
        ensures
            final(self).wf(),
            final(self).uptime == uptime,
            old(self).processors@.len() == 0 ==> {
                &&& final(self).cpu_ticks@ == new_ticks@
                &&& final(self).processors@.len() == 1 + new_ticks@.len() / 4
                &&& final(self).processors@[0] == (Processor { index: 0u64, usage_bp: 0u64 })
                &&& forall|i: int|
                    1 <= i < final(self).processors@.len() ==> final(self).processors@[i] == (
                    Processor {
                        index: i as u64,
                        usage_bp: usage_bp(
                            core_in_use_abs(new_ticks@, i - 1),
                            core_total_abs(new_ticks@, i - 1),
                        ) as u64,
                    })
            },
            old(self).processors@.len() > 0 && new_ticks@.len() == old(self).cpu_ticks@.len()
                ==> {
                &&& final(self).cpu_ticks@ == new_ticks@
                &&& final(self).processors@.len() == old(self).processors@.len()
                &&& forall|i: int|
                    1 <= i < final(self).processors@.len() ==> final(self).processors@[i] == (
                    Processor {
                        index: i as u64,
                        usage_bp: usage_bp(
                            core_in_use(old(self).cpu_ticks@, new_ticks@, i - 1),
                            core_total(old(self).cpu_ticks@, new_ticks@, i - 1),
                        ) as u64,
                    })
                &&& (final(self).processors@.len() > 1 ==> {
                    &&& final(self).aggregate.sum_bp == sum_bp(final(self).core_shares())
                    &&& final(self).aggregate.count == final(self).processors@.len() - 1
                    &&& final(self).processors@[0] == (Processor {
                        index: 0u64,
                        usage_bp: (final(self).aggregate.sum_bp / final(self).aggregate.count)
                            as u64,
                    })
                })
            },
            old(self).processors@.len() > 0 && new_ticks@.len() != old(self).cpu_ticks@.len()
                ==> {
                &&& final(self).cpu_ticks == old(self).cpu_ticks
                &&& final(self).processors == old(self).processors
                &&& final(self).aggregate == old(self).aggregate
            },
            final(self).process_list == old(self).process_list,
            final(self).mem_total == old(self).mem_total,
            final(self).mem_free == old(self).mem_free,
            final(self).swap_total == old(self).swap_total,
            final(self).swap_free == old(self).swap_free,
            final(self).disks == old(self).disks,
            final(self).disk_types == old(self).disk_types,
    {
        self.uptime = uptime;
        if self.processors.len() == 0 {
            let n = new_ticks.len() / 4;
            self.processors.push(Processor { index: 0, usage_bp: 0 });
            let mut i: usize = 0;
            while i < n
                invariant
                    i <= n,
                    n == new_ticks@.len() / 4,
                    new_ticks@.len() <= 0x1000_0000,
                    self.cpu_ticks == old(self).cpu_ticks,
                    self.aggregate == old(self).aggregate,
                    self.process_list == old(self).process_list,
                    self.mem_total == old(self).mem_total,
                    self.mem_free == old(self).mem_free,
                    self.swap_total == old(self).swap_total,
                    self.swap_free == old(self).swap_free,
                    self.page_size_kb == old(self).page_size_kb,
                    self.uptime == uptime,
                    self.disks == old(self).disks,
                    self.disk_types == old(self).disk_types,
                    self.processors@.len() == 1 + i,
                    self.processors@[0] == (Processor { index: 0u64, usage_bp: 0u64 }),
                    forall|k: int|
                        1 <= k < self.processors@.len() ==> self.processors@[k] == (Processor {
                            index: k as u64,
                            usage_bp: usage_bp(
                                core_in_use_abs(new_ticks@, k - 1),
                                core_total_abs(new_ticks@, k - 1),
                            ) as u64,
                        }),
                decreases n - i,
            {
                let bp = core_usage_abs_bp(&new_ticks, i);
                self.processors.push(Processor { index: (i + 1) as u64, usage_bp: bp });
                i = i + 1;
            }
            self.cpu_ticks = new_ticks;
        } else {
            if new_ticks.len() != self.cpu_ticks.len() {
                return ;
            }
            let n = self.processors.len() - 1;
            let ghost prev = self.cpu_ticks@;
            let ghost cur = new_ticks@;
            let mut sum: u64 = 0;
            let mut i: usize = 0;
            while i < n
                invariant
                    i <= n,
                    n == self.processors@.len() - 1,
                    n <= 0x400_0000,
                    n * 4 <= self.cpu_ticks@.len(),
                    self.aggregate == old(self).aggregate,
                    self.process_list == old(self).process_list,
                    self.mem_total == old(self).mem_total,
                    self.mem_free == old(self).mem_free,
                    self.swap_total == old(self).swap_total,
                    self.swap_free == old(self).swap_free,
                    self.page_size_kb == old(self).page_size_kb,
                    self.uptime == uptime,
                    self.disks == old(self).disks,
                    self.disk_types == old(self).disk_types,
                    self.cpu_ticks@ == prev,
                    new_ticks@ == cur,
                    prev.len() == cur.len(),
                    self.processors@.len() == n + 1,
                    self.processors@[0] == (Processor { index: 0u64, usage_bp: 0u64 })
                        || self.processors@[0] == old(self).processors@[0],
                    forall|k: int|
                        1 <= k <= i ==> self.processors@[k] == (Processor {
                            index: k as u64,
                            usage_bp: usage_bp(
                                core_in_use(prev, cur, k - 1),
                                core_total(prev, cur, k - 1),
                            ) as u64,
                        }),
                    forall|k: int|
                        i < k < self.processors@.len() ==> self.processors@[k] == old(
                            self,
                        ).processors@[k],
                    sum == sum_bp(
                        Seq::new(
                            i as nat,
                            |k: int|
                                usage_bp(
                                    core_in_use(prev, cur, k),
                                    core_total(prev, cur, k),
                                ) as u64,
                        ),
                    ),
                    sum <= i * 10000,
                decreases n - i,
            {
                let bp = core_usage_bp(&self.cpu_ticks, &new_ticks, i);
                self.processors.set(i + 1, Processor { index: (i + 1) as u64, usage_bp: bp });
                proof {
                    let f = |k: int|
                        usage_bp(core_in_use(prev, cur, k), core_total(prev, cur, k)) as u64;
                    assert(Seq::new((i + 1) as nat, f) =~= Seq::new(i as nat, f).push(f(i as int)));
                    assert(Seq::new((i + 1) as nat, f).drop_last() =~= Seq::new(i as nat, f));
                }
                sum = sum + bp;
                i = i + 1;
            }
            if n >= 1 {
                self.aggregate = MeanShare { sum_bp: sum, count: n as u64 };
                self.processors.set(0, Processor { index: 0, usage_bp: sum / (n as u64) });
            }
            self.cpu_ticks = new_ticks;
            proof {
                let f = |k: int|
                    usage_bp(core_in_use(prev, cur, k), core_total(prev, cur, k)) as u64;
                assert(self.core_shares() =~= Seq::new(n as nat, f));
            }
        }
    }

    pub fn get_total_memory(&self) -> (r: u64)
        ensures
            r == self.mem_total,
    {
        self.mem_total
    }

    pub fn get_free_memory(&self) -> (r: u64)
        ensures
            r == self.mem_free,
    {
        self.mem_free
    }

    pub fn get_used_memory(&self) -> (r: u64)
        requires
            self.wf(),
        ensures
            r == self.mem_total - self.mem_free,
    {
        self.mem_total - self.mem_free
    }

    pub fn get_total_swap(&self) -> (r: u64)
        ensures
            r == self.swap_total,
    {
        self.swap_total
    }

    pub fn get_free_swap(&self) -> (r: u64)
        ensures
            r == self.swap_free,
    {
        self.swap_free
    }

    pub fn get_used_swap(&self) -> (r: u64)
        requires
            self.wf(),
        ensures
            r == self.swap_total - self.swap_free,
    {
        self.swap_total - self.swap_free
    }

    pub fn get_uptime(&self) -> (r: u64)
        ensures
            r == self.uptime,
    {
        self.uptime
    }

    pub fn get_process_list(&self) -> (r: &Vec<Process>)
        ensures
            r.deep_view() == self.procs(),
    {
        &self.process_list
    }

    pub fn get_processor_list(&self) -> (r: &Vec<Processor>)
        ensures
            r@ == self.processors@,
    {
        &self.processors
    }

    pub fn get_disks(&self) -> (r: &Vec<Disk>)
        ensures
            r@ == self.disks@,
    {
        &self.disks
    }

    /// Whether the disk-type index still awaits its one enumeration.
    pub fn disk_types_pending(&self) -> (r: bool)
        ensures
            r == !self.disk_types.initialized(),
    {
        self.disk_types.needs_enumeration()
    }

    /// Publishes the one device-registry enumeration into the snapshot's
    /// disk-type index; a failed walk installs an empty index, and neither
    /// is ever recomputed.
    pub fn install_disk_types(&mut self, entries: Vec<(Vec<u8>, crate::disks::DiskType)>)
        requires
            old(self).wf(),
            old(self).disk_types.wf(),
            !old(self).disk_types.initialized(),
        ensures
            final(self).wf(),
            final(self).disk_types.wf(),
            final(self).disk_types.initialized(),
            final(self).disk_types.enum_count() == old(self).disk_types.enum_count() + 1,
            final(self).disk_types.table() == Seq::new(
                entries@.len(),
                |i: int| (entries@[i].0@, entries@[i].1),
            ),
            final(self).process_list == old(self).process_list,
            final(self).processors == old(self).processors,
            final(self).disks == old(self).disks,
    {
        self.disk_types.install(entries);
    }

    /// Rebuilds the disk list from the mounted volumes, classifying each
    /// through the installed index.
    pub fn refresh_disk_list(&mut self, volumes: Vec<crate::disks::Volume>)
        requires
            old(self).wf(),
            old(self).disk_types.initialized(),
        ensures
            final(self).wf(),
            final(self).disks.deep_view() == crate::disks::spec_disks(
                final(self).disk_types.table(),
                volumes.deep_view(),
            ),
            final(self).disk_types == old(self).disk_types,
            final(self).process_list == old(self).process_list,
            final(self).processors == old(self).processors,
    {
        let list = crate::disks::build_disks(&self.disk_types, volumes);
        self.disks = list;
    }
}

impl Default for System {
    /// An empty snapshot with no page size known yet.
    fn default() -> (r: System)
        ensures
            r.wf(),
            r.procs() =~= Seq::<ProcessModel>::empty(),
    {
        System::new(0)
    }
}

} // verus!
