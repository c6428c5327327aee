use vstd::prelude::*;

verus! {

/// An exact utilization ratio. The percentage it denotes is
/// `ticks * 100 / elapsed`, kept as the pair so that nothing is rounded;
/// it may exceed 100 for a task that used more than one core's worth of
/// time, and that is intentional.
#[derive(Clone, Copy, PartialEq, Eq, Structural, Debug)]
pub struct CpuShare {
    pub ticks: u64,
    pub elapsed: u64,
}

pub open spec fn zero_share() -> CpuShare {
    CpuShare { ticks: 0, elapsed: 1 }
}

pub fn cpu_share_zero() -> (r: CpuShare)
    ensures
        r == zero_share(),
{
    CpuShare { ticks: 0, elapsed: 1 }
}

/// What a pair of counter samples yields: the counter delta over the clock
/// delta, with a clock or counter regression giving zero rather than a
/// negative value.
pub open spec fn spec_process_cpu_share(
    prev_time: u64,
    prev_ticks: u64,
    now_time: u64,
    now_ticks: u64,
) -> CpuShare {
    if now_time <= prev_time {
        zero_share()
    } else if now_ticks < prev_ticks {
        CpuShare { ticks: 0, elapsed: (now_time - prev_time) as u64 }
    } else {
        CpuShare { ticks: (now_ticks - prev_ticks) as u64, elapsed: (now_time - prev_time) as u64 }
    }
}

/// Per-process utilization between two samples of the cumulative task-time
/// counter: exactly `(now_ticks - prev_ticks) / (now_time - prev_time)`
/// of a core, as a percentage pair; never negative, and zero on any
/// counter or clock regression.
pub fn process_cpu_share(prev_time: u64, prev_ticks: u64, now_time: u64, now_ticks: u64) -> (r:
    CpuShare)
    ensures
        r == spec_process_cpu_share(prev_time, prev_ticks, now_time, now_ticks),
        r.elapsed > 0,
        now_time > prev_time && now_ticks >= prev_ticks ==> r.ticks == now_ticks - prev_ticks
            && r.elapsed == now_time - prev_time,
        now_ticks < prev_ticks ==> r.ticks == 0,
{
    if now_time <= prev_time {
        CpuShare { ticks: 0, elapsed: 1 }
    } else if now_ticks < prev_ticks {
        CpuShare { ticks: 0, elapsed: now_time - prev_time }
    } else {
        CpuShare { ticks: now_ticks - prev_ticks, elapsed: now_time - prev_time }
    }
}

/// Offsets of the four counters kept for every core in the flat
/// host-statistics tick array.
pub const STATE_USER: usize = 0;

pub const STATE_SYSTEM: usize = 1;

pub const STATE_IDLE: usize = 2;

pub const STATE_NICE: usize = 3;

/// Counters recorded per core in the flat tick array.
pub const STATE_WIDTH: usize = 4;

/// How much one counter of one core advanced between two snapshots of the
/// tick array; a counter that moved backwards counts as zero.
pub open spec fn tick_delta(prev: Seq<u32>, cur: Seq<u32>, core: int, off: int) -> int {
    let i = core * 4 + off;
    if cur[i] >= prev[i] {
        cur[i] - prev[i]
    } else {
        0
    }
}

/// Ticks core `core` spent working between the two snapshots.
pub open spec fn core_in_use(prev: Seq<u32>, cur: Seq<u32>, core: int) -> int {
    tick_delta(prev, cur, core, 0) + tick_delta(prev, cur, core, 1) + tick_delta(
        prev,
        cur,
        core,
        3,
    )
}

/// Ticks core `core` spent at all between the two snapshots.
pub open spec fn core_total(prev: Seq<u32>, cur: Seq<u32>, core: int) -> int {
    core_in_use(prev, cur, core) + tick_delta(prev, cur, core, 2)
}

/// A working share as a percentage in hundredths (basis points): 10000
/// means the core never idled. Zero when nothing at all was counted.
pub open spec fn usage_bp(in_use: int, total: int) -> int {
    if total <= 0 {
        0
    } else {
        in_use * 10000 / total
    }
}

fn delta_tick(prev: &Vec<u32>, cur: &Vec<u32>, core: usize, off: usize) -> (r: u64)
    requires
        off < 4,
        core * 4 + 4 <= prev.len(),
        core * 4 + 4 <= cur.len(),
    ensures
        r == tick_delta(prev@, cur@, core as int, off as int),
        r <= u32::MAX,
{
    let i = core * 4 + off;
    if cur[i] >= prev[i] {
        (cur[i] - prev[i]) as u64
    } else {
        0
    }
}

/// Utilization of one core between two snapshots of the tick array, in
/// hundredths of a percent: worked ticks over all ticks, zero when the
/// core recorded nothing.
pub fn core_usage_bp(prev: &Vec<u32>, cur: &Vec<u32>, core: usize) -> (r: u64)
    requires
        core * 4 + 4 <= prev.len(),
        core * 4 + 4 <= cur.len(),
    ensures
        r == usage_bp(core_in_use(prev@, cur@, core as int), core_total(prev@, cur@, core as int)),
        r <= 10000,
{
    let du = delta_tick(prev, cur, core, STATE_USER);
    let ds = delta_tick(prev, cur, core, STATE_SYSTEM);
    let dn = delta_tick(prev, cur, core, STATE_NICE);
    let di = delta_tick(prev, cur, core, STATE_IDLE);
    let in_use: u64 = du + ds + dn;
    let total: u64 = in_use + di;
    if total == 0 {
        0
    } else {
        let r = in_use * 10000 / total;
        assert((in_use as int) * 10000 / (total as int) <= 10000) by (nonlinear_arith)
            requires
                0 <= in_use <= total,
                total > 0,
        ;
        r
    }
}

/// Utilization read from a single snapshot, used the first time the tick
/// array is seen: the counters themselves stand in for the deltas.
pub open spec fn core_in_use_abs(cur: Seq<u32>, core: int) -> int {
    cur[core * 4 + 0] + cur[core * 4 + 1] + cur[core * 4 + 3]
}

pub open spec fn core_total_abs(cur: Seq<u32>, core: int) -> int {
    core_in_use_abs(cur, core) + cur[core * 4 + 2]
}

pub fn core_usage_abs_bp(cur: &Vec<u32>, core: usize) -> (r: u64)
    requires
        core * 4 + 4 <= cur.len(),
    ensures
        r == usage_bp(core_in_use_abs(cur@, core as int), core_total_abs(cur@, core as int)),
        r <= 10000,
{
    let i = core * 4;
    let in_use: u64 = (cur[i] as u64) + (cur[i + 1] as u64) + (cur[i + 3] as u64);
    let total: u64 = in_use + (cur[i + 2] as u64);
    if total == 0 {
        0
    } else {
        let r = in_use * 10000 / total;
        assert((in_use as int) * 10000 / (total as int) <= 10000) by (nonlinear_arith)
            requires
                0 <= in_use <= total,
                total > 0,
        ;
        r
    }
}

/// Sum of the per-core shares of one cycle.
pub open spec fn sum_bp(s: Seq<u64>) -> int
    decreases s.len(),
{
    if s.len() == 0 {
        0
    } else {
        sum_bp(s.drop_last()) + s.last()
    }
}

/// The aggregate entry's usage: the exact arithmetic mean of the per-core
/// shares of one cycle, kept as the sum and the count so that nothing is
/// rounded. The percentage it denotes is `sum / (100 * count)`.
#[derive(Clone, Copy, PartialEq, Eq, Structural, Debug)]
pub struct MeanShare {
    pub sum_bp: u64,
    pub count: u64,
}

/// One per-core entry of the processor table. Entry 0 is the aggregate;
/// entry `n` is core `n`. The raw tick array itself is shared: the snapshot
/// keeps one copy for all entries and replaces it wholesale each cycle.
#[derive(Clone, Copy, PartialEq, Eq, Structural, Debug)]
pub struct Processor {
    pub index: u64,
    pub usage_bp: u64,
}

/// The decimal digits of a number, most significant first.
pub open spec fn spec_decimal(n: int) -> Seq<u8>
    recommends
        n >= 0,
    decreases n,
{
    if n < 10 {
        seq![(48 + n) as u8]
    } else {
        spec_decimal(n / 10).push((48 + n % 10) as u8)
    }
}

pub fn u64_decimal(n: u64) -> (r: Vec<u8>)
    ensures
        r@ == spec_decimal(n as int),
    decreases n,
{
    if n < 10 {
        let mut v: Vec<u8> = Vec::new();
        v.push(48 + (n as u8));
        proof {
            assert(v@ =~= spec_decimal(n as int));
        }
        v
    } else {
        let mut v = u64_decimal(n / 10);
        v.push(48 + ((n % 10) as u8));
        proof {
            assert(v@ =~= spec_decimal(n as int));
        }
        v
    }
}

impl Processor {
    /// The entry's label: `0` names the aggregate, `1..N` the cores.
    pub fn label(&self) -> (r: Vec<u8>)
        ensures
            r@ == spec_decimal(self.index as int),
    {
        u64_decimal(self.index)
    }

    pub fn get_cpu_usage_bp(&self) -> (r: u64)
        ensures
            r == self.usage_bp,
    {
        self.usage_bp
    }
}

} // verus!
