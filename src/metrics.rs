use vstd::prelude::*;

verus! {

/// The stage of a walk run.
#[derive(Clone, Copy, PartialEq, Eq, Structural, Debug)]
pub enum WalkPhase {
    NotStarted,
    HomeScan { started_at: u64 },
    RootScan { started_at: u64, completed_roots: u32, total_roots: u32 },
    Idle,
}

/// `completed` out of `total`, in percent, at most 100.
pub open spec fn ratio_percent(completed: u32, total: u32) -> nat {
    if total == 0 {
        0
    } else if completed >= total {
        100
    } else {
        (completed as nat * 100) / (total as nat)
    }
}

/// How far a run has come, in percent.
pub open spec fn phase_percent(p: WalkPhase) -> nat {
    match p {
        WalkPhase::NotStarted => 0,
        WalkPhase::HomeScan { .. } => 0,
        WalkPhase::RootScan { completed_roots, total_roots, .. } => ratio_percent(
            completed_roots,
            total_roots,
        ),
        WalkPhase::Idle => 100,
    }
}

/// The phase after the home walk ends at `now`.
pub open spec fn end_home_step(p: WalkPhase, now: u64) -> WalkPhase {
    match p {
        WalkPhase::HomeScan { .. } => WalkPhase::RootScan {
            started_at: now,
            completed_roots: 0,
            total_roots: 0,
        },
        _ => p,
    }
}

/// The phase after `completed` of `total` roots were reached; the percentage
/// never goes down within a run, and a finished run stays finished.
pub open spec fn root_step(p: WalkPhase, completed: u32, total: u32) -> WalkPhase {
    match p {
        WalkPhase::RootScan { started_at, .. } => if ratio_percent(completed, total)
            >= phase_percent(p) {
            WalkPhase::RootScan { started_at, completed_roots: completed, total_roots: total }
        } else {
            p
        },
        WalkPhase::HomeScan { started_at } => WalkPhase::RootScan {
            started_at,
            completed_roots: completed,
            total_roots: total,
        },
        WalkPhase::NotStarted => WalkPhase::RootScan {
            started_at: 0,
            completed_roots: completed,
            total_roots: total,
        },
        WalkPhase::Idle => p,
    }
}

/// A snapshot of the progress of a run.
#[derive(Clone, Copy, PartialEq, Eq, Structural, Debug)]
pub struct WalkMatrixView {
    pub phase: WalkPhase,
    pub percent: u32,
    pub doc_count: u64,
}

/// The progress of the walk run in flight.
pub struct WalkMetrics {
    pub phase: WalkPhase,
}

fn percent_of(completed: u32, total: u32) -> (r: u32)
    ensures
        r as nat == ratio_percent(completed, total),
{
    if total == 0 {
        0
    } else if completed >= total {
        100
    } else {
        let c = completed as u64;
        let t = total as u64;
        assert((c as int) * 100 <= 100 * (t as int)) by (nonlinear_arith)
            requires
                c < t,
        ;
        assert(((c as int) * 100) / (t as int) <= 100) by (nonlinear_arith)
            requires
                (c as int) * 100 <= 100 * (t as int),
                0 < t,
        ;
        let r = (c * 100) / t;
        r as u32
    }
}

impl WalkMetrics {
    /// Metrics of a run that has not started.
    pub fn new() -> (r: WalkMetrics)
        ensures
            r.phase == WalkPhase::NotStarted,
    {
        WalkMetrics { phase: WalkPhase::NotStarted }
    }

    /// The home walk starts at `now`; this begins a run.
    pub fn start_home(&mut self, now: u64)
        ensures
            final(self).phase == (WalkPhase::HomeScan { started_at: now }),
    {
        self.phase = WalkPhase::HomeScan { started_at: now };
    }

    /// The home walk ended at `now`; the root walks begin.
    pub fn end_home(&mut self, now: u64)
        ensures
            final(self).phase == end_home_step(old(self).phase, now),
    {
        match self.phase {
            WalkPhase::HomeScan { .. } => {
                self.phase = WalkPhase::RootScan { started_at: now, completed_roots: 0, total_roots: 0 };
            },
            _ => {},
        }
    }

    /// `completed` of `total` roots were reached.
    pub fn root_inc_percent(&mut self, completed: u32, total: u32)
        ensures
            final(self).phase == root_step(old(self).phase, completed, total),
    {
        match self.phase {
            WalkPhase::RootScan { started_at, completed_roots, total_roots } => {
                if percent_of(completed, total) >= percent_of(completed_roots, total_roots) {
                    self.phase = WalkPhase::RootScan { started_at, completed_roots: completed, total_roots: total };
                }
            },
            WalkPhase::HomeScan { started_at } => {
                self.phase = WalkPhase::RootScan { started_at, completed_roots: completed, total_roots: total };
            },
            WalkPhase::NotStarted => {
                self.phase = WalkPhase::RootScan { started_at: 0, completed_roots: completed, total_roots: total };
            },
            WalkPhase::Idle => {},
        }
    }

    /// The run is over.
    pub fn end_walk(&mut self)
        ensures
            final(self).phase == WalkPhase::Idle,
    {
        self.phase = WalkPhase::Idle;
    }

    /// The progress now, with the document count read by the caller at this moment.
    pub fn view(&self, doc_count: u64) -> (r: WalkMatrixView)
        ensures
            r.phase == self.phase,
            r.percent as nat == phase_percent(self.phase),
            r.doc_count == doc_count,
    {
        let percent: u32 = match self.phase {
            WalkPhase::NotStarted => 0,
            WalkPhase::HomeScan { .. } => 0,
            WalkPhase::RootScan { completed_roots, total_roots, .. } => percent_of(completed_roots, total_roots),
            WalkPhase::Idle => 100,
        };
        WalkMatrixView { phase: self.phase, percent, doc_count }
    }
}

/// Within a run, no step after the start lowers the percentage that
/// snapshots report: not the end of the home walk, not reaching a root, and
/// not the end of the run.
pub proof fn law_progress_monotonic(p: WalkPhase, now: u64, completed: u32, total: u32)
    ensures
        phase_percent(end_home_step(p, now)) >= phase_percent(p),
        phase_percent(root_step(p, completed, total)) >= phase_percent(p),
        phase_percent(WalkPhase::Idle) >= phase_percent(p),
{
    match p {
        WalkPhase::RootScan { completed_roots, total_roots, .. } => {
            if total_roots != 0 && completed_roots < total_roots {
                let c = completed_roots as int;
                let t = total_roots as int;
                assert(c * 100 <= 100 * t) by (nonlinear_arith)
                    requires
                        c < t,
                ;
                assert((c * 100) / t <= 100) by (nonlinear_arith)
                    requires
                        c * 100 <= 100 * t,
                        0 < t,
                ;
            }
        },
        _ => {},
    }
}

} // verus!
