//! Which PSM to bind the L2CAP listener to: first the one that the kernel
//! assigns, then each of the LE dynamic range in turn.

use vstd::prelude::*;

verus! {

/// First PSM of the LE dynamic range.
pub const PSM_LE_DYN_START: u16 = 0x80;

/// Last PSM of the LE dynamic range.
pub const PSM_LE_MAX: u16 = 0xFF;

/// The bind that is being tried.
#[derive(Debug, Clone, Copy, PartialEq, Eq)]
pub enum BindAttempt {
    /// PSM 0: the kernel assigns one.
    KernelAssigned,
    /// A PSM of the dynamic range.
    Explicit { psm: u16 },
}

/// How a bind went.
#[derive(Debug, Clone, Copy, PartialEq, Eq)]
pub enum BindOutcome {
    /// It succeeded, and the socket reports this PSM.
    Bound { reported_psm: u16 },
    Failed,
}

/// What to do next.
#[derive(Debug, Clone, Copy, PartialEq, Eq)]
pub enum ListenStep {
    /// Try this bind.
    Try { attempt: BindAttempt },
    /// Listen on the socket just bound; it has this PSM.
    Listen { psm: u16 },
    /// Give up: every bind failed.
    Exhausted,
}

impl BindAttempt {
    /// An explicit PSM lies in the dynamic range.
    pub open spec fn valid(self) -> bool {
        self matches BindAttempt::Explicit { psm } ==> PSM_LE_DYN_START <= psm <= PSM_LE_MAX
    }

    /// The PSM to ask for: 0 asks the kernel for one.
    pub fn psm(self) -> (psm: u16)
        ensures
            psm == self.requested(),
    {
        match self {
            BindAttempt::KernelAssigned => 0,
            BindAttempt::Explicit { psm } => psm,
        }
    }

    /// The PSM that is asked for.
    pub open spec fn requested(self) -> u16 {
        match self {
            BindAttempt::KernelAssigned => 0,
            BindAttempt::Explicit { psm } => psm,
        }
    }
}

/// The step after a bind. A kernel-assigned PSM is taken unless it is reported
/// as 0; then, or if that bind failed, the dynamic range is tried from its
/// start. An explicit PSM that binds is taken; one that does not is followed by
/// the next, and the last by giving up.
pub open spec fn listen_step(attempt: BindAttempt, outcome: BindOutcome) -> ListenStep {
    match (attempt, outcome) {
        (BindAttempt::KernelAssigned, BindOutcome::Bound { reported_psm }) => if reported_psm
            != 0 {
            ListenStep::Listen { psm: reported_psm }
        } else {
            ListenStep::Try { attempt: BindAttempt::Explicit { psm: PSM_LE_DYN_START } }
        },
        (BindAttempt::KernelAssigned, BindOutcome::Failed) => ListenStep::Try {
            attempt: BindAttempt::Explicit { psm: PSM_LE_DYN_START },
        },
        (BindAttempt::Explicit { psm }, BindOutcome::Bound { .. }) => ListenStep::Listen { psm },
        (BindAttempt::Explicit { psm }, BindOutcome::Failed) => if psm < PSM_LE_MAX {
            ListenStep::Try { attempt: BindAttempt::Explicit { psm: (psm + 1) as u16 } }
        } else {
            ListenStep::Exhausted
        },
    }
}

/// The step that `n` failures in a row lead to.
pub open spec fn after_failures(n: nat) -> ListenStep
    decreases n,
{
    if n == 0 {
        ListenStep::Try { attempt: BindAttempt::KernelAssigned }
    } else {
        match after_failures((n - 1) as nat) {
            ListenStep::Try { attempt } => listen_step(attempt, BindOutcome::Failed),
            done => done,
        }
    }
}

/// The first bind to try.
pub fn first_attempt() -> (attempt: BindAttempt)
    ensures
        attempt == BindAttempt::KernelAssigned,
        attempt.valid(),
{
    BindAttempt::KernelAssigned
}

/// Decides what follows a bind.
pub fn next_listen_step(attempt: BindAttempt, outcome: BindOutcome) -> (step: ListenStep)
    requires
        attempt.valid(),
    ensures
        step == listen_step(attempt, outcome),
        step matches ListenStep::Try { attempt: next } ==> next.valid(),
{
    match attempt {
        BindAttempt::KernelAssigned => {
            match outcome {
                BindOutcome::Bound { reported_psm } => {
                    if reported_psm != 0 {
                        return ListenStep::Listen { psm: reported_psm };
                    }
                },
                BindOutcome::Failed => {},
            }
            ListenStep::Try { attempt: BindAttempt::Explicit { psm: PSM_LE_DYN_START } }
        },
        BindAttempt::Explicit { psm } => {
            match outcome {
                BindOutcome::Bound { reported_psm: _ } => ListenStep::Listen { psm },
                BindOutcome::Failed => if psm < PSM_LE_MAX {
                    ListenStep::Try { attempt: BindAttempt::Explicit { psm: psm + 1 } }
                } else {
                    ListenStep::Exhausted
                },
            }
        },
    }
}

/// Failing binds go through the whole dynamic range, each PSM once and in order,
/// and only then is the search given up.
pub proof fn law_scan_covers_the_dynamic_range(n: nat)
    ensures
        after_failures(n) == (if n == 0 {
            ListenStep::Try { attempt: BindAttempt::KernelAssigned }
        } else if n <= PSM_LE_MAX - PSM_LE_DYN_START + 1 {
            ListenStep::Try {
                attempt: BindAttempt::Explicit { psm: (PSM_LE_DYN_START + n - 1) as u16 },
            }
        } else {
            ListenStep::Exhausted
        }),
    decreases n,
{
    if n > 0 {
        law_scan_covers_the_dynamic_range((n - 1) as nat);
    }
}

/// The PSM listened on is never 0, and one that was asked for is the one had.
pub proof fn law_listening_psm_is_usable(attempt: BindAttempt, outcome: BindOutcome)
    requires
        attempt.valid(),
    ensures
        listen_step(attempt, outcome) matches ListenStep::Listen { psm } ==> psm != 0 && (attempt
            is Explicit ==> psm == attempt.requested()),
{
}

/// A PSM that the kernel assigned, and the socket reports, is listened on as it is;
/// unless it is reported as 0, or the bind failed: then 0x80 is tried.
pub proof fn law_kernel_assigned_psm(reported_psm: u16)
    ensures
        reported_psm != 0 ==> listen_step(
            BindAttempt::KernelAssigned,
            BindOutcome::Bound { reported_psm },
        ) == (ListenStep::Listen { psm: reported_psm }),
        forall|outcome: BindOutcome|
            outcome is Failed || outcome == (BindOutcome::Bound { reported_psm: 0 })
                ==> #[trigger] listen_step(BindAttempt::KernelAssigned, outcome) == (
            ListenStep::Try { attempt: BindAttempt::Explicit { psm: 0x80 } }),
{
}

/// A PSM that was asked for is listened on where its bind succeeded, whatever the
/// socket reports; where it failed the next higher one is tried, and after 0xFF
/// none.
pub proof fn law_explicit_psm(psm: u16, outcome: BindOutcome)
    requires
        0x80 <= psm <= 0xFF,
    ensures
        ({
            let step = listen_step(BindAttempt::Explicit { psm }, outcome);
            &&& outcome is Bound ==> step == (ListenStep::Listen { psm })
            &&& outcome is Failed && psm == 0xFF ==> step == ListenStep::Exhausted
            &&& outcome is Failed && psm < 0xFF ==> step == (ListenStep::Try {
                attempt: BindAttempt::Explicit { psm: (psm + 1) as u16 },
            })
        }),
{
}

/// The kernel is asked with 0, an explicit PSM with itself, and the explicit ones
/// are those of the LE dynamic range.
pub proof fn law_attempts(psm: u16)
    ensures
        BindAttempt::KernelAssigned.requested() == 0,
        BindAttempt::KernelAssigned.valid(),
        (BindAttempt::Explicit { psm }).requested() == psm,
        (BindAttempt::Explicit { psm }).valid() <==> 0x80 <= psm <= 0xFF,
{
}

} // verus!
