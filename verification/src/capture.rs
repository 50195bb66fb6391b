//! The replay-driven capture loop, as a verified state machine.
//!
//! The loop drives an external replay controller (breakpoint set/remove,
//! continue, single-step) and is the sole writer of an
//! [`AddressRecorder`](crate::address_recorder::AddressRecorder). Everything
//! that decides — when to open and close checkpoints, what to record, how to
//! step over a planted breakpoint, when the session ends — lives here, as a
//! transition function from the last stop event to the next control actions.
//! The unverified driver only performs each returned action against the
//! controller and feeds the resulting stop event back in.

use vstd::prelude::*;

use crate::address_recorder::AddressRecorder;

verus! {

/// Why the replay-controlled process stopped after a control operation.
#[derive(Debug, Clone, Copy, PartialEq, Eq, Structural)]
pub enum StopReason {
    /// A software breakpoint fired.
    Trap,
    /// Exactly one instruction was stepped.
    SteppedOne,
    /// The process received an unexpected signal.
    Signaled(i32),
    /// The process ran to termination.
    Exited,
}

/// One control operation for the driver to perform on the replay controller.
#[derive(Debug, Clone, Copy, PartialEq, Eq, Structural)]
pub enum ControlAction {
    SetBreakpoint(usize),
    RemoveBreakpoint(usize),
    /// Resume execution until the next stop.
    Resume,
    /// Step exactly one instruction.
    SingleStep,
}

/// Where the capture session stands.
#[derive(Debug, Clone, Copy, PartialEq, Eq, Structural)]
pub enum CapturePhase {
    /// Execution was resumed; the next event is a stop.
    Running,
    /// The breakpoint at the carried address was lifted and a single step
    /// requested; the next event is the step's outcome.
    SteppingOver(usize),
    /// The session ended cleanly (termination or cancellation).
    Finished,
    /// The session was aborted by the carried stop reason; the store's
    /// contents are unreliable for ranges past the last cleanly closed
    /// checkpoint.
    Failed(StopReason),
}

/// A capture session: the trace store, the addresses under breakpoints, and
/// the protocol state of the loop.
///
/// The session is strictly sequential: one control action is outstanding at a
/// time, and the store is written by this session alone.
pub struct CaptureSession {
    /// The trace store this session writes.
    pub recorder: AddressRecorder,
    /// The addresses of interest, each holding a software breakpoint while
    /// the session runs.
    pub addresses_of_interest: Vec<usize>,
    /// The protocol state of the loop.
    pub phase: CapturePhase,
    /// The checkpoint currently open for writing (meaningful while the
    /// session runs).
    pub open_ft: usize,
    /// The checkpoints closed cleanly so far, in order.
    pub closed_fts: Vec<usize>,
}

impl CaptureSession {
    /// The arming actions: one breakpoint per address of interest.
    pub open spec fn arm_actions(addrs: Seq<usize>) -> Seq<ControlAction> {
        addrs.map_values(|a: usize| ControlAction::SetBreakpoint(a))
    }

    /// The cleanup actions: every planted breakpoint is removed, whatever
    /// the session's outcome, so the debuggee's code is never left patched.
    pub open spec fn cleanup_actions(addrs: Seq<usize>) -> Seq<ControlAction> {
        addrs.map_values(|a: usize| ControlAction::RemoveBreakpoint(a))
    }

    /// Session sanity: the store is well-formed, and a write session is open
    /// on `open_ft` exactly while the loop still runs.
    pub open spec fn wf(self) -> bool {
        &&& self.recorder.wf()
        &&& ((self.phase is Running || self.phase matches CapturePhase::SteppingOver(_))
            ==> self.recorder.writing() && self.recorder.write_head() == self.open_ft)
        &&& ((self.phase is Finished || self.phase matches CapturePhase::Failed(_))
            ==> !self.recorder.writing())
    }

    /// Arm the session: size the store for checkpoints up to
    /// `max_frame_time`, open the first checkpoint, and return the actions
    /// that plant every breakpoint and resume execution.
    pub fn start(addresses_of_interest: Vec<usize>, max_frame_time: usize, first_frame_time: usize) -> (r: (
        Self,
        Vec<ControlAction>,
    ))
        requires
            max_frame_time + 2 <= usize::MAX,
            first_frame_time < max_frame_time + 2,
        ensures
            ({
                let (session, actions) = r;
                &&& session.wf()
                &&& session.phase is Running
                &&& session.open_ft == first_frame_time
                &&& session.addresses_of_interest == addresses_of_interest
                &&& session.closed_fts@.len() == 0
                &&& session.recorder.num_bins() == max_frame_time + 2
                &&& session.recorder.bin_addrs(first_frame_time as int).len() == 0
                &&& (forall|ft: int|
                    0 <= ft < session.recorder.num_bins() && ft != first_frame_time
                        ==> (#[trigger] session.recorder.bin_addrs(ft)).len() == 0
                        && session.recorder.bin_marks(ft).len() == 0)
                &&& actions@ == Self::arm_actions(addresses_of_interest@).push(
                    ControlAction::Resume,
                )
            }),
    {
        let mut actions: Vec<ControlAction> = Vec::new();
        let n = addresses_of_interest.len();
        let mut i: usize = 0;
        while i < n
            invariant
                i <= n == addresses_of_interest@.len(),
                actions@ == Self::arm_actions(addresses_of_interest@.take(i as int)),
            decreases n - i,
        {
            actions.push(ControlAction::SetBreakpoint(addresses_of_interest[i]));
            proof {
                assert(actions@ =~= Self::arm_actions(addresses_of_interest@.take(i + 1)));
            }
            i = i + 1;
        }
        proof {
            assert(addresses_of_interest@.take(n as int) =~= addresses_of_interest@);
        }
        actions.push(ControlAction::Resume);
        let mut recorder = AddressRecorder::new(max_frame_time);
        recorder.reset_ft_for_writing(first_frame_time);
        let session = CaptureSession {
            recorder,
            addresses_of_interest,
            phase: CapturePhase::Running,
            open_ft: first_frame_time,
            closed_fts: Vec::new(),
        };
        (session, actions)
    }

    /// Whether `rip` is one of the addresses of interest.
    fn is_address_of_interest(&self, rip: usize) -> (r: bool)
        ensures
            r == self.addresses_of_interest@.contains(rip),
    {
        let n = self.addresses_of_interest.len();
        let mut i: usize = 0;
        while i < n
            invariant
                i <= n == self.addresses_of_interest@.len(),
                forall|k: int| 0 <= k < i ==> self.addresses_of_interest@[k] != rip,
            decreases n - i,
        {
            if self.addresses_of_interest[i] == rip {
                return true;
            }
            i = i + 1;
        }
        false
    }

    /// Close the open checkpoint and return the cleanup actions. Shared by
    /// every way a session ends.
    fn close(&mut self) -> (actions: Vec<ControlAction>)
        requires
            old(self).wf(),
            old(self).recorder.writing(),
        ensures
            final(self).recorder.wf(),
            !final(self).recorder.writing(),
            final(self).recorder.num_bins() == old(self).recorder.num_bins(),
            forall|ft: int|
                0 <= ft < old(self).recorder.num_bins() ==> final(self).recorder.bin_addrs(ft)
                    == old(self).recorder.bin_addrs(ft) && final(self).recorder.bin_marks(ft) == old(self).recorder.bin_marks(ft),
            final(self).closed_fts@ == old(self).closed_fts@.push(old(self).open_ft),
            final(self).addresses_of_interest == old(self).addresses_of_interest,
            final(self).phase == old(self).phase,
            final(self).open_ft == old(self).open_ft,
            actions@ == Self::cleanup_actions(old(self).addresses_of_interest@),
    {
        self.recorder.finished_writing_ft();
        let ft = self.open_ft;
        self.closed_fts.push(ft);
        let mut actions: Vec<ControlAction> = Vec::new();
        let n = self.addresses_of_interest.len();
        let mut i: usize = 0;
        while i < n
            invariant
                i <= n == self.addresses_of_interest@.len(),
                actions@ == Self::cleanup_actions(self.addresses_of_interest@.take(i as int)),
            decreases n - i,
        {
            actions.push(ControlAction::RemoveBreakpoint(self.addresses_of_interest[i]));
            proof {
                assert(actions@ =~= Self::cleanup_actions(
                    self.addresses_of_interest@.take(i + 1),
                ));
            }
            i = i + 1;
        }
        proof {
            assert(self.addresses_of_interest@.take(n as int) =~= self.addresses_of_interest@);
        }
        actions
    }

    /// Consume a stop event while running.
    ///
    /// A trap (or a lone completed step) is processed: if the stop entered a
    /// new checkpoint, the open one is closed and the new one opened; if the
    /// instruction pointer is an address of interest it is recorded, and the
    /// planted breakpoint there must be lifted and stepped over before
    /// resuming. Termination finishes the session, an unexpected signal
    /// fails it; either way the open checkpoint is closed first and every
    /// breakpoint is removed.
    pub fn on_stop(&mut self, rip: usize, current_ft: usize, reason: StopReason) -> (actions: Vec<
        ControlAction,
    >)
        requires
            old(self).wf(),
            old(self).phase is Running,
            current_ft < old(self).recorder.num_bins(),
        ensures
            final(self).wf(),
            final(self).addresses_of_interest == old(self).addresses_of_interest,
            final(self).recorder.num_bins() == old(self).recorder.num_bins(),
            match reason {
                StopReason::Exited | StopReason::Signaled(_) => {
                    &&& final(self).phase == (if reason is Exited {
                        CapturePhase::Finished
                    } else {
                        CapturePhase::Failed(reason)
                    })
                    &&& !final(self).recorder.writing()
                    &&& (forall|ft: int|
                        0 <= ft < old(self).recorder.num_bins() ==> final(self).recorder.bin_addrs(
                            ft,
                        ) == old(self).recorder.bin_addrs(ft) && final(self).recorder.bin_marks(ft)
                            == old(self).recorder.bin_marks(ft))
                    &&& final(self).closed_fts@ == old(self).closed_fts@.push(old(self).open_ft)
                    &&& actions@ == Self::cleanup_actions(old(self).addresses_of_interest@)
                },
                StopReason::Trap | StopReason::SteppedOne => {
                    let recorded = old(self).addresses_of_interest@.contains(rip);
                    let switched = current_ft != old(self).open_ft;
                    &&& final(self).open_ft == current_ft
                    &&& (if recorded {
                        final(self).phase == CapturePhase::SteppingOver(rip) && actions@ == seq![
                            ControlAction::RemoveBreakpoint(rip),
                            ControlAction::SingleStep,
                        ]
                    } else {
                        final(self).phase is Running && actions@ == seq![ControlAction::Resume]
                    })
                    &&& (if switched {
                        &&& final(self).closed_fts@ == old(self).closed_fts@.push(
                            old(self).open_ft,
                        )
                        &&& final(self).recorder.bin_addrs(current_ft as int) == (if recorded {
                            seq![rip]
                        } else {
                            Seq::<usize>::empty()
                        })
                        &&& final(self).recorder.bin_marks(current_ft as int) == seq![
                            (AddressRecorder::sentinel(current_ft as int), 0usize),
                        ]
                        &&& (forall|ft: int|
                            0 <= ft < old(self).recorder.num_bins() && ft != current_ft
                                ==> (#[trigger] final(self).recorder.bin_addrs(ft)) == old(self).recorder.bin_addrs(ft) && final(self).recorder.bin_marks(ft) == old(self).recorder.bin_marks(ft))
                    } else {
                        &&& final(self).closed_fts@ == old(self).closed_fts@
                        &&& final(self).recorder.bin_addrs(current_ft as int) == (if recorded {
                            old(self).recorder.bin_addrs(current_ft as int).push(rip)
                        } else {
                            old(self).recorder.bin_addrs(current_ft as int)
                        })
                        &&& (forall|ft: int|
                            0 <= ft < old(self).recorder.num_bins() ==> (#[trigger] final(self).recorder.bin_marks(ft)) == old(self).recorder.bin_marks(ft))
                        &&& (forall|ft: int|
                            0 <= ft < old(self).recorder.num_bins() && ft != current_ft
                                ==> (#[trigger] final(self).recorder.bin_addrs(ft)) == old(self).recorder.bin_addrs(ft))
                    })
                },
            },
    {
        match reason {
            StopReason::Exited => {
                let actions = self.close();
                self.phase = CapturePhase::Finished;
                actions
            },
            StopReason::Signaled(_) => {
                let actions = self.close();
                self.phase = CapturePhase::Failed(reason);
                actions
            },
            StopReason::Trap | StopReason::SteppedOne => {
                if current_ft != self.open_ft {
                    self.recorder.finished_writing_ft();
                    let closing = self.open_ft;
                    self.closed_fts.push(closing);
                    self.recorder.reset_ft_for_writing(current_ft);
                    self.open_ft = current_ft;
                }
                if self.is_address_of_interest(rip) {
                    self.recorder.insert_address(rip);
                    self.phase = CapturePhase::SteppingOver(rip);
                    let mut actions: Vec<ControlAction> = Vec::new();
                    actions.push(ControlAction::RemoveBreakpoint(rip));
                    actions.push(ControlAction::SingleStep);
                    proof {
                        assert(actions@ =~= seq![
                            ControlAction::RemoveBreakpoint(rip),
                            ControlAction::SingleStep,
                        ]);
                    }
                    actions
                } else {
                    let mut actions: Vec<ControlAction> = Vec::new();
                    actions.push(ControlAction::Resume);
                    proof {
                        assert(actions@ =~= seq![ControlAction::Resume]);
                    }
                    actions
                }
            },
        }
    }

    /// Consume the outcome of the single step over a lifted breakpoint.
    ///
    /// A clean step replants the breakpoint and resumes. Anything else means
    /// the debuggee's state is no longer trustworthy: the session is aborted
    /// as failed, the open checkpoint closed, and every breakpoint removed.
    pub fn on_step_over(&mut self, reason: StopReason) -> (actions: Vec<ControlAction>)
        requires
            old(self).wf(),
            old(self).phase matches CapturePhase::SteppingOver(_),
        ensures
            final(self).wf(),
            final(self).addresses_of_interest == old(self).addresses_of_interest,
            final(self).recorder.num_bins() == old(self).recorder.num_bins(),
            forall|ft: int|
                0 <= ft < old(self).recorder.num_bins() ==> final(self).recorder.bin_addrs(ft)
                    == old(self).recorder.bin_addrs(ft) && final(self).recorder.bin_marks(ft) == old(self).recorder.bin_marks(ft),
            ({
                let stepped_addr = old(self).phase->SteppingOver_0;
                if reason is SteppedOne {
                    &&& final(self).phase is Running
                    &&& final(self).open_ft == old(self).open_ft
                    &&& final(self).closed_fts@ == old(self).closed_fts@
                    &&& actions@ == seq![
                        ControlAction::SetBreakpoint(stepped_addr),
                        ControlAction::Resume,
                    ]
                } else {
                    &&& final(self).phase == CapturePhase::Failed(reason)
                    &&& !final(self).recorder.writing()
                    &&& final(self).closed_fts@ == old(self).closed_fts@.push(old(self).open_ft)
                    &&& actions@ == Self::cleanup_actions(old(self).addresses_of_interest@)
                }
            }),
    {
        let stepped_addr = match self.phase {
            CapturePhase::SteppingOver(a) => a,
            _ => 0,
        };
        match reason {
            StopReason::SteppedOne => {
                self.phase = CapturePhase::Running;
                let mut actions: Vec<ControlAction> = Vec::new();
                actions.push(ControlAction::SetBreakpoint(stepped_addr));
                actions.push(ControlAction::Resume);
                proof {
                    assert(actions@ =~= seq![
                        ControlAction::SetBreakpoint(stepped_addr),
                        ControlAction::Resume,
                    ]);
                }
                actions
            },
            _ => {
                let actions = self.close();
                self.phase = CapturePhase::Failed(reason);
                actions
            },
        }
    }

    /// Observe an external cancellation between stop events: close the open
    /// checkpoint and clean up, finishing the session without another
    /// resume.
    pub fn cancel(&mut self) -> (actions: Vec<ControlAction>)
        requires
            old(self).wf(),
            old(self).phase is Running,
        ensures
            final(self).wf(),
            final(self).phase is Finished,
            !final(self).recorder.writing(),
            final(self).addresses_of_interest == old(self).addresses_of_interest,
            final(self).recorder.num_bins() == old(self).recorder.num_bins(),
            forall|ft: int|
                0 <= ft < old(self).recorder.num_bins() ==> final(self).recorder.bin_addrs(ft)
                    == old(self).recorder.bin_addrs(ft) && final(self).recorder.bin_marks(ft) == old(self).recorder.bin_marks(ft),
            final(self).closed_fts@ == old(self).closed_fts@.push(old(self).open_ft),
            actions@ == Self::cleanup_actions(old(self).addresses_of_interest@),
    {
        let actions = self.close();
        self.phase = CapturePhase::Finished;
        actions
    }
}

} // verus!
