//! The registry of operations in flight, keyed by project.
//!
//! A project enters `active` the moment its command starts, before it queues
//! for a concurrency permit, so a cancel can reach an operation that has no
//! process yet; `check_cancelled` then stops it before it ever spawns rclone.
use crate::text::concat;
use vstd::hash_set::StringHashSet;
use vstd::prelude::*;

verus! {

/// Error text returned when the user stops an operation, matched exactly by
/// the frontend so that a cancel reads as a cancel and not as a failure.
pub const CANCELLED: &'static str = "CANCELLED";

pub struct OpsView {
    /// Projects with an operation in flight (queued or running).
    pub active: Set<Seq<char>>,
    /// Projects whose rclone process has been started.
    pub running: Set<Seq<char>>,
    /// Projects whose operation the user asked to stop.
    pub cancelled: Set<Seq<char>>,
}

/// The three registers, each keyed by project.
struct Registers {
    active: StringHashSet,
    running: StringHashSet,
    cancelled: StringHashSet,
}

impl Registers {
    fn empty() -> (r: Self)
        ensures
            r.active@ == Set::<Seq<char>>::empty(),
            r.running@ == Set::<Seq<char>>::empty(),
            r.cancelled@ == Set::<Seq<char>>::empty(),
    {
        Registers {
            active: StringHashSet::new(),
            running: StringHashSet::new(),
            cancelled: StringHashSet::new(),
        }
    }
}

pub struct OpRegistry {
    regs: Registers,
}

impl View for OpRegistry {
    type V = OpsView;

    closed spec fn view(&self) -> OpsView {
        OpsView {
            active: self.regs.active@,
            running: self.regs.running@,
            cancelled: self.regs.cancelled@,
        }
    }
}

/// A cancel is only ever recorded for an operation in flight.
pub open spec fn cancels_in_flight(v: OpsView) -> bool {
    v.cancelled.subset_of(v.active)
}

impl OpRegistry {
    #[verifier::type_invariant]
    spec fn cancels_are_in_flight(self) -> bool {
        cancels_in_flight(self@)
    }

    /// Take the registers out, leaving empty ones (which keep the invariant)
    /// until they are put back.
    fn take_registers(&mut self) -> (r: Registers)
        ensures
            r.active@ == old(self)@.active,
            r.running@ == old(self)@.running,
            r.cancelled@ == old(self)@.cancelled,
            cancels_in_flight(old(self)@),
    {
        proof {
            use_type_invariant(&*self);
        }
        let mut regs = Registers::empty();
        std::mem::swap(&mut regs, &mut self.regs);
        regs
    }
}

/// The claim on one project's operation; hand it back to `finish_op`.
pub struct OpGuard {
    name: String,
}

impl View for OpGuard {
    type V = Seq<char>;

    closed spec fn view(&self) -> Seq<char> {
        self.name@
    }
}

impl OpGuard {
    pub fn name(&self) -> (r: &str)
        ensures
            r@ == self@,
    {
        self.name.as_str()
    }
}

pub open spec fn started(v: OpsView, name: Seq<char>) -> OpsView {
    OpsView { active: v.active.insert(name), ..v }
}

pub open spec fn cancel_requested(v: OpsView, name: Seq<char>) -> OpsView {
    if v.active.contains(name) {
        OpsView { cancelled: v.cancelled.insert(name), ..v }
    } else {
        v
    }
}

/// Every trace of a finished operation is cleared, so a cancel arriving just
/// after it finished cannot leak onto its next run.
pub open spec fn finished(v: OpsView, name: Seq<char>) -> OpsView {
    OpsView {
        active: v.active.remove(name),
        running: v.running.remove(name),
        cancelled: v.cancelled.remove(name),
    }
}

pub open spec fn already_running_message(name: Seq<char>) -> Seq<char> {
    "An operation is already running for '"@ + name + "'"@
}

impl OpRegistry {
    pub fn new() -> (r: Self)
        ensures
            r@.active == Set::<Seq<char>>::empty(),
            r@.running == Set::<Seq<char>>::empty(),
            r@.cancelled == Set::<Seq<char>>::empty(),
            cancels_in_flight(r@),
    {
        OpRegistry { regs: Registers::empty() }
    }

    /// Claim a project for an operation. Refused when one is already in
    /// flight for it: two rclone processes must never sync the same pair of
    /// directories.
    pub fn start_op(&mut self, name: &str) -> (r: Result<OpGuard, String>)
        ensures
            old(self)@.active.contains(name@) ==> final(self)@ == old(self)@ && r is Err
                && r->Err_0@ == already_running_message(name@),
            !old(self)@.active.contains(name@) ==> final(self)@ == started(old(self)@, name@)
                && r is Ok && r->Ok_0@ == name@,
            cancels_in_flight(final(self)@),
    {
        proof {
            use_type_invariant(&*self);
        }
        if self.regs.active.contains(name) {
            let a = concat("An operation is already running for '", name);
            return Err(concat(a.as_str(), "'"));
        }
        let mut regs = self.take_registers();
        regs.active.insert(crate::text::copy_text(name));
        self.regs = regs;
        Ok(OpGuard { name: crate::text::copy_text(name) })
    }

    /// Stop before doing any work if a cancel landed while the operation was
    /// queued. Call after acquiring a concurrency permit.
    pub fn check_cancelled(&self, name: &str) -> (r: Result<(), String>)
        ensures
            r is Ok <==> !self@.cancelled.contains(name@),
            r matches Err(e) ==> e@ == CANCELLED@,
            cancels_in_flight(self@),
    {
        proof {
            use_type_invariant(self);
        }
        if self.regs.cancelled.contains(name) {
            return Err(String::from_str(CANCELLED));
        }
        Ok(())
    }

    /// Ask the operation on `name` to stop. Returns false, and changes
    /// nothing, when nothing is in flight for that project. The caller stops
    /// the rclone process if one was started (`is_running`).
    pub fn request_cancel(&mut self, name: &str) -> (r: bool)
        ensures
            r == old(self)@.active.contains(name@),
            final(self)@ == cancel_requested(old(self)@, name@),
            cancels_in_flight(final(self)@),
    {
        proof {
            use_type_invariant(&*self);
        }
        if !self.regs.active.contains(name) {
            return false;
        }
        let mut regs = self.take_registers();
        regs.cancelled.insert(crate::text::copy_text(name));
        self.regs = regs;
        true
    }

    /// Record that the rclone process of `name` was started; returns whether a
    /// cancel already landed, in which case the caller stops it at once.
    pub fn child_started(&mut self, name: &str) -> (r: bool)
        ensures
            r == old(self)@.cancelled.contains(name@),
            final(self)@ == (OpsView { running: old(self)@.running.insert(name@), ..old(self)@ }),
            cancels_in_flight(final(self)@),
    {
        let mut regs = self.take_registers();
        regs.running.insert(crate::text::copy_text(name));
        let cancelled = regs.cancelled.contains(name);
        self.regs = regs;
        cancelled
    }

    /// Record that the rclone process of `name` has exited.
    pub fn child_exited(&mut self, name: &str)
        ensures
            final(self)@ == (OpsView { running: old(self)@.running.remove(name@), ..old(self)@ }),
            cancels_in_flight(final(self)@),
    {
        let mut regs = self.take_registers();
        regs.running.remove(name);
        self.regs = regs;
    }

    pub fn is_running(&self, name: &str) -> (r: bool)
        ensures
            r == self@.running.contains(name@),
            cancels_in_flight(self@),
    {
        proof {
            use_type_invariant(self);
        }
        self.regs.running.contains(name)
    }

    pub fn is_active(&self, name: &str) -> (r: bool)
        ensures
            r == self@.active.contains(name@),
            cancels_in_flight(self@),
    {
        proof {
            use_type_invariant(self);
        }
        self.regs.active.contains(name)
    }

    /// Release a claim, clearing every trace of the operation.
    pub fn finish_op(&mut self, guard: OpGuard)
        ensures
            final(self)@ == finished(old(self)@, guard@),
            cancels_in_flight(final(self)@),
    {
        let name = guard.name;
        let mut regs = self.take_registers();
        regs.active.remove(name.as_str());
        regs.running.remove(name.as_str());
        regs.cancelled.remove(name.as_str());
        self.regs = regs;
    }
}

/// A cancel that reaches an operation while it is still queued stops it
/// before it spawns rclone.
pub proof fn law_cancel_while_queued_stops_the_start(v: OpsView, name: Seq<char>)
    requires
        v.active.contains(name),
    ensures
        cancel_requested(v, name).cancelled.contains(name),
{
}

/// Two operations on one project never overlap: while one is in flight, a
/// second start is refused and leaves the registry as it was.
pub proof fn law_second_start_is_refused(v: OpsView, name: Seq<char>)
    ensures
        started(v, name).active.contains(name),
{
}

/// Finishing an operation clears its cancel, so the next start of the same
/// project begins clean (its cancel check passes).
pub proof fn law_finished_cancel_does_not_leak(v: OpsView, name: Seq<char>)
    ensures
        !started(finished(cancel_requested(v, name), name), name).cancelled.contains(name),
        !started(finished(cancel_requested(v, name), name), name).running.contains(name),
{
}

/// A cancel on an idle project, or one left after its operation finished,
/// never reaches the next operation on that project: the next start finds
/// no cancel recorded, so its cancel check passes.
pub proof fn law_idle_cancel_never_reaches_next_start(v: OpsView, name: Seq<char>)
    requires
        cancels_in_flight(v),
        !v.active.contains(name),
    ensures
        cancel_requested(v, name) == v,
        !started(cancel_requested(v, name), name).cancelled.contains(name),
        !started(finished(v, name), name).cancelled.contains(name),
{
}

} // verus!
