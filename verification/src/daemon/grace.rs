use vstd::prelude::*;

verus! {

/// What happened to the daemon, as far as its auto-exit timer cares.
#[derive(Debug, Clone, Copy, PartialEq, Eq, Structural)]
pub enum GraceEvent {
    /// A new session was created (spawned or registered).
    SessionCreated,
    /// The last live session ended and none remain.
    AllSessionsEnded,
    /// The grace period ran out.
    Expired,
    /// Anything else.
    Other,
}

/// What the daemon does with its auto-exit timer.
#[derive(Debug, Clone, Copy, PartialEq, Eq, Structural)]
pub enum GraceAction {
    /// Start the grace period now.
    Arm,
    /// Cancel the grace period.
    Disarm,
    /// Shut the daemon down.
    Exit,
    /// Leave the timer as it is.
    Keep,
}

/// The auto-exit decision: when no sessions remain the daemon starts a
/// grace period; a new session cancels it; if it runs out while still
/// started, the daemon exits. Nothing else touches the timer.
pub fn grace_step(armed: bool, event: GraceEvent) -> (r: GraceAction)
    ensures
        event is AllSessionsEnded ==> r is Arm,
        event is SessionCreated ==> r is Disarm,
        event is Expired ==> (if armed {
            r is Exit
        } else {
            r is Keep
        }),
        event is Other ==> r is Keep,
        r == grace_action(armed, event),
{
    match event {
        GraceEvent::AllSessionsEnded => GraceAction::Arm,
        GraceEvent::SessionCreated => GraceAction::Disarm,
        GraceEvent::Expired => if armed {
            GraceAction::Exit
        } else {
            GraceAction::Keep
        },
        GraceEvent::Other => GraceAction::Keep,
    }
}

/// The action `grace_step` takes on `event`.
pub open spec fn grace_action(armed: bool, event: GraceEvent) -> GraceAction {
    match event {
        GraceEvent::AllSessionsEnded => GraceAction::Arm,
        GraceEvent::SessionCreated => GraceAction::Disarm,
        GraceEvent::Expired => if armed {
            GraceAction::Exit
        } else {
            GraceAction::Keep
        },
        GraceEvent::Other => GraceAction::Keep,
    }
}

/// Whether the timer is started after `action`, when it was `armed`
/// before.
pub open spec fn armed_after(armed: bool, action: GraceAction) -> bool {
    match action {
        GraceAction::Arm => true,
        GraceAction::Disarm => false,
        _ => armed,
    }
}

/// Whether the timer is started after the daemon has seen `events`,
/// starting from `armed`.
pub open spec fn armed_through(armed: bool, events: Seq<GraceEvent>) -> bool
    decreases events.len(),
{
    if events.len() == 0 {
        armed
    } else {
        armed_through(armed_after(armed, grace_action(armed, events[0])), events.drop_first())
    }
}

/// Once the last session has ended, whatever follows that creates no new
/// session (requests, output, clients coming and going) leaves the grace
/// period running, so the daemon exits when it runs out.
pub proof fn lemma_grace_leads_to_exit(events: Seq<GraceEvent>)
    requires
        !events.contains(GraceEvent::SessionCreated),
    ensures
        armed_through(armed_after(false, grace_action(false, GraceEvent::AllSessionsEnded)), events),
        grace_action(
            armed_through(armed_after(false, grace_action(false, GraceEvent::AllSessionsEnded)), events),
            GraceEvent::Expired,
        ) == GraceAction::Exit,
    decreases events.len(),
{
    if events.len() > 0 {
        assert(events[0] != GraceEvent::SessionCreated);
        assert forall|i: int| 0 <= i < events.drop_first().len() implies events.drop_first()[i]
            != GraceEvent::SessionCreated by {
            assert(events.drop_first()[i] == events[i + 1]);
        }
        lemma_grace_leads_to_exit(events.drop_first());
    }
}

} // verus!
