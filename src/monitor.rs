use vstd::prelude::*;
use crate::store::PersistencyError;

verus! {

/// Where the debounced writer stands: nothing to write, or a write armed for
/// a deadline (milliseconds on the monitor's clock).
#[derive(Clone, Copy, Debug, PartialEq, Eq, Structural)]
pub enum DebounceState {
    Idle,
    Pending { deadline: u64 },
}

/// What woke the writer: a change published at `stamp`, or the clock reaching
/// `now`.
#[derive(Clone, Copy, Debug, PartialEq, Eq, Structural)]
pub enum MonitorEvent {
    StoreChange { stamp: u64 },
    DeadlineReached { now: u64 },
}

/// What the writer does next.
#[derive(Clone, Copy, Debug, PartialEq, Eq, Structural)]
pub enum MonitorAction {
    /// Wait for the next change or for the armed deadline.
    Wait,
    /// Commit the store to its file, then wait.
    Commit,
}

/// One step of the writer: a change (re)arms the deadline at its stamp plus
/// the timeout; the clock reaching an armed deadline commits and disarms.
/// `None` where the deadline does not fit the clock.
pub open spec fn step(s: DebounceState, e: MonitorEvent, timeout: u64) -> Option<
    (DebounceState, MonitorAction),
> {
    match e {
        MonitorEvent::StoreChange { stamp } => if stamp + timeout <= u64::MAX {
            Some((DebounceState::Pending { deadline: (stamp + timeout) as u64 }, MonitorAction::Wait))
        } else {
            None
        },
        MonitorEvent::DeadlineReached { now } => match s {
            DebounceState::Pending { deadline } => if now >= deadline {
                Some((DebounceState::Idle, MonitorAction::Commit))
            } else {
                Some((s, MonitorAction::Wait))
            },
            DebounceState::Idle => Some((s, MonitorAction::Wait)),
        },
    }
}

/// The state after a sequence of events, with the deadline of each commit
/// made on the way; `None` where a step fails.
pub open spec fn run(s: DebounceState, evs: Seq<MonitorEvent>, timeout: u64) -> Option<
    (DebounceState, Seq<u64>),
>
    decreases evs.len(),
{
    if evs.len() == 0 {
        Some((s, Seq::empty()))
    } else {
        match run(s, evs.drop_last(), timeout) {
            None => None,
            Some((st, commits)) => match step(st, evs.last(), timeout) {
                None => None,
                Some((st2, a)) => Some(
                    (
                        st2,
                        if a == MonitorAction::Commit {
                            commits.push(st->deadline)
                        } else {
                            commits
                        },
                    ),
                ),
            },
        }
    }
}

/// The stamp of the latest change in `evs`.
pub open spec fn last_stamp(evs: Seq<MonitorEvent>) -> u64
    decreases evs.len(),
{
    if evs.len() == 0 {
        0
    } else {
        match evs.last() {
            MonitorEvent::StoreChange { stamp } => stamp,
            MonitorEvent::DeadlineReached { .. } => last_stamp(evs.drop_last()),
        }
    }
}

/// A burst of changes: it opens with a change, every deadline fits the clock,
/// and each change comes before the deadline armed by the previous one, so
/// that every clock event in it falls short of the deadline then armed.
pub open spec fn is_burst(evs: Seq<MonitorEvent>, timeout: u64) -> bool {
    &&& evs.len() >= 1
    &&& evs[0] is StoreChange
    &&& forall|i: int|
        0 <= i < evs.len() && #[trigger] evs[i] is StoreChange ==> evs[i]->stamp + timeout
            <= u64::MAX
    &&& forall|i: int|
        0 < i < evs.len() && #[trigger] evs[i] is DeadlineReached ==> evs[i]->now < last_stamp(
            evs.take(i),
        ) + timeout
}

/// A burst of changes makes no commit, and leaves one write armed for the
/// latest change's stamp plus the timeout; the clock reaching that deadline
/// then makes exactly one commit, timed at that deadline.
pub proof fn lemma_debounce_coalesces(evs: Seq<MonitorEvent>, timeout: u64, now: u64)
    requires
        is_burst(evs, timeout),
    ensures
        last_stamp(evs) + timeout <= u64::MAX,
        run(DebounceState::Idle, evs, timeout) == Some(
            (DebounceState::Pending { deadline: (last_stamp(evs) + timeout) as u64 }, Seq::<u64>::empty()),
        ),
        now >= last_stamp(evs) + timeout ==> run(
            DebounceState::Idle,
            evs.push(MonitorEvent::DeadlineReached { now }),
            timeout,
        ) == Some((DebounceState::Idle, seq![(last_stamp(evs) + timeout) as u64])),
    decreases evs.len(),
{
    if evs.len() == 1 {
        assert(evs.drop_last() =~= Seq::empty());
        assert(evs.last() == evs[0]);
        assert(evs[0] is StoreChange);
        assert(evs[0]->stamp + timeout <= u64::MAX);
    } else {
        let front = evs.drop_last();
        assert(is_burst(front, timeout)) by {
            assert(front[0] == evs[0]);
            assert forall|i: int| 0 <= i < front.len() && #[trigger] front[i] is StoreChange
                implies front[i]->stamp + timeout <= u64::MAX by {
                assert(front[i] == evs[i]);
            }
            assert forall|i: int| 0 < i < front.len() && #[trigger] front[i] is DeadlineReached
                implies front[i]->now < last_stamp(front.take(i)) + timeout by {
                assert(front[i] == evs[i]);
                assert(front.take(i) =~= evs.take(i));
            }
        }
        lemma_debounce_coalesces(front, timeout, now);
        let i = evs.len() - 1;
        assert(evs.take(i) =~= front);
        assert(evs[i] == evs.last());
        if evs[i] is StoreChange {
            assert(evs[i]->stamp + timeout <= u64::MAX);
        } else {
            assert(evs[i]->now < last_stamp(evs.take(i)) + timeout);
        }
    }
    let pushed = evs.push(MonitorEvent::DeadlineReached { now });
    assert(pushed.drop_last() =~= evs);
}

impl DebounceState {
    /// The next state and action on `event`, as `step` gives them.
    pub fn next(&self, event: MonitorEvent, timeout: u64) -> (r: Result<
        (DebounceState, MonitorAction),
        PersistencyError,
    >)
        ensures
            match step(*self, event, timeout) {
                Some(p) => r == Ok::<(DebounceState, MonitorAction), PersistencyError>(p),
                None => r == Err::<(DebounceState, MonitorAction), PersistencyError>(
                    PersistencyError::TimeOverflow,
                ),
            },
    {
        match event {
            MonitorEvent::StoreChange { stamp } => {
                if stamp > u64::MAX - timeout {
                    Err(PersistencyError::TimeOverflow)
                } else {
                    Ok((DebounceState::Pending { deadline: stamp + timeout }, MonitorAction::Wait))
                }
            },
            MonitorEvent::DeadlineReached { now } => match *self {
                DebounceState::Pending { deadline } => {
                    if now >= deadline {
                        Ok((DebounceState::Idle, MonitorAction::Commit))
                    } else {
                        Ok((*self, MonitorAction::Wait))
                    }
                },
                DebounceState::Idle => Ok((*self, MonitorAction::Wait)),
            },
        }
    }

    /// The armed deadline, if any: the time at which the writer next wakes
    /// unless a change comes first.
    pub fn deadline(&self) -> (r: Option<u64>)
        ensures
            match *self {
                DebounceState::Pending { deadline } => r == Some(deadline),
                DebounceState::Idle => r is None,
            },
    {
        match *self {
            DebounceState::Pending { deadline } => Some(deadline),
            DebounceState::Idle => None,
        }
    }
}

} // verus!
