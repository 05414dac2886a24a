//! What the driver does over whole cycles.
//!
//! A cycle is described by what happens to each asset in it, one `Attempt`
//! per registered asset. From the attempts follow the events that the caller
//! reports, and the theorems below say which actions the driver answers with.

use vstd::prelude::*;
use crate::asset::AssetKind;
use crate::driver::{lemma_run_in_sequence, run, turn_to, Action, DriverState, Event};
use crate::error::{FetchError, IoError};
use crate::quote::{CoinGeckoPrice, Price};

verus! {

/// What happens to one asset in one cycle.
#[derive(Clone, Copy, Debug, PartialEq, Eq)]
pub enum Attempt {
    /// The fetch fails.
    FetchFailed(FetchError),
    /// The fetch succeeds and the observation is appended.
    Persisted(CoinGeckoPrice),
    /// The fetch succeeds and the append fails.
    PersistFailed(CoinGeckoPrice, IoError),
}

impl Attempt {
    /// The decoded response, where the fetch succeeds.
    pub open spec fn envelope(self) -> Option<CoinGeckoPrice> {
        match self {
            Attempt::FetchFailed(_) => None,
            Attempt::Persisted(envelope) => Some(envelope),
            Attempt::PersistFailed(envelope, _) => Some(envelope),
        }
    }

    /// The events that the caller reports in the course of this attempt.
    pub open spec fn events(self) -> Seq<Event> {
        match self {
            Attempt::FetchFailed(error) => seq![Event::FetchFailed(error)],
            Attempt::Persisted(envelope) => seq![Event::Fetched(envelope), Event::Persisted],
            Attempt::PersistFailed(envelope, error) => seq![
                Event::Fetched(envelope),
                Event::PersistFailed(error),
            ],
        }
    }

    /// The prices that the driver asks to append for `asset` in the course of
    /// this attempt: the extracted price where the fetch succeeds, none
    /// otherwise.
    pub open spec fn prices(self, asset: AssetKind) -> Seq<Price> {
        match self.envelope() {
            Some(envelope) => seq![asset.price_in(envelope)],
            None => Seq::empty(),
        }
    }
}

/// The events of the attempts from slot `from` on.
pub open spec fn events_from(attempts: Seq<Attempt>, from: int) -> Seq<Event>
    decreases attempts.len() - from,
{
    if from < 0 || from >= attempts.len() {
        Seq::empty()
    } else {
        attempts[from].events() + events_from(attempts, from + 1)
    }
}

/// The events of one whole cycle: the wake-up, then each attempt's events in
/// registration order.
pub open spec fn cycle_events(attempts: Seq<Attempt>) -> Seq<Event> {
    seq![Event::Wake] + events_from(attempts, 0)
}

/// The driver's answers to the events of the attempt at `slot`: the append
/// where the fetch succeeded, then the turn to the next slot.
pub open spec fn attempt_actions(
    assets: Seq<AssetKind>,
    interval: u64,
    slot: int,
    attempt: Attempt,
) -> Seq<Action> {
    match attempt.envelope() {
        Some(envelope) => seq![
            Action::Persist {
                slot: slot as usize,
                asset: assets[slot],
                price: assets[slot].price_in(envelope),
            },
            turn_to(assets, interval, slot + 1).1,
        ],
        None => seq![turn_to(assets, interval, slot + 1).1],
    }
}

/// The driver's answers to the events of the attempts from slot `from` on.
pub open spec fn actions_from(
    assets: Seq<AssetKind>,
    interval: u64,
    attempts: Seq<Attempt>,
    from: int,
) -> Seq<Action>
    decreases attempts.len() - from,
{
    if from < 0 || from >= attempts.len() {
        Seq::empty()
    } else {
        attempt_actions(assets, interval, from, attempts[from]) + actions_from(
            assets,
            interval,
            attempts,
            from + 1,
        )
    }
}

/// The actions of one whole cycle: the turn to the first slot, then the
/// answers to each attempt.
pub open spec fn cycle_actions(
    assets: Seq<AssetKind>,
    interval: u64,
    attempts: Seq<Attempt>,
) -> Seq<Action> {
    seq![turn_to(assets, interval, 0).1] + actions_from(assets, interval, attempts, 0)
}

/// The prices that `actions` ask to append to the record of the asset at
/// `slot`, in order.
pub open spec fn persisted_at(actions: Seq<Action>, slot: int) -> Seq<Price>
    decreases actions.len(),
{
    if actions.len() == 0 {
        Seq::empty()
    } else {
        let rest = persisted_at(actions.drop_first(), slot);
        match actions[0] {
            Action::Persist { slot: at, price, .. } => if at == slot {
                seq![price] + rest
            } else {
                rest
            },
            _ => rest,
        }
    }
}

/// How often `actions` ask to fetch the asset at `slot`.
pub open spec fn fetches_at(actions: Seq<Action>, slot: int) -> nat
    decreases actions.len(),
{
    if actions.len() == 0 {
        0
    } else {
        let rest = fetches_at(actions.drop_first(), slot);
        match actions[0] {
            Action::Fetch { slot: at, .. } => if at == slot {
                rest + 1
            } else {
                rest
            },
            _ => rest,
        }
    }
}

/// Writes out the events of one whole cycle in which `attempts` happen, for
/// a caller that plays the part of the outside world.
pub fn cycle_script(attempts: &Vec<Attempt>) -> (events: Vec<Event>)
    ensures
        events@ == cycle_events(attempts@),
{
    let mut events: Vec<Event> = Vec::new();
    events.push(Event::Wake);
    let mut done: usize = 0;
    proof {
        assert(events@ + events_from(attempts@, 0) =~= cycle_events(attempts@));
    }
    while done < attempts.len()
        invariant
            done <= attempts.len(),
            events@ + events_from(attempts@, done as int) == cycle_events(attempts@),
        decreases attempts.len() - done,
    {
        let ghost before = events@;
        let ghost later = events_from(attempts@, done + 1);
        match attempts[done] {
            Attempt::FetchFailed(error) => {
                events.push(Event::FetchFailed(error));
            },
            Attempt::Persisted(envelope) => {
                events.push(Event::Fetched(envelope));
                events.push(Event::Persisted);
            },
            Attempt::PersistFailed(envelope, error) => {
                events.push(Event::Fetched(envelope));
                events.push(Event::PersistFailed(error));
            },
        }
        proof {
            assert(events@ =~= before + attempts@[done as int].events());
            assert(events@ + later =~= before + (attempts@[done as int].events() + later));
        }
        done += 1;
    }
    proof {
        assert(events@ + events_from(attempts@, done as int) =~= events@);
    }
    events
}

/// Whether a cycle described by `attempts` is one over `assets`: one attempt
/// per asset, and no more assets than slots can be numbered.
pub open spec fn cycle_over(assets: Seq<AssetKind>, attempts: Seq<Attempt>) -> bool {
    &&& attempts.len() == assets.len()
    &&& assets.len() <= usize::MAX
}

/// From the wait for the fetch at slot `from`, the events of the attempts
/// from there on take the driver through their answers to the end of the
/// cycle.
proof fn lemma_run_from(
    assets: Seq<AssetKind>,
    interval: u64,
    attempts: Seq<Attempt>,
    from: int,
)
    requires
        cycle_over(assets, attempts),
        0 <= from < assets.len(),
    ensures
        run(assets, interval, DriverState::Fetching(from as usize), events_from(attempts, from))
            == (DriverState::Sleeping, actions_from(assets, interval, attempts, from)),
    decreases assets.len() - from,
{
    let state = DriverState::Fetching(from as usize);
    let events = events_from(attempts, from);
    let later_events = events_from(attempts, from + 1);
    let later_actions = actions_from(assets, interval, attempts, from + 1);
    let turned = turn_to(assets, interval, from + 1);
    // What the driver does from the next slot on.
    assert(run(assets, interval, turned.0, later_events) == (DriverState::Sleeping, later_actions))
        by {
        if from + 1 < assets.len() {
            lemma_run_from(assets, interval, attempts, from + 1);
        }
    }
    match attempts[from] {
        Attempt::FetchFailed(error) => {
            assert(events[0] == Event::FetchFailed(error));
            assert(events.drop_first() =~= later_events);
        },
        Attempt::Persisted(envelope) => {
            let second = seq![Event::Persisted] + later_events;
            assert(events[0] == Event::Fetched(envelope));
            assert(events.drop_first() =~= second);
            assert(second[0] == Event::Persisted);
            assert(second.drop_first() =~= later_events);
            let waiting = DriverState::Persisting(from as usize);
            assert(run(assets, interval, waiting, second) == (
                DriverState::Sleeping,
                seq![turned.1] + later_actions,
            ));
            assert(run(assets, interval, state, events).1 =~= actions_from(
                assets,
                interval,
                attempts,
                from,
            ));
        },
        Attempt::PersistFailed(envelope, error) => {
            let second = seq![Event::PersistFailed(error)] + later_events;
            assert(events[0] == Event::Fetched(envelope));
            assert(events.drop_first() =~= second);
            assert(second[0] == Event::PersistFailed(error));
            assert(second.drop_first() =~= later_events);
            let waiting = DriverState::Persisting(from as usize);
            assert(run(assets, interval, waiting, second) == (
                DriverState::Sleeping,
                seq![turned.1] + later_actions,
            ));
            assert(run(assets, interval, state, events).1 =~= actions_from(
                assets,
                interval,
                attempts,
                from,
            ));
        },
    }
}

/// From between two cycles, the events of a whole cycle take the driver
/// through exactly the cycle's actions and back to between two cycles,
/// whatever happens to each asset.
pub proof fn lemma_cycle_run(assets: Seq<AssetKind>, interval: u64, attempts: Seq<Attempt>)
    requires
        cycle_over(assets, attempts),
    ensures
        run(assets, interval, DriverState::Sleeping, cycle_events(attempts)) == (
            DriverState::Sleeping,
            cycle_actions(assets, interval, attempts),
        ),
{
    let events = cycle_events(attempts);
    let turned = turn_to(assets, interval, 0);
    assert(events[0] == Event::Wake);
    assert(events.drop_first() =~= events_from(attempts, 0));
    let later_events = events_from(attempts, 0);
    let later_actions = actions_from(assets, interval, attempts, 0);
    assert(run(assets, interval, turned.0, later_events) == (DriverState::Sleeping, later_actions))
        by {
        if assets.len() > 0 {
            lemma_run_from(assets, interval, attempts, 0);
        }
    }
}

/// What the answers from slot `from` on ask for at `slot`: one fetch where
/// `slot` lies after `from`, and the attempt's own prices where it does not
/// lie before it.
proof fn lemma_requests_from(
    assets: Seq<AssetKind>,
    interval: u64,
    attempts: Seq<Attempt>,
    from: int,
    slot: int,
)
    requires
        cycle_over(assets, attempts),
        0 <= from <= assets.len(),
        0 <= slot < assets.len(),
    ensures
        fetches_at(actions_from(assets, interval, attempts, from), slot) == if from < slot {
            1nat
        } else {
            0nat
        },
        persisted_at(actions_from(assets, interval, attempts, from), slot) == if from <= slot {
            attempts[slot].prices(assets[slot])
        } else {
            Seq::empty()
        },
    decreases assets.len() - from,
{
    if from < assets.len() {
        lemma_requests_from(assets, interval, attempts, from + 1, slot);
        let actions = actions_from(assets, interval, attempts, from);
        let later = actions_from(assets, interval, attempts, from + 1);
        let turned = turn_to(assets, interval, from + 1).1;
        let after_turn = seq![turned] + later;
        assert(after_turn[0] == turned);
        assert(after_turn.drop_first() =~= later);
        assert(fetches_at(after_turn, slot) == if from < slot {
            1nat
        } else {
            0nat
        });
        assert(persisted_at(after_turn, slot) == persisted_at(later, slot));
        match attempts[from].envelope() {
            Some(envelope) => {
                assert(actions[0] == Action::Persist {
                    slot: from as usize,
                    asset: assets[from],
                    price: assets[from].price_in(envelope),
                });
                assert(actions.drop_first() =~= after_turn);
                assert(persisted_at(actions, slot) =~= if from <= slot {
                    attempts[slot].prices(assets[slot])
                } else {
                    Seq::empty()
                });
            },
            None => {
                assert(actions =~= after_turn);
            },
        }
    }
}

/// What the whole cycle's actions ask for at `slot`.
proof fn lemma_requests_in_cycle(
    assets: Seq<AssetKind>,
    interval: u64,
    attempts: Seq<Attempt>,
    slot: int,
)
    requires
        cycle_over(assets, attempts),
        0 <= slot < assets.len(),
    ensures
        fetches_at(cycle_actions(assets, interval, attempts), slot) == 1,
        persisted_at(cycle_actions(assets, interval, attempts), slot) == attempts[slot].prices(
            assets[slot],
        ),
{
    lemma_requests_from(assets, interval, attempts, 0, slot);
    let actions = cycle_actions(assets, interval, attempts);
    assert(actions[0] == Action::Fetch { slot: 0, asset: assets[0] });
    assert(actions.drop_first() =~= actions_from(assets, interval, attempts, 0));
}

/// What two runs of actions ask for at `slot`, one after the other, is what
/// the first asks for and then what the second asks for.
proof fn lemma_requests_in_sequence(first: Seq<Action>, second: Seq<Action>, slot: int)
    ensures
        fetches_at(first + second, slot) == fetches_at(first, slot) + fetches_at(second, slot),
        persisted_at(first + second, slot) == persisted_at(first, slot) + persisted_at(
            second,
            slot,
        ),
    decreases first.len(),
{
    if first.len() == 0 {
        assert(first + second =~= second);
        assert(persisted_at(first, slot) + persisted_at(second, slot) =~= persisted_at(
            second,
            slot,
        ));
    } else {
        let all = first + second;
        assert(all[0] == first[0]);
        assert(all.drop_first() =~= first.drop_first() + second);
        lemma_requests_in_sequence(first.drop_first(), second, slot);
        let head = persisted_at(first.drop_first(), slot);
        let tail = persisted_at(second, slot);
        assert forall|price: Price| seq![price] + (head + tail) == (seq![price] + head) + tail by {
            assert(seq![price] + (head + tail) =~= (seq![price] + head) + tail);
        }
    }
}

/// The actions with which the driver answers the events of one whole cycle,
/// started from between two cycles.
pub open spec fn cycle_answers(
    assets: Seq<AssetKind>,
    interval: u64,
    attempts: Seq<Attempt>,
) -> Seq<Action> {
    run(assets, interval, DriverState::Sleeping, cycle_events(attempts)).1
}

/// No asset is skipped: in every cycle, whatever happens to any asset, the
/// driver asks exactly once for the fetch of each registered asset.
pub proof fn lemma_every_asset_is_fetched_once(
    assets: Seq<AssetKind>,
    interval: u64,
    attempts: Seq<Attempt>,
    slot: int,
)
    requires
        cycle_over(assets, attempts),
        0 <= slot < assets.len(),
    ensures
        fetches_at(cycle_answers(assets, interval, attempts), slot) == 1,
{
    lemma_cycle_run(assets, interval, attempts);
    lemma_requests_in_cycle(assets, interval, attempts, slot);
}

/// At most one observation per asset and cycle: where the asset's fetch
/// succeeded the driver asks for exactly one append to its record, of the
/// price extracted from that very response; where it failed, for none.
pub proof fn lemma_one_append_per_fetched_asset(
    assets: Seq<AssetKind>,
    interval: u64,
    attempts: Seq<Attempt>,
    slot: int,
)
    requires
        cycle_over(assets, attempts),
        0 <= slot < assets.len(),
    ensures
        persisted_at(cycle_answers(assets, interval, attempts), slot) == attempts[slot].prices(
            assets[slot],
        ),
        attempts[slot].envelope() matches Some(envelope) ==> persisted_at(
            cycle_answers(assets, interval, attempts),
            slot,
        ) == seq![assets[slot].price_in(envelope)],
        attempts[slot].envelope() is None ==> persisted_at(
            cycle_answers(assets, interval, attempts),
            slot,
        ) == Seq::<Price>::empty(),
{
    lemma_cycle_run(assets, interval, attempts);
    lemma_requests_in_cycle(assets, interval, attempts, slot);
}

/// Failure is contained: what the driver asks to append for one asset depends
/// on that asset's own fetch alone. Two cycles that differ in what happens to
/// every other asset, in any way, ask for the same appends to this one's
/// record.
pub proof fn lemma_failure_is_isolated(
    assets: Seq<AssetKind>,
    interval: u64,
    first: Seq<Attempt>,
    second: Seq<Attempt>,
    slot: int,
)
    requires
        cycle_over(assets, first),
        cycle_over(assets, second),
        0 <= slot < assets.len(),
        first[slot].envelope() == second[slot].envelope(),
    ensures
        persisted_at(cycle_answers(assets, interval, first), slot) == persisted_at(
            cycle_answers(assets, interval, second),
            slot,
        ),
{
    lemma_one_append_per_fetched_asset(assets, interval, first, slot);
    lemma_one_append_per_fetched_asset(assets, interval, second, slot);
}

/// The answers from any registered slot on end with the sleep of the
/// configured interval.
proof fn lemma_sleep_ends_from(
    assets: Seq<AssetKind>,
    interval: u64,
    attempts: Seq<Attempt>,
    from: int,
)
    requires
        cycle_over(assets, attempts),
        0 <= from < assets.len(),
    ensures
        actions_from(assets, interval, attempts, from).len() > 0,
        actions_from(assets, interval, attempts, from).last() == (Action::Sleep {
            seconds: interval,
        }),
    decreases assets.len() - from,
{
    let own = attempt_actions(assets, interval, from, attempts[from]);
    let later = actions_from(assets, interval, attempts, from + 1);
    assert(own.len() > 0);
    if from + 1 < assets.len() {
        lemma_sleep_ends_from(assets, interval, attempts, from + 1);
        assert((own + later).last() == later.last());
    } else {
        assert(later =~= Seq::empty());
        assert((own + later).last() == own.last());
    }
}

/// Every cycle ends with the sleep of the configured interval and leaves the
/// driver between two cycles, however many of its attempts failed.
pub proof fn lemma_cycle_ends_with_sleep(
    assets: Seq<AssetKind>,
    interval: u64,
    attempts: Seq<Attempt>,
)
    requires
        cycle_over(assets, attempts),
    ensures
        run(assets, interval, DriverState::Sleeping, cycle_events(attempts)).0
            == DriverState::Sleeping,
        cycle_answers(assets, interval, attempts).len() > 0,
        cycle_answers(assets, interval, attempts).last() == (Action::Sleep { seconds: interval }),
{
    lemma_cycle_run(assets, interval, attempts);
    let first = seq![turn_to(assets, interval, 0).1];
    let later = actions_from(assets, interval, attempts, 0);
    if assets.len() > 0 {
        lemma_sleep_ends_from(assets, interval, attempts, 0);
        assert((first + later).last() == later.last());
    } else {
        assert(later =~= Seq::empty());
        assert((first + later).last() == first.last());
    }
}

/// Cadence: two consecutive cycles are two cycles. The driver answers the
/// events of the first with the first cycle's actions, those of the second
/// with the second cycle's, and is between cycles again at the end. Over the
/// two, each asset is fetched twice, and its record is asked to take what the
/// first cycle gives it and then what the second gives it: where nothing
/// fails, one price per cycle.
pub proof fn lemma_consecutive_cycles(
    assets: Seq<AssetKind>,
    interval: u64,
    first: Seq<Attempt>,
    second: Seq<Attempt>,
    slot: int,
)
    requires
        cycle_over(assets, first),
        cycle_over(assets, second),
        0 <= slot < assets.len(),
    ensures
        run(
            assets,
            interval,
            DriverState::Sleeping,
            cycle_events(first) + cycle_events(second),
        ) == (
            DriverState::Sleeping,
            cycle_answers(assets, interval, first) + cycle_answers(assets, interval, second),
        ),
        fetches_at(
            run(
                assets,
                interval,
                DriverState::Sleeping,
                cycle_events(first) + cycle_events(second),
            ).1,
            slot,
        ) == 2,
        persisted_at(
            run(
                assets,
                interval,
                DriverState::Sleeping,
                cycle_events(first) + cycle_events(second),
            ).1,
            slot,
        ) == first[slot].prices(assets[slot]) + second[slot].prices(assets[slot]),
        (first[slot] is Persisted && second[slot] is Persisted) ==> persisted_at(
            run(
                assets,
                interval,
                DriverState::Sleeping,
                cycle_events(first) + cycle_events(second),
            ).1,
            slot,
        ) == seq![
            assets[slot].price_in(first[slot]->Persisted_0),
            assets[slot].price_in(second[slot]->Persisted_0),
        ],
{
    lemma_cycle_run(assets, interval, first);
    lemma_cycle_run(assets, interval, second);
    lemma_run_in_sequence(
        assets,
        interval,
        DriverState::Sleeping,
        cycle_events(first),
        cycle_events(second),
    );
    lemma_requests_in_cycle(assets, interval, first, slot);
    lemma_requests_in_cycle(assets, interval, second, slot);
    lemma_requests_in_sequence(
        cycle_answers(assets, interval, first),
        cycle_answers(assets, interval, second),
        slot,
    );
    if first[slot] is Persisted && second[slot] is Persisted {
        let earlier = assets[slot].price_in(first[slot]->Persisted_0);
        let later = assets[slot].price_in(second[slot]->Persisted_0);
        assert(seq![earlier] + seq![later] =~= seq![earlier, later]);
    }
}

} // verus!
