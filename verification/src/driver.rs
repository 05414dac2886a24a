//! The polling driver: a state machine that decides, event by event, what is
//! done next.
//!
//! The driver does no work itself. It hands out one `Action` at a time; its
//! caller performs the action and reports what happened as an `Event`, to
//! which the driver answers with the next action. A cycle fetches each
//! registered asset in registration order, persists the price of each one
//! that was fetched, and ends with a sleep. What happened to one asset has no
//! bearing on the next: the driver remembers only which slot it is at.

use vstd::prelude::*;
use crate::asset::AssetKind;
use crate::error::{FetchError, IoError};
use crate::quote::{CoinGeckoPrice, Price};

verus! {

/// The seconds between two cycles in the usual wiring.
pub const DEFAULT_INTERVAL_SECONDS: u64 = 60;

/// Where the driver stands.
#[derive(Clone, Copy, Debug, PartialEq, Eq)]
pub enum DriverState {
    /// Between two cycles: the last action was a sleep, or nothing was done
    /// yet.
    Sleeping,
    /// In a cycle, waiting for the fetch of the asset at this slot.
    Fetching(usize),
    /// In a cycle, waiting for the append to the record of the asset at this
    /// slot.
    Persisting(usize),
}

/// What the caller reports back to the driver.
#[derive(Clone, Copy, Debug, PartialEq, Eq)]
pub enum Event {
    /// The sleep is over, or the driver is started.
    Wake,
    /// The fetch succeeded and the response was decoded.
    Fetched(CoinGeckoPrice),
    /// The fetch failed.
    FetchFailed(FetchError),
    /// The observation was appended to the record.
    Persisted,
    /// The observation could not be appended.
    PersistFailed(IoError),
}

impl Event {
    /// The event that reports how a fetch ended.
    pub fn of_fetch(outcome: Result<CoinGeckoPrice, FetchError>) -> (event: Event)
        ensures
            event == match outcome {
                Ok(envelope) => Event::Fetched(envelope),
                Err(error) => Event::FetchFailed(error),
            },
    {
        match outcome {
            Ok(envelope) => Event::Fetched(envelope),
            Err(error) => Event::FetchFailed(error),
        }
    }

    /// The event that reports how an append ended.
    pub fn of_persist(outcome: Result<(), IoError>) -> (event: Event)
        ensures
            event == match outcome {
                Ok(_) => Event::Persisted,
                Err(error) => Event::PersistFailed(error),
            },
    {
        match outcome {
            Ok(_) => Event::Persisted,
            Err(error) => Event::PersistFailed(error),
        }
    }
}

/// What the driver asks its caller to do.
#[derive(Clone, Copy, Debug, PartialEq, Eq)]
pub enum Action {
    /// Request the quote of the asset at `slot`.
    Fetch { slot: usize, asset: AssetKind },
    /// Append `price` to the record of the asset at `slot`.
    Persist { slot: usize, asset: AssetKind, price: Price },
    /// Suspend for this many seconds, then report `Event::Wake`.
    Sleep { seconds: u64 },
}

/// The state and the action with which the driver turns to `slot`: the fetch
/// of the asset there, or, past the last asset, the sleep that ends the cycle.
pub open spec fn turn_to(assets: Seq<AssetKind>, interval: u64, slot: int) -> (DriverState, Action) {
    if 0 <= slot < assets.len() {
        (DriverState::Fetching(slot as usize), Action::Fetch { slot: slot as usize, asset: assets[slot] })
    } else {
        (DriverState::Sleeping, Action::Sleep { seconds: interval })
    }
}

/// The driver's transition: the state it moves to and the action it hands out
/// when `event` arrives in `state`.
///
/// While sleeping, any event starts a cycle. While a fetch is awaited, a
/// decoded response leads to the append of its price; anything else counts as
/// a failed fetch and the driver moves on. While an append is awaited, the
/// driver moves on whatever is reported.
pub open spec fn next_step(
    assets: Seq<AssetKind>,
    interval: u64,
    state: DriverState,
    event: Event,
) -> (DriverState, Action) {
    match state {
        DriverState::Sleeping => turn_to(assets, interval, 0),
        DriverState::Fetching(slot) => match event {
            Event::Fetched(envelope) => (
                DriverState::Persisting(slot),
                Action::Persist {
                    slot,
                    asset: assets[slot as int],
                    price: assets[slot as int].price_in(envelope),
                },
            ),
            _ => turn_to(assets, interval, slot + 1),
        },
        DriverState::Persisting(slot) => turn_to(assets, interval, slot + 1),
    }
}

/// The state that the driver reaches from `state`, and the actions that it
/// hands out on the way, when `events` are reported one after the other.
pub open spec fn run(
    assets: Seq<AssetKind>,
    interval: u64,
    state: DriverState,
    events: Seq<Event>,
) -> (DriverState, Seq<Action>)
    decreases events.len(),
{
    if events.len() == 0 {
        (state, Seq::empty())
    } else {
        let first = next_step(assets, interval, state, events[0]);
        let rest = run(assets, interval, first.0, events.drop_first());
        (rest.0, seq![first.1] + rest.1)
    }
}

/// Running over two runs of events, one after the other, is running over the
/// first and then, from where it ended, over the second.
pub proof fn lemma_run_in_sequence(
    assets: Seq<AssetKind>,
    interval: u64,
    state: DriverState,
    first: Seq<Event>,
    second: Seq<Event>,
)
    ensures
        run(assets, interval, state, first + second).0 == run(
            assets,
            interval,
            run(assets, interval, state, first).0,
            second,
        ).0,
        run(assets, interval, state, first + second).1 == run(assets, interval, state, first).1
            + run(assets, interval, run(assets, interval, state, first).0, second).1,
    decreases first.len(),
{
    if first.len() == 0 {
        assert(first + second =~= second);
        assert(run(assets, interval, state, first).1 + run(assets, interval, state, second).1
            =~= run(assets, interval, state, second).1);
    } else {
        let all = first + second;
        let step = next_step(assets, interval, state, first[0]);
        assert(all[0] == first[0]);
        assert(all.drop_first() =~= first.drop_first() + second);
        lemma_run_in_sequence(assets, interval, step.0, first.drop_first(), second);
        let head = run(assets, interval, step.0, first.drop_first());
        let tail = run(assets, interval, head.0, second);
        assert(seq![step.1] + (head.1 + tail.1) =~= (seq![step.1] + head.1) + tail.1);
    }
}

/// Whether `state` is a state of a driver over `count` assets: a slot it
/// waits on is a registered one.
pub open spec fn state_in_range(state: DriverState, count: int) -> bool {
    match state {
        DriverState::Sleeping => true,
        DriverState::Fetching(slot) => slot < count,
        DriverState::Persisting(slot) => slot < count,
    }
}

/// A polling driver over an ordered list of assets.
pub struct Driver {
    assets: Vec<AssetKind>,
    interval_seconds: u64,
    state: DriverState,
}

impl Driver {
    /// The registered assets, in registration order.
    pub closed spec fn assets(&self) -> Seq<AssetKind> {
        self.assets@
    }

    /// The seconds slept between two cycles.
    pub closed spec fn interval(&self) -> u64 {
        self.interval_seconds
    }

    /// The driver's state.
    pub closed spec fn state(&self) -> DriverState {
        self.state
    }

    /// The driver's invariant.
    pub open spec fn wf(&self) -> bool {
        state_in_range(self.state(), self.assets().len() as int)
    }

    /// A driver over `assets` that sleeps `interval_seconds` between cycles.
    /// It starts out between cycles: the first event starts the first cycle.
    pub fn new(assets: Vec<AssetKind>, interval_seconds: u64) -> (driver: Driver)
        ensures
            driver.wf(),
            driver.assets() == assets@,
            driver.interval() == interval_seconds,
            driver.state() == DriverState::Sleeping,
    {
        Driver { assets, interval_seconds, state: DriverState::Sleeping }
    }

    /// The usual wiring: Bitcoin, then Ethereum, once a minute.
    pub fn standard() -> (driver: Driver)
        ensures
            driver.wf(),
            driver.assets() == seq![AssetKind::Bitcoin, AssetKind::Ethereum],
            driver.interval() == DEFAULT_INTERVAL_SECONDS,
            driver.state() == DriverState::Sleeping,
    {
        let mut assets: Vec<AssetKind> = Vec::new();
        assets.push(AssetKind::Bitcoin);
        assets.push(AssetKind::Ethereum);
        proof {
            assert(assets@ =~= seq![AssetKind::Bitcoin, AssetKind::Ethereum]);
        }
        Driver::new(assets, DEFAULT_INTERVAL_SECONDS)
    }

    /// Turns to `slot`: see `turn_to`.
    fn turn(&mut self, slot: usize) -> (action: Action)
        requires
            old(self).wf(),
        ensures
            final(self).wf(),
            final(self).assets() == old(self).assets(),
            final(self).interval() == old(self).interval(),
            (final(self).state(), action) == turn_to(
                old(self).assets(),
                old(self).interval(),
                slot as int,
            ),
    {
        if slot < self.assets.len() {
            self.state = DriverState::Fetching(slot);
            Action::Fetch { slot, asset: self.assets[slot] }
        } else {
            self.state = DriverState::Sleeping;
            Action::Sleep { seconds: self.interval_seconds }
        }
    }

    /// Leaves `slot` behind and turns to the one after it, or ends the cycle
    /// where there is none.
    fn turn_past(&mut self, slot: usize) -> (action: Action)
        requires
            old(self).wf(),
        ensures
            final(self).wf(),
            final(self).assets() == old(self).assets(),
            final(self).interval() == old(self).interval(),
            (final(self).state(), action) == turn_to(
                old(self).assets(),
                old(self).interval(),
                slot + 1,
            ),
    {
        let count: usize = self.assets.len();
        if slot < count {
            self.turn(slot + 1)
        } else {
            self.turn(count)
        }
    }

    /// Takes in what happened and hands out what is to be done next. The
    /// driver never fails and never stops: every event in every state has an
    /// answer.
    pub fn step(&mut self, event: Event) -> (action: Action)
        requires
            old(self).wf(),
        ensures
            final(self).wf(),
            final(self).assets() == old(self).assets(),
            final(self).interval() == old(self).interval(),
            (final(self).state(), action) == next_step(
                old(self).assets(),
                old(self).interval(),
                old(self).state(),
                event,
            ),
    {
        match self.state {
            DriverState::Sleeping => self.turn(0),
            DriverState::Fetching(slot) => match event {
                Event::Fetched(envelope) => {
                    let asset = self.assets[slot];
                    let price = asset.extract_price(envelope);
                    self.state = DriverState::Persisting(slot);
                    Action::Persist { slot, asset, price }
                },
                _ => self.turn_past(slot),
            },
            DriverState::Persisting(slot) => self.turn_past(slot),
        }
    }

    /// Reports `events` one after the other and collects the driver's
    /// answers, one action per event.
    pub fn run_events(&mut self, events: &Vec<Event>) -> (actions: Vec<Action>)
        requires
            old(self).wf(),
        ensures
            final(self).wf(),
            final(self).assets() == old(self).assets(),
            final(self).interval() == old(self).interval(),
            (final(self).state(), actions@) == run(
                old(self).assets(),
                old(self).interval(),
                old(self).state(),
                events@,
            ),
    {
        let ghost assets = self.assets();
        let ghost interval = self.interval();
        let ghost start = self.state();
        let mut actions: Vec<Action> = Vec::new();
        let mut done: usize = 0;
        proof {
            assert(events@.take(0) =~= Seq::<Event>::empty());
        }
        while done < events.len()
            invariant
                done <= events.len(),
                self.wf(),
                self.assets() == assets,
                self.interval() == interval,
                (self.state(), actions@) == run(assets, interval, start, events@.take(done as int)),
            decreases events.len() - done,
        {
            let ghost before = self.state();
            let action = self.step(events[done]);
            proof {
                let single = seq![events@[done as int]];
                assert(single.drop_first() =~= Seq::<Event>::empty());
                assert(run(assets, interval, self.state(), Seq::<Event>::empty()).1
                    =~= Seq::<Action>::empty());
                assert(run(assets, interval, before, single).0 == self.state());
                assert(run(assets, interval, before, single).1 =~= seq![action]);
                assert(events@.take(done as int) + single =~= events@.take(done + 1));
                lemma_run_in_sequence(assets, interval, start, events@.take(done as int), single);
            }
            actions.push(action);
            done += 1;
        }
        proof {
            assert(events@.take(events@.len() as int) =~= events@);
        }
        actions
    }

    /// The driver's state.
    pub fn current_state(&self) -> (state: DriverState)
        ensures
            state == self.state(),
    {
        self.state
    }

    /// The seconds slept between two cycles.
    pub fn interval_seconds(&self) -> (seconds: u64)
        ensures
            seconds == self.interval(),
    {
        self.interval_seconds
    }

    /// The number of registered assets.
    pub fn asset_count(&self) -> (count: usize)
        ensures
            count == self.assets().len(),
    {
        self.assets.len()
    }

    /// The asset registered at `slot`, if there is one.
    pub fn asset_at(&self, slot: usize) -> (asset: Option<AssetKind>)
        ensures
            asset == if slot < self.assets().len() {
                Some(self.assets()[slot as int])
            } else {
                None
            },
    {
        if slot < self.assets.len() {
            Some(self.assets[slot])
        } else {
            None
        }
    }
}

} // verus!
