use data_fetch::asset::AssetKind;
use data_fetch::cycle::{cycle_script, Attempt};
use data_fetch::driver::{Action, Driver, DriverState, Event, DEFAULT_INTERVAL_SECONDS};
use data_fetch::error::{FetchError, IoError};
use data_fetch::quote::{CoinGeckoPrice, CryptoPrice, Price};

fn price(value: f64) -> Price {
    Price::from_bits(value.to_bits())
}

fn envelope(bitcoin: Option<f64>, ethereum: Option<f64>) -> CoinGeckoPrice {
    CoinGeckoPrice {
        bitcoin: bitcoin.map(|value| CryptoPrice { usd: price(value) }),
        ethereum: ethereum.map(|value| CryptoPrice { usd: price(value) }),
    }
}

fn fetch(slot: usize, asset: AssetKind) -> Action {
    Action::Fetch { slot, asset }
}

fn persist(slot: usize, asset: AssetKind, value: f64) -> Action {
    Action::Persist { slot, asset, price: price(value) }
}

fn appends_for(actions: &[Action], slot: usize) -> Vec<Price> {
    let mut prices = Vec::new();
    for action in actions {
        if let Action::Persist { slot: at, price, .. } = action {
            if *at == slot {
                prices.push(*price);
            }
        }
    }
    prices
}

#[test]
fn standard_driver_polls_bitcoin_then_ethereum_once_a_minute() {
    let driver = Driver::standard();
    assert_eq!(driver.asset_count(), 2);
    assert_eq!(driver.asset_at(0), Some(AssetKind::Bitcoin));
    assert_eq!(driver.asset_at(1), Some(AssetKind::Ethereum));
    assert_eq!(driver.asset_at(2), None);
    assert_eq!(driver.interval_seconds(), 60);
    assert_eq!(DEFAULT_INTERVAL_SECONDS, 60);
    assert_eq!(driver.current_state(), DriverState::Sleeping);
}

#[test]
fn new_driver_keeps_what_it_was_given() {
    let driver = Driver::new(vec![AssetKind::Ethereum, AssetKind::Bitcoin, AssetKind::Ethereum], 5);
    assert_eq!(driver.asset_count(), 3);
    assert_eq!(driver.asset_at(0), Some(AssetKind::Ethereum));
    assert_eq!(driver.asset_at(1), Some(AssetKind::Bitcoin));
    assert_eq!(driver.asset_at(2), Some(AssetKind::Ethereum));
    assert_eq!(driver.asset_at(3), None);
    assert_eq!(driver.interval_seconds(), 5);
    assert_eq!(driver.current_state(), DriverState::Sleeping);
}

#[test]
fn cycle_without_failures_step_by_step() {
    let mut driver = Driver::standard();
    assert_eq!(driver.step(Event::Wake), fetch(0, AssetKind::Bitcoin));
    assert_eq!(driver.current_state(), DriverState::Fetching(0));
    assert_eq!(
        driver.step(Event::Fetched(envelope(Some(67890.12), None))),
        persist(0, AssetKind::Bitcoin, 67890.12)
    );
    assert_eq!(driver.current_state(), DriverState::Persisting(0));
    assert_eq!(driver.step(Event::Persisted), fetch(1, AssetKind::Ethereum));
    assert_eq!(driver.current_state(), DriverState::Fetching(1));
    assert_eq!(
        driver.step(Event::Fetched(envelope(None, Some(3456.5)))),
        persist(1, AssetKind::Ethereum, 3456.5)
    );
    assert_eq!(driver.current_state(), DriverState::Persisting(1));
    assert_eq!(driver.step(Event::Persisted), Action::Sleep { seconds: 60 });
    assert_eq!(driver.current_state(), DriverState::Sleeping);
}

#[test]
fn valid_quote_for_first_asset_and_timeout_for_second() {
    let mut driver = Driver::standard();
    let attempts = vec![
        Attempt::Persisted(envelope(Some(67890.12), None)),
        Attempt::FetchFailed(FetchError::Transport),
    ];
    let actions = driver.run_events(&cycle_script(&attempts));
    assert_eq!(
        actions,
        vec![
            fetch(0, AssetKind::Bitcoin),
            persist(0, AssetKind::Bitcoin, 67890.12),
            fetch(1, AssetKind::Ethereum),
            Action::Sleep { seconds: 60 },
        ]
    );
    assert_eq!(appends_for(&actions, 0), vec![price(67890.12)]);
    assert_eq!(appends_for(&actions, 1), Vec::<Price>::new());
    assert_eq!(driver.current_state(), DriverState::Sleeping);
    assert_eq!(driver.step(Event::Wake), fetch(0, AssetKind::Bitcoin));
}

#[test]
fn failed_fetch_of_first_asset_does_not_stop_the_second() {
    let mut driver = Driver::standard();
    let attempts = vec![
        Attempt::FetchFailed(FetchError::Status(429)),
        Attempt::Persisted(envelope(None, Some(3456.5))),
    ];
    let actions = driver.run_events(&cycle_script(&attempts));
    assert_eq!(
        actions,
        vec![
            fetch(0, AssetKind::Bitcoin),
            fetch(1, AssetKind::Ethereum),
            persist(1, AssetKind::Ethereum, 3456.5),
            Action::Sleep { seconds: 60 },
        ]
    );
    assert_eq!(appends_for(&actions, 0), Vec::<Price>::new());
    assert_eq!(appends_for(&actions, 1), vec![price(3456.5)]);
}

#[test]
fn second_asset_is_persisted_alike_whatever_happens_to_the_first() {
    let second = Attempt::Persisted(envelope(None, Some(3456.5)));
    let firsts = vec![
        Attempt::FetchFailed(FetchError::Transport),
        Attempt::FetchFailed(FetchError::Status(500)),
        Attempt::FetchFailed(FetchError::Decode),
        Attempt::Persisted(envelope(Some(67890.12), None)),
        Attempt::PersistFailed(envelope(Some(67890.12), None), IoError::Open),
        Attempt::PersistFailed(envelope(Some(67890.12), None), IoError::Write),
    ];
    for first in firsts {
        let mut driver = Driver::standard();
        let actions = driver.run_events(&cycle_script(&vec![first, second]));
        assert_eq!(appends_for(&actions, 1), vec![price(3456.5)]);
        assert_eq!(actions.last(), Some(&Action::Sleep { seconds: 60 }));
        let fetches = actions.iter().filter(|action| matches!(action, Action::Fetch { .. })).count();
        assert_eq!(fetches, 2);
    }
}

#[test]
fn undecodable_body_gives_no_append() {
    let mut driver = Driver::standard();
    assert_eq!(driver.step(Event::Wake), fetch(0, AssetKind::Bitcoin));
    let outcome: Result<CoinGeckoPrice, FetchError> = Err(FetchError::Decode);
    assert_eq!(driver.step(Event::of_fetch(outcome)), fetch(1, AssetKind::Ethereum));
    assert_eq!(driver.current_state(), DriverState::Fetching(1));
}

#[test]
fn every_fetch_error_moves_on_without_append() {
    for error in [FetchError::Transport, FetchError::Status(404), FetchError::Decode] {
        let mut driver = Driver::standard();
        let actions = driver.run_events(&vec![
            Event::Wake,
            Event::FetchFailed(error),
            Event::FetchFailed(error),
        ]);
        assert_eq!(
            actions,
            vec![
                fetch(0, AssetKind::Bitcoin),
                fetch(1, AssetKind::Ethereum),
                Action::Sleep { seconds: 60 },
            ]
        );
        assert_eq!(driver.current_state(), DriverState::Sleeping);
    }
}

#[test]
fn every_persist_error_moves_on() {
    for error in [IoError::Open, IoError::Write] {
        let mut driver = Driver::standard();
        let attempts = vec![
            Attempt::PersistFailed(envelope(Some(1.5), None), error),
            Attempt::Persisted(envelope(None, Some(2.5))),
        ];
        let actions = driver.run_events(&cycle_script(&attempts));
        assert_eq!(
            actions,
            vec![
                fetch(0, AssetKind::Bitcoin),
                persist(0, AssetKind::Bitcoin, 1.5),
                fetch(1, AssetKind::Ethereum),
                persist(1, AssetKind::Ethereum, 2.5),
                Action::Sleep { seconds: 60 },
            ]
        );
    }
}

#[test]
fn two_consecutive_cycles_append_once_per_asset_each() {
    let mut driver = Driver::new(vec![AssetKind::Bitcoin, AssetKind::Ethereum], 60);
    let first = vec![
        Attempt::Persisted(envelope(Some(67890.12), None)),
        Attempt::Persisted(envelope(None, Some(3456.5))),
    ];
    let second = vec![
        Attempt::Persisted(envelope(Some(67891.0), None)),
        Attempt::Persisted(envelope(None, Some(3457.25))),
    ];
    let first_actions = driver.run_events(&cycle_script(&first));
    assert_eq!(driver.current_state(), DriverState::Sleeping);
    let second_actions = driver.run_events(&cycle_script(&second));
    assert_eq!(driver.current_state(), DriverState::Sleeping);
    assert_eq!(
        first_actions,
        vec![
            fetch(0, AssetKind::Bitcoin),
            persist(0, AssetKind::Bitcoin, 67890.12),
            fetch(1, AssetKind::Ethereum),
            persist(1, AssetKind::Ethereum, 3456.5),
            Action::Sleep { seconds: 60 },
        ]
    );
    assert_eq!(
        second_actions,
        vec![
            fetch(0, AssetKind::Bitcoin),
            persist(0, AssetKind::Bitcoin, 67891.0),
            fetch(1, AssetKind::Ethereum),
            persist(1, AssetKind::Ethereum, 3457.25),
            Action::Sleep { seconds: 60 },
        ]
    );
    for slot in 0..2 {
        assert_eq!(appends_for(&first_actions, slot).len(), 1);
        assert_eq!(appends_for(&second_actions, slot).len(), 1);
    }
}

#[test]
fn two_cycles_reported_in_one_run() {
    let mut driver = Driver::new(vec![AssetKind::Ethereum], 10);
    let mut events = cycle_script(&vec![Attempt::Persisted(envelope(None, Some(2.0)))]);
    events.extend(cycle_script(&vec![Attempt::FetchFailed(FetchError::Transport)]));
    let actions = driver.run_events(&events);
    assert_eq!(
        actions,
        vec![
            fetch(0, AssetKind::Ethereum),
            persist(0, AssetKind::Ethereum, 2.0),
            Action::Sleep { seconds: 10 },
            fetch(0, AssetKind::Ethereum),
            Action::Sleep { seconds: 10 },
        ]
    );
}

#[test]
fn missing_quote_is_persisted_as_zero() {
    let mut driver = Driver::standard();
    let attempts = vec![
        Attempt::Persisted(envelope(None, None)),
        Attempt::Persisted(envelope(Some(67890.12), None)),
    ];
    let actions = driver.run_events(&cycle_script(&attempts));
    assert_eq!(appends_for(&actions, 0), vec![price(0.0)]);
    assert_eq!(appends_for(&actions, 1), vec![price(0.0)]);
}

#[test]
fn driver_without_assets_only_sleeps() {
    let mut driver = Driver::new(Vec::new(), 7);
    assert_eq!(driver.step(Event::Wake), Action::Sleep { seconds: 7 });
    assert_eq!(driver.current_state(), DriverState::Sleeping);
    assert_eq!(driver.step(Event::Wake), Action::Sleep { seconds: 7 });
    assert_eq!(cycle_script(&Vec::new()), vec![Event::Wake]);
}

#[test]
fn single_asset_cycle() {
    let mut driver = Driver::new(vec![AssetKind::Ethereum], 1);
    assert_eq!(driver.step(Event::Wake), fetch(0, AssetKind::Ethereum));
    assert_eq!(
        driver.step(Event::Fetched(envelope(Some(9.0), Some(8.0)))),
        persist(0, AssetKind::Ethereum, 8.0)
    );
    assert_eq!(driver.step(Event::PersistFailed(IoError::Write)), Action::Sleep { seconds: 1 });
}

#[test]
fn same_kind_in_two_slots_is_fetched_twice() {
    let mut driver = Driver::new(vec![AssetKind::Bitcoin, AssetKind::Bitcoin], 3);
    let attempts = vec![
        Attempt::FetchFailed(FetchError::Transport),
        Attempt::Persisted(envelope(Some(4.0), None)),
    ];
    let actions = driver.run_events(&cycle_script(&attempts));
    assert_eq!(
        actions,
        vec![
            fetch(0, AssetKind::Bitcoin),
            fetch(1, AssetKind::Bitcoin),
            persist(1, AssetKind::Bitcoin, 4.0),
            Action::Sleep { seconds: 3 },
        ]
    );
}

#[test]
fn unexpected_event_while_fetching_counts_as_failure() {
    let mut driver = Driver::standard();
    assert_eq!(driver.step(Event::Wake), fetch(0, AssetKind::Bitcoin));
    assert_eq!(driver.step(Event::Persisted), fetch(1, AssetKind::Ethereum));
    assert_eq!(driver.step(Event::Wake), Action::Sleep { seconds: 60 });
}

#[test]
fn any_event_while_persisting_moves_on() {
    let mut driver = Driver::standard();
    driver.step(Event::Wake);
    driver.step(Event::Fetched(envelope(Some(1.0), None)));
    assert_eq!(driver.step(Event::Fetched(envelope(Some(2.0), None))), fetch(1, AssetKind::Ethereum));
    assert_eq!(driver.current_state(), DriverState::Fetching(1));
}

#[test]
fn any_event_while_sleeping_starts_a_cycle() {
    let mut driver = Driver::standard();
    assert_eq!(driver.step(Event::FetchFailed(FetchError::Decode)), fetch(0, AssetKind::Bitcoin));
    assert_eq!(driver.current_state(), DriverState::Fetching(0));
}

#[test]
fn run_of_no_events_changes_nothing() {
    let mut driver = Driver::standard();
    driver.step(Event::Wake);
    assert_eq!(driver.run_events(&Vec::new()), Vec::<Action>::new());
    assert_eq!(driver.current_state(), DriverState::Fetching(0));
}

#[test]
fn script_writes_out_each_attempt() {
    let quoted = envelope(Some(1.0), Some(2.0));
    let attempts = vec![
        Attempt::FetchFailed(FetchError::Status(503)),
        Attempt::Persisted(quoted),
        Attempt::PersistFailed(quoted, IoError::Open),
    ];
    assert_eq!(
        cycle_script(&attempts),
        vec![
            Event::Wake,
            Event::FetchFailed(FetchError::Status(503)),
            Event::Fetched(quoted),
            Event::Persisted,
            Event::Fetched(quoted),
            Event::PersistFailed(IoError::Open),
        ]
    );
}

#[test]
fn events_report_outcomes() {
    let quoted = envelope(Some(1.0), None);
    assert_eq!(Event::of_fetch(Ok(quoted)), Event::Fetched(quoted));
    assert_eq!(
        Event::of_fetch(Err(FetchError::Transport)),
        Event::FetchFailed(FetchError::Transport)
    );
    assert_eq!(
        Event::of_fetch(Err(FetchError::Status(500))),
        Event::FetchFailed(FetchError::Status(500))
    );
    assert_eq!(Event::of_persist(Ok(())), Event::Persisted);
    assert_eq!(Event::of_persist(Err(IoError::Open)), Event::PersistFailed(IoError::Open));
    assert_eq!(Event::of_persist(Err(IoError::Write)), Event::PersistFailed(IoError::Write));
}
