use latency_channels::delay_log::DelayLog;
use latency_channels::delay_log::Progress;
use latency_channels::delay_log::Receipt;
use latency_channels::delay_log::RelayAction;
use latency_channels::delay_log::SinkAction;
use latency_channels::load::sync_system_load;
use latency_channels::load::LoadStep;
use latency_channels::load::SystemLoad;
use latency_channels::plan::REPORT_INTERVAL;
use latency_channels::plan::TASK_CLIENT_MESSAGES;
use latency_channels::rounds::RoundStep;
use latency_channels::rounds::Rounds;
use std::cell::RefCell;

#[test]
fn rounds_run_every_index_once_then_finish() {
    let mut rounds = Rounds::new(3);
    assert_eq!(rounds.next_round(), RoundStep::Run { index: 0, report: true });
    assert_eq!(rounds.next_round(), RoundStep::Run { index: 1, report: false });
    assert_eq!(rounds.next_round(), RoundStep::Run { index: 2, report: false });
    assert_eq!(rounds.next_round(), RoundStep::Finished);
    assert_eq!(rounds.next_round(), RoundStep::Finished);
    assert_eq!(rounds.started(), 3);
    assert_eq!(rounds.limit(), 3);
}

#[test]
fn client_rounds_report_every_hundred() {
    let mut rounds = Rounds::new(TASK_CLIENT_MESSAGES);
    let mut reports = Vec::new();
    let mut runs = 0;
    loop {
        match rounds.next_round() {
            RoundStep::Run { index, report } => {
                assert_eq!(index, runs);
                if report {
                    reports.push(index);
                }
                runs += 1;
            }
            RoundStep::Finished => break,
        }
    }
    assert_eq!(runs, 1000);
    assert_eq!(reports, vec![0, 100, 200, 300, 400, 500, 600, 700, 800, 900]);
}

#[test]
fn empty_rounds_finish_at_once() {
    let mut rounds = Rounds::new(0);
    assert_eq!(rounds.next_round(), RoundStep::Finished);
}

#[test]
fn system_load_pauses_before_multiples_of_hundred() {
    let mut load = SystemLoad::new(202);
    let mut steps = Vec::new();
    loop {
        let step = load.step();
        steps.push(step);
        if step == LoadStep::Finished {
            break;
        }
    }
    // 202 cycles plus pauses before 0, 100 and 200, then Finished.
    assert_eq!(steps.len(), 202 + 3 + 1);
    assert_eq!(steps[0], LoadStep::Pause);
    assert_eq!(steps[1], LoadStep::Burn(0));
    assert_eq!(steps[2], LoadStep::Burn(1));
    assert_eq!(steps[100], LoadStep::Burn(99));
    assert_eq!(steps[101], LoadStep::Pause);
    assert_eq!(steps[102], LoadStep::Burn(100));
    assert_eq!(steps[203], LoadStep::Burn(200));
    assert_eq!(steps[204], LoadStep::Burn(201));
    let burns: Vec<usize> = steps
        .iter()
        .filter_map(|s| if let LoadStep::Burn(n) = s { Some(*n) } else { None })
        .collect();
    assert_eq!(burns, (0..202).collect::<Vec<usize>>());
}

#[test]
fn system_load_of_nothing_finishes() {
    let mut load = SystemLoad::new(0);
    assert_eq!(load.step(), LoadStep::Finished);
    assert_eq!(load.step(), LoadStep::Finished);
}

#[test]
fn sync_system_load_runs_each_cycle_in_order() {
    let seen = RefCell::new(Vec::new());
    sync_system_load(5, &|n| seen.borrow_mut().push(n));
    assert_eq!(*seen.borrow(), vec![0, 1, 2, 3, 4]);
    let none = RefCell::new(Vec::new());
    sync_system_load(0, &|n| none.borrow_mut().push(n));
    assert!(none.borrow().is_empty());
}

#[test]
fn relay_forwards_counts_and_reports() {
    let mut log = DelayLog::new(2000);
    assert!(log.running());
    assert_eq!(log.relay_step(Receipt::Pending), RelayAction::Wait);
    assert_eq!(log.count(), 0);
    assert_eq!(log.relay_step(Receipt::Delivered(5)), RelayAction::Forward { progress: None });
    assert_eq!(log.relay_step(Receipt::Closed), RelayAction::ForwardNow { handled: 1 });
    assert_eq!(log.count(), 2);
    assert_eq!(log.received(), 1);
    for i in 2..REPORT_INTERVAL - 1 {
        assert_eq!(log.relay_step(Receipt::Delivered(i as u128)), RelayAction::Forward { progress: None });
    }
    assert_eq!(
        log.relay_step(Receipt::Delivered(7)),
        RelayAction::Forward { progress: Some(Progress { handled: 100, received: 99 }) }
    );
    let delays = log.into_delays();
    assert_eq!(delays.len(), 99);
    assert_eq!(delays[0], 5);
    assert_eq!(delays[1], 2);
    assert_eq!(delays[98], 7);
}

#[test]
fn relay_pass_overshoots_target_by_one() {
    let mut log = DelayLog::new(2);
    log.relay_step(Receipt::Delivered(1));
    assert!(log.running());
    log.relay_step(Receipt::Delivered(2));
    log.relay_step(Receipt::Closed);
    assert_eq!(log.count(), 3);
    assert!(!log.running());
}

#[test]
fn sink_records_then_stops_on_close() {
    let mut log = DelayLog::new(2000);
    assert_eq!(log.sink_step(Receipt::Delivered(3)), SinkAction::Recorded { progress: None });
    assert_eq!(log.sink_step(Receipt::Pending), SinkAction::Wait);
    assert_eq!(log.sink_step(Receipt::Delivered(1)), SinkAction::Recorded { progress: None });
    assert!(log.running());
    assert_eq!(log.sink_step(Receipt::Closed), SinkAction::Stop);
    assert!(!log.running());
    assert!(log.is_closed());
    assert_eq!(log.count(), 2);
    assert_eq!(log.into_delays(), vec![3, 1]);
}

#[test]
fn sink_stops_at_target_with_progress() {
    let mut log = DelayLog::new(200);
    let mut progress = Vec::new();
    let mut i: u128 = 0;
    while log.running() {
        if let SinkAction::Recorded { progress: Some(p) } = log.sink_step(Receipt::Delivered(i)) {
            progress.push(p);
        }
        i += 1;
    }
    assert_eq!(log.count(), 200);
    assert_eq!(
        progress,
        vec![Progress { handled: 100, received: 100 }, Progress { handled: 200, received: 200 }]
    );
}

#[test]
fn tally_records_only_messages() {
    let mut log = DelayLog::new(3);
    log.tally_step(None);
    log.tally_step(Some(4));
    log.tally_step(None);
    log.tally_step(Some(6));
    assert_eq!(log.count(), 2);
    assert!(log.running());
    log.tally_step(Some(8));
    assert!(!log.running());
    assert_eq!(log.into_delays(), vec![4, 6, 8]);
}

#[test]
fn cooperative_load_runs_the_same_cycles_as_plain_load() {
    for cycles in [0usize, 1, 99, 100, 101, 250] {
        let plain = RefCell::new(Vec::new());
        sync_system_load(cycles, &|n| plain.borrow_mut().push(n));
        let mut load = SystemLoad::new(cycles);
        let mut burned = Vec::new();
        let mut steps = 0usize;
        loop {
            steps += 1;
            match load.step() {
                LoadStep::Pause => {}
                LoadStep::Burn(n) => burned.push(n),
                LoadStep::Finished => break,
            }
        }
        assert_eq!(burned, *plain.borrow());
        let pauses = (cycles + 99) / 100;
        assert_eq!(steps, cycles + pauses + 1);
    }
}

#[test]
fn plain_load_never_pauses() {
    let mut load = SystemLoad::plain(201);
    let mut steps = Vec::new();
    loop {
        let step = load.step();
        if step == LoadStep::Finished {
            break;
        }
        steps.push(step);
    }
    assert_eq!(steps.len(), 201);
    assert_eq!(steps, (0..201).map(LoadStep::Burn).collect::<Vec<LoadStep>>());
    assert_eq!(load.step(), LoadStep::Finished);
}
