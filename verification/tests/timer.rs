use bft_core::step::Step;
use bft_core::timer::{TimeoutInfo, TimerRequest, WaitTimer, IDLE_WAIT};

fn info(timeval: u64, height: u64, round: u64) -> TimeoutInfo {
    TimeoutInfo { timeval, height, round, step: Step::default() }
}

fn gen_timeoutinfo() -> Vec<TimeoutInfo> {
    let mut res = Vec::new();
    res.push(info(150, 0, 0));
    res.push(info(180, 2, 1));
    res.push(info(50, 3, 6));
    res
}

#[test]
fn test_timer_heap() {
    let mut timer = WaitTimer::new();
    let infos = gen_timeoutinfo();
    for ti in infos.clone().into_iter() {
        assert_eq!(timer.turn(Some(ti), 0), vec![]);
    }
    assert_eq!(timer.wait(0), 50);
    assert_eq!(timer.turn(None, 50), vec![infos[2]]);
    assert_eq!(timer.wait(50), 100);
    assert_eq!(timer.turn(None, 150), vec![infos[0]]);
    assert_eq!(timer.wait(150), 30);
    assert_eq!(timer.turn(None, 180), vec![infos[1]]);
    assert_eq!(timer.wait(180), IDLE_WAIT);
}

#[test]
fn an_idle_timer_waits_a_hundred_seconds() {
    let timer = WaitTimer::new();
    assert_eq!(timer.wait(0), 100_000);
    assert_eq!(timer.wait(12_345), 100_000);
    assert_eq!(timer.count(), 0);
}

#[test]
fn a_deadline_that_has_passed_is_not_waited_for() {
    let mut timer = WaitTimer::new();
    timer.set(info(40, 1, 0));
    assert_eq!(timer.wait(40), 0);
    assert_eq!(timer.wait(90), 0);
    assert_eq!(timer.wait(39), 1);
}

#[test]
fn all_that_is_due_comes_out_in_the_order_of_the_deadlines() {
    let mut timer = WaitTimer::new();
    for t in [70u64, 10, 50, 30, 90, 20] {
        timer.set(info(t, t, 0));
    }
    assert_eq!(timer.count(), 6);
    let fired = timer.expire(50);
    assert_eq!(fired, vec![info(10, 10, 0), info(20, 20, 0), info(30, 30, 0), info(50, 50, 0)]);
    assert_eq!(timer.expire(50), vec![]);
    assert_eq!(timer.expire(1000), vec![info(70, 70, 0), info(90, 90, 0)]);
    assert_eq!(timer.expire(1000), vec![]);
}

#[test]
fn timeouts_of_one_deadline_come_out_in_the_order_they_were_set() {
    let mut timer = WaitTimer::new();
    let steps = [Step::Precommit, Step::Propose, Step::PrecommitWait, Step::Prevote];
    for (i, step) in steps.iter().enumerate() {
        // Heights and rounds fall, so that only the order of setting can explain the outcome.
        timer.set(TimeoutInfo { timeval: 5, height: 9 - i as u64, round: 7 - i as u64, step: *step });
    }
    timer.set(info(4, 0, 0));
    let fired = timer.expire(5);
    assert_eq!(
        fired,
        vec![
            info(4, 0, 0),
            TimeoutInfo { timeval: 5, height: 9, round: 7, step: Step::Precommit },
            TimeoutInfo { timeval: 5, height: 8, round: 6, step: Step::Propose },
            TimeoutInfo { timeval: 5, height: 7, round: 5, step: Step::PrecommitWait },
            TimeoutInfo { timeval: 5, height: 6, round: 4, step: Step::Prevote },
        ]
    );
}

#[test]
fn a_turn_sets_the_request_before_it_takes_out_what_is_due() {
    let mut timer = WaitTimer::new();
    timer.set(info(100, 1, 0));
    assert_eq!(timer.turn(Some(info(20, 1, 1)), 50), vec![info(20, 1, 1)]);
    assert_eq!(timer.turn(Some(info(300, 1, 2)), 100), vec![info(100, 1, 0)]);
    assert_eq!(timer.count(), 3);
    assert_eq!(timer.wait(100), 200);
}

#[test]
fn the_deadline_of_a_request_is_its_delay_from_now() {
    let request = TimerRequest { delay: 3000, height: 4, round: 2, step: Step::PrevoteWait };
    assert_eq!(
        request.due(1_000_000),
        TimeoutInfo { timeval: 1_003_000, height: 4, round: 2, step: Step::PrevoteWait }
    );
    assert_eq!(request.due(u64::MAX - 10).timeval, u64::MAX);
    assert_eq!(request.due(u64::MAX - 3000).timeval, u64::MAX);
}

#[test]
fn steps_have_their_places_in_a_round() {
    let steps = [
        Step::Propose,
        Step::Prevote,
        Step::PrevoteWait,
        Step::Precommit,
        Step::PrecommitWait,
        Step::Commit,
    ];
    for (i, step) in steps.iter().enumerate() {
        assert_eq!(step.code(), i as u8);
        assert_eq!(Step::from_code(i as u8), *step);
    }
    assert_eq!(Step::from_code(200), Step::Commit);
    assert_eq!(Step::default(), Step::Propose);
}
