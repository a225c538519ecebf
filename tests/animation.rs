use std::cell::RefCell;
use std::rc::Rc;

use ledcube::animation::{
    Animation, ChainedAnimation, MaybeTerminatingAnimation, TerminatingAnimation,
};
use ledcube::frame::Frame;

type Log = Rc<RefCell<Vec<String>>>;

/// Ends after `length` advances since its last reset; records every call.
struct Finite {
    name: &'static str,
    length: usize,
    done: usize,
    log: Log,
}

impl Finite {
    fn new(name: &'static str, length: usize, log: &Log) -> Self {
        Finite { name, length, done: 0, log: log.clone() }
    }
}

impl Animation for Finite {
    fn next_frame(&mut self, frame: &mut Frame, _now: u64) {
        self.done += 1;
        frame.set(0, 0, 0, self.done as u8);
        self.log.borrow_mut().push(format!("{}.next", self.name));
    }

    fn reset(&mut self, _now: u64) {
        self.done = 0;
        self.log.borrow_mut().push(format!("{}.reset", self.name));
    }
}

impl MaybeTerminatingAnimation for Finite {
    fn maybe_ended(&self, now: u64) -> bool {
        self.ended(now)
    }
}

impl TerminatingAnimation for Finite {
    fn ended(&self, _now: u64) -> bool {
        self.done >= self.length
    }
}

/// Never ends; records every call.
struct Endless {
    log: Log,
}

impl Animation for Endless {
    fn next_frame(&mut self, frame: &mut Frame, _now: u64) {
        frame.set(7, 7, 7, 1);
        self.log.borrow_mut().push("B.next".to_string());
    }

    fn reset(&mut self, _now: u64) {
        self.log.borrow_mut().push("B.reset".to_string());
    }
}

impl MaybeTerminatingAnimation for Endless {
    fn maybe_ended(&self, _now: u64) -> bool {
        false
    }
}

fn count(log: &Log, entry: &str) -> usize {
    log.borrow().iter().filter(|e| e.as_str() == entry).count()
}

#[test]
fn chain_runs_first_three_times_before_second() {
    let log: Log = Rc::new(RefCell::new(Vec::new()));
    let mut chain = ChainedAnimation::new(Finite::new("A", 3, &log), Endless { log: log.clone() });
    let mut frame = Frame::new();
    for t in 0..10u64 {
        assert!(!chain.maybe_ended(t));
        chain.next_frame(&mut frame, t);
    }
    assert!(!chain.maybe_ended(10));
    let entries = log.borrow().clone();
    let first_b = entries.iter().position(|e| e == "B.next").unwrap();
    assert_eq!(entries[..first_b].iter().filter(|e| *e == "A.next").count(), 3);
    assert_eq!(count(&log, "A.next"), 3);
    assert_eq!(&entries[..5], &["A.next", "A.next", "A.next", "B.reset", "B.next"]);
    assert_eq!(count(&log, "B.next"), 7);
}

#[test]
fn chain_switch_draws_second_in_same_call() {
    let log: Log = Rc::new(RefCell::new(Vec::new()));
    let mut chain = ChainedAnimation::new(Finite::new("A", 0, &log), Endless { log: log.clone() });
    let mut frame = Frame::new();
    chain.next_frame(&mut frame, 0);
    assert_eq!(*log.borrow(), vec!["B.reset".to_string(), "B.next".to_string()]);
    assert_eq!(frame.get(7, 7, 7), 1);
}

#[test]
fn chain_reset_returns_to_first() {
    let log: Log = Rc::new(RefCell::new(Vec::new()));
    let mut chain = ChainedAnimation::new(Finite::new("A", 1, &log), Endless { log: log.clone() });
    let mut frame = Frame::new();
    chain.next_frame(&mut frame, 0);
    chain.next_frame(&mut frame, 1);
    chain.reset(2);
    log.borrow_mut().clear();
    chain.next_frame(&mut frame, 3);
    assert_eq!(*log.borrow(), vec!["A.next".to_string()]);
}

#[test]
fn chain_of_terminating_ends_when_second_ends() {
    let log: Log = Rc::new(RefCell::new(Vec::new()));
    let mut chain = ChainedAnimation::new(Finite::new("A", 1, &log), Finite::new("C", 2, &log));
    let mut frame = Frame::new();
    let mut steps = 0;
    while !chain.ended(0) {
        chain.next_frame(&mut frame, 0);
        steps += 1;
        assert!(steps < 100);
    }
    assert_eq!(steps, 3);
    assert!(chain.maybe_ended(0));
}

#[test]
fn repeat_twice_runs_inner_three_times() {
    let log: Log = Rc::new(RefCell::new(Vec::new()));
    let mut rep = Finite::new("A", 1, &log).repeat(2);
    let mut frame = Frame::new();
    let mut steps = 0;
    while !rep.ended(0) {
        rep.next_frame(&mut frame, 0);
        steps += 1;
        assert!(steps < 100);
    }
    assert_eq!(count(&log, "A.next"), 3);
    assert_eq!(count(&log, "A.reset"), 2);
    assert_eq!(steps, 3);
    assert!(rep.maybe_ended(0));
}

#[test]
fn repeat_resets_and_advances_in_same_call() {
    let log: Log = Rc::new(RefCell::new(Vec::new()));
    let mut rep = Finite::new("A", 1, &log).repeat(1);
    let mut frame = Frame::new();
    rep.next_frame(&mut frame, 0);
    rep.next_frame(&mut frame, 0);
    assert_eq!(
        *log.borrow(),
        vec!["A.next".to_string(), "A.reset".to_string(), "A.next".to_string()]
    );
    assert!(rep.ended(0));
    rep.next_frame(&mut frame, 0);
    assert_eq!(count(&log, "A.next"), 3);
    assert!(rep.ended(0));
}

#[test]
fn repeat_reset_clears_count() {
    let log: Log = Rc::new(RefCell::new(Vec::new()));
    let mut rep = Finite::new("A", 1, &log).repeat(1);
    let mut frame = Frame::new();
    rep.next_frame(&mut frame, 0);
    rep.next_frame(&mut frame, 0);
    assert!(rep.ended(0));
    rep.reset(0);
    assert!(!rep.ended(0));
    rep.next_frame(&mut frame, 0);
    assert!(!rep.ended(0));
    rep.next_frame(&mut frame, 0);
    assert!(rep.ended(0));
}

#[test]
fn rate_limiter_interval_from_fps() {
    let log: Log = Rc::new(RefCell::new(Vec::new()));
    let mut anim = Finite::new("A", 1000, &log).with_fps(10, 0);
    let mut frame = Frame::new();
    anim.next_frame(&mut frame, 100_000_000);
    assert_eq!(count(&log, "A.next"), 0);
    anim.next_frame(&mut frame, 100_000_001);
    assert_eq!(count(&log, "A.next"), 1);
    assert_eq!(frame.get(0, 0, 0), 1);
    anim.next_frame(&mut frame, 150_000_000);
    assert_eq!(count(&log, "A.next"), 1);
    assert_eq!(frame.get(0, 0, 0), 1);
}

#[test]
fn rate_limiter_advances_within_bounds() {
    let log: Log = Rc::new(RefCell::new(Vec::new()));
    let fps = 1_000_000u64;
    let mut anim = Finite::new("A", usize::MAX, &log).with_fps(fps, 0);
    let mut frame = Frame::new();
    let span = 100_000u64;
    for t in 0..=span {
        anim.next_frame(&mut frame, t);
    }
    let advances = count(&log, "A.next") as u64;
    let expected = span * fps / 1_000_000_000;
    assert_eq!(expected, 100);
    assert!(advances <= expected + 1);
    assert!(advances + 1 >= expected);
    assert_eq!(advances, 99);
}

#[test]
fn rate_limiter_sixty_fps_sampled_every_millisecond() {
    let log: Log = Rc::new(RefCell::new(Vec::new()));
    let mut anim = Finite::new("A", usize::MAX, &log).with_fps(60, 0);
    let mut frame = Frame::new();
    let mut t = 0u64;
    while t <= 2_000_000_000 {
        anim.next_frame(&mut frame, t);
        t += 1_000_000;
    }
    let advances = count(&log, "A.next");
    assert!(advances <= 121);
    assert_eq!(advances, 117);
}

#[test]
fn rate_limiter_reset_keeps_timer() {
    let log: Log = Rc::new(RefCell::new(Vec::new()));
    let mut anim = Finite::new("A", 1000, &log).with_fps(1, 0);
    let mut frame = Frame::new();
    anim.next_frame(&mut frame, 2_000_000_000);
    anim.reset(2_000_000_001);
    anim.next_frame(&mut frame, 2_500_000_000);
    assert_eq!(count(&log, "A.next"), 1);
    assert_eq!(count(&log, "A.reset"), 1);
}

#[test]
fn rate_limiter_forwards_end() {
    let log: Log = Rc::new(RefCell::new(Vec::new()));
    let mut anim = Finite::new("A", 1, &log).with_fps(1000, 0);
    let mut frame = Frame::new();
    assert!(!anim.ended(0));
    anim.next_frame(&mut frame, 10_000_000);
    assert!(anim.ended(10_000_000));
    assert!(anim.maybe_ended(10_000_000));
}

#[test]
fn duration_limiter_ends_after_duration() {
    let log: Log = Rc::new(RefCell::new(Vec::new()));
    let anim = Endless { log: log.clone() }.with_duration(1_000, 500);
    for t in [0u64, 500, 900, 1_499, 1_500] {
        assert!(!anim.ended(t), "ended at {}", t);
    }
    for t in [1_501u64, 2_000, 1_000_000] {
        assert!(anim.ended(t), "not ended at {}", t);
        assert!(anim.maybe_ended(t));
    }
}

#[test]
fn duration_limiter_reset_restarts_clock() {
    let log: Log = Rc::new(RefCell::new(Vec::new()));
    let mut anim = Endless { log: log.clone() }.with_duration(100, 0);
    let mut frame = Frame::new();
    anim.next_frame(&mut frame, 50);
    assert!(anim.ended(101));
    anim.reset(200);
    assert!(!anim.ended(250));
    assert!(anim.ended(301));
    assert_eq!(count(&log, "B.reset"), 1);
    assert_eq!(count(&log, "B.next"), 1);
}

#[test]
fn duration_limiter_ends_early_with_inner() {
    let log: Log = Rc::new(RefCell::new(Vec::new()));
    let mut anim = Finite::new("A", 2, &log).with_duration(1_000_000, 0);
    let mut frame = Frame::new();
    anim.next_frame(&mut frame, 1);
    assert!(!anim.ended(1));
    anim.next_frame(&mut frame, 2);
    assert!(anim.ended(2));
}
