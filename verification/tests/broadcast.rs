//! Broadcast and sweep behaviour of the subject state container.

use observable::Observable;
use observable::ObservableMixin;
use observable::Observer;
use observable::WeakObs;
use std::cell::RefCell;
use std::rc::Rc;

struct Rec {
    mark: usize,
    log: Rc<RefCell<Vec<(usize, u64)>>>,
}

impl Observer<u64> for Rec {
    fn notify(&self, event: u64) {
        self.log.borrow_mut().push((self.mark, event));
    }
}

fn fresh_log() -> Rc<RefCell<Vec<(usize, u64)>>> {
    Rc::new(RefCell::new(Vec::new()))
}

fn observer(mark: usize, log: &Rc<RefCell<Vec<(usize, u64)>>>) -> Rc<Rec> {
    Rc::new(Rec { mark, log: Rc::clone(log) })
}

#[test]
fn default_is_empty() {
    let subj: ObservableMixin<Rec> = Default::default();
    assert_eq!(subj.len(), 0);
}

#[test]
fn empty_broadcast_is_noop() {
    let mut subj: ObservableMixin<Rec> = Default::default();
    subj.notify_observers(1u64);
    assert_eq!(subj.len(), 0);
}

#[test]
fn fully_stale_broadcast_empties() {
    let log = fresh_log();
    let mut subj: ObservableMixin<Rec> = Default::default();
    let a = observer(0, &log);
    let b = observer(1, &log);
    let c = observer(2, &log);
    subj.register(WeakObs::of(&a));
    subj.register(WeakObs::of(&b));
    subj.register(WeakObs::of(&c));
    drop(a);
    drop(b);
    drop(c);
    assert_eq!(subj.len(), 3);
    subj.notify_observers(5u64);
    assert_eq!(log.borrow().len(), 0);
    assert_eq!(subj.len(), 0);
}

#[test]
fn liveness_sweep_delivers_to_live_only() {
    let log = fresh_log();
    let mut subj: ObservableMixin<Rec> = Default::default();
    let a = observer(0, &log);
    let b = observer(1, &log);
    let c = observer(2, &log);
    let d = observer(3, &log);
    subj.register(WeakObs::of(&a));
    subj.register(WeakObs::of(&b));
    subj.register(WeakObs::of(&c));
    subj.register(WeakObs::of(&d));
    drop(b);
    drop(d);
    subj.notify_observers(7u64);
    assert_eq!(*log.borrow(), vec![(0usize, 7u64), (2usize, 7u64)]);
    assert_eq!(subj.len(), 2);
    log.borrow_mut().clear();
    subj.notify_observers(8u64);
    assert_eq!(*log.borrow(), vec![(0usize, 8u64), (2usize, 8u64)]);
    assert_eq!(subj.len(), 2);
}

#[test]
fn order_preserved_among_survivors() {
    let log = fresh_log();
    let mut subj: ObservableMixin<Rec> = Default::default();
    let mut owners: Vec<Option<Rc<Rec>>> = Vec::new();
    for mark in 0..6usize {
        let o = observer(mark, &log);
        subj.register(WeakObs::of(&o));
        owners.push(Some(o));
    }
    owners[0] = None;
    owners[3] = None;
    owners[5] = None;
    subj.notify_observers(9u64);
    assert_eq!(*log.borrow(), vec![(1usize, 9u64), (2usize, 9u64), (4usize, 9u64)]);
}

#[test]
fn duplicate_registration_delivers_twice() {
    let log = fresh_log();
    let mut subj: ObservableMixin<Rec> = Default::default();
    let a = observer(0, &log);
    subj.register(WeakObs::of(&a));
    subj.register(WeakObs::of(&a));
    assert_eq!(subj.len(), 2);
    subj.notify_observers(3u64);
    assert_eq!(*log.borrow(), vec![(0usize, 3u64), (0usize, 3u64)]);
    assert_eq!(subj.len(), 2);
}

#[test]
fn registering_dead_handle_is_swept_later() {
    let log = fresh_log();
    let mut subj: ObservableMixin<Rec> = Default::default();
    let a = observer(0, &log);
    let dead = WeakObs::of(&a);
    drop(a);
    subj.register(dead);
    assert_eq!(subj.len(), 1);
    subj.notify_observers(4u64);
    assert_eq!(log.borrow().len(), 0);
    assert_eq!(subj.len(), 0);
}

#[test]
fn capability_works_through_the_trait() {
    let log = fresh_log();
    let mut subj: ObservableMixin<Rec> = Default::default();
    let a = observer(0, &log);
    Observable::<u64, Rec>::register(&mut subj, WeakObs::of(&a));
    Observable::<u64, Rec>::notify_observers(&mut subj, 11u64);
    assert_eq!(*log.borrow(), vec![(0usize, 11u64)]);
    assert_eq!(subj.len(), 1);
}

struct Station {
    broadcasts: ObservableMixin<Rec>,
}

impl Station {
    fn subscribe(&mut self, o: &Rc<Rec>) {
        self.broadcasts.register(WeakObs::of(o));
    }

    fn announce(&mut self, event: u64) {
        self.broadcasts.notify_observers(event);
    }
}

#[test]
fn consumer_type_embeds_the_container() {
    let log = fresh_log();
    let mut station = Station { broadcasts: Default::default() };
    let a = observer(0, &log);
    let b = observer(1, &log);
    station.subscribe(&a);
    station.subscribe(&b);
    drop(a);
    station.announce(21u64);
    assert_eq!(*log.borrow(), vec![(1usize, 21u64)]);
    assert_eq!(station.broadcasts.len(), 1);
}

struct Echo {
    seen: Rc<RefCell<Vec<String>>>,
}

impl Observer<String> for Echo {
    fn notify(&self, event: String) {
        self.seen.borrow_mut().push(event);
    }
}

#[test]
fn duplication_fidelity() {
    let seen: Rc<RefCell<Vec<String>>> = Rc::new(RefCell::new(Vec::new()));
    let mut subj: ObservableMixin<Echo> = Default::default();
    let a = Rc::new(Echo { seen: Rc::clone(&seen) });
    let b = Rc::new(Echo { seen: Rc::clone(&seen) });
    subj.register(WeakObs::of(&a));
    subj.register(WeakObs::of(&b));
    subj.notify_observers(String::from("payload"));
    let got = seen.borrow();
    assert_eq!(got.len(), 2);
    assert_eq!(got[0], "payload");
    assert_eq!(got[1], "payload");
}
