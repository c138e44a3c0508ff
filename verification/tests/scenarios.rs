use std::cell::Cell;
use std::collections::HashMap;
use std::hash::RandomState;
use std::rc::Rc;

use fn_cache::generic_cache::{RecursiveRule, RefCache};
use fn_cache::{FnCache, FnCacheMany, HashCache, VecCache};

struct Fib;

impl RecursiveRule<HashMap<u64, u64>> for Fib {
    fn call(&self, cache: &mut HashMap<u64, u64>, x: &u64) -> u64 {
        match *x {
            0 => 0,
            1 => 1,
            _ => {
                let mut view = RefCache::new(cache, self);
                let a = *view.get(*x - 1);
                let b = *view.get(*x - 2);
                a + b
            }
        }
    }
}

/// A deliberately impure rule: its outer invocation looks its own key up
/// through the view, so the nested invocation installs the value first and
/// the outer, later completion is discarded.
struct FirstWins {
    entered: Cell<bool>,
}

impl RecursiveRule<HashMap<u32, u64>> for FirstWins {
    fn call(&self, cache: &mut HashMap<u32, u64>, x: &u32) -> u64 {
        if !self.entered.replace(true) {
            let mut view = RefCache::new(cache, self);
            let inner = *view.get(*x);
            inner + 100
        } else {
            5
        }
    }
}

#[test]
fn fibonacci_end_to_end() {
    let mut hc = HashCache::recursive(Fib);

    assert_eq!(hc.get(10), &55);
    for k in 0..=10 {
        assert!(hc.cache().contains_key(&k));
    }
    let len = hc.len();
    assert_eq!(hc.get(10), &55);
    assert_eq!(hc.len(), len);
}

#[test]
fn squares_end_to_end() {
    let mut vc = VecCache::new(|x: &usize| (*x * *x) as u64);

    assert_eq!(vc.get(5), &25);
    assert_eq!(vc.len(), 6);
    for k in 0..=5 {
        assert_eq!(vc.get(k), &((k * k) as u64));
    }
    assert_eq!(vc.get(3), &9);
    assert_eq!(vc.len(), 6);
}

#[test]
fn capturing_closure_end_to_end() {
    let factor: u64 = 3;

    let mut hc = HashCache::new(|x: &u64| factor * *x * *x);

    assert_eq!(hc.get(5), &75);
}

#[test]
fn lazy_population() {
    let mut hc = HashCache::new(|x: &u32| *x as u64 + 7);

    assert!(!hc.cache().contains_key(&4));
    assert_eq!(hc.len(), 0);
    assert_eq!(hc.get(4), &11);
    assert!(hc.cache().contains_key(&4));
    assert_eq!(hc.len(), 1);
    assert_eq!(hc.get(4), &11);
    assert_eq!(hc.len(), 1);
}

#[test]
fn first_writer_wins_on_colliding_key() {
    let mut hc = HashCache::recursive(FirstWins { entered: Cell::new(false) });

    assert_eq!(hc.get(2), &5);
    assert_eq!(hc.len(), 1);
    assert_eq!(hc.get(2), &5);
    assert_eq!(hc.len(), 1);
}

#[test]
fn with_hasher_builds_working_cache() {
    let mut hc = HashCache::with_hasher(RandomState::new(), |x: &u32| *x as u64 * 2);

    assert_eq!(hc.len(), 0);
    assert_eq!(hc.get(21), &42);
    assert_eq!(hc.len(), 1);
}

#[test]
fn recursive_with_hasher_builds_working_cache() {
    struct Double;

    impl RecursiveRule<HashMap<u32, u64, RandomState>> for Double {
        fn call(&self, _cache: &mut HashMap<u32, u64, RandomState>, x: &u32) -> u64 {
            *x as u64 * 2
        }
    }

    let mut hc = HashCache::recursive_with_hasher(RandomState::new(), Double);

    assert_eq!(hc.get(4), &8);
    assert_eq!(hc.len(), 1);
}

#[test]
fn get_many_empty_and_duplicates() {
    let mut hc = HashCache::new(|x: &u32| *x as u64 * *x as u64);

    let none: Vec<&u64> = hc.get_many(vec![]);
    assert!(none.is_empty());
    assert_eq!(hc.len(), 0);

    let twice = hc.get_many(vec![2, 2]);
    assert_eq!(twice, vec![&4, &4]);
    assert_eq!(hc.len(), 1);
}

#[test]
fn removal_then_recompute() {
    let mut hc = HashCache::new(|x: &u32| *x as u64 + 1);

    assert_eq!(hc.get(9), &10);
    assert_eq!(hc.remove(&9), Some(10));
    assert!(!hc.cache().contains_key(&9));
    assert_eq!(hc.remove(&9), None);
    assert_eq!(hc.len(), 0);
    assert_eq!(hc.get(9), &10);
    assert_eq!(hc.len(), 1);
}

#[test]
fn alternate_value_shares_storage() {
    let mut hc = HashCache::new(|x: &u32| Rc::new(*x as u64 * 10));

    let first = Rc::clone(hc.get(3));
    assert_eq!(*first, 30);
    let second = Rc::clone(hc.get(3));
    assert!(Rc::ptr_eq(&first, &second));
}

fn double_all(cache: &mut impl FnCacheMany<u32, u64>, keys: Vec<u32>) -> u64 {
    cache.get_many(keys).into_iter().sum()
}

fn lookup(cache: &mut impl FnCache<u32, u64>, key: u32) -> u64 {
    *cache.get(key)
}

#[test]
fn works_through_the_generic_traits() {
    let mut hc = HashCache::new(|x: &u32| *x as u64 * 2);

    assert_eq!(lookup(&mut hc, 4), 8);
    assert_eq!(double_all(&mut hc, vec![1, 2, 3]), 12);
    assert_eq!(hc.len(), 4);
}
