use std::collections::HashMap;
use std::rc::Rc;

use fn_cache::generic_cache::{RecursiveRule, RefCache};
use fn_cache::HashCache;

fn square(x: &usize) -> u64 {
    *x as u64 * *x as u64
}

struct Fib;

impl RecursiveRule<HashMap<usize, u64>> for Fib {
    fn call(&self, cache: &mut HashMap<usize, u64>, x: &usize) -> u64 {
        match *x {
            0 => 0,
            1 => 1,
            _ => {
                let mut view = RefCache::new(cache, self);
                let a = *view.get(*x - 1);
                let b = *view.get(*x - 2);
                a + b
            }
        }
    }
}

struct FibRc;

impl RecursiveRule<HashMap<usize, Rc<u64>>> for FibRc {
    fn call(&self, cache: &mut HashMap<usize, Rc<u64>>, x: &usize) -> Rc<u64> {
        Rc::new(match *x {
            0 => 0,
            1 => 1,
            _ => {
                let mut view = RefCache::new(cache, self);
                let a = *view.get(*x - 1).clone();
                let b = *view.get(*x - 2).clone();
                a + b
            }
        })
    }
}

fn check_get<R: RecursiveRule<HashMap<usize, u64>>>(
    hc: &mut HashCache<usize, u64, R>,
    k: usize,
    v: u64,
) {
    let len = hc.len();
    let minimum_len = len + if !hc.cache().contains_key(&k) { 1 } else { 0 };

    assert_eq!(hc.get(k), &v);
    assert!(hc.cache().contains_key(&k));
    assert!(hc.len() >= minimum_len);
    assert_eq!(hc.get(k), &v);
    assert!(hc.cache().contains_key(&k));
    assert!(hc.len() >= minimum_len);
}

fn check_get_many<R: RecursiveRule<HashMap<usize, u64>>>(
    hc: &mut HashCache<usize, u64, R>,
    ks: &[usize],
    vs: &[u64],
) {
    let len = hc.len();
    let minimum_len = len + ks.iter().filter(|x| !hc.cache().contains_key(x)).count();

    let refs: Vec<&u64> = vs.iter().collect();

    assert_eq!(hc.get_many(ks.to_vec()), refs);
    assert!(hc.len() >= minimum_len);
    assert_eq!(hc.get_many(ks.to_vec()), refs);
    assert!(hc.len() >= minimum_len);
}

fn check_factor_square<R: RecursiveRule<HashMap<usize, u64>>>(
    hc: &mut HashCache<usize, u64, R>,
    factor: u64,
) {
    check_get(hc, 1, factor * 1);
    check_get(hc, 5, factor * 25);

    check_get_many(hc, &[2, 5, 10], &[factor * 4, factor * 25, factor * 100]);

    assert!(hc.cache().contains_key(&1));
}

fn check_fib<R: RecursiveRule<HashMap<usize, u64>>>(hc: &mut HashCache<usize, u64, R>) {
    check_get(hc, 1, 1);

    assert!(!hc.cache().contains_key(&2));
    assert!(!hc.cache().contains_key(&3));
    assert!(!hc.cache().contains_key(&4));
    assert!(!hc.cache().contains_key(&5));
    check_get(hc, 5, 5);
    assert!(hc.cache().contains_key(&1));
    assert!(hc.cache().contains_key(&2));
    assert!(hc.cache().contains_key(&3));
    assert!(hc.cache().contains_key(&4));
    assert!(hc.cache().contains_key(&5));
    check_get(hc, 5, 5);

    check_get_many(hc, &[2, 5, 12], &[1, 5, 144]);

    assert!(hc.cache().contains_key(&1));
}

#[test]
fn hash_cache_get_fn_ptr() {
    let mut hc = HashCache::new(square);

    check_factor_square(&mut hc, 1);
}

#[test]
fn hash_cache_get_closure() {
    let mut hc = HashCache::new(|x: &usize| *x as u64 * *x as u64);

    check_factor_square(&mut hc, 1);
}

#[test]
fn hash_cache_get_closure_capture() {
    let y = 3;

    let mut hc = HashCache::new(|x: &usize| y * *x as u64 * *x as u64);

    check_factor_square(&mut hc, y);
}

#[test]
fn hash_cache_get_closure_recursive() {
    let mut hc = HashCache::recursive(Fib);

    check_fib(&mut hc);
}

#[test]
fn hash_cache_get_alternate_value() {
    let mut hc = HashCache::recursive(FibRc);

    assert_eq!(*hc.get(1).clone(), 1);
    assert_eq!(*hc.get(1).clone(), 1);

    assert!(!hc.cache().contains_key(&2));
    assert!(!hc.cache().contains_key(&3));
    assert!(!hc.cache().contains_key(&4));
    assert!(!hc.cache().contains_key(&5));
    assert_eq!(*hc.get(5).clone(), 5);
    assert!(hc.cache().contains_key(&1));
    assert!(hc.cache().contains_key(&2));
    assert!(hc.cache().contains_key(&3));
    assert!(hc.cache().contains_key(&4));
    assert!(hc.cache().contains_key(&5));
    assert_eq!(*hc.get(5).clone(), 5);

    let rs: Vec<u64> = hc.get_many(vec![2, 5, 12]).into_iter().map(|x| **x).collect();
    assert_eq!(rs, vec![1, 5, 144]);

    assert!(hc.cache().contains_key(&1));
}

#[test]
fn hash_cache_clear() {
    let mut hc = HashCache::new(|x: &usize| *x);

    hc.get(0);
    hc.get(1);
    hc.get(2);

    assert_eq!(hc.len(), 3);

    hc.clear();

    assert_eq!(hc.len(), 0);
}

#[test]
fn hash_cache_len() {
    let mut hc = HashCache::new(|x: &usize| *x);

    hc.get(0);
    hc.get(1);
    hc.get(2);

    assert_eq!(hc.len(), 3);
}

#[test]
fn hash_cache_reserve() {
    let mut hc = HashCache::new(|x: &usize| *x);

    hc.get(0);
    hc.get(1);
    hc.get(2);

    for additional in 20..60 {
        hc.reserve(additional);

        assert!(
            hc.len() + additional <= hc.cache().capacity(),
            "len = {}, capacity = {}, additional = {}",
            hc.len(),
            hc.cache().capacity(),
            additional
        );
    }
}

#[test]
fn hash_cache_remove() {
    let mut hc = HashCache::new(|x: &usize| *x);

    hc.get(0);
    hc.get(1);
    hc.get(2);

    assert_eq!(hc.len(), 3);
    assert_eq!(hc.remove(&1), Some(1));
    assert_eq!(hc.len(), 2);
    assert_eq!(hc.remove(&1), None);
}
