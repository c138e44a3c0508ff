use std::collections::BTreeMap;
use std::rc::Rc;

use fn_cache::generic_cache::{RecursiveRule, RefCache, Simple};
use fn_cache::BTreeCache;

fn square(x: &usize) -> u64 {
    *x as u64 * *x as u64
}

struct Fib;

impl RecursiveRule<BTreeMap<usize, u64>> for Fib {
    fn call(&self, cache: &mut BTreeMap<usize, u64>, x: &usize) -> u64 {
        match *x {
            0 => 0,
            1 => 1,
            _ => {
                let mut view = RefCache::new(cache, self);
                let a = *view.get(*x - 1);
                let b = *view.get(*x - 2);
                a + b
            }
        }
    }
}

struct FibRc;

impl RecursiveRule<BTreeMap<usize, Rc<u64>>> for FibRc {
    fn call(&self, cache: &mut BTreeMap<usize, Rc<u64>>, x: &usize) -> Rc<u64> {
        Rc::new(match *x {
            0 => 0,
            1 => 1,
            _ => {
                let mut view = RefCache::new(cache, self);
                let a = *view.get(*x - 1).clone();
                let b = *view.get(*x - 2).clone();
                a + b
            }
        })
    }
}

fn check_get<R: RecursiveRule<BTreeMap<usize, u64>>>(
    bc: &mut BTreeCache<usize, u64, R>,
    k: usize,
    v: u64,
) {
    let len = bc.len();
    let minimum_len = len + if !bc.cache().contains_key(&k) { 1 } else { 0 };

    assert_eq!(bc.get(k), &v);
    assert!(bc.cache().contains_key(&k));
    assert!(bc.len() >= minimum_len);
    assert_eq!(bc.get(k), &v);
    assert!(bc.cache().contains_key(&k));
    assert!(bc.len() >= minimum_len);
}

fn check_get_many<R: RecursiveRule<BTreeMap<usize, u64>>>(
    bc: &mut BTreeCache<usize, u64, R>,
    ks: &[usize],
    vs: &[u64],
) {
    let len = bc.len();
    let minimum_len = len + ks.iter().filter(|x| !bc.cache().contains_key(x)).count();

    let refs: Vec<&u64> = vs.iter().collect();

    assert_eq!(bc.get_many(ks.to_vec()), refs);
    assert!(bc.len() >= minimum_len);
    assert_eq!(bc.get_many(ks.to_vec()), refs);
    assert!(bc.len() >= minimum_len);
}

fn check_factor_square<R: RecursiveRule<BTreeMap<usize, u64>>>(
    bc: &mut BTreeCache<usize, u64, R>,
    factor: u64,
) {
    check_get(bc, 1, factor * 1);
    check_get(bc, 5, factor * 25);

    check_get_many(bc, &[2, 5, 10], &[factor * 4, factor * 25, factor * 100]);

    assert!(bc.cache().contains_key(&1));
}

fn check_fib<R: RecursiveRule<BTreeMap<usize, u64>>>(bc: &mut BTreeCache<usize, u64, R>) {
    check_get(bc, 1, 1);

    assert!(!bc.cache().contains_key(&2));
    assert!(!bc.cache().contains_key(&3));
    assert!(!bc.cache().contains_key(&4));
    assert!(!bc.cache().contains_key(&5));
    check_get(bc, 5, 5);
    assert!(bc.cache().contains_key(&1));
    assert!(bc.cache().contains_key(&2));
    assert!(bc.cache().contains_key(&3));
    assert!(bc.cache().contains_key(&4));
    assert!(bc.cache().contains_key(&5));
    check_get(bc, 5, 5);

    check_get_many(bc, &[2, 5, 12], &[1, 5, 144]);

    assert!(bc.cache().contains_key(&1));
}

#[test]
fn btree_cache_get_fn_ptr() {
    let mut bc: BTreeCache<usize, u64, Simple<_>> = BTreeCache::new(square);

    check_factor_square(&mut bc, 1);
}

#[test]
fn btree_cache_get_closure() {
    let mut bc: BTreeCache<usize, u64, Simple<_>> = BTreeCache::new(|x: &usize| {
        *x as u64 * *x as u64
    });

    check_factor_square(&mut bc, 1);
}

#[test]
fn btree_cache_get_closure_capture() {
    let y = 3;

    let mut bc: BTreeCache<usize, u64, Simple<_>> = BTreeCache::new(|x: &usize| {
        y * *x as u64 * *x as u64
    });

    check_factor_square(&mut bc, y);
}

#[test]
fn btree_cache_get_closure_recursive() {
    let mut bc = BTreeCache::recursive(Fib);

    check_fib(&mut bc);
}

#[test]
fn btree_cache_get_alternate_value() {
    let mut bc = BTreeCache::recursive(FibRc);

    assert_eq!(*bc.get(1).clone(), 1);
    assert_eq!(*bc.get(1).clone(), 1);

    assert!(!bc.cache().contains_key(&2));
    assert!(!bc.cache().contains_key(&3));
    assert!(!bc.cache().contains_key(&4));
    assert!(!bc.cache().contains_key(&5));
    assert_eq!(*bc.get(5).clone(), 5);
    assert!(bc.cache().contains_key(&1));
    assert!(bc.cache().contains_key(&2));
    assert!(bc.cache().contains_key(&3));
    assert!(bc.cache().contains_key(&4));
    assert!(bc.cache().contains_key(&5));
    assert_eq!(*bc.get(5).clone(), 5);

    let rs: Vec<u64> = bc.get_many(vec![2, 5, 12]).into_iter().map(|x| **x).collect();
    assert_eq!(rs, vec![1, 5, 144]);

    assert!(bc.cache().contains_key(&1));
}

#[test]
fn btree_cache_clear() {
    let mut bc: BTreeCache<usize, usize, Simple<_>> = BTreeCache::new(|x: &usize| *x);

    bc.get(0);
    bc.get(1);
    bc.get(2);

    assert_eq!(bc.len(), 3);

    bc.clear();

    assert_eq!(bc.len(), 0);
}

#[test]
fn btree_cache_len() {
    let mut bc: BTreeCache<usize, usize, Simple<_>> = BTreeCache::new(|x: &usize| *x);

    bc.get(0);
    bc.get(1);
    bc.get(2);

    assert_eq!(bc.len(), 3);
}

#[test]
fn btree_cache_remove() {
    let mut bc: BTreeCache<usize, usize, Simple<_>> = BTreeCache::new(|x: &usize| *x);

    bc.get(0);
    bc.get(1);
    bc.get(2);

    assert_eq!(bc.len(), 3);
    assert_eq!(bc.remove(&1), Some(1));
    assert_eq!(bc.len(), 2);
    assert_eq!(bc.remove(&1), None);
}
