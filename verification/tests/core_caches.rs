use std::collections::HashMap;
use std::rc::Rc;

use fn_cache::generic_cache::{RecursiveRule, RefCache};
use fn_cache::vec_cache::DenseRule;
use fn_cache::{HashCache, VecCache};

fn square_u32(x: &u32) -> u64 {
    *x as u64 * *x as u64
}

fn square_usize(x: &usize) -> u64 {
    *x as u64 * *x as u64
}

struct FibU32;

impl RecursiveRule<HashMap<u32, u64>> for FibU32 {
    fn call(&self, cache: &mut HashMap<u32, u64>, x: &u32) -> u64 {
        match *x {
            0 => 0,
            1 => 1,
            _ => {
                let mut view = RefCache::new(cache, self);
                let a = *view.get(*x - 1);
                let b = *view.get(*x - 2);
                a + b
            }
        }
    }
}

struct FibUsize;

impl RecursiveRule<HashMap<usize, u64>> for FibUsize {
    fn call(&self, cache: &mut HashMap<usize, u64>, x: &usize) -> u64 {
        match *x {
            0 => 0,
            1 => 1,
            _ => {
                let mut view = RefCache::new(cache, self);
                let a = *view.get(*x - 1);
                let b = *view.get(*x - 2);
                a + b
            }
        }
    }
}

struct FibRc;

impl RecursiveRule<HashMap<usize, Rc<u64>>> for FibRc {
    fn call(&self, cache: &mut HashMap<usize, Rc<u64>>, x: &usize) -> Rc<u64> {
        Rc::new(match *x {
            0 => 0,
            1 => 1,
            _ => {
                let mut view = RefCache::new(cache, self);
                let a = *view.get(*x - 1).clone();
                let b = *view.get(*x - 2).clone();
                a + b
            }
        })
    }
}

struct VecFib;

impl DenseRule<u64> for VecFib {
    fn call(&self, cache: &mut Vec<u64>, x: &usize) -> u64 {
        match *x {
            0 => 0,
            1 => 1,
            _ => cache[*x - 1] + cache[*x - 2],
        }
    }
}

struct VecFibSum;

impl DenseRule<u64> for VecFibSum {
    fn call(&self, cache: &mut Vec<u64>, x: &usize) -> u64 {
        match *x {
            0 => 0,
            1 => 1,
            _ => [*x - 1, *x - 2].iter().map(|i| cache[*i]).sum(),
        }
    }
}

struct VecFibRc;

impl DenseRule<Rc<u64>> for VecFibRc {
    fn call(&self, cache: &mut Vec<Rc<u64>>, x: &usize) -> Rc<u64> {
        Rc::new(match *x {
            0 => 0,
            1 => 1,
            _ => *cache[*x - 1].clone() + *cache[*x - 2].clone(),
        })
    }
}

#[test]
fn tests_cache_fn_ptr() {
    let mut hc = HashCache::new(square_u32);

    assert!(!hc.cache().contains_key(&1));
    assert_eq!(hc.get(1), &1);
    assert!(hc.cache().contains_key(&1));
    assert_eq!(hc.get(1), &1);

    assert!(!hc.cache().contains_key(&5));
    assert_eq!(hc.get(5), &25);
    assert!(hc.cache().contains_key(&5));
    assert_eq!(hc.get(5), &25);

    assert!(hc.cache().contains_key(&1));

    let mut vc = VecCache::new(square_usize);

    assert_eq!(vc.len(), 0);
    assert_eq!(vc.get(0), &0);
    assert_eq!(vc.len(), 1);
    assert_eq!(vc.get(0), &0);

    assert_eq!(vc.len(), 1);
    assert_eq!(vc.get(5), &25);
    assert_eq!(vc.len(), 6);
    assert_eq!(vc.get(5), &25);

    assert_eq!(vc.get(3), &9);
    assert_eq!(vc.len(), 6);
}

#[test]
fn tests_cache_closure() {
    let mut hc = HashCache::new(|x: &u32| *x as u64 * *x as u64);

    assert!(!hc.cache().contains_key(&1));
    assert_eq!(hc.get(1), &1);
    assert!(hc.cache().contains_key(&1));
    assert_eq!(hc.get(1), &1);

    assert!(!hc.cache().contains_key(&5));
    assert_eq!(hc.get(5), &25);
    assert!(hc.cache().contains_key(&5));
    assert_eq!(hc.get(5), &25);

    assert!(hc.cache().contains_key(&1));

    let mut vc = VecCache::new(|x: &usize| *x as u64 * *x as u64);

    assert_eq!(vc.len(), 0);
    assert_eq!(vc.get(0), &0);
    assert_eq!(vc.len(), 1);
    assert_eq!(vc.get(0), &0);

    assert_eq!(vc.len(), 1);
    assert_eq!(vc.get(5), &25);
    assert_eq!(vc.len(), 6);
    assert_eq!(vc.get(5), &25);

    assert_eq!(vc.get(3), &9);
    assert_eq!(vc.len(), 6);
}

#[test]
fn tests_cache_closure_capture() {
    let y = 3;

    let mut hc = HashCache::new(|x: &u32| y * *x as u64 * *x as u64);

    assert!(!hc.cache().contains_key(&1));
    assert_eq!(hc.get(1), &3);
    assert!(hc.cache().contains_key(&1));
    assert_eq!(hc.get(1), &3);

    assert!(!hc.cache().contains_key(&5));
    assert_eq!(hc.get(5), &75);
    assert!(hc.cache().contains_key(&5));
    assert_eq!(hc.get(5), &75);

    assert!(hc.cache().contains_key(&1));

    let mut vc = VecCache::new(|x: &usize| y * *x as u64 * *x as u64);

    assert_eq!(vc.len(), 0);
    assert_eq!(vc.get(0), &0);
    assert_eq!(vc.len(), 1);
    assert_eq!(vc.get(0), &0);

    assert_eq!(vc.len(), 1);
    assert_eq!(vc.get(5), &75);
    assert_eq!(vc.len(), 6);
    assert_eq!(vc.get(5), &75);

    assert_eq!(vc.get(3), &27);
    assert_eq!(vc.len(), 6);
}

#[test]
fn tests_cache_fn_ptr_recursive() {
    let mut hc = HashCache::recursive(FibU32);

    assert!(!hc.cache().contains_key(&1));
    assert_eq!(hc.get(1), &1);
    assert!(hc.cache().contains_key(&1));
    assert_eq!(hc.get(1), &1);

    assert!(!hc.cache().contains_key(&2));
    assert!(!hc.cache().contains_key(&3));
    assert!(!hc.cache().contains_key(&4));
    assert!(!hc.cache().contains_key(&5));
    assert_eq!(hc.get(5), &5);
    assert!(hc.cache().contains_key(&1));
    assert!(hc.cache().contains_key(&2));
    assert!(hc.cache().contains_key(&3));
    assert!(hc.cache().contains_key(&4));
    assert!(hc.cache().contains_key(&5));
    assert_eq!(hc.get(5), &5);

    assert!(hc.cache().contains_key(&1));

    let mut vc = VecCache::recursive(VecFib);

    assert_eq!(vc.len(), 0);
    assert_eq!(vc.get(0), &0);
    assert_eq!(vc.len(), 1);
    assert_eq!(vc.get(0), &0);

    assert_eq!(vc.len(), 1);
    assert_eq!(vc.get(5), &5);
    assert_eq!(vc.len(), 6);
    assert_eq!(vc.get(5), &5);

    assert_eq!(vc.get(3), &2);
    assert_eq!(vc.len(), 6);
}

#[test]
fn tests_cache_closure_recursive() {
    let mut hc = HashCache::recursive(FibUsize);

    assert!(!hc.cache().contains_key(&1));
    assert_eq!(hc.get(1), &1);
    assert!(hc.cache().contains_key(&1));
    assert_eq!(hc.get(1), &1);

    assert!(!hc.cache().contains_key(&2));
    assert!(!hc.cache().contains_key(&3));
    assert!(!hc.cache().contains_key(&4));
    assert!(!hc.cache().contains_key(&5));
    assert_eq!(hc.get(5), &5);
    assert!(hc.cache().contains_key(&1));
    assert!(hc.cache().contains_key(&2));
    assert!(hc.cache().contains_key(&3));
    assert!(hc.cache().contains_key(&4));
    assert!(hc.cache().contains_key(&5));
    assert_eq!(hc.get(5), &5);

    assert!(hc.cache().contains_key(&1));

    let mut vc = VecCache::recursive(VecFibSum);

    assert_eq!(vc.len(), 0);
    assert_eq!(vc.get(0), &0);
    assert_eq!(vc.len(), 1);
    assert_eq!(vc.get(0), &0);

    assert_eq!(vc.len(), 1);
    assert_eq!(vc.get(5), &5);
    assert_eq!(vc.len(), 6);
    assert_eq!(vc.get(5), &5);

    assert_eq!(vc.get(3), &2);
    assert_eq!(vc.len(), 6);
}

#[test]
fn tests_cache_alternate_cache() {
    let mut hc = HashCache::recursive(FibRc);

    assert!(!hc.cache().contains_key(&1));
    assert_eq!(*hc.get(1).clone(), 1);
    assert!(hc.cache().contains_key(&1));
    assert_eq!(*hc.get(1).clone(), 1);

    assert!(!hc.cache().contains_key(&2));
    assert!(!hc.cache().contains_key(&3));
    assert!(!hc.cache().contains_key(&4));
    assert!(!hc.cache().contains_key(&5));
    assert_eq!(*hc.get(5).clone(), 5);
    assert!(hc.cache().contains_key(&1));
    assert!(hc.cache().contains_key(&2));
    assert!(hc.cache().contains_key(&3));
    assert!(hc.cache().contains_key(&4));
    assert!(hc.cache().contains_key(&5));
    assert_eq!(*hc.get(5).clone(), 5);

    assert!(hc.cache().contains_key(&1));

    let mut vc = VecCache::recursive(VecFibRc);

    assert_eq!(vc.len(), 0);
    assert_eq!(*vc.get(0).clone(), 0);
    assert_eq!(vc.len(), 1);
    assert_eq!(*vc.get(0).clone(), 0);

    assert_eq!(vc.len(), 1);
    assert_eq!(*vc.get(5).clone(), 5);
    assert_eq!(vc.len(), 6);
    assert_eq!(*vc.get(5).clone(), 5);

    assert_eq!(*vc.get(3).clone(), 2);
    assert_eq!(vc.len(), 6);
}
