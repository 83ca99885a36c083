use std::cmp::Ordering;
use std::collections::hash_map::DefaultHasher;
use std::hash::{Hash, Hasher};
use vechonk::Vechonk;

fn b(s: &str) -> Vec<u8> {
    s.as_bytes().to_vec()
}

fn f(x: f32) -> Vec<u8> {
    x.to_le_bytes().to_vec()
}

fn n(x: u64) -> Vec<u8> {
    x.to_le_bytes().to_vec()
}

fn hash_of<H: Hash>(h: H) -> u64 {
    let mut hasher = DefaultHasher::new();
    h.hash(&mut hasher);
    hasher.finish()
}

#[test]
fn partial_eq_eq() {
    let mut chonk1 = Vechonk::new();
    chonk1.push(f(235.0), 4);
    chonk1.push(f(325.8), 4);
    let mut chonk2 = Vechonk::new();
    chonk2.push(f(235.0), 4);
    chonk2.push(f(325.8), 4);

    assert!(chonk1.eq(&chonk2));
}

#[test]
fn partial_eq_ne() {
    let mut chonk1 = Vechonk::new();
    chonk1.push(f(235.0), 4);
    chonk1.push(f(325.9), 4);
    let mut chonk2 = Vechonk::new();
    chonk2.push(f(235.0), 4);
    chonk2.push(f(325.8), 4);

    assert!(!chonk1.eq(&chonk2));
}

#[test]
fn eq_eq() {
    let mut chonk1 = Vechonk::new();
    chonk1.push(b("hello"), 1);
    chonk1.push(b("uwu"), 1);
    let mut chonk2 = Vechonk::new();
    chonk2.push(b("hello"), 1);
    chonk2.push(b("uwu"), 1);

    assert!(chonk1.eq(&chonk2));
}

#[test]
fn eq_ne() {
    let mut chonk1 = Vechonk::new();
    chonk1.push(b("hello"), 1);
    chonk1.push(b("uwu"), 1);
    let mut chonk2 = Vechonk::new();
    chonk2.push(b("hewwo"), 1);
    chonk2.push(b("owo"), 1);

    assert!(!chonk1.eq(&chonk2));
}

#[test]
fn eq_prefix_ne() {
    let mut chonk1 = Vechonk::new();
    chonk1.push(b("hello"), 1);
    let mut chonk2 = Vechonk::new();
    chonk2.push(b("hello"), 1);
    chonk2.push(b("uwu"), 1);

    assert!(!chonk1.eq(&chonk2));
    assert!(!chonk2.eq(&chonk1));
}

#[test]
fn partial_ord() {
    let mut chonk1 = Vechonk::new();
    chonk1.push(n(4), 8);
    chonk1.push(n(2), 8);
    let mut chonk2 = Vechonk::new();
    chonk2.push(n(4), 8);
    chonk2.push(n(3), 8);

    assert_eq!(chonk1.partial_cmp(&chonk2), Some(Ordering::Less));
}

#[test]
fn ord() {
    let mut chonk1 = Vechonk::new();
    chonk1.push(n(4), 8);
    chonk1.push(n(2), 8);
    let mut chonk2 = Vechonk::new();
    chonk2.push(n(4), 8);
    chonk2.push(n(3), 8);

    assert_eq!(chonk1.cmp(&chonk2), Ordering::Less);
}

#[test]
fn shorter_prefix_is_less() {
    let mut chonk1 = Vechonk::new();
    chonk1.push(b("hello"), 1);
    let mut chonk2 = Vechonk::new();
    chonk2.push(b("hello"), 1);
    chonk2.push(b("uwu"), 1);

    assert_eq!(chonk1.cmp(&chonk2), Ordering::Less);
    assert_eq!(chonk2.cmp(&chonk1), Ordering::Greater);
    assert_eq!(chonk1.cmp(&chonk1), Ordering::Equal);
}

#[test]
fn hash() {
    let mut chonk1 = Vechonk::new();
    chonk1.push(b("hello"), 1);
    chonk1.push(b("uwu"), 1);
    let mut chonk2 = Vechonk::new();
    chonk2.push(b("hello"), 1);
    chonk2.push(b("uwu"), 1);

    assert_eq!(hash_of(chonk1), hash_of(chonk2));
}
