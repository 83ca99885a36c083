use vechonk::Vechonk;

fn b(s: &str) -> Vec<u8> {
    s.as_bytes().to_vec()
}

fn num(x: u64) -> Vec<u8> {
    x.to_le_bytes().to_vec()
}

fn value_at(chonk: &Vechonk, i: usize) -> u64 {
    u64::from_le_bytes(chonk.index(i).try_into().unwrap())
}

#[test]
fn iter() {
    let mut chonk = Vechonk::new();
    chonk.push(b("hello"), 1);
    chonk.push(b("uwu"), 1);
    let mut iter = chonk.iter();

    assert_eq!(iter.next(), Some(b("hello")));
    assert_eq!(iter.next(), Some(b("uwu")));
    assert_eq!(iter.next(), None);
}

#[test]
fn into_iter() {
    let mut chonk = Vechonk::new();
    chonk.push(b("hello"), 1);
    chonk.push(b("uwu"), 1);

    let mut iter = chonk.into_iter();

    assert_eq!(iter.next(), Some(b("hello")));
    assert_eq!(iter.next(), Some(b("uwu")));
    assert_eq!(iter.next(), None);
}

#[test]
fn iter_mut() {
    let mut chonk = Vechonk::new();
    chonk.push(num(1), 8);
    chonk.push(num(2), 8);
    chonk.push(num(3), 8);

    let mut iter = chonk.iter_mut();
    while let Some(i) = iter.next() {
        let decremented = value_at(&chonk, i) - 1;
        chonk.try_replace(i, num(decremented), 8).unwrap();
    }

    let mut read = chonk.iter();
    let mut i: u64 = 0;
    while let Some(elem) = read.next() {
        assert_eq!(u64::from_le_bytes(elem.as_slice().try_into().unwrap()), i);
        i += 1;
    }
    assert_eq!(i, 3);
}

#[test]
fn iter_sizes() {
    let mut chonk = Vechonk::new();
    chonk.push(b("hello"), 1);
    chonk.push(b("uwu"), 1);
    chonk.push(b("owo"), 1);

    let iter = chonk.iter();
    assert_eq!(iter.size_hint(), (3, Some(3)));
    assert_eq!(iter.len(), 3);

    let iter = chonk.iter_mut();
    assert_eq!(iter.size_hint(), (3, Some(3)));
    assert_eq!(iter.len(), 3);

    let iter = chonk.into_iter();
    assert_eq!(iter.size_hint(), (3, Some(3)));
    assert_eq!(iter.len(), 3);
}

#[test]
fn index_mut() {
    let mut chonk = Vechonk::new();
    chonk.push(num(1), 8);
    chonk.push(num(2), 8);
    chonk.push(num(3), 8);

    let decremented = value_at(&chonk, 2) - 1;
    chonk.try_replace(2, num(decremented), 8).unwrap();

    assert_eq!(value_at(&chonk, 2), 2);
}

#[test]
fn consuming_yields_all() {
    let mut chonk = Vechonk::with_capacity(8);
    chonk.push(b("one"), 1);
    chonk.push(b("two"), 1);
    chonk.push(b("three"), 1);

    let expected = [b("one"), b("two"), b("three")];
    let count = chonk.len();
    assert_eq!(count, expected.len());

    let mut iter = chonk.into_iter();
    for value in expected.iter() {
        assert_eq!(iter.next().as_ref(), Some(value));
    }
    assert_eq!(iter.next(), None);
    assert_eq!(iter.len(), 0);
}
