use vechonk::Vechonk;

fn b(s: &str) -> Vec<u8> {
    s.as_bytes().to_vec()
}

#[test]
fn insert() {
    let mut chonk = Vechonk::new();
    chonk.push(b("hello"), 1);
    chonk.push(b("uwu"), 1);

    chonk.try_replace(0, b("owo"), 1).unwrap();

    assert_eq!(chonk.index(0), b"owo");
}

#[test]
fn zst_replace() {
    let mut chonk = Vechonk::new();
    chonk.push(Vec::new(), 1);
    assert_eq!(chonk.len(), 1);
    let _old = chonk.try_replace(0, Vec::new(), 1).unwrap();
    assert_eq!(chonk.len(), 1);
}

#[test]
fn empty_slice_replace() {
    let mut chonk = Vechonk::new();
    chonk.push(Vec::new(), 1);
    assert_eq!(chonk.len(), 1);
    let old = chonk.try_replace(0, Vec::new(), 1).unwrap();
    assert_eq!(chonk.len(), 1);

    drop(chonk);

    assert_eq!(old, Vec::<u8>::new());
}

#[test]
fn replace_window() {
    let mut chonk = Vechonk::new();
    chonk.push(b("first"), 1);
    chonk.push(b("mid"), 1);
    chonk.push(b("last!"), 1);

    // far larger than the three-byte gap: rejected, nothing changes
    let rejected = chonk.try_replace(1, b("much too large to fit"), 1);
    assert_eq!(rejected, Err(b("much too large to fit")));
    assert_eq!(chonk.index(1), b"mid");

    // the same size always fits; the old payload comes back out
    let displaced = chonk.try_replace(1, b("MID"), 1);
    assert_eq!(displaced, Ok(b("mid")));
    assert_eq!(chonk.index(1), b"MID");

    // the neighbours were never touched
    assert_eq!(chonk.index(0), b"first");
    assert_eq!(chonk.index(2), b"last!");
}

#[test]
fn replace_out_of_bounds() {
    let mut chonk = Vechonk::new();
    chonk.push(b("hello"), 1);

    let rejected = chonk.try_replace(3, b("owo"), 1);
    assert_eq!(rejected, Err(b("owo")));
    assert_eq!(chonk.len(), 1);
    assert_eq!(chonk.index(0), b"hello");
}

#[test]
fn replace_reuses_padding() {
    let mut chonk = Vechonk::with_capacity(96);
    chonk.push(vec![7u8], 1);
    chonk.push(8u64.to_le_bytes().to_vec(), 8);

    // the replacement may claim the padding in front of the old payload,
    // so a payload one byte longer than the old one still fits
    let displaced = chonk.try_replace(1, b("ninebytes"), 1);
    assert_eq!(displaced, Ok(8u64.to_le_bytes().to_vec()));
    assert_eq!(chonk.index(1), b"ninebytes");
    assert_eq!(chonk.index(0), &[7u8][..]);
}
