use vechonk::Vechonk;

fn b(s: &str) -> Vec<u8> {
    s.as_bytes().to_vec()
}

#[test]
fn new() {
    let chonk = Vechonk::new();
    assert_eq!(chonk.len(), 0);
}

#[test]
fn default() {
    let chonk = Vechonk::default();
    assert_eq!(chonk.len(), 0);
}

#[test]
fn zero_capacity() {
    let chonk = Vechonk::with_capacity(0);

    assert_eq!(chonk.len(), 0);
}

#[test]
fn some_capacity() {
    let chonk = Vechonk::with_capacity(96);

    assert_eq!(chonk.len(), 0);
}

#[test]
fn push_single_sized_elem() {
    let mut chonk = Vechonk::with_capacity(96);

    chonk.push(vec![1u8], 1);

    assert_eq!(chonk.len(), 1);
}

#[test]
fn push_single_unsized_elem() {
    let mut chonk = Vechonk::with_capacity(96);

    chonk.push(b("hello"), 1);

    assert_eq!(chonk.len(), 1);
}

#[test]
fn push_two_sized_elem() {
    let mut chonk = Vechonk::with_capacity(96);

    chonk.push(vec![1u8], 1);
    chonk.push(vec![2u8], 1);

    assert_eq!(chonk.len(), 2);
    assert_eq!(chonk.raw.elem_size, 2);
    assert_eq!(chonk.raw.data_section_size(), 16 * 2); // two records
}

#[test]
fn push_two_unsized_elem() {
    let mut chonk = Vechonk::with_capacity(96);

    chonk.push(b("hello"), 1);
    chonk.push(b("uwu"), 1);

    assert_eq!(chonk.len(), 2);
    assert_eq!(chonk.raw.elem_size, 8);
    assert_eq!(chonk.raw.data_section_size(), 8 * 4); // two offsets + lengths
}

#[test]
fn index() {
    let mut chonk = Vechonk::with_capacity(96);

    chonk.push(b("hello"), 1);
    chonk.push(b("uwu"), 1);

    let hello = chonk.index(0);
    let uwu = chonk.index(1);

    assert_eq!(hello, b"hello");
    assert_eq!(uwu, b"uwu");
}

#[test]
fn grow_from_empty() {
    let mut chonk = Vechonk::new();

    assert_eq!(chonk.len(), 0);

    chonk.push(b("hello"), 1);
    chonk.push(b("uwu"), 1);

    let hello = chonk.index(0);
    let uwu = chonk.index(1);

    assert_eq!(hello, b"hello");
    assert_eq!(uwu, b"uwu");

    assert_eq!(chonk.len(), 2);
}

#[test]
fn grow_from_alloc() {
    let mut chonk = Vechonk::with_capacity(32);

    assert_eq!(chonk.len(), 0);

    chonk.push(b("hello"), 1);
    chonk.push(b("uwu"), 1);

    let hello = chonk.index(0);
    let uwu = chonk.index(1);

    assert_eq!(hello, b"hello");
    assert_eq!(uwu, b"uwu");

    assert_eq!(chonk.len(), 2);
}

#[test]
fn push_alignment() {
    let mut chonk = Vechonk::with_capacity(4096);

    chonk.push(vec![5u8], 2048); // a payload with a large alignment
    chonk.push(vec![0u8], 1);
    chonk.push(1u64.to_le_bytes().to_vec(), 8);

    let _ = chonk.index(0);
    let _ = chonk.index(1);
}

#[test]
fn grow_alignment() {
    let mut chonk = Vechonk::with_capacity(32);

    chonk.push(vec![0u8], 1);
    chonk.push(1u64.to_le_bytes().to_vec(), 8);
    chonk.push(0u128.to_le_bytes().to_vec(), 16);
    chonk.push(vec![5u8], 2048);
    chonk.push(8u128.to_le_bytes().to_vec(), 16);
    chonk.push(b("dsajkfhdsajklfdskla\u{f6}fjdkls\u{f6}jfkldsfjlkds"), 1);
    chonk.push(4u128.to_le_bytes().to_vec(), 16);
    chonk.push(5u128.to_le_bytes().to_vec(), 16);
    chonk.push(vec![5u8], 2048);
    chonk.push(6u128.to_le_bytes().to_vec(), 16);
    chonk.push(3u128.to_le_bytes().to_vec(), 16);

    let _ = chonk.index(0);
    let _ = chonk.index(1);
}

#[test]
fn popping() {
    let mut chonk = Vechonk::with_capacity(512);

    chonk.push(b("hello"), 1);
    chonk.push(b("uwu"), 1);
    chonk.push(b("I'm popping off!"), 1);

    let popping = chonk.pop().unwrap();
    let uwu = chonk.pop().unwrap();
    let hello = chonk.pop().unwrap();
    let end = chonk.pop();

    assert_eq!(popping, b("I'm popping off!"));
    assert_eq!(uwu, b("uwu"));
    assert_eq!(hello, b("hello"));
    assert_eq!(end, None);
}

#[test]
fn zst_with_capacity() {
    let _ = Vechonk::with_capacity(96);
}

#[test]
fn zst_push() {
    let mut chonk = Vechonk::with_capacity(96);
    chonk.push(Vec::new(), 1);

    assert_eq!(chonk.len(), 1);
}

#[test]
fn zst_realloc() {
    let mut chonk = Vechonk::new();
    chonk.push(Vec::new(), 1);
    assert_eq!(chonk.len(), 1);
}

#[test]
fn get() {
    let mut chonk = Vechonk::new();
    chonk.push(b("hello"), 1);
    chonk.push(b("uwu"), 1);

    assert_eq!(chonk.get(0), Some(&b"hello"[..]));
    assert_eq!(chonk.get(1), Some(&b"uwu"[..]));
    assert_eq!(chonk.get(2), None);
}

#[test]
fn alignment_padding() {
    let mut chonk = Vechonk::with_capacity(96);

    chonk.push(vec![1u8], 1);
    chonk.push(2u64.to_le_bytes().to_vec(), 8);

    // one byte, seven bytes of padding, then the eight-byte payload
    assert_eq!(chonk.raw.elem_size, 16);
    assert_eq!(chonk.index(0), &[1u8][..]);
    assert_eq!(chonk.index(1), 2u64.to_le_bytes());
}

#[test]
fn round_trip_scenario() {
    let mut chonk = Vechonk::new();

    chonk.push(b("hello"), 1);
    chonk.push(b("uwu"), 1);

    assert_eq!(chonk.len(), 2);
    assert_eq!(chonk.index(0), b"hello");
    assert_eq!(chonk.index(1), b"uwu");

    assert_eq!(chonk.pop(), Some(b("uwu")));
    assert_eq!(chonk.pop(), Some(b("hello")));
    assert_eq!(chonk.pop(), None);
}

#[test]
fn growth_preserves_content() {
    let mut chonk = Vechonk::with_capacity(16);

    let mut values: Vec<Vec<u8>> = Vec::new();
    for i in 0..12u8 {
        let value: Vec<u8> = (0..(3 * i as usize + 1)).map(|k| (k as u8).wrapping_add(i)).collect();
        values.push(value.clone());
        chonk.push(value, 1);
    }

    assert_eq!(chonk.len(), values.len());
    for (i, value) in values.iter().enumerate() {
        assert_eq!(chonk.index(i), &value[..]);
    }
}
