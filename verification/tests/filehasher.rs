use rustwav::filehasher::FileHasher;

#[test]
fn hasher_writes_take_all_bytes() {
    let mut h = FileHasher::new();
    assert_eq!(h.write(&[1, 2, 3]), 3);
    assert_eq!(h.write(&[]), 0);
}

#[test]
fn hasher_is_deterministic() {
    let mut a = FileHasher::new();
    let mut b = FileHasher::new();
    a.write(b"hello");
    b.write(b"hello");
    assert_eq!(a.finish(), b.finish());
    let mut c = FileHasher::new();
    c.write(b"world");
    assert_ne!(a.finish(), c.finish());
}

#[test]
fn hashers_fed_the_same_runs_agree() {
    let mut a = FileHasher::new();
    let mut b = FileHasher::default();
    for run in [&b"ab"[..], &b""[..], &b"cde"[..]] {
        assert_eq!(a.write(run), run.len());
        assert_eq!(b.write(run), run.len());
    }
    assert_eq!(a.finish(), b.finish());
}
