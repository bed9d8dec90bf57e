use gitignore_nuke::format::pretty_bytes;

#[test]
fn small_amounts_keep_their_digits() {
    assert_eq!(pretty_bytes(0), "0 b");
    assert_eq!(pretty_bytes(999), "999 b");
    assert_eq!(pretty_bytes(1000), "1000 b");
}

#[test]
fn scaled_amounts_carry_units() {
    assert_eq!(pretty_bytes(1001), "1 Kb");
    assert_eq!(pretty_bytes(1500), "1 Kb");
    assert_eq!(pretty_bytes(2_000_000), "2 Mb");
    assert_eq!(pretty_bytes(3_000_000_000), "3 Gb");
    assert_eq!(pretty_bytes(u64::MAX), "18 Exa");
}
