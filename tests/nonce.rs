use discord_fs::nonce_counter::NonceCounter;

#[test]
fn nonces_count_up_from_zero() {
    let mut c = NonceCounter::new();
    assert_eq!(c.get_nonce(), [0u8; 12]);
    assert_eq!(c.get_nonce(), [0u8, 0, 0, 0, 1, 0, 0, 0, 0, 0, 0, 0]);
    for _ in 0..254 {
        c.get_nonce();
    }
    assert_eq!(c.count(), 256);
    assert_eq!(c.get_nonce(), [0u8, 0, 0, 0, 0, 1, 0, 0, 0, 0, 0, 0]);
}
