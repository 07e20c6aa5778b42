use stark17::channel::Channel;

// Get a few random elements and make sure they're different
#[test]
fn test_random_element() {
    let mut channel = Channel::new();

    let r1 = channel.random_element();
    let r2 = channel.random_element();
    let r3 = channel.random_element();

    assert_ne!(r1, r2);
    assert_ne!(r2, r3);
}

#[test]
fn channel_determinism() {
    // two channels fed identical commitments give identical draws
    let commitment_a = vec![7u8; 32];
    let commitment_b = vec![9u8; 32];

    let mut first = Channel::new();
    first.commit(commitment_a.clone());
    first.commit(commitment_b.clone());

    let mut second = Channel::new();
    second.commit(commitment_a);
    second.commit(commitment_b);

    assert_eq!(first.random_element(), second.random_element());
    assert_eq!(first.random_integer(6), second.random_integer(6));
}

#[test]
fn channel_diverges_on_different_commitments() {
    let mut first = Channel::new();
    first.commit(vec![7u8; 32]);

    let mut second = Channel::new();
    second.commit(vec![8u8; 32]);

    // a draw in [0, 251) almost surely differs once the transcripts differ
    assert_ne!(first.random_integer(251), second.random_integer(251));
}

#[test]
fn channel_integer_in_range() {
    let mut channel = Channel::new();
    for _ in 0..10 {
        let r = channel.random_integer(6);
        assert!(r < 6);
    }
}

#[test]
fn channel_finalize_returns_commitments() {
    let commitment = vec![5u8; 32];
    let mut channel = Channel::new();
    channel.commit(commitment.clone());

    let commitments = channel.finalize();
    assert_eq!(commitments, vec![commitment]);
}
