use nanoid::{nanoid, nanoid_within, symbol, InfiniteRand, ALPHABET, BUFFER_SIZE};
use rand::rngs::StdRng;
use rand::{Rng, SeedableRng};

#[test]
fn test_nanoid_length() {
    let mut inf = InfiniteRand::new();

    let id = nanoid(&mut inf, 170).unwrap();

    assert_eq!(id.len(), 170);
}

#[test]
fn test_nanoid_alphabet() {
    let mut inf = InfiniteRand::new();

    let id = nanoid(&mut inf, 200).unwrap();

    // Every character in the ID must be in the ALPHABET
    for c in id.chars() {
        assert!(ALPHABET.contains(&(c as u8)));
    }
}

#[test]
fn nanoid_of_size_zero_is_empty_and_draws_nothing() {
    let mut inf = InfiniteRand::new();
    inf.next();
    let before = inf.remaining();

    let id = nanoid(&mut inf, 0);

    assert_eq!(id, Some(String::new()));
    assert_eq!(inf.remaining(), before);
}

#[test]
fn nanoid_of_size_one() {
    let mut inf = InfiniteRand::new();

    let id = nanoid(&mut inf, 1).unwrap();

    assert_eq!(id.chars().count(), 1);
    assert!(ALPHABET.contains(&(id.as_bytes()[0])));
    assert!(inf.remaining() < BUFFER_SIZE);
}

#[test]
fn nanoid_counts_characters_not_only_bytes() {
    let mut inf = InfiniteRand::new();

    let id = nanoid(&mut inf, 33).unwrap();

    assert_eq!(id.chars().count(), 33);
    assert!(id.is_ascii());
}

#[test]
fn nanoid_draws_at_least_one_byte_for_each_symbol() {
    let mut inf = InfiniteRand::new();

    let id = nanoid(&mut inf, 5).unwrap();

    assert_eq!(id.len(), 5);
    assert!(inf.remaining() <= BUFFER_SIZE - 5);
}

#[test]
fn nanoid_across_many_refills() {
    let mut inf = InfiniteRand::new();

    let id = nanoid(&mut inf, 5000).unwrap();

    assert_eq!(id.len(), 5000);
    assert!(id.bytes().all(|b| ALPHABET.contains(&b)));
}

#[test]
fn nanoid_after_the_buffer_was_used_up() {
    let mut inf = InfiniteRand::new();
    for _ in 0..(3 * BUFFER_SIZE + 17) {
        assert!(inf.next().is_some());
    }

    let id = nanoid(&mut inf, 64).unwrap();

    assert_eq!(id.len(), 64);
    assert!(id.bytes().all(|b| ALPHABET.contains(&b)));
}

#[test]
fn nanoid_starting_at_the_last_byte_of_the_buffer() {
    let mut inf = InfiniteRand::new();
    for _ in 0..(BUFFER_SIZE - 1) {
        inf.next();
    }
    assert_eq!(inf.remaining(), 1);

    let id = nanoid(&mut inf, 12).unwrap();

    assert_eq!(id.len(), 12);
    assert!(id.bytes().all(|b| ALPHABET.contains(&b)));
}

#[test]
fn two_ids_in_sequence_differ() {
    let mut inf = InfiniteRand::new();

    let first = nanoid(&mut inf, 12).unwrap();
    let second = nanoid(&mut inf, 12).unwrap();

    assert_ne!(first, second);
}

#[test]
fn a_hundred_ids_are_pairwise_distinct() {
    let mut inf = InfiniteRand::new();
    let mut ids: Vec<String> = Vec::new();
    for _ in 0..100 {
        ids.push(nanoid(&mut inf, 12).unwrap());
    }

    for i in 0..ids.len() {
        for j in (i + 1)..ids.len() {
            assert_ne!(ids[i], ids[j]);
        }
    }
}

#[test]
fn two_sources_give_different_ids() {
    let mut one = InfiniteRand::new();
    let mut other = InfiniteRand::new();

    assert_ne!(nanoid(&mut one, 24), nanoid(&mut other, 24));
}

#[test]
fn three_ids_of_five_symbols() {
    let mut inf = InfiniteRand::new();
    let mut lines: Vec<String> = Vec::new();
    for _ in 0..3 {
        lines.push(nanoid(&mut inf, 5).unwrap());
    }

    assert_eq!(lines.len(), 3);
    for line in &lines {
        assert_eq!(line.len(), 5);
        assert!(line.bytes().all(|b| ALPHABET.contains(&b)));
    }
}

#[test]
fn nanoid_within_no_draw_gives_nothing() {
    let mut inf = InfiniteRand::new();

    assert_eq!(nanoid_within(&mut inf, 3, 0), None);
    assert_eq!(inf.remaining(), BUFFER_SIZE);
}

#[test]
fn nanoid_within_too_few_draws_gives_nothing_and_uses_them_all() {
    let mut inf = InfiniteRand::new();

    assert_eq!(nanoid_within(&mut inf, 10, 4), None);
    assert_eq!(inf.remaining(), BUFFER_SIZE - 4);
}

#[test]
fn nanoid_within_size_zero_needs_no_draw() {
    let mut inf = InfiniteRand::new();

    assert_eq!(nanoid_within(&mut inf, 0, 0), Some(String::new()));
    assert_eq!(nanoid_within(&mut inf, 0, 9), Some(String::new()));
    assert_eq!(inf.remaining(), BUFFER_SIZE);
}

#[test]
fn nanoid_within_enough_draws_gives_the_id() {
    let mut inf = InfiniteRand::new();

    let id = nanoid_within(&mut inf, 20, 100_000).unwrap();

    assert_eq!(id.len(), 20);
    assert!(id.bytes().all(|b| ALPHABET.contains(&b)));
}

#[test]
fn nanoid_within_draws_no_more_than_allowed() {
    let mut inf = InfiniteRand::new();

    let id = nanoid_within(&mut inf, 200, 200);

    // 200 bytes hold 200 symbols only if none of them is rejected.
    let drawn = BUFFER_SIZE - inf.remaining();
    assert_eq!(drawn, 200);
    if let Some(id) = id {
        assert_eq!(id.len(), 200);
    }
}

#[test]
fn nanoid_stops_at_the_byte_that_completes_the_id() {
    // An identifier of 20 symbols takes 20 bytes or more, and with 236 bytes
    // waiting it never takes them all.
    let mut inf = InfiniteRand::new();
    for _ in 0..20 {
        inf.next();
    }
    let waiting = inf.remaining();

    let id = nanoid(&mut inf, 20).unwrap();

    assert_eq!(id.len(), 20);
    let drawn = waiting - inf.remaining();
    assert!(20 <= drawn && drawn < waiting);
}

#[test]
fn uniform_frequencies() {
    let mut inf = InfiniteRand::new();
    let sample = nanoid(&mut inf, 100_000).unwrap();
    let mut counts = [0u32; 58];
    for b in sample.bytes() {
        let index = ALPHABET.iter().position(|a| *a == b).unwrap();
        counts[index] += 1;
    }

    let expected: f64 = 100_000.0 / 58.0;
    let mut chi_squared: f64 = 0.0;
    for count in counts.iter() {
        let diff = f64::from(*count) - expected;
        chi_squared += diff * diff / expected;
    }

    // 57 degrees of freedom: the mean is 57 and values above 150 have a
    // probability below one in a billion.
    assert!(chi_squared < 150.0, "chi-squared is {}", chi_squared);
    assert!(counts.iter().all(|count| *count > 0));
}

fn source_over(bytes: &[u8], filler: u8, seed: u64) -> InfiniteRand {
    let mut buf = [filler; BUFFER_SIZE];
    buf[..bytes.len()].copy_from_slice(bytes);
    InfiniteRand::from_parts(StdRng::seed_from_u64(seed), buf)
}

#[test]
fn known_bytes_give_a_known_id() {
    let mut inf = source_over(&[58, 64, 57], 0, 1);

    assert_eq!(nanoid(&mut inf, 2), Some(String::from("1Z")));
    assert_eq!(inf.remaining(), BUFFER_SIZE - 3);
}

#[test]
fn the_first_58_bytes_give_the_alphabet() {
    let bytes: Vec<u8> = (0..58u8).collect();
    let mut inf = source_over(&bytes, 0, 2);

    let id = nanoid(&mut inf, 58).unwrap();

    assert_eq!(id, "123456789abcdefghijkmnopqrstuvwxyzABCDEFGHJKLMNPQRSTUVWXYZ");
    assert_eq!(inf.remaining(), BUFFER_SIZE - 58);
}

#[test]
fn symbols_keep_the_order_of_the_bytes() {
    let mut inf = source_over(&[57, 0, 9, 34, 33, 8], 0, 3);

    assert_eq!(nanoid(&mut inf, 6), Some(String::from("Z1aAz9")));
    assert_eq!(inf.remaining(), BUFFER_SIZE - 6);
}

#[test]
fn rejected_bytes_are_passed_over() {
    let mut inf = source_over(&[58, 59, 60, 61, 62, 63, 255, 122, 1, 191, 66], 0, 4);

    assert_eq!(nanoid(&mut inf, 2), Some(String::from("23")));
    assert_eq!(inf.remaining(), BUFFER_SIZE - 11);
}

#[test]
fn the_high_bits_of_a_byte_do_not_count() {
    let mut inf = source_over(&[64, 128, 192, 121, 185, 249], 0, 5);

    assert_eq!(nanoid(&mut inf, 6), Some(String::from("111ZZZ")));
}

#[test]
fn a_second_call_goes_on_where_the_first_stopped() {
    let mut inf = source_over(&[0, 1, 63, 2, 3, 63, 63, 4], 8, 6);

    assert_eq!(nanoid(&mut inf, 2), Some(String::from("12")));
    assert_eq!(inf.remaining(), BUFFER_SIZE - 2);
    assert_eq!(nanoid(&mut inf, 2), Some(String::from("34")));
    assert_eq!(inf.remaining(), BUFFER_SIZE - 5);
    assert_eq!(nanoid(&mut inf, 3), Some(String::from("599")));
    assert_eq!(inf.remaining(), BUFFER_SIZE - 10);
}

#[test]
fn size_zero_on_known_bytes_draws_nothing() {
    let mut inf = source_over(&[5, 6, 7], 0, 7);

    assert_eq!(nanoid(&mut inf, 0), Some(String::new()));
    assert_eq!(inf.remaining(), BUFFER_SIZE);
    assert_eq!(inf.next(), Some(5));
}

#[test]
fn nanoid_within_on_known_bytes() {
    let mut inf = source_over(&[63, 63, 0, 63, 1], 2, 8);

    // Two draws reach no accepted byte, and what was drawn is gone.
    assert_eq!(nanoid_within(&mut inf, 1, 2), None);
    assert_eq!(inf.remaining(), BUFFER_SIZE - 2);
    // Three draws reach two accepted bytes where three are asked for.
    assert_eq!(nanoid_within(&mut inf, 3, 3), None);
    assert_eq!(inf.remaining(), BUFFER_SIZE - 5);
    // The last draw that is allowed completes the identifier.
    assert_eq!(nanoid_within(&mut inf, 4, 4), Some(String::from("3333")));
    assert_eq!(inf.remaining(), BUFFER_SIZE - 9);
}

#[test]
fn nanoid_within_stops_at_the_completing_byte_before_its_bound() {
    let mut inf = source_over(&[10, 63, 11], 63, 9);

    assert_eq!(nanoid_within(&mut inf, 2, 200), Some(String::from("bc")));
    assert_eq!(inf.remaining(), BUFFER_SIZE - 3);
}

#[test]
fn nanoid_within_a_buffer_of_rejected_bytes() {
    let mut inf = source_over(&[], 63, 10);

    assert_eq!(nanoid_within(&mut inf, 1, 100), None);
    assert_eq!(inf.remaining(), BUFFER_SIZE - 100);
    assert_eq!(nanoid_within(&mut inf, 1, 156), None);
    assert_eq!(inf.remaining(), BUFFER_SIZE);
}

fn replay(stream: &[u8], size: usize) -> (String, usize) {
    let mut id = String::new();
    let mut draws = 0;
    while id.len() < size {
        if let Some(c) = symbol(stream[draws]) {
            id.push(c);
        }
        draws += 1;
    }
    (id, draws)
}

#[test]
fn an_id_across_refills_is_the_id_of_the_stream() {
    let mut twin = StdRng::seed_from_u64(2024);
    let mut first = [0u8; BUFFER_SIZE];
    for i in 0..BUFFER_SIZE {
        first[i] = (i * 7 % 256) as u8;
    }
    let mut stream: Vec<u8> = first.to_vec();
    for _ in 0..8 {
        let mut fill = [0u8; BUFFER_SIZE];
        twin.fill(&mut fill[..]);
        stream.extend_from_slice(&fill);
    }
    let mut inf = InfiniteRand::from_parts(StdRng::seed_from_u64(2024), first);

    let (expected, draws) = replay(&stream, 1000);
    let id = nanoid(&mut inf, 1000).unwrap();

    assert_eq!(id, expected);
    assert_eq!(inf.next(), Some(stream[draws]));
}

#[test]
fn an_id_after_a_buffer_of_rejected_bytes_comes_from_the_refill() {
    let mut twin = StdRng::seed_from_u64(77);
    let mut fill = [0u8; BUFFER_SIZE];
    twin.fill(&mut fill[..]);
    let mut inf = source_over(&[], 62, 77);

    let (expected, draws) = replay(&fill, 12);
    let id = nanoid(&mut inf, 12).unwrap();

    assert_eq!(id, expected);
    assert_eq!(inf.remaining(), BUFFER_SIZE - draws);
}

#[test]
fn an_id_that_ends_on_the_last_byte_of_the_buffer() {
    let mut twin = StdRng::seed_from_u64(5);
    let mut fill = [0u8; BUFFER_SIZE];
    twin.fill(&mut fill[..]);
    let mut inf = source_over(&[], 63, 5);
    for _ in 0..(BUFFER_SIZE - 2) {
        inf.next();
    }
    inf.refill_with({
        let mut fresh = [63u8; BUFFER_SIZE];
        fresh[254] = 0;
        fresh[255] = 57;
        fresh
    });

    assert_eq!(nanoid(&mut inf, 2), Some(String::from("1Z")));
    assert_eq!(inf.remaining(), BUFFER_SIZE);
    assert_eq!(inf.next(), Some(fill[0]));
}
