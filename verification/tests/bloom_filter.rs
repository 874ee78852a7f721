use bloom_filter::BloomError;
use bloom_filter::BloomFilter;
use bloom_filter::Param;

fn dict() -> Vec<&'static str> {
    vec![
        "Hochelaga",
        "anthropologist",
        "archantagonist",
        "assenting",
        "costectomy",
        "isleted",
        "raash",
        "repossession",
        "toffing",
        "uncriticising",
    ]
}

#[test]
fn bloom_filter_with_k() {
    let w0 = "costectomy";
    let w1 = "foo";

    let mut bloom_filter = BloomFilter::new(Param::NumOfHash(5), 50).unwrap();
    for w in dict() {
        bloom_filter.add(w);
    }

    assert!(bloom_filter.maybe_exist(w0));
    assert!(!bloom_filter.maybe_exist(w1));
}

#[test]
fn bloom_filter_without_k() {
    let w0 = "costectomy";
    let w1 = "foo";

    let mut bloom_filter = BloomFilter::new(Param::Prob(1, 100), 50).unwrap();
    for w in dict() {
        bloom_filter.add(w);
    }

    assert!(bloom_filter.maybe_exist(w0));
    assert!(!bloom_filter.maybe_exist(w1));
}

#[test]
fn construction_rejects_zero_hashes() {
    assert_eq!(
        BloomFilter::new(Param::NumOfHash(0), 50).err(),
        Some(BloomError::InvalidParameter)
    );
}

#[test]
fn construction_rejects_zero_bits() {
    assert_eq!(
        BloomFilter::new(Param::NumOfHash(3), 0).err(),
        Some(BloomError::InvalidParameter)
    );
    assert_eq!(
        BloomFilter::new(Param::Prob(1, 100), 0).err(),
        Some(BloomError::InvalidParameter)
    );
}

#[test]
fn construction_rejects_bad_probability() {
    // p == 0
    assert_eq!(
        BloomFilter::new(Param::Prob(0, 5), 50).err(),
        Some(BloomError::InvalidParameter)
    );
    // p == 1
    assert_eq!(
        BloomFilter::new(Param::Prob(5, 5), 50).err(),
        Some(BloomError::InvalidParameter)
    );
    // p > 1
    assert_eq!(
        BloomFilter::new(Param::Prob(7, 5), 50).err(),
        Some(BloomError::InvalidParameter)
    );
    // zero denominator
    assert_eq!(
        BloomFilter::new(Param::Prob(5, 0), 50).err(),
        Some(BloomError::InvalidParameter)
    );
}

#[test]
fn construction_rejects_probability_that_rounds_to_zero_hashes() {
    // round(-log2(3/4)) == round(0.415) == 0, a degenerate hash count.
    assert_eq!(
        BloomFilter::new(Param::Prob(3, 4), 50).err(),
        Some(BloomError::InvalidParameter)
    );
}

#[test]
fn derived_hash_count_matches_rounded_log2() {
    // round(-log2(p)) for p = 1/100 is round(6.64) = 7.
    let cases: Vec<(u32, u32, usize)> = vec![
        (1, 100, 7),
        (1, 2, 1),
        (1, 3, 2),
        (2, 3, 1),
        (1, 1024, 10),
    ];
    for (num, den, expected) in cases {
        let f = BloomFilter::new(Param::Prob(num, den), 50).unwrap();
        assert_eq!(f.num_hashes(), expected);
    }
}

#[test]
fn empty_filter_contains_nothing() {
    let f = BloomFilter::new(Param::NumOfHash(5), 50).unwrap();
    for w in ["", "foo", "costectomy", "Hochelaga", "anything at all"] {
        assert!(!f.maybe_exist(w));
    }
}

#[test]
fn added_keys_are_always_found() {
    let mut f = BloomFilter::new(Param::NumOfHash(5), 50).unwrap();
    for w in dict() {
        f.add(w);
        // Found immediately...
        assert!(f.maybe_exist(w));
    }
    // ...and still found after every other addition.
    for w in dict() {
        assert!(f.maybe_exist(w));
    }
}

#[test]
fn repeated_queries_agree() {
    let mut f = BloomFilter::new(Param::NumOfHash(3), 30).unwrap();
    f.add("costectomy");
    for w in ["costectomy", "foo", "bar", ""] {
        let first = f.maybe_exist(w);
        for _ in 0..10 {
            assert_eq!(f.maybe_exist(w), first);
        }
    }
}

#[test]
fn results_only_flip_false_to_true() {
    let probes = ["foo", "bar", "baz", "qux", "costectomy", "raash"];
    let mut f = BloomFilter::new(Param::NumOfHash(5), 50).unwrap();
    let mut seen: Vec<bool> = probes.iter().map(|w| f.maybe_exist(w)).collect();
    for w in dict() {
        f.add(w);
        for (i, p) in probes.iter().enumerate() {
            let now = f.maybe_exist(p);
            // Never true -> false.
            assert!(now || !seen[i]);
            seen[i] = now;
        }
    }
}

#[test]
fn small_filter_scenario() {
    let mut f = BloomFilter::new(Param::NumOfHash(3), 30).unwrap();
    for w in dict() {
        f.add(w);
    }
    assert!(f.maybe_exist("costectomy"));
    // Held-out words; each happens to miss at least one bit here.
    for w in ["foo", "bar", "qux", "hello", "world", "filter"] {
        assert!(!f.maybe_exist(w));
    }
}

#[test]
fn probability_scenario() {
    let mut f = BloomFilter::new(Param::Prob(1, 100), 50).unwrap();
    assert_eq!(f.num_hashes(), 7);
    for w in dict() {
        f.add(w);
    }
    for w in dict() {
        assert!(f.maybe_exist(w));
    }
    for w in ["foo", "bar", "baz", "qux", "hello", "world"] {
        assert!(!f.maybe_exist(w));
    }
}

#[test]
fn adding_twice_changes_nothing() {
    let probes = ["foo", "bar", "costectomy", "raash"];
    let mut f = BloomFilter::new(Param::NumOfHash(5), 50).unwrap();
    for w in dict() {
        f.add(w);
    }
    let before: Vec<bool> = probes.iter().map(|w| f.maybe_exist(w)).collect();
    f.add("costectomy");
    f.add("costectomy");
    let after: Vec<bool> = probes.iter().map(|w| f.maybe_exist(w)).collect();
    assert_eq!(before, after);
    assert!(f.maybe_exist("costectomy"));
}

#[test]
fn non_ascii_keys_work() {
    let mut f = BloomFilter::new(Param::NumOfHash(4), 64).unwrap();
    f.add("café au lait");
    f.add("日本語");
    assert!(f.maybe_exist("café au lait"));
    assert!(f.maybe_exist("日本語"));
}
