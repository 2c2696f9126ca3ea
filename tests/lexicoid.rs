use lexicoid::{be_bytes_minimal, lexicoid, lexicoid_from_clock, lexicoid_now, ClockError, Id, ALPHABET};
use num::bigint::BigInt;
use std::cmp::Ordering;

#[test]
fn it_works() {
    let cases = [
        (0, "22"),               // Thu Jan 01 1970 00:00:00 GMT+0000
        (100, "gk"),             // Thu Jan 01 1970 00:01:40 GMT+0000
        (10000, "6wc2"),         // Thu Jan 01 1970 02:46:40 GMT+0000
        (500000, "2ykm2"),       // Tue Jan 06 1970 18:53:20 GMT+0000
        (1700000, "5bse2"),      // Tue Jan 20 1970 16:13:20 GMT+0000
        (28000000, "2apny22"),   // Sat Nov 21 1970 01:46:40 GMT+0000
        (550000000, "6567f22"),  // Sat Jun 06 1987 17:46:40 GMT+0000
        (1550000000, "flllz22"), // Tue Feb 12 2019 19:33:20 GMT+0000
        (1654301676, "gehebv2"), // Sat Jun 04 2022 00:14:36 GMT+0000
        (1654401676, "gei4p52"), // Sun Jun 05 2022 04:01:16 GMT+0000
        (1674301676, "gj7x3v2"), // Sat Jan 21 2023 11:47:56 GMT+0000
        (1674301677, "gj7x3vc"), // Sat Jan 21 2023 11:47:57 GMT+0000
    ];

    let mut ids: Vec<Id> = cases.iter().map(|(ts, _)| lexicoid(*ts)).collect();
    ids.sort(); // sorts the results to prove that the lexico order is correct
    for (i, (ts, expected)) in cases.iter().enumerate() {
        assert_eq!(ids[i].as_str(), *expected);
        assert_eq!(ids[i].as_str(), lexicoid(*ts).as_str());
    }

    // a timestamp generated now must be greater than the latest timestamp in the test cases
    let id_now = lexicoid_now().unwrap();
    assert!(matches!(
        id_now.cmp(&(ids[ids.len() - 1])),
        std::cmp::Ordering::Greater
    ));
}

#[test]
fn zero_is_two_symbols() {
    assert_eq!(lexicoid(0).as_str(), "22");
}

#[test]
fn literal_vectors() {
    assert_eq!(lexicoid(100).as_str(), "gk");
    assert_eq!(lexicoid(10000).as_str(), "6wc2");
    assert_eq!(lexicoid(500000).as_str(), "2ykm2");
    assert_eq!(lexicoid(1700000).as_str(), "5bse2");
    assert_eq!(lexicoid(28000000).as_str(), "2apny22");
    assert_eq!(lexicoid(1654401676).as_str(), "gei4p52");
}

#[test]
fn byte_boundaries_change_length() {
    assert_eq!(lexicoid(255).as_str(), "zw");
    assert_eq!(lexicoid(256).as_str(), "2622");
    assert_eq!(lexicoid(65535).as_str(), "zzzk");
    assert_eq!(lexicoid(65536).as_str(), "26222");
}

#[test]
fn largest_timestamp() {
    let id = lexicoid(u64::MAX);
    assert_eq!(id.len(), 13);
    assert_eq!(id.as_str(), "zzzzzzzzzzzzy");
    assert!(lexicoid(u64::MAX - 1).cmp(&id) == Ordering::Less);
}

#[test]
fn symbols_stay_in_alphabet() {
    for t in [0u64, 1, 31, 32, 255, 256, 1654401676, u64::MAX / 3, u64::MAX] {
        let id = lexicoid(t);
        assert!(id.chars().all(|c| ALPHABET.contains(c)));
    }
}

#[test]
fn generating_twice_gives_the_same_text() {
    for t in [0u64, 7, 1654401676, u64::MAX] {
        assert_eq!(lexicoid(t), lexicoid(t));
        assert_eq!(lexicoid(t).as_str(), lexicoid(t).as_str());
    }
}

#[test]
fn order_follows_timestamps() {
    let ts: Vec<u64> = vec![0, 1, 2, 31, 32, 255, 256, 257, 4095, 65535, 65536, 16777215, 16777216, 1654401676, u64::MAX - 1, u64::MAX];
    for i in 0..ts.len() {
        for j in 0..ts.len() {
            let a = lexicoid(ts[i]);
            let b = lexicoid(ts[j]);
            let expected = ts[i].cmp(&ts[j]);
            assert_eq!(a.cmp(&b), expected);
            assert_eq!(Ord::cmp(&a, &b), expected);
            assert_eq!(a.partial_cmp(&b), Some(expected));
            assert_eq!(a == b, ts[i] == ts[j]);
            assert!(a.len() <= b.len() || ts[i] > ts[j]);
        }
    }
}

#[test]
fn shorter_sorts_first() {
    // "zw" is after "2622" in plain dictionary order, but shorter
    let short = lexicoid(255);
    let long = lexicoid(256);
    assert!(short.as_str() > long.as_str());
    assert_eq!(short.cmp(&long), Ordering::Less);
    assert!(short < long);
}

#[test]
fn sort_scenario() {
    let ts: Vec<u64> = vec![1674301677, 0, 28000000, 1654301676, 100, 1674301676, 500000, 10000, 1654401676, 1700000];
    let mut ids: Vec<Id> = ts.iter().map(|t| lexicoid(*t)).collect();
    ids.sort();
    let mut sorted = ts.clone();
    sorted.sort();
    for (id, t) in ids.iter().zip(sorted.iter()) {
        assert_eq!(id.as_str(), lexicoid(*t).as_str());
    }
}

#[test]
fn now_is_after_the_vectors() {
    let now = lexicoid_now().unwrap();
    for t in [0u64, 100, 1654401676, 1674301677] {
        assert_eq!(now.cmp(&lexicoid(t)), Ordering::Greater);
    }
}

#[test]
fn clock_reading_becomes_identifier() {
    assert_eq!(lexicoid_from_clock(Some(1654401676)).unwrap().as_str(), "gei4p52");
    assert!(matches!(lexicoid_from_clock(None), Err(ClockError::ClockUnavailable)));
}

#[test]
fn text_and_clone() {
    let id = lexicoid(1674301677);
    assert_eq!(id.to_string(), "gj7x3vc");
    let copy = id.clone();
    assert_eq!(copy, id);
    assert_eq!(copy.as_str(), "gj7x3vc");
}

#[test]
fn minimal_bytes_agree_with_bigint() {
    for t in [0u64, 1, 255, 256, 65535, 65536, 1654401676, 1u64 << 56, u64::MAX] {
        let expected = BigInt::from(t).to_bytes_be().1;
        assert_eq!(be_bytes_minimal(t), expected);
    }
    assert_eq!(be_bytes_minimal(0), vec![0u8]);
    assert_eq!(be_bytes_minimal(256), vec![1u8, 0]);
}
