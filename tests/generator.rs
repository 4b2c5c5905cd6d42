use snowflake::{shuffle, Lcg64Xsh32, Pcg32, Snowflake};

#[test]
fn test_pcg32() {
    let mut rng = Pcg32::default();
    let a = rng.next_u32();
    let b = rng.next_u32();
    println!("{:?}", a);
    println!("{:?}", b);
    assert_ne!(a, b);
}

#[test]
fn test_gen_snowflake_id() {
    let mut snowflake = Snowflake::new();
    let a = snowflake.next().unwrap();
    let b = snowflake.next().unwrap();
    println!("{:x}", a);
    println!("{:x}", b);
    assert_ne!(a, b);
}

#[test]
fn test_sort() {
    const N: usize = 10;
    let mut snowflake = Snowflake::new();
    let mut arr: Vec<u64> = vec![0u64; N];

    for idx in 0..N {
        arr[idx] = snowflake.next().unwrap();
        println!("{}, {:x}", idx + 1, arr[idx]);
    }

    let mut shuffled = arr.clone();
    println!("shuffle");
    shuffle(&mut shuffled);
    for idx in 0..N {
        println!("{}, {:x}", idx + 1, shuffled[idx]);
    }

    println!("sort");
    shuffled.sort();
    for idx in 0..N {
        println!("{}, {:x}, {:x}", idx + 1, arr[idx], shuffled[idx]);
        assert_eq!(arr[idx], shuffled[idx]);
    }
}

#[test]
fn default_first_outputs_are_pinned() {
    let mut rng = Pcg32::default();
    let got: Vec<u32> = (0..5).map(|_| rng.next_u32()).collect();
    assert_eq!(got, vec![676697322, 420258633, 3418632178, 3595600211, 3265791279]);
}

#[test]
fn seeded_outputs_match_published_vector() {
    let mut rng = Lcg64Xsh32::new(42, 54);
    let got: Vec<u32> = (0..6).map(|_| rng.next_u32()).collect();
    assert_eq!(
        got,
        vec![0xa15c02b7, 0x7b47f409, 0xba1d3330, 0x83d2f293, 0xbfa4784b, 0xcbed606e]
    );
}

#[test]
fn two_default_generators_agree() {
    let mut a = Pcg32::default();
    let mut b = Pcg32::default();
    for _ in 0..1000 {
        assert_eq!(a.next_u32(), b.next_u32());
    }
}

#[test]
fn consecutive_default_outputs_differ() {
    let mut rng = Pcg32::default();
    let mut prev = rng.next_u32();
    for _ in 0..10_000 {
        let cur = rng.next_u32();
        assert_ne!(prev, cur);
        prev = cur;
    }
}

#[test]
fn first_default_output_not_repeated_in_ten_thousand_draws() {
    let mut rng = Pcg32::default();
    let first = rng.next_u32();
    for _ in 1..10_000 {
        assert_ne!(rng.next_u32(), first);
    }
}

#[test]
fn stream_top_bit_is_discarded() {
    let mut a = Lcg64Xsh32::new(7, 3);
    let mut b = Lcg64Xsh32::new(7, 3 | (1u64 << 63));
    for _ in 0..100 {
        assert_eq!(a.next_u32(), b.next_u32());
    }
}

#[test]
fn distinct_streams_differ() {
    let mut a = Lcg64Xsh32::new(7, 3);
    let mut b = Lcg64Xsh32::new(7, 4);
    let xs: Vec<u32> = (0..8).map(|_| a.next_u32()).collect();
    let ys: Vec<u32> = (0..8).map(|_| b.next_u32()).collect();
    assert_ne!(xs, ys);
}
