use bxenc::crypto::padding::{clamp_to_bucket, padme_len};

#[test]
fn test_padme_len() {
    // Test some known values
    assert_eq!(padme_len(0), 0);
    assert_eq!(padme_len(1), 1);
    assert_eq!(padme_len(100), 112); // e=6, s=2, step=16, ceil(100/16)*16 = 7*16 = 112
    assert_eq!(padme_len(500), 512); // e=8, s=3, step=32, ceil(500/32)*32 = 16*32 = 512
    assert_eq!(padme_len(1000), 1024); // e=9, s=3, step=64, ceil(1000/64)*64 = 16*64 = 1024
    assert_eq!(padme_len(1500), 1536); // e=10, s=3, step=128, ceil(1500/128)*128 = 12*128 = 1536
}

#[test]
fn test_clamp_to_bucket() {
    assert_eq!(clamp_to_bucket(10), 256);
    assert_eq!(clamp_to_bucket(256), 256);
    assert_eq!(clamp_to_bucket(257), 512);
    assert_eq!(clamp_to_bucket(1000), 1024);
    assert_eq!(clamp_to_bucket(1025), 2048);
    assert_eq!(clamp_to_bucket(3000), 4096);
    assert_eq!(clamp_to_bucket(5000), padme_len(5000));
}

#[test]
fn padme_len_never_shrinks_and_lands_on_its_grid() {
    for len in 1..5000usize {
        let padded = padme_len(len);
        assert!(padded >= len);
        let e = usize::BITS - 1 - len.leading_zeros();
        let s = usize::BITS - 1 - ((e + 1) as usize).leading_zeros();
        let step = 1usize << (e - s);
        assert_eq!(padded % step, 0);
        assert!(padded < len + step);
    }
}

#[test]
fn padme_len_of_powers_of_two_is_exact() {
    for k in 0..40u32 {
        assert_eq!(padme_len(1usize << k), 1usize << k);
    }
}

#[test]
fn padme_len_large_value() {
    // e = 20, s = 4, step = 2^16
    assert_eq!(padme_len(1_048_577), 1_114_112);
}

#[test]
fn clamp_to_bucket_edges() {
    assert_eq!(clamp_to_bucket(0), 256);
    assert_eq!(clamp_to_bucket(512), 512);
    assert_eq!(clamp_to_bucket(513), 1024);
    assert_eq!(clamp_to_bucket(2048), 2048);
    assert_eq!(clamp_to_bucket(4096), 4096);
    assert_eq!(clamp_to_bucket(4097), padme_len(4097));
    assert_eq!(clamp_to_bucket(4097), 4608); // e=12, s=3, step=512, 9*512
}

#[test]
fn padding_twice_changes_nothing() {
    for len in [0usize, 1, 7, 100, 255, 256, 257, 4096, 4097, 5000, 65_537, 1 << 20] {
        assert_eq!(padme_len(padme_len(len)), padme_len(len));
        assert_eq!(clamp_to_bucket(clamp_to_bucket(len)), clamp_to_bucket(len));
    }
}

#[test]
fn padding_keeps_order() {
    let mut previous_padme = 0;
    let mut previous_bucket = 0;
    for len in 0..20_000usize {
        let padded = padme_len(len);
        let bucket = clamp_to_bucket(len);
        assert!(padded >= previous_padme, "{len}");
        assert!(bucket >= previous_bucket, "{len}");
        previous_padme = padded;
        previous_bucket = bucket;
    }
}
