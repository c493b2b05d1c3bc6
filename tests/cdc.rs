use chunk_locker::cdc::{cut_window, logarithm2};
use chunk_locker::chunker::{Normalization, StreamCdcFactory};
use chunk_locker::consts::{GEAR, MASKS};

#[test]
fn test_logarithm2() {
    assert_eq!(logarithm2(0), 0);
    assert_eq!(logarithm2(1), 0);
    assert_eq!(logarithm2(2), 1);
    assert_eq!(logarithm2(3), 2);
    assert_eq!(logarithm2(5), 2);
    assert_eq!(logarithm2(6), 3);
    assert_eq!(logarithm2(11), 3);
    assert_eq!(logarithm2(12), 4);
    assert_eq!(logarithm2(19), 4);
    assert_eq!(logarithm2(64), 6);
    assert_eq!(logarithm2(128), 7);
    assert_eq!(logarithm2(256), 8);
    assert_eq!(logarithm2(512), 9);
    assert_eq!(logarithm2(1024), 10);
    assert_eq!(logarithm2(16383), 14);
    assert_eq!(logarithm2(16384), 14);
    assert_eq!(logarithm2(16385), 14);
    assert_eq!(logarithm2(32767), 15);
    assert_eq!(logarithm2(32768), 15);
    assert_eq!(logarithm2(32769), 15);
    assert_eq!(logarithm2(65535), 16);
    assert_eq!(logarithm2(65536), 16);
    assert_eq!(logarithm2(65537), 16);
    assert_eq!(logarithm2(1_048_575), 20);
    assert_eq!(logarithm2(1_048_576), 20);
    assert_eq!(logarithm2(1_048_577), 20);
    assert_eq!(logarithm2(4_194_303), 22);
    assert_eq!(logarithm2(4_194_304), 22);
    assert_eq!(logarithm2(4_194_305), 22);
    assert_eq!(logarithm2(16_777_215), 24);
    assert_eq!(logarithm2(16_777_216), 24);
    assert_eq!(logarithm2(16_777_217), 24);
}

#[test]
fn logarithm2_powers_of_two_and_neighbours() {
    for k in 2..32u32 {
        let p = 1u32 << k;
        assert_eq!(logarithm2(p), k);
        assert_eq!(logarithm2(p - 1), k);
        assert_eq!(logarithm2(p + 1), k);
    }
    assert_eq!(logarithm2(u32::MAX), 32);
    // the rounding boundary lies at 2^(k + 1/2)
    assert_eq!(logarithm2(181), 7);
    assert_eq!(logarithm2(182), 8);
    assert_eq!(logarithm2(46340), 15);
    assert_eq!(logarithm2(46341), 16);
}

#[test]
fn logarithm2_matches_rounded_float_log() {
    let mut v: u32 = 1;
    while v < 1 << 24 {
        let expected = (v as f64).log2().round() as u32;
        assert_eq!(logarithm2(v), expected, "value {v}");
        v = v + 1 + v / 97;
    }
}

#[test]
fn test_masks() {
    let f = StreamCdcFactory::new(64, 256, 1024);
    assert_eq!(f.config().mask_l, MASKS[7]);
    assert_eq!(f.config().mask_s, MASKS[9]);
    let f = StreamCdcFactory::new(8192, 16384, 32768);
    assert_eq!(f.config().mask_l, MASKS[13]);
    assert_eq!(f.config().mask_s, MASKS[15]);
    let f = StreamCdcFactory::new(1_048_576, 4_194_304, 16_777_216);
    assert_eq!(f.config().mask_l, MASKS[21]);
    assert_eq!(f.config().mask_s, MASKS[23]);
}

#[test]
fn masks_by_level_and_shifted_masks() {
    assert_eq!(Normalization::Level0.masks(16384), (MASKS[14], MASKS[14]));
    assert_eq!(Normalization::Level2.masks(16384), (MASKS[16], MASKS[12]));
    assert_eq!(Normalization::Level3.masks(16384), (MASKS[17], MASKS[11]));
    let f = StreamCdcFactory::with_level(4096, 16384, 65535, Normalization::Level3);
    let c = f.config();
    assert_eq!(c.mask_s_ls, MASKS[17] << 1);
    assert_eq!(c.mask_l_ls, MASKS[11] << 1);
    assert_eq!((c.min_size, c.avg_size, c.max_size), (4096, 16384, 65535));
    assert_eq!(f.max_size(), 65535);
    assert!(Normalization::default() == Normalization::Level1);
}

#[test]
#[should_panic]
fn test_minimum_too_low() {
    StreamCdcFactory::try_with_level(63, 256, 1024, Normalization::Level1).expect("minimum too small");
}

#[test]
#[should_panic]
fn test_minimum_too_high() {
    StreamCdcFactory::try_with_level(67_108_867, 256, 1024, Normalization::Level1)
        .expect("minimum too large");
}

#[test]
#[should_panic]
fn test_average_too_low() {
    StreamCdcFactory::try_with_level(64, 255, 1024, Normalization::Level1).expect("average too small");
}

#[test]
#[should_panic]
fn test_average_too_high() {
    StreamCdcFactory::try_with_level(64, 268_435_457, 1024, Normalization::Level1)
        .expect("average too large");
}

#[test]
#[should_panic]
fn test_maximum_too_low() {
    StreamCdcFactory::try_with_level(64, 256, 1023, Normalization::Level1).expect("maximum too small");
}

#[test]
#[should_panic]
fn test_maximum_too_high() {
    StreamCdcFactory::try_with_level(64, 256, 1_073_741_825, Normalization::Level1)
        .expect("maximum too large");
}

#[test]
fn range_validation_each_bound() {
    let ok = |min, avg, max| StreamCdcFactory::try_with_level(min, avg, max, Normalization::Level1).is_some();
    assert!(!ok(63, 256, 1024));
    assert!(!ok(67_108_867, 268_435_456, 1_073_741_824));
    assert!(!ok(64, 255, 1024));
    assert!(!ok(64, 268_435_457, 1_073_741_824));
    assert!(!ok(64, 256, 1023));
    assert!(!ok(64, 256, 1_073_741_825));
    // min above avg, avg above max
    assert!(!ok(4096, 2048, 65536));
    assert!(!ok(64, 4096, 2048));
    // the smallest and some ordinary accepted configurations
    assert!(ok(64, 256, 1024));
    assert!(ok(4096, 16384, 65535));
    assert!(ok(1024, 1024, 1024));
    // the mask table does not reach this far for level 2
    assert!(StreamCdcFactory::try_with_level(64, 16_777_216, 16_777_216, Normalization::Level1).is_some());
    assert!(StreamCdcFactory::try_with_level(64, 16_777_216, 16_777_216, Normalization::Level2).is_none());
}

#[test]
fn cut_window_short_windows() {
    let f = StreamCdcFactory::new(64, 256, 1024);
    let cfg = f.config();
    assert_eq!(cut_window(&cfg, &[]), (0, 0));
    assert_eq!(cut_window(&cfg, &[7u8; 64]), (0, 64));
    // all zeros: no cut before the maximum
    let zeros = [0u8; 4000];
    assert_eq!(cut_window(&cfg, &zeros).1, 1024);
    assert_eq!(cut_window(&cfg, &zeros[..700]).1, 700);
}

#[test]
fn cut_window_first_judgement() {
    // a byte at the minimum whose gear value clears the judgement mask cuts the window right
    // there: the chunk is exactly `min_size` bytes long though more bytes follow
    let f = StreamCdcFactory::with_level(256, 256, 1024, Normalization::Level3);
    let cfg = f.config();
    assert_eq!(cfg.mask_l, MASKS[5]);
    assert_eq!((GEAR[32] << 1) & cfg.mask_l_ls, 0);
    let mut w = vec![1u8; 1024];
    w[256] = 32;
    assert_eq!(cut_window(&cfg, &w), (GEAR[32] << 1, 256));
}
