use img2array::options::{Comparison, Options, DEFAULT_THRESHOLD};
use img2array::threshold::{classify, classify_luminance, compare};

#[test]
fn default_options_cut_every_channel_at_127() {
    let options = Options::default();
    assert_eq!(DEFAULT_THRESHOLD, 127);
    assert_eq!(options.threshold, (127, 127, 127));
    assert!(!options.compact);
    assert!(!options.flip);
    assert!(!options.invert);
    assert!(!options.print);
    assert_eq!(options.comparison, Comparison::PerChannel);
}

#[test]
fn classify_is_on_when_every_channel_exceeds() {
    assert!(classify((128, 128, 128), (127, 127, 127), false));
    assert!(classify((255, 255, 255), (127, 127, 127), false));
    assert!(classify((1, 2, 3), (0, 1, 2), false));
}

#[test]
fn classify_is_strict() {
    assert!(!classify((127, 127, 127), (127, 127, 127), false));
    assert!(!classify((127, 255, 255), (127, 127, 127), false));
    assert!(!classify((255, 127, 255), (127, 127, 127), false));
    assert!(!classify((255, 255, 127), (127, 127, 127), false));
    assert!(!classify((255, 255, 255), (255, 255, 255), false));
}

#[test]
fn classify_needs_all_three_channels() {
    assert!(!classify((255, 0, 0), (127, 127, 127), false));
    assert!(!classify((0, 255, 0), (127, 127, 127), false));
    assert!(!classify((0, 0, 255), (127, 127, 127), false));
    assert!(!classify((255, 255, 0), (127, 127, 127), false));
}

#[test]
fn classify_inverted_is_the_negation() {
    let threshold = (100, 150, 200);
    let pixels = [
        (0u8, 0u8, 0u8),
        (101, 151, 201),
        (100, 151, 201),
        (101, 150, 201),
        (101, 151, 200),
        (255, 255, 255),
    ];
    for pixel in pixels {
        assert_eq!(
            classify(pixel, threshold, true),
            !classify(pixel, threshold, false)
        );
    }
    assert!(!classify((101, 151, 201), threshold, true));
    assert!(classify((100, 151, 201), threshold, true));
}

#[test]
fn compare_follows_the_options() {
    let mut options = Options::default();
    assert!(compare((255, 255, 255), &options));
    assert!(!compare((0, 0, 0), &options));
    assert!(!compare((127, 200, 200), &options));
    options.invert = true;
    assert!(!compare((255, 255, 255), &options));
    assert!(compare((0, 0, 0), &options));
    options.invert = false;
    options.threshold = (10, 20, 30);
    assert!(compare((11, 21, 31), &options));
    assert!(!compare((11, 20, 31), &options));
}

#[test]
fn compare_agrees_with_classify() {
    let mut options = Options::default();
    options.threshold = (3, 200, 90);
    for invert in [false, true] {
        options.invert = invert;
        for pixel in [(4u8, 201u8, 91u8), (3, 201, 91), (0, 0, 0), (255, 255, 255)] {
            assert_eq!(
                compare(pixel, &options),
                classify(pixel, options.threshold, invert)
            );
        }
    }
}

#[test]
fn luminance_is_cut_at_one_and_a_half_times_255() {
    assert!(classify_luminance((255, 128, 0), false));
    assert!(classify_luminance((128, 128, 127), false));
    assert!(!classify_luminance((255, 127, 0), false));
    assert!(!classify_luminance((127, 127, 128), false));
    assert!(!classify_luminance((0, 0, 0), false));
    assert!(classify_luminance((255, 255, 255), false));
    assert!(!classify_luminance((255, 128, 0), true));
    assert!(classify_luminance((255, 127, 0), true));
}

#[test]
fn compare_by_luminance_ignores_the_channel_cutoffs() {
    let mut options = Options::default();
    options.comparison = Comparison::Luminance;
    options.threshold = (250, 250, 250);
    assert!(compare((255, 128, 0), &options));
    assert!(!compare((255, 127, 0), &options));
    options.invert = true;
    assert!(!compare((255, 128, 0), &options));
    assert!(compare((255, 127, 0), &options));
    options.comparison = Comparison::PerChannel;
    options.invert = false;
    assert!(!compare((255, 128, 0), &options));
    assert!(compare((255, 255, 255), &options));
}
