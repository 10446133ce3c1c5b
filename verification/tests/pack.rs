use img2array::error::ConvertError;
use img2array::options::{Comparison, Options};
use img2array::pack::{classify_row, pack_bits, pack_row, unpack_byte};

const WHITE: (u8, u8, u8) = (255, 255, 255);
const BLACK: (u8, u8, u8) = (0, 0, 0);

fn compact(flip: bool) -> Options {
    let mut options = Options::default();
    options.compact = true;
    options.flip = flip;
    options
}

#[test]
fn pack_bits_puts_the_first_bit_lowest() {
    let mut bits = [false; 8];
    bits[0] = true;
    assert_eq!(pack_bits(&bits, false), 1);
    assert_eq!(pack_bits(&bits, true), 128);
    bits[0] = false;
    bits[7] = true;
    assert_eq!(pack_bits(&bits, false), 128);
    assert_eq!(pack_bits(&bits, true), 1);
    bits[7] = false;
    bits[2] = true;
    assert_eq!(pack_bits(&bits, false), 4);
    assert_eq!(pack_bits(&bits, true), 32);
}

#[test]
fn pack_bits_of_all_and_none() {
    assert_eq!(pack_bits(&[true; 8], false), 255);
    assert_eq!(pack_bits(&[true; 8], true), 255);
    assert_eq!(pack_bits(&[false; 8], false), 0);
    assert_eq!(pack_bits(&[false; 8], true), 0);
}

#[test]
fn pack_bits_alternating() {
    let bits = [true, false, true, false, true, false, true, false];
    assert_eq!(pack_bits(&bits, false), 85);
    assert_eq!(pack_bits(&bits, true), 170);
}

#[test]
fn unpack_byte_reads_the_places() {
    assert_eq!(
        unpack_byte(85, false),
        vec![true, false, true, false, true, false, true, false]
    );
    assert_eq!(
        unpack_byte(85, true),
        vec![false, true, false, true, false, true, false, true]
    );
    assert_eq!(
        unpack_byte(1, true),
        vec![false, false, false, false, false, false, false, true]
    );
    assert_eq!(unpack_byte(0, false), vec![false; 8]);
    assert_eq!(unpack_byte(255, true), vec![true; 8]);
}

#[test]
fn unpacking_recovers_every_group_of_bits() {
    for n in 0..256usize {
        let mut bits = [false; 8];
        for (i, bit) in bits.iter_mut().enumerate() {
            *bit = (n >> i) & 1 == 1;
        }
        for flip in [false, true] {
            let byte = pack_bits(&bits, flip);
            assert_eq!(unpack_byte(byte, flip), bits.to_vec());
        }
    }
}

#[test]
fn classify_row_goes_left_to_right() {
    let row = [WHITE, BLACK, BLACK, WHITE, (128, 128, 127)];
    let options = Options::default();
    assert_eq!(
        classify_row(&row, &options),
        vec![true, false, false, true, false]
    );
    let mut inverted = options;
    inverted.invert = true;
    assert_eq!(
        classify_row(&row, &inverted),
        vec![false, true, true, false, true]
    );
    assert_eq!(classify_row(&[], &options), Vec::<bool>::new());
}

#[test]
fn unpacked_row_holds_one_value_for_each_pixel() {
    let options = Options::default();
    let row = [WHITE, BLACK, WHITE, WHITE, BLACK];
    let packed = pack_row(&row, &options).unwrap();
    assert_eq!(packed, vec![1, 0, 1, 1, 0]);
    assert_eq!(packed.len(), row.len());
    for width in 0..20usize {
        let row = vec![WHITE; width];
        assert_eq!(pack_row(&row, &options).unwrap().len(), width);
    }
}

#[test]
fn compact_row_holds_one_byte_for_each_eight_pixels() {
    for groups in 0..5usize {
        let row = vec![WHITE; groups * 8];
        for flip in [false, true] {
            let packed = pack_row(&row, &compact(flip)).unwrap();
            assert_eq!(packed.len(), row.len() / 8);
            assert_eq!(packed, vec![255u8; groups]);
        }
    }
}

#[test]
fn compact_row_of_white_pixels_is_255() {
    let row = [WHITE; 8];
    assert_eq!(pack_row(&row, &compact(false)).unwrap(), vec![255]);
}

#[test]
fn compact_row_inverted_is_0() {
    let row = [WHITE; 8];
    let mut options = compact(false);
    options.invert = true;
    assert_eq!(pack_row(&row, &options).unwrap(), vec![0]);
}

#[test]
fn compact_row_alternating() {
    let row = [WHITE, BLACK, WHITE, BLACK, WHITE, BLACK, WHITE, BLACK];
    assert_eq!(pack_row(&row, &compact(false)).unwrap(), vec![85]);
    assert_eq!(pack_row(&row, &compact(true)).unwrap(), vec![170]);
}

#[test]
fn compact_row_packs_each_group_on_its_own() {
    let mut row = vec![BLACK; 24];
    row[0] = WHITE;
    row[9] = WHITE;
    row[23] = WHITE;
    assert_eq!(pack_row(&row, &compact(false)).unwrap(), vec![1, 2, 128]);
    assert_eq!(pack_row(&row, &compact(true)).unwrap(), vec![128, 64, 1]);
}

#[test]
fn compact_row_uses_the_threshold() {
    let mut options = compact(false);
    options.threshold = (10, 10, 10);
    let row = [
        (11, 11, 11),
        (10, 11, 11),
        (11, 11, 11),
        (11, 11, 10),
        (0, 0, 0),
        (200, 200, 200),
        (11, 10, 11),
        (255, 255, 255),
    ];
    assert_eq!(pack_row(&row, &options).unwrap(), vec![0b1010_0101]);
}

#[test]
fn compact_row_refuses_a_width_that_is_no_multiple_of_eight() {
    for width in [1usize, 7, 9, 15, 17] {
        let row = vec![WHITE; width];
        assert_eq!(
            pack_row(&row, &compact(false)),
            Err(ConvertError::CompactDivisibility)
        );
        assert_eq!(
            pack_row(&row, &compact(true)),
            Err(ConvertError::CompactDivisibility)
        );
        assert!(pack_row(&row, &Options::default()).is_ok());
    }
}

#[test]
fn rows_are_packed_under_the_chosen_comparison() {
    let row = [
        (255, 128, 0),
        (255, 127, 0),
        (200, 200, 200),
        (130, 130, 130),
        (0, 0, 0),
        (255, 255, 255),
        (128, 128, 127),
        (127, 127, 128),
    ];
    let mut options = compact(false);
    assert_eq!(pack_row(&row, &options).unwrap(), vec![0b0010_1100]);
    options.comparison = Comparison::Luminance;
    assert_eq!(pack_row(&row, &options).unwrap(), vec![0b0110_1101]);
    options.compact = false;
    assert_eq!(
        pack_row(&row, &options).unwrap(),
        vec![1, 0, 1, 1, 0, 1, 1, 0]
    );
}
