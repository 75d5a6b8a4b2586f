use halloc::codec::{decode, encode, to_signed, to_unsigned};
use halloc::layout::power_of_two;
use halloc::{Allocatable, Layout};

#[test]
fn encode_writes_least_significant_first() {
    assert_eq!(encode(0x0102, 2), vec![2, 1]);
    assert_eq!(encode(42, 4), vec![42, 0, 0, 0]);
    assert_eq!(encode(0, 0), Vec::<u8>::new());
    assert_eq!(encode(u128::MAX, 16), vec![255; 16]);
}

#[test]
fn encode_leaves_out_what_does_not_fit() {
    assert_eq!(encode(0x01_02_03, 2), vec![3, 2]);
    assert_eq!(encode(256, 1), vec![0]);
}

#[test]
fn decode_reads_least_significant_first() {
    assert_eq!(decode(&vec![2, 1]), 0x0102);
    assert_eq!(decode(&vec![]), 0);
    assert_eq!(decode(&vec![255; 16]), u128::MAX);
    assert_eq!(decode(&vec![0, 0, 0, 1]), 1 << 24);
}

#[test]
fn decode_undoes_encode() {
    for v in [0u128, 1, 255, 256, 65_535, 65_536, u64::MAX as u128, u128::MAX] {
        assert_eq!(decode(&encode(v, 16)), v);
    }
}

#[test]
fn twos_complement_of_negative_numbers() {
    assert_eq!(to_unsigned(-1, 0xff), 0xff);
    assert_eq!(to_unsigned(-128, 0xff), 0x80);
    assert_eq!(to_unsigned(127, 0xff), 127);
    assert_eq!(to_unsigned(0, 0xff), 0);
    assert_eq!(to_unsigned(i128::MIN, u128::MAX), 1 << 127);
    assert_eq!(to_unsigned(-1, u128::MAX), u128::MAX);
    assert_eq!(to_signed(0xff, 0xff), -1);
    assert_eq!(to_signed(0x80, 0xff), -128);
    assert_eq!(to_signed(0x7f, 0xff), 127);
    assert_eq!(to_signed(1 << 127, u128::MAX), i128::MIN);
    assert_eq!(to_signed(u128::MAX, u128::MAX), -1);
    assert_eq!(to_signed(0xffff_fffe, 0xffff_ffff), -2);
}

#[test]
fn images_of_the_registered_types() {
    assert_eq!(true.to_bytes(), vec![1]);
    assert_eq!(false.to_bytes(), vec![0]);
    assert_eq!(0x12u8.to_bytes(), vec![0x12]);
    assert_eq!(0x1234u16.to_bytes(), vec![0x34, 0x12]);
    assert_eq!(0x1234_5678u32.to_bytes(), vec![0x78, 0x56, 0x34, 0x12]);
    assert_eq!(1u64.to_bytes(), vec![1, 0, 0, 0, 0, 0, 0, 0]);
    assert_eq!(u128::MAX.to_bytes(), vec![255; 16]);
    assert_eq!((-1i8).to_bytes(), vec![255]);
    assert_eq!((-2i16).to_bytes(), vec![254, 255]);
    assert_eq!(i32::MIN.to_bytes(), vec![0, 0, 0, 0x80]);
    assert_eq!((-1i64).to_bytes(), vec![255; 8]);
    assert_eq!(i128::MIN.to_bytes(), {
        let mut bytes = vec![0; 16];
        bytes[15] = 0x80;
        bytes
    });
}

#[test]
fn values_are_read_back_from_their_images() {
    assert_eq!(bool::from_bytes(&true.to_bytes()), true);
    assert_eq!(bool::from_bytes(&false.to_bytes()), false);
    for v in [0u8, 1, 127, 128, 255] {
        assert_eq!(u8::from_bytes(&v.to_bytes()), v);
    }
    for v in [0u16, 255, 256, u16::MAX] {
        assert_eq!(u16::from_bytes(&v.to_bytes()), v);
    }
    for v in [0u32, 65_536, u32::MAX] {
        assert_eq!(u32::from_bytes(&v.to_bytes()), v);
    }
    for v in [0u64, 1 << 40, u64::MAX] {
        assert_eq!(u64::from_bytes(&v.to_bytes()), v);
    }
    for v in [0u128, 1 << 100, u128::MAX] {
        assert_eq!(u128::from_bytes(&v.to_bytes()), v);
    }
    for v in [i8::MIN, -1, 0, 1, i8::MAX] {
        assert_eq!(i8::from_bytes(&v.to_bytes()), v);
    }
    for v in [i16::MIN, -1, 0, 1, i16::MAX] {
        assert_eq!(i16::from_bytes(&v.to_bytes()), v);
    }
    for v in [i32::MIN, -1, 0, 1, i32::MAX] {
        assert_eq!(i32::from_bytes(&v.to_bytes()), v);
    }
    for v in [i64::MIN, -1, 0, 1, i64::MAX] {
        assert_eq!(i64::from_bytes(&v.to_bytes()), v);
    }
    for v in [i128::MIN, -1, 0, 1, i128::MAX] {
        assert_eq!(i128::from_bytes(&v.to_bytes()), v);
    }
}

#[test]
fn images_agree_with_the_machine_on_little_endian() {
    assert_eq!(0x1234_5678u32.to_bytes(), 0x1234_5678u32.to_le_bytes().to_vec());
    assert_eq!((-123_456_789i64).to_bytes(), (-123_456_789i64).to_le_bytes().to_vec());
    assert_eq!(i128::MIN.to_bytes(), i128::MIN.to_le_bytes().to_vec());
}

#[test]
fn any_nonzero_byte_reads_as_true() {
    assert_eq!(bool::from_bytes(&vec![2]), true);
    assert_eq!(bool::from_bytes(&vec![255]), true);
    assert_eq!(bool::from_bytes(&vec![0]), false);
}

#[test]
fn layouts_of_the_registered_types() {
    let pairs = [
        (Layout::new::<bool>(), 1),
        (Layout::new::<u8>(), 1),
        (Layout::new::<i8>(), 1),
        (Layout::new::<u16>(), 2),
        (Layout::new::<i16>(), 2),
        (Layout::new::<u32>(), 4),
        (Layout::new::<i32>(), 4),
        (Layout::new::<u64>(), 8),
        (Layout::new::<i64>(), 8),
        (Layout::new::<u128>(), 16),
        (Layout::new::<i128>(), 16),
    ];
    for (layout, n) in pairs {
        assert_eq!(layout.size(), n);
        assert_eq!(layout.align(), n);
    }
    assert_eq!(<u32 as Allocatable>::layout().size(), 4);
}

#[test]
fn layout_is_made_of_a_valid_pair() {
    let layout = Layout::from_size_align(24, 8).unwrap();
    assert_eq!(layout.size(), 24);
    assert_eq!(layout.align(), 8);
    assert!(Layout::from_size_align(0, 1).is_some());
    assert!(Layout::from_size_align(isize::MAX as usize, 1).is_some());
    assert!(Layout::from_size_align(0, (isize::MAX as usize) + 1).is_some());
}

#[test]
fn layout_refuses_an_invalid_pair() {
    assert!(Layout::from_size_align(8, 0).is_none());
    assert!(Layout::from_size_align(8, 3).is_none());
    assert!(Layout::from_size_align(8, 12).is_none());
    assert!(Layout::from_size_align((isize::MAX as usize) + 1, 1).is_none());
    assert!(Layout::from_size_align(isize::MAX as usize, 2).is_none());
    assert!(Layout::from_size_align(1, (isize::MAX as usize) + 1).is_none());
    assert!(Layout::from_size_align(usize::MAX, 1).is_none());
}

#[test]
fn powers_of_two_are_told_apart() {
    for n in [1usize, 2, 4, 8, 1024, 1 << 31] {
        assert!(power_of_two(n));
    }
    for n in [0usize, 3, 5, 6, 12, 1023, usize::MAX] {
        assert!(!power_of_two(n));
    }
}
