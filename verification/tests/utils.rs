use overflow_chips::chips::utils::{add_carry, check_limbs, decompose, reconstruct};
use overflow_chips::field::Felt;
use overflow_chips::layouter::{Component, Error, ErrorKind};

fn felt(v: u64) -> Felt {
    Felt::from_u64(v)
}

fn small(values: &[Felt]) -> Vec<u64> {
    values.iter().map(|f| f.to_u64().unwrap()).collect()
}

fn fault(kind: ErrorKind) -> Error {
    Error { component: Component::Decomposition, kind, column: 0, row: 0 }
}

#[test]
fn add_carry_splits_the_sum_at_sixteen_bits() {
    let (hi, lo) = add_carry(16, &felt(7), &felt(0), &felt(2));
    assert_eq!((hi.to_u64(), lo.to_u64()), (Some(0), Some(9)));
    let (hi, lo) = add_carry(16, &felt(1), &felt(0), &felt(65535));
    assert_eq!((hi.to_u64(), lo.to_u64()), (Some(1), Some(0)));
    let (hi, lo) = add_carry(16, &felt(5), &felt(3), &felt(65535));
    assert_eq!((hi.to_u64(), lo.to_u64()), (Some(4), Some(4)));
    let (hi, lo) = add_carry(16, &felt(1 << 32), &felt(0), &felt(0));
    assert_eq!((hi.to_u64(), lo.to_u64()), (Some(65536), Some(0)));
}

#[test]
fn add_carry_with_another_width() {
    let (hi, lo) = add_carry(8, &felt(300), &felt(2), &felt(1));
    // 300 + 2 * 256 + 1 = 813 = 3 * 256 + 45
    assert_eq!((hi.to_u64(), lo.to_u64()), (Some(3), Some(45)));
}

#[test]
fn limb_parameters() {
    assert!(check_limbs(16, 3));
    assert!(check_limbs(1, 254));
    assert!(check_limbs(63, 4));
    assert!(check_limbs(2, 127));
    assert!(!check_limbs(0, 3));
    assert!(!check_limbs(64, 1));
    assert!(!check_limbs(16, 0));
    assert!(!check_limbs(16, 16));
    assert!(!check_limbs(1, 255));
    assert!(!check_limbs(63, 5));
}

#[test]
fn decompose_is_most_significant_first() {
    assert_eq!(small(&decompose(&felt(70000), 16, 3).unwrap()), vec![0, 1, 4464]);
    assert_eq!(small(&decompose(&felt(4587520000), 16, 3).unwrap()), vec![1, 4464, 0]);
    assert_eq!(small(&decompose(&felt(0), 16, 3).unwrap()), vec![0, 0, 0]);
    assert_eq!(small(&decompose(&felt((1 << 48) - 1), 16, 3).unwrap()), vec![65535, 65535, 65535]);
    assert_eq!(small(&decompose(&felt(0b1011), 1, 4).unwrap()), vec![1, 0, 1, 1]);
    assert_eq!(small(&decompose(&felt(9), 16, 1).unwrap()), vec![9]);
}

#[test]
fn decompose_across_limbs_of_the_representation() {
    let digits = decompose(&Felt::power_of_two(200), 25, 10).unwrap();
    assert_eq!(small(&digits), vec![0, 1, 0, 0, 0, 0, 0, 0, 0, 0]);
    let wide = Felt::from_limbs([0x1111_2222_3333_4444, 0x5555_6666_7777_8888, 0, 0]).unwrap();
    assert_eq!(
        small(&decompose(&wide, 16, 8).unwrap()),
        vec![0x5555, 0x6666, 0x7777, 0x8888, 0x1111, 0x2222, 0x3333, 0x4444]
    );
}

#[test]
fn decompose_rejects_what_does_not_fit() {
    assert_eq!(decompose(&felt(1 << 48), 16, 3), Err(fault(ErrorKind::Overflow)));
    assert_eq!(decompose(&felt(65536), 16, 1), Err(fault(ErrorKind::Overflow)));
    assert_eq!(decompose(&felt(2), 1, 1), Err(fault(ErrorKind::Overflow)));
    assert!(decompose(&felt(1), 1, 1).is_ok());
}

#[test]
fn decompose_rejects_bad_parameters() {
    assert_eq!(decompose(&felt(1), 0, 3), Err(fault(ErrorKind::InvalidParameters)));
    assert_eq!(decompose(&felt(1), 64, 3), Err(fault(ErrorKind::InvalidParameters)));
    assert_eq!(decompose(&felt(1), 16, 0), Err(fault(ErrorKind::InvalidParameters)));
    assert_eq!(decompose(&felt(1), 16, 16), Err(fault(ErrorKind::InvalidParameters)));
    // the parameters are looked at before the value
    assert_eq!(decompose(&Felt::power_of_two(254), 16, 16), Err(fault(ErrorKind::InvalidParameters)));
}

#[test]
fn reconstruct_weighs_each_limb_by_its_position() {
    let digits = vec![felt(1), felt(4464), felt(0)];
    assert_eq!(reconstruct(&digits, 16).to_u64(), Some(4587520000));
    let digits = vec![felt(0), felt(1), felt(4464)];
    assert_eq!(reconstruct(&digits, 16).to_u64(), Some(70000));
    assert_eq!(reconstruct(&Vec::new(), 16).to_u64(), Some(0));
    // limbs that are too large are weighed all the same
    let digits = vec![felt(0), felt(0), felt(70000)];
    assert_eq!(reconstruct(&digits, 16).to_u64(), Some(70000));
    let digits = vec![felt(1), felt(65536)];
    assert_eq!(reconstruct(&digits, 16).to_u64(), Some(131072));
}

#[test]
fn reconstruct_undoes_decompose() {
    let values = [0u64, 1, 65535, 65536, 70000, 4587520000, (1 << 48) - 1];
    for v in values {
        let digits = decompose(&felt(v), 16, 3).unwrap();
        assert_eq!(digits.len(), 3);
        assert_eq!(reconstruct(&digits, 16), felt(v));
    }
    for (bits, limbs) in [(1u32, 254usize), (7, 36), (63, 4), (50, 5), (16, 15)] {
        let v = Felt::power_of_two(bits * (limbs as u32) - 1).plus(&felt(12345 % (1 << bits.min(13))));
        let digits = decompose(&v, bits, limbs).unwrap();
        assert_eq!(digits.len(), limbs);
        assert_eq!(reconstruct(&digits, bits), v);
    }
}
