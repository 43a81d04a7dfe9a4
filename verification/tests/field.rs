use halo2_proofs::arithmetic::Field;
use overflow_chips::field::Felt;

fn felt(v: u64) -> Felt {
    Felt::from_u64(v)
}

const MODULUS: [u64; 4] =
    [0x992d30ed00000001, 0x224698fc094cf91b, 0x0000000000000000, 0x4000000000000000];

fn minus_one() -> Felt {
    Felt::from_limbs([MODULUS[0] - 1, MODULUS[1], MODULUS[2], MODULUS[3]]).unwrap()
}

fn pasta(f: &Felt) -> halo2_proofs::pasta::Fp {
    halo2_proofs::pasta::Fp::from_raw(f.to_limbs())
}

fn curves(f: &Felt) -> halo2curves::pasta::Fp {
    halo2curves::pasta::Fp::from_raw(f.to_limbs())
}

fn limbs_of(bytes: [u8; 32]) -> [u64; 4] {
    let mut out = [0u64; 4];
    for i in 0..4 {
        let mut limb = [0u8; 8];
        limb.copy_from_slice(&bytes[8 * i..8 * i + 8]);
        out[i] = u64::from_le_bytes(limb);
    }
    out
}

#[test]
fn small_constants() {
    assert_eq!(Felt::zero().to_u64(), Some(0));
    assert_eq!(Felt::one().to_u64(), Some(1));
    assert_eq!(felt(70000).to_u64(), Some(70000));
    assert_eq!(felt(7).to_limbs(), [7, 0, 0, 0]);
    assert!(Felt::zero().is_zero());
    assert!(!Felt::one().is_zero());
}

#[test]
fn from_u128_keeps_both_halves() {
    let f = Felt::from_u128((5u128 << 64) + 9);
    assert_eq!(f.to_limbs(), [9, 5, 0, 0]);
    assert_eq!(f.to_u64(), None);
}

#[test]
fn from_limbs_accepts_exactly_the_residues() {
    assert!(Felt::from_limbs(MODULUS).is_none());
    assert!(Felt::from_limbs([MODULUS[0] - 1, MODULUS[1], MODULUS[2], MODULUS[3]]).is_some());
    assert!(Felt::from_limbs([0, 0, 0, 0x4000000000000001]).is_none());
    assert!(Felt::from_limbs([u64::MAX, u64::MAX, u64::MAX, 0x3fffffffffffffff]).is_some());
    assert!(Felt::from_limbs([u64::MAX; 4]).is_none());
}

#[test]
fn addition_wraps_at_the_modulus() {
    assert_eq!(felt(3).plus(&felt(4)), felt(7));
    assert_eq!(minus_one().plus(&felt(1)), Felt::zero());
    assert_eq!(minus_one().plus(&felt(5)), felt(4));
}

#[test]
fn subtraction_wraps_below_zero() {
    assert_eq!(felt(9).minus(&felt(4)), felt(5));
    assert_eq!(felt(3).minus(&felt(4)), minus_one());
    assert_eq!(Felt::zero().minus(&felt(1)), minus_one());
}

#[test]
fn multiplication_is_modular() {
    assert_eq!(felt(3).times(&felt(4)), felt(12));
    assert_eq!(felt(1 << 40).times(&felt(1 << 40)).to_limbs(), [0, 1 << 16, 0, 0]);
    assert_eq!(minus_one().times(&minus_one()), Felt::one());
    assert_eq!(minus_one().times(&felt(2)), minus_one().minus(&felt(1)));
}

#[test]
fn inversion() {
    assert_eq!(Felt::zero().invert(), None);
    assert_eq!(Felt::one().invert(), Some(Felt::one()));
    let half = felt(2).invert().unwrap();
    assert_ne!(half, felt(2));
    assert_eq!(half.times(&felt(2)), Felt::one());
    // (p + 1) / 2
    assert_eq!(
        half.to_limbs(),
        [0xcc96987680000001, 0x11234c7e04a67c8d, 0x0000000000000000, 0x2000000000000000]
    );
    assert_eq!(minus_one().invert(), Some(minus_one()));
    assert_eq!(Felt::zero().inverse_or_zero(), Felt::zero());
    assert_eq!(felt(2).inverse_or_zero(), half);
}

#[test]
fn arithmetic_agrees_with_both_field_crates() {
    let samples = [
        Felt::zero(),
        Felt::one(),
        felt(65536),
        felt(u64::MAX),
        Felt::power_of_two(200),
        minus_one(),
        felt(12345).invert().unwrap(),
    ];
    for a in samples.iter() {
        for b in samples.iter() {
            let sum: [u8; 32] = (pasta(a) + pasta(b)).into();
            assert_eq!(a.plus(b).to_limbs(), limbs_of(sum));
            let difference: [u8; 32] = (pasta(a) - pasta(b)).into();
            assert_eq!(a.minus(b).to_limbs(), limbs_of(difference));
            let product: [u8; 32] = (pasta(a) * pasta(b)).into();
            assert_eq!(a.times(b).to_limbs(), limbs_of(product));
            assert_eq!(curves(&a.plus(b)), curves(a) + curves(b));
            assert_eq!(curves(&a.minus(b)), curves(a) - curves(b));
            assert_eq!(curves(&a.times(b)), curves(a) * curves(b));
        }
        let inverse: Option<halo2_proofs::pasta::Fp> = pasta(a).invert().into();
        assert_eq!(a.invert().map(|y| pasta(&y)), inverse);
    }
}

#[test]
fn order_and_equality_follow_the_representatives() {
    assert!(felt(3).less_than(&felt(4)));
    assert!(!felt(4).less_than(&felt(4)));
    assert!(!felt(5).less_than(&felt(4)));
    assert!(felt(u64::MAX).less_than(&Felt::power_of_two(64)));
    assert!(!Felt::power_of_two(64).less_than(&felt(u64::MAX)));
    assert!(Felt::power_of_two(253).less_than(&minus_one()));
    assert!(felt(4).equals(&felt(4)));
    assert!(!felt(4).equals(&felt(5)));
    assert!(!Felt::power_of_two(64).equals(&Felt::one()));
}

#[test]
fn powers_of_two() {
    assert_eq!(Felt::power_of_two(0), Felt::one());
    assert_eq!(Felt::power_of_two(16), felt(65536));
    assert_eq!(Felt::power_of_two(63).to_limbs(), [1 << 63, 0, 0, 0]);
    assert_eq!(Felt::power_of_two(64).to_limbs(), [0, 1, 0, 0]);
    assert_eq!(Felt::power_of_two(130).to_limbs(), [0, 0, 4, 0]);
    assert_eq!(Felt::power_of_two(254).to_limbs(), [0, 0, 0, 1 << 62]);
}

#[test]
fn split_divides_by_a_power_of_two() {
    let (hi, lo) = felt(70000).split(16);
    assert_eq!((hi.to_u64(), lo.to_u64()), (Some(1), Some(4464)));
    let (hi, lo) = felt(65535).split(16);
    assert_eq!((hi.to_u64(), lo.to_u64()), (Some(0), Some(65535)));
    let (hi, lo) = felt(65536).split(16);
    assert_eq!((hi.to_u64(), lo.to_u64()), (Some(1), Some(0)));
    let wide = Felt::from_limbs([0x1111_2222_3333_4444, 0x5555_6666_7777_8888, 0x9999, 0]).unwrap();
    let (hi, lo) = wide.split(16);
    assert_eq!(lo.to_u64(), Some(0x4444));
    assert_eq!(hi.to_limbs(), [0x8888_1111_2222_3333, 0x9999_5555_6666_7777, 0, 0]);
    let (hi, lo) = minus_one().split(1);
    assert_eq!(lo.to_u64(), Some(0));
    assert_eq!(hi.to_limbs(), [0xcc96987680000000, 0x11234c7e04a67c8d, 0, 0x2000000000000000]);
    let (hi, lo) = felt(u64::MAX).split(63);
    assert_eq!((hi.to_u64(), lo.to_u64()), (Some(1), Some(u64::MAX >> 1)));
}
