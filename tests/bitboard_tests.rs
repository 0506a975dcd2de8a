use bitboard::{Bitboard, Square};

fn bits(b: &Bitboard) -> Vec<Square> {
    (0..64).filter(|&i| b.0 & (1u64 << i) != 0).collect()
}

#[test]
fn from_square_sets_one_bit() {
    for s in 0..64usize {
        let b = Bitboard::from_square(s);
        assert_eq!(b.0, 1u64 << s);
        assert_eq!(bits(&b), vec![s]);
        let c = !b;
        assert_eq!(c.0.count_ones(), 63);
        assert_eq!(c.0 & (1u64 << s), 0);
    }
}

#[test]
fn from_square_exact_values() {
    assert_eq!(Bitboard::from_square(0).0, 1);
    assert_eq!(Bitboard::from_square(5).0, 32);
    assert_eq!(Bitboard::from_square(63).0, 0x8000_0000_0000_0000);
}

#[test]
fn complement_laws_hold() {
    for w in [0u64, 1, 0xdead_beef_0123_4567, u64::MAX, 0x8000_0000_0000_0001] {
        assert_eq!(Bitboard(w) ^ Bitboard(w), Bitboard(0));
        assert_eq!(Bitboard(w) | !Bitboard(w), Bitboard(u64::MAX));
        assert_eq!(Bitboard(w) & !Bitboard(w), Bitboard(0));
    }
}

#[test]
fn not_flips_every_bit() {
    assert_eq!(!Bitboard(0), Bitboard(u64::MAX));
    assert_eq!(!Bitboard(0x00ff_00ff_00ff_00ff), Bitboard(0xff00_ff00_ff00_ff00));
}

#[test]
fn binary_operators_exact_values() {
    let a = Bitboard(0b1100);
    let b = Bitboard(0b1010);
    assert_eq!(a | b, Bitboard(0b1110));
    assert_eq!(a & b, Bitboard(0b1000));
    assert_eq!(a ^ b, Bitboard(0b0110));
}

#[test]
fn operators_commute_and_associate() {
    let (a, b, c) = (0xf0f0_1234_0000_ffffu64, 0x0ff0_8765_aaaa_0000u64, 0x1111_2222_3333_4444u64);
    assert_eq!(Bitboard(a) | Bitboard(b), Bitboard(b) | Bitboard(a));
    assert_eq!(Bitboard(a) & Bitboard(b), Bitboard(b) & Bitboard(a));
    assert_eq!(Bitboard(a) ^ Bitboard(b), Bitboard(b) ^ Bitboard(a));
    assert_eq!((Bitboard(a) | Bitboard(b)) | Bitboard(c), Bitboard(a) | (Bitboard(b) | Bitboard(c)));
    assert_eq!((Bitboard(a) & Bitboard(b)) & Bitboard(c), Bitboard(a) & (Bitboard(b) & Bitboard(c)));
    assert_eq!((Bitboard(a) ^ Bitboard(b)) ^ Bitboard(c), Bitboard(a) ^ (Bitboard(b) ^ Bitboard(c)));
}

#[test]
fn from_squares_empty_is_zero() {
    assert_eq!(Bitboard::from_squares(&[]), Bitboard(0));
}

#[test]
fn from_squares_duplicates_are_idempotent() {
    for s in [0usize, 7, 36, 63] {
        assert_eq!(Bitboard::from_squares(&[s, s]), Bitboard::from_squares(&[s]));
        assert_eq!(Bitboard::from_squares(&[s]), Bitboard::from_square(s));
    }
}

#[test]
fn from_squares_is_union_of_squares() {
    let b = Bitboard::from_squares(&[3, 0, 63, 3, 17]);
    assert_eq!(b.0, (1u64 << 0) | (1u64 << 3) | (1u64 << 17) | (1u64 << 63));
    assert_eq!(bits(&b), vec![0, 3, 17, 63]);
}

#[test]
fn in_place_operators_match_operators() {
    let a = Bitboard(0xff00_0000_0000_00f0);
    let b = Bitboard(0x0f00_0000_0000_0ff0);
    let mut x = a;
    x |= b;
    assert_eq!(x, a | b);
    let mut y = a;
    y &= b;
    assert_eq!(y, a & b);
    let mut z = a;
    z ^= b;
    assert_eq!(z, a ^ b);
    assert_eq!(z, Bitboard(0xf000_0000_0000_0f00));
}

#[test]
fn render_empty_board() {
    let expected = "00000000\n".repeat(8);
    assert_eq!(Bitboard(0).to_str(), expected);
}

#[test]
fn render_full_board() {
    let expected = "11111111\n".repeat(8);
    assert_eq!(Bitboard(u64::MAX).to_str(), expected);
}

#[test]
fn render_square_zero() {
    let r = Bitboard::from_square(0).to_str();
    let lines: Vec<&str> = r.lines().collect();
    assert_eq!(lines.len(), 8);
    assert_eq!(r.len(), 72);
    assert_eq!(r.matches('1').count(), 1);
    assert_eq!(lines[7], "10000000");
    assert_eq!(r, "00000000\n".repeat(7) + "10000000\n");
}

#[test]
fn render_square_sixty_three() {
    let r = Bitboard::from_square(63).to_str();
    assert_eq!(r, "00000001\n".to_string() + &"00000000\n".repeat(7));
    assert_eq!(r.matches('1').count(), 1);
    assert_eq!(r.matches('0').count(), 63);
}

#[test]
fn render_corners() {
    let r = Bitboard::from_squares(&[0, 63]).to_str();
    assert_eq!(r.matches('1').count(), 2);
    let lines: Vec<&str> = r.lines().collect();
    assert_eq!(lines.len(), 8);
    assert_eq!(lines[0], "00000001");
    assert_eq!(lines[7], "10000000");
}

#[test]
fn render_rank_and_file_layout() {
    // square 8 is rank 1, file 0: seventh line, first character
    let r = Bitboard::from_square(8).to_str();
    let lines: Vec<&str> = r.lines().collect();
    assert_eq!(lines[6], "10000000");
    // square 62 is rank 7, file 6: first line, seventh character
    let r = Bitboard::from_square(62).to_str();
    assert_eq!(r.lines().next(), Some("00000010"));
}
