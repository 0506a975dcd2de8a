use vstd::prelude::*;
use vstd::set_lib::{lemma_int_range, set_int_range};

verus! {

/// Index of a square on the board: `rank * 8 + file`, with rank and file in `0..8`.
pub type Square = usize;

/// Number of squares on the board, and width of the bit pattern.
pub const NUM_SQUARES: usize = 64;

/// Whether bit `i` of the word `w` is set.
pub open spec fn bit_set(w: u64, i: u64) -> bool {
    (w >> i) & 1u64 == 1u64
}

/// Core struct of the engine: a chessboard as a 64-bit word.
/// A set bit stands for a piece on the corresponding square.
#[derive(Debug, Clone, Copy, PartialEq, Eq, Structural)]
pub struct Bitboard(pub u64);

/// The word with a bit set for each square of `squares`, taken in order.
pub open spec fn squares_word(squares: Seq<usize>) -> u64
    decreases squares.len(),
{
    if squares.len() == 0 {
        0u64
    } else {
        squares_word(squares.drop_last()) | (1u64 << (squares.last() as u64))
    }
}

/// Character `k` of the rendering of `w`: eight lines of nine characters,
/// line `l` showing rank `7 - l`, files `0..8` then a newline.
pub open spec fn rendered_char(w: u64, k: int) -> char {
    let line = k / 9;
    let file = k % 9;
    if file == 8 {
        '\n'
    } else if bit_set(w, ((7 - line) * 8 + file) as u64) {
        '1'
    } else {
        '0'
    }
}

/// The full rendering of `w`.
pub open spec fn rendered(w: u64) -> Seq<char> {
    Seq::new(72, |k: int| rendered_char(w, k))
}

impl Bitboard {
    /// The squares that are occupied.
    pub open spec fn view(&self) -> Set<int> {
        Set::new(|i: int| 0 <= i < 64 && bit_set(self.0, i as u64))
    }

    /// Whether `square` is occupied.
    pub open spec fn has(&self, square: int) -> bool {
        0 <= square < 64 && bit_set(self.0, square as u64)
    }

    /// Bitwise complement.
    pub open spec fn complement(self) -> Bitboard {
        Bitboard(!self.0)
    }

    /// Bitwise OR.
    pub open spec fn union(self, other: Bitboard) -> Bitboard {
        Bitboard(self.0 | other.0)
    }

    /// Bitwise AND.
    pub open spec fn intersection(self, other: Bitboard) -> Bitboard {
        Bitboard(self.0 & other.0)
    }

    /// Bitwise XOR.
    pub open spec fn symmetric_difference(self, other: Bitboard) -> Bitboard {
        Bitboard(self.0 ^ other.0)
    }

    /// Renders the board as eight lines of `'0'`/`'1'`, ranks 7 down to 0,
    /// files 0 up to 7, each line ending with a newline.
    pub fn to_str(&self) -> (r: String)
        ensures
            r@ == rendered(self.0),
    {
        let mut out = String::new();
        let mut line: usize = 0;
        while line < 8
            invariant
                line <= 8,
                out@ == rendered(self.0).subrange(0, line * 9),
            decreases 8 - line,
        {
            let rank: usize = 7 - line;
            let mut file: usize = 0;
            while file < 8
                invariant
                    line < 8,
                    rank == 7 - line,
                    file <= 8,
                    out@ == rendered(self.0).subrange(0, line * 9 + file),
                decreases 8 - file,
            {
                let square: usize = rank * 8 + file;
                let occupied = self.square_has_piece(square);
                let ghost k: int = (line * 9 + file) as int;
                proof {
                    lemma_line_position(line as int, file as int);
                    reveal_strlit("1");
                    reveal_strlit("0");
                }
                if occupied {
                    out.append("1");
                } else {
                    out.append("0");
                }
                assert(out@ =~= rendered(self.0).subrange(0, k + 1));
                file = file + 1;
            }
            let ghost k: int = (line * 9 + 8) as int;
            proof {
                lemma_line_position(line as int, 8);
                reveal_strlit("\n");
            }
            out.append("\n");
            assert(out@ =~= rendered(self.0).subrange(0, k + 1));
            line = line + 1;
        }
        assert(out@ =~= rendered(self.0));
        out
    }

    /// Whether `square` is occupied.
    fn square_has_piece(&self, square: Square) -> (r: bool)
        requires
            square < NUM_SQUARES,
        ensures
            r == self.has(square as int),
    {
        let s = square as u64;
        let w = self.0;
        assert(s < 64 ==> (((w & (1u64 << s)) != 0u64) <==> ((w >> s) & 1u64 == 1u64)))
            by (bit_vector);
        w & (1u64 << s) != 0
    }

    pub fn from_square(square: Square) -> (r: Self)
        requires
            square < NUM_SQUARES,
        ensures
            r.0 == 1u64 << square,
            forall|i: int| 0 <= i < 64 ==> (r.has(i) <==> i == square),
            r@ == set![square as int],
    {
        let s = square as u64;
        proof {
            lemma_single_bit(s);
        }
        let r = Bitboard(1u64 << s);
        assert(r@ =~= set![square as int]);
        r
    }

    /// The board with exactly the squares of `squares` set; duplicates are harmless.
    pub fn from_squares(squares: &[Square]) -> (r: Self)
        requires
            forall|j: int| 0 <= j < squares@.len() ==> squares@[j] < NUM_SQUARES,
        ensures
            r.0 == squares_word(squares@),
            forall|i: int| 0 <= i < 64 ==> (r.has(i) <==> squares@.contains(i as usize)),
    {
        let mut board: u64 = 0;
        let mut j: usize = 0;
        proof {
            assert forall|i: int| 0 <= i < 64 implies !(#[trigger] bit_set(board, i as u64)) by {
                lemma_zero_word(i as u64);
            }
        }
        while j < squares.len()
            invariant
                j <= squares@.len(),
                forall|k: int| 0 <= k < squares@.len() ==> squares@[k] < NUM_SQUARES,
                board == squares_word(squares@.subrange(0, j as int)),
                forall|i: int|
                    0 <= i < 64 ==> (#[trigger] bit_set(board, i as u64) <==> squares@.subrange(
                        0,
                        j as int,
                    ).contains(i as usize)),
            decreases squares@.len() - j,
        {
            let s = squares[j] as u64;
            let old_board = board;
            board = board | (1u64 << s);
            let ghost prefix = squares@.subrange(0, j as int);
            let ghost next = squares@.subrange(0, j as int + 1);
            assert(next.drop_last() =~= prefix);
            proof {
                assert forall|i: int| 0 <= i < 64 implies (#[trigger] bit_set(board, i as u64)
                    <==> next.contains(i as usize)) by {
                    lemma_or_single_bit(old_board, s, i as u64);
                    assert(bit_set(old_board, i as u64) <==> prefix.contains(i as usize));
                    if next.contains(i as usize) {
                        let t = choose|t: int| 0 <= t < next.len() && next[t] == i as usize;
                        if t < j {
                            assert(prefix[t] == i as usize);
                        }
                    }
                    if prefix.contains(i as usize) {
                        let t = choose|t: int| 0 <= t < prefix.len() && prefix[t] == i as usize;
                        assert(next[t] == i as usize);
                    }
                    if i as u64 == s {
                        assert(next[j as int] == i as usize);
                    }
                }
            }
            j = j + 1;
        }
        assert(squares@.subrange(0, squares@.len() as int) =~= squares@);
        Bitboard(board)
    }
}

impl vstd::std_specs::ops::NotSpecImpl for Bitboard {
    open spec fn obeys_not_spec() -> bool {
        true
    }

    open spec fn not_req(self) -> bool {
        true
    }

    open spec fn not_spec(self) -> Bitboard {
        self.complement()
    }
}

impl core::ops::Not for Bitboard {
    type Output = Bitboard;

    fn not(self) -> (r: Self::Output)
        ensures
            r == self.complement(),
    {
        Bitboard(!self.0)
    }
}

impl vstd::std_specs::ops::BitXorSpecImpl for Bitboard {
    open spec fn obeys_bitxor_spec() -> bool {
        true
    }

    open spec fn bitxor_req(self, rhs: Bitboard) -> bool {
        true
    }

    open spec fn bitxor_spec(self, rhs: Bitboard) -> Bitboard {
        self.symmetric_difference(rhs)
    }
}

impl core::ops::BitXor for Bitboard {
    type Output = Bitboard;

    fn bitxor(self, rhs: Self) -> (r: Self::Output)
        ensures
            r == self.symmetric_difference(rhs),
    {
        Bitboard(self.0 ^ rhs.0)
    }
}

impl core::ops::BitXorAssign for Bitboard {
    fn bitxor_assign(&mut self, rhs: Self)
        ensures
            *final(self) == old(self).symmetric_difference(rhs),
    {
        self.0 = self.0 ^ rhs.0;
    }
}

impl vstd::std_specs::ops::BitAndSpecImpl for Bitboard {
    open spec fn obeys_bitand_spec() -> bool {
        true
    }

    open spec fn bitand_req(self, rhs: Bitboard) -> bool {
        true
    }

    open spec fn bitand_spec(self, rhs: Bitboard) -> Bitboard {
        self.intersection(rhs)
    }
}

impl core::ops::BitAnd for Bitboard {
    type Output = Bitboard;

    fn bitand(self, rhs: Self) -> (r: Self::Output)
        ensures
            r == self.intersection(rhs),
    {
        Bitboard(self.0 & rhs.0)
    }
}

impl core::ops::BitAndAssign for Bitboard {
    fn bitand_assign(&mut self, rhs: Self)
        ensures
            *final(self) == old(self).intersection(rhs),
    {
        self.0 = self.0 & rhs.0;
    }
}

impl vstd::std_specs::ops::BitOrSpecImpl for Bitboard {
    open spec fn obeys_bitor_spec() -> bool {
        true
    }

    open spec fn bitor_req(self, rhs: Bitboard) -> bool {
        true
    }

    open spec fn bitor_spec(self, rhs: Bitboard) -> Bitboard {
        self.union(rhs)
    }
}

impl core::ops::BitOr for Bitboard {
    type Output = Bitboard;

    fn bitor(self, rhs: Self) -> (r: Self::Output)
        ensures
            r == self.union(rhs),
    {
        Bitboard(self.0 | rhs.0)
    }
}

impl core::ops::BitOrAssign for Bitboard {
    fn bitor_assign(&mut self, rhs: Self)
        ensures
            *final(self) == old(self).union(rhs),
    {
        self.0 = self.0 | rhs.0;
    }
}

/// A single-square board holds exactly that square, and its complement holds
/// exactly the other 63 squares.
pub proof fn lemma_square_and_complement(square: Square)
    requires
        square < NUM_SQUARES,
    ensures
        Bitboard(1u64 << square)@ == set![square as int],
        Bitboard(1u64 << square)@.len() == 1,
        Bitboard(1u64 << square).complement()@ == set_int_range(0, 64).remove(square as int),
        Bitboard(1u64 << square).complement()@.len() == 63,
{
    let s = square as u64;
    let b = Bitboard(1u64 << s);
    lemma_single_bit(s);
    assert(b@ =~= set![square as int]);
    assert forall|i: int| 0 <= i < 64 implies (#[trigger] bit_set(!(1u64 << s), i as u64)
        <==> i != square) by {
        let k = i as u64;
        lemma_complement_bit(1u64 << s, k);
        assert(bit_set(1u64 << s, k) <==> k == s);
    }
    assert(b.complement()@ =~= set_int_range(0, 64).remove(square as int));
    lemma_int_range(0, 64);
}

/// XOR with itself clears every square; a board and its complement together
/// cover every square and share none.
pub proof fn lemma_complement_laws(a: Bitboard)
    ensures
        a.symmetric_difference(a) == Bitboard(0u64),
        a.union(a.complement()) == Bitboard(0xffff_ffff_ffff_ffffu64),
        a.intersection(a.complement()) == Bitboard(0u64),
{
    let w = a.0;
    assert(w ^ w == 0u64) by (bit_vector);
    assert(w | !w == 0xffff_ffff_ffff_ffffu64) by (bit_vector);
    assert(w & !w == 0u64) by (bit_vector);
}

/// Union, intersection and symmetric difference do not depend on the order
/// of their operands.
pub proof fn lemma_commutative(a: Bitboard, b: Bitboard)
    ensures
        a.union(b) == b.union(a),
        a.intersection(b) == b.intersection(a),
        a.symmetric_difference(b) == b.symmetric_difference(a),
{
    let (x, y) = (a.0, b.0);
    assert(x | y == y | x) by (bit_vector);
    assert(x & y == y & x) by (bit_vector);
    assert(x ^ y == y ^ x) by (bit_vector);
}

/// Union, intersection and symmetric difference do not depend on grouping.
pub proof fn lemma_associative(a: Bitboard, b: Bitboard, c: Bitboard)
    ensures
        a.union(b).union(c) == a.union(b.union(c)),
        a.intersection(b).intersection(c) == a.intersection(b.intersection(c)),
        a.symmetric_difference(b).symmetric_difference(c) == a.symmetric_difference(
            b.symmetric_difference(c),
        ),
{
    let (x, y, z) = (a.0, b.0, c.0);
    assert((x | y) | z == x | (y | z)) by (bit_vector);
    assert((x & y) & z == x & (y & z)) by (bit_vector);
    assert((x ^ y) ^ z == x ^ (y ^ z)) by (bit_vector);
}

/// No squares give the empty board, and naming a square twice is the same
/// as naming it once.
pub proof fn lemma_squares_empty_and_duplicate(square: Square)
    requires
        square < NUM_SQUARES,
    ensures
        squares_word(Seq::<usize>::empty()) == 0u64,
        squares_word(seq![square, square]) == squares_word(seq![square]),
{
    let one = seq![square];
    let two = seq![square, square];
    assert(two.drop_last() =~= one);
    assert(one.drop_last() =~= Seq::<usize>::empty());
    reveal_with_fuel(squares_word, 3);
    let bit = 1u64 << (square as u64);
    assert((0u64 | bit) | bit == 0u64 | bit) by (bit_vector);
}

proof fn lemma_single_bit(s: u64)
    requires
        s < 64,
    ensures
        forall|i: u64| i < 64 ==> (bit_set(1u64 << s, i) <==> i == s),
{
    assert forall|i: u64| i < 64 implies (bit_set(1u64 << s, i) <==> i == s) by {
        assert(s < 64 && i < 64 ==> ((((1u64 << s) >> i) & 1u64 == 1u64) <==> i == s))
            by (bit_vector);
    }
}

proof fn lemma_or_single_bit(w: u64, s: u64, i: u64)
    requires
        s < 64,
        i < 64,
    ensures
        bit_set(w | (1u64 << s), i) <==> (bit_set(w, i) || i == s),
{
    assert((((w | (1u64 << s)) >> i) & 1u64 == 1u64) <==> ((w >> i) & 1u64 == 1u64 || i == s))
        by (bit_vector)
        requires
            s < 64,
            i < 64,
    ;
}

proof fn lemma_complement_bit(w: u64, i: u64)
    requires
        i < 64,
    ensures
        bit_set(!w, i) <==> !bit_set(w, i),
{
    assert(((!w) >> i) & 1u64 == 1u64 <==> !((w >> i) & 1u64 == 1u64)) by (bit_vector)
        requires
            i < 64,
    ;
}

proof fn lemma_zero_word(i: u64)
    ensures
        !bit_set(0u64, i),
{
    assert((0u64 >> i) & 1u64 != 1u64) by (bit_vector);
}

proof fn lemma_line_position(line: int, file: int)
    requires
        0 <= line < 8,
        0 <= file <= 8,
    ensures
        (line * 9 + file) / 9 == line,
        (line * 9 + file) % 9 == file,
        0 <= line * 9 + file < 72,
{
    assert((line * 9 + file) / 9 == line && (line * 9 + file) % 9 == file) by (nonlinear_arith)
        requires
            0 <= line < 8,
            0 <= file <= 8,
    ;
}

} // verus!
