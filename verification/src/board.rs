use vstd::prelude::*;

verus! {

/// A file (column) of an 8x8 board.
#[derive(Debug, Clone, Copy, PartialEq, Eq, Hash)]
pub enum File {
    A,
    B,
    C,
    D,
    E,
    F,
    G,
    H,
}

/// A rank (row) of an 8x8 board.
#[derive(Debug, Clone, Copy, PartialEq, Eq, Hash)]
pub enum Rank {
    R1,
    R2,
    R3,
    R4,
    R5,
    R6,
    R7,
    R8,
}

/// A square index `rank * 8 + file`.
#[derive(Debug, Clone, Copy, PartialEq, Eq, Hash)]
pub struct Square(pub u8);

/// Position of a file, `A` = 0 through `H` = 7.
pub open spec fn file_index(f: File) -> nat {
    match f {
        File::A => 0,
        File::B => 1,
        File::C => 2,
        File::D => 3,
        File::E => 4,
        File::F => 5,
        File::G => 6,
        File::H => 7,
    }
}

/// Position of a rank, `R1` = 0 through `R8` = 7.
pub open spec fn rank_index(r: Rank) -> nat {
    match r {
        Rank::R1 => 0,
        Rank::R2 => 1,
        Rank::R3 => 2,
        Rank::R4 => 3,
        Rank::R5 => 4,
        Rank::R6 => 5,
        Rank::R7 => 6,
        Rank::R8 => 7,
    }
}

/// The index of the square on `file` and `rank`: `rank * 8 + file`.
pub open spec fn square_number(file: File, rank: Rank) -> nat {
    rank_index(rank) * 8 + file_index(file)
}

fn file_number(f: File) -> (n: u8)
    ensures
        n == file_index(f),
{
    match f {
        File::A => 0,
        File::B => 1,
        File::C => 2,
        File::D => 3,
        File::E => 4,
        File::F => 5,
        File::G => 6,
        File::H => 7,
    }
}

fn rank_number(r: Rank) -> (n: u8)
    ensures
        n == rank_index(r),
{
    match r {
        Rank::R1 => 0,
        Rank::R2 => 1,
        Rank::R3 => 2,
        Rank::R4 => 3,
        Rank::R5 => 4,
        Rank::R6 => 5,
        Rank::R7 => 6,
        Rank::R8 => 7,
    }
}

/// The square on `file` and `rank`: its index is `rank * 8 + file`.
pub fn make_square(file: File, rank: Rank) -> (sq: Square)
    ensures
        sq.0 == square_number(file, rank),
{
    Square(rank_number(rank) * 8 + file_number(file))
}

/// The file of a square index: `index % 8`.
pub fn file_from_index(index: u8) -> (f: File)
    ensures
        file_index(f) == index % 8,
{
    match index % 8 {
        0 => File::A,
        1 => File::B,
        2 => File::C,
        3 => File::D,
        4 => File::E,
        5 => File::F,
        6 => File::G,
        _ => File::H,
    }
}

/// The rank of a square index: `index / 8`, with every index from 56 up
/// falling on the last rank.
pub fn rank_from_index(index: u8) -> (r: Rank)
    ensures
        rank_index(r) == if index / 8 < 7 { (index / 8) as nat } else { 7 },
{
    match index / 8 {
        0 => Rank::R1,
        1 => Rank::R2,
        2 => Rank::R3,
        3 => Rank::R4,
        4 => Rank::R5,
        5 => Rank::R6,
        6 => Rank::R7,
        _ => Rank::R8,
    }
}

/// A square built from a file and a rank gives that file and rank back.
pub proof fn lemma_square_roundtrip(file: File, rank: Rank)
    ensures
        square_number(file, rank) % 8 == file_index(file),
        square_number(file, rank) / 8 == rank_index(rank),
{
}

/// The board is numbered rank by rank from square A1 = 0: within a rank
/// the files follow one another in the order A, B, ..., H, one square
/// apart, and each rank starts 8 squares after the one below it.
pub proof fn lemma_square_layout(file: File, rank: Rank)
    ensures
        square_number(File::A, Rank::R1) == 0,
        square_number(File::B, rank) == square_number(File::A, rank) + 1,
        square_number(File::C, rank) == square_number(File::B, rank) + 1,
        square_number(File::D, rank) == square_number(File::C, rank) + 1,
        square_number(File::E, rank) == square_number(File::D, rank) + 1,
        square_number(File::F, rank) == square_number(File::E, rank) + 1,
        square_number(File::G, rank) == square_number(File::F, rank) + 1,
        square_number(File::H, rank) == square_number(File::G, rank) + 1,
        square_number(file, Rank::R2) == square_number(file, Rank::R1) + 8,
        square_number(file, Rank::R3) == square_number(file, Rank::R2) + 8,
        square_number(file, Rank::R4) == square_number(file, Rank::R3) + 8,
        square_number(file, Rank::R5) == square_number(file, Rank::R4) + 8,
        square_number(file, Rank::R6) == square_number(file, Rank::R5) + 8,
        square_number(file, Rank::R7) == square_number(file, Rank::R6) + 8,
        square_number(file, Rank::R8) == square_number(file, Rank::R7) + 8,
{
}

} // verus!
