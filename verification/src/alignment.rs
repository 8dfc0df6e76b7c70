//! The alignment policy: how a number of filler symbols, or of symbols to
//! drop, is divided between the two ends of a buffer.

use vstd::prelude::*;

verus! {

/// A division of a count into a `(left, right)` pair.
#[derive(Debug, Clone, Copy, PartialEq, Eq, Structural)]
pub struct Pads(pub usize, pub usize);

impl Pads {
    /// The number of symbols that go before the content.
    pub fn left(&self) -> (n: usize)
        ensures
            n == self.0,
    {
        self.0
    }

    /// The number of symbols that go after the content.
    pub fn right(&self) -> (n: usize)
        ensures
            n == self.1,
    {
        self.1
    }
}

impl Default for Pads {
    fn default() -> (p: Pads)
        ensures
            p == Pads(0, 0),
    {
        Pads(0, 0)
    }
}

/// Where the content of a buffer sits once the buffer has its target width.
///
/// * `Left`: the content starts at the left edge; filler follows it, and a
///   cut removes the end.
/// * `Right`: the content ends at the right edge; filler precedes it, and a
///   cut removes the start.
/// * `Center`: both ends share the filler or the cut; an odd count puts the
///   extra unit on the right.
#[derive(Debug, Clone, Copy, PartialEq, Eq, Structural)]
pub enum Alignment {
    Left,
    Right,
    Center,
}

impl Default for Alignment {
    fn default() -> (a: Alignment)
        ensures
            a == Alignment::Right,
    {
        Alignment::Right
    }
}

/// The share of `n` that falls to the left end under `mode`.
pub open spec fn left_share(mode: Alignment, n: nat) -> nat {
    match mode {
        Alignment::Left => 0,
        Alignment::Right => n,
        Alignment::Center => n / 2,
    }
}

/// The share of `n` that falls to the right end under `mode`.
pub open spec fn right_share(mode: Alignment, n: nat) -> nat {
    (n - left_share(mode, n)) as nat
}

impl Alignment {
    /// Divides `n` symbols between the two ends of a buffer.
    pub fn pads(&self, n: usize) -> (p: Pads)
        ensures
            p.0 == left_share(*self, n as nat),
            p.1 == right_share(*self, n as nat),
            p.0 + p.1 == n,
    {
        match self {
            Alignment::Left => Pads(0, n),
            Alignment::Right => Pads(n, 0),
            Alignment::Center => Pads(n / 2, n - n / 2),
        }
    }
}

/// The two shares of a count always add up to the count.
pub proof fn lemma_split_conserves(mode: Alignment, n: nat)
    ensures
        left_share(mode, n) + right_share(mode, n) == n,
        left_share(mode, n) <= n,
{
}

/// Under `Center` the right share is the left share or one more, and it is
/// one more exactly when the count is odd.
pub proof fn lemma_center_bias(n: nat)
    ensures
        right_share(Alignment::Center, n) - left_share(Alignment::Center, n) == n % 2,
        right_share(Alignment::Center, n) - left_share(Alignment::Center, n) == 0
            || right_share(Alignment::Center, n) - left_share(Alignment::Center, n) == 1,
{
}

} // verus!
