//! A shared canvas of pixels that anyone may repaint for a fee per pixel.
use vstd::prelude::*;
use crate::types::{AccountId, Balance};

verus! {

/// The smallest units in one native coin.
pub const DOTS: Balance = 10_000_000_000;

/// The number of pixels on the canvas (160 by 90).
pub const CANVAS_SIZE: usize = 14400;

/// Someone repainted the canvas.
#[derive(Clone, Copy, Debug, PartialEq, Eq)]
pub struct PixelUpdate {
    pub creator: AccountId,
}

/// Why a repaint was rejected.
#[derive(Clone, Copy, Debug, PartialEq, Eq, Structural)]
pub enum PixelError {
    /// No pixel was given.
    NoPoints,
    /// Less than one coin was attached per pixel given.
    InsufficientPayment,
}

/// `canvas` with each `(index, value)` of `points` written in order; an
/// index off the canvas is skipped.
pub open spec fn painted(canvas: Seq<u8>, points: Seq<(u32, u8)>) -> Seq<u8>
    decreases points.len(),
{
    if points.len() == 0 {
        canvas
    } else {
        let before = painted(canvas, points.drop_last());
        let (index, value) = points.last();
        if index < before.len() {
            before.update(index as int, value)
        } else {
            before
        }
    }
}

proof fn lemma_painted_len(canvas: Seq<u8>, points: Seq<(u32, u8)>)
    ensures
        painted(canvas, points).len() == canvas.len(),
    decreases points.len(),
{
    if points.len() > 0 {
        lemma_painted_len(canvas, points.drop_last());
    }
}

/// The canvas.
pub struct Patrapixel {
    name: String,
    metadata: Vec<u8>,
}

impl Patrapixel {
    pub closed spec fn view(&self) -> Seq<u8> {
        self.metadata@
    }

    /// The canvas's name.
    pub closed spec fn name_spec(&self) -> Seq<char> {
        self.name@
    }

    /// A blank canvas: every pixel 0.
    pub fn new() -> (r: Patrapixel)
        ensures
            r@ == Seq::new(CANVAS_SIZE as nat, |i: int| 0u8),
            r.name_spec() == "PatraPixel"@,
    {
        let mut metadata: Vec<u8> = Vec::new();
        let mut i: usize = 0;
        while i < CANVAS_SIZE
            invariant
                0 <= i <= CANVAS_SIZE,
                metadata@ == Seq::new(i as nat, |j: int| 0u8),
            decreases CANVAS_SIZE - i,
        {
            metadata.push(0u8);
            i = i + 1;
            assert(metadata@ =~= Seq::new(i as nat, |j: int| 0u8));
        }
        Patrapixel { name: "PatraPixel".to_owned(), metadata }
    }

    /// The canvas's name.
    pub fn name(&self) -> (r: &str)
        ensures
            r@ == self.name_spec(),
    {
        self.name.as_str()
    }

    /// A copy of every pixel.
    pub fn metadata(&self) -> (r: Vec<u8>)
        ensures
            r@ == self@,
    {
        let mut r: Vec<u8> = Vec::new();
        let mut i: usize = 0;
        while i < self.metadata.len()
            invariant
                0 <= i <= self.metadata@.len(),
                r@ == self.metadata@.subrange(0, i as int),
            decreases self.metadata@.len() - i,
        {
            r.push(self.metadata[i]);
            i = i + 1;
            assert(r@ =~= self.metadata@.subrange(0, i as int));
        }
        assert(r@ =~= self.metadata@);
        r
    }

    /// Writes each `(index, value)` of `points` in order, for one coin per
    /// point attached as `transferred`; indexes off the canvas are skipped.
    pub fn update(&mut self, caller: AccountId, transferred: Balance, points: &Vec<(u32, u8)>) -> (r:
        Result<PixelUpdate, PixelError>)
        ensures
            points@.len() == 0 ==> r == Err::<PixelUpdate, PixelError>(PixelError::NoPoints),
            points@.len() > 0 && transferred < points@.len() * DOTS ==> r == Err::<
                PixelUpdate,
                PixelError,
            >(PixelError::InsufficientPayment),
            final(self).name_spec() == old(self).name_spec(),
            points@.len() > 0 && transferred >= points@.len() * DOTS ==> r is Ok,
            r is Err ==> final(self)@ == old(self)@,
            r is Ok ==> {
                &&& points@.len() > 0
                &&& transferred >= points@.len() * DOTS
                &&& r == Ok::<PixelUpdate, PixelError>((PixelUpdate { creator: caller }))
                &&& final(self)@ == painted(old(self)@, points@)
            },
    {
        if points.len() == 0 {
            return Err(PixelError::NoPoints);
        }
        if transferred < (points.len() as u128) * DOTS {
            return Err(PixelError::InsufficientPayment);
        }
        let mut i: usize = 0;
        while i < points.len()
            invariant
                0 <= i <= points@.len(),
                self.name@ == old(self).name@,
                self.metadata@ == painted(old(self).metadata@, points@.subrange(0, i as int)),
            decreases points@.len() - i,
        {
            let (index, value) = points[i];
            proof {
                lemma_painted_len(old(self).metadata@, points@.subrange(0, i as int));
                assert(points@.subrange(0, i + 1).drop_last() =~= points@.subrange(0, i as int));
            }
            if (index as usize) < self.metadata.len() {
                self.metadata.set(index as usize, value);
            }
            i = i + 1;
        }
        assert(points@.subrange(0, points@.len() as int) =~= points@);
        Ok(PixelUpdate { creator: caller })
    }
}

} // verus!
