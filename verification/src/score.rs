//! The score card that is kept for every account.

use vstd::prelude::*;

verus! {

/// The statistics and the points of one account.
#[derive(Clone, Copy, Debug, PartialEq, Eq, Structural)]
pub struct ScoreCard {
    pub played: u64,
    pub won: u64,
    pub draw: u64,
    pub lost: u64,
    /// Kept for the shape of the record. No operation changes it.
    pub ongoing: u64,
    pub points: i64,
}

impl Default for ScoreCard {
    fn default() -> (card: ScoreCard)
        ensures
            card == ScoreCard::zero(),
    {
        ScoreCard::new()
    }
}

impl ScoreCard {
    /// The card of an account that has never been referred to.
    pub open spec fn zero() -> ScoreCard {
        ScoreCard { played: 0, won: 0, draw: 0, lost: 0, ongoing: 0, points: 0 }
    }

    /// Every counter can still be raised by one, and the points can still
    /// move by any 32-bit amount in either direction.
    pub open spec fn has_room(self) -> bool {
        &&& self.played < u64::MAX
        &&& self.won < u64::MAX
        &&& self.draw < u64::MAX
        &&& self.lost < u64::MAX
        &&& i64::MIN + u32::MAX <= self.points <= i64::MAX - u32::MAX
    }

    /// The card after one more match was begun.
    pub open spec fn with_match(self) -> ScoreCard {
        ScoreCard { played: (self.played + 1) as u64, ..self }
    }

    /// The card after a win that is worth `points`.
    pub open spec fn with_win(self, points: u32) -> ScoreCard {
        ScoreCard { won: (self.won + 1) as u64, points: (self.points + points) as i64, ..self }
    }

    /// The card after a loss that costs `points`.
    pub open spec fn with_loss(self, points: u32) -> ScoreCard {
        ScoreCard { lost: (self.lost + 1) as u64, points: (self.points - points) as i64, ..self }
    }

    /// The card after a draw that is worth `points`.
    pub open spec fn with_draw(self, points: u32) -> ScoreCard {
        ScoreCard { draw: (self.draw + 1) as u64, points: (self.points + points) as i64, ..self }
    }

    /// A card with every counter at zero.
    pub fn new() -> (card: ScoreCard)
        ensures
            card == ScoreCard::zero(),
    {
        ScoreCard { played: 0, won: 0, draw: 0, lost: 0, ongoing: 0, points: 0 }
    }

    /// Whether every counter can still be raised and the points can still
    /// move by any 32-bit amount.
    pub fn can_record(&self) -> (room: bool)
        ensures
            room == self.has_room(),
    {
        self.played < u64::MAX && self.won < u64::MAX && self.draw < u64::MAX && self.lost
            < u64::MAX && self.points >= i64::MIN + 4294967295i64 && self.points <= i64::MAX
            - 4294967295i64
    }

    /// Counts one more match as played.
    pub fn record_match(&mut self)
        requires
            old(self).played < u64::MAX,
        ensures
            *final(self) == old(self).with_match(),
            final(self).played == old(self).played + 1,
    {
        self.played = self.played + 1;
    }

    /// Counts a win and adds its points.
    pub fn record_win(&mut self, points: u32)
        requires
            old(self).won < u64::MAX,
            old(self).points + points <= i64::MAX,
        ensures
            *final(self) == old(self).with_win(points),
            final(self).won == old(self).won + 1,
            final(self).points == old(self).points + points,
    {
        self.won = self.won + 1;
        self.points = self.points + points as i64;
    }

    /// Counts a loss and takes its points away.
    pub fn record_loss(&mut self, points: u32)
        requires
            old(self).lost < u64::MAX,
            old(self).points - points >= i64::MIN,
        ensures
            *final(self) == old(self).with_loss(points),
            final(self).lost == old(self).lost + 1,
            final(self).points == old(self).points - points,
    {
        self.lost = self.lost + 1;
        self.points = self.points - points as i64;
    }

    /// Counts a draw and adds its points.
    pub fn record_draw(&mut self, points: u32)
        requires
            old(self).draw < u64::MAX,
            old(self).points + points <= i64::MAX,
        ensures
            *final(self) == old(self).with_draw(points),
            final(self).draw == old(self).draw + 1,
            final(self).points == old(self).points + points,
    {
        self.draw = self.draw + 1;
        self.points = self.points + points as i64;
    }
}

} // verus!
