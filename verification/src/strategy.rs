use vstd::prelude::*;

verus! {

/// The discrete state of the martingale strategy: whether it runs, whether
/// the position is in profit above the take-profit ratio, whether the price
/// has fallen far enough that a cover (a doubled buy) is armed, and how many
/// covers have been bought.
pub struct TradeState {
    pub is_running: bool,
    pub is_profit: bool,
    pub is_cover: bool,
    pub cover_num: u8,
}

/// What one strategy step decided about covering.
pub enum CoverDecision {
    /// No buy this step.
    Hold,
    /// Buy `2^exponent` times the first amount; `exponent` is the new number
    /// of covers.
    Buy { exponent: u8 },
}

/// The take-profit half of a step, as a function of the state before it:
/// the state after it, and whether the strategy ends.
pub open spec fn profit_step(s: TradeState, above_take_profit: bool, pulled_back: bool) -> (
    TradeState,
    bool,
) {
    let finished = above_take_profit && pulled_back;
    (
        TradeState {
            is_running: s.is_running && !finished,
            is_profit: above_take_profit,
            is_cover: s.is_cover && !above_take_profit,
            cover_num: s.cover_num,
        },
        finished,
    )
}

/// The cover half of a step, as a function of the state before it: the
/// state after it, and the decision.
pub open spec fn cover_step(
    s: TradeState,
    double_cast: u8,
    below_cover_line: bool,
    rebounded: bool,
) -> (TradeState, CoverDecision) {
    let armed = s.is_cover || below_cover_line;
    if armed && rebounded && s.cover_num < double_cast {
        let n = (s.cover_num + 1) as u8;
        (TradeState { is_cover: false, cover_num: n, ..s }, CoverDecision::Buy { exponent: n })
    } else {
        (TradeState { is_cover: armed, ..s }, CoverDecision::Hold)
    }
}

/// A cover step never takes the number of covers past the limit.
pub proof fn lemma_cover_within_limit(
    s: TradeState,
    double_cast: u8,
    below_cover_line: bool,
    rebounded: bool,
)
    requires
        s.cover_num <= double_cast,
    ensures
        cover_step(s, double_cast, below_cover_line, rebounded).0.cover_num <= double_cast,
{
}

/// A cover step buys at most once, and a buy disarms the cover.
pub proof fn lemma_cover_buys_once(
    s: TradeState,
    double_cast: u8,
    below_cover_line: bool,
    rebounded: bool,
)
    ensures
        ({
            let (t, d) = cover_step(s, double_cast, below_cover_line, rebounded);
            &&& t.cover_num == s.cover_num || t.cover_num == s.cover_num + 1
            &&& d is Buy <==> t.cover_num == s.cover_num + 1
            &&& d is Buy ==> !t.is_cover
        }),
{
}

/// The covers double: a cover is bought exactly when one is armed (before or
/// by this step's decline), the price rebounded, and fewer than `double_cast`
/// were bought; its exponent is then the new number of covers, one more than
/// before, so the k-th cover of a round buys 2^k times the first amount.
pub proof fn lemma_cover_doubles(
    s: TradeState,
    double_cast: u8,
    below_cover_line: bool,
    rebounded: bool,
)
    ensures
        ({
            let (t, d) = cover_step(s, double_cast, below_cover_line, rebounded);
            &&& (d is Buy) == ((s.is_cover || below_cover_line) && rebounded && s.cover_num
                < double_cast)
            &&& d matches CoverDecision::Buy { exponent } ==> exponent == s.cover_num + 1
                && t.cover_num == exponent
        }),
{
}

/// The profit is taken exactly when the ratio is above the take-profit ratio
/// and has pulled back by more than allowed, whatever the rest of the state
/// (covers bought, flags): two states decide alike on the same signals.
pub proof fn lemma_profit_taken_iff(
    s1: TradeState,
    s2: TradeState,
    above_take_profit: bool,
    pulled_back: bool,
)
    ensures
        profit_step(s1, above_take_profit, pulled_back).1 == (above_take_profit && pulled_back),
        profit_step(s1, above_take_profit, pulled_back).1 == profit_step(
            s2,
            above_take_profit,
            pulled_back,
        ).1,
        profit_step(s1, above_take_profit, pulled_back).1 ==> !profit_step(
            s1,
            above_take_profit,
            pulled_back,
        ).0.is_running,
{
}

/// A strategy that ends in a step stops running, and it ends only when the
/// position is in profit.
pub proof fn lemma_profit_step_ends(s: TradeState, above_take_profit: bool, pulled_back: bool)
    ensures
        ({
            let (t, finished) = profit_step(s, above_take_profit, pulled_back);
            &&& finished ==> !t.is_running && t.is_profit
            &&& t.is_profit ==> !t.is_cover
        }),
{
}

impl TradeState {
    /// The state of a strategy that has not started: nothing armed, no
    /// cover bought.
    pub fn new() -> (res: TradeState)
        ensures
            res == (TradeState { is_running: false, is_profit: false, is_cover: false, cover_num: 0 }),
    {
        TradeState { is_running: false, is_profit: false, is_cover: false, cover_num: 0 }
    }

    /// Clears the position's flags and covers, as a new round begins; whether
    /// the strategy runs is kept.
    pub fn reset(&mut self)
        ensures
            *final(self) == (TradeState {
                is_running: old(self).is_running,
                is_profit: false,
                is_cover: false,
                cover_num: 0,
            }),
    {
        self.cover_num = 0;
        self.is_profit = false;
        self.is_cover = false;
    }

    /// The take-profit half of a step. `above_take_profit`: the profit ratio
    /// exceeds the take-profit ratio; `pulled_back`: the highest profit ratio
    /// seen, this one included, exceeds this one by more than the allowed
    /// pull-back. Returns whether the strategy ends here, taking its profit.
    pub fn judge_profit(&mut self, above_take_profit: bool, pulled_back: bool) -> (finished: bool)
        ensures
            (*final(self), finished) == profit_step(*old(self), above_take_profit, pulled_back),
            finished == (above_take_profit && pulled_back),
            finished ==> !final(self).is_running,
            final(self).cover_num == old(self).cover_num,
    {
        if above_take_profit {
            self.is_profit = true;
            self.is_cover = false;
        } else {
            self.is_profit = false;
        }
        if self.is_profit && pulled_back {
            self.is_running = false;
            return true;
        }
        false
    }

    /// The cover half of a step. `below_cover_line`: the price lies below
    /// the average cost by more than the cover decline; `rebounded`: the
    /// price has risen from the lowest price seen since the cover was armed,
    /// this one included, by more than the cover rebound. A cover is bought
    /// when one is armed, the price rebounded, and fewer than `double_cast`
    /// covers were bought.
    pub fn judge_cover(&mut self, double_cast: u8, below_cover_line: bool, rebounded: bool) -> (res:
        CoverDecision)
        ensures
            (*final(self), res) == cover_step(*old(self), double_cast, below_cover_line, rebounded),
            (res is Buy) == ((old(self).is_cover || below_cover_line) && rebounded && old(
                self,
            ).cover_num < double_cast),
            res matches CoverDecision::Buy { exponent } ==> exponent == old(self).cover_num + 1
                && final(self).cover_num == exponent && !final(self).is_cover,
            res is Hold ==> final(self).cover_num == old(self).cover_num,
    {
        if below_cover_line {
            self.is_cover = true;
        }
        if self.is_cover && rebounded && self.cover_num < double_cast {
            self.cover_num = self.cover_num + 1;
            self.is_cover = false;
            return CoverDecision::Buy { exponent: self.cover_num };
        }
        CoverDecision::Hold
    }
}

/// The pause between two steps, in seconds: the configured pause, and one
/// second at least.
pub fn poll_interval_secs(sleep: u64) -> (res: u64)
    ensures
        res == if sleep >= 1 { sleep } else { 1 },
{
    if sleep >= 1 {
        sleep
    } else {
        1
    }
}

} // verus!
