//! What the screen shows of the state: labels, counts, and which buttons act.

use vstd::prelude::*;
use crate::app;
use crate::app::{AppView, LotteryApp};
use crate::model;
use crate::model::{CandidateView, DrawMode, DrawState, Prize, PrizeView, WinRecord};
use crate::text;
use crate::text::{push_decimal, push_joined};

verus! {

/// A prize in the list: its name, `×`, its remaining places and its total.
pub open spec fn prize_label_text(p: PrizeView) -> Seq<char> {
    p.name + " ×"@ + text::decimal(p.remaining as nat) + "/"@ + text::decimal(p.total as nat)
}

/// The label of a prize in the list.
pub fn prize_label(p: &Prize) -> (s: String)
    ensures
        s@ == prize_label_text(p@),
{
    let mut s = p.name.clone();
    s.append(" ×");
    push_decimal(&mut s, p.remaining as u64);
    s.append("/");
    push_decimal(&mut s, p.total as u64);
    s
}

/// The winners of a record, joined by `、`.
pub fn winners_text(r: &WinRecord) -> (s: String)
    ensures
        s@ == text::join(r@.winners, "、"@),
{
    let mut s = String::new();
    push_joined(&mut s, &r.winners, "、");
    assert(s@ =~= text::join(r@.winners, "、"@));
    s
}

/// How many candidates have won.
pub open spec fn won_total(cs: Seq<CandidateView>) -> nat
    decreases cs.len(),
{
    if cs.len() == 0 {
        0
    } else {
        won_total(cs.drop_last()) + if cs.last().won { 1nat } else { 0nat }
    }
}

/// The hint under the rolling names for the selected prize: its name and how
/// many names one draw takes.
pub open spec fn hint_text(s: AppView) -> Option<Seq<char>> {
    match app::selected(s) {
        Some(p) => Some("当前: "@ + p.name + " — "@ + match s.draw_mode {
            DrawMode::Batch => "本次抽取 "@ + text::decimal(p.remaining as nat) + " 人"@,
            DrawMode::Single => "本次抽取 1 人"@,
        }),
        None => None,
    }
}

impl LotteryApp {
    /// The draw can start only when it is not running, a prize is selected
    /// and there are candidates.
    pub fn can_start(&self) -> (b: bool)
        ensures
            b == (self.draw_state != DrawState::Drawing && self.selected_prize is Some
                && self.candidates@.len() > 0),
    {
        self.draw_state != DrawState::Drawing && self.selected_prize.is_some() && self.candidates.len() > 0
    }

    /// A prize in the list can be chosen when it has places left and the
    /// names are not rolling.
    pub fn prize_selectable(&self, i: usize) -> (b: bool)
        ensures
            b == (i < self.prizes@.len() && self.prizes@[i as int].remaining > 0
                && self.draw_state == DrawState::Idle),
    {
        i < self.prizes.len() && self.prizes[i].remaining > 0 && self.draw_state == DrawState::Idle
    }

    /// How many candidates have won.
    pub fn won_count(&self) -> (n: usize)
        ensures
            n == won_total(self@.candidates),
            n <= self.candidates@.len(),
    {
        let ghost cs = model::candidates_view(self.candidates@);
        let mut n: usize = 0;
        let mut i: usize = 0;
        while i < self.candidates.len()
            invariant
                i <= self.candidates@.len(),
                cs == model::candidates_view(self.candidates@),
                n == won_total(cs.take(i as int)),
                n <= i,
            decreases self.candidates@.len() - i,
        {
            assert(cs.take(i + 1).drop_last() =~= cs.take(i as int));
            if self.candidates[i].won {
                n = n + 1;
            }
            i = i + 1;
        }
        assert(cs.take(self.candidates@.len() as int) =~= cs);
        n
    }

    /// The counts shown beside the records: candidates in all, those who
    /// have won, and those who have not.
    pub fn stats(&self) -> (r: (usize, usize, usize))
        ensures
            r.0 == self.candidates@.len(),
            r.1 == won_total(self@.candidates),
            r.2 == r.0 - r.1,
    {
        let won = self.won_count();
        let total = self.candidates.len();
        (total, won, total - won)
    }

    /// The hint for the selected prize, if one is selected.
    pub fn draw_hint(&self) -> (r: Option<String>)
        ensures
            match r {
                Some(s) => hint_text(self@) == Some(s@),
                None => hint_text(self@) is None,
            },
    {
        match self.selected_prize {
            Some(i) => {
                if i < self.prizes.len() {
                    let p = &self.prizes[i];
                    let mut s = String::from_str("当前: ");
                    s.append(p.name.as_str());
                    s.append(" — ");
                    let ghost head = s@;
                    match self.draw_mode {
                        DrawMode::Batch => {
                            s.append("本次抽取 ");
                            push_decimal(&mut s, p.remaining as u64);
                            s.append(" 人");
                        },
                        DrawMode::Single => {
                            s.append("本次抽取 1 人");
                        },
                    }
                    assert(Some(s@) =~= hint_text(self@));
                    Some(s)
                } else {
                    None
                }
            },
            None => None,
        }
    }
}

} // verus!
