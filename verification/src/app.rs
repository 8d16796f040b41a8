//! The draw: the application's state and how each message changes it.

use vstd::prelude::*;
use rand::seq::SliceRandom;
use crate::model;
use crate::model::{Prize, PrizeView, Candidate, CandidateView, WinRecord, WinRecordView, DrawMode, DrawState};
use crate::text;
use crate::text::push_decimal;

verus! {

broadcast use vstd::seq_lib::group_seq_properties;

// ── Messages and effects ─────────────────────────────────────────────────────

/// What happened: a button, a timer, or the outcome of a file dialog.
#[derive(Debug, Clone)]
pub enum Message {
    OpenPrizesDialog,
    OpenCandidatesDialog,
    /// A prizes file was chosen and read (`None`: the dialog was closed).
    PrizesFileSelected(Option<Result<Vec<Prize>, String>>),
    /// A candidates file was chosen and read (`None`: the dialog was closed).
    CandidatesFileSelected(Option<Result<Vec<Candidate>, String>>),
    SelectPrize(usize),
    StartDraw,
    StopDraw,
    Tick,
    MarqueeTick,
    SetDrawMode(DrawMode),
    ExportResults,
    /// The results were written to the chosen file (`None`: the dialog was closed).
    ExportFileSelected(Option<Result<(), String>>),
    Reset,
    DismissError,
    ToggleRepeatWin,
}

/// The outside work that a message asks for.
#[derive(Debug, Clone, Copy, PartialEq, Eq, Structural)]
pub enum Effect {
    Nothing,
    /// Let the user pick a prizes file, then read it.
    PickPrizesFile,
    /// Let the user pick a candidates file, then read it.
    PickCandidatesFile,
    /// Let the user pick where to save the results, then write them there.
    PickExportFile,
}

// ── State ────────────────────────────────────────────────────────────────────

/// The application's state.
pub struct LotteryApp {
    pub prizes: Vec<Prize>,
    pub candidates: Vec<Candidate>,
    pub win_records: Vec<WinRecord>,
    pub selected_prize: Option<usize>,
    pub draw_state: DrawState,
    pub draw_mode: DrawMode,
    pub rolling_names: Vec<String>,
    pub tick_count: u32,
    pub error: Option<String>,
    pub marquee_offset: usize,
    pub marquee_text: String,
    pub repeat_win: bool,
}

/// The mathematical value of a [`LotteryApp`].
#[verifier::ext_equal]
pub struct AppView {
    pub prizes: Seq<PrizeView>,
    pub candidates: Seq<CandidateView>,
    pub win_records: Seq<WinRecordView>,
    pub selected_prize: Option<usize>,
    pub draw_state: DrawState,
    pub draw_mode: DrawMode,
    pub rolling_names: Seq<Seq<char>>,
    pub tick_count: u32,
    pub error: Option<Seq<char>>,
    pub marquee_offset: usize,
    pub marquee_text: Seq<char>,
    pub repeat_win: bool,
}

impl View for LotteryApp {
    type V = AppView;

    open spec fn view(&self) -> AppView {
        AppView {
            prizes: model::prizes_view(self.prizes@),
            candidates: model::candidates_view(self.candidates@),
            win_records: model::records_view(self.win_records@),
            selected_prize: self.selected_prize,
            draw_state: self.draw_state,
            draw_mode: self.draw_mode,
            rolling_names: model::strs_view(self.rolling_names@),
            tick_count: self.tick_count,
            error: model::opt_str_view(self.error),
            marquee_offset: self.marquee_offset,
            marquee_text: self.marquee_text@,
            repeat_win: self.repeat_win,
        }
    }
}

/// The state a new application starts in: nothing imported, no draw, batch
/// mode, and the welcome text.
pub open spec fn initial() -> AppView {
    AppView {
        prizes: seq![],
        candidates: seq![],
        win_records: seq![],
        selected_prize: None,
        draw_state: DrawState::Idle,
        draw_mode: DrawMode::Batch,
        rolling_names: seq![],
        tick_count: 0,
        error: None,
        marquee_offset: 0,
        marquee_text: welcome_text(),
        repeat_win: false,
    }
}

/// The number of ticks after which the names stop rolling by themselves.
pub const MAX_TICKS: u32 = 50;

/// What every reachable state keeps: the names roll for fewer than
/// `MAX_TICKS` ticks.
pub open spec fn inv(s: AppView) -> bool {
    s.draw_state == DrawState::Drawing ==> s.tick_count < MAX_TICKS
}

// ── The marquee ──────────────────────────────────────────────────────────────

pub open spec fn welcome_text() -> Seq<char> {
    "🎰 随机抽奖系统  ·  请导入奖品文件和候选人文件开始抽奖  ·  支持 Excel (xlsx/xls/ods) 和 TXT 格式"@
}

/// A prize in the marquee: its name, `×`, and its number of places.
pub open spec fn prize_tag(p: PrizeView) -> Seq<char> {
    p.name + "×"@ + text::decimal(p.total as nat)
}

pub open spec fn prize_tags(ps: Seq<PrizeView>) -> Seq<Seq<char>> {
    ps.map_values(|p: PrizeView| prize_tag(p))
}

pub open spec fn candidate_names(cs: Seq<CandidateView>) -> Seq<Seq<char>> {
    cs.map_values(|c: CandidateView| c.name)
}

pub open spec fn prize_part(ps: Seq<PrizeView>) -> Seq<char> {
    if ps.len() == 0 {
        "尚未导入奖品"@
    } else {
        "奖品: "@ + text::join(prize_tags(ps), " | "@)
    }
}

pub open spec fn candidate_part(cs: Seq<CandidateView>) -> Seq<char> {
    if cs.len() == 0 {
        "尚未导入候选人"@
    } else {
        "候选人("@ + text::decimal(cs.len()) + "): "@ + text::join(candidate_names(cs), " · "@)
    }
}

/// The scrolling text: a welcome when nothing is imported, else the prizes
/// with their places and the candidates with their number.
pub open spec fn marquee(ps: Seq<PrizeView>, cs: Seq<CandidateView>) -> Seq<char> {
    if ps.len() == 0 && cs.len() == 0 {
        welcome_text()
    } else {
        "🎰  "@ + prize_part(ps) + "  ★★★  "@ + candidate_part(cs)
    }
}

proof fn lemma_join_step(xs: Seq<Seq<char>>, sep: Seq<char>, i: int)
    requires
        0 <= i < xs.len(),
    ensures
        text::join(xs.take(i + 1), sep) == text::join(xs.take(i), sep) + (if i == 0 { Seq::<char>::empty() } else { sep }) + xs[i],
{
    assert(xs.take(i + 1).drop_last() =~= xs.take(i));
    if i == 0 {
        assert(xs.take(0) =~= Seq::<Seq<char>>::empty());
        assert(xs.take(1) =~= seq![xs[0]]);
        assert(text::join(xs.take(1), sep) == xs[0]);
        assert(Seq::<char>::empty() + Seq::<char>::empty() + xs[0] =~= xs[0]);
    }
}

/// The marquee text for `prizes` and `candidates`.
pub fn build_marquee_text(prizes: &Vec<Prize>, candidates: &Vec<Candidate>) -> (s: String)
    ensures
        s@ == marquee(model::prizes_view(prizes@), model::candidates_view(candidates@)),
{
    let ghost ps = model::prizes_view(prizes@);
    let ghost cs = model::candidates_view(candidates@);
    if prizes.len() == 0 && candidates.len() == 0 {
        return String::from_str(
            "🎰 随机抽奖系统  ·  请导入奖品文件和候选人文件开始抽奖  ·  支持 Excel (xlsx/xls/ods) 和 TXT 格式",
        );
    }
    let mut s = String::from_str("🎰  ");
    let ghost head = s@;
    if prizes.len() == 0 {
        s.append("尚未导入奖品");
    } else {
        s.append("奖品: ");
        let ghost tags = prize_tags(ps);
        let ghost mid = s@;
        let mut i: usize = 0;
        assert(tags.take(0) =~= Seq::<Seq<char>>::empty());
        assert(s@ =~= mid + text::join(tags.take(0), " | "@));
        while i < prizes.len()
            invariant
                i <= prizes@.len(),
                ps == model::prizes_view(prizes@),
                tags == prize_tags(ps),
                s@ == mid + text::join(tags.take(i as int), " | "@),
            decreases prizes@.len() - i,
        {
            proof {
                lemma_join_step(tags, " | "@, i as int);
            }
            let ghost before = s@;
            if i > 0 {
                s.append(" | ");
            }
            s.append(prizes[i].name.as_str());
            s.append("×");
            push_decimal(&mut s, prizes[i].total as u64);
            assert(tags[i as int] == prize_tag(prizes@[i as int]@));
            assert(s@ =~= before + (if i == 0 { Seq::<char>::empty() } else { " | "@ }) + tags[i as int]);
            i = i + 1;
        }
        assert(tags.take(prizes@.len() as int) =~= tags);
    }
    assert(s@ == head + prize_part(ps));
    s.append("  ★★★  ");
    let ghost head2 = s@;
    if candidates.len() == 0 {
        s.append("尚未导入候选人");
    } else {
        s.append("候选人(");
        push_decimal(&mut s, candidates.len() as u64);
        s.append("): ");
        let ghost names = candidate_names(cs);
        let ghost mid = s@;
        let mut i: usize = 0;
        assert(names.take(0) =~= Seq::<Seq<char>>::empty());
        assert(s@ =~= mid + text::join(names.take(0), " · "@));
        while i < candidates.len()
            invariant
                i <= candidates@.len(),
                cs == model::candidates_view(candidates@),
                names == candidate_names(cs),
                s@ == mid + text::join(names.take(i as int), " · "@),
            decreases candidates@.len() - i,
        {
            proof {
                lemma_join_step(names, " · "@, i as int);
            }
            let ghost before = s@;
            if i > 0 {
                s.append(" · ");
            }
            s.append(candidates[i].name.as_str());
            assert(s@ =~= before + (if i == 0 { Seq::<char>::empty() } else { " · "@ }) + names[i as int]);
            i = i + 1;
        }
        assert(names.take(candidates@.len() as int) =~= names);
    }
    assert(s@ =~= head + prize_part(ps) + "  ★★★  "@ + candidate_part(cs));
    s
}

// ── What each message does ───────────────────────────────────────────────────

pub open spec fn no_pool_msg() -> Seq<char> {
    "没有可用候选人"@
}

pub open spec fn no_prize_msg() -> Seq<char> {
    "请先选择奖品，或该奖品已无剩余名额"@
}

pub open spec fn no_records_msg() -> Seq<char> {
    "暂无抽奖记录可导出"@
}

/// The names that can be drawn, in order: every candidate's when repeat wins
/// are allowed, else those of the candidates who have not won.
pub open spec fn eligible(cs: Seq<CandidateView>, repeat_win: bool) -> Seq<Seq<char>>
    decreases cs.len(),
{
    if cs.len() == 0 {
        seq![]
    } else {
        let rest = eligible(cs.drop_last(), repeat_win);
        if repeat_win || !cs.last().won {
            rest.push(cs.last().name)
        } else {
            rest
        }
    }
}

pub open spec fn pool(s: AppView) -> Seq<Seq<char>> {
    eligible(s.candidates, s.repeat_win)
}

/// The selected prize, when the selection names one.
pub open spec fn selected(s: AppView) -> Option<PrizeView> {
    match s.selected_prize {
        Some(i) => if i < s.prizes.len() { Some(s.prizes[i as int]) } else { None },
        None => None,
    }
}

pub open spec fn min(a: int, b: int) -> int {
    if a <= b { a } else { b }
}

/// How many names one roll shows: in batch mode the selected prize's
/// remaining places (1 when none is selected), in single mode one; never
/// more than can be drawn.
pub open spec fn draw_count(s: AppView) -> int {
    match s.draw_mode {
        DrawMode::Batch => min(
            match selected(s) {
                Some(p) => p.remaining as int,
                None => 1,
            },
            pool(s).len() as int,
        ),
        DrawMode::Single => min(1, pool(s).len() as int),
    }
}

pub open spec fn load_prizes_step(s: AppView, r: Option<Result<Vec<Prize>, String>>) -> AppView {
    match r {
        Some(Ok(v)) => AppView {
            prizes: model::prizes_view(v@),
            selected_prize: None,
            error: None,
            marquee_text: marquee(model::prizes_view(v@), s.candidates),
            ..s
        },
        Some(Err(e)) => AppView { error: Some(e@), ..s },
        None => s,
    }
}

pub open spec fn load_candidates_step(s: AppView, r: Option<Result<Vec<Candidate>, String>>) -> AppView {
    match r {
        Some(Ok(v)) => AppView {
            candidates: model::candidates_view(v@),
            error: None,
            marquee_text: marquee(s.prizes, model::candidates_view(v@)),
            ..s
        },
        Some(Err(e)) => AppView { error: Some(e@), ..s },
        None => s,
    }
}

/// A prize may be chosen only while the names are not rolling.
pub open spec fn select_step(s: AppView, idx: usize) -> AppView {
    if s.draw_state == DrawState::Idle {
        AppView { selected_prize: Some(idx), rolling_names: seq![], ..s }
    } else {
        s
    }
}

/// Starting needs someone to draw and a selected prize with places left.
pub open spec fn start_step(s: AppView) -> AppView {
    if pool(s).len() == 0 {
        AppView { error: Some(no_pool_msg()), ..s }
    } else if !(selected(s) matches Some(p) && p.remaining > 0) {
        AppView { error: Some(no_prize_msg()), ..s }
    } else {
        AppView { draw_state: DrawState::Drawing, tick_count: 0, rolling_names: seq![], ..s }
    }
}

/// The first `n` names of `sh`, or all of them when there are fewer.
pub open spec fn first_names(sh: Seq<Seq<char>>, n: int) -> Seq<Seq<char>> {
    if n <= sh.len() { sh.take(n) } else { sh }
}

/// The position of the first candidate named `w`, if any.
pub open spec fn first_named(cs: Seq<CandidateView>, w: Seq<char>) -> Option<int>
    decreases cs.len(),
{
    if cs.len() == 0 {
        None
    } else {
        match first_named(cs.drop_last(), w) {
            Some(i) => Some(i),
            None => if cs.last().name == w { Some(cs.len() - 1) } else { None },
        }
    }
}

pub open spec fn mark_won(c: CandidateView) -> CandidateView {
    CandidateView { won: true, ..c }
}

/// The candidates after marking the first one named `w` as having won.
pub open spec fn mark_first(cs: Seq<CandidateView>, w: Seq<char>) -> Seq<CandidateView> {
    match first_named(cs, w) {
        Some(i) => cs.update(i, mark_won(cs[i])),
        None => cs,
    }
}

/// The candidates after marking, for each winner in turn, the first
/// candidate of that name as having won.
pub open spec fn mark_all(cs: Seq<CandidateView>, ws: Seq<Seq<char>>) -> Seq<CandidateView>
    decreases ws.len(),
{
    if ws.len() == 0 {
        cs
    } else {
        mark_first(mark_all(cs, ws.drop_last()), ws.last())
    }
}

/// Stopping settles the rolling names as winners of the selected prize, as
/// many as it has places left: they are recorded, the places are taken, the
/// winners are marked (unless repeat wins are allowed), and in batch mode a
/// prize with no place left is deselected.
pub open spec fn stop_step(s: AppView) -> AppView {
    if s.draw_state != DrawState::Drawing {
        s
    } else if s.rolling_names.len() == 0 {
        AppView { draw_state: DrawState::Idle, ..s }
    } else {
        match selected(s) {
            Some(p) => {
                let i = s.selected_prize->0;
                let to_mark = min(s.rolling_names.len() as int, p.remaining as int);
                let winners = s.rolling_names.take(to_mark);
                let cs = if s.repeat_win { s.candidates } else { mark_all(s.candidates, winners) };
                let p2 = PrizeView { remaining: (p.remaining - to_mark) as u32, ..p };
                let ps = s.prizes.update(i as int, p2);
                AppView {
                    draw_state: DrawState::Idle,
                    candidates: cs,
                    prizes: ps,
                    win_records: s.win_records.push(WinRecordView { prize_name: p.name, winners }),
                    selected_prize: if s.draw_mode == DrawMode::Batch && p2.remaining == 0 {
                        None
                    } else {
                        s.selected_prize
                    },
                    marquee_text: marquee(ps, cs),
                    ..s
                }
            },
            None => AppView {
                draw_state: DrawState::Idle,
                marquee_text: marquee(s.prizes, s.candidates),
                ..s
            },
        }
    }
}

/// A tick rolls the names: it shows the first `draw_count` names of the
/// shuffled pool `sh`, stops the draw when the pool is empty, and settles it
/// on the `MAX_TICKS`-th tick.
pub open spec fn tick_step(s: AppView, sh: Seq<Seq<char>>) -> AppView {
    if s.draw_state != DrawState::Drawing {
        s
    } else {
        let t = (s.tick_count + 1) as u32;
        if pool(s).len() == 0 {
            AppView { tick_count: t, draw_state: DrawState::Idle, ..s }
        } else {
            let s2 = AppView { tick_count: t, rolling_names: first_names(sh, draw_count(s)), ..s };
            if t >= MAX_TICKS {
                stop_step(s2)
            } else {
                s2
            }
        }
    }
}

pub open spec fn full(p: PrizeView) -> PrizeView {
    PrizeView { remaining: p.total, ..p }
}

pub open spec fn not_won(c: CandidateView) -> CandidateView {
    CandidateView { won: false, ..c }
}

/// Resetting gives every prize all its places back, clears every win and
/// every record, and stops the draw.
pub open spec fn reset_step(s: AppView) -> AppView {
    let ps = s.prizes.map_values(|p: PrizeView| full(p));
    let cs = s.candidates.map_values(|c: CandidateView| not_won(c));
    AppView {
        prizes: ps,
        candidates: cs,
        win_records: seq![],
        rolling_names: seq![],
        selected_prize: None,
        draw_state: DrawState::Idle,
        error: None,
        marquee_text: marquee(ps, cs),
        ..s
    }
}

/// The state after `msg`; `sh` is the shuffled pool that a tick draws from.
pub open spec fn step(s: AppView, msg: Message, sh: Seq<Seq<char>>) -> AppView {
    match msg {
        Message::OpenPrizesDialog => s,
        Message::OpenCandidatesDialog => s,
        Message::PrizesFileSelected(r) => load_prizes_step(s, r),
        Message::CandidatesFileSelected(r) => load_candidates_step(s, r),
        Message::SelectPrize(i) => select_step(s, i),
        Message::StartDraw => start_step(s),
        Message::StopDraw => stop_step(s),
        Message::Tick => tick_step(s, sh),
        Message::MarqueeTick => AppView {
            marquee_offset: if s.marquee_offset == usize::MAX { 0 } else { (s.marquee_offset + 1) as usize },
            ..s
        },
        Message::SetDrawMode(m) => AppView { draw_mode: m, ..s },
        Message::ExportResults => if s.win_records.len() == 0 {
            AppView { error: Some(no_records_msg()), ..s }
        } else {
            s
        },
        Message::ExportFileSelected(r) => match r {
            Some(Err(e)) => AppView { error: Some(e@), ..s },
            _ => s,
        },
        Message::Reset => reset_step(s),
        Message::DismissError => AppView { error: None, ..s },
        Message::ToggleRepeatWin => AppView { repeat_win: !s.repeat_win, ..s },
    }
}

/// The outside work that `msg` asks for in state `s`.
pub open spec fn effect_of(s: AppView, msg: Message) -> Effect {
    match msg {
        Message::OpenPrizesDialog => Effect::PickPrizesFile,
        Message::OpenCandidatesDialog => Effect::PickCandidatesFile,
        Message::ExportResults => if s.win_records.len() == 0 {
            Effect::Nothing
        } else {
            Effect::PickExportFile
        },
        _ => Effect::Nothing,
    }
}

// ── Carrying it out ──────────────────────────────────────────────────────────

impl Default for LotteryApp {
    /// Nothing imported, no draw, batch mode, and the welcome text.
    fn default() -> (app: Self)
        ensures
            app@ == initial(),
    {
        let prizes: Vec<Prize> = Vec::new();
        let candidates: Vec<Candidate> = Vec::new();
        let marquee_text = build_marquee_text(&prizes, &candidates);
        let app = LotteryApp {
            prizes,
            candidates,
            win_records: Vec::new(),
            selected_prize: None,
            draw_state: DrawState::Idle,
            draw_mode: DrawMode::Batch,
            rolling_names: Vec::new(),
            tick_count: 0,
            error: None,
            marquee_offset: 0,
            marquee_text,
            repeat_win: false,
        };
        assert(app@ =~= initial());
        app
    }
}

impl LotteryApp {
    /// The names that can be drawn now.
    pub fn pool_names(&self) -> (v: Vec<String>)
        ensures
            model::strs_view(v@) == pool(self@),
    {
        let ghost cs = model::candidates_view(self.candidates@);
        let mut v: Vec<String> = Vec::new();
        let mut i: usize = 0;
        while i < self.candidates.len()
            invariant
                i <= self.candidates@.len(),
                cs == model::candidates_view(self.candidates@),
                model::strs_view(v@) == eligible(cs.take(i as int), self.repeat_win),
            decreases self.candidates@.len() - i,
        {
            assert(cs.take(i + 1).drop_last() =~= cs.take(i as int));
            let c = &self.candidates[i];
            if self.repeat_win || !c.won {
                let ghost before = v@;
                v.push(c.name.clone());
                assert(model::strs_view(v@) =~= model::strs_view(before).push(c.name@));
            }
            i = i + 1;
        }
        assert(cs.take(self.candidates@.len() as int) =~= cs);
        v
    }

    /// The number of names that can be drawn now.
    pub fn available_count(&self) -> (n: usize)
        ensures
            n == pool(self@).len(),
    {
        let mut n: usize = 0;
        let ghost cs = model::candidates_view(self.candidates@);
        let mut i: usize = 0;
        while i < self.candidates.len()
            invariant
                i <= self.candidates@.len(),
                cs == model::candidates_view(self.candidates@),
                n == eligible(cs.take(i as int), self.repeat_win).len(),
                n <= i,
            decreases self.candidates@.len() - i,
        {
            assert(cs.take(i + 1).drop_last() =~= cs.take(i as int));
            if self.repeat_win || !self.candidates[i].won {
                n = n + 1;
            }
            i = i + 1;
        }
        assert(cs.take(self.candidates@.len() as int) =~= cs);
        n
    }

    /// The remaining places of the selected prize, if a prize is selected.
    pub fn selected_remaining(&self) -> (r: Option<u32>)
        ensures
            match selected(self@) {
                Some(p) => r == Some(p.remaining),
                None => r is None,
            },
    {
        match self.selected_prize {
            Some(i) => if i < self.prizes.len() { Some(self.prizes[i].remaining) } else { None },
            None => None,
        }
    }

    fn select_prize(&mut self, idx: usize)
        ensures
            final(self)@ == select_step(old(self)@, idx),
    {
        if self.draw_state == DrawState::Idle {
            self.selected_prize = Some(idx);
            self.rolling_names.clear();
            assert(final(self)@ =~= select_step(old(self)@, idx));
        }
    }

    fn start_draw(&mut self)
        ensures
            final(self)@ == start_step(old(self)@),
    {
        let available = self.available_count();
        let prize_ok = match self.selected_remaining() {
            Some(r) => r > 0,
            None => false,
        };
        if available == 0 {
            self.error = Some(String::from_str("没有可用候选人"));
        } else if !prize_ok {
            self.error = Some(String::from_str("请先选择奖品，或该奖品已无剩余名额"));
        } else {
            self.draw_state = DrawState::Drawing;
            self.tick_count = 0;
            self.rolling_names.clear();
        }
        assert(final(self)@ =~= start_step(old(self)@));
    }

    fn stop_draw(&mut self)
        ensures
            final(self)@ == stop_step(old(self)@),
    {
        if self.draw_state != DrawState::Drawing {
            return;
        }
        self.draw_state = DrawState::Idle;
        if self.rolling_names.len() == 0 {
            assert(final(self)@ =~= stop_step(old(self)@));
            return;
        }
        let ghost s0 = old(self)@;
        match self.selected_prize {
            Some(idx) => {
                if idx < self.prizes.len() {
                    let remaining = self.prizes[idx].remaining;
                    let to_mark: usize = if self.rolling_names.len() < remaining as usize {
                        self.rolling_names.len()
                    } else {
                        remaining as usize
                    };
                    let winners = first_of(&self.rolling_names, to_mark);
                    assert(model::strs_view(winners@) == s0.rolling_names.take(to_mark as int));
                    if !self.repeat_win {
                        mark_winners(&mut self.candidates, &winners);
                    }
                    let new_remaining = remaining - to_mark as u32;
                    let prize_name = self.prizes[idx].name.clone();
                    let p2 = Prize {
                        name: self.prizes[idx].name.clone(),
                        total: self.prizes[idx].total,
                        remaining: new_remaining,
                    };
                    let ghost ps0 = self.prizes@;
                    self.prizes.set(idx, p2);
                    assert(model::prizes_view(self.prizes@) =~= model::prizes_view(ps0).update(idx as int, p2@));
                    let ghost rs0 = self.win_records@;
                    self.win_records.push(WinRecord { prize_name, winners });
                    assert(model::records_view(self.win_records@) =~= model::records_view(rs0).push(
                        WinRecordView { prize_name: s0.prizes[idx as int].name, winners: s0.rolling_names.take(to_mark as int) },
                    ));
                    if self.draw_mode == DrawMode::Batch && new_remaining == 0 {
                        self.selected_prize = None;
                    }
                }
            },
            None => {},
        }
        self.marquee_text = build_marquee_text(&self.prizes, &self.candidates);
        assert(final(self)@ =~= stop_step(old(self)@));
    }

    /// Rolls the names once, drawing from `shuffled`, the pool in the order
    /// a shuffle left it.
    pub fn tick_with(&mut self, shuffled: Vec<String>)
        requires
            old(self).draw_state == DrawState::Drawing ==> old(self).tick_count < u32::MAX,
        ensures
            final(self)@ == tick_step(old(self)@, model::strs_view(shuffled@)),
    {
        if self.draw_state != DrawState::Drawing {
            return;
        }
        self.tick_count = self.tick_count + 1;
        let available = self.available_count();
        if available == 0 {
            self.draw_state = DrawState::Idle;
            assert(final(self)@ =~= tick_step(old(self)@, model::strs_view(shuffled@)));
            return;
        }
        let count: usize = match self.draw_mode {
            DrawMode::Batch => {
                let want: usize = match self.selected_remaining() {
                    Some(r) => r as usize,
                    None => 1,
                };
                if want <= available { want } else { available }
            },
            DrawMode::Single => 1,
        };
        let k = if count <= shuffled.len() { count } else { shuffled.len() };
        self.rolling_names = first_of(&shuffled, k);
        let ghost s2 = self@;
        assert(s2 =~= AppView {
            tick_count: (old(self)@.tick_count + 1) as u32,
            rolling_names: first_names(model::strs_view(shuffled@), draw_count(old(self)@)),
            ..old(self)@
        });
        if self.tick_count >= MAX_TICKS {
            self.stop_draw();
        }
    }

    fn reset(&mut self)
        ensures
            final(self)@ == reset_step(old(self)@),
    {
        let ghost s0 = self@;
        clear_wins(&mut self.candidates);
        refill(&mut self.prizes);
        self.win_records.clear();
        self.rolling_names.clear();
        self.selected_prize = None;
        self.draw_state = DrawState::Idle;
        self.error = None;
        self.marquee_text = build_marquee_text(&self.prizes, &self.candidates);
        assert(model::records_view(self.win_records@) =~= Seq::<WinRecordView>::empty());
        assert(model::strs_view(self.rolling_names@) =~= Seq::<Seq<char>>::empty());
        assert(final(self)@ =~= reset_step(old(self)@));
    }

    /// Handles `msg`: changes the state as `step` says and returns the outside
    /// work to do. A tick draws from the pool in an order that a random
    /// shuffle chose; whatever that order, the state is the one `step` gives
    /// for it.
    pub fn update(&mut self, msg: Message) -> (e: Effect)
        requires
            msg is Tick && old(self).draw_state == DrawState::Drawing ==> old(self).tick_count < u32::MAX,
        ensures
            e == effect_of(old(self)@, msg),
            !(msg is Tick) ==> final(self)@ == step(old(self)@, msg, seq![]),
            msg is Tick ==> exists|sh: Seq<Seq<char>>|
                #![trigger step(old(self)@, msg, sh)]
                sh.to_multiset() == pool(old(self)@).to_multiset()
                    && final(self)@ == step(old(self)@, msg, sh),
    {
        let ghost m = msg;
        match msg {
            Message::OpenPrizesDialog => Effect::PickPrizesFile,
            Message::OpenCandidatesDialog => Effect::PickCandidatesFile,
            Message::PrizesFileSelected(r) => {
                match r {
                    Some(Ok(prizes)) => {
                        self.prizes = prizes;
                        self.selected_prize = None;
                        self.error = None;
                        self.marquee_text = build_marquee_text(&self.prizes, &self.candidates);
                    },
                    Some(Err(e)) => {
                        self.error = Some(e);
                    },
                    None => {},
                }
                assert(self@ =~= step(old(self)@, m, seq![]));
                Effect::Nothing
            },
            Message::CandidatesFileSelected(r) => {
                match r {
                    Some(Ok(candidates)) => {
                        self.candidates = candidates;
                        self.error = None;
                        self.marquee_text = build_marquee_text(&self.prizes, &self.candidates);
                    },
                    Some(Err(e)) => {
                        self.error = Some(e);
                    },
                    None => {},
                }
                assert(self@ =~= step(old(self)@, m, seq![]));
                Effect::Nothing
            },
            Message::SelectPrize(idx) => {
                self.select_prize(idx);
                Effect::Nothing
            },
            Message::StartDraw => {
                self.start_draw();
                Effect::Nothing
            },
            Message::StopDraw => {
                self.stop_draw();
                Effect::Nothing
            },
            Message::Tick => {
                let mut names = self.pool_names();
                if self.draw_state == DrawState::Drawing && names.len() > 0 {
                    shuffle_names(&mut names);
                }
                let ghost sh = model::strs_view(names@);
                self.tick_with(names);
                assert(step(old(self)@, m, sh) == tick_step(old(self)@, sh));
                Effect::Nothing
            },
            Message::MarqueeTick => {
                self.marquee_offset = self.marquee_offset.wrapping_add(1);
                assert(self@ =~= step(old(self)@, m, seq![]));
                Effect::Nothing
            },
            Message::SetDrawMode(mode) => {
                self.draw_mode = mode;
                assert(self@ =~= step(old(self)@, m, seq![]));
                Effect::Nothing
            },
            Message::ExportResults => {
                if self.win_records.len() == 0 {
                    self.error = Some(String::from_str("暂无抽奖记录可导出"));
                    assert(self@ =~= step(old(self)@, m, seq![]));
                    Effect::Nothing
                } else {
                    Effect::PickExportFile
                }
            },
            Message::ExportFileSelected(r) => {
                match r {
                    Some(Err(e)) => {
                        self.error = Some(e);
                    },
                    _ => {},
                }
                assert(self@ =~= step(old(self)@, m, seq![]));
                Effect::Nothing
            },
            Message::Reset => {
                self.reset();
                Effect::Nothing
            },
            Message::DismissError => {
                self.error = None;
                assert(self@ =~= step(old(self)@, m, seq![]));
                Effect::Nothing
            },
            Message::ToggleRepeatWin => {
                self.repeat_win = !self.repeat_win;
                assert(self@ =~= step(old(self)@, m, seq![]));
                Effect::Nothing
            },
        }
    }

    /// Whether the draw timer should run: only while the names are rolling.
    pub fn wants_draw_tick(&self) -> (b: bool)
        ensures
            b == (self.draw_state == DrawState::Drawing),
    {
        self.draw_state == DrawState::Drawing
    }
}

/// `SliceRandom::shuffle` of the `rand` crate with the thread's generator:
/// puts the names in a random order. Its loop only swaps elements, so the
/// names that come out are those that went in, each as often.
#[verifier::external_body]
fn shuffle_names(names: &mut Vec<String>)
    ensures
        final(names)@.len() == old(names)@.len(),
        model::strs_view(final(names)@).to_multiset() == model::strs_view(old(names)@).to_multiset(),
{
    names.shuffle(&mut rand::thread_rng())
}

/// Clears every candidate's win.
fn clear_wins(cands: &mut Vec<Candidate>)
    ensures
        model::candidates_view(final(cands)@) == model::candidates_view(old(cands)@).map_values(
            |c: CandidateView| not_won(c),
        ),
{
    let ghost cs0 = model::candidates_view(cands@);
    let mut i: usize = 0;
    while i < cands.len()
        invariant
            i <= cands@.len() == cs0.len(),
            forall|k: int| 0 <= k < i ==> #[trigger] model::candidates_view(cands@)[k] == not_won(cs0[k]),
            forall|k: int| i <= k < cs0.len() ==> #[trigger] model::candidates_view(cands@)[k] == cs0[k],
        decreases cands@.len() - i,
    {
        let c = Candidate { name: cands[i].name.clone(), id: clone_opt(&cands[i].id), won: false };
        let ghost before = model::candidates_view(cands@);
        assert(before[i as int] == cands@[i as int]@);
        assert(c@ == not_won(cs0[i as int]));
        cands.set(i, c);
        assert(model::candidates_view(cands@) =~= before.update(i as int, not_won(cs0[i as int])));
        i = i + 1;
    }
    assert(model::candidates_view(cands@) =~= cs0.map_values(|c: CandidateView| not_won(c)));
}

/// Gives every prize all its places back.
fn refill(prizes: &mut Vec<Prize>)
    ensures
        model::prizes_view(final(prizes)@) == model::prizes_view(old(prizes)@).map_values(
            |p: PrizeView| full(p),
        ),
{
    let ghost ps0 = model::prizes_view(prizes@);
    let mut j: usize = 0;
    while j < prizes.len()
        invariant
            j <= prizes@.len() == ps0.len(),
            forall|k: int| 0 <= k < j ==> #[trigger] model::prizes_view(prizes@)[k] == full(ps0[k]),
            forall|k: int| j <= k < ps0.len() ==> #[trigger] model::prizes_view(prizes@)[k] == ps0[k],
        decreases prizes@.len() - j,
    {
        let p = Prize { name: prizes[j].name.clone(), total: prizes[j].total, remaining: prizes[j].total };
        let ghost before = model::prizes_view(prizes@);
        assert(before[j as int] == prizes@[j as int]@);
        assert(p@ == full(ps0[j as int]));
        prizes.set(j, p);
        assert(model::prizes_view(prizes@) =~= before.update(j as int, full(ps0[j as int])));
        j = j + 1;
    }
    assert(model::prizes_view(prizes@) =~= ps0.map_values(|p: PrizeView| full(p)));
}

/// The first `k` strings of `v`.
fn first_of(v: &Vec<String>, k: usize) -> (r: Vec<String>)
    requires
        k <= v@.len(),
    ensures
        model::strs_view(r@) == model::strs_view(v@).take(k as int),
{
    let mut r: Vec<String> = Vec::new();
    let mut i: usize = 0;
    while i < k
        invariant
            i <= k <= v@.len(),
            model::strs_view(r@) == model::strs_view(v@).take(i as int),
        decreases k - i,
    {
        let ghost before = r@;
        r.push(v[i].clone());
        assert(model::strs_view(r@) =~= model::strs_view(before).push(v@[i as int]@));
        assert(model::strs_view(r@) =~= model::strs_view(v@).take(i + 1));
        i = i + 1;
    }
    r
}

fn clone_opt(o: &Option<String>) -> (r: Option<String>)
    ensures
        model::opt_str_view(r) == model::opt_str_view(*o),
{
    match o {
        Some(s) => Some(s.clone()),
        None => None,
    }
}

proof fn lemma_first_named_step(cs: Seq<CandidateView>, w: Seq<char>, i: int)
    requires
        0 <= i < cs.len(),
        first_named(cs.take(i), w) is None,
    ensures
        first_named(cs.take(i + 1), w) == (if cs[i].name == w { Some(i) } else { None::<int> }),
{
    assert(cs.take(i + 1).drop_last() =~= cs.take(i));
}

proof fn lemma_first_named_prefix(cs: Seq<CandidateView>, w: Seq<char>, i: int)
    requires
        0 <= i < cs.len(),
        first_named(cs.take(i + 1), w) == Some(i),
    ensures
        first_named(cs, w) == Some(i),
    decreases cs.len(),
{
    if cs.len() == i + 1 {
        assert(cs.take(i + 1) =~= cs);
    } else {
        assert(cs.drop_last().take(i + 1) =~= cs.take(i + 1));
        lemma_first_named_prefix(cs.drop_last(), w, i);
    }
}

/// Marks the first candidate named `name` as having won.
fn mark_first_named(cands: &mut Vec<Candidate>, name: &String)
    ensures
        model::candidates_view(final(cands)@) == mark_first(model::candidates_view(old(cands)@), name@),
{
    let ghost cs = model::candidates_view(cands@);
    let mut i: usize = 0;
    assert(cs.take(0) =~= Seq::<CandidateView>::empty());
    while i < cands.len()
        invariant
            i <= cands@.len(),
            cands@ == old(cands)@,
            cs == model::candidates_view(cands@),
            first_named(cs.take(i as int), name@) is None,
        decreases cands@.len() - i,
    {
        proof {
            lemma_first_named_step(cs, name@, i as int);
        }
        if cands[i].name == *name {
            proof {
                lemma_first_named_prefix(cs, name@, i as int);
            }
            let c = Candidate { name: cands[i].name.clone(), id: clone_opt(&cands[i].id), won: true };
            cands.set(i, c);
            assert(model::candidates_view(cands@) =~= cs.update(i as int, mark_won(cs[i as int])));
            return;
        }
        i = i + 1;
    }
    assert(cs.take(cands@.len() as int) =~= cs);
}

/// Marks, for each winner in turn, the first candidate of that name as having won.
fn mark_winners(cands: &mut Vec<Candidate>, winners: &Vec<String>)
    ensures
        model::candidates_view(final(cands)@) == mark_all(model::candidates_view(old(cands)@), model::strs_view(winners@)),
{
    let ghost ws = model::strs_view(winners@);
    let mut k: usize = 0;
    assert(ws.take(0) =~= Seq::<Seq<char>>::empty());
    while k < winners.len()
        invariant
            k <= winners@.len(),
            ws == model::strs_view(winners@),
            model::candidates_view(cands@) == mark_all(model::candidates_view(old(cands)@), ws.take(k as int)),
        decreases winners@.len() - k,
    {
        assert(ws.take(k + 1).drop_last() =~= ws.take(k as int));
        mark_first_named(cands, &winners[k]);
        k = k + 1;
    }
    assert(ws.take(winners@.len() as int) =~= ws);
}

} // verus!
