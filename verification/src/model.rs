use vstd::prelude::*;

verus! {

/// A prize with a number of places; `remaining` counts the places not drawn yet.
#[derive(Debug, Clone)]
pub struct Prize {
    pub name: String,
    pub total: u32,
    pub remaining: u32,
}

/// The mathematical value of a [`Prize`].
pub struct PrizeView {
    pub name: Seq<char>,
    pub total: u32,
    pub remaining: u32,
}

impl View for Prize {
    type V = PrizeView;

    open spec fn view(&self) -> PrizeView {
        PrizeView { name: self.name@, total: self.total, remaining: self.remaining }
    }
}

/// A person who may be drawn; `won` is set once the person has won a prize.
#[derive(Debug, Clone)]
pub struct Candidate {
    pub name: String,
    pub id: Option<String>,
    pub won: bool,
}

/// The mathematical value of a [`Candidate`].
pub struct CandidateView {
    pub name: Seq<char>,
    pub id: Option<Seq<char>>,
    pub won: bool,
}

pub open spec fn opt_str_view(o: Option<String>) -> Option<Seq<char>> {
    match o {
        Some(s) => Some(s@),
        None => None,
    }
}

impl View for Candidate {
    type V = CandidateView;

    open spec fn view(&self) -> CandidateView {
        CandidateView { name: self.name@, id: opt_str_view(self.id), won: self.won }
    }
}

/// The names drawn for one prize in one draw.
#[derive(Debug, Clone)]
pub struct WinRecord {
    pub prize_name: String,
    pub winners: Vec<String>,
}

/// The mathematical value of a [`WinRecord`].
pub struct WinRecordView {
    pub prize_name: Seq<char>,
    pub winners: Seq<Seq<char>>,
}

/// The views of a sequence of strings.
pub open spec fn strs_view(v: Seq<String>) -> Seq<Seq<char>> {
    v.map_values(|s: String| s@)
}

impl View for WinRecord {
    type V = WinRecordView;

    open spec fn view(&self) -> WinRecordView {
        WinRecordView { prize_name: self.prize_name@, winners: strs_view(self.winners@) }
    }
}

pub open spec fn prizes_view(v: Seq<Prize>) -> Seq<PrizeView> {
    v.map_values(|p: Prize| p@)
}

pub open spec fn candidates_view(v: Seq<Candidate>) -> Seq<CandidateView> {
    v.map_values(|c: Candidate| c@)
}

pub open spec fn records_view(v: Seq<WinRecord>) -> Seq<WinRecordView> {
    v.map_values(|r: WinRecord| r@)
}

/// How many winners one press of the draw button settles.
#[derive(Debug, Clone, Copy, PartialEq, Eq, Structural)]
pub enum DrawMode {
    /// Draw all remaining winners at once
    Batch,
    /// Draw one winner per click
    Single,
}

impl Default for DrawMode {
    fn default() -> (m: Self)
        ensures
            m == DrawMode::Batch,
    {
        DrawMode::Batch
    }
}

/// Whether the names are rolling.
#[derive(Debug, Clone, Copy, PartialEq, Eq, Structural)]
pub enum DrawState {
    Idle,
    Drawing,
}

} // verus!
