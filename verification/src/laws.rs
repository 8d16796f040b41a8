//! Properties of the library as a whole: what every message keeps, what
//! loading gives, and what a draw may and may not do.

use vstd::prelude::*;
use crate::app;
use crate::app::{AppView, Message};
use crate::excel;
use crate::excel::FileContents;
use crate::model::{CandidateView, DrawMode, DrawState, PrizeView};
use crate::text;

verus! {

broadcast use vstd::seq_lib::group_seq_properties;

// ── The draw never runs away ─────────────────────────────────────────────────

/// A new application's state keeps the invariant.
pub proof fn law_initial_keeps_inv()
    ensures
        app::inv(app::initial()),
{
}

/// Every message keeps the invariant: while the names roll, fewer than
/// `MAX_TICKS` ticks have passed (so a tick can always count one more).
pub proof fn law_step_keeps_inv(s: AppView, msg: Message, sh: Seq<Seq<char>>)
    requires
        app::inv(s),
    ensures
        app::inv(app::step(s, msg, sh)),
        s.tick_count < u32::MAX || s.draw_state != DrawState::Drawing,
{
}

/// The marquee shows the current prizes and candidates.
pub open spec fn marquee_current(s: AppView) -> bool {
    s.marquee_text == app::marquee(s.prizes, s.candidates)
}

/// A new application's marquee is current (it shows the welcome text).
pub proof fn law_initial_marquee()
    ensures
        marquee_current(app::initial()),
{
}

/// Every message keeps the marquee current.
pub proof fn law_step_keeps_marquee(s: AppView, msg: Message, sh: Seq<Seq<char>>)
    requires
        marquee_current(s),
    ensures
        marquee_current(app::step(s, msg, sh)),
{
}

// ── Places ───────────────────────────────────────────────────────────────────

/// No prize has more places left than it has in all.
pub open spec fn places_ok(ps: Seq<PrizeView>) -> bool {
    forall|i: int| 0 <= i < ps.len() ==> #[trigger] ps[i].remaining <= ps[i].total
}

/// What a message brings in keeps `places_ok`: prizes that it loads have no
/// more places left than in all.
pub open spec fn message_ok(msg: Message) -> bool {
    match msg {
        Message::PrizesFileSelected(Some(Ok(v))) => places_ok(crate::model::prizes_view(v@)),
        _ => true,
    }
}

/// Every message keeps every prize's remaining places within its total.
pub proof fn law_step_keeps_places(s: AppView, msg: Message, sh: Seq<Seq<char>>)
    requires
        places_ok(s.prizes),
        message_ok(msg),
    ensures
        places_ok(app::step(s, msg, sh).prizes),
{
    let t = app::step(s, msg, sh);
    match msg {
        Message::Reset => {
            assert forall|i: int| 0 <= i < t.prizes.len() implies #[trigger] t.prizes[i].remaining <= t.prizes[i].total by {
                assert(t.prizes[i] == app::full(s.prizes[i]));
            }
        },
        _ => {},
    }
}

// ── Loading ──────────────────────────────────────────────────────────────────

/// Every prize is full and has at least one place.
pub open spec fn all_full(ps: Seq<PrizeView>) -> bool {
    forall|i: int| 0 <= i < ps.len() ==> #[trigger] ps[i].remaining == ps[i].total && ps[i].total >= 1
}

/// Nobody has won.
pub open spec fn none_won(cs: Seq<CandidateView>) -> bool {
    forall|i: int| 0 <= i < cs.len() ==> !(#[trigger] cs[i]).won
}

/// A prize line's count is at least 1.
pub proof fn law_count_at_least_one(line: Seq<char>, sep: char)
    ensures
        excel::name_count(line, sep).1 >= 1,
{
}

proof fn lemma_text_prizes_full(lines: Seq<Seq<char>>, sep: char, csv: bool)
    ensures
        all_full(excel::text_prizes(lines, sep, csv)),
    decreases lines.len(),
{
    if lines.len() > 0 {
        lemma_text_prizes_full(lines.drop_last(), sep, csv);
        law_count_at_least_one(text::trim(lines.last()), sep);
    }
}

proof fn lemma_sheet_prizes_full(rows: Seq<Seq<excel::Cell>>)
    ensures
        all_full(excel::sheet_prizes(rows)),
    decreases rows.len(),
{
    if rows.len() > 0 {
        lemma_sheet_prizes_full(rows.drop_last());
    }
}

proof fn lemma_text_candidates_fresh(lines: Seq<Seq<char>>, csv: bool)
    ensures
        none_won(excel::text_candidates(lines, csv)),
    decreases lines.len(),
{
    if lines.len() > 0 {
        lemma_text_candidates_fresh(lines.drop_last(), csv);
    }
}

proof fn lemma_sheet_candidates_fresh(rows: Seq<Seq<excel::Cell>>)
    ensures
        none_won(excel::sheet_candidates(rows)),
    decreases rows.len(),
{
    if rows.len() > 0 {
        lemma_sheet_candidates_fresh(rows.drop_last());
    }
}

/// Loaded prizes have all their places left, and at least one each.
pub proof fn law_loaded_prizes_full(contents: FileContents)
    ensures
        excel::prizes_in(contents) matches Ok(ps) ==> all_full(ps) && ps.len() > 0,
{
    match contents {
        FileContents::Txt(s) => lemma_text_prizes_full(excel::split_lines(s@), ' ', false),
        FileContents::Csv(s) => lemma_text_prizes_full(excel::split_lines(s@), ',', true),
        FileContents::Sheet(Some(rows)) => lemma_sheet_prizes_full(excel::rows_view(rows@)),
        FileContents::Sheet(None) => {},
    }
}

/// Loaded candidates have not won.
pub proof fn law_loaded_candidates_fresh(contents: FileContents)
    ensures
        excel::candidates_in(contents) matches Ok(cs) ==> none_won(cs) && cs.len() > 0,
{
    match contents {
        FileContents::Txt(s) => lemma_text_candidates_fresh(excel::split_lines(s@), false),
        FileContents::Csv(s) => lemma_text_candidates_fresh(excel::split_lines(s@), true),
        FileContents::Sheet(Some(rows)) => lemma_sheet_candidates_fresh(excel::rows_view(rows@)),
        FileContents::Sheet(None) => {},
    }
}

/// Loading fails, with its message, exactly when the file holds no entry.
pub proof fn law_load_fails_only_when_empty(contents: FileContents)
    ensures
        excel::prizes_in(contents) matches Err(e) ==> e == excel::no_prizes_msg() || e == excel::no_sheet_msg(),
        excel::candidates_in(contents) matches Err(e) ==> e == excel::no_candidates_msg() || e == excel::no_sheet_msg(),
        excel::prizes_in(contents) is Err <==> (contents matches FileContents::Sheet(None)) || match contents {
            FileContents::Txt(s) => excel::text_prizes(excel::split_lines(s@), ' ', false).len() == 0,
            FileContents::Csv(s) => excel::text_prizes(excel::split_lines(s@), ',', true).len() == 0,
            FileContents::Sheet(Some(rows)) => excel::sheet_prizes(excel::rows_view(rows@)).len() == 0,
            FileContents::Sheet(None) => true,
        },
{
}

// ── Reset and toggles ────────────────────────────────────────────────────────

/// After a reset every prize is full, nobody has won, there are no records,
/// nothing is selected or rolling, and no draw runs.
pub proof fn law_reset_restores(s: AppView, sh: Seq<Seq<char>>)
    ensures
        ({
            let t = app::step(s, Message::Reset, sh);
            &&& t.prizes.len() == s.prizes.len()
            &&& forall|i: int| 0 <= i < t.prizes.len() ==> #[trigger] t.prizes[i].remaining == s.prizes[i].total
                && t.prizes[i].total == s.prizes[i].total && t.prizes[i].name == s.prizes[i].name
            &&& t.candidates.len() == s.candidates.len()
            &&& forall|i: int| 0 <= i < t.candidates.len() ==> (#[trigger] t.candidates[i]).name == s.candidates[i].name
                && t.candidates[i].id == s.candidates[i].id
            &&& none_won(t.candidates)
            &&& t.win_records.len() == 0
            &&& t.rolling_names.len() == 0
            &&& t.selected_prize is None
            &&& t.draw_state == DrawState::Idle
            &&& t.error is None
        }),
{
}

/// Resetting twice is resetting once.
pub proof fn law_reset_idempotent(s: AppView, sh: Seq<Seq<char>>)
    ensures
        app::step(app::step(s, Message::Reset, sh), Message::Reset, sh) == app::step(s, Message::Reset, sh),
{
    let t = app::step(s, Message::Reset, sh);
    let u = app::step(t, Message::Reset, sh);
    assert(u.prizes =~= t.prizes);
    assert(u.candidates =~= t.candidates);
    assert(u =~= t);
}

/// Allowing repeat wins and then forbidding them again (or the reverse)
/// leaves the state as it was.
pub proof fn law_toggle_twice(s: AppView, sh: Seq<Seq<char>>)
    ensures
        app::step(app::step(s, Message::ToggleRepeatWin, sh), Message::ToggleRepeatWin, sh) == s,
{
}

/// The draw starts exactly when someone can be drawn and the selected prize
/// has a place left; otherwise only the error changes, naming what is missing.
pub proof fn law_start_conditions(s: AppView, sh: Seq<Seq<char>>)
    ensures
        ({
            let t = app::step(s, Message::StartDraw, sh);
            let ok = app::pool(s).len() > 0 && (app::selected(s) matches Some(p) && p.remaining > 0);
            &&& ok ==> t.draw_state == DrawState::Drawing && t.tick_count == 0 && t.rolling_names.len() == 0
                && t.error == s.error
            &&& !ok ==> t == AppView { error: t.error, ..s } && t.error is Some
            &&& app::pool(s).len() == 0 ==> t.error == Some(app::no_pool_msg())
        }),
{
}

/// While the names roll, choosing a prize changes nothing.
pub proof fn law_no_select_while_drawing(s: AppView, i: usize, sh: Seq<Seq<char>>)
    requires
        s.draw_state == DrawState::Drawing,
    ensures
        app::step(s, Message::SelectPrize(i), sh) == s,
{
}

/// Exporting asks for a file exactly when there is something to export;
/// otherwise it reports that there is not.
pub proof fn law_export_needs_records(s: AppView, sh: Seq<Seq<char>>)
    ensures
        (app::effect_of(s, Message::ExportResults) == app::Effect::PickExportFile) == (s.win_records.len() > 0),
        s.win_records.len() == 0 ==> app::step(s, Message::ExportResults, sh).error == Some(app::no_records_msg()),
{
}

// ── Drawing ──────────────────────────────────────────────────────────────────

/// Whether some candidate of `cs` is named `w`.
pub open spec fn named(cs: Seq<CandidateView>, w: Seq<char>) -> bool {
    exists|i: int| 0 <= i < cs.len() && (#[trigger] cs[i]).name == w
}

/// Whether some candidate of `cs` named `w` has won.
pub open spec fn won_by(cs: Seq<CandidateView>, w: Seq<char>) -> bool {
    exists|i: int| 0 <= i < cs.len() && (#[trigger] cs[i]).name == w && cs[i].won
}

/// Whether `w` is the name of a candidate who may be drawn.
pub open spec fn drawable(cs: Seq<CandidateView>, repeat_win: bool, w: Seq<char>) -> bool {
    exists|i: int| 0 <= i < cs.len() && (#[trigger] cs[i]).name == w && (repeat_win || !cs[i].won)
}

proof fn lemma_eligible_drawable(cs: Seq<CandidateView>, repeat_win: bool)
    ensures
        forall|k: int| 0 <= k < app::eligible(cs, repeat_win).len()
            ==> drawable(cs, repeat_win, #[trigger] app::eligible(cs, repeat_win)[k]),
    decreases cs.len(),
{
    if cs.len() > 0 {
        let d = cs.drop_last();
        lemma_eligible_drawable(d, repeat_win);
        let e = app::eligible(cs, repeat_win);
        assert forall|k: int| 0 <= k < e.len() implies drawable(cs, repeat_win, #[trigger] e[k]) by {
            let ed = app::eligible(d, repeat_win);
            if k < ed.len() {
                assert(e[k] == ed[k]);
                assert(drawable(d, repeat_win, ed[k]));
                let i = choose|i: int| 0 <= i < d.len() && (#[trigger] d[i]).name == ed[k] && (repeat_win || !d[i].won);
                assert(cs[i] == d[i]);
            } else {
                assert(cs[cs.len() - 1] == cs.last());
            }
        }
    }
}

/// A tick shows only names of candidates who may be drawn, as many as
/// `draw_count` says: without repeat wins, no one who has won is drawn again.
pub proof fn law_tick_draws_from_pool(s: AppView, sh: Seq<Seq<char>>)
    requires
        s.draw_state == DrawState::Drawing,
        app::pool(s).len() > 0,
        sh.to_multiset() == app::pool(s).to_multiset(),
    ensures
        ({
            let t = app::step(s, Message::Tick, sh);
            &&& t.rolling_names.len() == app::draw_count(s)
            &&& t.rolling_names.len() <= app::pool(s).len()
            &&& forall|k: int| 0 <= k < t.rolling_names.len()
                ==> drawable(s.candidates, s.repeat_win, #[trigger] t.rolling_names[k])
        }),
{
    let t = app::step(s, Message::Tick, sh);
    let p = app::pool(s);
    vstd::seq_lib::to_multiset_len(sh);
    vstd::seq_lib::to_multiset_len(p);
    lemma_eligible_drawable(s.candidates, s.repeat_win);
    assert forall|k: int| 0 <= k < t.rolling_names.len()
        implies drawable(s.candidates, s.repeat_win, #[trigger] t.rolling_names[k]) by {
        let w = t.rolling_names[k];
        assert(w == sh[k]);
        vstd::seq_lib::to_multiset_contains(sh, w);
        vstd::seq_lib::to_multiset_contains(p, w);
        assert(sh.contains(w));
        assert(p.contains(w));
        let j = choose|j: int| 0 <= j < p.len() && p[j] == w;
        assert(drawable(s.candidates, s.repeat_win, p[j]));
    }
}

/// In batch mode a roll shows at most the selected prize's remaining
/// places; in single mode at most one name.
pub proof fn law_draw_count_bounds(s: AppView)
    ensures
        0 <= app::draw_count(s) <= app::pool(s).len(),
        s.draw_mode == DrawMode::Single ==> app::draw_count(s) <= 1,
        s.draw_mode == DrawMode::Batch ==> (app::selected(s) matches Some(p) ==> app::draw_count(s) <= p.remaining),
        app::pool(s).len() > 0 && (s.draw_mode == DrawMode::Single || !(app::selected(s) matches Some(p) && p.remaining == 0))
            ==> app::draw_count(s) >= 1,
{
}

/// Stopping a roll settles at most the selected prize's remaining places:
/// the winners recorded are the first of the rolling names, and the places
/// taken are exactly as many as the winners.
pub proof fn law_stop_takes_places(s: AppView, sh: Seq<Seq<char>>)
    requires
        s.draw_state == DrawState::Drawing,
        s.rolling_names.len() > 0,
        app::selected(s) is Some,
    ensures
        ({
            let t = app::step(s, Message::StopDraw, sh);
            let p = app::selected(s)->0;
            let i = s.selected_prize->0 as int;
            let r = t.win_records.last();
            &&& t.draw_state == DrawState::Idle
            &&& t.win_records.len() == s.win_records.len() + 1
            &&& t.win_records.drop_last() == s.win_records
            &&& r.prize_name == p.name
            &&& r.winners.len() <= p.remaining
            &&& r.winners.len() == app::min(s.rolling_names.len() as int, p.remaining as int)
            &&& r.winners == s.rolling_names.take(r.winners.len() as int)
            &&& t.prizes.len() == s.prizes.len()
            &&& t.prizes[i].remaining + r.winners.len() == p.remaining
            &&& t.prizes[i].total == p.total
            &&& forall|j: int| 0 <= j < s.prizes.len() && j != i ==> #[trigger] t.prizes[j] == s.prizes[j]
        }),
{
    let t = app::step(s, Message::StopDraw, sh);
    assert(t.win_records.drop_last() =~= s.win_records);
}

proof fn lemma_mark_first(cs: Seq<CandidateView>, w: Seq<char>)
    ensures
        ({
            let m = app::mark_first(cs, w);
            &&& m.len() == cs.len()
            &&& forall|i: int| 0 <= i < cs.len() ==> (#[trigger] m[i]).name == cs[i].name && (cs[i].won ==> m[i].won)
            &&& named(cs, w) ==> won_by(m, w)
        }),
{
    lemma_first_named(cs, w);
    let m = app::mark_first(cs, w);
    if named(cs, w) {
        let i = app::first_named(cs, w)->0;
        assert(m[i].name == w && m[i].won);
    }
}

proof fn lemma_first_named(cs: Seq<CandidateView>, w: Seq<char>)
    ensures
        app::first_named(cs, w) matches Some(i) ==> 0 <= i < cs.len() && cs[i].name == w,
        app::first_named(cs, w) is None ==> !named(cs, w),
    decreases cs.len(),
{
    if cs.len() > 0 {
        let d = cs.drop_last();
        lemma_first_named(d, w);
        if app::first_named(cs, w) is None {
            assert forall|i: int| 0 <= i < cs.len() implies (#[trigger] cs[i]).name != w by {
                if i < d.len() {
                    assert(cs[i] == d[i]);
                }
            }
        }
    }
}

proof fn lemma_mark_all(cs: Seq<CandidateView>, ws: Seq<Seq<char>>)
    ensures
        ({
            let m = app::mark_all(cs, ws);
            &&& m.len() == cs.len()
            &&& forall|i: int| 0 <= i < cs.len() ==> (#[trigger] m[i]).name == cs[i].name && (cs[i].won ==> m[i].won)
            &&& forall|k: int| 0 <= k < ws.len() && named(cs, #[trigger] ws[k]) ==> won_by(m, ws[k])
        }),
    decreases ws.len(),
{
    if ws.len() > 0 {
        let d = ws.drop_last();
        lemma_mark_all(cs, d);
        let m0 = app::mark_all(cs, d);
        lemma_mark_first(m0, ws.last());
        let m = app::mark_all(cs, ws);
        assert forall|k: int| 0 <= k < ws.len() && named(cs, #[trigger] ws[k]) implies won_by(m, ws[k]) by {
            if k < d.len() {
                assert(ws[k] == d[k]);
                assert(won_by(m0, d[k]));
                let i = choose|i: int| 0 <= i < m0.len() && (#[trigger] m0[i]).name == d[k] && m0[i].won;
                assert(m[i].name == m0[i].name && m[i].won);
            } else {
                let i = choose|i: int| 0 <= i < cs.len() && (#[trigger] cs[i]).name == ws[k];
                assert(m0[i].name == ws[k]);
                assert(named(m0, ws[k]));
            }
        }
    }
}

/// Without repeat wins, stopping marks every winner who is a candidate as
/// having won; it never clears a win nor renames anyone.
pub proof fn law_stop_marks_winners(s: AppView, sh: Seq<Seq<char>>)
    requires
        s.draw_state == DrawState::Drawing,
        s.rolling_names.len() > 0,
        app::selected(s) is Some,
        !s.repeat_win,
    ensures
        ({
            let t = app::step(s, Message::StopDraw, sh);
            let ws = t.win_records.last().winners;
            &&& t.candidates.len() == s.candidates.len()
            &&& forall|i: int| 0 <= i < s.candidates.len() ==> (#[trigger] t.candidates[i]).name == s.candidates[i].name
                && (s.candidates[i].won ==> t.candidates[i].won)
            &&& forall|k: int| 0 <= k < ws.len() && named(s.candidates, #[trigger] ws[k]) ==> won_by(t.candidates, ws[k])
        }),
{
    let p = app::selected(s)->0;
    let to_mark = app::min(s.rolling_names.len() as int, p.remaining as int);
    lemma_mark_all(s.candidates, s.rolling_names.take(to_mark));
}

// ── Loading, line by line ────────────────────────────────────────────────────

/// The prize of one line, as a sequence of zero or one prize.
pub open spec fn prize_seq(p: Option<PrizeView>) -> Seq<PrizeView> {
    match p {
        Some(x) => seq![x],
        None => seq![],
    }
}

/// The candidate of one line, as a sequence of zero or one candidate.
pub open spec fn candidate_seq(c: Option<CandidateView>) -> Seq<CandidateView> {
    match c {
        Some(x) => seq![x],
        None => seq![],
    }
}

/// A text file's prizes are those of its lines, each line on its own, in
/// order: the prizes of two runs of lines are the prizes of the first run
/// followed by those of the second, and one line gives exactly its own prize.
pub proof fn law_text_prizes_by_line(a: Seq<Seq<char>>, b: Seq<Seq<char>>, l: Seq<char>, sep: char, csv: bool)
    ensures
        excel::text_prizes(a + b, sep, csv) == excel::text_prizes(a, sep, csv) + excel::text_prizes(b, sep, csv),
        excel::text_prizes(seq![l], sep, csv) == prize_seq(excel::text_prize(l, sep, csv)),
        excel::text_prizes(seq![l] + b, sep, csv) == prize_seq(excel::text_prize(l, sep, csv)) + excel::text_prizes(b, sep, csv),
    decreases b.len(),
{
    let e = Seq::<Seq<char>>::empty();
    assert(seq![l].drop_last() =~= e);
    assert(seq![l].last() == l);
    assert(excel::text_prizes(e, sep, csv) =~= Seq::<PrizeView>::empty());
    assert(excel::text_prizes(seq![l], sep, csv) =~= prize_seq(excel::text_prize(l, sep, csv)));
    if b.len() == 0 {
        assert(a + b =~= a);
        assert(excel::text_prizes(a, sep, csv) + excel::text_prizes(b, sep, csv) =~= excel::text_prizes(a, sep, csv));
        assert(seq![l] + b =~= seq![l]);
        assert(prize_seq(excel::text_prize(l, sep, csv)) + excel::text_prizes(b, sep, csv) =~= prize_seq(excel::text_prize(l, sep, csv)));
    } else {
        law_text_prizes_by_line(a, b.drop_last(), l, sep, csv);
        law_text_prizes_by_line(seq![l], b.drop_last(), l, sep, csv);
        assert((a + b).drop_last() =~= a + b.drop_last());
        assert((a + b).last() == b.last());
        assert((seq![l] + b).drop_last() =~= seq![l] + b.drop_last());
        assert((seq![l] + b).last() == b.last());
        let x = excel::text_prizes(a, sep, csv);
        let y = excel::text_prizes(b.drop_last(), sep, csv);
        let z = prize_seq(excel::text_prize(l, sep, csv));
        match excel::text_prize(b.last(), sep, csv) {
            Some(p) => {
                assert((x + y).push(p) =~= x + y.push(p));
                assert((z + y).push(p) =~= z + y.push(p));
            },
            None => {},
        }
    }
}

/// A text file's candidates are those of its lines, each line on its own,
/// in order.
pub proof fn law_text_candidates_by_line(a: Seq<Seq<char>>, b: Seq<Seq<char>>, csv: bool)
    ensures
        excel::text_candidates(a + b, csv) == excel::text_candidates(a, csv) + excel::text_candidates(b, csv),
    decreases b.len(),
{
    if b.len() == 0 {
        assert(a + b =~= a);
        assert(excel::text_candidates(a, csv) + excel::text_candidates(b, csv) =~= excel::text_candidates(a, csv));
    } else {
        law_text_candidates_by_line(a, b.drop_last(), csv);
        assert((a + b).drop_last() =~= a + b.drop_last());
        assert((a + b).last() == b.last());
        let x = excel::text_candidates(a, csv);
        let y = excel::text_candidates(b.drop_last(), csv);
        match excel::text_candidate(b.last(), csv) {
            Some(c) => assert((x + y).push(c) =~= x + y.push(c)),
            None => {},
        }
    }
}

/// One line gives exactly its own candidate.
pub proof fn law_text_candidates_single(l: Seq<char>, csv: bool)
    ensures
        excel::text_candidates(seq![l], csv) == candidate_seq(excel::text_candidate(l, csv)),
{
    assert(seq![l].drop_last() =~= Seq::<Seq<char>>::empty());
    assert(seq![l].last() == l);
    assert(excel::text_candidates(Seq::<Seq<char>>::empty(), csv) =~= Seq::<CandidateView>::empty());
    assert(excel::text_candidates(seq![l], csv) =~= candidate_seq(excel::text_candidate(l, csv)));
}

/// A spreadsheet's prizes and candidates are those of its rows, each row on
/// its own, in order.
pub proof fn law_sheet_by_row(a: Seq<Seq<excel::Cell>>, b: Seq<Seq<excel::Cell>>)
    ensures
        excel::sheet_prizes(a + b) == excel::sheet_prizes(a) + excel::sheet_prizes(b),
        excel::sheet_candidates(a + b) == excel::sheet_candidates(a) + excel::sheet_candidates(b),
    decreases b.len(),
{
    if b.len() == 0 {
        assert(a + b =~= a);
        assert(excel::sheet_prizes(a) + excel::sheet_prizes(b) =~= excel::sheet_prizes(a));
        assert(excel::sheet_candidates(a) + excel::sheet_candidates(b) =~= excel::sheet_candidates(a));
    } else {
        law_sheet_by_row(a, b.drop_last());
        assert((a + b).drop_last() =~= a + b.drop_last());
        assert((a + b).last() == b.last());
        let x = excel::sheet_prizes(a);
        let y = excel::sheet_prizes(b.drop_last());
        match excel::sheet_prize(b.last()) {
            Some(p) => assert((x + y).push(p) =~= x + y.push(p)),
            None => {},
        }
        let u = excel::sheet_candidates(a);
        let v = excel::sheet_candidates(b.drop_last());
        match excel::sheet_candidate(b.last()) {
            Some(c) => assert((u + v).push(c) =~= u + v.push(c)),
            None => {},
        }
    }
}

/// One row gives exactly its own prize and candidate.
pub proof fn law_sheet_single_row(r: Seq<excel::Cell>)
    ensures
        excel::sheet_prizes(seq![r]) == prize_seq(excel::sheet_prize(r)),
        excel::sheet_candidates(seq![r]) == candidate_seq(excel::sheet_candidate(r)),
{
    assert(seq![r].drop_last() =~= Seq::<Seq<excel::Cell>>::empty());
    assert(seq![r].last() == r);
    assert(excel::sheet_prizes(Seq::<Seq<excel::Cell>>::empty()) =~= Seq::<PrizeView>::empty());
    assert(excel::sheet_candidates(Seq::<Seq<excel::Cell>>::empty()) =~= Seq::<CandidateView>::empty());
    assert(excel::sheet_prizes(seq![r]) =~= prize_seq(excel::sheet_prize(r)));
    assert(excel::sheet_candidates(seq![r]) =~= candidate_seq(excel::sheet_candidate(r)));
}

/// In a `.txt` file a line that is not blank and not a `#` comment names a
/// candidate by its whole trimmed text, with no id and no win; any other line
/// names none.
pub proof fn law_txt_candidate_is_whole_line(line: Seq<char>)
    ensures
        ({
            let t = text::trim(line);
            &&& (t.len() > 0 && t[0] != '#') ==> excel::text_candidate(line, false)
                == Some(CandidateView { name: t, id: None, won: false })
            &&& !(t.len() > 0 && t[0] != '#') ==> excel::text_candidate(line, false) is None
        }),
{
}

/// A prize line that is not blank, not a comment, and (in a `.csv`) not a
/// column title gives the prize named by its text before the last separator
/// with the count after it, all places left.
pub proof fn law_text_prize_of_line(line: Seq<char>, sep: char, csv: bool)
    ensures
        ({
            let t = text::trim(line);
            let nc = excel::name_count(t, sep);
            &&& (t.len() > 0 && t[0] != '#' && !(csv && excel::prize_header(text::lowercase(nc.0))))
                ==> excel::text_prize(line, sep, csv) == Some(PrizeView { name: nc.0, total: nc.1, remaining: nc.1 })
            &&& !(t.len() > 0 && t[0] != '#') ==> excel::text_prize(line, sep, csv) is None
        }),
{
    let t = text::trim(line);
    if t.len() > 0 {
        lemma_name_nonempty(t, sep);
    }
}

proof fn lemma_name_nonempty(t: Seq<char>, sep: char)
    requires
        t.len() > 0,
    ensures
        excel::name_count(t, sep).0.len() > 0,
{
}

// ── Text ─────────────────────────────────────────────────────────────────────

proof fn lemma_trim_start_shape(s: Seq<char>)
    ensures
        exists|k: int| 0 <= k <= s.len() && text::trim_start(s) == s.subrange(k, s.len() as int)
            && (forall|i: int| 0 <= i < k ==> text::is_white_space(#[trigger] s[i])),
        text::trim_start(s).len() > 0 ==> !text::is_white_space(text::trim_start(s)[0]),
    decreases s.len(),
{
    if s.len() > 0 && text::is_white_space(s[0]) {
        let d = s.drop_first();
        lemma_trim_start_shape(d);
        let k = choose|k: int| 0 <= k <= d.len() && text::trim_start(d) == d.subrange(k, d.len() as int)
            && (forall|i: int| 0 <= i < k ==> text::is_white_space(#[trigger] d[i]));
        assert(d.subrange(k, d.len() as int) =~= s.subrange(k + 1, s.len() as int));
        assert forall|i: int| 0 <= i < k + 1 implies text::is_white_space(#[trigger] s[i]) by {
            if i > 0 {
                assert(s[i] == d[i - 1]);
            }
        }
    } else {
        assert(s.subrange(0, s.len() as int) =~= s);
    }
}

proof fn lemma_trim_end_shape(s: Seq<char>)
    ensures
        exists|k: int| 0 <= k <= s.len() && text::trim_end(s) == s.subrange(0, k)
            && (forall|i: int| k <= i < s.len() ==> text::is_white_space(#[trigger] s[i])),
        text::trim_end(s).len() > 0 ==> !text::is_white_space(text::trim_end(s).last()),
    decreases s.len(),
{
    if s.len() > 0 && text::is_white_space(s.last()) {
        let d = s.drop_last();
        lemma_trim_end_shape(d);
        let k = choose|k: int| 0 <= k <= d.len() && text::trim_end(d) == d.subrange(0, k)
            && (forall|i: int| k <= i < d.len() ==> text::is_white_space(#[trigger] d[i]));
        assert(d.subrange(0, k) =~= s.subrange(0, k));
        assert forall|i: int| k <= i < s.len() implies text::is_white_space(#[trigger] s[i]) by {
            if i < d.len() {
                assert(s[i] == d[i]);
            }
        }
    } else {
        assert(s.subrange(0, s.len() as int) =~= s);
    }
}

/// Trimming removes white space at both ends and nothing else: the result is
/// a stretch of the text with only white space before and after it, and it
/// neither starts nor ends with white space.
pub proof fn law_trim_shape(s: Seq<char>)
    ensures
        exists|i: int, j: int| 0 <= i <= j <= s.len() && text::trim(s) == s.subrange(i, j)
            && (forall|k: int| 0 <= k < i ==> text::is_white_space(#[trigger] s[k]))
            && (forall|k: int| j <= k < s.len() ==> text::is_white_space(#[trigger] s[k])),
        text::trim(s).len() > 0 ==> !text::is_white_space(text::trim(s)[0])
            && !text::is_white_space(text::trim(s).last()),
{
    lemma_trim_start_shape(s);
    let a = text::trim_start(s);
    lemma_trim_end_shape(a);
    let i = choose|k: int| 0 <= k <= s.len() && text::trim_start(s) == s.subrange(k, s.len() as int)
        && (forall|m: int| 0 <= m < k ==> text::is_white_space(#[trigger] s[m]));
    let k = choose|k: int| 0 <= k <= a.len() && text::trim_end(a) == a.subrange(0, k)
        && (forall|m: int| k <= m < a.len() ==> text::is_white_space(#[trigger] a[m]));
    assert(a.subrange(0, k) =~= s.subrange(i, i + k));
    assert forall|m: int| i + k <= m < s.len() implies text::is_white_space(#[trigger] s[m]) by {
        assert(s[m] == a[m - i]);
    }
    let t = text::trim(s);
    if t.len() > 0 {
        assert(t[0] == a[0]);
    }
}

proof fn lemma_decimal_digits(n: nat)
    ensures
        text::decimal(n).len() > 0,
        text::all_digits(text::decimal(n)),
        text::digits_value(text::decimal(n)) == n,
        text::decimal(n)[0] != '+',
    decreases n,
{
    let d = text::digit_char(n % 10);
    assert(text::digit_value(d) == n % 10);
    if n >= 10 {
        lemma_decimal_digits(n / 10);
        let p = text::decimal(n / 10);
        assert(text::decimal(n) == p.push(d));
        assert(p.push(d).drop_last() =~= p);
        assert(p.push(d).last() == d);
        assert(text::digits_value(p.push(d)) == text::digits_value(p) * 10 + text::digit_value(d));
        assert(n == (n / 10) * 10 + n % 10);
        assert forall|i: int| 0 <= i < p.push(d).len() implies text::is_digit(#[trigger] p.push(d)[i]) by {
            if i < p.len() {
                assert(p.push(d)[i] == p[i]);
            }
        }
    } else {
        assert(text::decimal(n) =~= seq![d]);
        assert(seq![d].drop_last() =~= Seq::<char>::empty());
        assert(seq![d].last() == d);
        assert(text::digits_value(Seq::<char>::empty()) == 0);
        assert(text::digits_value(seq![d]) == text::digits_value(Seq::<char>::empty()) * 10 + text::digit_value(d));
    }
}

/// Reading back a number that was written in decimal gives the number.
pub proof fn law_parse_reads_decimal(n: u32)
    ensures
        text::parse_u32(text::decimal(n as nat)) == Some(n),
        text::parse_u32(seq!['+'] + text::decimal(n as nat)) == Some(n),
{
    lemma_decimal_digits(n as nat);
    assert((seq!['+'] + text::decimal(n as nat)).drop_first() =~= text::decimal(n as nat));
}

proof fn lemma_last_sep(n: Seq<char>, sep: char, d: Seq<char>)
    requires
        forall|i: int| 0 <= i < d.len() ==> d[i] != sep,
    ensures
        text::last_index_of(n + seq![sep] + d, sep) == Some(n.len() as int),
    decreases d.len(),
{
    let s = n + seq![sep] + d;
    if d.len() == 0 {
        assert(s.last() == sep);
    } else {
        assert(s.last() == d.last());
        assert(s.drop_last() =~= n + seq![sep] + d.drop_last());
        lemma_last_sep(n, sep, d.drop_last());
    }
}

/// A prize line written as a name, the separator, and a count (with no
/// separator in the count) gives that name, trimmed, and that count (at
/// least 1); a line without the separator is all name, with count 1.
pub proof fn law_name_count_reads_line(n: Seq<char>, sep: char, d: Seq<char>)
    requires
        forall|i: int| 0 <= i < d.len() ==> d[i] != sep,
        text::trim(n).len() > 0,
    ensures
        excel::name_count(n + seq![sep] + d, sep) == (text::trim(n), match text::parse_u32(text::trim(d)) {
            Some(v) => if v >= 1 { v } else { 1u32 },
            None => 1u32,
        }),
        excel::name_count(d, sep) == (d, 1u32),
{
    let s = n + seq![sep] + d;
    lemma_last_sep(n, sep, d);
    assert(s.subrange(0, n.len() as int) =~= n);
    assert(s.subrange(n.len() as int + 1, s.len() as int) =~= d);
    text::lemma_last_index_of(d, sep);
}

/// Joining one more string adds the separator and that string.
pub proof fn law_join_push(xs: Seq<Seq<char>>, x: Seq<char>, sep: Seq<char>)
    ensures
        xs.len() > 0 ==> text::join(xs.push(x), sep) == text::join(xs, sep) + sep + x,
        text::join(seq![x], sep) == x,
{
    assert(xs.push(x).drop_last() =~= xs);
    assert(seq![x] =~= Seq::<Seq<char>>::empty().push(x));
}

/// The marquee lists every prize, in order, each with its number of places,
/// and names every candidate, in order: one more prize adds ` | ` and its tag,
/// one more candidate adds its name.
pub proof fn law_marquee_lists_all(ps: Seq<PrizeView>, p: PrizeView, cs: Seq<CandidateView>, c: CandidateView)
    ensures
        app::prize_part(ps.push(p)) == if ps.len() == 0 {
            "奖品: "@ + p.name + "×"@ + text::decimal(p.total as nat)
        } else {
            app::prize_part(ps) + " | "@ + p.name + "×"@ + text::decimal(p.total as nat)
        },
        app::candidate_names(cs.push(c)) == app::candidate_names(cs).push(c.name),
        app::candidate_names(cs).len() == cs.len(),
{
    let tags = app::prize_tags(ps);
    assert(app::prize_tags(ps.push(p)) =~= tags.push(app::prize_tag(p)));
    law_join_push(tags, app::prize_tag(p), " | "@);
    assert(app::candidate_names(cs.push(c)) =~= app::candidate_names(cs).push(c.name));
    if ps.len() == 0 {
        assert(tags.push(app::prize_tag(p)) =~= seq![app::prize_tag(p)]);
    }
    assert(app::prize_tag(p) == p.name + "×"@ + text::decimal(p.total as nat));
    assert(("奖品: "@ + text::join(tags, " | "@)) + " | "@ + app::prize_tag(p)
        =~= "奖品: "@ + (text::join(tags, " | "@) + " | "@ + app::prize_tag(p)));
    assert("奖品: "@ + app::prize_tag(p) =~= "奖品: "@ + p.name + "×"@ + text::decimal(p.total as nat));
    assert(app::prize_part(ps) + " | "@ + app::prize_tag(p) =~= app::prize_part(ps) + " | "@ + p.name + "×"@ + text::decimal(p.total as nat));
}

// ── Rolling, by the numbers ──────────────────────────────────────────────────

/// The drawable names of two runs of candidates are those of the first run
/// followed by those of the second; one candidate gives its name exactly when
/// repeat wins are allowed or it has not won.
pub proof fn law_eligible_by_candidate(a: Seq<CandidateView>, b: Seq<CandidateView>, c: CandidateView, repeat_win: bool)
    ensures
        app::eligible(a + b, repeat_win) == app::eligible(a, repeat_win) + app::eligible(b, repeat_win),
        app::eligible(seq![c], repeat_win) == (if repeat_win || !c.won { seq![c.name] } else { Seq::<Seq<char>>::empty() }),
    decreases b.len(),
{
    assert(seq![c].drop_last() =~= Seq::<CandidateView>::empty());
    assert(seq![c].last() == c);
    assert(app::eligible(Seq::<CandidateView>::empty(), repeat_win) =~= Seq::<Seq<char>>::empty());
    assert(app::eligible(seq![c], repeat_win) =~= (if repeat_win || !c.won { seq![c.name] } else { Seq::<Seq<char>>::empty() }));
    if b.len() == 0 {
        assert(a + b =~= a);
        assert(app::eligible(a, repeat_win) + app::eligible(b, repeat_win) =~= app::eligible(a, repeat_win));
    } else {
        law_eligible_by_candidate(a, b.drop_last(), c, repeat_win);
        assert((a + b).drop_last() =~= a + b.drop_last());
        assert((a + b).last() == b.last());
        let x = app::eligible(a, repeat_win);
        let y = app::eligible(b.drop_last(), repeat_win);
        if repeat_win || !b.last().won {
            assert((x + y).push(b.last().name) =~= x + y.push(b.last().name));
        }
    }
}

/// A roll in batch mode with a selected prize shows the first
/// `min(remaining places, drawable names)` names of the shuffled pool; in
/// single mode it shows one.
pub proof fn law_tick_shows_count(s: AppView, sh: Seq<Seq<char>>)
    requires
        s.draw_state == DrawState::Drawing,
        s.tick_count < app::MAX_TICKS,
        app::pool(s).len() > 0,
        sh.len() == app::pool(s).len(),
    ensures
        ({
            let t = app::step(s, Message::Tick, sh);
            let n = app::pool(s).len() as int;
            &&& (s.draw_mode == DrawMode::Batch && app::selected(s) matches Some(p)) ==> {
                let want = app::selected(s)->0.remaining as int;
                t.rolling_names == sh.take(if want <= n { want } else { n })
            }
            &&& (s.draw_mode == DrawMode::Batch && app::selected(s) is None) ==> t.rolling_names == sh.take(1)
            &&& s.draw_mode == DrawMode::Single ==> t.rolling_names == sh.take(1)
            &&& t.tick_count == s.tick_count + 1
        }),
{
}

/// The names stop rolling by themselves on the `MAX_TICKS`-th tick, and not before.
pub proof fn law_tick_stops_at_limit(s: AppView, sh: Seq<Seq<char>>)
    requires
        s.draw_state == DrawState::Drawing,
        s.tick_count < app::MAX_TICKS,
        app::pool(s).len() > 0,
    ensures
        (app::step(s, Message::Tick, sh).draw_state == DrawState::Idle) == (s.tick_count + 1 == app::MAX_TICKS),
{
}

// ── Export ───────────────────────────────────────────────────────────────────

/// The exported text has one line per record, in order: the lines of two
/// runs of records are those of the first followed by those of the second,
/// and one record gives exactly its own line (prize, `: `, winners joined by
/// `, `, line feed).
pub proof fn law_export_line_per_record(a: Seq<crate::model::WinRecordView>, b: Seq<crate::model::WinRecordView>, r: crate::model::WinRecordView)
    ensures
        crate::export::result_lines(a + b) == crate::export::result_lines(a) + crate::export::result_lines(b),
        crate::export::result_lines(a.push(r)) == crate::export::result_lines(a) + r.prize_name + ": "@
            + text::join(r.winners, ", "@) + "\n"@,
        crate::export::results_document(a) == "=== 抽奖结果 ===\n"@ + "\n"@ + crate::export::result_lines(a),
    decreases b.len(),
{
    assert(a.push(r).drop_last() =~= a);
    if b.len() == 0 {
        assert(a + b =~= a);
        assert(crate::export::result_lines(a) + crate::export::result_lines(b) =~= crate::export::result_lines(a));
    } else {
        law_export_line_per_record(a, b.drop_last(), r);
        assert((a + b).drop_last() =~= a + b.drop_last());
        assert((a + b).last() == b.last());
        let x = crate::export::result_lines(a);
        let y = crate::export::result_lines(b.drop_last());
        let z = crate::export::result_line(b.last());
        assert((x + y) + z =~= x + (y + z));
    }
}

} // verus!
