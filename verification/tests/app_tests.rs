use lottery::app::{build_marquee_text, Effect, LotteryApp, Message};
use lottery::export::results_text;
use lottery::model::{Candidate, DrawMode, DrawState, Prize, WinRecord};

fn prize(name: &str, total: u32) -> Prize {
    Prize { name: name.to_string(), total, remaining: total }
}

fn cand(name: &str) -> Candidate {
    Candidate { name: name.to_string(), id: None, won: false }
}

fn loaded_app() -> LotteryApp {
    let mut app = LotteryApp::default();
    app.update(Message::PrizesFileSelected(Some(Ok(vec![prize("一等奖", 1), prize("二等奖", 2)]))));
    app.update(Message::CandidatesFileSelected(Some(Ok(vec![cand("A"), cand("B"), cand("C")]))));
    app
}

fn strings(v: &[&str]) -> Vec<String> {
    v.iter().map(|s| s.to_string()).collect()
}

#[test]
fn default_state_shows_welcome() {
    let app = LotteryApp::default();
    assert!(app.prizes.is_empty() && app.candidates.is_empty() && app.win_records.is_empty());
    assert_eq!(app.draw_state, DrawState::Idle);
    assert_eq!(app.draw_mode, DrawMode::Batch);
    assert_eq!(app.tick_count, 0);
    assert_eq!(
        app.marquee_text,
        "🎰 随机抽奖系统  ·  请导入奖品文件和候选人文件开始抽奖  ·  支持 Excel (xlsx/xls/ods) 和 TXT 格式"
    );
    assert_eq!(DrawMode::default(), DrawMode::Batch);
}

#[test]
fn marquee_lists_prizes_and_candidates() {
    let t = build_marquee_text(&vec![prize("一等奖", 1), prize("二等奖", 12)], &vec![cand("A"), cand("B")]);
    assert_eq!(t, "🎰  奖品: 一等奖×1 | 二等奖×12  ★★★  候选人(2): A · B");
    let t = build_marquee_text(&vec![], &vec![cand("A")]);
    assert_eq!(t, "🎰  尚未导入奖品  ★★★  候选人(1): A");
    let t = build_marquee_text(&vec![prize("P", 3)], &vec![]);
    assert_eq!(t, "🎰  奖品: P×3  ★★★  尚未导入候选人");
}

#[test]
fn dialogs_ask_for_files() {
    let mut app = LotteryApp::default();
    assert_eq!(app.update(Message::OpenPrizesDialog), Effect::PickPrizesFile);
    assert_eq!(app.update(Message::OpenCandidatesDialog), Effect::PickCandidatesFile);
    assert_eq!(app.update(Message::PrizesFileSelected(None)), Effect::Nothing);
    assert!(app.prizes.is_empty());
}

#[test]
fn loading_updates_marquee_and_errors() {
    let mut app = loaded_app();
    assert_eq!(app.marquee_text, "🎰  奖品: 一等奖×1 | 二等奖×2  ★★★  候选人(3): A · B · C");
    app.update(Message::PrizesFileSelected(Some(Err("bad".to_string()))));
    assert_eq!(app.error.as_deref(), Some("bad"));
    assert_eq!(app.prizes.len(), 2);
    app.update(Message::DismissError);
    assert_eq!(app.error, None);
    app.update(Message::CandidatesFileSelected(Some(Err("worse".to_string()))));
    assert_eq!(app.error.as_deref(), Some("worse"));
}

#[test]
fn start_needs_candidates_and_a_prize() {
    let mut app = LotteryApp::default();
    app.update(Message::StartDraw);
    assert_eq!(app.error.as_deref(), Some("没有可用候选人"));
    let mut app = loaded_app();
    app.update(Message::StartDraw);
    assert_eq!(app.error.as_deref(), Some("请先选择奖品，或该奖品已无剩余名额"));
    assert_eq!(app.draw_state, DrawState::Idle);
    app.update(Message::SelectPrize(7));
    app.update(Message::StartDraw);
    assert_eq!(app.draw_state, DrawState::Idle);
    app.update(Message::SelectPrize(1));
    app.update(Message::DismissError);
    app.update(Message::StartDraw);
    assert_eq!(app.draw_state, DrawState::Drawing);
    assert_eq!(app.tick_count, 0);
    assert_eq!(app.error, None);
}

#[test]
fn batch_draw_settles_remaining_places() {
    let mut app = loaded_app();
    app.update(Message::SelectPrize(1));
    app.update(Message::StartDraw);
    app.tick_with(strings(&["C", "A", "B"]));
    assert_eq!(app.tick_count, 1);
    assert_eq!(app.rolling_names, strings(&["C", "A"]));
    app.update(Message::SelectPrize(0));
    assert_eq!(app.selected_prize, Some(1));
    app.update(Message::StopDraw);
    assert_eq!(app.draw_state, DrawState::Idle);
    assert_eq!(app.prizes[1].remaining, 0);
    assert_eq!(app.selected_prize, None);
    assert_eq!(app.win_records.len(), 1);
    assert_eq!(app.win_records[0].prize_name, "二等奖");
    assert_eq!(app.win_records[0].winners, strings(&["C", "A"]));
    let won: Vec<bool> = app.candidates.iter().map(|c| c.won).collect();
    assert_eq!(won, vec![true, false, true]);
    assert_eq!(app.pool_names(), strings(&["B"]));
    assert_eq!(app.marquee_text, "🎰  奖品: 一等奖×1 | 二等奖×2  ★★★  候选人(3): A · B · C");
}

#[test]
fn single_mode_draws_one() {
    let mut app = loaded_app();
    app.update(Message::SetDrawMode(DrawMode::Single));
    app.update(Message::SelectPrize(1));
    app.update(Message::StartDraw);
    app.tick_with(strings(&["B", "A", "C"]));
    assert_eq!(app.rolling_names, strings(&["B"]));
    app.update(Message::StopDraw);
    assert_eq!(app.prizes[1].remaining, 1);
    assert_eq!(app.selected_prize, Some(1));
}

#[test]
fn repeat_win_keeps_winners_in_pool() {
    let mut app = loaded_app();
    app.update(Message::ToggleRepeatWin);
    assert!(app.repeat_win);
    app.update(Message::SelectPrize(0));
    app.update(Message::StartDraw);
    app.tick_with(strings(&["A", "B", "C"]));
    app.update(Message::StopDraw);
    assert!(app.candidates.iter().all(|c| !c.won));
    assert_eq!(app.pool_names().len(), 3);
    app.update(Message::ToggleRepeatWin);
    assert!(!app.repeat_win);
}

#[test]
fn tick_stops_by_itself() {
    let mut app = loaded_app();
    app.update(Message::SelectPrize(0));
    app.update(Message::StartDraw);
    for _ in 0..49 {
        app.update(Message::Tick);
        assert_eq!(app.draw_state, DrawState::Drawing);
        assert_eq!(app.rolling_names.len(), 1);
    }
    app.update(Message::Tick);
    assert_eq!(app.tick_count, 50);
    assert_eq!(app.draw_state, DrawState::Idle);
    assert_eq!(app.win_records.len(), 1);
    assert_eq!(app.prizes[0].remaining, 0);
    let winner = &app.win_records[0].winners[0];
    assert!(["A", "B", "C"].contains(&winner.as_str()));
    assert!(app.candidates.iter().any(|c| &c.name == winner && c.won));
}

#[test]
fn tick_draws_only_eligible_names() {
    let mut app = loaded_app();
    app.candidates[0].won = true;
    app.update(Message::SelectPrize(1));
    app.update(Message::StartDraw);
    for _ in 0..20 {
        app.update(Message::Tick);
        assert_eq!(app.rolling_names.len(), 2);
        assert!(app.rolling_names.iter().all(|n| n == "B" || n == "C"));
        assert_ne!(app.rolling_names[0], app.rolling_names[1]);
    }
}

#[test]
fn tick_with_empty_pool_stops() {
    let mut app = loaded_app();
    app.update(Message::SelectPrize(0));
    app.update(Message::StartDraw);
    for c in app.candidates.iter_mut() {
        c.won = true;
    }
    app.tick_with(vec![]);
    assert_eq!(app.draw_state, DrawState::Idle);
    assert_eq!(app.tick_count, 1);
    assert!(app.win_records.is_empty());
}

#[test]
fn stop_without_names_only_idles() {
    let mut app = loaded_app();
    app.update(Message::SelectPrize(0));
    app.update(Message::StartDraw);
    app.update(Message::StopDraw);
    assert_eq!(app.draw_state, DrawState::Idle);
    assert!(app.win_records.is_empty());
    app.update(Message::StopDraw);
    assert_eq!(app.draw_state, DrawState::Idle);
}

#[test]
fn reset_restores_everything() {
    let mut app = loaded_app();
    app.update(Message::SelectPrize(1));
    app.update(Message::StartDraw);
    app.tick_with(strings(&["A", "B", "C"]));
    app.update(Message::StopDraw);
    app.update(Message::ExportFileSelected(Some(Err("disk".to_string()))));
    assert_eq!(app.error.as_deref(), Some("disk"));
    app.update(Message::Reset);
    assert!(app.prizes.iter().all(|p| p.remaining == p.total));
    assert!(app.candidates.iter().all(|c| !c.won));
    assert!(app.win_records.is_empty() && app.rolling_names.is_empty());
    assert_eq!(app.selected_prize, None);
    assert_eq!(app.error, None);
    assert_eq!(app.draw_state, DrawState::Idle);
}

#[test]
fn export_needs_records() {
    let mut app = loaded_app();
    assert_eq!(app.update(Message::ExportResults), Effect::Nothing);
    assert_eq!(app.error.as_deref(), Some("暂无抽奖记录可导出"));
    app.update(Message::DismissError);
    app.update(Message::SelectPrize(0));
    app.update(Message::StartDraw);
    app.tick_with(strings(&["B", "A", "C"]));
    app.update(Message::StopDraw);
    assert_eq!(app.update(Message::ExportResults), Effect::PickExportFile);
    assert_eq!(app.error, None);
    app.update(Message::ExportFileSelected(Some(Ok(()))));
    assert_eq!(app.error, None);
}

#[test]
fn marquee_offset_wraps() {
    let mut app = LotteryApp::default();
    app.update(Message::MarqueeTick);
    assert_eq!(app.marquee_offset, 1);
    app.marquee_offset = usize::MAX;
    app.update(Message::MarqueeTick);
    assert_eq!(app.marquee_offset, 0);
}

#[test]
fn draw_timer_runs_only_while_drawing() {
    let mut app = loaded_app();
    assert!(!app.wants_draw_tick());
    app.update(Message::SelectPrize(0));
    app.update(Message::StartDraw);
    assert!(app.wants_draw_tick());
}

#[test]
fn results_document() {
    let records = vec![
        WinRecord { prize_name: "一等奖".to_string(), winners: strings(&["A"]) },
        WinRecord { prize_name: "二等奖".to_string(), winners: strings(&["B", "C"]) },
    ];
    assert_eq!(results_text(&records), "=== 抽奖结果 ===\n\n一等奖: A\n二等奖: B, C\n");
    assert_eq!(results_text(&vec![]), "=== 抽奖结果 ===\n\n");
}

#[test]
fn reset_twice_is_reset_once() {
    let mut app = loaded_app();
    app.update(Message::SelectPrize(0));
    app.update(Message::StartDraw);
    app.tick_with(strings(&["B", "A", "C"]));
    app.update(Message::StopDraw);
    app.update(Message::Reset);
    let once: Vec<(String, u32, u32)> = app.prizes.iter().map(|p| (p.name.clone(), p.total, p.remaining)).collect();
    let marquee = app.marquee_text.clone();
    app.update(Message::Reset);
    let twice: Vec<(String, u32, u32)> = app.prizes.iter().map(|p| (p.name.clone(), p.total, p.remaining)).collect();
    assert_eq!(once, twice);
    assert_eq!(marquee, app.marquee_text);
    assert!(app.candidates.iter().all(|c| !c.won));
}

#[test]
fn toggle_twice_restores() {
    let mut app = loaded_app();
    let before = (app.repeat_win, app.pool_names(), app.marquee_text.clone());
    app.update(Message::ToggleRepeatWin);
    app.update(Message::ToggleRepeatWin);
    assert_eq!(before, (app.repeat_win, app.pool_names(), app.marquee_text.clone()));
}

#[test]
fn tick_order_is_shuffled() {
    let mut app = loaded_app();
    app.update(Message::SelectPrize(1));
    app.update(Message::StartDraw);
    let mut firsts = std::collections::HashSet::new();
    for _ in 0..40 {
        app.update(Message::Tick);
        firsts.insert(app.rolling_names[0].clone());
        app.tick_count = 0;
    }
    assert!(firsts.len() > 1);
}
