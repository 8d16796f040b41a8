use lottery::app::{LotteryApp, Message};
use lottery::display::{prize_label, winners_text};
use lottery::model::{Candidate, DrawMode, Prize, WinRecord};

fn app_with(prizes: Vec<Prize>, names: &[&str]) -> LotteryApp {
    let mut app = LotteryApp::default();
    app.update(Message::PrizesFileSelected(Some(Ok(prizes))));
    let cands = names.iter().map(|n| Candidate { name: n.to_string(), id: None, won: false }).collect();
    app.update(Message::CandidatesFileSelected(Some(Ok(cands))));
    app
}

#[test]
fn labels() {
    let p = Prize { name: "一等奖".to_string(), total: 3, remaining: 1 };
    assert_eq!(prize_label(&p), "一等奖 ×1/3");
    let r = WinRecord { prize_name: "x".to_string(), winners: vec!["A".to_string(), "B".to_string()] };
    assert_eq!(winners_text(&r), "A、B");
}

#[test]
fn buttons_and_counts() {
    let mut app = app_with(vec![Prize { name: "P".to_string(), total: 2, remaining: 2 }], &["A", "B", "C"]);
    assert!(!app.can_start());
    assert!(app.prize_selectable(0));
    assert!(!app.prize_selectable(1));
    assert_eq!(app.draw_hint(), None);
    app.update(Message::SelectPrize(0));
    assert!(app.can_start());
    assert_eq!(app.draw_hint().as_deref(), Some("当前: P — 本次抽取 2 人"));
    app.update(Message::SetDrawMode(DrawMode::Single));
    assert_eq!(app.draw_hint().as_deref(), Some("当前: P — 本次抽取 1 人"));
    app.update(Message::StartDraw);
    assert!(!app.can_start());
    assert!(!app.prize_selectable(0));
    app.tick_with(vec!["B".to_string(), "A".to_string(), "C".to_string()]);
    app.update(Message::StopDraw);
    assert_eq!(app.won_count(), 1);
    assert_eq!(app.stats(), (3, 1, 2));
}
