use lottery::excel::{load_candidates, load_prizes, Cell, FileContents};
use lottery::model::{Candidate, Prize};

fn names_counts(v: &[Prize]) -> Vec<(String, u32, u32)> {
    v.iter().map(|p| (p.name.clone(), p.total, p.remaining)).collect()
}

fn cand_parts(v: &[Candidate]) -> Vec<(String, Option<String>, bool)> {
    v.iter().map(|c| (c.name.clone(), c.id.clone(), c.won)).collect()
}

#[test]
fn prizes_from_txt() {
    let text = "# prizes\n一等奖 1\r\n\n  二等奖 3  \n三等奖\nGrand Prize x\n";
    let p = load_prizes(&FileContents::Txt(text.to_string())).unwrap();
    assert_eq!(
        names_counts(&p),
        vec![
            ("一等奖".to_string(), 1, 1),
            ("二等奖".to_string(), 3, 3),
            ("三等奖".to_string(), 1, 1),
            ("Grand Prize".to_string(), 1, 1),
        ]
    );
}

#[test]
fn prizes_from_csv_skip_title_row() {
    let text = "奖品,数量\nPhone,2\nName,9\nTV,0\n";
    let p = load_prizes(&FileContents::Csv(text.to_string())).unwrap();
    assert_eq!(names_counts(&p), vec![("Phone".to_string(), 2, 2), ("TV".to_string(), 1, 1)]);
}

#[test]
fn empty_prize_file_is_an_error() {
    let r = load_prizes(&FileContents::Txt("# nothing\n\n   \n".to_string()));
    assert_eq!(r.unwrap_err(), "文件中未找到有效奖品数据");
    let r = load_prizes(&FileContents::Csv("Prize Name,Count\n".to_string()));
    assert_eq!(r.unwrap_err(), "文件中未找到有效奖品数据");
}

#[test]
fn candidates_from_txt_and_csv() {
    let c = load_candidates(&FileContents::Txt("张三\n  李四 \n#王五\n\n".to_string())).unwrap();
    assert_eq!(cand_parts(&c), vec![("张三".to_string(), None, false), ("李四".to_string(), None, false)]);
    let c = load_candidates(&FileContents::Csv("姓名,工号\n张三, 001\n ,x\n李四\n".to_string())).unwrap();
    assert_eq!(cand_parts(&c), vec![("张三".to_string(), None, false), ("李四".to_string(), None, false)]);
    let r = load_candidates(&FileContents::Txt(String::new()));
    assert_eq!(r.unwrap_err(), "文件中未找到有效候选人数据");
}

#[test]
fn prizes_from_sheet() {
    let rows = vec![
        vec![Cell::Text("奖品".to_string()), Cell::Text("数量".to_string())],
        vec![Cell::Text(" Phone ".to_string()), Cell::Int(3)],
        vec![Cell::Text("TV".to_string()), Cell::Float { text: "2.7".to_string(), whole: 2 }],
        vec![Cell::Text("Pen".to_string()), Cell::Int(0)],
        vec![Cell::Text("Cup".to_string()), Cell::Int(-1)],
        vec![Cell::Other, Cell::Int(5)],
        vec![],
        vec![Cell::Int(7)],
        vec![Cell::Bool(true), Cell::Text("4".to_string())],
    ];
    let p = load_prizes(&FileContents::Sheet(Some(rows))).unwrap();
    assert_eq!(
        names_counts(&p),
        vec![
            ("Phone".to_string(), 3, 3),
            ("TV".to_string(), 2, 2),
            ("Pen".to_string(), 1, 1),
            ("Cup".to_string(), u32::MAX, u32::MAX),
            ("7".to_string(), 1, 1),
            ("true".to_string(), 1, 1),
        ]
    );
}

#[test]
fn candidates_from_sheet() {
    let rows = vec![
        vec![Cell::Text("Name".to_string()), Cell::Text("ID".to_string())],
        vec![Cell::Text("张三".to_string()), Cell::Int(1001)],
        vec![Cell::Text("李四".to_string())],
        vec![Cell::Text("王五".to_string()), Cell::Text("  ".to_string())],
    ];
    let c = load_candidates(&FileContents::Sheet(Some(rows))).unwrap();
    assert_eq!(
        cand_parts(&c),
        vec![
            ("张三".to_string(), Some("1001".to_string()), false),
            ("李四".to_string(), None, false),
            ("王五".to_string(), None, false),
        ]
    );
}

#[test]
fn sheet_errors() {
    assert_eq!(load_prizes(&FileContents::Sheet(None)).unwrap_err(), "文件中没有工作表");
    assert_eq!(load_candidates(&FileContents::Sheet(None)).unwrap_err(), "文件中没有工作表");
    assert_eq!(load_prizes(&FileContents::Sheet(Some(vec![]))).unwrap_err(), "文件中未找到有效奖品数据");
    assert_eq!(
        load_candidates(&FileContents::Sheet(Some(vec![vec![Cell::Other]]))).unwrap_err(),
        "文件中未找到有效候选人数据"
    );
}

#[test]
fn loaded_prizes_are_full_and_candidates_fresh() {
    let p = load_prizes(&FileContents::Txt("A 5\nB 0\nC -3\n".to_string())).unwrap();
    assert!(p.iter().all(|p| p.remaining == p.total && p.total >= 1));
    let c = load_candidates(&FileContents::Txt("x\ny\n".to_string())).unwrap();
    assert!(c.iter().all(|c| !c.won));
}
