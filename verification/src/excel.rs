//! Turning the contents of an imported file into prizes or candidates.
//!
//! A text file holds one entry per line; blank lines and lines that start
//! with `#` are skipped. A prize line ends with its count after the last
//! separator (a space in `.txt`, a comma in `.csv`); a candidate line is the
//! name (in `.csv` the first column). A spreadsheet holds the name in the
//! first column and the count (prizes) or an id (candidates) in the second.
//! In `.csv` and spreadsheets a row whose name reads like a column title is
//! skipped.

use vstd::prelude::*;
use crate::model;
use crate::model::{Prize, PrizeView, Candidate, CandidateView};
use crate::text;
use crate::text::{chars_of, string_of, sub_chars, trim_chars, trim_str, contains_str, rfind_char, parse_u32_chars, push_signed_decimal, to_lowercase};

verus! {

// ── Inputs ───────────────────────────────────────────────────────────────────

/// One spreadsheet cell, as the loaders read it.
#[derive(Debug, Clone)]
pub enum Cell {
    /// A text cell.
    Text(String),
    /// A number with a fraction: `text` is the number as `to_string` writes
    /// it and `whole` is the number converted to `u32` (rounded toward zero,
    /// saturating at the bounds, 0 for NaN).
    Float { text: String, whole: u32 },
    /// A whole number.
    Int(i64),
    /// A boolean.
    Bool(bool),
    /// Any other cell: empty, a date or time, a duration or an error.
    Other,
}

/// The contents of an imported file.
#[derive(Debug, Clone)]
pub enum FileContents {
    /// A `.txt` file's text.
    Txt(String),
    /// A `.csv` file's text.
    Csv(String),
    /// A spreadsheet: the rows of its first sheet, or `None` when it has no sheet.
    Sheet(Option<Vec<Vec<Cell>>>),
}

/// How a file is read, chosen by its extension.
#[derive(Debug, Clone, Copy, PartialEq, Eq, Structural)]
pub enum FileKind {
    Txt,
    Csv,
    Excel,
}

/// The kind of a file whose extension, in lowercase, is `lowered`.
pub open spec fn kind_of(lowered: Seq<char>) -> FileKind {
    if lowered == "txt"@ {
        FileKind::Txt
    } else if lowered == "csv"@ {
        FileKind::Csv
    } else {
        FileKind::Excel
    }
}

/// The kind of a file whose extension, already in lowercase, is `lowered`.
pub fn kind_of_lowered(lowered: &str) -> (k: FileKind)
    ensures
        k == kind_of(lowered@),
{
    let l = String::from_str(lowered);
    let txt = String::from_str("txt");
    let csv = String::from_str("csv");
    if l == txt {
        FileKind::Txt
    } else if l == csv {
        FileKind::Csv
    } else {
        FileKind::Excel
    }
}

/// The kind of a file with the extension `extension` (empty when it has none),
/// compared without regard to case.
pub fn file_kind(extension: &str) -> (k: FileKind)
    ensures
        k == kind_of(text::lowercase(extension@)),
{
    let l = to_lowercase(extension);
    kind_of_lowered(l.as_str())
}

// ── Messages ─────────────────────────────────────────────────────────────────

pub open spec fn no_prizes_msg() -> Seq<char> {
    "文件中未找到有效奖品数据"@
}

pub open spec fn no_candidates_msg() -> Seq<char> {
    "文件中未找到有效候选人数据"@
}

pub open spec fn no_sheet_msg() -> Seq<char> {
    "文件中没有工作表"@
}

/// `Ok(items)` when there is at least one item, else the error `msg`.
pub fn non_empty<T>(v: Vec<T>, msg: &str) -> (r: Result<Vec<T>, String>)
    ensures
        match r {
            Ok(w) => w@ == v@ && v@.len() > 0,
            Err(e) => e@ == msg@ && v@.len() == 0,
        },
{
    if v.len() == 0 {
        Err(String::from_str(msg))
    } else {
        Ok(v)
    }
}

// ── Lines ────────────────────────────────────────────────────────────────────

/// The pieces of `s` between line feeds: `s` split at every `'\n'`.
/// (`str::lines` also drops a `'\r'` before a `'\n'` and a final empty piece;
/// every piece is trimmed and empty ones are skipped, so the loaders see the
/// same lines either way.)
pub open spec fn split_lines(s: Seq<char>) -> Seq<Seq<char>>
    decreases s.len(),
{
    if s.len() == 0 {
        seq![seq![]]
    } else {
        let prev = split_lines(s.drop_last());
        if s.last() == '\n' {
            prev.push(seq![])
        } else {
            prev.update(prev.len() - 1, prev.last().push(s.last()))
        }
    }
}

proof fn lemma_split_lines_nonempty(s: Seq<char>)
    ensures
        split_lines(s).len() >= 1,
    decreases s.len(),
{
    if s.len() > 0 {
        lemma_split_lines_nonempty(s.drop_last());
    }
}

pub open spec fn chars_seqs(v: Seq<Vec<char>>) -> Seq<Seq<char>> {
    v.map_values(|l: Vec<char>| l@)
}

/// The lines of `s`.
pub fn lines_of(s: &str) -> (r: Vec<Vec<char>>)
    ensures
        chars_seqs(r@) == split_lines(s@),
{
    let cs = chars_of(s);
    let mut done: Vec<Vec<char>> = Vec::new();
    let mut cur: Vec<char> = Vec::new();
    let mut i: usize = 0;
    assert(cs@.take(0) =~= Seq::<char>::empty());
    while i < cs.len()
        invariant
            i <= cs@.len(),
            cs@ == s@,
            chars_seqs(done@).push(cur@) == split_lines(cs@.take(i as int)),
        decreases cs@.len() - i,
    {
        let c = cs[i];
        assert(cs@.take(i + 1).drop_last() =~= cs@.take(i as int));
        proof {
            lemma_split_lines_nonempty(cs@.take(i as int));
        }
        if c == '\n' {
            let mut old_cur: Vec<char> = Vec::new();
            std::mem::swap(&mut old_cur, &mut cur);
            done.push(old_cur);
            assert(chars_seqs(done@).push(cur@) =~= split_lines(cs@.take(i as int)).push(seq![]));
        } else {
            let ghost before = cur@;
            cur.push(c);
            let ghost prev = split_lines(cs@.take(i as int));
            assert(chars_seqs(done@).push(cur@) =~= prev.update(prev.len() - 1, before.push(c)));
        }
        i = i + 1;
    }
    assert(cs@.take(cs@.len() as int) =~= cs@);
    done.push(cur);
    done
}

// ── Name and count ───────────────────────────────────────────────────────────

/// `n`, but at least 1.
pub open spec fn at_least_one(n: u32) -> u32 {
    if n < 1 { 1 } else { n }
}

/// The name and count of a prize line: the text before the last `sep` and
/// the number after it (1 when it is not a number, and at least 1), both
/// trimmed; the whole line with count 1 when there is no `sep` or nothing
/// before it.
pub open spec fn name_count(line: Seq<char>, sep: char) -> (Seq<char>, u32) {
    match text::last_index_of(line, sep) {
        Some(pos) => {
            let name = text::trim(line.subrange(0, pos));
            let count = match text::parse_u32(text::trim(line.subrange(pos + 1, line.len() as int))) {
                Some(n) => at_least_one(n),
                None => 1,
            };
            if name.len() > 0 {
                (name, count)
            } else {
                (line, 1)
            }
        },
        None => (line, 1),
    }
}

fn name_count_chars(line: &Vec<char>, sep: char) -> (r: (Vec<char>, u32))
    ensures
        (r.0@, r.1) == name_count(line@, sep),
{
    proof {
        text::lemma_last_index_of(line@, sep);
    }
    match rfind_char(line, sep) {
        Some(pos) => {
            let n = line.len();
            assert(pos < n);
            let before = sub_chars(line, 0, pos);
            let name = trim_chars(&before);
            let after = sub_chars(line, pos + 1, n);
            let count_text = trim_chars(&after);
            let count = match parse_u32_chars(&count_text) {
                Some(n) => if n < 1 { 1 } else { n },
                None => 1,
            };
            if name.len() > 0 {
                (name, count)
            } else {
                (sub_chars(line, 0, line.len()), 1)
            }
        },
        None => {
            proof {
                assert(line@.subrange(0, line@.len() as int) =~= line@);
            }
            (sub_chars(line, 0, line.len()), 1)
        },
    }
}

/// The name and count of the prize line `line`, whose parts `sep` separates.
pub fn parse_name_count(line: &str, sep: char) -> (r: (String, u32))
    ensures
        (r.0@, r.1) == name_count(line@, sep),
{
    let cs = chars_of(line);
    let (name, count) = name_count_chars(&cs, sep);
    (string_of(&name), count)
}

// ── Column titles ────────────────────────────────────────────────────────────

/// Whether a prize name, in lowercase, reads like the title of the name column.
pub open spec fn prize_header(lowered: Seq<char>) -> bool {
    text::contains(lowered, "奖品"@) || text::contains(lowered, "name"@)
}

/// Whether a candidate name, in lowercase, reads like the title of the name column.
pub open spec fn candidate_header(lowered: Seq<char>) -> bool {
    text::contains(lowered, "姓名"@) || text::contains(lowered, "name"@)
}

/// Whether the lowercase prize name `lowered` is a column title.
pub fn is_prize_header(lowered: &str) -> (b: bool)
    ensures
        b == prize_header(lowered@),
{
    contains_str(lowered, "奖品") || contains_str(lowered, "name")
}

/// Whether the lowercase candidate name `lowered` is a column title.
pub fn is_candidate_header(lowered: &str) -> (b: bool)
    ensures
        b == candidate_header(lowered@),
{
    contains_str(lowered, "姓名") || contains_str(lowered, "name")
}

fn prize_titled(name: &Vec<char>) -> (b: bool)
    ensures
        b == prize_header(text::lowercase(name@)),
{
    let s = string_of(name);
    let l = to_lowercase(s.as_str());
    is_prize_header(l.as_str())
}

fn candidate_titled(name: &Vec<char>) -> (b: bool)
    ensures
        b == candidate_header(text::lowercase(name@)),
{
    let s = string_of(name);
    let l = to_lowercase(s.as_str());
    is_candidate_header(l.as_str())
}

// ── Text files ───────────────────────────────────────────────────────────────

/// Whether a trimmed line holds no entry: it is empty or a `#` comment.
pub open spec fn skipped_line(t: Seq<char>) -> bool {
    t.len() == 0 || t[0] == '#'
}

/// The prize on one line of a text file, if any (`csv`: the file is a `.csv`).
pub open spec fn text_prize(line: Seq<char>, sep: char, csv: bool) -> Option<PrizeView> {
    let t = text::trim(line);
    if skipped_line(t) {
        None
    } else {
        let nc = name_count(t, sep);
        if nc.0.len() > 0 && !(csv && prize_header(text::lowercase(nc.0))) {
            Some(PrizeView { name: nc.0, total: nc.1, remaining: nc.1 })
        } else {
            None
        }
    }
}

/// The prizes on the lines `lines`, in order.
pub open spec fn text_prizes(lines: Seq<Seq<char>>, sep: char, csv: bool) -> Seq<PrizeView>
    decreases lines.len(),
{
    if lines.len() == 0 {
        seq![]
    } else {
        let rest = text_prizes(lines.drop_last(), sep, csv);
        match text_prize(lines.last(), sep, csv) {
            Some(p) => rest.push(p),
            None => rest,
        }
    }
}

/// The index of the first `c` in `s`, or its length when there is none.
pub open spec fn field_end(s: Seq<char>, c: char) -> int
    decreases s.len(),
{
    if s.len() == 0 || s[0] == c {
        0
    } else {
        1 + field_end(s.drop_first(), c)
    }
}

/// The first comma-separated field of `t`, trimmed.
pub open spec fn first_field(t: Seq<char>) -> Seq<char> {
    text::trim(t.subrange(0, field_end(t, ',')))
}

/// The candidate on one line of a text file, if any (`csv`: the file is a
/// `.csv`, whose first column is the name).
pub open spec fn text_candidate(line: Seq<char>, csv: bool) -> Option<CandidateView> {
    let t = text::trim(line);
    if skipped_line(t) {
        None
    } else if !csv {
        Some(CandidateView { name: t, id: None, won: false })
    } else {
        let name = first_field(t);
        if name.len() > 0 && !candidate_header(text::lowercase(name)) {
            Some(CandidateView { name, id: None, won: false })
        } else {
            None
        }
    }
}

/// The candidates on the lines `lines`, in order.
pub open spec fn text_candidates(lines: Seq<Seq<char>>, csv: bool) -> Seq<CandidateView>
    decreases lines.len(),
{
    if lines.len() == 0 {
        seq![]
    } else {
        let rest = text_candidates(lines.drop_last(), csv);
        match text_candidate(lines.last(), csv) {
            Some(c) => rest.push(c),
            None => rest,
        }
    }
}

fn field_end_of(s: &Vec<char>, c: char) -> (r: usize)
    ensures
        r == field_end(s@, c),
        r <= s@.len(),
{
    let mut i: usize = 0;
    assert(s@.subrange(0, s@.len() as int) =~= s@);
    while i < s.len() && s[i] != c
        invariant
            i <= s@.len(),
            field_end(s@, c) == i + field_end(s@.subrange(i as int, s@.len() as int), c),
        decreases s@.len() - i,
    {
        assert(s@.subrange(i as int, s@.len() as int).drop_first() =~= s@.subrange(i + 1, s@.len() as int));
        i = i + 1;
    }
    i
}

fn prize_of_line(line: &Vec<char>, sep: char, csv: bool) -> (r: Option<Prize>)
    ensures
        match r {
            Some(p) => text_prize(line@, sep, csv) == Some(p@),
            None => text_prize(line@, sep, csv) is None,
        },
{
    let t = trim_chars(line);
    if t.len() == 0 || t[0] == '#' {
        return None;
    }
    let (name, total) = name_count_chars(&t, sep);
    if name.len() > 0 && !(csv && prize_titled(&name)) {
        Some(Prize { name: string_of(&name), total, remaining: total })
    } else {
        None
    }
}

fn candidate_of_line(line: &Vec<char>, csv: bool) -> (r: Option<Candidate>)
    ensures
        match r {
            Some(c) => text_candidate(line@, csv) == Some(c@),
            None => text_candidate(line@, csv) is None,
        },
{
    let t = trim_chars(line);
    if t.len() == 0 || t[0] == '#' {
        return None;
    }
    if !csv {
        return Some(Candidate { name: string_of(&t), id: None, won: false });
    }
    let end = field_end_of(&t, ',');
    let field = sub_chars(&t, 0, end);
    let name = trim_chars(&field);
    if name.len() > 0 && !candidate_titled(&name) {
        Some(Candidate { name: string_of(&name), id: None, won: false })
    } else {
        None
    }
}

/// The view of a prize loader's result.
pub open spec fn loaded_prizes(r: Result<Vec<Prize>, String>) -> Result<Seq<PrizeView>, Seq<char>> {
    match r {
        Ok(v) => Ok(model::prizes_view(v@)),
        Err(e) => Err(e@),
    }
}

/// The view of a candidate loader's result.
pub open spec fn loaded_candidates(r: Result<Vec<Candidate>, String>) -> Result<Seq<CandidateView>, Seq<char>> {
    match r {
        Ok(v) => Ok(model::candidates_view(v@)),
        Err(e) => Err(e@),
    }
}

/// What a load gives for the entries `found`: them, or `msg` when there are none.
pub open spec fn load_outcome<V>(found: Seq<V>, msg: Seq<char>) -> Result<Seq<V>, Seq<char>> {
    if found.len() > 0 {
        Ok(found)
    } else {
        Err(msg)
    }
}

fn text_prizes_of(content: &str, sep: char, csv: bool) -> (r: Result<Vec<Prize>, String>)
    ensures
        loaded_prizes(r) == load_outcome(
            text_prizes(split_lines(content@), sep, csv),
            no_prizes_msg(),
        ),
{
    let lines = lines_of(content);
    let ghost ls = chars_seqs(lines@);
    let mut prizes: Vec<Prize> = Vec::new();
    let mut i: usize = 0;
    while i < lines.len()
        invariant
            i <= lines@.len(),
            ls == chars_seqs(lines@),
            model::prizes_view(prizes@) == text_prizes(ls.take(i as int), sep, csv),
        decreases lines@.len() - i,
    {
        assert(ls.take(i + 1).drop_last() =~= ls.take(i as int));
        match prize_of_line(&lines[i], sep, csv) {
            Some(p) => {
                let ghost before = prizes@;
                prizes.push(p);
                assert(model::prizes_view(prizes@) =~= model::prizes_view(before).push(p@));
            },
            None => {},
        }
        i = i + 1;
    }
    assert(ls.take(lines@.len() as int) =~= ls);
    let r = non_empty(prizes, "文件中未找到有效奖品数据");
    r
}

fn text_candidates_of(content: &str, csv: bool) -> (r: Result<Vec<Candidate>, String>)
    ensures
        loaded_candidates(r) == load_outcome(
            text_candidates(split_lines(content@), csv),
            no_candidates_msg(),
        ),
{
    let lines = lines_of(content);
    let ghost ls = chars_seqs(lines@);
    let mut cands: Vec<Candidate> = Vec::new();
    let mut i: usize = 0;
    while i < lines.len()
        invariant
            i <= lines@.len(),
            ls == chars_seqs(lines@),
            model::candidates_view(cands@) == text_candidates(ls.take(i as int), csv),
        decreases lines@.len() - i,
    {
        assert(ls.take(i + 1).drop_last() =~= ls.take(i as int));
        match candidate_of_line(&lines[i], csv) {
            Some(c) => {
                let ghost before = cands@;
                cands.push(c);
                assert(model::candidates_view(cands@) =~= model::candidates_view(before).push(c@));
            },
            None => {},
        }
        i = i + 1;
    }
    assert(ls.take(lines@.len() as int) =~= ls);
    let r = non_empty(cands, "文件中未找到有效候选人数据");
    r
}

fn load_prizes_txt(content: &str) -> (r: Result<Vec<Prize>, String>)
    ensures
        loaded_prizes(r) == load_outcome(
            text_prizes(split_lines(content@), ' ', false),
            no_prizes_msg(),
        ),
{
    text_prizes_of(content, ' ', false)
}

fn load_prizes_csv(content: &str) -> (r: Result<Vec<Prize>, String>)
    ensures
        loaded_prizes(r) == load_outcome(
            text_prizes(split_lines(content@), ',', true),
            no_prizes_msg(),
        ),
{
    text_prizes_of(content, ',', true)
}

fn load_candidates_txt(content: &str) -> (r: Result<Vec<Candidate>, String>)
    ensures
        loaded_candidates(r) == load_outcome(
            text_candidates(split_lines(content@), false),
            no_candidates_msg(),
        ),
{
    text_candidates_of(content, false)
}

fn load_candidates_csv(content: &str) -> (r: Result<Vec<Candidate>, String>)
    ensures
        loaded_candidates(r) == load_outcome(
            text_candidates(split_lines(content@), true),
            no_candidates_msg(),
        ),
{
    text_candidates_of(content, true)
}

// ── Spreadsheets ─────────────────────────────────────────────────────────────

/// The text of a cell: a text cell trimmed (none when that leaves nothing),
/// a number as it is written, a boolean as `true` or `false`; none for any
/// other cell.
pub open spec fn cell_text(c: Cell) -> Option<Seq<char>> {
    match c {
        Cell::Text(s) => if text::trim(s@).len() > 0 { Some(text::trim(s@)) } else { None },
        Cell::Float { text, whole } => Some(text@),
        Cell::Int(i) => Some(text::signed_decimal(i as int)),
        Cell::Bool(b) => Some(if b { "true"@ } else { "false"@ }),
        Cell::Other => None,
    }
}

/// The count that a cell gives a prize: a number's whole part (at least 1),
/// 1 for any other cell.
pub open spec fn cell_count(c: Cell) -> u32 {
    match c {
        Cell::Float { text, whole } => at_least_one(whole),
        Cell::Int(i) => at_least_one(i as u32),
        _ => 1,
    }
}

/// The text of a cell.
pub fn cell_str(cell: &Cell) -> (r: Option<String>)
    ensures
        match r {
            Some(s) => cell_text(*cell) == Some(s@),
            None => cell_text(*cell) is None,
        },
{
    match cell {
        Cell::Text(s) => {
            let t = trim_str(s.as_str());
            if t.as_str().is_empty() {
                None
            } else {
                Some(t)
            }
        },
        Cell::Float { text, whole } => Some(text.clone()),
        Cell::Int(i) => {
            let mut s = String::new();
            push_signed_decimal(&mut s, *i);
            assert(s@ =~= text::signed_decimal(*i as int));
            Some(s)
        },
        Cell::Bool(b) => {
            if *b {
                Some(String::from_str("true"))
            } else {
                Some(String::from_str("false"))
            }
        },
        Cell::Other => None,
    }
}

fn cell_count_of(cell: &Cell) -> (n: u32)
    ensures
        n == cell_count(*cell),
{
    match cell {
        Cell::Float { text, whole } => if *whole < 1 { 1 } else { *whole },
        Cell::Int(i) => {
            let w = *i as u32;
            if w < 1 { 1 } else { w }
        },
        _ => 1,
    }
}

/// The prize in one spreadsheet row, if any.
pub open spec fn sheet_prize(row: Seq<Cell>) -> Option<PrizeView> {
    if row.len() == 0 {
        None
    } else {
        match cell_text(row[0]) {
            None => None,
            Some(name) => if prize_header(text::lowercase(name)) {
                None
            } else {
                let total = if row.len() > 1 { cell_count(row[1]) } else { 1 };
                Some(PrizeView { name, total, remaining: total })
            },
        }
    }
}

/// The candidate in one spreadsheet row, if any.
pub open spec fn sheet_candidate(row: Seq<Cell>) -> Option<CandidateView> {
    if row.len() == 0 {
        None
    } else {
        match cell_text(row[0]) {
            None => None,
            Some(name) => if candidate_header(text::lowercase(name)) {
                None
            } else {
                let id = if row.len() > 1 { cell_text(row[1]) } else { None };
                Some(CandidateView { name, id, won: false })
            },
        }
    }
}

/// The prizes in the rows `rows`, in order.
pub open spec fn sheet_prizes(rows: Seq<Seq<Cell>>) -> Seq<PrizeView>
    decreases rows.len(),
{
    if rows.len() == 0 {
        seq![]
    } else {
        let rest = sheet_prizes(rows.drop_last());
        match sheet_prize(rows.last()) {
            Some(p) => rest.push(p),
            None => rest,
        }
    }
}

/// The candidates in the rows `rows`, in order.
pub open spec fn sheet_candidates(rows: Seq<Seq<Cell>>) -> Seq<CandidateView>
    decreases rows.len(),
{
    if rows.len() == 0 {
        seq![]
    } else {
        let rest = sheet_candidates(rows.drop_last());
        match sheet_candidate(rows.last()) {
            Some(c) => rest.push(c),
            None => rest,
        }
    }
}

pub open spec fn rows_view(rows: Seq<Vec<Cell>>) -> Seq<Seq<Cell>> {
    rows.map_values(|r: Vec<Cell>| r@)
}

fn prize_of_row(row: &Vec<Cell>) -> (r: Option<Prize>)
    ensures
        match r {
            Some(p) => sheet_prize(row@) == Some(p@),
            None => sheet_prize(row@) is None,
        },
{
    if row.len() == 0 {
        return None;
    }
    let name = match cell_str(&row[0]) {
        Some(s) => s,
        None => return None,
    };
    let lowered = to_lowercase(name.as_str());
    if is_prize_header(lowered.as_str()) {
        return None;
    }
    let total = if row.len() > 1 { cell_count_of(&row[1]) } else { 1 };
    Some(Prize { name, total, remaining: total })
}

fn candidate_of_row(row: &Vec<Cell>) -> (r: Option<Candidate>)
    ensures
        match r {
            Some(c) => sheet_candidate(row@) == Some(c@),
            None => sheet_candidate(row@) is None,
        },
{
    if row.len() == 0 {
        return None;
    }
    let name = match cell_str(&row[0]) {
        Some(s) => s,
        None => return None,
    };
    let lowered = to_lowercase(name.as_str());
    if is_candidate_header(lowered.as_str()) {
        return None;
    }
    let id = if row.len() > 1 { cell_str(&row[1]) } else { None };
    proof {
        if row@.len() > 1 {
            assert(model::opt_str_view(id) == cell_text(row@[1]));
        }
    }
    Some(Candidate { name, id, won: false })
}

fn load_prizes_excel(rows: &Vec<Vec<Cell>>) -> (r: Result<Vec<Prize>, String>)
    ensures
        loaded_prizes(r) == load_outcome(sheet_prizes(rows_view(rows@)), no_prizes_msg()),
{
    let ghost rs = rows_view(rows@);
    let mut prizes: Vec<Prize> = Vec::new();
    let mut i: usize = 0;
    while i < rows.len()
        invariant
            i <= rows@.len(),
            rs == rows_view(rows@),
            model::prizes_view(prizes@) == sheet_prizes(rs.take(i as int)),
        decreases rows@.len() - i,
    {
        assert(rs.take(i + 1).drop_last() =~= rs.take(i as int));
        match prize_of_row(&rows[i]) {
            Some(p) => {
                let ghost before = prizes@;
                prizes.push(p);
                assert(model::prizes_view(prizes@) =~= model::prizes_view(before).push(p@));
            },
            None => {},
        }
        i = i + 1;
    }
    assert(rs.take(rows@.len() as int) =~= rs);
    let r = non_empty(prizes, "文件中未找到有效奖品数据");
    r
}

fn load_candidates_excel(rows: &Vec<Vec<Cell>>) -> (r: Result<Vec<Candidate>, String>)
    ensures
        loaded_candidates(r) == load_outcome(
            sheet_candidates(rows_view(rows@)),
            no_candidates_msg(),
        ),
{
    let ghost rs = rows_view(rows@);
    let mut cands: Vec<Candidate> = Vec::new();
    let mut i: usize = 0;
    while i < rows.len()
        invariant
            i <= rows@.len(),
            rs == rows_view(rows@),
            model::candidates_view(cands@) == sheet_candidates(rs.take(i as int)),
        decreases rows@.len() - i,
    {
        assert(rs.take(i + 1).drop_last() =~= rs.take(i as int));
        match candidate_of_row(&rows[i]) {
            Some(c) => {
                let ghost before = cands@;
                cands.push(c);
                assert(model::candidates_view(cands@) =~= model::candidates_view(before).push(c@));
            },
            None => {},
        }
        i = i + 1;
    }
    assert(rs.take(rows@.len() as int) =~= rs);
    let r = non_empty(cands, "文件中未找到有效候选人数据");
    r
}

// ── Entry points ─────────────────────────────────────────────────────────────

/// The prizes that a file's contents give, or why there are none.
pub open spec fn prizes_in(contents: FileContents) -> Result<Seq<PrizeView>, Seq<char>> {
    match contents {
        FileContents::Txt(s) => load_outcome(text_prizes(split_lines(s@), ' ', false), no_prizes_msg()),
        FileContents::Csv(s) => load_outcome(text_prizes(split_lines(s@), ',', true), no_prizes_msg()),
        FileContents::Sheet(None) => Err(no_sheet_msg()),
        FileContents::Sheet(Some(rows)) => load_outcome(sheet_prizes(rows_view(rows@)), no_prizes_msg()),
    }
}

/// The candidates that a file's contents give, or why there are none.
pub open spec fn candidates_in(contents: FileContents) -> Result<Seq<CandidateView>, Seq<char>> {
    match contents {
        FileContents::Txt(s) => load_outcome(text_candidates(split_lines(s@), false), no_candidates_msg()),
        FileContents::Csv(s) => load_outcome(text_candidates(split_lines(s@), true), no_candidates_msg()),
        FileContents::Sheet(None) => Err(no_sheet_msg()),
        FileContents::Sheet(Some(rows)) => load_outcome(
            sheet_candidates(rows_view(rows@)),
            no_candidates_msg(),
        ),
    }
}

/// Reads the prizes in an imported file's contents. Every prize loaded has
/// all its places left (`remaining == total`) and at least one place.
pub fn load_prizes(contents: &FileContents) -> (r: Result<Vec<Prize>, String>)
    ensures
        loaded_prizes(r) == prizes_in(*contents),
{
    match contents {
        FileContents::Txt(s) => load_prizes_txt(s.as_str()),
        FileContents::Csv(s) => load_prizes_csv(s.as_str()),
        FileContents::Sheet(None) => Err(String::from_str("文件中没有工作表")),
        FileContents::Sheet(Some(rows)) => load_prizes_excel(rows),
    }
}

/// Reads the candidates in an imported file's contents; none has won yet.
pub fn load_candidates(contents: &FileContents) -> (r: Result<Vec<Candidate>, String>)
    ensures
        loaded_candidates(r) == candidates_in(*contents),
{
    match contents {
        FileContents::Txt(s) => load_candidates_txt(s.as_str()),
        FileContents::Csv(s) => load_candidates_csv(s.as_str()),
        FileContents::Sheet(None) => Err(String::from_str("文件中没有工作表")),
        FileContents::Sheet(Some(rows)) => load_candidates_excel(rows),
    }
}

} // verus!
