use hbs_schedule::column::TableColumn;
use hbs_schedule::{ErrorKind, HbsTableExtractor, Line, Operand, Operation, PageObjects, Point, TableObject, Text};

fn op(name: &str, operands: Vec<Operand>) -> Operation {
    Operation { operator: name.to_string(), operands }
}

fn text_at(ops: &mut Vec<Operation>, s: &str, x: i64, y: i64) {
    ops.push(op("BT", vec![]));
    ops.push(op("Td", vec![Operand::Number(x), Operand::Number(y)]));
    ops.push(op("Tj", vec![Operand::Bytes(s.as_bytes().to_vec())]));
    ops.push(op("ET", vec![]));
}

fn line(ops: &mut Vec<Operation>, x0: i64, y0: i64, x1: i64, y1: i64) {
    ops.push(op("m", vec![Operand::Number(x0), Operand::Number(y0)]));
    ops.push(op("l", vec![Operand::Number(x1), Operand::Number(y1)]));
    ops.push(op("S", vec![]));
}

const RULES: [i64; 7] = [690, 620, 550, 480, 410, 340, 290];

/// One table: "Block" at (50, 700), four class headers, seven rules per
/// column, "15:15" at y 300 with the last rule at y 290. No text's y equals
/// a header's x, which would attach it to that column.
fn single_table_page() -> Vec<Operation> {
    let mut ops = Vec::new();
    text_at(&mut ops, "Datum: 18.10.2026", 50, 800);
    text_at(&mut ops, "Block", 50, 700);
    for (i, class) in ["7a", "7b", "8a", "8b"].iter().enumerate() {
        let x = 110 + 100 * i as i64;
        text_at(&mut ops, class, x, 700);
        for y in RULES {
            line(&mut ops, x - 40, y, x + 40, y);
        }
    }
    line(&mut ops, 70, 700, 70, 290);
    text_at(&mut ops, "1", 50, 650);
    text_at(&mut ops, "15:15", 50, 300);
    text_at(&mut ops, "Math->Mr.X", 110, 650);
    ops
}

fn extractor(pages: Vec<Vec<Operation>>) -> HbsTableExtractor {
    HbsTableExtractor::from_operations(&pages).unwrap()
}

fn page(ops: &Vec<Operation>) -> PageObjects {
    PageObjects::from_operations(ops).unwrap()
}

#[test]
fn single_table_happy_path() {
    let x = extractor(vec![single_table_page()]);
    let schedule = x.schedule().unwrap();
    assert_eq!(schedule.pdf_issue_date, 1792281600000);
    assert_eq!(schedule.entries.len(), 4);
    let a = schedule.get("7a").unwrap();
    assert_eq!(a.blocks[0], Some("Math->Mr.X".to_string()));
    for k in 1..6 {
        assert_eq!(a.blocks[k], None);
    }
    for class in ["7b", "8a", "8b"] {
        let c = schedule.get(class).unwrap();
        assert_eq!(c.blocks.len(), 6);
        assert!(c.blocks.iter().all(|b| b.is_none()));
    }
    assert!(schedule.get("Block").is_none());
}

#[test]
fn tables_hold_seven_cells_per_column() {
    let x = extractor(vec![single_table_page()]);
    let tables = x.extract_tables().unwrap();
    assert_eq!(tables.len(), 1);
    assert_eq!(tables[0].len(), 1);
    let columns = &tables[0][0];
    assert_eq!(columns.len(), 4);
    for c in columns {
        assert_eq!(c.len(), 7);
    }
    assert_eq!(columns[0][0], vec!["7a".to_string()]);
    assert_eq!(columns[0][1], vec!["Math->Mr.X".to_string()]);
    assert_eq!(columns[3][0], vec!["8b".to_string()]);
}

#[test]
fn simple_tables_end_each_line_with_newline() {
    let x = extractor(vec![single_table_page()]);
    let simple = x.extract_tables_simple().unwrap();
    assert_eq!(simple.len(), 4);
    assert_eq!(simple[0][0], "7a\n");
    assert_eq!(simple[0][1], "Math->Mr.X\n");
    assert_eq!(simple[0][2], "");
}

#[test]
fn tick_marks_are_filtered() {
    let header = Text { text: "7a".to_string(), position: Point { x: 100, y: 650 } };
    let mut bag = vec![TableObject::Text(header.duplicate())];
    for y in [600, 500, 400, 300, 200, 100, 0] {
        bag.push(TableObject::Line(Line { start: Point { x: 60, y }, end: Point { x: 140, y } }));
    }
    for y in [450, 440, 430, 420] {
        bag.push(TableObject::Line(Line { start: Point { x: 95, y }, end: Point { x: 105, y } }));
    }
    bag.push(TableObject::Text(Text { text: "Sport".to_string(), position: Point { x: 100, y: 435 } }));
    let mut column = TableColumn { header, column: bag };
    let cells = column.generate_column().unwrap();
    assert_eq!(cells.len(), 7);
    assert_eq!(cells[0], vec!["7a".to_string()]);
    assert!(cells[1].is_empty());
    assert_eq!(cells[2], vec!["Sport".to_string()]);
    for k in 3..7 {
        assert!(cells[k].is_empty());
    }
}

#[test]
fn vertical_lines_leave_the_bag() {
    let header = Text { text: "7a".to_string(), position: Point { x: 100, y: 650 } };
    let mut bag = vec![TableObject::Text(header.duplicate())];
    for y in [600, 500, 400, 300, 200, 100, 0] {
        bag.push(TableObject::Line(Line { start: Point { x: 60, y }, end: Point { x: 140, y } }));
    }
    bag.push(TableObject::Line(Line { start: Point { x: 60, y: 600 }, end: Point { x: 60, y: 0 } }));
    let mut column = TableColumn { header, column: bag };
    assert!(column.generate_column().is_ok());
    assert_eq!(column.column.len(), 8);
    assert!(column.column.iter().all(|o| match o {
        TableObject::Line(l) => l.start.y == l.end.y,
        TableObject::Text(_) => true,
    }));
}

#[test]
fn texts_sort_top_first_within_a_cell() {
    let header = Text { text: "7a".to_string(), position: Point { x: 100, y: 650 } };
    let mut bag = vec![TableObject::Text(header.duplicate())];
    for y in [600, 500, 400, 300, 200, 100, 0] {
        bag.push(TableObject::Line(Line { start: Point { x: 60, y }, end: Point { x: 140, y } }));
    }
    bag.push(TableObject::Text(Text { text: "lower".to_string(), position: Point { x: 100, y: 520 } }));
    bag.push(TableObject::Text(Text { text: "upper".to_string(), position: Point { x: 100, y: 580 } }));
    bag.push(TableObject::Text(Text { text: "on the rule".to_string(), position: Point { x: 100, y: 500 } }));
    let mut column = TableColumn { header, column: bag };
    let cells = column.generate_column().unwrap();
    assert_eq!(cells[1], vec!["upper".to_string(), "lower".to_string()]);
    assert_eq!(cells[2], vec!["on the rule".to_string()]);
}

#[test]
fn too_few_rules_is_a_line_count_error() {
    let header = Text { text: "7a".to_string(), position: Point { x: 100, y: 650 } };
    let mut bag = vec![TableObject::Text(header.duplicate())];
    for y in [600, 500, 400] {
        bag.push(TableObject::Line(Line { start: Point { x: 60, y }, end: Point { x: 140, y } }));
    }
    let mut column = TableColumn { header, column: bag };
    assert_eq!(column.generate_column().err(), Some(ErrorKind::CellLineCountWrong));
}

#[test]
fn equal_spacings_keep_more_than_seven_rules() {
    let header = Text { text: "7a".to_string(), position: Point { x: 100, y: 950 } };
    let mut bag = vec![TableObject::Text(header.duplicate())];
    for k in 0..9 {
        let y = 900 - 100 * k;
        bag.push(TableObject::Line(Line { start: Point { x: 60, y }, end: Point { x: 140, y } }));
    }
    let mut column = TableColumn { header, column: bag };
    assert_eq!(column.generate_column().err(), Some(ErrorKind::CellLineCountWrong));
}

#[test]
fn rule_above_header_is_a_header_error() {
    let header = Text { text: "7a".to_string(), position: Point { x: 100, y: 650 } };
    let mut bag = vec![TableObject::Text(header.duplicate())];
    for y in [660, 500, 400, 300, 200, 100, 0] {
        bag.push(TableObject::Line(Line { start: Point { x: 60, y }, end: Point { x: 140, y } }));
    }
    let mut column = TableColumn { header, column: bag };
    assert_eq!(column.generate_column().err(), Some(ErrorKind::CellHeaderMissing));
}

#[test]
fn multi_table_page() {
    let mut ops = Vec::new();
    for (top, bottom) in [(700i64, 420i64), (350, 60)] {
        text_at(&mut ops, "Block", 50, top);
        text_at(&mut ops, "15:15 - 16:45", 50, bottom);
        line(&mut ops, 60, bottom - 10, 140, bottom - 10);
        line(&mut ops, 60, top - 10, 140, top - 10);
        text_at(&mut ops, "7a", 100, top);
    }
    let p = page(&ops);
    let regions = p.extract_table_objects().unwrap();
    assert_eq!(regions.len(), 2);
    for a in &regions[0].0 {
        assert!(!regions[1].0.iter().any(|b| a.same_as(b)));
    }
    // the lower table comes first: tops pair with bottoms in ascending order
    assert!(regions[0].0.iter().any(|o| matches!(o, TableObject::Text(t) if t.position.y == 350)));
    assert!(regions[1].0.iter().any(|o| matches!(o, TableObject::Text(t) if t.position.y == 700)));
}

#[test]
fn missing_date() {
    let mut ops = single_table_page();
    ops.remove(0);
    ops.remove(0);
    ops.remove(0);
    ops.remove(0);
    let x = extractor(vec![ops]);
    assert_eq!(x.extract_date(), Err(ErrorKind::DateNotFound));
    assert_eq!(x.schedule().err(), Some(ErrorKind::DateNotFound));
}

#[test]
fn diagonal_segment() {
    let mut ops = Vec::new();
    line(&mut ops, 0, 0, 10, 10);
    assert_eq!(PageObjects::from_operations(&ops).err(), Some(ErrorKind::DiagonalLine));
    assert_eq!(HbsTableExtractor::from_operations(&vec![ops]).err(), Some(ErrorKind::DiagonalLine));
}

#[test]
fn show_text_without_position() {
    let ops = vec![op("BT", vec![]), op("Tj", vec![Operand::Bytes(b"x".to_vec())])];
    assert_eq!(PageObjects::from_operations(&ops).err(), Some(ErrorKind::ParseSequence));
    let first = vec![op("l", vec![Operand::Number(1), Operand::Number(1)])];
    assert_eq!(PageObjects::from_operations(&first).err(), Some(ErrorKind::ParseSequence));
}

#[test]
fn non_string_operand_is_a_read_error() {
    let ops = vec![
        op("Td", vec![Operand::Number(1), Operand::Number(2)]),
        op("Tj", vec![Operand::Number(3)]),
    ];
    assert_eq!(PageObjects::from_operations(&ops).err(), Some(ErrorKind::PdfRead));
}

#[test]
fn duplicates_collapse() {
    let mut ops = Vec::new();
    text_at(&mut ops, "Block", 50, 700);
    text_at(&mut ops, "Block", 50, 700);
    line(&mut ops, 0, 5, 10, 5);
    line(&mut ops, 0, 5, 10, 5);
    line(&mut ops, 0, 5, 0, 50);
    let p = page(&ops);
    assert_eq!(p.0.len(), 3);
    match &p.0[0] {
        TableObject::Text(t) => {
            assert_eq!(t.text, "Block");
            assert_eq!(t.position, Point { x: 50, y: 700 });
        },
        TableObject::Line(_) => panic!("expected the text first"),
    }
}

#[test]
fn block_without_closing_time_is_a_count_mismatch() {
    let mut ops = Vec::new();
    text_at(&mut ops, "Block", 50, 700);
    assert_eq!(page(&ops).extract_table_objects().err(), Some(ErrorKind::RegionCountMismatch));
}

#[test]
fn closing_time_without_rule_below_is_a_bound_error() {
    let mut ops = Vec::new();
    text_at(&mut ops, "Block", 50, 700);
    text_at(&mut ops, "15:15", 50, 300);
    line(&mut ops, 0, 400, 100, 400);
    assert_eq!(page(&ops).extract_table_objects().err(), Some(ErrorKind::RegionBoundMissing));
}

#[test]
fn region_without_block_text_is_a_header_error() {
    let mut ops = Vec::new();
    text_at(&mut ops, "Block", 50, 100);
    text_at(&mut ops, "15:15", 50, 500);
    line(&mut ops, 0, 490, 100, 490);
    let x = extractor(vec![ops]);
    assert_eq!(x.extract_tables().err(), Some(ErrorKind::RegionHeaderMissing));
}

#[test]
fn header_without_rules_is_a_column_error() {
    let mut ops = Vec::new();
    text_at(&mut ops, "Block", 50, 700);
    text_at(&mut ops, "7a", 100, 701);
    text_at(&mut ops, "15:15", 50, 300);
    line(&mut ops, 0, 290, 80, 290);
    let x = extractor(vec![ops]);
    assert_eq!(x.extract_tables().err(), Some(ErrorKind::ColumnEmpty));
}

#[test]
fn header_band_boundary_is_excluded() {
    let mut ops = Vec::new();
    text_at(&mut ops, "Block", 50, 700);
    text_at(&mut ops, "up", 100, 702);
    text_at(&mut ops, "down", 200, 698);
    text_at(&mut ops, "15:15", 50, 300);
    line(&mut ops, 0, 290, 80, 290);
    let p = page(&ops);
    let regions = p.extract_table_objects().unwrap();
    let columns = regions[0].extract_columns().unwrap();
    assert_eq!(columns.len(), 0);
}

#[test]
fn region_bounds_are_exclusive() {
    let mut ops = Vec::new();
    text_at(&mut ops, "Block", 50, 700);
    text_at(&mut ops, "at top", 100, 704);
    text_at(&mut ops, "inside", 100, 703);
    text_at(&mut ops, "15:15", 50, 300);
    line(&mut ops, 0, 290, 80, 290);
    text_at(&mut ops, "at bottom", 100, 286);
    let p = page(&ops);
    let regions = p.extract_table_objects().unwrap();
    let names: Vec<String> = regions[0].0.iter().filter_map(|o| match o {
        TableObject::Text(t) => Some(t.text.clone()),
        TableObject::Line(_) => None,
    }).collect();
    assert!(names.contains(&"inside".to_string()));
    assert!(!names.contains(&"at top".to_string()));
    assert!(!names.contains(&"at bottom".to_string()));
}

#[test]
fn crossing_border_is_inclusive() {
    let l = TableObject::Line(Line { start: Point { x: 60, y: 5 }, end: Point { x: 140, y: 5 } });
    assert!(l.intersects_x_border(60));
    assert!(l.intersects_x_border(140));
    assert!(!l.intersects_x_border(141));
    let v = TableObject::Line(Line { start: Point { x: 60, y: 5 }, end: Point { x: 60, y: 50 } });
    assert!(!v.intersects_x_border(60));
}

#[test]
fn disjoint_columns_share_no_text() {
    let x = extractor(vec![single_table_page()]);
    let p = &x.0[0];
    let regions = p.extract_table_objects().unwrap();
    let columns = regions[0].extract_columns().unwrap();
    for (i, a) in columns.iter().enumerate() {
        for b in columns.iter().skip(i + 1) {
            for o in &a.column {
                if let TableObject::Text(_) = o {
                    assert!(!b.column.iter().any(|q| q.same_as(o)));
                }
            }
        }
    }
}

#[test]
fn extraction_is_deterministic() {
    let a = extractor(vec![single_table_page()]).schedule().unwrap();
    let b = extractor(vec![single_table_page()]).schedule().unwrap();
    assert_eq!(a.pdf_issue_date, b.pdf_issue_date);
    assert_eq!(a.entries.len(), b.entries.len());
    for (ea, eb) in a.entries.iter().zip(b.entries.iter()) {
        assert_eq!(ea.0, eb.0);
        assert_eq!(ea.1.blocks, eb.1.blocks);
    }
    let x = extractor(vec![single_table_page()]);
    assert_eq!(x.extract_date(), x.extract_date());
}

#[test]
fn win_ansi_bytes_decode() {
    let ops = vec![
        op("Td", vec![Operand::Number(1), Operand::Number(2)]),
        op("Tj", vec![Operand::Bytes(vec![0x4D, 0xE4, 0x64, 0x63, 0x68, 0x65, 0x6E])]),
    ];
    let p = page(&ops);
    match &p.0[0] {
        TableObject::Text(t) => assert_eq!(t.text, "M\u{e4}dchen"),
        TableObject::Line(_) => panic!("expected a text"),
    }
}

#[test]
fn text_whose_y_is_a_header_x_joins_that_column() {
    let mut ops = Vec::new();
    text_at(&mut ops, "Block", 50, 700);
    text_at(&mut ops, "7a", 300, 700);
    line(&mut ops, 260, 690, 340, 690);
    text_at(&mut ops, "far", 900, 300);
    text_at(&mut ops, "15:15", 50, 310);
    line(&mut ops, 0, 290, 80, 290);
    let p = page(&ops);
    let regions = p.extract_table_objects().unwrap();
    let columns = regions[0].extract_columns().unwrap();
    assert_eq!(columns.len(), 1);
    assert!(columns[0].column.iter().any(|o| matches!(o, TableObject::Text(t) if t.text == "far")));
}

#[test]
fn region_with_two_block_texts_is_a_header_error() {
    let mut ops = Vec::new();
    text_at(&mut ops, "Block", 50, 700);
    text_at(&mut ops, "Block", 50, 500);
    text_at(&mut ops, "15:15", 50, 300);
    text_at(&mut ops, "15:15", 50, 100);
    line(&mut ops, 0, 290, 40, 290);
    line(&mut ops, 0, 90, 40, 90);
    let x = extractor(vec![ops]);
    assert_eq!(x.extract_tables().err(), Some(ErrorKind::RegionHeaderMissing));
}
