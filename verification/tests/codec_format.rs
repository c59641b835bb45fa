use training_core::codec::{load_store, parse_records, RowParse};

const HEADER: &str = "id,subjectName,trainingName,dueDate,status,createdBy";

fn parsed_record(row: &RowParse) -> &training_core::record::Record {
    match row {
        RowParse::Parsed(r) => r,
        RowParse::Malformed(raw) => panic!("expected a parsed row, got malformed: {raw}"),
    }
}

fn malformed_raw(row: &RowParse) -> &str {
    match row {
        RowParse::Malformed(raw) => raw,
        RowParse::Parsed(_) => panic!("expected a malformed row"),
    }
}

#[test]
fn plain_rows_parse_field_for_field() {
    let file = format!("{HEADER}\n1,Alice,Safety,2025-01-01,gruen,admin");
    let rows = parse_records(&file);
    assert_eq!(rows.len(), 1);
    let r = parsed_record(&rows[0]);
    assert_eq!(r.id, 1);
    assert_eq!(r.subject_name, "Alice");
    assert_eq!(r.training_name, "Safety");
    assert_eq!(r.due_date, "2025-01-01");
    assert_eq!(r.status, "gruen");
    assert_eq!(r.created_by, "admin");
}

#[test]
fn escape_pairs_decode() {
    let file = format!("{HEADER}\n7,a\\cb,x\\ny,p\\\\q,s\\rt,admin");
    let rows = parse_records(&file);
    assert_eq!(rows.len(), 1);
    let r = parsed_record(&rows[0]);
    assert_eq!(r.id, 7);
    assert_eq!(r.subject_name, "a,b");
    assert_eq!(r.training_name, "x\ny");
    assert_eq!(r.due_date, "p\\q");
    assert_eq!(r.status, "s\rt");
}

#[test]
fn malformed_rows_are_reported_not_swallowed() {
    let file = format!(
        "{HEADER}\n1,Alice,Safety,2025-01-01,gruen,admin\nonly,three,fields\nx9,A,B,C,D,E\n2,Bob,Fire,2025-02-02,gelb,admin\n3,Dangling\\,B,C,D,E"
    );
    let rows = parse_records(&file);
    assert_eq!(rows.len(), 5);
    assert!(matches!(rows[0], RowParse::Parsed(_)));
    assert_eq!(malformed_raw(&rows[1]), "only,three,fields");
    assert_eq!(malformed_raw(&rows[2]), "x9,A,B,C,D,E");
    assert!(matches!(rows[3], RowParse::Parsed(_)));
    assert_eq!(malformed_raw(&rows[4]), "3,Dangling\\,B,C,D,E");

    let store = load_store(&rows);
    let kept = store.list();
    assert_eq!(kept.len(), 2);
    assert_eq!(kept[0].id, 1);
    assert_eq!(kept[1].id, 2);
    assert_eq!(store.peek_next_id(), 3);
}

#[test]
fn a_wrong_header_fails_every_row() {
    let file = "id,name,training,duedate,status,created_by\n1,Alice,Safety,2025-01-01,gruen,admin";
    let rows = parse_records(file);
    assert_eq!(rows.len(), 2);
    assert!(matches!(rows[0], RowParse::Malformed(_)));
    assert!(matches!(rows[1], RowParse::Malformed(_)));
    assert_eq!(load_store(&rows).list().len(), 0);
}

#[test]
fn an_empty_file_has_no_rows() {
    let rows = parse_records("");
    assert_eq!(rows.len(), 0);
    let store = load_store(&rows);
    assert_eq!(store.list().len(), 0);
    assert_eq!(store.peek_next_id(), 1);
}

#[test]
fn a_repeated_id_keeps_the_first_row() {
    let file = format!("{HEADER}\n5,First,T,2025-01-01,gruen,admin\n5,Second,T,2025-01-02,gelb,admin");
    let rows = parse_records(&file);
    assert_eq!(rows.len(), 2);
    let store = load_store(&rows);
    let kept = store.list();
    assert_eq!(kept.len(), 1);
    assert_eq!(kept[0].subject_name, "First");
    assert_eq!(store.peek_next_id(), 6);
}

#[test]
fn ids_at_and_beyond_the_type_limit() {
    let at_limit = format!("{HEADER}\n4294967295,A,B,C,D,E");
    let rows = parse_records(&at_limit);
    assert_eq!(rows.len(), 1);
    assert!(matches!(rows[0], RowParse::Parsed(_)));
    let store = load_store(&rows);
    assert_eq!(store.list().len(), 0);
    assert_eq!(store.peek_next_id(), 1);

    let beyond = format!("{HEADER}\n4294967296,A,B,C,D,E");
    let rows = parse_records(&beyond);
    assert_eq!(rows.len(), 1);
    assert!(matches!(rows[0], RowParse::Malformed(_)));
}

#[test]
fn leading_zeros_read_as_the_same_value() {
    let file = format!("{HEADER}\n007,Bond,T,2025-01-01,gruen,admin");
    let rows = parse_records(&file);
    let r = parsed_record(&rows[0]);
    assert_eq!(r.id, 7);
}
