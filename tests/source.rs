use csv_reconcile::engine::reconcile;
use csv_reconcile::source::{load_table, LoadError};

fn strings(v: &[&str]) -> Vec<String> {
    v.iter().map(|s| s.to_string()).collect()
}

#[test]
fn load_parses_header_and_rows() {
    let idx = load_table(&b"id,name\n1,x\n2,y\n".to_vec(), &strings(&["id"])).unwrap();
    assert_eq!(idx.headers, strings(&["id", "name"]));
    assert_eq!(idx.len(), 2);
    assert_eq!(idx.get(&"2".to_string()), Some(&strings(&["2", "y"])));
}

#[test]
fn load_accepts_short_rows() {
    let idx = load_table(&b"id,a,b\n1,x\n".to_vec(), &strings(&["id", "b"])).unwrap();
    assert_eq!(idx.get(&"1|".to_string()), Some(&strings(&["1", "x"])));
}

#[test]
fn load_quoted_fields() {
    let idx = load_table(&b"id,v\n\"1\",\"a,b\"\n".to_vec(), &strings(&["id"])).unwrap();
    assert_eq!(idx.get(&"1".to_string()), Some(&strings(&["1", "a,b"])));
}

#[test]
fn load_unknown_key_column() {
    let r = load_table(&b"id,name\n1,x\n".to_vec(), &strings(&["code"]));
    assert!(matches!(r, Err(LoadError::UnknownKeyColumn(ref n)) if n == "code"));
}

#[test]
fn load_rejects_invalid_text() {
    let r = load_table(&b"id\n\xff\xfe\n".to_vec(), &strings(&["id"]));
    assert!(matches!(r, Err(LoadError::Parse(_))));
}

#[test]
fn load_and_reconcile_files() {
    let a = load_table(&b"id,name,value\n1,x,10\n2,y,20\n".to_vec(), &strings(&["id"])).unwrap();
    let b = load_table(&b"id,name,value\n1,x,11\n3,z,30\n".to_vec(), &strings(&["id"])).unwrap();
    let d = reconcile(&a, &b, &strings(&["id"]), &strings(&[]));
    assert_eq!(d.len(), 3);
    assert_eq!((d[0].column.as_str(), d[0].file1.as_str(), d[0].file2.as_str()), ("value", "10", "11"));
}
