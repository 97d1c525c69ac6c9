use vemcache::command::{parse_command, Command, ParseError};
use vemcache::session::{plan, Action};
use vemcache::store::{Operation, VectorStore};

fn bits(v: &[f32]) -> Vec<u32> {
    v.iter().map(|x| x.to_bits()).collect()
}

fn sample() -> VectorStore {
    let mut s = VectorStore::new();
    s.insert_with_key("v1".to_string(), bits(&[1.0, 2.0, 3.0]));
    s.insert_with_key("v2".to_string(), bits(&[4.0, 5.0, 6.0]));
    s.insert_with_key("short".to_string(), bits(&[1.0]));
    s
}

fn reply(store: &VectorStore, line: &str) -> String {
    let cmd: Command = parse_command(line).unwrap();
    match plan(store, &cmd) {
        Action::Reply(t) => t.to_string(),
        _ => panic!("expected a fixed reply for {:?}", line),
    }
}

#[test]
fn ping_replies_pong() {
    assert_eq!(reply(&sample(), "ping"), "pong");
}

#[test]
fn get_absent_key_replies_null() {
    assert_eq!(reply(&sample(), "get nope"), "null");
}

#[test]
fn get_present_key_shows_it() {
    let s = sample();
    let cmd = parse_command("get v2").unwrap();
    match plan(&s, &cmd) {
        Action::Show(v) => assert_eq!(*v, bits(&[4.0, 5.0, 6.0])),
        _ => panic!("expected the stored vector"),
    }
}

#[test]
fn knn_on_absent_key_replies_key_not_found() {
    assert_eq!(reply(&sample(), "knn nope 3"), "Key not found");
}

#[test]
fn knn_on_present_key_asks_for_neighbours() {
    let s = sample();
    let cmd = parse_command("knn v1 2").unwrap();
    match plan(&s, &cmd) {
        Action::Nearest(q, k) => {
            assert_eq!(*q, bits(&[1.0, 2.0, 3.0]));
            assert_eq!(k, 2);
        }
        _ => panic!("expected a neighbour search"),
    }
}

#[test]
fn vadd_absent_or_incompatible() {
    let s = sample();
    assert_eq!(reply(&s, "vadd v1 nope"), "One or both keys not found");
    assert_eq!(reply(&s, "vadd v1 short"), "Vectors are not compatible for addition");
    assert_eq!(reply(&s, "vsub v1 short"), "Vectors are not compatible for subtraction");
    assert_eq!(reply(&s, "vcosine short v1"), "Vectors are not compatible for cosine similarity");
    assert_eq!(reply(&s, "vscale nope 2"), "Key not found");
}

#[test]
fn binary_operations_on_present_keys() {
    let s = sample();
    let cmd = parse_command("vsub v1 v2").unwrap();
    match plan(&s, &cmd) {
        Action::Combine(op, a, b) => {
            assert_eq!(op, Operation::Subtraction);
            assert_eq!(*a, bits(&[1.0, 2.0, 3.0]));
            assert_eq!(*b, bits(&[4.0, 5.0, 6.0]));
        }
        _ => panic!("expected a combination"),
    }
    let cmd = parse_command("vscale v1 2").unwrap();
    assert!(matches!(plan(&s, &cmd), Action::Scale(_, f) if f == "2"));
}

#[test]
fn inserts_removes_and_dumps_are_handed_on() {
    let s = sample();
    let cmd = parse_command("insert 1 2").unwrap();
    assert!(matches!(plan(&s, &cmd), Action::Insert(None, v) if v.len() == 2));
    let cmd = parse_command("named_insert k 1").unwrap();
    assert!(matches!(plan(&s, &cmd), Action::Insert(Some(k), _) if k == "k"));
    let cmd = parse_command("remove v1").unwrap();
    assert!(matches!(plan(&s, &cmd), Action::Remove(k) if k == "v1"));
    let cmd = parse_command("dump out.json").unwrap();
    assert!(matches!(plan(&s, &cmd), Action::Dump(p) if p == "out.json"));
}

#[test]
fn malformed_get_is_a_parse_error() {
    let e = parse_command("get").err().unwrap();
    assert_eq!(e, ParseError::InvalidGet);
    assert_eq!(format!("Error: {}", e.message()), "Error: Invalid GET command");
}
