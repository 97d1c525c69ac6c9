use vemcache::store::{OperandError, Operation, VectorStore};

fn bits(v: &[f32]) -> Vec<u32> {
    v.iter().map(|x| x.to_bits()).collect()
}

fn floats(v: &[u32]) -> Vec<f32> {
    v.iter().map(|b| f32::from_bits(*b)).collect()
}

fn distance_key(a: &[u32], b: &[u32]) -> u32 {
    let d: f32 = floats(a)
        .iter()
        .zip(floats(b).iter())
        .map(|(x, y)| (x - y) * (x - y))
        .sum::<f32>()
        .sqrt();
    if d == 0.0 { 0 } else { d.to_bits() }
}

fn distances(store: &VectorStore, query: &[u32]) -> Vec<u32> {
    store.entries().iter().map(|(_, v)| distance_key(query, v)).collect()
}

#[test]
fn insert_then_get_round_trip() {
    let mut s = VectorStore::new();
    s.insert_with_key("a".to_string(), bits(&[1.0, 2.0, 3.0]));
    let got = s.get("a".to_string()).unwrap();
    assert_eq!(floats(got), vec![1.0, 2.0, 3.0]);
    assert_eq!(s.len(), 1);
}

#[test]
fn insert_overwrites_existing_key() {
    let mut s = VectorStore::new();
    s.insert_with_key("a".to_string(), bits(&[1.0]));
    s.insert_with_key("a".to_string(), bits(&[2.0, 3.0]));
    assert_eq!(s.len(), 1);
    assert_eq!(floats(s.get("a".to_string()).unwrap()), vec![2.0, 3.0]);
}

#[test]
fn empty_vector_is_stored() {
    let mut s = VectorStore::new();
    s.insert_with_key("e".to_string(), Vec::new());
    assert_eq!(s.get("e".to_string()), Some(&Vec::new()));
}

#[test]
fn remove_then_get_and_remove_again() {
    let mut s = VectorStore::new();
    s.insert_with_key("a".to_string(), bits(&[1.0, 2.0, 3.0]));
    s.insert_with_key("b".to_string(), bits(&[4.0]));
    let removed = s.remove("a".to_string()).unwrap();
    assert_eq!(floats(&removed), vec![1.0, 2.0, 3.0]);
    assert_eq!(s.get("a".to_string()), None);
    assert_eq!(s.remove("a".to_string()), None);
    assert_eq!(s.len(), 1);
    assert_eq!(floats(s.get("b".to_string()).unwrap()), vec![4.0]);
}

#[test]
fn generated_keys_are_fresh_and_retrievable() {
    let mut s = VectorStore::new();
    let k1 = s.insert_with_uuid(bits(&[1.0]));
    let k2 = s.insert_with_uuid(bits(&[2.0]));
    assert_eq!(k1.len(), 36);
    for (i, c) in k1.chars().enumerate() {
        if i == 8 || i == 13 || i == 18 || i == 23 {
            assert_eq!(c, '-');
        } else {
            assert!(c.is_ascii_digit() || ('a'..='f').contains(&c));
        }
    }
    assert_eq!(k1.chars().nth(14), Some('4'));
    assert_ne!(k1, k2);
    assert_eq!(s.len(), 2);
    assert_eq!(floats(s.get(k1).unwrap()), vec![1.0]);
    assert_eq!(floats(s.get(k2).unwrap()), vec![2.0]);
}

#[test]
fn arithmetic_scenario_on_stored_operands() {
    let mut s = VectorStore::new();
    s.insert_with_key("v1".to_string(), bits(&[1.0, 2.0, 3.0]));
    s.insert_with_key("v2".to_string(), bits(&[4.0, 5.0, 6.0]));
    let (a, b) = s.operands(&"v1".to_string(), &"v2".to_string()).unwrap();
    let (a, b) = (floats(a), floats(b));
    let sum: Vec<f32> = a.iter().zip(b.iter()).map(|(x, y)| x + y).collect();
    let diff: Vec<f32> = a.iter().zip(b.iter()).map(|(x, y)| x - y).collect();
    let scaled: Vec<f32> = floats(s.get("v1".to_string()).unwrap()).iter().map(|x| x * 2.0).collect();
    assert_eq!(format!("Result: {:?}", sum), "Result: [5.0, 7.0, 9.0]");
    assert_eq!(format!("Result: {:?}", diff), "Result: [-3.0, -3.0, -3.0]");
    assert_eq!(format!("Result: {:?}", scaled), "Result: [2.0, 4.0, 6.0]");
    let dot: f32 = a.iter().zip(b.iter()).map(|(x, y)| x * y).sum();
    let na: f32 = a.iter().map(|x| x * x).sum::<f32>().sqrt();
    let nb: f32 = b.iter().map(|x| x * x).sum::<f32>().sqrt();
    assert_eq!(format!("Cosine Similarity: {:.4}", dot / (na * nb)), "Cosine Similarity: 0.9746");
}

#[test]
fn operands_missing_or_incompatible() {
    let mut s = VectorStore::new();
    s.insert_with_key("v1".to_string(), bits(&[1.0, 2.0, 3.0]));
    s.insert_with_key("short".to_string(), bits(&[1.0]));
    let missing = s.operands(&"v1".to_string(), &"nope".to_string()).unwrap_err();
    assert_eq!(missing, OperandError::NotFound);
    assert_eq!(missing.message(Operation::Addition), "One or both keys not found");
    assert_eq!(s.operands(&"nope".to_string(), &"v1".to_string()).unwrap_err(), OperandError::NotFound);
    let bad = s.operands(&"v1".to_string(), &"short".to_string()).unwrap_err();
    assert_eq!(bad, OperandError::Incompatible);
    assert_eq!(bad.message(Operation::Addition), "Vectors are not compatible for addition");
    assert_eq!(bad.message(Operation::Subtraction), "Vectors are not compatible for subtraction");
    assert_eq!(
        bad.message(Operation::CosineSimilarity),
        "Vectors are not compatible for cosine similarity"
    );
}

#[test]
fn operands_of_one_key_twice() {
    let mut s = VectorStore::new();
    s.insert_with_key("v".to_string(), bits(&[3.0, 4.0]));
    let (a, b) = s.operands(&"v".to_string(), &"v".to_string()).unwrap();
    assert_eq!(a, b);
    assert_eq!(floats(a), vec![3.0, 4.0]);
}

#[test]
fn nearest_neighbours_sorted_and_filtered_by_length() {
    let mut s = VectorStore::new();
    s.insert_with_key("far".to_string(), bits(&[10.0, 10.0]));
    s.insert_with_key("q".to_string(), bits(&[0.0, 0.0]));
    s.insert_with_key("other".to_string(), bits(&[0.0, 0.0, 0.0]));
    s.insert_with_key("near".to_string(), bits(&[1.0, 0.0]));
    s.insert_with_key("mid".to_string(), bits(&[3.0, 4.0]));
    let query = s.get("q".to_string()).unwrap().clone();
    let d = distances(&s, &query);
    let names = |r: &Vec<usize>| -> Vec<String> { r.iter().map(|i| s.entries()[*i].0.clone()).collect() };
    let all = s.k_nearest_neighbors(&query, 10, &d);
    assert_eq!(names(&all), vec!["q", "near", "mid", "far"]);
    let two = s.k_nearest_neighbors(&query, 2, &d);
    assert_eq!(names(&two), vec!["q", "near"]);
    assert_eq!(s.k_nearest_neighbors(&query, 0, &d), Vec::<usize>::new());
}

#[test]
fn nearest_neighbour_for_k_one() {
    let mut s = VectorStore::new();
    s.insert_with_key("a".to_string(), bits(&[5.0]));
    s.insert_with_key("b".to_string(), bits(&[2.0]));
    s.insert_with_key("c".to_string(), bits(&[9.0]));
    let query = bits(&[1.0]);
    let d = distances(&s, &query);
    let one = s.k_nearest_neighbors(&query, 1, &d);
    assert_eq!(one.len(), 1);
    assert_eq!(s.entries()[one[0]].0, "b");
}

#[test]
fn nearest_neighbours_of_absent_key() {
    let s = VectorStore::new();
    assert_eq!(s.get("missing".to_string()), None);
    assert_eq!(s.k_nearest_neighbors(&bits(&[1.0]), 3, &Vec::new()), Vec::<usize>::new());
}
