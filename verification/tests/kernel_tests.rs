use turingosv3::kernel::{chain_depth, File, Tape};

fn node(id: &str, citations: &[&str]) -> File<f64> {
    File {
        id: id.to_string(),
        author: "agent".to_string(),
        payload: format!("payload of {}", id),
        citations: citations.iter().map(|c| c.to_string()).collect(),
        stake: 1,
        intrinsic_reward: 0.0,
        price: 0.0,
    }
}

#[test]
fn append_records_node_reward_and_time_arrow() {
    let mut tape: Tape<f64> = Tape::new();
    let stored = tape.append(node("root", &[]), 2.5).unwrap();
    assert_eq!(stored.id, "root");
    assert_eq!(stored.intrinsic_reward, 2.5);
    assert_eq!(stored.price, 2.5);
    tape.append(node("a", &["root"]), 0.0).unwrap();
    assert_eq!(tape.time_arrow, vec!["root".to_string(), "a".to_string()]);
    assert_eq!(tape.files.len(), 2);
}

#[test]
fn duplicate_id_is_refused_and_tape_unchanged() {
    let mut tape: Tape<f64> = Tape::new();
    tape.append(node("x", &[]), 1.0).unwrap();
    let err = tape.append(node("x", &[]), 9.0).err().unwrap();
    assert_eq!(err, "Spacetime Paradox: Node ID x already exists.");
    assert_eq!(tape.time_arrow.len(), 1);
    assert_eq!(tape.files.get("x").unwrap().price, 1.0);
}

#[test]
fn ghost_citations_are_stripped() {
    let mut tape: Tape<f64> = Tape::new();
    tape.append(node("root", &[]), 0.0).unwrap();
    let stored = tape.append(node("child", &["ghost", "root", "child"]), 0.0).unwrap();
    assert_eq!(stored.citations, vec!["root".to_string()]);
}

#[test]
fn reverse_citations_list_children_in_order() {
    let mut tape: Tape<f64> = Tape::new();
    tape.append(node("p", &[]), 0.0).unwrap();
    tape.append(node("c1", &["p"]), 0.0).unwrap();
    tape.append(node("c2", &["p", "c1"]), 0.0).unwrap();
    assert_eq!(tape.reverse_citations.get("p").unwrap(), &vec!["c1".to_string(), "c2".to_string()]);
    assert_eq!(tape.reverse_citations.get("c1").unwrap(), &vec!["c2".to_string()]);
    assert!(tape.reverse_citations.get("c2").is_none());
}

#[test]
fn golden_path_follows_first_citations_to_root() {
    let mut tape: Tape<f64> = Tape::new();
    tape.append(node("s1", &[]), 0.0).unwrap();
    tape.append(node("s2", &["s1"]), 0.0).unwrap();
    tape.append(node("side", &["s1"]), 0.0).unwrap();
    tape.append(node("s3", &["s2", "side"]), 0.0).unwrap();
    assert_eq!(tape.trace_golden_path("s3"), vec!["s3".to_string(), "s2".to_string(), "s1".to_string()]);
    assert_eq!(tape.trace_golden_path("s1"), vec!["s1".to_string()]);
    assert!(tape.trace_golden_path("missing").is_empty());
}

#[test]
fn chain_depth_counts_steps_to_root() {
    let mut tape: Tape<f64> = Tape::new();
    tape.append(node("s1", &[]), 0.0).unwrap();
    tape.append(node("s2", &["s1"]), 0.0).unwrap();
    tape.append(node("s3", &["s2"]), 0.0).unwrap();
    assert_eq!(chain_depth("s3", &tape), 2);
    assert_eq!(chain_depth("s1", &tape), 0);
    assert_eq!(chain_depth("nope", &tape), 0);
}

#[test]
fn set_price_changes_only_the_price() {
    let mut tape: Tape<f64> = Tape::new();
    tape.append(node("n", &[]), 3.0).unwrap();
    tape.set_price("n", 0.75);
    let f = tape.files.get("n").unwrap();
    assert_eq!(f.price, 0.75);
    assert_eq!(f.intrinsic_reward, 3.0);
    tape.set_price("absent", 1.0);
    assert_eq!(tape.files.len(), 1);
}

#[test]
fn snapshot_is_an_independent_copy() {
    let mut tape: Tape<f64> = Tape::new();
    tape.append(node("a", &[]), 1.0).unwrap();
    tape.append(node("b", &["a"]), 1.0).unwrap();
    let snap = tape.snapshot();
    tape.append(node("c", &["b"]), 1.0).unwrap();
    assert_eq!(snap.time_arrow, vec!["a".to_string(), "b".to_string()]);
    assert!(snap.files.get("c").is_none());
    assert_eq!(snap.reverse_citations.get("a").unwrap(), &vec!["b".to_string()]);
}
