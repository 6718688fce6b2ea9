use turingosv3::experiments::swarm::routing_candidates;
use turingosv3::kernel::{File, Head, Tape};
use turingosv3::sdk::actor::{chain_step_text, proof_chain_steps, sibling_preview_text};

fn node(id: &str, citations: &[&str], payload: &str) -> File<f64> {
    File {
        id: id.to_string(),
        author: "agent".to_string(),
        payload: payload.to_string(),
        citations: citations.iter().map(|c| c.to_string()).collect(),
        stake: 1,
        intrinsic_reward: 0.0,
        price: 0.0,
    }
}

fn sample_tape() -> Tape<f64> {
    let mut tape: Tape<f64> = Tape::new();
    tape.append(node("root", &[], "theorem t : True := by"), 0.0).unwrap();
    tape.append(node("a", &["root"], "theorem t : True := by\n  intro h"), 0.0).unwrap();
    tape.append(node("c", &["root"], "side step"), 0.0).unwrap();
    tape.append(node("b", &["a"], "theorem t : True := by\n  intro h\n  trivial  \n"), 0.0).unwrap();
    tape
}

#[test]
fn deepest_chain_reports_first_deepest_leaf() {
    let tape = sample_tape();
    assert_eq!(tape.deepest_chain(), (2, "b".to_string()));
    let mut flat: Tape<f64> = Tape::new();
    assert_eq!(flat.deepest_chain(), (0, String::new()));
    flat.append(node("x", &[], "p"), 0.0).unwrap();
    flat.append(node("y", &[], "q"), 0.0).unwrap();
    assert_eq!(flat.deepest_chain(), (0, String::new()));
    flat.append(node("z1", &["x"], "r"), 0.0).unwrap();
    flat.append(node("z2", &["y"], "s"), 0.0).unwrap();
    assert_eq!(flat.deepest_chain(), (1, "z1".to_string()));
}

#[test]
fn payload_search_finds_omega() {
    let mut tape = sample_tape();
    assert!(!tape.any_payload_contains("[OMEGA]"));
    tape.append(node("w", &["b"], "[OMEGA] no goals"), 0.0).unwrap();
    assert!(tape.any_payload_contains("[OMEGA]"));
}

#[test]
fn head_moves_to_new_node_and_drops_what_it_cites() {
    let mut h = Head::new();
    h.advance("a", &vec![]);
    assert!(h.reads("a"));
    h.advance("b", &vec!["a".to_string()]);
    assert!(h.reads("b"));
    assert!(!h.reads("a"));
    assert_eq!(h.paths.len(), 1);
    h.advance("c", &vec!["zzz".to_string()]);
    assert_eq!(h.paths.len(), 2);
    h.advance("b", &vec![]);
    assert_eq!(h.paths.len(), 2);
    h.advance("d", &vec!["d".to_string()]);
    assert!(!h.reads("d"));
}

#[test]
fn proof_chain_lists_last_lines_root_first() {
    let tape = sample_tape();
    let chain = proof_chain_steps(&tape, "b");
    assert_eq!(
        chain,
        vec![
            ("root".to_string(), "theorem t : True := by".to_string()),
            ("a".to_string(), "intro h".to_string()),
            ("b".to_string(), "trivial".to_string()),
        ]
    );
    assert!(proof_chain_steps(&tape, "missing").is_empty());
}

#[test]
fn chain_step_is_last_trimmed_line() {
    assert_eq!(chain_step_text("a\n  b  \n"), "b");
    assert_eq!(chain_step_text(""), "");
    assert_eq!(chain_step_text("  only  "), "only");
    assert_eq!(chain_step_text("x\r\ny\r\n"), "y");
}

#[test]
fn sibling_preview_is_one_line_of_eighty_chars() {
    assert_eq!(sibling_preview_text("a\nb"), "a b");
    let long = "x".repeat(100);
    assert_eq!(sibling_preview_text(&long), "x".repeat(80));
}

#[test]
fn appending_and_repricing_leave_golden_paths_as_they_were() {
    let mut tape = sample_tape();
    let before = tape.trace_golden_path("b");
    assert_eq!(before, vec!["b".to_string(), "a".to_string(), "root".to_string()]);
    tape.append(node("e", &["b"], "extends b"), 1.0).unwrap();
    tape.append(node("f", &["ghost", "c"], "cites a ghost"), 0.0).unwrap();
    assert_eq!(tape.trace_golden_path("b"), before);
    tape.set_price("a", 0.9);
    tape.set_price("b", 0.1);
    assert_eq!(tape.trace_golden_path("b"), before);
    assert_eq!(tape.trace_golden_path("f"), vec!["f".to_string(), "c".to_string(), "root".to_string()]);
}

#[test]
fn reverse_index_lists_exactly_the_citing_nodes() {
    let tape = sample_tape();
    assert_eq!(tape.reverse_citations.get("root"), Some(&vec!["a".to_string(), "c".to_string()]));
    assert_eq!(tape.reverse_citations.get("a"), Some(&vec!["b".to_string()]));
    assert_eq!(tape.reverse_citations.get("b"), None);
}

#[test]
fn router_draws_from_live_leaves() {
    let mut tape: Tape<f64> = Tape::new();
    tape.append(node("root", &[], "start"), 0.0).unwrap();
    tape.append(node("a", &["root"], "step a"), 0.0).unwrap();
    tape.append(node("dead", &["root"], "branch failed"), 0.0).unwrap();
    let mut unstaked = node("z", &["a"], "no stake");
    unstaked.stake = 0;
    tape.append(unstaked, 0.0).unwrap();
    // "a" has a child (z), "dead" failed, "z" has no stake: no live leaf.
    assert_eq!(routing_candidates(&tape), vec!["root".to_string(), "a".to_string()]);
    tape.append(node("b", &["a"], "step b"), 0.0).unwrap();
    assert_eq!(routing_candidates(&tape), vec!["b".to_string()]);
    let empty: Tape<f64> = Tape::new();
    assert!(routing_candidates(&empty).is_empty());
}
