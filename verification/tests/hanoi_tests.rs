use turingosv3::kernel::{Action, File, Head, MachineState, Output, Tape};

struct HanoiAgent {
    current_step: u64,
    total_steps: u64,
}

impl HanoiAgent {
    fn delta(&mut self) -> Output {
        self.current_step += 1;
        let q_o = if self.current_step >= self.total_steps { MachineState::Halt } else { MachineState::Running };
        let mut citations = vec![];
        if self.current_step > 1 {
            citations.push(format!("hanoi_step_{}", self.current_step - 1));
        }
        Output {
            q_o,
            a_o: Action {
                file_id: format!("hanoi_step_{}", self.current_step),
                author: "MAKER_HanoiAgent".to_string(),
                payload: format!("Move disk for step {}", self.current_step),
                citations,
                stake: 1,
            },
        }
    }
}

#[test]
fn test_1_million_hanoi_steps_mock() {
    let target_steps = 100;
    let mut agent = HanoiAgent { current_step: 0, total_steps: target_steps };
    let final_omega_id = format!("hanoi_step_{}", target_steps);

    let mut tape: Tape<f64> = Tape::new();
    let mut head = Head::new();
    let mut q = MachineState::Running;
    let mut steps: u64 = 0;
    while q == MachineState::Running {
        let output = agent.delta();
        let action = output.a_o;
        let file = File {
            id: action.file_id.clone(),
            author: action.author,
            payload: action.payload,
            citations: action.citations.clone(),
            stake: action.stake,
            intrinsic_reward: 0.0,
            price: 0.0,
        };
        tape.append(file, 0.0).expect("every step is a new node");
        head.advance(&action.file_id, &action.citations);
        q = output.q_o;
        steps += 1;
    }

    assert_eq!(steps, target_steps);
    assert_eq!(tape.time_arrow.len(), 100);
    let path = tape.trace_golden_path(&final_omega_id);
    assert_eq!(path.len(), 100);
    assert_eq!(path[0], final_omega_id);
    assert_eq!(path[99], "hanoi_step_1");
    assert_eq!(head.paths, vec![final_omega_id.clone()]);
}
