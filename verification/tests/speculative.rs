use qwen3_moe::device::DevicePtr;
use qwen3_moe::forward::speculative::{
    argmax, forward_speculative_pp_step, forward_speculative_pp_step_sampling,
    forward_speculative_tp_step, prob_of, SamplingEvent, SpecAction, SpecError, SpecEvent,
    SpecInput, SpecMove, SpecState, SpecStep, TpSpecEvent,
};

fn bits(xs: &[f32]) -> Vec<u32> {
    xs.iter().map(|x| x.to_bits()).collect()
}

#[test]
fn the_first_greatest_logit() {
    assert_eq!(argmax(&bits(&[0.0, 1.0, 1.0])), 1);
    assert_eq!(argmax(&bits(&[-2.0, -1.0, -3.0])), 1);
    // Zeros of either sign are equal.
    assert_eq!(argmax(&bits(&[-0.0, 0.0])), 0);
    assert_eq!(argmax(&bits(&[f32::NEG_INFINITY, -1.0e30, f32::INFINITY])), 2);
    // What is not a number is never greater, and nothing is greater than it.
    assert_eq!(argmax(&bits(&[1.0, f32::NAN, 2.0])), 2);
    assert_eq!(argmax(&bits(&[f32::NAN, 5.0])), 0);
    assert_eq!(argmax(&bits(&[4.0])), 0);
}

const INPUT: SpecInput = SpecInput {
    last_token: 9,
    position: 20,
    vocab: 3,
    row_bytes: 128,
    verify_hidden: DevicePtr(1000),
    decode_hidden: DevicePtr(2000),
    has_embedding: true,
};

fn act(m: SpecMove) -> (SpecState, SpecAction) {
    match m {
        SpecMove::Act { state, action } => (state, action),
        SpecMove::Finish { .. } => panic!("over"),
    }
}

fn over(m: SpecMove) -> (SpecStep, DevicePtr) {
    match m {
        SpecMove::Finish { step, hidden } => (step, hidden),
        SpecMove::Act { .. } => panic!("not over"),
    }
}

fn greedy_draft(token: usize) -> SpecState {
    let go = |s: SpecState, e: SpecEvent| forward_speculative_pp_step(&INPUT, s, e).unwrap();
    let (s, a) = act(go(SpecState::Ready, SpecEvent::Start));
    assert_eq!(a, SpecAction::DraftAlongsideSnapshot { token: 9, draft_position: 21 });
    let mut logits = bits(&[0.0, 0.0, 0.0]);
    logits[token] = 1.0f32.to_bits();
    let (s, a) = act(go(s, SpecEvent::Drafted { logits }));
    assert_eq!(a, SpecAction::VerifyPaired { first: 9, second: token as u32, position: 20 });
    s
}

#[test]
fn a_draft_that_holds_gives_two_tokens() {
    let s = greedy_draft(2);
    let e = SpecEvent::Verified { logits: bits(&[0.0, 0.5, 0.75]) };
    let (s, a) = act(forward_speculative_pp_step(&INPUT, s, e).unwrap());
    assert_eq!(a, SpecAction::HeadAt { row: 1 });
    let e = SpecEvent::Head { logits: bits(&[3.0, 0.5, 0.75]) };
    let (step, hidden) = over(forward_speculative_pp_step(&INPUT, s, e).unwrap());
    assert_eq!(step.committed, vec![2, 0]);
    assert_eq!((step.new_position, step.accepted, step.draft, step.verify), (22, true, 2, 2));
    assert_eq!(hidden, DevicePtr(1128));
}

#[test]
fn a_draft_that_fails_gives_the_base_token() {
    let s = greedy_draft(2);
    let e = SpecEvent::Verified { logits: bits(&[0.0, 5.0, 0.75]) };
    let (s, a) = act(forward_speculative_pp_step(&INPUT, s, e).unwrap());
    // The slot of the last token stays; only the recurrent layers are redone.
    assert_eq!(a, SpecAction::RestoreAndAdvance { rollback: 1, token: 9 });
    let (step, hidden) =
        over(forward_speculative_pp_step(&INPUT, s, SpecEvent::Restored).unwrap());
    assert_eq!(step.committed, vec![1]);
    assert_eq!((step.new_position, step.accepted, step.draft, step.verify), (21, false, 2, 1));
    assert_eq!(hidden, DevicePtr(1000));
}

#[test]
fn logits_of_another_length_are_an_error() {
    let s = greedy_draft(0);
    let e = forward_speculative_pp_step(&INPUT, s, SpecEvent::Verified { logits: vec![0, 0] })
        .unwrap_err();
    assert_eq!(e, SpecError::Pos0Logits { vocab: 3, have: 2 });
    assert_eq!(e.message(), "spec: expected 3 pos0 logits, got 2");
}

#[test]
fn a_pipeline_without_an_embedding_drafts_nothing() {
    let input = SpecInput { has_embedding: false, ..INPUT };
    let e = forward_speculative_pp_step(&input, SpecState::Ready, SpecEvent::Start).unwrap_err();
    assert_eq!(e, SpecError::NoEmbedding);
    assert_eq!(e.message(), "rank 0 missing token_embd");
    // A sampling step has saved the recurrent layers by then.
    let sample = |s: SpecState, e: SamplingEvent| {
        forward_speculative_pp_step_sampling(&input, s, e)
    };
    let (s, a) = act(sample(SpecState::Ready, SamplingEvent::Start).unwrap());
    assert_eq!(a, SpecAction::Snapshot);
    assert_eq!(sample(s, SamplingEvent::Saved).unwrap_err(), SpecError::NoEmbedding);
}

#[test]
fn a_sampling_step() {
    let go = |s: SpecState, e: SamplingEvent| {
        forward_speculative_pp_step_sampling(&INPUT, s, e).unwrap()
    };
    let (s, a) = act(go(SpecState::Ready, SamplingEvent::Start));
    assert_eq!(a, SpecAction::Snapshot);
    let (s, a) = act(go(s, SamplingEvent::Saved));
    assert_eq!(a, SpecAction::Draft { token: 9, draft_position: 21 });
    let (s, a) = act(go(s, SamplingEvent::Drafted { token: 4 }));
    assert_eq!(a, SpecAction::VerifyPaired { first: 9, second: 4, position: 20 });
    let (yes, a) = act(go(s, SamplingEvent::Judged { accepted: true }));
    assert_eq!(a, SpecAction::HeadAt { row: 1 });
    let (step, hidden) = over(go(yes, SamplingEvent::Drawn { token: 6 }));
    assert_eq!((step.committed, step.new_position, hidden), (vec![4, 6], 22, DevicePtr(1128)));
    let (no, a) = act(go(s, SamplingEvent::Judged { accepted: false }));
    assert_eq!(a, SpecAction::RestoreAndRedo { rollback: 2, token: 9, position: 20 });
    let (step, hidden) = over(go(no, SamplingEvent::Drawn { token: 6 }));
    assert_eq!((step.verify, step.draft, step.accepted), (6, 4, false));
    assert_eq!((step.committed, step.new_position, hidden), (vec![6], 21, DevicePtr(2000)));
}

#[test]
fn drawing_the_greatest_logit_is_a_greedy_step() {
    let sample = |s: SpecState, e: SamplingEvent| {
        forward_speculative_pp_step_sampling(&INPUT, s, e).unwrap()
    };
    for (verify, second) in [(2usize, 0u32), (1, 0)] {
        let mut logits = bits(&[0.0, 0.0, 0.0]);
        logits[verify] = 1.0f32.to_bits();
        let e = SpecEvent::Verified { logits };
        let (s, _) = act(forward_speculative_pp_step(&INPUT, greedy_draft(2), e).unwrap());
        let e = if verify == 2 {
            SpecEvent::Head { logits: bits(&[3.0, 0.5, 0.75]) }
        } else {
            SpecEvent::Restored
        };
        let (greedy, _) = over(forward_speculative_pp_step(&INPUT, s, e).unwrap());

        let (s, _) = act(sample(SpecState::Ready, SamplingEvent::Start));
        let (s, _) = act(sample(s, SamplingEvent::Saved));
        let (s, _) = act(sample(s, SamplingEvent::Drafted { token: 2 }));
        let (s, _) = act(sample(s, SamplingEvent::Judged { accepted: verify == 2 }));
        let token = if verify == 2 { second } else { verify as u32 };
        let (drawn, _) = over(sample(s, SamplingEvent::Drawn { token }));
        assert_eq!(drawn.committed, greedy.committed);
        assert_eq!(
            (drawn.new_position, drawn.accepted, drawn.draft, drawn.verify),
            (greedy.new_position, greedy.accepted, greedy.draft, greedy.verify)
        );
    }
}

#[test]
fn a_step_on_a_mesh() {
    let go = |s: SpecState, e: TpSpecEvent| forward_speculative_tp_step(&INPUT, s, e);
    let (s, a) = act(go(SpecState::Ready, TpSpecEvent::Start).unwrap());
    assert_eq!(a, SpecAction::SnapshotThenDraft { token: 9, draft_position: 21 });
    let (s, a) = act(go(s, TpSpecEvent::Drafted { logits: bits(&[0.0, 2.0]) }).unwrap());
    assert_eq!(a, SpecAction::VerifyTwice { first: 9, second: 1, position: 20 });
    let two = |a: &[f32], b: &[f32]| TpSpecEvent::Verified { first: bits(a), second: bits(b) };
    let (step, hidden) = over(go(s, two(&[0.0, 1.0, 0.0], &[0.0, 0.0, 1.0])).unwrap());
    assert_eq!((step.committed, step.new_position, hidden), (vec![1, 2], 22, DevicePtr(2000)));
    let (r, a) = act(go(s, two(&[1.0, 0.0, 0.0], &[0.0, 0.0, 1.0])).unwrap());
    assert_eq!(a, SpecAction::RestoreAndRedo { rollback: 2, token: 9, position: 20 });
    let (step, _) = over(go(r, TpSpecEvent::Redone { logits: bits(&[1.0, 0.0]) }).unwrap());
    assert_eq!((step.committed, step.accepted, step.verify), (vec![0], false, 0));
    let e = go(s, two(&[1.0], &[0.0, 0.0])).unwrap_err();
    assert_eq!(e.message(), "spec-tp: expected 3 logits per step, got 1, 2");
}

/// The tokens that K, V and the recurrent layers have been fed.
fn feed(kv: &mut Vec<u32>, gdn: &mut Vec<u32>, saved: &mut Vec<u32>, a: SpecAction) {
    match a {
        SpecAction::DraftAlongsideSnapshot { .. }
        | SpecAction::SnapshotThenDraft { .. }
        | SpecAction::Snapshot => {
            *saved = gdn.clone();
        }
        SpecAction::VerifyPaired { first, second, .. }
        | SpecAction::VerifyTwice { first, second, .. } => {
            kv.extend([first, second]);
            gdn.extend([first, second]);
        }
        SpecAction::HeadAt { .. } | SpecAction::Draft { .. } => {}
        SpecAction::RestoreAndAdvance { rollback, token } => {
            kv.truncate(kv.len() - rollback);
            *gdn = saved.clone();
            gdn.push(token);
        }
        SpecAction::RestoreAndRedo { rollback, token, .. } => {
            kv.truncate(kv.len() - rollback);
            kv.push(token);
            *gdn = saved.clone();
            gdn.push(token);
        }
    }
}

#[test]
fn caches_hold_what_was_committed() {
    for accepted in [true, false] {
        let (mut kv, mut gdn, mut saved) = (vec![5; 20], vec![5; 20], vec![]);
        let mut state = SpecState::Ready;
        let mut event = SamplingEvent::Start;
        let step = loop {
            match forward_speculative_pp_step_sampling(&INPUT, state, event).unwrap() {
                SpecMove::Act { state: s, action } => {
                    feed(&mut kv, &mut gdn, &mut saved, action);
                    state = s;
                    event = match s {
                        SpecState::Saving => SamplingEvent::Saved,
                        SpecState::Drafting => SamplingEvent::Drafted { token: 4 },
                        SpecState::Verifying { .. } => SamplingEvent::Judged { accepted },
                        _ => SamplingEvent::Drawn { token: 6 },
                    };
                }
                SpecMove::Finish { step, .. } => break step,
            }
        };
        let mut want = vec![5; 20];
        want.push(9);
        if accepted {
            want.push(4);
        }
        assert_eq!(kv, want);
        assert_eq!(gdn, want);
        assert_eq!(step.new_position, want.len());
    }
}

#[test]
fn probabilities_are_looked_up() {
    let d = [(7, 0.5f32.to_bits()), (3, 0.25f32.to_bits()), (7, 0.125f32.to_bits())];
    assert_eq!(prob_of(&d, 3), 0.25f32.to_bits());
    // The first entry counts.
    assert_eq!(prob_of(&d, 7), 0.5f32.to_bits());
    assert_eq!(prob_of(&d, 1), 0);
    assert_eq!(prob_of(&[], 1), 0);
}
