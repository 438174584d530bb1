//! Speculative decoding, one drafted token at a time.
//!
//! A step starts with the caches filled up to the slot before `position` and
//! with `last_token`, which belongs there. The MTP head drafts the token after
//! it, the base model is run on both, and the draft is kept if the base model
//! agrees. Otherwise the caches are taken back to where only `last_token` was
//! fed.
//!
//! The functions here decide what is done next. Logits are singles, by their
//! bits.

use crate::device::DevicePtr;
use crate::text::{dec, owned, push_dec};
use vstd::prelude::*;

verus! {

/// Why a speculative step cannot go on.
#[derive(Debug, Clone, Copy, PartialEq, Eq, Structural)]
pub enum SpecError {
    /// The verification returned another number of logits.
    Pos0Logits { vocab: usize, have: usize },
    /// A verification step returned another number of logits.
    StepLogits { vocab: usize, first: usize, second: usize },
    /// The first rank of the pipeline has no embedding to draft from.
    NoEmbedding,
}

impl SpecError {
    /// What `message` says.
    pub open spec fn spec_message(&self) -> Seq<char> {
        match self {
            SpecError::Pos0Logits { vocab, have } => "spec: expected "@
                + dec(*vocab as nat)
                + " pos0 logits, got "@
                + dec(*have as nat),
            SpecError::StepLogits { vocab, first, second } => "spec-tp: expected "@
                + dec(*vocab as nat)
                + " logits per step, got "@
                + dec(*first as nat)
                + ", "@
                + dec(*second as nat),
            SpecError::NoEmbedding => "rank 0 missing token_embd"@,
        }
    }

    /// The error as a sentence.
    pub fn message(&self) -> (r: String)
        ensures
            r@ == self.spec_message(),
    {
        match self {
            SpecError::Pos0Logits { vocab, have } => {
                let mut s = owned("spec: expected ");
                push_dec(&mut s, *vocab as u64);
                s.append(" pos0 logits, got ");
                push_dec(&mut s, *have as u64);
                s
            },
            SpecError::StepLogits { vocab, first, second } => {
                let mut s = owned("spec-tp: expected ");
                push_dec(&mut s, *vocab as u64);
                s.append(" logits per step, got ");
                push_dec(&mut s, *first as u64);
                s.append(", ");
                push_dec(&mut s, *second as u64);
                s
            },
            SpecError::NoEmbedding => owned("rank 0 missing token_embd"),
        }
    }
}

/// The single is not a number.
pub open spec fn is_nan(x: u32) -> bool {
    x % 0x8000_0000 > 0x7F80_0000
}

/// A number that orders singles as their values are ordered.
pub open spec fn rank_of(x: u32) -> int {
    if x < 0x8000_0000 {
        x as int
    } else {
        -(x - 0x8000_0000)
    }
}

/// The first single is greater than the second. What is not a number is never
/// greater nor smaller.
pub open spec fn is_greater(a: u32, b: u32) -> bool {
    !is_nan(a) && !is_nan(b) && rank_of(a) > rank_of(b)
}

fn greater(a: u32, b: u32) -> (r: bool)
    ensures
        r == is_greater(a, b),
{
    let ka: u32 = a % 0x8000_0000;
    let kb: u32 = b % 0x8000_0000;
    if ka > 0x7F80_0000 || kb > 0x7F80_0000 {
        return false;
    }
    if a < 0x8000_0000 {
        if b < 0x8000_0000 {
            ka > kb
        } else {
            ka > 0 || kb > 0
        }
    } else {
        if b < 0x8000_0000 {
            false
        } else {
            ka < kb
        }
    }
}

/// `r` is the first place of the greatest value. Where the first value is not a
/// number, it is the first place.
pub open spec fn is_argmax(xs: Seq<u32>, r: int) -> bool {
    &&& 0 <= r < xs.len()
    &&& is_nan(xs[0]) ==> r == 0
    &&& !is_nan(xs[0]) ==> !is_nan(xs[r]) && (forall|j: int|
        0 <= j < xs.len() && !is_nan(#[trigger] xs[j]) ==> rank_of(xs[j]) <= rank_of(xs[r]) && (j
            < r ==> rank_of(xs[j]) < rank_of(xs[r])))
}

/// There is one such place.
pub proof fn law_argmax_unique(xs: Seq<u32>, r: int, s: int)
    requires
        is_argmax(xs, r),
        is_argmax(xs, s),
    ensures
        r == s,
{
    if !is_nan(xs[0]) {
        assert(rank_of(xs[r]) <= rank_of(xs[s]));
        assert(rank_of(xs[s]) <= rank_of(xs[r]));
    }
}

/// The token of the greatest logit.
pub fn argmax(xs: &Vec<u32>) -> (r: u32)
    requires
        1 <= xs@.len() <= u32::MAX,
    ensures
        is_argmax(xs@, r as int),
{
    let mut best: usize = 0;
    let mut i: usize = 1;
    while i < xs.len()
        invariant
            best < i <= xs@.len(),
            xs@.len() <= u32::MAX,
            is_argmax(xs@.take(i as int), best as int),
        decreases xs@.len() - i,
    {
        let ghost t = xs@.take(i as int);
        let ghost u = xs@.take(i as int + 1);
        proof {
            assert(forall|j: int| 0 <= j < i ==> #[trigger] u[j] == t[j]);
            assert(t[best as int] == xs@[best as int]);
            assert(u[i as int] == xs@[i as int]);
            assert(t[0] == xs@[0]);
        }
        if greater(xs[i], xs[best]) {
            best = i;
        }
        i = i + 1;
    }
    proof {
        assert(xs@.take(xs@.len() as int) =~= xs@);
    }
    best as u32
}

/// The probability that a distribution gives a token: that of its first entry,
/// and zero where there is none. Probabilities are singles, by their bits.
pub open spec fn prob_in(dist: Seq<(u32, u32)>, token: u32) -> u32
    decreases dist.len(),
{
    if dist.len() == 0 {
        0
    } else if dist[0].0 == token {
        dist[0].1
    } else {
        prob_in(dist.skip(1), token)
    }
}

/// The probability that a distribution gives a token.
pub fn prob_of(dist: &[(u32, u32)], token: u32) -> (r: u32)
    ensures
        r == prob_in(dist@, token),
{
    let mut i: usize = 0;
    proof {
        assert(dist@.skip(0) =~= dist@);
    }
    while i < dist.len()
        invariant
            i <= dist@.len(),
            prob_in(dist@, token) == prob_in(dist@.skip(i as int), token),
        decreases dist@.len() - i,
    {
        let (id, p) = dist[i];
        if id == token {
            return p;
        }
        proof {
            assert(dist@.skip(i as int).skip(1) =~= dist@.skip(i as int + 1));
        }
        i = i + 1;
    }
    0
}

/// What a step works on.
#[derive(Debug, Clone, Copy, PartialEq, Eq, Structural)]
pub struct SpecInput {
    /// The token that was committed last; it is fed at `position`.
    pub last_token: u32,
    pub position: usize,
    pub vocab: usize,
    /// Bytes of one hidden row.
    pub row_bytes: usize,
    /// Where the verification leaves its hidden rows.
    pub verify_hidden: DevicePtr,
    /// Where a decode leaves its hidden row.
    pub decode_hidden: DevicePtr,
    /// The first rank has the embedding that a draft starts from.
    pub has_embedding: bool,
}

/// How far a step has come.
#[derive(Debug, Clone, Copy, PartialEq, Eq, Structural)]
pub enum SpecState {
    Ready,
    /// The recurrent layers are being saved; the draft comes after.
    Saving,
    Drafting,
    Verifying { draft: u32 },
    /// The draft holds; its successor is due.
    Accepting { draft: u32 },
    /// The draft does not hold; the caches are being taken back.
    Rejecting { draft: u32, verify: u32 },
}

/// What is to be done next.
#[derive(Debug, Clone, Copy, PartialEq, Eq, Structural)]
pub enum SpecAction {
    /// Draft on the last rank, on an auxiliary stream, while the recurrent layers
    /// are saved.
    DraftAlongsideSnapshot { token: u32, draft_position: usize },
    /// Save the recurrent layers, then draft.
    SnapshotThenDraft { token: u32, draft_position: usize },
    /// Save the recurrent layers.
    Snapshot,
    /// Draft on the last rank.
    Draft { token: u32, draft_position: usize },
    /// Run the base model on both tokens at once. The head runs on the first row.
    VerifyPaired { first: u32, second: u32, position: usize },
    /// Run the base model on one token, then on the other.
    VerifyTwice { first: u32, second: u32, position: usize },
    /// Run the head on a row of the verification.
    HeadAt { row: usize },
    /// Take back `rollback` slots of K and V, restore the recurrent layers and
    /// advance them alone by the first token of the verification.
    RestoreAndAdvance { rollback: usize, token: u32 },
    /// Take back `rollback` slots of K and V, restore the recurrent layers and
    /// run the base model on one token.
    RestoreAndRedo { rollback: usize, token: u32, position: usize },
}

/// The outcome of a step.
#[derive(Debug)]
pub struct SpecStep {
    /// One token, or two where the draft holds, the older first.
    pub committed: Vec<u32>,
    pub new_position: usize,
    pub accepted: bool,
    pub draft: u32,
    /// The base model's token at the drafted place.
    pub verify: u32,
}

/// What follows an event.
#[derive(Debug)]
pub enum SpecMove {
    Act { state: SpecState, action: SpecAction },
    /// The step is over. `hidden` is the row that the next draft starts from.
    Finish { step: SpecStep, hidden: DevicePtr },
}

/// The step is over with those tokens.
pub open spec fn finishes(
    m: SpecMove,
    input: SpecInput,
    committed: Seq<u32>,
    draft: u32,
    verify: u32,
    hidden: DevicePtr,
) -> bool {
    m matches SpecMove::Finish { step, hidden: h } && {
        &&& step.committed@ == committed
        &&& step.new_position == input.position + committed.len()
        &&& step.accepted == (committed.len() == 2)
        &&& step.draft == draft
        &&& step.verify == verify
        &&& h == hidden
    }
}

fn finish(
    input: &SpecInput,
    first: u32,
    second: Option<u32>,
    draft: u32,
    verify: u32,
    hidden: DevicePtr,
) -> (m: SpecMove)
    requires
        input.position + 2 <= usize::MAX,
    ensures
        finishes(
            m,
            *input,
            match second {
                Some(s) => seq![first, s],
                None => seq![first],
            },
            draft,
            verify,
            hidden,
        ),
{
    let mut committed: Vec<u32> = Vec::new();
    committed.push(first);
    let mut accepted = false;
    let mut new_position: usize = input.position + 1;
    if let Some(s) = second {
        committed.push(s);
        accepted = true;
        new_position = input.position + 2;
    }
    proof {
        assert(committed@ =~= match second {
            Some(s) => seq![first, s],
            None => seq![first],
        });
    }
    SpecMove::Finish {
        step: SpecStep { committed, new_position, accepted, draft, verify },
        hidden,
    }
}

/// The logits name a token.
pub open spec fn logits_ok(xs: Seq<u32>) -> bool {
    1 <= xs.len() <= u32::MAX
}

/// What a greedy step on a pipeline is told.
#[derive(Debug)]
pub enum SpecEvent {
    Start,
    /// The logits of the MTP head.
    Drafted { logits: Vec<u32> },
    /// The base model's logits of the first row.
    Verified { logits: Vec<u32> },
    /// The base model's logits of the second row.
    Head { logits: Vec<u32> },
    /// The caches are back.
    Restored,
}

/// The event is one that the state waits for.
pub open spec fn awaits(state: SpecState, event: SpecEvent) -> bool {
    match state {
        SpecState::Ready => event is Start,
        SpecState::Saving => false,
        SpecState::Drafting => event matches SpecEvent::Drafted { logits } && logits_ok(logits@),
        SpecState::Verifying { .. } => event is Verified,
        SpecState::Accepting { .. } => event matches SpecEvent::Head { logits } && logits_ok(
            logits@,
        ),
        SpecState::Rejecting { .. } => event is Restored,
    }
}

/// What a greedy step on a pipeline does next: the draft holds exactly if it
/// is the base model's greatest logit.
pub open spec fn greedy_next(
    input: SpecInput,
    state: SpecState,
    event: SpecEvent,
    res: Result<SpecMove, SpecError>,
) -> bool {
    match (state, event) {
        (SpecState::Ready, SpecEvent::Start) => res == if input.has_embedding {
            Ok::<SpecMove, SpecError>(
                SpecMove::Act {
                    state: SpecState::Drafting,
                    action: SpecAction::DraftAlongsideSnapshot {
                        token: input.last_token,
                        draft_position: (input.position + 1) as usize,
                    },
                },
            )
        } else {
            Err::<SpecMove, SpecError>(SpecError::NoEmbedding)
        },
        (SpecState::Drafting, SpecEvent::Drafted { logits }) => exists|draft: u32| {
            &&& #[trigger] is_argmax(logits@, draft as int)
            &&& res == Ok::<SpecMove, SpecError>(
                SpecMove::Act {
                    state: SpecState::Verifying { draft },
                    action: SpecAction::VerifyPaired {
                        first: input.last_token,
                        second: draft,
                        position: input.position,
                    },
                },
            )
        },
        (SpecState::Verifying { draft }, SpecEvent::Verified { logits }) => if logits@.len()
            != input.vocab {
            res == Err::<SpecMove, SpecError>(
                SpecError::Pos0Logits { vocab: input.vocab, have: logits@.len() as usize },
            )
        } else {
            exists|verify: u32| {
                &&& #[trigger] is_argmax(logits@, verify as int)
                &&& res == Ok::<SpecMove, SpecError>(
                    if draft == verify {
                        SpecMove::Act {
                            state: SpecState::Accepting { draft },
                            action: SpecAction::HeadAt { row: 1 },
                        }
                    } else {
                        SpecMove::Act {
                            state: SpecState::Rejecting { draft, verify },
                            action: SpecAction::RestoreAndAdvance {
                                rollback: 1,
                                token: input.last_token,
                            },
                        }
                    },
                )
            }
        },
        (SpecState::Accepting { draft }, SpecEvent::Head { logits }) => exists|second: u32| {
            &&& #[trigger] is_argmax(logits@, second as int)
            &&& res is Ok && finishes(
                res->Ok_0,
                input,
                seq![draft, second],
                draft,
                draft,
                DevicePtr((input.verify_hidden.0 + input.row_bytes) as usize),
            )
        },
        (SpecState::Rejecting { draft, verify }, SpecEvent::Restored) => res is Ok && finishes(
            res->Ok_0,
            input,
            seq![verify],
            draft,
            verify,
            input.verify_hidden,
        ),
        _ => false,
    }
}

/// What a greedy step on a pipeline does next.
pub fn forward_speculative_pp_step(input: &SpecInput, state: SpecState, event: SpecEvent) -> (res:
    Result<SpecMove, SpecError>)
    requires
        awaits(state, event),
        1 <= input.vocab <= u32::MAX,
        input.position + 2 <= usize::MAX,
        input.verify_hidden.0 + input.row_bytes <= usize::MAX,
    ensures
        greedy_next(*input, state, event, res),
{
    match (state, event) {
        (SpecState::Drafting, SpecEvent::Drafted { logits }) => {
            let draft: u32 = argmax(&logits);
            Ok(
                SpecMove::Act {
                    state: SpecState::Verifying { draft },
                    action: SpecAction::VerifyPaired {
                        first: input.last_token,
                        second: draft,
                        position: input.position,
                    },
                },
            )
        },
        (SpecState::Verifying { draft }, SpecEvent::Verified { logits }) => {
            if logits.len() != input.vocab {
                return Err(SpecError::Pos0Logits { vocab: input.vocab, have: logits.len() });
            }
            let verify: u32 = argmax(&logits);
            if draft == verify {
                Ok(
                    SpecMove::Act {
                        state: SpecState::Accepting { draft },
                        action: SpecAction::HeadAt { row: 1 },
                    },
                )
            } else {
                Ok(
                    SpecMove::Act {
                        state: SpecState::Rejecting { draft, verify },
                        action: SpecAction::RestoreAndAdvance {
                            rollback: 1,
                            token: input.last_token,
                        },
                    },
                )
            }
        },
        (SpecState::Accepting { draft }, SpecEvent::Head { logits }) => {
            let second: u32 = argmax(&logits);
            proof {
                assert(is_argmax(logits@, second as int));
            }
            Ok(
                finish(
                    input,
                    draft,
                    Some(second),
                    draft,
                    draft,
                    input.verify_hidden.offset_bytes(input.row_bytes),
                ),
            )
        },
        (SpecState::Rejecting { draft, verify }, SpecEvent::Restored) => {
            Ok(finish(input, verify, None, draft, verify, input.verify_hidden))
        },
        _ => {
            if !input.has_embedding {
                return Err(SpecError::NoEmbedding);
            }
            Ok(
                SpecMove::Act {
                    state: SpecState::Drafting,
                    action: SpecAction::DraftAlongsideSnapshot {
                        token: input.last_token,
                        draft_position: input.position + 1,
                    },
                },
            )
        },
    }
}

/// What a sampling step is told. Tokens are drawn from distributions, and the
/// draft is kept by chance, outside.
#[derive(Debug, Clone, Copy, PartialEq, Eq, Structural)]
pub enum SamplingEvent {
    Start,
    /// The recurrent layers are saved.
    Saved,
    /// The token drawn from the MTP head's distribution.
    Drafted { token: u32 },
    /// Whether the draft is kept.
    Judged { accepted: bool },
    /// The token drawn after the draft, or in its place.
    Drawn { token: u32 },
}

/// The event is one that the state waits for.
pub open spec fn awaits_sampling(state: SpecState, event: SamplingEvent) -> bool {
    match state {
        SpecState::Ready => event is Start,
        SpecState::Saving => event is Saved,
        SpecState::Drafting => event is Drafted,
        SpecState::Verifying { .. } => event is Judged,
        SpecState::Accepting { .. } => event is Drawn,
        SpecState::Rejecting { .. } => event is Drawn,
    }
}

/// What a sampling step on a pipeline does next. That there is nothing to draft
/// from shows only when the recurrent layers are saved.
pub open spec fn sampling_next(
    input: SpecInput,
    state: SpecState,
    event: SamplingEvent,
    res: Result<SpecMove, SpecError>,
) -> bool {
    match (state, event) {
        (SpecState::Ready, SamplingEvent::Start) => res == Ok::<SpecMove, SpecError>(
            SpecMove::Act { state: SpecState::Saving, action: SpecAction::Snapshot },
        ),
        (SpecState::Saving, SamplingEvent::Saved) => res == if input.has_embedding {
            Ok::<SpecMove, SpecError>(
                SpecMove::Act {
                    state: SpecState::Drafting,
                    action: SpecAction::Draft {
                        token: input.last_token,
                        draft_position: (input.position + 1) as usize,
                    },
                },
            )
        } else {
            Err::<SpecMove, SpecError>(SpecError::NoEmbedding)
        },
        (SpecState::Drafting, SamplingEvent::Drafted { token }) => res == Ok::<
            SpecMove,
            SpecError,
        >(
            SpecMove::Act {
                state: SpecState::Verifying { draft: token },
                action: SpecAction::VerifyPaired {
                    first: input.last_token,
                    second: token,
                    position: input.position,
                },
            },
        ),
        (SpecState::Verifying { draft }, SamplingEvent::Judged { accepted }) => res == Ok::<
            SpecMove,
            SpecError,
        >(
            if accepted {
                SpecMove::Act {
                    state: SpecState::Accepting { draft },
                    action: SpecAction::HeadAt { row: 1 },
                }
            } else {
                SpecMove::Act {
                    state: SpecState::Rejecting { draft, verify: draft },
                    action: SpecAction::RestoreAndRedo {
                        rollback: 2,
                        token: input.last_token,
                        position: input.position,
                    },
                }
            },
        ),
        (SpecState::Accepting { draft }, SamplingEvent::Drawn { token }) => res is Ok && finishes(
            res->Ok_0,
            input,
            seq![draft, token],
            draft,
            draft,
            DevicePtr((input.verify_hidden.0 + input.row_bytes) as usize),
        ),
        (SpecState::Rejecting { draft, .. }, SamplingEvent::Drawn { token }) => res is Ok
            && finishes(res->Ok_0, input, seq![token], draft, token, input.decode_hidden),
        _ => false,
    }
}

/// What a sampling step on a pipeline does next.
pub fn forward_speculative_pp_step_sampling(
    input: &SpecInput,
    state: SpecState,
    event: SamplingEvent,
) -> (res: Result<SpecMove, SpecError>)
    requires
        awaits_sampling(state, event),
        input.position + 2 <= usize::MAX,
        input.verify_hidden.0 + input.row_bytes <= usize::MAX,
    ensures
        sampling_next(*input, state, event, res),
{
    match (state, event) {
        (SpecState::Saving, SamplingEvent::Saved) => {
            if !input.has_embedding {
                return Err(SpecError::NoEmbedding);
            }
            Ok(
                SpecMove::Act {
                    state: SpecState::Drafting,
                    action: SpecAction::Draft {
                        token: input.last_token,
                        draft_position: input.position + 1,
                    },
                },
            )
        },
        (SpecState::Drafting, SamplingEvent::Drafted { token }) => Ok(
            SpecMove::Act {
                state: SpecState::Verifying { draft: token },
                action: SpecAction::VerifyPaired {
                    first: input.last_token,
                    second: token,
                    position: input.position,
                },
            },
        ),
        (SpecState::Verifying { draft }, SamplingEvent::Judged { accepted }) => {
            if accepted {
                Ok(
                    SpecMove::Act {
                        state: SpecState::Accepting { draft },
                        action: SpecAction::HeadAt { row: 1 },
                    },
                )
            } else {
                Ok(
                    SpecMove::Act {
                        state: SpecState::Rejecting { draft, verify: draft },
                        action: SpecAction::RestoreAndRedo {
                            rollback: 2,
                            token: input.last_token,
                            position: input.position,
                        },
                    },
                )
            }
        },
        (SpecState::Accepting { draft }, SamplingEvent::Drawn { token }) => Ok(
            finish(
                input,
                draft,
                Some(token),
                draft,
                draft,
                input.verify_hidden.offset_bytes(input.row_bytes),
            ),
        ),
        (SpecState::Rejecting { draft, .. }, SamplingEvent::Drawn { token }) => Ok(
            finish(input, token, None, draft, token, input.decode_hidden),
        ),
        _ => Ok(SpecMove::Act { state: SpecState::Saving, action: SpecAction::Snapshot }),
    }
}

/// What a step on a tensor-parallel mesh is told.
#[derive(Debug)]
pub enum TpSpecEvent {
    Start,
    /// The logits of the MTP head.
    Drafted { logits: Vec<u32> },
    /// The base model's logits after each of the two tokens.
    Verified { first: Vec<u32>, second: Vec<u32> },
    /// The base model's logits after the caches are back and the token was fed.
    Redone { logits: Vec<u32> },
}

/// The event is one that the state waits for.
pub open spec fn awaits_tp(state: SpecState, event: TpSpecEvent) -> bool {
    match state {
        SpecState::Ready => event is Start,
        SpecState::Saving => false,
        SpecState::Drafting => event matches TpSpecEvent::Drafted { logits } && logits_ok(logits@),
        SpecState::Verifying { .. } => event is Verified,
        SpecState::Rejecting { .. } => event matches TpSpecEvent::Redone { logits } && logits_ok(
            logits@,
        ),
        SpecState::Accepting { .. } => false,
    }
}

/// What a step on a tensor-parallel mesh does next: the draft holds exactly if
/// it is the base model's greatest logit.
pub open spec fn tp_next(
    input: SpecInput,
    state: SpecState,
    event: TpSpecEvent,
    res: Result<SpecMove, SpecError>,
) -> bool {
    match (state, event) {
        (SpecState::Ready, TpSpecEvent::Start) => res == Ok::<SpecMove, SpecError>(
            SpecMove::Act {
                state: SpecState::Drafting,
                action: SpecAction::SnapshotThenDraft {
                    token: input.last_token,
                    draft_position: (input.position + 1) as usize,
                },
            },
        ),
        (SpecState::Drafting, TpSpecEvent::Drafted { logits }) => exists|draft: u32| {
            &&& #[trigger] is_argmax(logits@, draft as int)
            &&& res == Ok::<SpecMove, SpecError>(
                SpecMove::Act {
                    state: SpecState::Verifying { draft },
                    action: SpecAction::VerifyTwice {
                        first: input.last_token,
                        second: draft,
                        position: input.position,
                    },
                },
            )
        },
        (SpecState::Verifying { draft }, TpSpecEvent::Verified { first, second }) => if first@.len()
            != input.vocab || second@.len() != input.vocab {
            res == Err::<SpecMove, SpecError>(
                SpecError::StepLogits {
                    vocab: input.vocab,
                    first: first@.len() as usize,
                    second: second@.len() as usize,
                },
            )
        } else {
            exists|verify: u32, next: u32| {
                &&& #[trigger] is_argmax(first@, verify as int)
                &&& #[trigger] is_argmax(second@, next as int)
                &&& res is Ok
                &&& if draft == verify {
                    finishes(
                        res->Ok_0,
                        input,
                        seq![verify, next],
                        draft,
                        verify,
                        input.decode_hidden,
                    )
                } else {
                    res->Ok_0 == (SpecMove::Act {
                        state: SpecState::Rejecting { draft, verify },
                        action: SpecAction::RestoreAndRedo {
                            rollback: 2,
                            token: input.last_token,
                            position: input.position,
                        },
                    })
                }
            }
        },
        (SpecState::Rejecting { draft, .. }, TpSpecEvent::Redone { logits }) => exists|token: u32| {
            &&& #[trigger] is_argmax(logits@, token as int)
            &&& res is Ok && finishes(
                res->Ok_0,
                input,
                seq![token],
                draft,
                token,
                input.decode_hidden,
            )
        },
        _ => false,
    }
}

/// What a step on a tensor-parallel mesh does next.
pub fn forward_speculative_tp_step(input: &SpecInput, state: SpecState, event: TpSpecEvent) -> (res:
    Result<SpecMove, SpecError>)
    requires
        awaits_tp(state, event),
        1 <= input.vocab <= u32::MAX,
        input.position + 2 <= usize::MAX,
    ensures
        tp_next(*input, state, event, res),
{
    match (state, event) {
        (SpecState::Drafting, TpSpecEvent::Drafted { logits }) => {
            let draft: u32 = argmax(&logits);
            Ok(
                SpecMove::Act {
                    state: SpecState::Verifying { draft },
                    action: SpecAction::VerifyTwice {
                        first: input.last_token,
                        second: draft,
                        position: input.position,
                    },
                },
            )
        },
        (SpecState::Verifying { draft }, TpSpecEvent::Verified { first, second }) => {
            if first.len() != input.vocab || second.len() != input.vocab {
                return Err(
                    SpecError::StepLogits {
                        vocab: input.vocab,
                        first: first.len(),
                        second: second.len(),
                    },
                );
            }
            let verify: u32 = argmax(&first);
            let next: u32 = argmax(&second);
            proof {
                assert(is_argmax(first@, verify as int) && is_argmax(second@, next as int));
            }
            if draft == verify {
                Ok(finish(input, verify, Some(next), draft, verify, input.decode_hidden))
            } else {
                Ok(
                    SpecMove::Act {
                        state: SpecState::Rejecting { draft, verify },
                        action: SpecAction::RestoreAndRedo {
                            rollback: 2,
                            token: input.last_token,
                            position: input.position,
                        },
                    },
                )
            }
        },
        (SpecState::Rejecting { draft, .. }, TpSpecEvent::Redone { logits }) => {
            let token: u32 = argmax(&logits);
            proof {
                assert(is_argmax(logits@, token as int));
            }
            Ok(finish(input, token, None, draft, token, input.decode_hidden))
        },
        _ => Ok(
            SpecMove::Act {
                state: SpecState::Drafting,
                action: SpecAction::SnapshotThenDraft {
                    token: input.last_token,
                    draft_position: input.position + 1,
                },
            },
        ),
    }
}

/// Which tokens the caches have been fed: K and V, the recurrent layers, and
/// the recurrent layers when they were saved.
pub struct Fed {
    pub kv: Seq<u32>,
    pub gdn: Seq<u32>,
    pub saved: Seq<u32>,
}

/// What an action feeds and takes back.
pub open spec fn fed_after(f: Fed, a: SpecAction) -> Fed {
    match a {
        SpecAction::DraftAlongsideSnapshot { .. }
        | SpecAction::SnapshotThenDraft { .. }
        | SpecAction::Snapshot => Fed { saved: f.gdn, ..f },
        SpecAction::Draft { .. } => f,
        SpecAction::VerifyPaired { first, second, .. } | SpecAction::VerifyTwice {
            first,
            second,
            ..
        } => Fed { kv: f.kv + seq![first, second], gdn: f.gdn + seq![first, second], ..f },
        SpecAction::HeadAt { .. } => f,
        SpecAction::RestoreAndAdvance { rollback, token } => Fed {
            kv: f.kv.take(f.kv.len() - rollback),
            gdn: f.saved.push(token),
            ..f
        },
        SpecAction::RestoreAndRedo { rollback, token, .. } => Fed {
            kv: f.kv.take(f.kv.len() - rollback).push(token),
            gdn: f.saved.push(token),
            ..f
        },
    }
}

/// The caches have been fed `tokens` and nothing else.
pub open spec fn fed_exactly(f: Fed, tokens: Seq<u32>) -> bool {
    f.kv == tokens && f.gdn == tokens
}

/// A step leaves the caches as if the tokens before its last one had been fed
/// one after the other: the last token before it, then the draft if it holds.
/// Drafting itself feeds nothing. That many slots are filled as the new position says.
pub proof fn law_step_feeds_what_it_commits(
    f: Fed,
    history: Seq<u32>,
    begin: SpecAction,
    verify: SpecAction,
    settle: SpecAction,
    last_token: u32,
    draft: u32,
    position: usize,
    accepted: bool,
)
    requires
        fed_exactly(f, history),
        history.len() == position,
        begin is DraftAlongsideSnapshot || begin is SnapshotThenDraft || begin is Snapshot,
        verify == (SpecAction::VerifyPaired { first: last_token, second: draft, position })
            || verify == (SpecAction::VerifyTwice { first: last_token, second: draft, position }),
        accepted ==> settle is HeadAt,
        !accepted ==> settle == (SpecAction::RestoreAndAdvance { rollback: 1, token: last_token })
            || settle == (SpecAction::RestoreAndRedo { rollback: 2, token: last_token, position }),
    ensures
        ({
            let fed = fed_after(fed_after(fed_after(f, begin), verify), settle);
            let tokens = if accepted {
                history + seq![last_token, draft]
            } else {
                history + seq![last_token]
            };
            &&& fed_exactly(fed, tokens)
            &&& tokens.len() == position + if accepted {
                2int
            } else {
                1
            }
        }),
{
    let mid = fed_after(fed_after(f, begin), verify);
    assert(mid.kv == history + seq![last_token, draft]);
    if !accepted {
        assert(mid.kv.take(mid.kv.len() - 1) =~= history + seq![last_token]);
        assert(mid.kv.take(mid.kv.len() - 2) =~= history);
        assert(history.push(last_token) =~= history + seq![last_token]);
    }
}

/// A greedy step commits what greedy decoding commits: its first token is the
/// base model's greatest logit, whatever was drafted.
pub proof fn law_greedy_first_token(
    input: SpecInput,
    draft: u32,
    logits: Vec<u32>,
    verified: Result<SpecMove, SpecError>,
    last: SpecEvent,
    done: Result<SpecMove, SpecError>,
)
    requires
        logits@.len() == input.vocab,
        greedy_next(
            input,
            SpecState::Verifying { draft },
            SpecEvent::Verified { logits },
            verified,
        ),
        verified matches Ok(SpecMove::Act { state, .. }) && greedy_next(input, state, last, done),
        done matches Ok(SpecMove::Finish { .. }),
    ensures
        done matches Ok(SpecMove::Finish { step, .. }) && step.committed@.len() > 0 && is_argmax(
            logits@,
            step.committed@[0] as int,
        ) && step.accepted == is_argmax(logits@, draft as int),
{
    let v = choose|v: u32| is_argmax(logits@, v as int);
    assert forall|w: u32| #[trigger] is_argmax(logits@, w as int) implies w == v by {
        law_argmax_unique(logits@, w as int, v as int);
    }
}

/// What a step reports is the same.
pub open spec fn same_outcome(a: SpecStep, b: SpecStep) -> bool {
    &&& a.committed@ == b.committed@
    &&& a.new_position == b.new_position
    &&& a.accepted == b.accepted
    &&& a.draft == b.draft
    &&& a.verify == b.verify
}

/// A sampling step that keeps the draft exactly if it is `verify`, the token of
/// the greedy step, and that draws the token of the greatest logit, has the
/// outcome of the greedy step. `last` is what the greedy step is told last.
pub proof fn law_sampling_with_greatest_is_greedy(
    input: SpecInput,
    draft: u32,
    verify: u32,
    second: u32,
    last: SpecEvent,
    greedy: SpecMove,
    sampled: SpecMove,
)
    requires
        draft == verify ==> last is Head && is_argmax(last->Head_logits@, second as int),
        draft != verify ==> last is Restored,
        greedy_next(
            input,
            if draft == verify {
                SpecState::Accepting { draft }
            } else {
                SpecState::Rejecting { draft, verify }
            },
            last,
            Ok(greedy),
        ),
        sampling_next(
            input,
            if draft == verify {
                SpecState::Accepting { draft }
            } else {
                SpecState::Rejecting { draft, verify: draft }
            },
            SamplingEvent::Drawn {
                token: if draft == verify {
                    second
                } else {
                    verify
                },
            },
            Ok(sampled),
        ),
    ensures
        greedy is Finish,
        sampled is Finish,
        same_outcome(greedy->step, sampled->step),
{
    if draft == verify {
        let logits = last->Head_logits;
        let other = choose|x: u32|
            {
                &&& #[trigger] is_argmax(logits@, x as int)
                &&& finishes(
                    greedy,
                    input,
                    seq![draft, x],
                    draft,
                    draft,
                    DevicePtr((input.verify_hidden.0 + input.row_bytes) as usize),
                )
            };
        law_argmax_unique(logits@, second as int, other as int);
    }
}

} // verus!
