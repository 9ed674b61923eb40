use vstd::prelude::*;

use crate::api_response::{extracted, merged, ApiResponse, Failure, MoaError};
use crate::text::{fill_template, filled, views};

verus! {

/// Where a pipeline run stands.
pub enum Phase {
    /// Refinement round `n` (counted from 1) awaits its reply.
    Layer(nat),
    /// The synthesis request awaits its reply.
    Final,
    /// The run ended with this text.
    Done(Seq<char>),
    /// The run ended with this failure.
    Failed(Failure),
}

/// The fixed configuration of a run.
pub struct MoaConfig {
    /// The backends asked in each refinement round.
    pub layer: Seq<Seq<char>>,
    /// The backend asked for the synthesis.
    pub aggregator: Seq<char>,
    /// The merge instructions, with the original task embedded.
    pub merge_prompt: Seq<char>,
    /// The number of refinement rounds.
    pub rounds: nat,
}

/// The state of a run: its phase and the text that the next request carries.
pub struct MoaState {
    pub phase: Phase,
    pub prompt: Seq<char>,
}

/// What a reply to a request is: an envelope or a failure of the call.
pub open spec fn reply_view(r: Result<ApiResponse, MoaError>) -> Result<Map<Seq<char>, Seq<Seq<char>>>, Failure> {
    match r {
        Ok(a) => Ok(a@),
        Err(e) => Err(e@),
    }
}

/// The state in which a run on `task` starts.
pub open spec fn initial(c: MoaConfig, task: Seq<char>) -> MoaState {
    MoaState { phase: if c.rounds > 0 { Phase::Layer(1) } else { Phase::Final }, prompt: task }
}

/// The backends and the message of the request that state `s` awaits, if any.
pub open spec fn request_of(c: MoaConfig, s: MoaState) -> Option<(Seq<Seq<char>>, Seq<char>)> {
    match s.phase {
        Phase::Layer(_) => Some((c.layer, s.prompt)),
        Phase::Final => Some((seq![c.aggregator], s.prompt)),
        _ => None,
    }
}

/// A run has ended.
pub open spec fn is_terminal(s: MoaState) -> bool {
    s.phase is Done || s.phase is Failed
}

/// The state after `reply` answers the request that `s` awaits.
pub open spec fn next(c: MoaConfig, s: MoaState, reply: Result<Map<Seq<char>, Seq<Seq<char>>>, Failure>) -> MoaState {
    match s.phase {
        Phase::Layer(i) => match reply {
            Err(e) => MoaState { phase: Phase::Failed(e), prompt: s.prompt },
            Ok(m) => match merged(m, c.layer, c.merge_prompt) {
                Err(e) => MoaState { phase: Phase::Failed(e), prompt: s.prompt },
                Ok(p) => MoaState {
                    phase: if i < c.rounds { Phase::Layer(i + 1) } else { Phase::Final },
                    prompt: p,
                },
            },
        },
        Phase::Final => match reply {
            Err(e) => MoaState { phase: Phase::Failed(e), prompt: s.prompt },
            Ok(m) => match extracted(m, c.aggregator) {
                Err(e) => MoaState { phase: Phase::Failed(e), prompt: s.prompt },
                Ok(t) => MoaState { phase: Phase::Done(t), prompt: s.prompt },
            },
        },
        _ => s,
    }
}

/// The state after `replies` answer, one by one, the requests from `s` on.
pub open spec fn run(c: MoaConfig, s: MoaState, replies: Seq<Result<Map<Seq<char>, Seq<Seq<char>>>, Failure>>) -> MoaState
    decreases replies.len(),
{
    if replies.len() == 0 {
        s
    } else {
        run(c, next(c, s, replies[0]), replies.drop_first())
    }
}

/// The backends of each request that `replies` answer from `s` on, in order.
pub open spec fn issued(c: MoaConfig, s: MoaState, replies: Seq<Result<Map<Seq<char>, Seq<Seq<char>>>, Failure>>) -> Seq<Seq<Seq<char>>>
    decreases replies.len(),
{
    if replies.len() == 0 {
        Seq::empty()
    } else {
        match request_of(c, s) {
            Some(r) => seq![r.0] + issued(c, next(c, s, replies[0]), replies.drop_first()),
            None => Seq::empty(),
        }
    }
}

/// An ended run takes no more requests and stays as it is.
proof fn lemma_ended_run_stays(c: MoaConfig, s: MoaState, replies: Seq<Result<Map<Seq<char>, Seq<Seq<char>>>, Failure>>)
    requires
        is_terminal(s),
    ensures
        run(c, s, replies) == s,
        issued(c, s, replies) == Seq::<Seq<Seq<char>>>::empty(),
    decreases replies.len(),
{
    if replies.len() > 0 {
        lemma_ended_run_stays(c, s, replies.drop_first());
    }
}

/// From refinement round `i`, a run that ends with a text has asked the layer
/// backends once for each round left and then the aggregator once.
proof fn lemma_requests_from_round(c: MoaConfig, s: MoaState, replies: Seq<Result<Map<Seq<char>, Seq<Seq<char>>>, Failure>>)
    requires
        match s.phase {
            Phase::Layer(i) => 1 <= i <= c.rounds,
            Phase::Final => true,
            _ => false,
        },
        run(c, s, replies).phase is Done,
    ensures
        issued(c, s, replies) == Seq::new(
            match s.phase {
                Phase::Layer(i) => (c.rounds - i + 1) as nat,
                _ => 0nat,
            },
            |_j: int| c.layer,
        ).push(seq![c.aggregator]),
    decreases replies.len(),
{
    if replies.len() == 0 {
        assert(run(c, s, replies) == s);
    } else {
        let t = next(c, s, replies[0]);
        let rest = replies.drop_first();
        if is_terminal(t) {
            lemma_ended_run_stays(c, t, rest);
            assert(s.phase is Final);
            assert(issued(c, s, replies) =~= seq![seq![c.aggregator]]);
            assert(Seq::new(0nat, |_j: int| c.layer).push(seq![c.aggregator]) =~= seq![seq![c.aggregator]]);
        } else {
            let i = s.phase->Layer_0;
            lemma_requests_from_round(c, t, rest);
            let n = (c.rounds - i + 1) as nat;
            let tail = Seq::new((n - 1) as nat, |_j: int| c.layer).push(seq![c.aggregator]);
            assert(issued(c, s, replies) == seq![c.layer] + tail);
            assert(seq![c.layer] + tail =~= Seq::new(n, |_j: int| c.layer).push(seq![c.aggregator]));
        }
    }
}

/// Every run that ends with a text has made exactly one request to the layer
/// backends per refinement round, then exactly one to the aggregator alone,
/// whatever the texts involved.
pub proof fn lemma_successful_run_requests(c: MoaConfig, task: Seq<char>, replies: Seq<Result<Map<Seq<char>, Seq<Seq<char>>>, Failure>>)
    requires
        run(c, initial(c, task), replies).phase is Done,
    ensures
        issued(c, initial(c, task), replies) == Seq::new(c.rounds, |_j: int| c.layer).push(seq![c.aggregator]),
        issued(c, initial(c, task), replies).len() == c.rounds + 1,
{
    lemma_requests_from_round(c, initial(c, task), replies);
}

/// The phase of a run in progress or ended.
#[derive(Debug)]
pub enum Stage {
    Layer(usize),
    Final,
    Done(String),
    Failed(MoaError),
}

/// A request to the completion service: the backends to ask and the message.
#[derive(Debug)]
pub struct Request {
    pub models: Vec<String>,
    pub message: String,
}

/// A mixture-of-agents run: a fixed number of refinement rounds over the layer
/// backends, then one synthesis request to the aggregator backend.
#[derive(Debug)]
pub struct Moa {
    layer_models: Vec<String>,
    ag_model: String,
    ag_prompt: String,
    rounds: usize,
    stage: Stage,
    prompt: String,
}

impl Moa {
    /// The configuration of the run.
    pub closed spec fn config(&self) -> MoaConfig {
        MoaConfig {
            layer: views(self.layer_models@),
            aggregator: self.ag_model@,
            merge_prompt: self.ag_prompt@,
            rounds: self.rounds as nat,
        }
    }

    /// Where the run stands.
    pub closed spec fn state(&self) -> MoaState {
        MoaState {
            phase: match self.stage {
                Stage::Layer(i) => Phase::Layer(i as nat),
                Stage::Final => Phase::Final,
                Stage::Done(t) => Phase::Done(t@),
                Stage::Failed(e) => Phase::Failed(e@),
            },
            prompt: self.prompt@,
        }
    }

    /// A run on `task` over `rounds` refinement rounds; the merge instructions
    /// are `template` with the task in place of each `{}`.
    pub fn new(task: String, template: &str, layer_models: Vec<String>, ag_model: String, rounds: usize) -> (r: Moa)
        requires
            layer_models.len() > 0,
        ensures
            r.config() == (MoaConfig {
                layer: views(layer_models@),
                aggregator: ag_model@,
                merge_prompt: filled(template@, task@),
                rounds: rounds as nat,
            }),
            r.state() == initial(r.config(), task@),
    {
        let ag_prompt = fill_template(template, task.as_str());
        let stage = if rounds > 0 { Stage::Layer(1) } else { Stage::Final };
        Moa { layer_models, ag_model, ag_prompt, rounds, stage, prompt: task }
    }

    /// The request that the run awaits, or `None` once it has ended.
    pub fn request(&self) -> (r: Option<Request>)
        ensures
            match r {
                Some(q) => request_of(self.config(), self.state()) == Some((views(q.models@), q.message@)),
                None => request_of(self.config(), self.state()) is None,
            },
    {
        match &self.stage {
            Stage::Layer(_) => Some(Request { models: self.layer_models.clone(), message: self.prompt.clone() }),
            Stage::Final => {
                let models = vec![self.ag_model.clone()];
                assert(views(models@) =~= seq![self.ag_model@]);
                Some(Request { models, message: self.prompt.clone() })
            },
            _ => None,
        }
    }

    /// Whether the run has ended.
    pub fn is_finished(&self) -> (r: bool)
        ensures
            r == is_terminal(self.state()),
    {
        match &self.stage {
            Stage::Done(_) | Stage::Failed(_) => true,
            _ => false,
        }
    }

    /// Takes in the reply to the awaited request: an envelope, or the failure
    /// of the call.
    pub fn step(&mut self, reply: Result<ApiResponse, MoaError>)
        ensures
            final(self).config() == old(self).config(),
            final(self).state() == next(old(self).config(), old(self).state(), reply_view(reply)),
    {
        let layer_round: Option<usize> = match &self.stage {
            Stage::Layer(i) => Some(*i),
            _ => None,
        };
        let finalizing = match &self.stage {
            Stage::Final => true,
            _ => false,
        };
        if let Some(i) = layer_round {
            match reply {
                Err(e) => {
                    self.stage = Stage::Failed(e);
                },
                Ok(resp) => match resp.process_middle(&self.layer_models, &self.ag_prompt) {
                    Err(e) => {
                        self.stage = Stage::Failed(e);
                    },
                    Ok(p) => {
                        self.prompt = p;
                        self.stage = if i < self.rounds { Stage::Layer(i + 1) } else { Stage::Final };
                    },
                },
            }
        } else if finalizing {
            match reply {
                Err(e) => {
                    self.stage = Stage::Failed(e);
                },
                Ok(resp) => match resp.process_response(self.ag_model.as_str()) {
                    Err(e) => {
                        self.stage = Stage::Failed(e);
                    },
                    Ok(t) => {
                        self.stage = Stage::Done(t);
                    },
                },
            }
        }
    }

    /// The result of an ended run: its text or its failure; `None` while it
    /// is still in progress.
    pub fn into_outcome(self) -> (r: Option<Result<String, MoaError>>)
        ensures
            match self.state().phase {
                Phase::Done(t) => r matches Some(Ok(s)) && s@ == t,
                Phase::Failed(f) => r matches Some(Err(e)) && e@ == f,
                _ => r is None,
            },
    {
        match self.stage {
            Stage::Done(t) => Some(Ok(t)),
            Stage::Failed(e) => Some(Err(e)),
            _ => None,
        }
    }
}

} // verus!
