use vstd::prelude::*;
use vstd::string::*;
use crate::session::{
    alternates_at, answered_in, call_views, calls_in, consistent, ids_of, part_views, requests_tools,
    result_views, retain, CallView, OutcomeView, Part, PartView, ResultView, Role, Session,
    SessionView, ToolCall, ToolOutcome, ToolResult, Turn, TurnView,
};

verus! {

/// Where a conversation loop stands.
#[derive(Debug, Clone, Copy, PartialEq, Eq, Structural)]
pub enum Phase {
    /// A model call is under way; its fragments are arriving.
    Streaming,
    /// The tool calls of the last agent turn are running.
    ExecutingTools,
    /// The loop has ended.
    Terminal,
}

/// How a loop ended.
#[derive(Debug)]
pub enum Completion {
    /// The model answered without asking for tools.
    Finished,
    /// The model kept asking for tools past the resolution limit.
    LimitExceeded,
    /// The model call failed; the message says why.
    ModelFailed(String),
}

/// One piece of model output, forwarded as it arrives.
#[derive(Debug)]
pub enum Fragment {
    Text(String),
    Call(ToolCall),
}

/// What happened outside since the last step.
#[derive(Debug)]
pub enum Event {
    /// The model produced a fragment.
    Fragment(Fragment),
    /// The model's output is complete.
    StreamEnd,
    /// The model call failed.
    ModelFailed(String),
    /// Every tool call of the turn has finished, in the order they finished.
    ToolsDone(Vec<ToolResult>),
}

/// What the caller is to do next.
#[derive(Debug)]
pub enum Action {
    /// Forward this fragment to the stream.
    Emit(Fragment),
    /// Ask the model again, with the current session.
    CallModel,
    /// Run these tool calls, all of them, and report their results.
    RunTools(Vec<ToolCall>),
    /// Stop: the loop has ended so.
    Finish(Completion),
}

pub enum CompletionView {
    Finished,
    LimitExceeded,
    ModelFailed(Seq<char>),
}

pub enum FragmentView {
    Text(Seq<char>),
    Call(CallView),
}

pub enum EventView {
    Fragment(FragmentView),
    StreamEnd,
    ModelFailed(Seq<char>),
    ToolsDone(Seq<ResultView>),
}

pub enum ActionView {
    Emit(FragmentView),
    CallModel,
    RunTools(Seq<CallView>),
    Finish(CompletionView),
}

impl View for Completion {
    type V = CompletionView;

    open spec fn view(&self) -> CompletionView {
        match self {
            Completion::Finished => CompletionView::Finished,
            Completion::LimitExceeded => CompletionView::LimitExceeded,
            Completion::ModelFailed(m) => CompletionView::ModelFailed(m@),
        }
    }
}

impl View for Fragment {
    type V = FragmentView;

    open spec fn view(&self) -> FragmentView {
        match self {
            Fragment::Text(s) => FragmentView::Text(s@),
            Fragment::Call(c) => FragmentView::Call(c@),
        }
    }
}

impl View for Event {
    type V = EventView;

    open spec fn view(&self) -> EventView {
        match self {
            Event::Fragment(f) => EventView::Fragment(f@),
            Event::StreamEnd => EventView::StreamEnd,
            Event::ModelFailed(m) => EventView::ModelFailed(m@),
            Event::ToolsDone(d) => EventView::ToolsDone(result_views(d@)),
        }
    }
}

impl View for Action {
    type V = ActionView;

    open spec fn view(&self) -> ActionView {
        match self {
            Action::Emit(f) => ActionView::Emit(f@),
            Action::CallModel => ActionView::CallModel,
            Action::RunTools(c) => ActionView::RunTools(call_views(c@)),
            Action::Finish(c) => ActionView::Finish(c@),
        }
    }
}

/// The message recorded for a tool call that no result answered.
pub open spec fn unanswered_message() -> Seq<char> {
    "no result was reported for this call"@
}

/// The message recorded for each call left unanswered when the resolution limit stops a loop.
pub open spec fn limit_message() -> Seq<char> {
    "resolution limit exceeded"@
}

/// The results that answer `calls` when the resolution limit stops a loop: each call, in
/// order, marked as failed with the limit message.
pub open spec fn limit_results(calls: Seq<CallView>) -> Seq<ResultView> {
    Seq::new(
        calls.len(),
        |i: int| ResultView { call_id: calls[i].id, outcome: OutcomeView::Failure(limit_message()) },
    )
}

/// The outcome that the first result in `done` answering `id` carries.
pub open spec fn answer_for(done: Seq<ResultView>, id: u64) -> Option<OutcomeView>
    decreases done.len(),
{
    if done.len() == 0 {
        None
    } else if done[0].call_id == id {
        Some(done[0].outcome)
    } else {
        answer_for(done.drop_first(), id)
    }
}

/// The result recorded for `call`, given the results in the order they finished.
pub open spec fn result_for(call: CallView, done: Seq<ResultView>) -> ResultView {
    ResultView {
        call_id: call.id,
        outcome: match answer_for(done, call.id) {
            Some(o) => o,
            None => OutcomeView::Failure(unanswered_message()),
        },
    }
}

/// The results of `calls`, one per call and in the order the calls were made.
pub open spec fn ordered_results(calls: Seq<CallView>, done: Seq<ResultView>) -> Seq<ResultView> {
    Seq::new(calls.len(), |i: int| result_for(calls[i], done))
}

pub open spec fn result_parts(results: Seq<ResultView>) -> Seq<PartView> {
    results.map_values(|r: ResultView| PartView::Result(r))
}

pub open spec fn fragment_part(f: FragmentView) -> PartView {
    match f {
        FragmentView::Text(s) => PartView::Text(s),
        FragmentView::Call(c) => PartView::Call(c),
    }
}

/// The abstract state of a conversation loop.
pub struct OrchestratorView {
    pub session: SessionView,
    pub phase: Phase,
    /// Tool-resolution rounds completed.
    pub rounds: nat,
    /// The most tool-resolution rounds allowed.
    pub limit: nat,
    /// Model calls issued.
    pub model_calls: nat,
    /// The agent turn being streamed.
    pub draft: Seq<PartView>,
    /// The tool calls being run.
    pub outstanding: Seq<CallView>,
    /// Every fragment forwarded so far, in order.
    pub emitted: Seq<FragmentView>,
    pub outcome: Option<CompletionView>,
}

/// Whether `e` can happen in phase `p`.
pub open spec fn accepts(p: Phase, e: EventView) -> bool {
    match e {
        EventView::ToolsDone(_) => p == Phase::ExecutingTools,
        _ => p == Phase::Streaming,
    }
}

pub open spec fn append_turn(s: SessionView, t: TurnView) -> SessionView {
    SessionView { turns: retain(s.turns.push(t), s.max_turns), max_turns: s.max_turns }
}

/// The state after event `e` (which `s.phase` accepts).
pub open spec fn next(s: OrchestratorView, e: EventView) -> OrchestratorView {
    match e {
        EventView::Fragment(f) => OrchestratorView {
            draft: s.draft.push(fragment_part(f)),
            emitted: s.emitted.push(f),
            ..s
        },
        EventView::StreamEnd => {
            let turn = TurnView { role: Role::Agent, parts: s.draft, pending: false };
            let calls = calls_in(s.draft);
            let session = append_turn(s.session, turn);
            if calls.len() == 0 {
                OrchestratorView {
                    session,
                    phase: Phase::Terminal,
                    draft: Seq::empty(),
                    outcome: Some(CompletionView::Finished),
                    ..s
                }
            } else if s.rounds >= s.limit {
                let refusal = TurnView {
                    role: Role::Tool,
                    parts: result_parts(limit_results(calls)),
                    pending: false,
                };
                OrchestratorView {
                    session: append_turn(session, refusal),
                    phase: Phase::Terminal,
                    draft: Seq::empty(),
                    outcome: Some(CompletionView::LimitExceeded),
                    ..s
                }
            } else {
                OrchestratorView {
                    session,
                    phase: Phase::ExecutingTools,
                    draft: Seq::empty(),
                    outstanding: calls,
                    ..s
                }
            }
        },
        EventView::ModelFailed(m) => OrchestratorView {
            phase: Phase::Terminal,
            draft: Seq::empty(),
            outcome: Some(CompletionView::ModelFailed(m)),
            ..s
        },
        EventView::ToolsDone(done) => {
            let results = ordered_results(s.outstanding, done);
            let turn = TurnView { role: Role::Tool, parts: result_parts(results), pending: false };
            OrchestratorView {
                session: append_turn(s.session, turn),
                phase: Phase::Streaming,
                rounds: s.rounds + 1,
                model_calls: s.model_calls + 1,
                outstanding: Seq::empty(),
                ..s
            }
        },
    }
}

/// What the caller is told to do after event `e`.
pub open spec fn action_of(s: OrchestratorView, e: EventView) -> ActionView {
    match e {
        EventView::Fragment(f) => ActionView::Emit(f),
        EventView::StreamEnd => {
            let calls = calls_in(s.draft);
            if calls.len() == 0 {
                ActionView::Finish(CompletionView::Finished)
            } else if s.rounds >= s.limit {
                ActionView::Finish(CompletionView::LimitExceeded)
            } else {
                ActionView::RunTools(calls)
            }
        },
        EventView::ModelFailed(m) => ActionView::Finish(CompletionView::ModelFailed(m)),
        EventView::ToolsDone(_) => ActionView::CallModel,
    }
}

/// The state a loop starts in, over `session`, with its first model call issued.
pub open spec fn initial(session: SessionView, limit: nat) -> OrchestratorView {
    OrchestratorView {
        session,
        phase: Phase::Streaming,
        rounds: 0,
        limit,
        model_calls: 1,
        draft: Seq::empty(),
        outstanding: Seq::empty(),
        emitted: Seq::empty(),
        outcome: None,
    }
}

/// A session a loop can start from: not empty, consistent, and ending in a user turn or a
/// tool-result turn.
pub open spec fn can_start(s: SessionView) -> bool {
    &&& s.turns.len() > 0
    &&& s.turns.last().role != Role::Agent
    &&& consistent(s.turns)
}

/// Why a session was refused.
#[derive(Debug, Clone, Copy, PartialEq, Eq, Structural)]
pub enum SessionError {
    Empty,
    EndsWithAgentTurn,
    Inconsistent,
}

/// A conversation loop in progress.
pub struct Orchestrator {
    session: Session,
    phase: Phase,
    rounds: u32,
    limit: u32,
    model_calls: u64,
    draft: Vec<Part>,
    outstanding: Vec<ToolCall>,
    emitted: Vec<Fragment>,
    outcome: Option<Completion>,
}

pub open spec fn fragment_views(v: Seq<Fragment>) -> Seq<FragmentView> {
    v.map_values(|f: Fragment| f@)
}

impl Fragment {
    /// A copy of this fragment.
    pub fn duplicate(&self) -> (r: Fragment)
        ensures
            r@ == self@,
    {
        match self {
            Fragment::Text(s) => Fragment::Text(s.clone()),
            Fragment::Call(c) => Fragment::Call(c.duplicate()),
        }
    }
}

impl View for Orchestrator {
    type V = OrchestratorView;

    closed spec fn view(&self) -> OrchestratorView {
        OrchestratorView {
            session: self.session@,
            phase: self.phase,
            rounds: self.rounds as nat,
            limit: self.limit as nat,
            model_calls: self.model_calls as nat,
            draft: part_views(self.draft@),
            outstanding: call_views(self.outstanding@),
            emitted: fragment_views(self.emitted@),
            outcome: match self.outcome {
                Some(c) => Some(c@),
                None => None,
            },
        }
    }
}

/// The state invariant of a loop: the round count stays within the limit, one model call
/// was issued per round plus the first, and a loop has an outcome exactly when it has ended.
pub open spec fn loop_inv(s: OrchestratorView) -> bool {
    &&& s.rounds <= s.limit
    &&& s.model_calls == s.rounds + 1
    &&& s.phase == Phase::ExecutingTools ==> s.rounds < s.limit
    &&& (s.phase == Phase::Terminal <==> s.outcome is Some)
}

impl Orchestrator {
    pub closed spec fn wf(&self) -> bool {
        &&& self.session.wf()
        &&& self.limit < u32::MAX
        &&& loop_inv(self@)
    }

    /// Starts a loop over `session` that allows at most `limit` tool-resolution rounds. The
    /// caller then makes the first model call.
    pub fn start(session: Session, limit: u32) -> (r: Result<Orchestrator, SessionError>)
        requires
            session.wf(),
            limit < u32::MAX,
        ensures
            r is Ok <==> can_start(session@),
            r matches Ok(o) ==> o.wf() && o@ == initial(session@, limit as nat),
            r matches Err(e) ==> e == (if session@.turns.len() == 0 {
                SessionError::Empty
            } else if session@.turns.last().role == Role::Agent {
                SessionError::EndsWithAgentTurn
            } else {
                SessionError::Inconsistent
            }),
    {
        let n = session.len();
        if n == 0 {
            return Err(SessionError::Empty);
        }
        let turns = session.turns();
        let last_role = turns[n - 1].role;
        assert(session@.turns.last() == turns@[n - 1]@);
        if last_role == Role::Agent {
            return Err(SessionError::EndsWithAgentTurn);
        }
        if !session.is_consistent() {
            return Err(SessionError::Inconsistent);
        }
        let o = Orchestrator {
            session,
            phase: Phase::Streaming,
            rounds: 0,
            limit,
            model_calls: 1,
            draft: Vec::new(),
            outstanding: Vec::new(),
            emitted: Vec::new(),
            outcome: None,
        };
        assert(o@.emitted =~= Seq::<FragmentView>::empty());
        assert(o@.draft =~= Seq::<PartView>::empty());
        assert(o@.outstanding =~= Seq::<CallView>::empty());
        Ok(o)
    }

    pub fn phase(&self) -> (r: Phase)
        ensures
            r == self@.phase,
    {
        self.phase
    }

    pub fn session(&self) -> (r: &Session)
        requires
            self.wf(),
        ensures
            r@ == self@.session,
            r.wf(),
    {
        &self.session
    }

    pub fn rounds(&self) -> (r: u32)
        ensures
            r == self@.rounds,
    {
        self.rounds
    }

    pub fn model_calls(&self) -> (r: u64)
        ensures
            r == self@.model_calls,
    {
        self.model_calls
    }

    /// Whether `event` can happen now.
    pub fn accepts(&self, event: &Event) -> (r: bool)
        ensures
            r == accepts(self@.phase, event@),
    {
        match event {
            Event::ToolsDone(_) => self.phase == Phase::ExecutingTools,
            _ => self.phase == Phase::Streaming,
        }
    }

    /// Takes in `event` and says what to do next.
    pub fn step(&mut self, event: Event) -> (action: Action)
        requires
            old(self).wf(),
            accepts(old(self)@.phase, event@),
        ensures
            final(self).wf(),
            final(self)@ == next(old(self)@, event@),
            action@ == action_of(old(self)@, event@),
    {
        match event {
            Event::Fragment(f) => {
                let part = match &f {
                    Fragment::Text(s) => Part::Text(s.clone()),
                    Fragment::Call(c) => Part::Call(c.duplicate()),
                };
                let ghost before = self.draft@;
                self.draft.push(part);
                assert(part_views(self.draft@) =~= part_views(before).push(fragment_part(f@)));
                let ghost sent = self.emitted@;
                self.emitted.push(f.duplicate());
                assert(fragment_views(self.emitted@) =~= fragment_views(sent).push(f@));
                Action::Emit(f)
            },
            Event::StreamEnd => {
                let mut parts: Vec<Part> = Vec::new();
                core::mem::swap(&mut parts, &mut self.draft);
                let calls = collect_calls(&parts);
                let turn = Turn { role: Role::Agent, parts, pending: false };
                self.session.append(turn);
                assert(part_views(self.draft@) =~= Seq::<PartView>::empty());
                if calls.len() == 0 {
                    self.phase = Phase::Terminal;
                    self.outcome = Some(Completion::Finished);
                    Action::Finish(Completion::Finished)
                } else if self.rounds >= self.limit {
                    let refusal = Turn { role: Role::Tool, parts: refusal_parts(&calls), pending: false };
                    self.session.append(refusal);
                    self.phase = Phase::Terminal;
                    self.outcome = Some(Completion::LimitExceeded);
                    Action::Finish(Completion::LimitExceeded)
                } else {
                    let handed = copy_calls(&calls);
                    self.outstanding = calls;
                    self.phase = Phase::ExecutingTools;
                    Action::RunTools(handed)
                }
            },
            Event::ModelFailed(m) => {
                self.draft = Vec::new();
                assert(part_views(self.draft@) =~= Seq::<PartView>::empty());
                self.phase = Phase::Terminal;
                self.outcome = Some(Completion::ModelFailed(m.clone()));
                Action::Finish(Completion::ModelFailed(m))
            },
            Event::ToolsDone(done) => {
                let results = order_results(&self.outstanding, &done);
                let parts = into_result_parts(results);
                let turn = Turn { role: Role::Tool, parts, pending: false };
                self.session.append(turn);
                self.outstanding = Vec::new();
                assert(call_views(self.outstanding@) =~= Seq::<CallView>::empty());
                self.rounds = self.rounds + 1;
                self.model_calls = self.model_calls + 1;
                self.phase = Phase::Streaming;
                Action::CallModel
            },
        }
    }

    /// Every fragment forwarded so far, in order.
    pub fn emitted(&self) -> (r: &Vec<Fragment>)
        ensures
            fragment_views(r@) == self@.emitted,
    {
        &self.emitted
    }

    /// The session, once the loop no longer needs it.
    pub fn into_session(self) -> (r: Session)
        requires
            self.wf(),
        ensures
            r@ == self@.session,
            r.wf(),
    {
        self.session
    }

    /// The session and every fragment forwarded, once the loop has ended.
    pub fn into_parts(self) -> (r: (Session, Vec<Fragment>))
        requires
            self.wf(),
        ensures
            r.0@ == self@.session,
            r.0.wf(),
            fragment_views(r.1@) == self@.emitted,
    {
        (self.session, self.emitted)
    }
}

/// Parts that answer each of `calls`, in order, as failed with the limit message.
fn refusal_parts(calls: &Vec<ToolCall>) -> (r: Vec<Part>)
    ensures
        part_views(r@) == result_parts(limit_results(call_views(calls@))),
{
    let ghost cv = call_views(calls@);
    let mut r: Vec<Part> = Vec::new();
    let mut i: usize = 0;
    while i < calls.len()
        invariant
            i <= calls.len(),
            cv == call_views(calls@),
            part_views(r@) == result_parts(limit_results(cv.take(i as int))),
        decreases calls.len() - i,
    {
        let x = ToolResult {
            call_id: calls[i].id,
            outcome: ToolOutcome::Failure(String::from_str("resolution limit exceeded")),
        };
        let ghost before = r@;
        r.push(Part::Result(x));
        assert(part_views(r@) =~= part_views(before).push(PartView::Result(x@)));
        assert(result_parts(limit_results(cv.take(i + 1))) =~= result_parts(
            limit_results(cv.take(i as int)),
        ).push(PartView::Result(x@)));
        i += 1;
    }
    assert(cv.take(calls.len() as int) =~= cv);
    r
}

/// Copies of the tool calls among `parts`, in order.
fn collect_calls(parts: &Vec<Part>) -> (r: Vec<ToolCall>)
    ensures
        call_views(r@) == calls_in(part_views(parts@)),
{
    let mut r: Vec<ToolCall> = Vec::new();
    let mut i: usize = 0;
    while i < parts.len()
        invariant
            i <= parts.len(),
            call_views(r@) == calls_in(part_views(parts@.take(i as int))),
        decreases parts.len() - i,
    {
        assert(part_views(parts@.take(i + 1)).drop_last() =~= part_views(parts@.take(i as int)));
        if let Part::Call(c) = &parts[i] {
            let ghost before = r@;
            r.push(c.duplicate());
            assert(call_views(r@) =~= call_views(before).push(c@));
        }
        i += 1;
    }
    assert(parts@.take(parts.len() as int) =~= parts@);
    r
}

fn copy_calls(calls: &Vec<ToolCall>) -> (r: Vec<ToolCall>)
    ensures
        call_views(r@) == call_views(calls@),
{
    let mut r: Vec<ToolCall> = Vec::new();
    let mut i: usize = 0;
    while i < calls.len()
        invariant
            i <= calls.len(),
            call_views(r@) == call_views(calls@.take(i as int)),
        decreases calls.len() - i,
    {
        let ghost before = r@;
        r.push(calls[i].duplicate());
        assert(call_views(r@) =~= call_views(before).push(calls@[i as int]@));
        assert(call_views(calls@.take(i + 1)) =~= call_views(calls@.take(i as int)).push(
            calls@[i as int]@,
        ));
        i += 1;
    }
    assert(calls@.take(calls.len() as int) =~= calls@);
    r
}

fn into_result_parts(results: Vec<ToolResult>) -> (r: Vec<Part>)
    ensures
        part_views(r@) == result_parts(result_views(results@)),
{
    let mut r: Vec<Part> = Vec::new();
    let mut rest = results;
    let ghost all = results@;
    // Move the results out from the back, then restore their order.
    let mut reversed: Vec<ToolResult> = Vec::new();
    while rest.len() > 0
        invariant
            rest@ == all.take(rest.len() as int),
            reversed.len() + rest.len() == all.len(),
            forall|j: int|
                0 <= j < reversed.len() ==> #[trigger] reversed@[j] == all[all.len() - 1 - j],
        decreases rest.len(),
    {
        let x = rest.pop().unwrap();
        reversed.push(x);
    }
    while reversed.len() > 0
        invariant
            reversed.len() + r.len() == all.len(),
            forall|j: int|
                0 <= j < reversed.len() ==> #[trigger] reversed@[j] == all[all.len() - 1 - j],
            part_views(r@) == result_parts(result_views(all.take(r.len() as int))),
        decreases reversed.len(),
    {
        let x = reversed.pop().unwrap();
        let ghost k = r.len() as int;
        assert(x == all[k]);
        let ghost before = r@;
        r.push(Part::Result(x));
        assert(part_views(r@) =~= part_views(before).push(PartView::Result(all[k]@)));
        assert(result_parts(result_views(all.take(k + 1))) =~= result_parts(
            result_views(all.take(k)),
        ).push(PartView::Result(all[k]@)));
    }
    assert(all.take(all.len() as int) =~= all);
    r
}

/// The outcome of the first result in `done` that answers `id`, copied.
fn find_answer(done: &Vec<ToolResult>, id: u64) -> (r: Option<ToolOutcome>)
    ensures
        match r {
            Some(o) => answer_for(result_views(done@), id) == Some(o@),
            None => answer_for(result_views(done@), id) is None,
        },
{
    let ghost dv = result_views(done@);
    assert(dv.subrange(0, dv.len() as int) =~= dv);
    let mut j: usize = 0;
    while j < done.len()
        invariant
            j <= done.len(),
            dv == result_views(done@),
            answer_for(dv, id) == answer_for(dv.subrange(j as int, dv.len() as int), id),
        decreases done.len() - j,
    {
        let ghost rest = dv.subrange(j as int, dv.len() as int);
        assert(rest.drop_first() =~= dv.subrange(j + 1, dv.len() as int));
        assert(rest[0] == done@[j as int]@);
        if done[j].call_id == id {
            return Some(done[j].outcome.duplicate());
        }
        j += 1;
    }
    assert(dv.subrange(j as int, dv.len() as int) =~= Seq::<ResultView>::empty());
    None
}

/// The results of `calls`, one per call and in the order the calls were made, whatever the
/// order of `done`; a call that nothing in `done` answers is recorded as a failure.
pub fn order_results(calls: &Vec<ToolCall>, done: &Vec<ToolResult>) -> (r: Vec<ToolResult>)
    ensures
        result_views(r@) == ordered_results(call_views(calls@), result_views(done@)),
{
    let mut r: Vec<ToolResult> = Vec::new();
    let mut i: usize = 0;
    while i < calls.len()
        invariant
            i <= calls.len(),
            result_views(r@) == ordered_results(
                call_views(calls@.take(i as int)),
                result_views(done@),
            ),
        decreases calls.len() - i,
    {
        let id = calls[i].id;
        let outcome = match find_answer(done, id) {
            Some(o) => o,
            None => ToolOutcome::Failure(String::from_str("no result was reported for this call")),
        };
        let ghost before = r@;
        let x = ToolResult { call_id: id, outcome };
        r.push(x);
        assert(result_views(r@) =~= result_views(before).push(x@));
        assert(ordered_results(call_views(calls@.take(i + 1)), result_views(done@))
            =~= ordered_results(call_views(calls@.take(i as int)), result_views(done@)).push(x@));
        i += 1;
    }
    assert(calls@.take(calls.len() as int) =~= calls@);
    r
}

/// The state after the events `es`, one by one; an event the phase does not accept changes
/// nothing.
pub open spec fn run(s: OrchestratorView, es: Seq<EventView>) -> OrchestratorView
    decreases es.len(),
{
    if es.len() == 0 {
        s
    } else {
        let p = run(s, es.drop_last());
        if accepts(p.phase, es.last()) {
            next(p, es.last())
        } else {
            p
        }
    }
}

/// The actions the caller is told to take along `es`.
pub open spec fn actions(s: OrchestratorView, es: Seq<EventView>) -> Seq<ActionView>
    decreases es.len(),
{
    if es.len() == 0 {
        Seq::empty()
    } else {
        let p = run(s, es.drop_last());
        let before = actions(s, es.drop_last());
        if accepts(p.phase, es.last()) {
            before.push(action_of(p, es.last()))
        } else {
            before
        }
    }
}

pub open spec fn fragment_events(frags: Seq<FragmentView>) -> Seq<EventView> {
    frags.map_values(|f: FragmentView| EventView::Fragment(f))
}

pub open spec fn all_text(frags: Seq<FragmentView>) -> bool {
    forall|i: int| 0 <= i < frags.len() ==> (#[trigger] frags[i]) is Text
}

/// A model reply that asks for at least one tool.
pub open spec fn has_call(frags: Seq<FragmentView>) -> bool {
    exists|j: int| 0 <= j < frags.len() && (#[trigger] frags[j]) is Call
}

/// One round of a model that asks for tools: its fragments, the end of its output, and the
/// results of the tools.
pub open spec fn tool_round(frags: Seq<FragmentView>, done: Seq<ResultView>) -> Seq<EventView> {
    fragment_events(frags) + seq![EventView::StreamEnd, EventView::ToolsDone(done)]
}

/// Rounds one after another.
pub open spec fn tool_rounds(rounds: Seq<(Seq<FragmentView>, Seq<ResultView>)>) -> Seq<EventView>
    decreases rounds.len(),
{
    if rounds.len() == 0 {
        Seq::empty()
    } else {
        tool_rounds(rounds.drop_last()) + tool_round(rounds.last().0, rounds.last().1)
    }
}

/// Running `a` and then `b` is running `a + b`.
pub proof fn lemma_run_concat(s: OrchestratorView, a: Seq<EventView>, b: Seq<EventView>)
    ensures
        run(s, a + b) == run(run(s, a), b),
        actions(s, a + b) == actions(s, a) + actions(run(s, a), b),
    decreases b.len(),
{
    if b.len() == 0 {
        assert(a + b =~= a);
        assert(actions(s, a) + actions(run(s, a), b) =~= actions(s, a));
    } else {
        assert((a + b).drop_last() =~= a + b.drop_last());
        assert((a + b).last() == b.last());
        lemma_run_concat(s, a, b.drop_last());
        let p = run(run(s, a), b.drop_last());
        if accepts(p.phase, b.last()) {
            assert(actions(s, a) + actions(run(s, a), b) =~= (actions(s, a) + actions(
                run(s, a),
                b.drop_last(),
            )).push(action_of(p, b.last())));
        }
    }
}

pub proof fn lemma_calls_in_text(parts: Seq<PartView>)
    requires
        forall|i: int| 0 <= i < parts.len() ==> (#[trigger] parts[i]) is Text,
    ensures
        calls_in(parts).len() == 0,
    decreases parts.len(),
{
    if parts.len() > 0 {
        let init = parts.drop_last();
        assert forall|i: int| 0 <= i < init.len() implies (#[trigger] init[i]) is Text by {
            assert(init[i] == parts[i]);
        }
        lemma_calls_in_text(init);
        assert(parts.last() == parts[parts.len() - 1]);
    }
}

/// Fragments are forwarded as they arrive: each is handed out at once, in the order
/// produced, none dropped, reordered or repeated; the turn being streamed grows by each.
pub proof fn lemma_stream_order(s: OrchestratorView, frags: Seq<FragmentView>)
    requires
        s.phase == Phase::Streaming,
    ensures
        run(s, fragment_events(frags)).phase == Phase::Streaming,
        run(s, fragment_events(frags)).emitted == s.emitted + frags,
        run(s, fragment_events(frags)).draft == s.draft + frags.map_values(
            |f: FragmentView| fragment_part(f),
        ),
        run(s, fragment_events(frags)).session == s.session,
        run(s, fragment_events(frags)).model_calls == s.model_calls,
        run(s, fragment_events(frags)).rounds == s.rounds,
        run(s, fragment_events(frags)).limit == s.limit,
        actions(s, fragment_events(frags)) == frags.map_values(|f: FragmentView| ActionView::Emit(f)),
    decreases frags.len(),
{
    let es = fragment_events(frags);
    if frags.len() == 0 {
        assert(s.emitted + frags =~= s.emitted);
        assert(s.draft + frags.map_values(|f: FragmentView| fragment_part(f)) =~= s.draft);
        assert(frags.map_values(|f: FragmentView| ActionView::Emit(f)) =~= Seq::<ActionView>::empty());
    } else {
        let init = frags.drop_last();
        assert(es.drop_last() =~= fragment_events(init));
        lemma_stream_order(s, init);
        assert(s.emitted + frags =~= (s.emitted + init).push(frags.last()));
        assert(s.draft + frags.map_values(|f: FragmentView| fragment_part(f)) =~= (s.draft
            + init.map_values(|f: FragmentView| fragment_part(f))).push(fragment_part(frags.last())));
        assert(frags.map_values(|f: FragmentView| ActionView::Emit(f)) =~= init.map_values(
            |f: FragmentView| ActionView::Emit(f),
        ).push(ActionView::Emit(frags.last())));
    }
}

/// The agent turn that a model reply made of `frags` becomes.
pub open spec fn agent_reply(frags: Seq<FragmentView>) -> TurnView {
    TurnView {
        role: Role::Agent,
        parts: frags.map_values(|f: FragmentView| fragment_part(f)),
        pending: false,
    }
}

/// A model that asks for no tool ends the loop after one model call, normally, and the
/// session gains exactly its reply (the oldest turn dropped only if the bound is reached).
pub proof fn lemma_no_tools_single_call(session: SessionView, limit: nat, frags: Seq<FragmentView>)
    requires
        all_text(frags),
    ensures
        run(initial(session, limit), fragment_events(frags).push(EventView::StreamEnd)).phase
            == Phase::Terminal,
        run(initial(session, limit), fragment_events(frags).push(EventView::StreamEnd)).outcome
            == Some(CompletionView::Finished),
        run(initial(session, limit), fragment_events(frags).push(EventView::StreamEnd)).model_calls
            == 1,
        run(initial(session, limit), fragment_events(frags).push(EventView::StreamEnd)).session
            == append_turn(session, agent_reply(frags)),
        session.turns.len() < session.max_turns ==> run(
            initial(session, limit),
            fragment_events(frags).push(EventView::StreamEnd),
        ).session.turns == session.turns.push(agent_reply(frags)),
{
    let s = initial(session, limit);
    let es = fragment_events(frags).push(EventView::StreamEnd);
    assert(es.drop_last() =~= fragment_events(frags));
    lemma_stream_order(s, frags);
    let p = run(s, fragment_events(frags));
    assert(p.draft =~= frags.map_values(|f: FragmentView| fragment_part(f)));
    assert forall|i: int| 0 <= i < p.draft.len() implies (#[trigger] p.draft[i]) is Text by {
        assert(frags[i] is Text);
    }
    lemma_calls_in_text(p.draft);
    assert(es.last() == EventView::StreamEnd);
    assert(TurnView { role: Role::Agent, parts: p.draft, pending: false } == agent_reply(frags));
}

proof fn lemma_calls_in_call(parts: Seq<PartView>, j: int)
    requires
        0 <= j < parts.len(),
        parts[j] is Call,
    ensures
        calls_in(parts).len() > 0,
    decreases parts.len(),
{
    if j < parts.len() - 1 {
        assert(parts.drop_last()[j] == parts[j]);
        lemma_calls_in_call(parts.drop_last(), j);
    } else {
        assert(parts.last() == parts[j]);
    }
}

/// The fragments of a reply that asks for a tool, streamed from a state with no draft:
/// the draft then holds a tool call.
proof fn lemma_streamed_call(s: OrchestratorView, frags: Seq<FragmentView>)
    requires
        s.phase == Phase::Streaming,
        s.draft.len() == 0,
        has_call(frags),
    ensures
        calls_in(run(s, fragment_events(frags)).draft).len() > 0,
{
    lemma_stream_order(s, frags);
    let d = run(s, fragment_events(frags)).draft;
    assert(d =~= frags.map_values(|f: FragmentView| fragment_part(f)));
    let j = choose|j: int| 0 <= j < frags.len() && (#[trigger] frags[j]) is Call;
    assert(d[j] == fragment_part(frags[j]));
    lemma_calls_in_call(d, j);
}

/// Each round of a model that asks for tools, below the limit, runs the tools and calls the
/// model once more.
proof fn lemma_tool_rounds(s: OrchestratorView, rounds: Seq<(Seq<FragmentView>, Seq<ResultView>)>)
    requires
        s.phase == Phase::Streaming,
        s.draft.len() == 0,
        s.rounds + rounds.len() <= s.limit,
        forall|k: int| 0 <= k < rounds.len() ==> has_call(#[trigger] rounds[k].0),
    ensures
        run(s, tool_rounds(rounds)).phase == Phase::Streaming,
        run(s, tool_rounds(rounds)).draft.len() == 0,
        run(s, tool_rounds(rounds)).rounds == s.rounds + rounds.len(),
        run(s, tool_rounds(rounds)).model_calls == s.model_calls + rounds.len(),
        run(s, tool_rounds(rounds)).limit == s.limit,
    decreases rounds.len(),
{
    if rounds.len() > 0 {
        let init = rounds.drop_last();
        assert forall|k: int| 0 <= k < init.len() implies has_call(#[trigger] init[k].0) by {
            assert(init[k] == rounds[k]);
        }
        lemma_tool_rounds(s, init);
        let a = tool_rounds(init);
        let (frags, done) = rounds.last();
        assert(rounds.last() == rounds[rounds.len() - 1]);
        let r = tool_round(frags, done);
        lemma_run_concat(s, a, r);
        let p = run(s, a);
        let fe = fragment_events(frags);
        let tail = seq![EventView::StreamEnd, EventView::ToolsDone(done)];
        lemma_run_concat(p, fe, tail);
        lemma_stream_order(p, frags);
        lemma_streamed_call(p, frags);
        let q = run(p, fe);
        let t1 = seq![EventView::StreamEnd];
        assert(tail.drop_last() =~= t1);
        assert(t1.drop_last() =~= Seq::<EventView>::empty());
        assert(t1.last() == EventView::StreamEnd);
        assert(run(q, t1.drop_last()) == q);
        assert(run(q, t1) == next(q, EventView::StreamEnd));
        assert(tail.last() == EventView::ToolsDone(done));
    }
}

/// A model that asks for tools every time it is called is stopped at the resolution limit,
/// whatever it asks for and whatever the tools return: after `limit` rounds of tools its
/// next request ends the loop with the limit error, after `limit + 1` model calls.
pub proof fn lemma_limit_stops_tool_loop(
    session: SessionView,
    limit: nat,
    rounds: Seq<(Seq<FragmentView>, Seq<ResultView>)>,
    last: Seq<FragmentView>,
)
    requires
        rounds.len() == limit,
        forall|k: int| 0 <= k < rounds.len() ==> has_call(#[trigger] rounds[k].0),
        has_call(last),
    ensures
        ({
            let es = tool_rounds(rounds) + fragment_events(last).push(EventView::StreamEnd);
            let t = run(initial(session, limit), es);
            &&& t.phase == Phase::Terminal
            &&& t.outcome == Some(CompletionView::LimitExceeded)
            &&& t.model_calls == limit + 1
            &&& t.rounds == limit
        }),
{
    let s = initial(session, limit);
    let a = tool_rounds(rounds);
    let b = fragment_events(last).push(EventView::StreamEnd);
    lemma_tool_rounds(s, rounds);
    lemma_run_concat(s, a, b);
    let p = run(s, a);
    assert(b.drop_last() =~= fragment_events(last));
    assert(b.last() == EventView::StreamEnd);
    lemma_stream_order(p, last);
    lemma_streamed_call(p, last);
}

/// Whatever the events, a loop stays within its limit: at most `limit` rounds of tools and
/// `limit + 1` model calls.
pub proof fn lemma_model_calls_bounded(s: OrchestratorView, es: Seq<EventView>)
    requires
        loop_inv(s),
    ensures
        loop_inv(run(s, es)),
        run(s, es).model_calls <= s.limit + 1,
        run(s, es).limit == s.limit,
    decreases es.len(),
{
    if es.len() > 0 {
        lemma_model_calls_bounded(s, es.drop_last());
    }
}

pub open spec fn ids_unique(d: Seq<ResultView>) -> bool {
    forall|i: int, j: int|
        0 <= i < j < d.len() ==> (#[trigger] d[i]).call_id != (#[trigger] d[j]).call_id
}

proof fn lemma_answer_at(d: Seq<ResultView>, k: int)
    requires
        ids_unique(d),
        0 <= k < d.len(),
    ensures
        answer_for(d, d[k].call_id) == Some(d[k].outcome),
    decreases d.len(),
{
    if k > 0 {
        let rest = d.drop_first();
        assert(d[0].call_id != d[k].call_id);
        assert(rest[k - 1] == d[k]);
        assert(ids_unique(rest)) by {
            assert forall|i: int, j: int| 0 <= i < j < rest.len() implies (#[trigger] rest[i]).call_id
                != (#[trigger] rest[j]).call_id by {
                assert(rest[i] == d[i + 1] && rest[j] == d[j + 1]);
            }
        }
        lemma_answer_at(rest, k - 1);
    }
}

proof fn lemma_answer_none(d: Seq<ResultView>, id: u64)
    requires
        forall|k: int| 0 <= k < d.len() ==> (#[trigger] d[k]).call_id != id,
    ensures
        answer_for(d, id) is None,
    decreases d.len(),
{
    if d.len() > 0 {
        let rest = d.drop_first();
        assert forall|k: int| 0 <= k < rest.len() implies (#[trigger] rest[k]).call_id != id by {
            assert(rest[k] == d[k + 1]);
        }
        lemma_answer_none(rest, id);
    }
}

/// Results are listed in the order the calls were made, one per call, whatever order they
/// finished in: two completion orders of the same results give the same list.
pub proof fn lemma_completion_order_irrelevant(
    calls: Seq<CallView>,
    done1: Seq<ResultView>,
    done2: Seq<ResultView>,
)
    requires
        ids_unique(done1),
        ids_unique(done2),
        forall|i: int| 0 <= i < done2.len() ==> done1.contains(#[trigger] done2[i]),
        forall|j: int| 0 <= j < done1.len() ==> done2.contains(#[trigger] done1[j]),
    ensures
        ordered_results(calls, done1) == ordered_results(calls, done2),
        ordered_results(calls, done1).len() == calls.len(),
        forall|i: int|
            0 <= i < calls.len() ==> (#[trigger] ordered_results(calls, done1)[i]).call_id
                == calls[i].id,
{
    assert forall|i: int| 0 <= i < calls.len() implies #[trigger] result_for(calls[i], done1)
        == result_for(calls[i], done2) by {
        let id = calls[i].id;
        if exists|k: int| 0 <= k < done1.len() && (#[trigger] done1[k]).call_id == id {
            let k = choose|k: int| 0 <= k < done1.len() && (#[trigger] done1[k]).call_id == id;
            lemma_answer_at(done1, k);
            assert(done2.contains(done1[k]));
            let m = choose|m: int| 0 <= m < done2.len() && done2[m] == done1[k];
            lemma_answer_at(done2, m);
        } else {
            lemma_answer_none(done1, id);
            assert forall|m: int| 0 <= m < done2.len() implies (#[trigger] done2[m]).call_id != id by {
                assert(done1.contains(done2[m]));
            }
            lemma_answer_none(done2, id);
        }
    }
    assert(ordered_results(calls, done1) =~= ordered_results(calls, done2));
}

/// A failing tool call does not abort the loop: the combined tool-result turn is still
/// appended, with that call marked as failed in its place, and the model is called again.
pub proof fn lemma_failure_recorded(s: OrchestratorView, done: Seq<ResultView>, i: int, m: Seq<char>)
    requires
        loop_inv(s),
        s.phase == Phase::ExecutingTools,
        s.session.max_turns >= 1,
        0 <= i < s.outstanding.len(),
        answer_for(done, s.outstanding[i].id) == Some(OutcomeView::Failure(m)),
    ensures
        ({
            let t = next(s, EventView::ToolsDone(done));
            let last = t.session.turns.last();
            &&& t.phase == Phase::Streaming
            &&& t.outcome is None
            &&& t.session.turns.len() >= 1
            &&& last.role == Role::Tool
            &&& last.parts.len() == s.outstanding.len()
            &&& last.parts[i] == PartView::Result(
                ResultView { call_id: s.outstanding[i].id, outcome: OutcomeView::Failure(m) },
            )
        }),
        action_of(s, EventView::ToolsDone(done)) == ActionView::CallModel,
{
    let results = ordered_results(s.outstanding, done);
    let turn = TurnView { role: Role::Tool, parts: result_parts(results), pending: false };
    let pushed = s.session.turns.push(turn);
    let kept = retain(pushed, s.session.max_turns);
    assert(kept.len() >= 1);
    assert(kept.last() == turn);
    assert(results[i] == result_for(s.outstanding[i], done));
    assert(result_parts(results)[i] == PartView::Result(results[i]));
    assert(result_parts(results).len() == s.outstanding.len());
}

/// What a loop keeps of its session: the alternation of a conversation holds; while the
/// model streams, the session does not end with an agent turn; while tools run, it ends (if
/// anything is retained) with the agent turn whose calls are being run.
pub open spec fn session_inv(s: OrchestratorView) -> bool {
    let turns = s.session.turns;
    &&& consistent(turns)
    &&& s.phase == Phase::Streaming ==> (turns.len() == 0 || turns.last().role != Role::Agent)
    &&& s.phase == Phase::ExecutingTools ==> (turns.len() > 0 ==> (turns.last().role == Role::Agent
        && calls_in(turns.last().parts) == s.outstanding))
    &&& s.phase == Phase::Terminal ==> (turns.len() == 0 || !requests_tools(turns.last()))
}

/// Once a loop has ended, every agent turn that requested tools is answered by the
/// tool-result turn right after it, whichever way the loop ended; so the session can be
/// re-submitted with a new user turn.
pub proof fn lemma_ended_all_answered(s: OrchestratorView)
    requires
        session_inv(s),
        s.phase == Phase::Terminal,
    ensures
        forall|i: int|
            0 <= i < s.session.turns.len() && requests_tools(#[trigger] s.session.turns[i]) ==> {
                let turns = s.session.turns;
                &&& i + 1 < turns.len()
                &&& turns[i + 1].role == Role::Tool
                &&& answered_in(turns[i + 1].parts) == ids_of(calls_in(turns[i].parts))
            },
{
    let turns = s.session.turns;
    assert forall|i: int|
        0 <= i < turns.len() && requests_tools(#[trigger] turns[i]) implies {
            &&& i + 1 < turns.len()
            &&& turns[i + 1].role == Role::Tool
            &&& answered_in(turns[i + 1].parts) == ids_of(calls_in(turns[i].parts))
        } by {
        assert(alternates_at(turns, i));
        if i + 1 == turns.len() {
            assert(turns.last() == turns[i]);
        } else {
            assert(alternates_at(turns, i + 1));
        }
    }
}

proof fn lemma_consistent_suffix(t: Seq<TurnView>, k: int)
    requires
        consistent(t),
        0 <= k <= t.len(),
    ensures
        consistent(t.subrange(k, t.len() as int)),
{
    let u = t.subrange(k, t.len() as int);
    assert forall|i: int| 0 <= i < u.len() implies #[trigger] alternates_at(u, i) by {
        assert(alternates_at(t, i + k));
        assert(u[i] == t[i + k]);
        if i > 0 {
            assert(u[i - 1] == t[i + k - 1]);
        }
        if i + 1 < u.len() {
            assert(u[i + 1] == t[i + k + 1]);
        }
    }
}

proof fn lemma_consistent_push(t: Seq<TurnView>, x: TurnView)
    requires
        consistent(t),
        t.len() > 0 && requests_tools(t.last()) ==> x.role == Role::Tool,
        t.len() > 0 && x.role == Role::Tool ==> t.last().role == Role::Agent && answered_in(x.parts)
            == ids_of(calls_in(t.last().parts)),
    ensures
        consistent(t.push(x)),
{
    let u = t.push(x);
    assert forall|i: int| 0 <= i < u.len() implies #[trigger] alternates_at(u, i) by {
        if i < t.len() {
            assert(alternates_at(t, i));
            assert(u[i] == t[i]);
            if i > 0 {
                assert(u[i - 1] == t[i - 1]);
            }
            if i + 1 < t.len() {
                assert(u[i + 1] == t[i + 1]);
            }
        } else if i > 0 {
            assert(u[i - 1] == t.last());
        }
    }
}

proof fn lemma_append_turn(s: SessionView, x: TurnView)
    requires
        consistent(s.turns),
        s.turns.len() > 0 && requests_tools(s.turns.last()) ==> x.role == Role::Tool,
        s.turns.len() > 0 && x.role == Role::Tool ==> s.turns.last().role == Role::Agent
            && answered_in(x.parts) == ids_of(calls_in(s.turns.last().parts)),
    ensures
        consistent(append_turn(s, x).turns),
        append_turn(s, x).turns.len() > 0 ==> append_turn(s, x).turns.last() == x,
{
    lemma_consistent_push(s.turns, x);
    let p = s.turns.push(x);
    if p.len() > s.max_turns {
        lemma_consistent_suffix(p, p.len() - s.max_turns);
    }
}

proof fn lemma_answered_parts(calls: Seq<CallView>, results: Seq<ResultView>)
    requires
        results.len() == calls.len(),
        forall|i: int| 0 <= i < calls.len() ==> (#[trigger] results[i]).call_id == calls[i].id,
    ensures
        answered_in(result_parts(results)) == ids_of(calls),
    decreases calls.len(),
{
    let parts = result_parts(results);
    if calls.len() == 0 {
        assert(parts =~= Seq::<PartView>::empty());
        assert(ids_of(calls) =~= Seq::<u64>::empty());
    } else {
        let init = calls.drop_last();
        let rinit = results.drop_last();
        assert forall|i: int| 0 <= i < init.len() implies (#[trigger] rinit[i]).call_id == init[i].id by {
            assert(rinit[i] == results[i]);
        }
        lemma_answered_parts(init, rinit);
        assert(parts.drop_last() =~= result_parts(rinit));
        assert(parts.last() == PartView::Result(results.last()));
        assert(results.last() == results[results.len() - 1]);
        assert(ids_of(calls) =~= ids_of(init).push(calls.last().id));
    }
}

/// A loop starts from a session it accepts with its session invariant.
pub proof fn lemma_start_session_inv(session: SessionView, limit: nat)
    requires
        can_start(session),
    ensures
        session_inv(initial(session, limit)),
        loop_inv(initial(session, limit)),
{
}

/// Every step keeps the session invariant: in particular the session stays consistent,
/// whatever the model and the tools do and whatever is evicted.
pub proof fn lemma_step_session_inv(s: OrchestratorView, e: EventView)
    requires
        session_inv(s),
        accepts(s.phase, e),
    ensures
        session_inv(next(s, e)),
{
    match e {
        EventView::StreamEnd => {
            let turn = TurnView { role: Role::Agent, parts: s.draft, pending: false };
            lemma_append_turn(s.session, turn);
            let calls = calls_in(s.draft);
            if calls.len() > 0 && s.rounds >= s.limit {
                let refusal = TurnView {
                    role: Role::Tool,
                    parts: result_parts(limit_results(calls)),
                    pending: false,
                };
                lemma_answered_parts(calls, limit_results(calls));
                lemma_append_turn(append_turn(s.session, turn), refusal);
            }
        },
        EventView::ToolsDone(done) => {
            let results = ordered_results(s.outstanding, done);
            let turn = TurnView { role: Role::Tool, parts: result_parts(results), pending: false };
            lemma_answered_parts(s.outstanding, results);
            lemma_append_turn(s.session, turn);
        },
        _ => {},
    }
}

/// Along any events the session invariant holds, so the session stays consistent.
pub proof fn lemma_run_session_inv(s: OrchestratorView, es: Seq<EventView>)
    requires
        session_inv(s),
    ensures
        session_inv(run(s, es)),
        consistent(run(s, es).session.turns),
    decreases es.len(),
{
    if es.len() > 0 {
        lemma_run_session_inv(s, es.drop_last());
        let p = run(s, es.drop_last());
        if accepts(p.phase, es.last()) {
            lemma_step_session_inv(p, es.last());
        }
    }
}

/// A conversation of one tool round: the user asks, the model requests the call `c`, the
/// tool answers with `done`, and the model replies with text `t`. The loop ends normally
/// after two model calls, with four turns: the user's, the request, the result answering
/// `c`, and the reply; both model outputs were forwarded, in order.
pub proof fn lemma_one_tool_round(
    user: TurnView,
    max_turns: nat,
    limit: nat,
    c: CallView,
    done: Seq<ResultView>,
    t: Seq<char>,
)
    requires
        user.role == Role::User,
        max_turns >= 4,
        limit >= 1,
    ensures
        ({
            let s0 = initial(SessionView { turns: seq![user], max_turns }, limit);
            let es = seq![
                EventView::Fragment(FragmentView::Call(c)),
                EventView::StreamEnd,
                EventView::ToolsDone(done),
                EventView::Fragment(FragmentView::Text(t)),
                EventView::StreamEnd,
            ];
            let r = run(s0, es);
            &&& r.phase == Phase::Terminal
            &&& r.outcome == Some(CompletionView::Finished)
            &&& r.model_calls == 2
            &&& r.rounds == 1
            &&& r.emitted == seq![FragmentView::Call(c), FragmentView::Text(t)]
            &&& r.session.turns == seq![
                user,
                TurnView { role: Role::Agent, parts: seq![PartView::Call(c)], pending: false },
                TurnView {
                    role: Role::Tool,
                    parts: seq![PartView::Result(result_for(c, done))],
                    pending: false,
                },
                TurnView { role: Role::Agent, parts: seq![PartView::Text(t)], pending: false },
            ]
        }),
{
    let s0 = initial(SessionView { turns: seq![user], max_turns }, limit);
    let e1 = EventView::Fragment(FragmentView::Call(c));
    let e2 = EventView::StreamEnd;
    let e3 = EventView::ToolsDone(done);
    let e4 = EventView::Fragment(FragmentView::Text(t));
    let es = seq![e1, e2, e3, e4, e2];
    let es4 = seq![e1, e2, e3, e4];
    let es3 = seq![e1, e2, e3];
    let es2 = seq![e1, e2];
    let es1 = seq![e1];
    assert(es.drop_last() =~= es4);
    assert(es4.drop_last() =~= es3);
    assert(es3.drop_last() =~= es2);
    assert(es2.drop_last() =~= es1);
    assert(es1.drop_last() =~= Seq::<EventView>::empty());
    assert(es.last() == e2 && es4.last() == e4 && es3.last() == e3 && es2.last() == e2);
    assert(es1.last() == e1);
    assert(run(s0, es1.drop_last()) == s0);
    let s1 = next(s0, e1);
    assert(run(s0, es1) == s1);
    assert(s1.draft =~= seq![PartView::Call(c)]);
    lemma_calls_in_call(s1.draft, 0);
    assert(s1.draft.drop_last() =~= Seq::<PartView>::empty());
    assert(calls_in(s1.draft) =~= seq![c]);
    let s2 = next(s1, e2);
    assert(run(s0, es2) == s2);
    let s3 = next(s2, e3);
    assert(run(s0, es3) == s3);
    assert(ordered_results(seq![c], done) =~= seq![result_for(c, done)]);
    assert(result_parts(seq![result_for(c, done)]) =~= seq![PartView::Result(result_for(c, done))]);
    let s4 = next(s3, e4);
    assert(run(s0, es4) == s4);
    assert(s4.draft =~= seq![PartView::Text(t)]);
    assert(s4.draft.drop_last() =~= Seq::<PartView>::empty());
    assert(calls_in(s4.draft) =~= Seq::<CallView>::empty());
    let s5 = next(s4, e2);
    assert(run(s0, es) == s5);
    assert(s5.emitted =~= seq![FragmentView::Call(c), FragmentView::Text(t)]);
    assert(s5.session.turns =~= seq![
        user,
        TurnView { role: Role::Agent, parts: seq![PartView::Call(c)], pending: false },
        TurnView {
            role: Role::Tool,
            parts: seq![PartView::Result(result_for(c, done))],
            pending: false,
        },
        TurnView { role: Role::Agent, parts: seq![PartView::Text(t)], pending: false },
    ]);
}

} // verus!
