use vstd::prelude::*;

verus! {

/// Who authored a turn.
#[derive(Debug, Clone, Copy, PartialEq, Eq, Structural)]
pub enum Role {
    User,
    Agent,
    Tool,
}

/// One named argument of a tool call; `value` is its JSON text.
#[derive(Debug)]
pub struct Arg {
    pub key: String,
    pub value: String,
}

/// A request, inside an agent turn, to run the tool `name`.
#[derive(Debug)]
pub struct ToolCall {
    pub id: u64,
    pub name: String,
    pub args: Vec<Arg>,
}

/// What a tool call came to: a payload (JSON text) or an error message.
#[derive(Debug)]
pub enum ToolOutcome {
    Success(String),
    Failure(String),
}

/// The answer to the tool call `call_id`.
#[derive(Debug)]
pub struct ToolResult {
    pub call_id: u64,
    pub outcome: ToolOutcome,
}

/// One piece of a turn's content.
#[derive(Debug)]
pub enum Part {
    Text(String),
    Call(ToolCall),
    Result(ToolResult),
}

/// One contribution to a conversation. `pending` marks a turn still being generated.
#[derive(Debug)]
pub struct Turn {
    pub role: Role,
    pub parts: Vec<Part>,
    pub pending: bool,
}

pub struct CallView {
    pub id: u64,
    pub name: Seq<char>,
    pub args: Seq<(Seq<char>, Seq<char>)>,
}

pub enum OutcomeView {
    Success(Seq<char>),
    Failure(Seq<char>),
}

pub struct ResultView {
    pub call_id: u64,
    pub outcome: OutcomeView,
}

pub enum PartView {
    Text(Seq<char>),
    Call(CallView),
    Result(ResultView),
}

pub struct TurnView {
    pub role: Role,
    pub parts: Seq<PartView>,
    pub pending: bool,
}

impl View for Arg {
    type V = (Seq<char>, Seq<char>);

    open spec fn view(&self) -> (Seq<char>, Seq<char>) {
        (self.key@, self.value@)
    }
}

pub open spec fn arg_views(v: Seq<Arg>) -> Seq<(Seq<char>, Seq<char>)> {
    v.map_values(|a: Arg| a@)
}

impl View for ToolCall {
    type V = CallView;

    open spec fn view(&self) -> CallView {
        CallView { id: self.id, name: self.name@, args: arg_views(self.args@) }
    }
}

impl View for ToolOutcome {
    type V = OutcomeView;

    open spec fn view(&self) -> OutcomeView {
        match self {
            ToolOutcome::Success(s) => OutcomeView::Success(s@),
            ToolOutcome::Failure(s) => OutcomeView::Failure(s@),
        }
    }
}

impl View for ToolResult {
    type V = ResultView;

    open spec fn view(&self) -> ResultView {
        ResultView { call_id: self.call_id, outcome: self.outcome@ }
    }
}

impl View for Part {
    type V = PartView;

    open spec fn view(&self) -> PartView {
        match self {
            Part::Text(s) => PartView::Text(s@),
            Part::Call(c) => PartView::Call(c@),
            Part::Result(r) => PartView::Result(r@),
        }
    }
}

pub open spec fn part_views(v: Seq<Part>) -> Seq<PartView> {
    v.map_values(|p: Part| p@)
}

pub open spec fn call_views(v: Seq<ToolCall>) -> Seq<CallView> {
    v.map_values(|c: ToolCall| c@)
}

pub open spec fn result_views(v: Seq<ToolResult>) -> Seq<ResultView> {
    v.map_values(|r: ToolResult| r@)
}

impl View for Turn {
    type V = TurnView;

    open spec fn view(&self) -> TurnView {
        TurnView { role: self.role, parts: part_views(self.parts@), pending: self.pending }
    }
}

pub open spec fn turn_views(v: Seq<Turn>) -> Seq<TurnView> {
    v.map_values(|t: Turn| t@)
}

/// The tool calls among `parts`, in order.
pub open spec fn calls_in(parts: Seq<PartView>) -> Seq<CallView>
    decreases parts.len(),
{
    if parts.len() == 0 {
        Seq::empty()
    } else {
        let rest = calls_in(parts.drop_last());
        match parts.last() {
            PartView::Call(c) => rest.push(c),
            _ => rest,
        }
    }
}

/// The call identifiers answered by the results among `parts`, in order.
pub open spec fn answered_in(parts: Seq<PartView>) -> Seq<u64>
    decreases parts.len(),
{
    if parts.len() == 0 {
        Seq::empty()
    } else {
        let rest = answered_in(parts.drop_last());
        match parts.last() {
            PartView::Result(r) => rest.push(r.call_id),
            _ => rest,
        }
    }
}

pub open spec fn ids_of(calls: Seq<CallView>) -> Seq<u64> {
    calls.map_values(|c: CallView| c.id)
}

/// A turn of the agent that asks for at least one tool call.
pub open spec fn requests_tools(t: TurnView) -> bool {
    t.role == Role::Agent && calls_in(t.parts).len() > 0
}

/// Turn `i` keeps the alternation: a tool-result turn answers, call by call and in order,
/// the agent turn right before it (unless that turn has been evicted, at the front); and an
/// agent turn that requests tools is followed by a tool-result turn, if by anything.
pub open spec fn alternates_at(turns: Seq<TurnView>, i: int) -> bool {
    &&& (0 < i && turns[i].role == Role::Tool) ==> {
        &&& turns[i - 1].role == Role::Agent
        &&& answered_in(turns[i].parts) == ids_of(calls_in(turns[i - 1].parts))
    }
    &&& (i + 1 < turns.len() && requests_tools(turns[i])) ==> turns[i + 1].role == Role::Tool
}

/// Every turn keeps the alternation.
pub open spec fn consistent(turns: Seq<TurnView>) -> bool {
    forall|i: int| 0 <= i < turns.len() ==> #[trigger] alternates_at(turns, i)
}

/// The last `max` turns of `s`: older turns are dropped from the front.
pub open spec fn retain(s: Seq<TurnView>, max: nat) -> Seq<TurnView> {
    if s.len() > max {
        s.subrange(s.len() - max, s.len() as int)
    } else {
        s
    }
}

/// The ordered conversation history, keeping at most `max_turns` turns.
#[derive(Debug)]
pub struct Session {
    turns: Vec<Turn>,
    max_turns: usize,
}

pub struct SessionView {
    pub turns: Seq<TurnView>,
    pub max_turns: nat,
}

impl View for Session {
    type V = SessionView;

    closed spec fn view(&self) -> SessionView {
        SessionView { turns: turn_views(self.turns@), max_turns: self.max_turns as nat }
    }
}

impl Session {
    /// Holds at most `max_turns` turns.
    pub closed spec fn wf(&self) -> bool {
        self.turns@.len() <= self.max_turns
    }

    /// An empty session that retains at most `max_turns` turns.
    pub fn new(max_turns: usize) -> (r: Session)
        ensures
            r.wf(),
            r@.turns == Seq::<TurnView>::empty(),
            r@.max_turns == max_turns,
    {
        let r = Session { turns: Vec::new(), max_turns };
        assert(r@.turns =~= Seq::<TurnView>::empty());
        r
    }

    pub fn max_turns(&self) -> (r: usize)
        ensures
            r == self@.max_turns,
    {
        self.max_turns
    }

    pub fn len(&self) -> (r: usize)
        ensures
            r == self@.turns.len(),
    {
        self.turns.len()
    }

    /// The turns, oldest first.
    pub fn turns(&self) -> (r: &Vec<Turn>)
        ensures
            turn_views(r@) == self@.turns,
    {
        &self.turns
    }

    /// Appends `turn`; when that exceeds the bound, the oldest turn is dropped.
    pub fn append(&mut self, turn: Turn)
        requires
            old(self).wf(),
        ensures
            final(self).wf(),
            final(self)@.max_turns == old(self)@.max_turns,
            final(self)@.turns == retain(old(self)@.turns.push(turn@), old(self)@.max_turns),
    {
        let ghost before = self.turns@;
        self.turns.push(turn);
        assert(turn_views(self.turns@) =~= turn_views(before).push(turn@));
        if self.turns.len() > self.max_turns {
            let ghost full = self.turns@;
            self.turns.remove(0);
            assert(turn_views(self.turns@) =~= retain(
                turn_views(full),
                self.max_turns as nat,
            ));
        }
    }

    /// Appends a finished user turn holding `text`.
    pub fn push_user_text(&mut self, text: String)
        requires
            old(self).wf(),
        ensures
            final(self).wf(),
            final(self)@.max_turns == old(self)@.max_turns,
            final(self)@.turns == retain(
                old(self)@.turns.push(
                    TurnView { role: Role::User, parts: seq![PartView::Text(text@)], pending: false },
                ),
                old(self)@.max_turns,
            ),
    {
        let mut parts: Vec<Part> = Vec::new();
        parts.push(Part::Text(text));
        let turn = Turn { role: Role::User, parts, pending: false };
        assert(turn@.parts =~= seq![PartView::Text(text@)]);
        self.append(turn);
    }

    /// Whether the turns keep the alternation of [`consistent`].
    pub fn is_consistent(&self) -> (r: bool)
        ensures
            r == consistent(self@.turns),
    {
        let n = self.turns.len();
        let mut i: usize = 0;
        while i < n
            invariant
                n == self.turns@.len(),
                i <= n,
                forall|j: int| 0 <= j < i ==> #[trigger] alternates_at(self@.turns, j),
            decreases n - i,
        {
            if !alternates(&self.turns, i) {
                return false;
            }
            i += 1;
        }
        true
    }
}

fn alternates(turns: &Vec<Turn>, i: usize) -> (r: bool)
    requires
        i < turns.len(),
    ensures
        r == alternates_at(turn_views(turns@), i as int),
{
    let ghost tv = turn_views(turns@);
    let t = &turns[i];
    assert(tv[i as int] == t@);
    if i > 0 && t.role == Role::Tool {
        let prev = &turns[i - 1];
        assert(tv[i - 1] == prev@);
        if prev.role != Role::Agent {
            return false;
        }
        let answered = answered_ids(&t.parts);
        let asked = call_ids(&prev.parts);
        if !same_ids(&answered, &asked) {
            return false;
        }
    }
    if i + 1 < turns.len() {
        let calls = count_calls(&t.parts);
        let next = &turns[i + 1];
        assert(tv[i + 1] == next@);
        if t.role == Role::Agent && calls > 0 && next.role != Role::Tool {
            return false;
        }
    }
    true
}

fn same_ids(a: &Vec<u64>, b: &Vec<u64>) -> (r: bool)
    ensures
        r == (a@ == b@),
{
    if a.len() != b.len() {
        return false;
    }
    let mut i: usize = 0;
    while i < a.len()
        invariant
            a.len() == b.len(),
            i <= a.len(),
            forall|j: int| 0 <= j < i ==> a@[j] == b@[j],
        decreases a.len() - i,
    {
        if a[i] != b[i] {
            return false;
        }
        i += 1;
    }
    assert(a@ =~= b@);
    true
}

/// How many tool calls `parts` holds.
pub fn count_calls(parts: &Vec<Part>) -> (r: usize)
    ensures
        r == calls_in(part_views(parts@)).len(),
{
    let mut n: usize = 0;
    let mut i: usize = 0;
    while i < parts.len()
        invariant
            i <= parts.len(),
            n == calls_in(part_views(parts@.take(i as int))).len(),
            n <= i,
        decreases parts.len() - i,
    {
        assert(part_views(parts@.take(i + 1)).drop_last() =~= part_views(parts@.take(i as int)));
        if let Part::Call(_) = &parts[i] {
            n += 1;
        }
        i += 1;
    }
    assert(parts@.take(parts.len() as int) =~= parts@);
    n
}

fn call_ids(parts: &Vec<Part>) -> (r: Vec<u64>)
    ensures
        r@ == ids_of(calls_in(part_views(parts@))),
{
    let mut r: Vec<u64> = Vec::new();
    let mut i: usize = 0;
    while i < parts.len()
        invariant
            i <= parts.len(),
            r@ == ids_of(calls_in(part_views(parts@.take(i as int)))),
        decreases parts.len() - i,
    {
        assert(part_views(parts@.take(i + 1)).drop_last() =~= part_views(parts@.take(i as int)));
        let ghost before = calls_in(part_views(parts@.take(i as int)));
        if let Part::Call(c) = &parts[i] {
            r.push(c.id);
            assert(ids_of(before.push(c@)) =~= ids_of(before).push(c.id));
        }
        i += 1;
    }
    assert(parts@.take(parts.len() as int) =~= parts@);
    r
}

fn answered_ids(parts: &Vec<Part>) -> (r: Vec<u64>)
    ensures
        r@ == answered_in(part_views(parts@)),
{
    let mut r: Vec<u64> = Vec::new();
    let mut i: usize = 0;
    while i < parts.len()
        invariant
            i <= parts.len(),
            r@ == answered_in(part_views(parts@.take(i as int))),
        decreases parts.len() - i,
    {
        assert(part_views(parts@.take(i + 1)).drop_last() =~= part_views(parts@.take(i as int)));
        if let Part::Result(x) = &parts[i] {
            r.push(x.call_id);
        }
        i += 1;
    }
    assert(parts@.take(parts.len() as int) =~= parts@);
    r
}

fn copy_string(s: &String) -> (r: String)
    ensures
        r@ == s@,
{
    s.clone()
}

impl Arg {
    pub fn duplicate(&self) -> (r: Arg)
        ensures
            r@ == self@,
    {
        Arg { key: copy_string(&self.key), value: copy_string(&self.value) }
    }
}

impl ToolCall {
    /// A copy of this call.
    pub fn duplicate(&self) -> (r: ToolCall)
        ensures
            r@ == self@,
    {
        let mut args: Vec<Arg> = Vec::new();
        let mut i: usize = 0;
        while i < self.args.len()
            invariant
                i <= self.args.len(),
                arg_views(args@) == arg_views(self.args@.take(i as int)),
            decreases self.args.len() - i,
        {
            let a = self.args[i].duplicate();
            let ghost before = args@;
            args.push(a);
            assert(arg_views(args@) =~= arg_views(before).push(a@));
            assert(arg_views(self.args@.take(i + 1)) =~= arg_views(self.args@.take(i as int)).push(
                self.args@[i as int]@,
            ));
            i += 1;
        }
        assert(self.args@.take(self.args.len() as int) =~= self.args@);
        ToolCall { id: self.id, name: copy_string(&self.name), args }
    }
}

impl ToolOutcome {
    pub fn duplicate(&self) -> (r: ToolOutcome)
        ensures
            r@ == self@,
    {
        match self {
            ToolOutcome::Success(s) => ToolOutcome::Success(copy_string(s)),
            ToolOutcome::Failure(s) => ToolOutcome::Failure(copy_string(s)),
        }
    }
}

} // verus!
