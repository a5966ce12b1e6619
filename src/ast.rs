use vstd::prelude::*;

verus! {

/// A range of character offsets in a line. A cursor is inside it when it lies
/// between `start` and `end`, both ends included, so that a cursor placed right
/// after a token still completes that token.
#[derive(Debug, Clone, Copy, PartialEq, Eq, Structural)]
pub struct Location {
    pub start: usize,
    pub end: usize,
}

impl Location {
    pub fn new(start: usize, end: usize) -> (r: Location)
        ensures
            r.start == start,
            r.end == end,
    {
        Location { start, end }
    }

    pub open spec fn spec_contains(self, cursor: int) -> bool {
        self.start <= cursor <= self.end
    }

    pub fn contains(&self, cursor: usize) -> (r: bool)
        ensures
            r == self.spec_contains(cursor as int),
    {
        self.start <= cursor && cursor <= self.end
    }
}

/// The kinds of token of the command language.
#[derive(Debug, Clone, Copy, PartialEq, Eq, Structural)]
pub enum TokenType {
    Label,
    Field,
    QuotedString,
    QuotedFile,
    Unterminated,
    SubStart,
    SubEnd,
    JobStart,
    JobEnd,
    GetItemStart,
    GetItemEnd,
    Pipe,
    Separator,
    Colon,
    Slash,
    Assign,
    Operator,
    Unknown,
}

/// One token: its kind, its text and where it stands in the line.
#[derive(Debug)]
pub struct TokenNode {
    pub token_type: TokenType,
    pub data: String,
    pub start: usize,
    pub end: usize,
}

impl TokenNode {
    pub open spec fn spec_location(&self) -> Location {
        Location { start: self.start, end: self.end }
    }
}

/// An expression of the command language.
#[derive(Debug)]
pub enum Node {
    /// A bare name.
    Label(TokenNode),
    /// A column reference, `^name`.
    Field(TokenNode),
    /// An operator symbol standing among the arguments, such as `==`.
    Operator(TokenNode),
    /// A double-quoted string.
    String(TokenNode),
    /// A single-quoted file name.
    File(TokenNode),
    /// A member access, `parent:name`.
    GetAttr(Box<Node>, TokenNode),
    /// A path literal, `parent/name`.
    Path(Box<Node>, TokenNode),
    /// An indexed access, `value[index]`; the token is the closing bracket.
    GetItem(Box<Node>, Box<Node>, TokenNode),
    /// A named value, `name=value`; the token is the `=`.
    Assignment(Box<Node>, TokenNode, Box<Node>),
    /// A nested job whose output is used as a value, `(job)`.
    Substitution(JobNode),
    /// A block of jobs run later, `{jobs}`.
    Closure(JobListNode),
}

/// One command and its arguments.
#[derive(Debug)]
pub struct CommandNode {
    pub expressions: Vec<Node>,
    pub location: Location,
}

/// A pipeline of commands.
#[derive(Debug)]
pub struct JobNode {
    pub commands: Vec<CommandNode>,
    pub location: Location,
}

/// A sequence of jobs; the root of a parse.
#[derive(Debug)]
pub struct JobListNode {
    pub jobs: Vec<JobNode>,
    pub location: Location,
}

impl Node {
    pub open spec fn spec_location(&self) -> Location
        decreases self,
    {
        match self {
            Node::Label(t) => t.spec_location(),
            Node::Field(t) => t.spec_location(),
            Node::Operator(t) => t.spec_location(),
            Node::String(t) => t.spec_location(),
            Node::File(t) => t.spec_location(),
            Node::GetAttr(p, a) => Location { start: p.spec_location().start, end: a.end },
            Node::Path(p, a) => Location { start: p.spec_location().start, end: a.end },
            Node::GetItem(v, _i, close) => Location { start: v.spec_location().start, end: close.end },
            Node::Assignment(t, _op, v) => Location {
                start: t.spec_location().start,
                end: v.spec_location().end,
            },
            Node::Substitution(j) => j.location,
            Node::Closure(l) => l.location,
        }
    }

    #[verifier::when_used_as_spec(spec_location)]
    pub fn location(&self) -> (r: Location)
        ensures
            r == self.spec_location(),
        decreases self,
    {
        match self {
            Node::Label(t) => Location { start: t.start, end: t.end },
            Node::Field(t) => Location { start: t.start, end: t.end },
            Node::Operator(t) => Location { start: t.start, end: t.end },
            Node::String(t) => Location { start: t.start, end: t.end },
            Node::File(t) => Location { start: t.start, end: t.end },
            Node::GetAttr(p, a) => Location { start: p.location().start, end: a.end },
            Node::Path(p, a) => Location { start: p.location().start, end: a.end },
            Node::GetItem(v, _i, close) => Location { start: v.location().start, end: close.end },
            Node::Assignment(t, _op, v) => Location { start: t.location().start, end: v.location().end },
            Node::Substitution(j) => j.location,
            Node::Closure(l) => l.location,
        }
    }
}

/// `inner` lies inside `outer`.
pub open spec fn within(inner: Location, outer: Location) -> bool {
    outer.start <= inner.start && inner.end <= outer.end
}

pub open spec fn ordered(l: Location) -> bool {
    l.start <= l.end
}

/// Every location in the expression is ordered and lies inside the location
/// of the node that holds it.
pub open spec fn node_wf(n: Node) -> bool
    decreases n, 0int,
{
    let loc = n.spec_location();
    &&& ordered(loc)
    &&& match n {
        Node::GetAttr(p, a) => node_wf(*p) && within(p.spec_location(), loc) && within(a.spec_location(), loc),
        Node::Path(p, a) => node_wf(*p) && within(p.spec_location(), loc) && within(a.spec_location(), loc),
        Node::GetItem(v, i, c) => node_wf(*v) && node_wf(*i) && within(v.spec_location(), loc) && within(
            i.spec_location(),
            loc,
        ) && within(c.spec_location(), loc),
        Node::Assignment(t, op, v) => node_wf(*t) && node_wf(*v) && within(t.spec_location(), loc)
            && within(op.spec_location(), loc) && within(v.spec_location(), loc),
        Node::Substitution(j) => job_wf(j),
        Node::Closure(l) => job_list_wf(l),
        _ => true,
    }
}

pub open spec fn command_wf(c: CommandNode) -> bool
    decreases c, 0int,
{
    &&& ordered(c.location)
    &&& forall|i: int| 0 <= i < c.expressions@.len() ==> node_wf(#[trigger] c.expressions@[i]) && within(
        c.expressions@[i].spec_location(),
        c.location,
    )
}

pub open spec fn job_wf(j: JobNode) -> bool
    decreases j, 0int,
{
    &&& ordered(j.location)
    &&& forall|i: int| 0 <= i < j.commands@.len() ==> command_wf(#[trigger] j.commands@[i]) && within(
        j.commands@[i].location,
        j.location,
    )
}

pub open spec fn job_list_wf(l: JobListNode) -> bool
    decreases l, 0int,
{
    &&& ordered(l.location)
    &&& forall|i: int| 0 <= i < l.jobs@.len() ==> job_wf(#[trigger] l.jobs@[i]) && within(
        l.jobs@[i].location,
        l.location,
    )
}

} // verus!

verus! {

/// A token as kind, text, start and end.
pub type TokV = (TokenType, Seq<char>, usize, usize);

/// The syntax tree in spec form: each token as its kind, text and place.
pub enum NodeV {
    Label(TokV),
    Field(TokV),
    Operator(TokV),
    String(TokV),
    File(TokV),
    GetAttr(Box<NodeV>, TokV),
    Path(Box<NodeV>, TokV),
    GetItem(Box<NodeV>, Box<NodeV>, TokV),
    Assignment(Box<NodeV>, TokV, Box<NodeV>),
    Substitution(JobV),
    Closure(JobListV),
}

pub struct CommandV {
    pub exprs: Seq<NodeV>,
    pub location: Location,
}

pub struct JobV {
    pub commands: Seq<CommandV>,
    pub location: Location,
}

pub struct JobListV {
    pub jobs: Seq<JobV>,
    pub location: Location,
}

pub open spec fn tok_loc(t: TokV) -> Location {
    Location { start: t.2, end: t.3 }
}

/// Where an expression stands in the line.
pub open spec fn nloc(n: NodeV) -> Location
    decreases n,
{
    match n {
        NodeV::Label(t) => tok_loc(t),
        NodeV::Field(t) => tok_loc(t),
        NodeV::Operator(t) => tok_loc(t),
        NodeV::String(t) => tok_loc(t),
        NodeV::File(t) => tok_loc(t),
        NodeV::GetAttr(p, a) => Location { start: nloc(*p).start, end: a.3 },
        NodeV::Path(p, a) => Location { start: nloc(*p).start, end: a.3 },
        NodeV::GetItem(v, _i, c) => Location { start: nloc(*v).start, end: c.3 },
        NodeV::Assignment(t, _op, v) => Location { start: nloc(*t).start, end: nloc(*v).end },
        NodeV::Substitution(j) => j.location,
        NodeV::Closure(l) => l.location,
    }
}

pub open spec fn tok_view(t: TokenNode) -> TokV {
    (t.token_type, t.data@, t.start, t.end)
}

pub open spec fn node_view(n: Node) -> NodeV
    decreases n, 0int,
{
    match n {
        Node::Label(t) => NodeV::Label(tok_view(t)),
        Node::Field(t) => NodeV::Field(tok_view(t)),
        Node::Operator(t) => NodeV::Operator(tok_view(t)),
        Node::String(t) => NodeV::String(tok_view(t)),
        Node::File(t) => NodeV::File(tok_view(t)),
        Node::GetAttr(p, a) => NodeV::GetAttr(Box::new(node_view(*p)), tok_view(a)),
        Node::Path(p, a) => NodeV::Path(Box::new(node_view(*p)), tok_view(a)),
        Node::GetItem(v, i, c) => NodeV::GetItem(Box::new(node_view(*v)), Box::new(node_view(*i)), tok_view(c)),
        Node::Assignment(t, op, v) => NodeV::Assignment(Box::new(node_view(*t)), tok_view(op), Box::new(node_view(*v))),
        Node::Substitution(j) => NodeV::Substitution(job_view(j)),
        Node::Closure(l) => NodeV::Closure(job_list_view(l)),
    }
}

/// The views of the first `n` expressions.
pub open spec fn nodes_view(s: Seq<Node>, n: int) -> Seq<NodeV>
    decreases s, n,
{
    if 0 < n <= s.len() {
        nodes_view(s, n - 1).push(node_view(s[n - 1]))
    } else {
        Seq::empty()
    }
}

pub open spec fn command_view(c: CommandNode) -> CommandV
    decreases c, 0int,
{
    CommandV { exprs: nodes_view(c.expressions@, c.expressions@.len() as int), location: c.location }
}

pub open spec fn commands_view(s: Seq<CommandNode>, n: int) -> Seq<CommandV>
    decreases s, n,
{
    if 0 < n <= s.len() {
        commands_view(s, n - 1).push(command_view(s[n - 1]))
    } else {
        Seq::empty()
    }
}

pub open spec fn job_view(j: JobNode) -> JobV
    decreases j, 0int,
{
    JobV { commands: commands_view(j.commands@, j.commands@.len() as int), location: j.location }
}

pub open spec fn jobs_view(s: Seq<JobNode>, n: int) -> Seq<JobV>
    decreases s, n,
{
    if 0 < n <= s.len() {
        jobs_view(s, n - 1).push(job_view(s[n - 1]))
    } else {
        Seq::empty()
    }
}

pub open spec fn job_list_view(l: JobListNode) -> JobListV
    decreases l, 0int,
{
    JobListV { jobs: jobs_view(l.jobs@, l.jobs@.len() as int), location: l.location }
}


pub proof fn lemma_nloc(n: Node)
    ensures
        nloc(node_view(n)) == n.spec_location(),
    decreases n,
{
    match n {
        Node::GetAttr(p, a) => {
            lemma_nloc(*p);
            assert(node_view(n) == NodeV::GetAttr(Box::new(node_view(*p)), tok_view(a)));
        },
        Node::Path(p, a) => {
            lemma_nloc(*p);
            assert(node_view(n) == NodeV::Path(Box::new(node_view(*p)), tok_view(a)));
        },
        Node::GetItem(v, i, c) => {
            lemma_nloc(*v);
            assert(node_view(n) == NodeV::GetItem(Box::new(node_view(*v)), Box::new(node_view(*i)), tok_view(c)));
        },
        Node::Assignment(t, op, v) => {
            lemma_nloc(*t);
            lemma_nloc(*v);
            assert(node_view(n) == NodeV::Assignment(Box::new(node_view(*t)), tok_view(op), Box::new(node_view(*v))));
        },
        Node::Substitution(j) => {
            assert(node_view(n) == NodeV::Substitution(job_view(j)));
        },
        Node::Closure(l) => {
            assert(node_view(n) == NodeV::Closure(job_list_view(l)));
        },
        _ => {},
    }
}

pub proof fn lemma_nodes_view(s: Seq<Node>, n: int)
    requires
        0 <= n <= s.len(),
    ensures
        nodes_view(s, n).len() == n,
        forall|i: int| 0 <= i < n ==> #[trigger] nodes_view(s, n)[i] == node_view(s[i]),
    decreases n,
{
    if n > 0 {
        lemma_nodes_view(s, n - 1);
    }
}

pub proof fn lemma_nodes_view_push(s: Seq<Node>, x: Node)
    ensures
        nodes_view(s.push(x), s.len() as int + 1) == nodes_view(s, s.len() as int).push(node_view(x)),
{
    lemma_nodes_view(s, s.len() as int);
    lemma_nodes_view(s.push(x), s.len() as int + 1);
    let a = nodes_view(s.push(x), s.len() as int + 1);
    let b = nodes_view(s, s.len() as int).push(node_view(x));
    assert forall|i: int| 0 <= i < a.len() implies a[i] == b[i] by {
        if i < s.len() {
            assert(s.push(x)[i] == s[i]);
        }
    }
    assert(a =~= b);
}

pub proof fn lemma_commands_view(s: Seq<CommandNode>, n: int)
    requires
        0 <= n <= s.len(),
    ensures
        commands_view(s, n).len() == n,
        forall|i: int| 0 <= i < n ==> #[trigger] commands_view(s, n)[i] == command_view(s[i]),
    decreases n,
{
    if n > 0 {
        lemma_commands_view(s, n - 1);
    }
}

pub proof fn lemma_commands_view_push(s: Seq<CommandNode>, x: CommandNode)
    ensures
        commands_view(s.push(x), s.len() as int + 1) == commands_view(s, s.len() as int).push(command_view(x)),
{
    lemma_commands_view(s, s.len() as int);
    lemma_commands_view(s.push(x), s.len() as int + 1);
    let a = commands_view(s.push(x), s.len() as int + 1);
    let b = commands_view(s, s.len() as int).push(command_view(x));
    assert forall|i: int| 0 <= i < a.len() implies a[i] == b[i] by {
        if i < s.len() {
            assert(s.push(x)[i] == s[i]);
        }
    }
    assert(a =~= b);
}

pub proof fn lemma_jobs_view(s: Seq<JobNode>, n: int)
    requires
        0 <= n <= s.len(),
    ensures
        jobs_view(s, n).len() == n,
        forall|i: int| 0 <= i < n ==> #[trigger] jobs_view(s, n)[i] == job_view(s[i]),
    decreases n,
{
    if n > 0 {
        lemma_jobs_view(s, n - 1);
    }
}

pub proof fn lemma_jobs_view_push(s: Seq<JobNode>, x: JobNode)
    ensures
        jobs_view(s.push(x), s.len() as int + 1) == jobs_view(s, s.len() as int).push(job_view(x)),
{
    lemma_jobs_view(s, s.len() as int);
    lemma_jobs_view(s.push(x), s.len() as int + 1);
    let a = jobs_view(s.push(x), s.len() as int + 1);
    let b = jobs_view(s, s.len() as int).push(job_view(x));
    assert forall|i: int| 0 <= i < a.len() implies a[i] == b[i] by {
        if i < s.len() {
            assert(s.push(x)[i] == s[i]);
        }
    }
    assert(a =~= b);
}

} // verus!
