use vstd::prelude::*;
use crate::ast::{
    command_wf, command_view, commands_view, job_list_view, job_list_wf, job_view, job_wf, jobs_view, lemma_commands_view,
    lemma_commands_view_push, lemma_jobs_view, lemma_jobs_view_push, lemma_nloc, lemma_nodes_view, lemma_nodes_view_push,
    nloc, node_view, node_wf, nodes_view, tok_view, within, CommandV, JobListV, JobV, NodeV, TokV, CommandNode, JobListNode, JobNode, Location, Node, TokenNode,
    TokenType,
};
use crate::errors::{CompletionError, CrushResult};
use crate::lexer::{lex, token_views, tokenize};

verus! {

pub open spec fn kind_at(tokens: Seq<TokenNode>, pos: int) -> Option<TokenType> {
    if 0 <= pos < tokens.len() {
        Some(tokens[pos].token_type)
    } else {
        None
    }
}

fn is_kind(tokens: &Vec<TokenNode>, pos: usize, k: TokenType) -> (r: bool)
    ensures
        r == (kind_at(tokens@, pos as int) == Some(k)),
        r == is_at(kinds(tokens@), pos as int, k),
        r ==> pos < tokens.len(),
{
    pos < tokens.len() && tokens[pos].token_type == k
}

fn copy_token(t: &TokenNode) -> (r: TokenNode)
    ensures
        r == *t,
{
    TokenNode { token_type: t.token_type, data: t.data.clone(), start: t.start, end: t.end }
}

/// Tokens that do not overlap and come in the order of the line.
pub open spec fn sorted_tokens(ts: Seq<TokenNode>) -> bool {
    &&& forall|i: int| 0 <= i < ts.len() ==> (#[trigger] ts[i]).start < ts[i].end
    &&& forall|i: int, j: int| 0 <= i < j < ts.len() ==> (#[trigger] ts[i]).end <= (#[trigger] ts[j]).start
}

/// `loc` lies between the start of token `pos` and the end of token `p - 1`.
pub open spec fn spans(ts: Seq<TokenNode>, pos: int, p: int, loc: Location) -> bool {
    ts[pos].start <= loc.start && loc.end <= ts[p - 1].end
}

/// The kinds of a sequence of tokens.
pub open spec fn kinds(ts: Seq<TokenNode>) -> Seq<TokenType> {
    ts.map_values(|t: TokenNode| t.token_type)
}

pub open spec fn is_at(ks: Seq<TokenType>, p: int, k: TokenType) -> bool {
    0 <= p < ks.len() && ks[p] == k
}

/// Where an expression that starts at `pos` ends, with its member accesses,
/// path steps and indexing; `None` where none starts there.
pub open spec fn term_end(ks: Seq<TokenType>, pos: int) -> Option<int>
    decreases ks.len() - pos, 0int,
{
    if pos < 0 || pos >= ks.len() {
        None
    } else {
        match ks[pos] {
            TokenType::Label | TokenType::Field | TokenType::QuotedString | TokenType::QuotedFile
            | TokenType::Operator => postfix_end(ks, pos + 1),
            TokenType::SubStart => match job_end(ks, pos + 1) {
                Some(q) => if pos < q < ks.len() && ks[q] == TokenType::SubEnd {
                    postfix_end(ks, q + 1)
                } else {
                    None
                },
                None => None,
            },
            TokenType::JobStart => match list_end(ks, pos + 1) {
                Some(q) => if pos < q < ks.len() && ks[q] == TokenType::JobEnd {
                    postfix_end(ks, q + 1)
                } else {
                    None
                },
                None => None,
            },
            _ => None,
        }
    }
}

/// Where the member accesses, path steps and indexing from `p` on end.
pub open spec fn postfix_end(ks: Seq<TokenType>, p: int) -> Option<int>
    decreases ks.len() - p, 0int,
{
    if p < 0 || p >= ks.len() {
        Some(p)
    } else if ks[p] == TokenType::Slash && !is_at(ks, p + 1, TokenType::Label) {
        postfix_end(ks, p + 1)
    } else if ks[p] == TokenType::Colon || ks[p] == TokenType::Slash {
        if is_at(ks, p + 1, TokenType::Label) {
            postfix_end(ks, p + 2)
        } else {
            None
        }
    } else if ks[p] == TokenType::GetItemStart {
        match term_end(ks, p + 1) {
            Some(q) => if p < q < ks.len() && ks[q] == TokenType::GetItemEnd {
                postfix_end(ks, q + 1)
            } else {
                None
            },
            None => None,
        }
    } else {
        Some(p)
    }
}

/// Where an expression or a named value `name=value` that starts at `pos` ends.
pub open spec fn item_end(ks: Seq<TokenType>, pos: int) -> Option<int>
    decreases ks.len() - pos, 1int,
{
    match term_end(ks, pos) {
        Some(p) => if pos <= p && is_at(ks, p, TokenType::Assign) {
            term_end(ks, p + 1)
        } else {
            Some(p)
        },
        None => None,
    }
}

/// Where the expressions of a command from `p` on end.
pub open spec fn items_end(ks: Seq<TokenType>, p: int) -> Option<int>
    decreases ks.len() - p, 2int,
{
    if 0 <= p < ks.len() && starts_term(ks[p]) {
        match item_end(ks, p) {
            Some(q) => if p < q <= ks.len() { items_end(ks, q) } else { None },
            None => None,
        }
    } else {
        Some(p)
    }
}

/// Where a command that starts at `pos` ends.
pub open spec fn command_end(ks: Seq<TokenType>, pos: int) -> Option<int>
    decreases ks.len() - pos, 3int,
{
    if 0 <= pos < ks.len() && starts_term(ks[pos]) {
        items_end(ks, pos)
    } else {
        None
    }
}

/// Where the commands piped on from `p` end.
pub open spec fn pipes_end(ks: Seq<TokenType>, p: int) -> Option<int>
    decreases ks.len() - p, 4int,
{
    if is_at(ks, p, TokenType::Pipe) {
        match command_end(ks, p + 1) {
            Some(q) => if p < q <= ks.len() { pipes_end(ks, q) } else { None },
            None => None,
        }
    } else {
        Some(p)
    }
}

/// Where a job that starts at `pos` ends.
pub open spec fn job_end(ks: Seq<TokenType>, pos: int) -> Option<int>
    decreases ks.len() - pos, 5int,
{
    match command_end(ks, pos) {
        Some(p) => if pos < p <= ks.len() { pipes_end(ks, p) } else { None },
        None => None,
    }
}

/// The first index from `p` on that holds no separator.
pub open spec fn skip_separators(ks: Seq<TokenType>, p: int) -> int
    decreases ks.len() - p,
{
    if is_at(ks, p, TokenType::Separator) {
        skip_separators(ks, p + 1)
    } else {
        p
    }
}

/// Where the jobs from `p` on end.
pub open spec fn jobs_end(ks: Seq<TokenType>, p: int) -> Option<int>
    decreases ks.len() - p, 6int,
{
    let p2 = skip_separators(ks, p);
    if p2 < p || p2 > ks.len() {
        None
    } else if p2 >= ks.len() || ks[p2] == TokenType::JobEnd {
        Some(p2)
    } else {
        match job_end(ks, p2) {
            Some(q) => if p2 < q <= ks.len() {
                if is_at(ks, q, TokenType::Separator) {
                    jobs_end(ks, q)
                } else {
                    Some(q)
                }
            } else {
                None
            },
            None => None,
        }
    }
}

/// Where a list of jobs that starts at `pos` ends.
pub open spec fn list_end(ks: Seq<TokenType>, pos: int) -> Option<int>
    decreases ks.len() - pos, 7int,
{
    jobs_end(ks, pos)
}

/// The tokens of a sequence, as kind, text, start and end.
pub open spec fn tviews(ts: Seq<TokenNode>) -> Seq<TokV> {
    ts.map_values(|t: TokenNode| tok_view(t))
}

/// The tokens of a line, as kind, text, start and end.
pub open spec fn lex_tokens(s: Seq<char>) -> Seq<TokV> {
    lex(s).map_values(|t: (TokenType, int, int)| (t.0, s.subrange(t.1, t.2), t.1 as usize, t.2 as usize))
}

pub open spec fn tv_at(ts: Seq<TokV>, p: int, k: TokenType) -> bool {
    0 <= p < ts.len() && ts[p].0 == k
}

/// The expression that starts at `pos`, with its member accesses, path steps
/// and indexing, and where it ends.
pub open spec fn spec_term(ts: Seq<TokV>, pos: int) -> Option<(NodeV, int)>
    decreases ts.len() - pos, 0int,
{
    if pos < 0 || pos >= ts.len() {
        None
    } else {
        let t = ts[pos];
        match t.0 {
            TokenType::Label => spec_postfix(ts, NodeV::Label(t), pos + 1),
            TokenType::Field => spec_postfix(ts, NodeV::Field(t), pos + 1),
            TokenType::QuotedString => spec_postfix(ts, NodeV::String(t), pos + 1),
            TokenType::QuotedFile => spec_postfix(ts, NodeV::File(t), pos + 1),
            TokenType::Operator => spec_postfix(ts, NodeV::Operator(t), pos + 1),
            TokenType::SubStart => match spec_job(ts, pos + 1) {
                Some((j, q)) => if pos < q < ts.len() && ts[q].0 == TokenType::SubEnd {
                    spec_postfix(ts, NodeV::Substitution(j), q + 1)
                } else {
                    None
                },
                None => None,
            },
            TokenType::JobStart => match spec_job_list(ts, pos + 1, t.3) {
                Some((l, q)) => if pos < q < ts.len() && ts[q].0 == TokenType::JobEnd {
                    spec_postfix(ts, NodeV::Closure(l), q + 1)
                } else {
                    None
                },
                None => None,
            },
            _ => None,
        }
    }
}

/// `node` with the member accesses, path steps and indexing from `p` on.
pub open spec fn spec_postfix(ts: Seq<TokV>, node: NodeV, p: int) -> Option<(NodeV, int)>
    decreases ts.len() - p, 0int,
{
    if p < 0 || p >= ts.len() {
        Some((node, p))
    } else if ts[p].0 == TokenType::Slash && !tv_at(ts, p + 1, TokenType::Label) {
        let empty: TokV = (TokenType::Label, Seq::empty(), ts[p].3, ts[p].3);
        spec_postfix(ts, NodeV::Path(Box::new(node), empty), p + 1)
    } else if ts[p].0 == TokenType::Colon || ts[p].0 == TokenType::Slash {
        if tv_at(ts, p + 1, TokenType::Label) {
            if ts[p].0 == TokenType::Colon {
                spec_postfix(ts, NodeV::GetAttr(Box::new(node), ts[p + 1]), p + 2)
            } else {
                spec_postfix(ts, NodeV::Path(Box::new(node), ts[p + 1]), p + 2)
            }
        } else {
            None
        }
    } else if ts[p].0 == TokenType::GetItemStart {
        match spec_term(ts, p + 1) {
            Some((i, q)) => if p < q < ts.len() && ts[q].0 == TokenType::GetItemEnd {
                spec_postfix(ts, NodeV::GetItem(Box::new(node), Box::new(i), ts[q]), q + 1)
            } else {
                None
            },
            None => None,
        }
    } else {
        Some((node, p))
    }
}

/// The expression or named value `name=value` that starts at `pos`.
pub open spec fn spec_item(ts: Seq<TokV>, pos: int) -> Option<(NodeV, int)>
    decreases ts.len() - pos, 1int,
{
    match spec_term(ts, pos) {
        Some((t, p)) => if pos <= p && tv_at(ts, p, TokenType::Assign) {
            match spec_term(ts, p + 1) {
                Some((v, q)) => Some((NodeV::Assignment(Box::new(t), ts[p], Box::new(v)), q)),
                None => None,
            }
        } else {
            Some((t, p))
        },
        None => None,
    }
}

/// `acc` followed by the expressions of a command from `p` on.
pub open spec fn spec_items(ts: Seq<TokV>, acc: Seq<NodeV>, p: int) -> Option<(Seq<NodeV>, int)>
    decreases ts.len() - p, 2int,
{
    if 0 <= p < ts.len() && starts_term(ts[p].0) {
        match spec_item(ts, p) {
            Some((e, q)) => if p < q <= ts.len() { spec_items(ts, acc.push(e), q) } else { None },
            None => None,
        }
    } else {
        Some((acc, p))
    }
}

/// The command that starts at `pos`.
pub open spec fn spec_command(ts: Seq<TokV>, pos: int) -> Option<(CommandV, int)>
    decreases ts.len() - pos, 3int,
{
    if 0 <= pos < ts.len() && starts_term(ts[pos].0) {
        match spec_items(ts, Seq::empty(), pos) {
            Some((es, p)) => if es.len() > 0 {
                Some((CommandV { exprs: es, location: Location { start: nloc(es[0]).start, end: nloc(es.last()).end } }, p))
            } else {
                None
            },
            None => None,
        }
    } else {
        None
    }
}

/// `acc` followed by the commands piped on from `p`.
pub open spec fn spec_pipes(ts: Seq<TokV>, acc: Seq<CommandV>, p: int) -> Option<(Seq<CommandV>, int)>
    decreases ts.len() - p, 4int,
{
    if tv_at(ts, p, TokenType::Pipe) {
        match spec_command(ts, p + 1) {
            Some((c, q)) => if p < q <= ts.len() { spec_pipes(ts, acc.push(c), q) } else { None },
            None => None,
        }
    } else {
        Some((acc, p))
    }
}

/// The job that starts at `pos`.
pub open spec fn spec_job(ts: Seq<TokV>, pos: int) -> Option<(JobV, int)>
    decreases ts.len() - pos, 5int,
{
    match spec_command(ts, pos) {
        Some((c, p)) => if pos < p <= ts.len() {
            match spec_pipes(ts, seq![c], p) {
                Some((cs, q)) => Some((JobV { commands: cs, location: Location { start: c.location.start, end: cs.last().location.end } }, q)),
                None => None,
            }
        } else {
            None
        },
        None => None,
    }
}

pub open spec fn tv_skip(ts: Seq<TokV>, p: int) -> int
    decreases ts.len() - p,
{
    if tv_at(ts, p, TokenType::Separator) {
        tv_skip(ts, p + 1)
    } else {
        p
    }
}

/// `acc` followed by the jobs from `p` on.
pub open spec fn spec_jobs(ts: Seq<TokV>, acc: Seq<JobV>, p: int) -> Option<(Seq<JobV>, int)>
    decreases ts.len() - p, 6int,
{
    let p2 = tv_skip(ts, p);
    if p2 < p || p2 > ts.len() {
        None
    } else if p2 >= ts.len() || ts[p2].0 == TokenType::JobEnd {
        Some((acc, p2))
    } else {
        match spec_job(ts, p2) {
            Some((j, q)) => if p2 < q <= ts.len() {
                if tv_at(ts, q, TokenType::Separator) {
                    spec_jobs(ts, acc.push(j), q)
                } else {
                    Some((acc.push(j), q))
                }
            } else {
                None
            },
            None => None,
        }
    }
}

/// The list of jobs that starts at `pos`; without jobs it is located at `at`.
pub open spec fn spec_job_list(ts: Seq<TokV>, pos: int, at: usize) -> Option<(JobListV, int)>
    decreases ts.len() - pos, 7int,
{
    match spec_jobs(ts, Seq::empty(), pos) {
        Some((js, p)) => Some((JobListV {
            jobs: js,
            location: if js.len() == 0 {
                Location { start: at, end: at }
            } else {
                Location { start: js[0].location.start, end: js.last().location.end }
            },
        }, p)),
        None => None,
    }
}

/// The syntax tree of a line, where the line belongs to the language.
pub open spec fn spec_ast(text: Seq<char>) -> Option<JobListV> {
    let ts = lex_tokens(text);
    match spec_job_list(ts, 0, 0) {
        Some((l, p)) => if p == ts.len() {
            Some(JobListV { jobs: l.jobs, location: Location { start: 0, end: text.len() as usize } })
        } else {
            None
        },
        None => None,
    }
}

/// The kinds of the tokens of a line.
pub open spec fn lex_kinds(s: Seq<char>) -> Seq<TokenType> {
    lex(s).map_values(|t: (TokenType, int, int)| t.0)
}

/// Whether a line whose tokens have these kinds belongs to the language.
pub open spec fn parses(ks: Seq<TokenType>) -> bool {
    list_end(ks, 0) == Some(ks.len() as int)
}

/// Whether a token of this kind can begin an expression.
pub open spec fn starts_term(k: TokenType) -> bool {
    match k {
        TokenType::Label | TokenType::Field | TokenType::QuotedString | TokenType::QuotedFile
        | TokenType::Operator | TokenType::SubStart | TokenType::JobStart => true,
        _ => false,
    }
}

fn term_start(k: TokenType) -> (r: bool)
    ensures
        r == starts_term(k),
{
    match k {
        TokenType::Label | TokenType::Field | TokenType::QuotedString | TokenType::QuotedFile
        | TokenType::Operator | TokenType::SubStart | TokenType::JobStart => true,
        _ => false,
    }
}

/// An expression with its member accesses, path steps and indexing. A path
/// that ends in `/` ends in an empty segment.
#[verifier::rlimit(100)]
#[verifier::spinoff_prover]
fn parse_term(tokens: &Vec<TokenNode>, pos: usize) -> (r: CrushResult<(Node, usize)>)
    requires
        pos <= tokens@.len(),
        sorted_tokens(tokens@),
    ensures
        r is Ok ==> pos < r->Ok_0.1 <= tokens@.len(),
        r is Err ==> r->Err_0 == CompletionError::ParseError,
        r is Ok ==> node_wf(r->Ok_0.0) && spans(tokens@, pos as int, r->Ok_0.1 as int, r->Ok_0.0.spec_location()),
        (r is Ok) == (term_end(kinds(tokens@), pos as int) is Some),
        r is Ok ==> term_end(kinds(tokens@), pos as int) == Some(r->Ok_0.1 as int),
        r is Ok ==> spec_term(tviews(tokens@), pos as int) == Some((node_view(r->Ok_0.0), r->Ok_0.1 as int)),
    decreases tokens@.len() - pos, 0int,
{
    let ghost ks = kinds(tokens@);
    let ghost tv = tviews(tokens@);
    if pos >= tokens.len() {
        return Err(CompletionError::ParseError);
    }
    let t = &tokens[pos];
    assert(ks[pos as int] == t.token_type);
    assert(tv[pos as int] == tok_view(*t));
    let (mut node, mut p): (Node, usize) = match t.token_type {
        TokenType::Label => (Node::Label(copy_token(t)), pos + 1),
        TokenType::Field => (Node::Field(copy_token(t)), pos + 1),
        TokenType::QuotedString => (Node::String(copy_token(t)), pos + 1),
        TokenType::QuotedFile => (Node::File(copy_token(t)), pos + 1),
        TokenType::Operator => (Node::Operator(copy_token(t)), pos + 1),
        TokenType::SubStart => {
            let (job, q) = parse_job(tokens, pos + 1)?;
            if !is_kind(tokens, q, TokenType::SubEnd) {
                return Err(CompletionError::ParseError);
            }
            assert(tokens@[q - 1].end <= tokens@[q as int].start);
            assert(tokens@[pos as int].end <= tokens@[pos + 1].start);
            (Node::Substitution(job), q + 1)
        },
        TokenType::JobStart => {
            let (list, q) = parse_job_list(tokens, pos + 1, t.end)?;
            if !is_kind(tokens, q, TokenType::JobEnd) {
                return Err(CompletionError::ParseError);
            }
            assert(tokens@[pos as int].end <= tokens@[q as int].start);
            if list.jobs.len() > 0 {
                assert(tokens@[q - 1].end <= tokens@[q as int].start);
                assert(tokens@[pos as int].end <= tokens@[pos + 1].start);
            }
            (Node::Closure(list), q + 1)
        },
        _ => {
            return Err(CompletionError::ParseError);
        },
    };
    while p < tokens.len()
        invariant
            pos < p <= tokens@.len(),
            sorted_tokens(tokens@),
            ks == kinds(tokens@),
            postfix_end(ks, p as int) == term_end(ks, pos as int),
            tv == tviews(tokens@),
            spec_postfix(tv, node_view(node), p as int) == spec_term(tv, pos as int),
            node_wf(node),
            spans(tokens@, pos as int, p as int, node.spec_location()),
        ensures
            postfix_end(ks, p as int) == Some(p as int),
            spec_postfix(tv, node_view(node), p as int) == Some((node_view(node), p as int)),
        decreases tokens@.len() - p,
    {
        let k = tokens[p].token_type;
        assert(ks[p as int] == k);
        assert(tv[p as int] == tok_view(tokens@[p as int]));
        proof {
            if p + 1 < tokens@.len() {
                assert(tv[p + 1] == tok_view(tokens@[p + 1]));
            }
        }
        if k == TokenType::Slash && !is_kind(tokens, p + 1, TokenType::Label) {
            let e = tokens[p].end;
            assert(tokens@[p - 1].end <= tokens@[p as int].start);
            let name = TokenNode { token_type: TokenType::Label, data: String::new(), start: e, end: e };
            node = Node::Path(Box::new(node), name);
            p = p + 1;
        } else if k == TokenType::Colon || k == TokenType::Slash {
            if !is_kind(tokens, p + 1, TokenType::Label) {
                return Err(CompletionError::ParseError);
            }
            let name = copy_token(&tokens[p + 1]);
            assert(tokens@[p - 1].end <= tokens@[p + 1].start);
            node = if k == TokenType::Colon {
                Node::GetAttr(Box::new(node), name)
            } else {
                Node::Path(Box::new(node), name)
            };
            p = p + 2;
        } else if k == TokenType::GetItemStart {
            let (index, q) = parse_term(tokens, p + 1)?;
            if !is_kind(tokens, q, TokenType::GetItemEnd) {
                return Err(CompletionError::ParseError);
            }
            assert(tokens@[p - 1].end <= tokens@[p + 1].start);
            assert(tokens@[q - 1].end <= tokens@[q as int].start);
            assert(tv[q as int] == tok_view(tokens@[q as int]));
            node = Node::GetItem(Box::new(node), Box::new(index), copy_token(&tokens[q]));
            p = q + 1;
        } else {
            break;
        }
    }
    Ok((node, p))
}

/// An expression, or a named value `name=value`.
fn parse_item(tokens: &Vec<TokenNode>, pos: usize) -> (r: CrushResult<(Node, usize)>)
    requires
        pos <= tokens@.len(),
        sorted_tokens(tokens@),
    ensures
        r is Ok ==> pos < r->Ok_0.1 <= tokens@.len(),
        r is Err ==> r->Err_0 == CompletionError::ParseError,
        r is Ok ==> node_wf(r->Ok_0.0) && spans(tokens@, pos as int, r->Ok_0.1 as int, r->Ok_0.0.spec_location()),
        (r is Ok) == (item_end(kinds(tokens@), pos as int) is Some),
        r is Ok ==> item_end(kinds(tokens@), pos as int) == Some(r->Ok_0.1 as int),
        r is Ok ==> spec_item(tviews(tokens@), pos as int) == Some((node_view(r->Ok_0.0), r->Ok_0.1 as int)),
    decreases tokens@.len() - pos, 1int,
{
    let (target, p) = parse_term(tokens, pos)?;
    let ghost ks = kinds(tokens@);
    let ghost tv = tviews(tokens@);
    proof {
        if p < tokens@.len() {
            assert(tv[p as int] == tok_view(tokens@[p as int]));
        }
    }
    if is_kind(tokens, p, TokenType::Assign) {
        let op = copy_token(&tokens[p]);
        let (value, q) = parse_term(tokens, p + 1)?;
        assert(tokens@[p - 1].end <= tokens@[p as int].start);
        assert(tokens@[p as int].end <= tokens@[p + 1].start);
        Ok((Node::Assignment(Box::new(target), op, Box::new(value)), q))
    } else {
        Ok((target, p))
    }
}

/// A command: one or more expressions.
#[verifier::rlimit(100)]
#[verifier::spinoff_prover]
fn parse_command(tokens: &Vec<TokenNode>, pos: usize) -> (r: CrushResult<(CommandNode, usize)>)
    requires
        pos <= tokens@.len(),
        sorted_tokens(tokens@),
    ensures
        r is Ok ==> pos < r->Ok_0.1 <= tokens@.len(),
        r is Err ==> r->Err_0 == CompletionError::ParseError,
        r is Ok ==> command_wf(r->Ok_0.0) && spans(tokens@, pos as int, r->Ok_0.1 as int, r->Ok_0.0.location),
        (r is Ok) == (command_end(kinds(tokens@), pos as int) is Some),
        r is Ok ==> command_end(kinds(tokens@), pos as int) == Some(r->Ok_0.1 as int),
        r is Ok ==> spec_command(tviews(tokens@), pos as int) == Some((command_view(r->Ok_0.0), r->Ok_0.1 as int)),
    decreases tokens@.len() - pos, 2int,
{
    let ghost ks = kinds(tokens@);
    let ghost tv = tviews(tokens@);
    let mut expressions: Vec<Node> = Vec::new();
    assert(nodes_view(expressions@, 0) == Seq::<NodeV>::empty());
    let mut p = pos;
    while p < tokens.len() && term_start(tokens[p].token_type)
        invariant
            pos <= p <= tokens@.len(),
            sorted_tokens(tokens@),
            ks == kinds(tokens@),
            items_end(ks, p as int) == items_end(ks, pos as int),
            tv == tviews(tokens@),
            spec_items(tv, nodes_view(expressions@, expressions@.len() as int), p as int) == spec_items(tv, Seq::empty(), pos as int),
            expressions@.len() == 0 ==> p == pos,
            expressions@.len() > 0 ==> pos < tokens@.len() && starts_term(ks[pos as int]),
            expressions@.len() > 0 ==> p > pos,
            forall|j: int| 0 <= j < expressions@.len() ==> node_wf(#[trigger] expressions@[j]),
            forall|j: int| 0 <= j < expressions@.len() ==> expressions@[0].spec_location().start <= (
            #[trigger] expressions@[j]).spec_location().start && expressions@[j].spec_location().end
                <= expressions@.last().spec_location().end,
            expressions@.len() > 0 ==> spans(
                tokens@,
                pos as int,
                p as int,
                Location {
                    start: expressions@[0].spec_location().start,
                    end: expressions@.last().spec_location().end,
                },
            ),
        decreases tokens@.len() - p,
    {
        assert(ks[p as int] == tokens@[p as int].token_type);
        assert(tv[p as int] == tok_view(tokens@[p as int]));
        let (e, q) = parse_item(tokens, p)?;
        let ghost before = expressions@;
        proof {
            lemma_nodes_view_push(before, e);
        }
        proof {
            if before.len() > 0 {
                assert(tokens@[p - 1].end <= tokens@[p as int].start);
                assert(node_wf(before[0]));
            }
        }
        expressions.push(e);
        proof {
            assert forall|j: int| 0 <= j < expressions@.len() implies expressions@[0].spec_location().start <= (
            #[trigger] expressions@[j]).spec_location().start && expressions@[j].spec_location().end
                <= expressions@.last().spec_location().end by {
                if j < before.len() {
                    assert(expressions@[j] == before[j]);
                    assert(node_wf(before[j]));
                }
            }
        }
        p = q;
    }
    proof {
        if p < tokens@.len() {
            assert(ks[p as int] == tokens@[p as int].token_type);
        }
        if pos < tokens@.len() {
            assert(ks[pos as int] == tokens@[pos as int].token_type);
        }
    }
    if expressions.len() == 0 {
        return Err(CompletionError::ParseError);
    }
    let location = Location {
        start: expressions[0].location().start,
        end: expressions[expressions.len() - 1].location().end,
    };
    assert(node_wf(expressions@[0]));
    proof {
        let n = expressions@.len() as int;
        lemma_nodes_view(expressions@, n);
        lemma_nloc(expressions@[0]);
        lemma_nloc(expressions@[n - 1]);
        assert(tv[pos as int] == tok_view(tokens@[pos as int]));
        if p < tokens@.len() {
            assert(tv[p as int] == tok_view(tokens@[p as int]));
        }
    }
    let cmd = CommandNode { expressions, location };
    assert(command_wf(cmd));
    Ok((cmd, p))
}

/// A job: commands joined by pipes.
#[verifier::rlimit(100)]
#[verifier::spinoff_prover]
fn parse_job(tokens: &Vec<TokenNode>, pos: usize) -> (r: CrushResult<(JobNode, usize)>)
    requires
        pos <= tokens@.len(),
        sorted_tokens(tokens@),
    ensures
        r is Ok ==> pos < r->Ok_0.1 <= tokens@.len(),
        r is Err ==> r->Err_0 == CompletionError::ParseError,
        r is Ok ==> job_wf(r->Ok_0.0) && spans(tokens@, pos as int, r->Ok_0.1 as int, r->Ok_0.0.location),
        (r is Ok) == (job_end(kinds(tokens@), pos as int) is Some),
        r is Ok ==> job_end(kinds(tokens@), pos as int) == Some(r->Ok_0.1 as int),
        r is Ok ==> spec_job(tviews(tokens@), pos as int) == Some((job_view(r->Ok_0.0), r->Ok_0.1 as int)),
    decreases tokens@.len() - pos, 3int,
{
    let (first, mut p) = parse_command(tokens, pos)?;
    let ghost tv = tviews(tokens@);
    let ghost first_v = command_view(first);
    let ghost p1 = p as int;
    let start = first.location.start;
    let mut end = first.location.end;
    let mut commands: Vec<CommandNode> = Vec::new();
    proof {
        lemma_commands_view_push(commands@, first);
        assert(commands_view(commands@, 0) == Seq::<CommandV>::empty());
        assert(Seq::<CommandV>::empty().push(first_v) =~= seq![first_v]);
    }
    commands.push(first);
    while is_kind(tokens, p, TokenType::Pipe)
        invariant
            pos < p <= tokens@.len(),
            sorted_tokens(tokens@),
            pipes_end(kinds(tokens@), p as int) == job_end(kinds(tokens@), pos as int),
            tv == tviews(tokens@),
            spec_job(tv, pos as int) == match spec_pipes(tv, seq![first_v], p1) {
                Some((cs, q)) => Some((JobV { commands: cs, location: Location { start: first_v.location.start, end: cs.last().location.end } }, q)),
                None => None,
            },
            spec_pipes(tv, commands_view(commands@, commands@.len() as int), p as int) == spec_pipes(tv, seq![first_v], p1),
            first_v.location.start == start,
            commands@.len() > 0,
            start == commands@[0].location.start,
            end == commands@.last().location.end,
            forall|j: int| 0 <= j < commands@.len() ==> command_wf(#[trigger] commands@[j]),
            forall|j: int| 0 <= j < commands@.len() ==> start <= (#[trigger] commands@[j]).location.start
                && commands@[j].location.end <= end,
            spans(tokens@, pos as int, p as int, Location { start, end }),
        decreases tokens@.len() - p,
    {
        let (next, q) = parse_command(tokens, p + 1)?;
        let ghost before = commands@;
        proof {
            lemma_commands_view_push(before, next);
        }
        proof {
            assert(tokens@[p - 1].end <= tokens@[p as int].start);
            assert(tokens@[p as int].end <= tokens@[p + 1].start);
            assert(command_wf(before[0]));
        }
        end = next.location.end;
        commands.push(next);
        proof {
            assert forall|j: int| 0 <= j < commands@.len() implies start <= (
            #[trigger] commands@[j]).location.start && commands@[j].location.end <= end by {
                if j < before.len() {
                    assert(commands@[j] == before[j]);
                    assert(command_wf(before[j]));
                }
            }
        }
        p = q;
    }
    assert(command_wf(commands@[0]));
    proof {
        let n = commands@.len() as int;
        lemma_commands_view(commands@, n);
        assert(commands_view(commands@, n).last() == command_view(commands@[n - 1]));
    }
    let job = JobNode { commands, location: Location { start, end } };
    assert(job_wf(job));
    Ok((job, p))
}

/// Jobs separated by `;` or line breaks, up to a `}` or the end of the
/// tokens. A list without jobs is located at `at`.
#[verifier::rlimit(100)]
#[verifier::spinoff_prover]
fn parse_job_list(tokens: &Vec<TokenNode>, pos: usize, at: usize) -> (r: CrushResult<(JobListNode, usize)>)
    requires
        pos <= tokens@.len(),
        sorted_tokens(tokens@),
    ensures
        r is Ok ==> pos <= r->Ok_0.1 <= tokens@.len(),
        r is Err ==> r->Err_0 == CompletionError::ParseError,
        pos == tokens@.len() ==> r is Ok && r->Ok_0.0.jobs@.len() == 0 && r->Ok_0.1 == pos,
        r is Ok ==> job_list_wf(r->Ok_0.0),
        r is Ok && r->Ok_0.0.jobs@.len() > 0 ==> r->Ok_0.1 > pos && spans(tokens@, pos as int, r->Ok_0.1 as int, r->Ok_0.0.location),
        r is Ok && r->Ok_0.0.jobs@.len() == 0 ==> r->Ok_0.0.location == (Location { start: at, end: at }),
        (r is Ok) == (list_end(kinds(tokens@), pos as int) is Some),
        r is Ok ==> list_end(kinds(tokens@), pos as int) == Some(r->Ok_0.1 as int),
        r is Ok ==> spec_job_list(tviews(tokens@), pos as int, at) == Some((job_list_view(r->Ok_0.0), r->Ok_0.1 as int)),
    decreases tokens@.len() - pos, 4int,
{
    let mut jobs: Vec<JobNode> = Vec::new();
    let mut p = pos;
    let mut start = at;
    let mut end = at;
    let ghost tv = tviews(tokens@);
    assert(jobs_view(jobs@, 0) == Seq::<JobV>::empty());
    loop
        invariant_except_break
            jobs_end(kinds(tokens@), p as int) == list_end(kinds(tokens@), pos as int),
            spec_jobs(tv, jobs_view(jobs@, jobs@.len() as int), p as int) == spec_jobs(tv, Seq::empty(), pos as int),
        invariant
            tv == tviews(tokens@),
            pos <= p <= tokens@.len(),
            sorted_tokens(tokens@),
            pos == tokens@.len() ==> p == pos && jobs@.len() == 0,
            jobs@.len() == 0 ==> start == at && end == at,
            jobs@.len() > 0 ==> p > pos && start == jobs@[0].location.start && end == jobs@.last().location.end
                && spans(tokens@, pos as int, p as int, Location { start, end }),
            forall|j: int| 0 <= j < jobs@.len() ==> job_wf(#[trigger] jobs@[j]),
            forall|j: int| 0 <= j < jobs@.len() ==> start <= (#[trigger] jobs@[j]).location.start
                && jobs@[j].location.end <= end,
        ensures
            list_end(kinds(tokens@), pos as int) == Some(p as int),
            spec_jobs(tv, Seq::empty(), pos as int) == Some((jobs_view(jobs@, jobs@.len() as int), p as int)),
        decreases tokens@.len() - p,
    {
        let ghost p0 = p;
        while is_kind(tokens, p, TokenType::Separator)
            invariant
                pos <= p0 <= p <= tokens@.len(),
                skip_separators(kinds(tokens@), p as int) == skip_separators(kinds(tokens@), p0 as int),
                tv == tviews(tokens@),
                tv_skip(tv, p as int) == tv_skip(tv, p0 as int),
            decreases tokens@.len() - p,
        {
            assert(tv[p as int] == tok_view(tokens@[p as int]));
            p = p + 1;
        }
        proof {
            if p < tokens@.len() {
                assert(kinds(tokens@)[p as int] == tokens@[p as int].token_type);
                assert(tv[p as int] == tok_view(tokens@[p as int]));
            }
            assert(tv_skip(tv, p as int) == p);
        }
        if p >= tokens.len() || tokens[p].token_type == TokenType::JobEnd {
            break;
        }
        let (job, q) = parse_job(tokens, p)?;
        let ghost before = jobs@;
        proof {
            lemma_jobs_view_push(before, job);
            if q < tokens@.len() {
                assert(tv[q as int] == tok_view(tokens@[q as int]));
            }
        }
        proof {
            if before.len() > 0 {
                assert(tokens@[p0 - 1].end <= tokens@[p as int].start) by {
                    if p0 - 1 < p {
                    }
                }
                assert(job_wf(before[0]));
            } else {
                if p > pos {
                    assert(tokens@[pos as int].end <= tokens@[p as int].start);
                }
            }
        }
        if jobs.len() == 0 {
            start = job.location.start;
        }
        end = job.location.end;
        jobs.push(job);
        proof {
            assert forall|j: int| 0 <= j < jobs@.len() implies start <= (#[trigger] jobs@[j]).location.start
                && jobs@[j].location.end <= end by {
                if j < before.len() {
                    assert(jobs@[j] == before[j]);
                    assert(job_wf(before[j]));
                }
            }
        }
        let ghost p2 = p;
        p = q;
        if !is_kind(tokens, p, TokenType::Separator) {
            break;
        }
    }
    proof {
        let n = jobs@.len() as int;
        lemma_jobs_view(jobs@, n);
        if n > 0 {
            assert(jobs_view(jobs@, n).last() == job_view(jobs@[n - 1]));
        }
    }
    let list = JobListNode { jobs, location: Location { start, end } };
    proof {
        if list.jobs@.len() > 0 {
            assert(job_wf(list.jobs@[0]));
        }
    }
    assert(job_list_wf(list));
    Ok((list, p))
}

/// Parses a line of the command language. The root spans the whole line.
pub fn ast(text: &str) -> (r: CrushResult<JobListNode>)
    ensures
        r is Err ==> r->Err_0 == CompletionError::ParseError,
        r is Ok ==> r->Ok_0.location == (Location { start: 0, end: text@.len() as usize }),
        (r is Ok) == parses(lex_kinds(text@)),
        r is Ok ==> spec_ast(text@) == Some(job_list_view(r->Ok_0)),
        lex(text@).len() == 0 ==> r is Ok && r->Ok_0.jobs@.len() == 0,
        r is Ok ==> job_list_wf(r->Ok_0),
{
    let tokens = tokenize(text);
    assert(token_views(tokens@).len() == tokens@.len());
    assert(kinds(tokens@) =~= lex_kinds(text@)) by {
        assert forall|i: int| 0 <= i < tokens@.len() implies kinds(tokens@)[i] == lex_kinds(text@)[i] by {
            assert(token_views(tokens@)[i] == lex(text@)[i]);
        }
    }
    assert(tviews(tokens@) =~= lex_tokens(text@)) by {
        assert forall|i: int| 0 <= i < tokens@.len() implies tviews(tokens@)[i] == lex_tokens(text@)[i] by {
            assert(token_views(tokens@)[i] == lex(text@)[i]);
        }
    }
    let (list, p) = parse_job_list(&tokens, 0, 0)?;
    if p != tokens.len() {
        return Err(CompletionError::ParseError);
    }
    let n = text.unicode_len();
    let ghost inner = list.location;
    proof {
        if list.jobs@.len() > 0 {
            assert(tokens@[p - 1].end <= n);
        }
    }
    let ghost list_v = job_list_view(list);
    let root = JobListNode { jobs: list.jobs, location: Location { start: 0, end: n } };
    assert(job_list_view(root).jobs == list_v.jobs);
    assert forall|i: int| 0 <= i < root.jobs@.len() implies job_wf(#[trigger] root.jobs@[i]) && within(
        root.jobs@[i].location,
        root.location,
    ) by {
        assert(job_wf(list.jobs@[i]) && within(list.jobs@[i].location, inner));
    }
    Ok(root)
}

} // verus!
