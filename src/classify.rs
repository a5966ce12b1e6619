use vstd::prelude::*;
use crate::ast::{
    command_view, job_list_view, lemma_jobs_view, lemma_nloc, lemma_nodes_view, nloc, node_view, CommandNode,
    CommandV, JobListNode, JobListV, Node, NodeV,
};
use crate::closer::{close_command, closed};
use crate::errors::{CompletionError, CrushResult};
use crate::locate::{find_command_in_job_list, locate_job_list_from};
use crate::parser::{ast, lex_kinds, parses, spec_ast};
use crate::scope::{Scope, ValueType};
use crate::text::strings_view;

verus! {

/// Whether the command being completed was resolved. Resolution is not done
/// yet, so classification always gives `Unknown`.
pub enum CompletionCommand {
    Unknown,
    Known(Vec<String>),
}

/// What the argument under the cursor looks like.
pub enum LastArgument {
    Unknown,
    Field(Vec<String>),
    Path(Vec<String>),
    QuotedString(String),
}

/// An argument being completed, with what stands before it.
pub struct PartialCommandResult {
    pub command: CompletionCommand,
    pub previous_arguments: Vec<(Option<String>, ValueType)>,
    pub last_argument_name: Option<String>,
    pub last_argument: LastArgument,
}

/// The context of the cursor.
pub enum ParseResult {
    Nothing,
    PartialCommand(Vec<String>),
    PartialPath(Vec<String>),
    PartialArgument(PartialCommandResult),
}

/// `LastArgument` as sequences of characters.
pub enum ArgumentView {
    Unknown,
    Field(Seq<Seq<char>>),
    Path(Seq<Seq<char>>),
    QuotedString(Seq<char>),
}

/// `ParseResult` as sequences of characters.
pub enum ParseView {
    Nothing,
    PartialCommand(Seq<Seq<char>>),
    PartialPath(Seq<Seq<char>>),
    PartialArgument {
        known: bool,
        previous: nat,
        name: Option<Seq<char>>,
        last: ArgumentView,
    },
}

impl LastArgument {
    pub open spec fn view(&self) -> ArgumentView {
        match self {
            LastArgument::Unknown => ArgumentView::Unknown,
            LastArgument::Field(f) => ArgumentView::Field(strings_view(f@)),
            LastArgument::Path(p) => ArgumentView::Path(strings_view(p@)),
            LastArgument::QuotedString(s) => ArgumentView::QuotedString(s@),
        }
    }
}

pub open spec fn name_view(n: Option<String>) -> Option<Seq<char>> {
    match n {
        Some(s) => Some(s@),
        None => None,
    }
}

impl ParseResult {
    pub open spec fn view(&self) -> ParseView {
        match self {
            ParseResult::Nothing => ParseView::Nothing,
            ParseResult::PartialCommand(f) => ParseView::PartialCommand(strings_view(f@)),
            ParseResult::PartialPath(p) => ParseView::PartialPath(strings_view(p@)),
            ParseResult::PartialArgument(p) => ParseView::PartialArgument {
                known: p.command is Known,
                previous: p.previous_arguments@.len(),
                name: name_view(p.last_argument_name),
                last: p.last_argument.view(),
            },
        }
    }
}

/// Field and path segments are never empty sequences.
pub open spec fn completable(v: ParseView) -> bool {
    match v {
        ParseView::PartialCommand(f) => f.len() >= 1,
        ParseView::PartialPath(p) => p.len() >= 1,
        ParseView::PartialArgument { last, .. } => match last {
            ArgumentView::Field(f) => f.len() >= 1,
            ArgumentView::Path(p) => p.len() >= 1,
            _ => true,
        },
        ParseView::Nothing => true,
    }
}

pub open spec fn result_view(r: CrushResult<ParseResult>) -> CrushResult<ParseView> {
    match r {
        Ok(v) => Ok(v.view()),
        Err(e) => Err(e),
    }
}

/// The segments of a member access `a:b:c`, or of a bare name.
pub open spec fn attr_path(n: NodeV) -> Option<Seq<Seq<char>>>
    decreases n,
{
    match n {
        NodeV::Label(t) => Some(seq![t.1]),
        NodeV::GetAttr(p, a) => match attr_path(*p) {
            Some(f) => Some(f.push(a.1)),
            None => None,
        },
        _ => None,
    }
}

/// The segments of a path literal `a/b/c`, or of a bare name.
pub open spec fn path_segments(n: NodeV) -> Option<Seq<Seq<char>>>
    decreases n,
{
    match n {
        NodeV::Label(t) => Some(seq![t.1]),
        NodeV::Path(p, a) => match path_segments(*p) {
            Some(f) => Some(f.push(a.1)),
            None => None,
        },
        _ => None,
    }
}

pub open spec fn argument(last: ArgumentView, name: Option<Seq<char>>) -> ParseView {
    ParseView::PartialArgument { known: false, previous: 0, name, last }
}

/// The context of the cursor in a located command.
pub open spec fn classified(cmd: CommandV, cursor: int) -> CrushResult<ParseView> {
    let es = cmd.exprs;
    if es.len() == 0 {
        Ok(ParseView::Nothing)
    } else if es.len() == 1 {
        let e = es[0];
        if nloc(e).spec_contains(cursor) {
            match e {
                NodeV::Label(_) | NodeV::GetAttr(_, _) => match attr_path(e) {
                    Some(f) => Ok(ParseView::PartialCommand(f)),
                    None => Err(CompletionError::InvalidPath),
                },
                NodeV::Path(_, _) => match path_segments(e) {
                    Some(p) => Ok(ParseView::PartialPath(p)),
                    None => Err(CompletionError::InvalidPath),
                },
                NodeV::File(_) | NodeV::String(_) | NodeV::GetItem(_, _, _) => Err(
                    CompletionError::UnsupportedCompletionTarget,
                ),
                _ => Err(CompletionError::ParseError),
            }
        } else {
            Ok(argument(ArgumentView::Unknown, None))
        }
    } else {
        let last = es.last();
        let (arg, name) = match last {
            NodeV::Assignment(t, _op, v) => (*v, match *t {
                NodeV::Label(l) => Some(l.1),
                _ => None,
            }),
            _ => (last, None),
        };
        match arg {
            NodeV::Label(_) | NodeV::GetAttr(_, _) => match attr_path(arg) {
                Some(f) => Ok(argument(ArgumentView::Field(f), name)),
                None => Err(CompletionError::InvalidPath),
            },
            NodeV::Path(_, _) => match path_segments(arg) {
                Some(p) => Ok(argument(ArgumentView::Path(p), name)),
                None => Err(CompletionError::InvalidPath),
            },
            NodeV::String(_) => Err(CompletionError::UnsupportedCompletionTarget),
            _ => Err(CompletionError::ParseError),
        }
    }
}

/// The context of the cursor in a parsed line.
pub open spec fn classified_line(l: JobListV, cursor: int) -> CrushResult<ParseView> {
    if l.jobs.len() == 0 {
        Ok(ParseView::Nothing)
    } else {
        match locate_job_list_from(l, 0, cursor) {
            Ok(c) => classified(c, cursor),
            Err(e) => Err(e),
        }
    }
}

/// A command whose only expression is a quoted string holding the cursor is
/// reported as an unsupported completion target.
pub proof fn quoted_string_unsupported(cmd: CommandV, cursor: int)
    requires
        cmd.exprs.len() == 1,
        cmd.exprs[0] is String,
        nloc(cmd.exprs[0]).spec_contains(cursor),
    ensures
        classified(cmd, cursor) == Err::<ParseView, CompletionError>(CompletionError::UnsupportedCompletionTarget),
{
}

fn simple_attr(node: &Node) -> (r: CrushResult<Vec<String>>)
    ensures
        match attr_path(node_view(*node)) {
            Some(f) => r is Ok && strings_view(r->Ok_0@) == f,
            None => r == Err::<Vec<String>, CompletionError>(CompletionError::InvalidPath),
        },
        r is Ok ==> r->Ok_0@.len() >= 1,
    decreases node,
{
    match node {
        Node::Label(l) => {
            let mut res: Vec<String> = Vec::new();
            res.push(l.data.clone());
            assert(strings_view(res@) =~= seq![l.data@]);
            Ok(res)
        },
        Node::GetAttr(p, a) => {
            let mut res = simple_attr(p)?;
            let ghost before = res@;
            res.push(a.data.clone());
            assert(strings_view(res@) =~= strings_view(before).push(a.data@));
            Ok(res)
        },
        _ => Err(CompletionError::InvalidPath),
    }
}

fn simple_path(node: &Node) -> (r: CrushResult<Vec<String>>)
    ensures
        match path_segments(node_view(*node)) {
            Some(f) => r is Ok && strings_view(r->Ok_0@) == f,
            None => r == Err::<Vec<String>, CompletionError>(CompletionError::InvalidPath),
        },
        r is Ok ==> r->Ok_0@.len() >= 1,
    decreases node,
{
    match node {
        Node::Label(l) => {
            let mut res: Vec<String> = Vec::new();
            res.push(l.data.clone());
            assert(strings_view(res@) =~= seq![l.data@]);
            Ok(res)
        },
        Node::Path(p, a) => {
            let mut res = simple_path(p)?;
            let ghost before = res@;
            res.push(a.data.clone());
            assert(strings_view(res@) =~= strings_view(before).push(a.data@));
            Ok(res)
        },
        _ => Err(CompletionError::InvalidPath),
    }
}

fn argument_result(last_argument: LastArgument, last_argument_name: Option<String>) -> (r: ParseResult)
    ensures
        r.view() == argument(last_argument.view(), name_view(last_argument_name)),
{
    let r = ParseResult::PartialArgument(
        PartialCommandResult {
            command: CompletionCommand::Unknown,
            previous_arguments: Vec::new(),
            last_argument_name,
            last_argument,
        },
    );
    r
}

/// Classifies the context of the cursor in the command found around it.
pub fn classify(cmd: &CommandNode, cursor: usize) -> (r: CrushResult<ParseResult>)
    ensures
        r is Ok ==> completable(r->Ok_0.view()),
        result_view(r) == classified(command_view(*cmd), cursor as int),
{
    let n = cmd.expressions.len();
    proof {
        lemma_nodes_view(cmd.expressions@, n as int);
        if n > 0 {
            lemma_nloc(cmd.expressions@[0]);
        }
    }
    if n == 0 {
        return Ok(ParseResult::Nothing);
    }
    if n == 1 {
        let e = &cmd.expressions[0];
        if e.location().contains(cursor) {
            match e {
                Node::Label(_) | Node::GetAttr(_, _) => {
                    let f = simple_attr(e)?;
                    Ok(ParseResult::PartialCommand(f))
                },
                Node::Path(_, _) => {
                    let p = simple_path(e)?;
                    Ok(ParseResult::PartialPath(p))
                },
                Node::File(_) | Node::String(_) | Node::GetItem(_, _, _) => Err(
                    CompletionError::UnsupportedCompletionTarget,
                ),
                _ => Err(CompletionError::ParseError),
            }
        } else {
            Ok(argument_result(LastArgument::Unknown, None))
        }
    } else {
        let last = &cmd.expressions[n - 1];
        let (arg, name): (&Node, Option<String>) = match last {
            Node::Assignment(t, _op, v) => {
                let name = match &**t {
                    Node::Label(l) => Some(l.data.clone()),
                    _ => None,
                };
                (&**v, name)
            },
            _ => (last, None),
        };
        match arg {
            Node::Label(_) | Node::GetAttr(_, _) => {
                let f = simple_attr(arg)?;
                Ok(argument_result(LastArgument::Field(f), name))
            },
            Node::Path(_, _) => {
                let p = simple_path(arg)?;
                Ok(argument_result(LastArgument::Path(p), name))
            },
            Node::String(_) => Err(CompletionError::UnsupportedCompletionTarget),
            _ => Err(CompletionError::ParseError),
        }
    }
}

/// Classifies the context of the cursor in a parsed line.
pub fn classify_parsed(ast: &JobListNode, cursor: usize) -> (r: CrushResult<ParseResult>)
    ensures
        r is Ok ==> completable(r->Ok_0.view()),
        result_view(r) == classified_line(job_list_view(*ast), cursor as int),
{
    proof {
        lemma_jobs_view(ast.jobs@, ast.jobs@.len() as int);
    }
    if ast.jobs.len() == 0 {
        return Ok(ParseResult::Nothing);
    }
    let cmd = find_command_in_job_list(ast, cursor)?;
    classify(cmd, cursor)
}

/// The context of the cursor in `line`: the part of the line before the
/// cursor, with its open brackets closed, parsed and classified. A prefix
/// outside the language gives `ParseError`.
pub open spec fn line_context(line: Seq<char>, cursor: int) -> CrushResult<ParseView> {
    let text = closed(line.subrange(0, cursor));
    if parses(lex_kinds(text)) {
        match spec_ast(text) {
            Some(l) => classified_line(l, cursor),
            None => Err(CompletionError::ParseError),
        }
    } else {
        Err(CompletionError::ParseError)
    }
}

/// Classifies the context of the cursor in `line`: the part of the line
/// before the cursor has its open brackets closed and is parsed; the command
/// around the cursor is then classified.
pub fn parse(line: &str, cursor: usize, _scope: &Scope) -> (r: CrushResult<ParseResult>)
    requires
        cursor <= line@.len(),
    ensures
        result_view(r) == line_context(line@, cursor as int),
        r is Ok ==> completable(r->Ok_0.view()),
{
    let text = close_command(line.substring_char(0, cursor));
    let tree = ast(text.as_str())?;
    classify_parsed(&tree, cursor)
}

} // verus!
