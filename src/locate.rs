use vstd::prelude::*;
use crate::ast::{
    command_view, job_list_view, job_view, lemma_commands_view, lemma_jobs_view, lemma_nodes_view, node_view,
    CommandNode, CommandV, JobListNode, JobListV, JobNode, JobV, Node, NodeV,
};
use crate::errors::{CompletionError, CrushResult};

verus! {

/// The command inside an expression that holds the cursor, if the expression
/// is a substitution or a closure around it; an assignment is looked through
/// to its value.
pub open spec fn locate_expression(e: NodeV, cursor: int) -> CrushResult<Option<CommandV>>
    decreases e, 0int,
{
    match e {
        NodeV::Assignment(_t, _op, v) => locate_expression(*v, cursor),
        NodeV::Substitution(j) => if j.location.spec_contains(cursor) {
            match locate_job_from(j, 0, cursor) {
                Ok(c) => Ok(Some(c)),
                Err(err) => Err(err),
            }
        } else {
            Ok(None)
        },
        NodeV::Closure(l) => if l.location.spec_contains(cursor) {
            match locate_job_list_from(l, 0, cursor) {
                Ok(c) => Ok(Some(c)),
                Err(err) => Err(err),
            }
        } else {
            Ok(None)
        },
        _ => Ok(None),
    }
}

/// The innermost command of `c` at the cursor, looking at its expressions
/// from index `i` on; `c` itself when none of them leads deeper.
pub open spec fn locate_command_from(c: CommandV, i: int, cursor: int) -> CrushResult<CommandV>
    decreases c, c.exprs.len() - i,
{
    if 0 <= i < c.exprs.len() {
        match locate_expression(c.exprs[i], cursor) {
            Ok(Some(r)) => Ok(r),
            Ok(None) => locate_command_from(c, i + 1, cursor),
            Err(err) => Err(err),
        }
    } else {
        Ok(c)
    }
}

/// The innermost command of a job at the cursor: inside the first of its
/// commands from index `i` on that holds the cursor, else its last command.
pub open spec fn locate_job_from(j: JobV, i: int, cursor: int) -> CrushResult<CommandV>
    decreases j, j.commands.len() - i,
{
    if 0 <= i < j.commands.len() {
        if j.commands[i].location.spec_contains(cursor) {
            locate_command_from(j.commands[i], 0, cursor)
        } else {
            locate_job_from(j, i + 1, cursor)
        }
    } else if j.commands.len() > 0 {
        Ok(j.commands.last())
    } else {
        Err(CompletionError::NothingToComplete)
    }
}

/// The innermost command of a job list at the cursor: inside the first of its
/// jobs from index `i` on that holds the cursor, else the last command of its
/// last job.
pub open spec fn locate_job_list_from(l: JobListV, i: int, cursor: int) -> CrushResult<CommandV>
    decreases l, l.jobs.len() - i,
{
    if 0 <= i < l.jobs.len() {
        if l.jobs[i].location.spec_contains(cursor) {
            locate_job_from(l.jobs[i], 0, cursor)
        } else {
            locate_job_list_from(l, i + 1, cursor)
        }
    } else if l.jobs.len() > 0 && l.jobs.last().commands.len() > 0 {
        Ok(l.jobs.last().commands.last())
    } else {
        Err(CompletionError::NothingToComplete)
    }
}

pub open spec fn same_command(r: CrushResult<&CommandNode>, s: CrushResult<CommandV>) -> bool {
    match r {
        Ok(c) => s == Ok::<CommandV, CompletionError>(command_view(*c)),
        Err(e) => s == Err::<CommandV, CompletionError>(e),
    }
}

pub open spec fn same_found(r: CrushResult<Option<&CommandNode>>, s: CrushResult<Option<CommandV>>) -> bool {
    match r {
        Ok(Some(c)) => s == Ok::<Option<CommandV>, CompletionError>(Some(command_view(*c))),
        Ok(None) => s == Ok::<Option<CommandV>, CompletionError>(None),
        Err(e) => s == Err::<Option<CommandV>, CompletionError>(e),
    }
}

pub fn find_command_in_expression(exp: &Node, cursor: usize) -> (r: CrushResult<Option<&CommandNode>>)
    ensures
        same_found(r, locate_expression(node_view(*exp), cursor as int)),
    decreases exp,
{
    match exp {
        Node::Assignment(_t, _op, v) => find_command_in_expression(v, cursor),
        Node::Substitution(j) => {
            if j.location.contains(cursor) {
                let c = find_command_in_job(j, cursor)?;
                Ok(Some(c))
            } else {
                Ok(None)
            }
        },
        Node::Closure(l) => {
            if l.location.contains(cursor) {
                let c = find_command_in_job_list(l, cursor)?;
                Ok(Some(c))
            } else {
                Ok(None)
            }
        },
        _ => Ok(None),
    }
}

/// The innermost command at the cursor, descending from `ast` through the
/// substitutions and closures of its arguments.
pub fn find_command_in_command(ast: &CommandNode, cursor: usize) -> (r: CrushResult<&CommandNode>)
    ensures
        same_command(r, locate_command_from(command_view(*ast), 0, cursor as int)),
    decreases ast,
{
    proof {
        lemma_nodes_view(ast.expressions@, ast.expressions@.len() as int);
    }
    let ghost cv = command_view(*ast);
    let mut i: usize = 0;
    while i < ast.expressions.len()
        invariant
            i <= ast.expressions@.len(),
            cv == command_view(*ast),
            cv.exprs.len() == ast.expressions@.len(),
            forall|k: int| 0 <= k < cv.exprs.len() ==> #[trigger] cv.exprs[k] == node_view(ast.expressions@[k]),
            locate_command_from(cv, 0, cursor as int) == locate_command_from(cv, i as int, cursor as int),
        decreases ast.expressions@.len() - i,
    {
        assert(cv.exprs[i as int] == node_view(ast.expressions@[i as int]));
        match find_command_in_expression(&ast.expressions[i], cursor) {
            Ok(Some(c)) => {
                return Ok(c);
            },
            Ok(None) => {},
            Err(e) => {
                return Err(e);
            },
        }
        i = i + 1;
    }
    Ok(ast)
}

pub fn find_command_in_job(job: &JobNode, cursor: usize) -> (r: CrushResult<&CommandNode>)
    ensures
        same_command(r, locate_job_from(job_view(*job), 0, cursor as int)),
    decreases job,
{
    proof {
        lemma_commands_view(job.commands@, job.commands@.len() as int);
    }
    let ghost jv = job_view(*job);
    let mut i: usize = 0;
    while i < job.commands.len()
        invariant
            i <= job.commands@.len(),
            jv == job_view(*job),
            jv.commands.len() == job.commands@.len(),
            forall|k: int| 0 <= k < jv.commands.len() ==> #[trigger] jv.commands[k] == command_view(job.commands@[k]),
            locate_job_from(jv, 0, cursor as int) == locate_job_from(jv, i as int, cursor as int),
        decreases job.commands@.len() - i,
    {
        assert(jv.commands[i as int] == command_view(job.commands@[i as int]));
        if job.commands[i].location.contains(cursor) {
            return find_command_in_command(&job.commands[i], cursor);
        }
        i = i + 1;
    }
    if job.commands.len() == 0 {
        return Err(CompletionError::NothingToComplete);
    }
    Ok(&job.commands[job.commands.len() - 1])
}

/// The innermost command of a parsed line at the cursor. Fails with
/// `NothingToComplete` where the container to fall back on is empty.
pub fn find_command_in_job_list(ast: &JobListNode, cursor: usize) -> (r: CrushResult<&CommandNode>)
    ensures
        same_command(r, locate_job_list_from(job_list_view(*ast), 0, cursor as int)),
    decreases ast,
{
    proof {
        lemma_jobs_view(ast.jobs@, ast.jobs@.len() as int);
    }
    let ghost lv = job_list_view(*ast);
    let mut i: usize = 0;
    while i < ast.jobs.len()
        invariant
            i <= ast.jobs@.len(),
            lv == job_list_view(*ast),
            lv.jobs.len() == ast.jobs@.len(),
            forall|k: int| 0 <= k < lv.jobs.len() ==> #[trigger] lv.jobs[k] == job_view(ast.jobs@[k]),
            locate_job_list_from(lv, 0, cursor as int) == locate_job_list_from(lv, i as int, cursor as int),
        decreases ast.jobs@.len() - i,
    {
        assert(lv.jobs[i as int] == job_view(ast.jobs@[i as int]));
        if ast.jobs[i].location.contains(cursor) {
            return find_command_in_job(&ast.jobs[i], cursor);
        }
        i = i + 1;
    }
    if ast.jobs.len() == 0 {
        return Err(CompletionError::NothingToComplete);
    }
    let last = &ast.jobs[ast.jobs.len() - 1];
    proof {
        lemma_commands_view(last.commands@, last.commands@.len() as int);
        assert(lv.jobs.last() == job_view(*last));
    }
    if last.commands.len() == 0 {
        return Err(CompletionError::NothingToComplete);
    }
    Ok(&last.commands[last.commands.len() - 1])
}

} // verus!
