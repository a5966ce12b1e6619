use vstd::prelude::*;
use crate::ast::TokenNode;
use crate::classify::{
    line_context, parse, ArgumentView, CompletionCommand, LastArgument, ParseResult,
    ParseView,
};
use crate::errors::{CompletionError, CrushResult};
use crate::lister::DirectoryLister;
use crate::scope::{field_names, field_of, Scope, Value};
use crate::text::{copy_strings, has_prefix, starts_with, strings_view, suffixes, tail};

verus! {

/// A suggested completion: text to insert into the line at a position.
pub struct Completion {
    completion: String,
    position: usize,
}

impl Completion {
    pub closed spec fn spec_text(&self) -> Seq<char> {
        self.completion@
    }

    pub closed spec fn spec_position(&self) -> usize {
        self.position
    }

    /// The line with the completion inserted at its position; nothing of the
    /// line is removed.
    pub fn complete(&self, line: &str) -> (r: String)
        requires
            self.spec_position() <= line@.len(),
        ensures
            r@ == line@.subrange(0, self.spec_position() as int) + self.spec_text() + line@.subrange(
                self.spec_position() as int,
                line@.len() as int,
            ),
    {
        let n = line.unicode_len();
        let mut res = String::from_str(line.substring_char(0, self.position));
        res.append(self.completion.as_str());
        res.append(line.substring_char(self.position, n));
        res
    }
}

/// The text and position of each completion.
pub open spec fn completions_of(out: Seq<Completion>) -> Seq<(Seq<char>, usize)> {
    out.map_values(|c: Completion| (c.spec_text(), c.spec_position()))
}

/// Each text, to be inserted at `cursor`.
pub open spec fn anchored(texts: Seq<Seq<char>>, cursor: usize) -> Seq<(Seq<char>, usize)> {
    texts.map_values(|t: Seq<char>| (t, cursor))
}

/// A cursor over a sequence of tokens, starting at the first.
pub struct ParseState {
    vec: Vec<TokenNode>,
    idx: usize,
}

pub open spec fn data_at(tokens: Seq<TokenNode>, i: int) -> Option<Seq<char>> {
    if 0 <= i < tokens.len() {
        Some(tokens[i].data@)
    } else {
        None
    }
}

pub open spec fn str_view(s: Option<&str>) -> Option<Seq<char>> {
    match s {
        Some(t) => Some(t@),
        None => None,
    }
}

impl ParseState {
    pub closed spec fn tokens(&self) -> Seq<TokenNode> {
        self.vec@
    }

    pub closed spec fn index(&self) -> usize {
        self.idx
    }

    pub fn new(vec: Vec<TokenNode>) -> (r: ParseState)
        ensures
            r.tokens() == vec@,
            r.index() == 0,
    {
        ParseState { vec, idx: 0 }
    }

    /// Moves to the next token and gives its text.
    pub fn next(&mut self) -> (r: Option<&str>)
        requires
            old(self).index() < usize::MAX,
        ensures
            final(self).tokens() == old(self).tokens(),
            final(self).index() == old(self).index() + 1,
            str_view(r) == data_at(final(self).tokens(), final(self).index() as int),
    {
        self.idx = self.idx + 1;
        if self.idx < self.vec.len() {
            Some(self.vec[self.idx].data.as_str())
        } else {
            None
        }
    }

    /// The text of the token after the current one.
    pub fn peek(&self) -> (r: Option<&str>)
        ensures
            str_view(r) == data_at(self.tokens(), self.index() + 1),
    {
        if self.idx < self.vec.len() && self.idx + 1 < self.vec.len() {
            Some(self.vec[self.idx + 1].data.as_str())
        } else {
            None
        }
    }

    /// Where the current token stands in the line.
    pub fn location(&self) -> (r: Option<(usize, usize)>)
        ensures
            match r {
                Some(l) => self.index() < self.tokens().len() && l == (
                self.tokens()[self.index() as int].start,
                self.tokens()[self.index() as int].end,
            ),
                None => self.index() >= self.tokens().len(),
            },
    {
        if self.idx < self.vec.len() {
            Some((self.vec[self.idx].start, self.vec[self.idx].end))
        } else {
            None
        }
    }
}

/// The completions of a field path below a value: the fields of the value
/// found by all segments but the last whose names start with the last
/// segment, each without that segment. A segment on the way that names no
/// field gives `UnknownMember`.
pub open spec fn value_candidates(v: Value, prefix: Seq<Seq<char>>) -> CrushResult<Seq<Seq<char>>>
    decreases prefix.len(),
{
    if prefix.len() == 0 {
        Err(CompletionError::InvalidPath)
    } else if prefix.len() == 1 {
        Ok(suffixes(field_names(v), prefix[0]))
    } else {
        match field_of(v, prefix[0]) {
            Some(c) => value_candidates(c, prefix.drop_first()),
            None => Err(CompletionError::UnknownMember),
        }
    }
}

/// The completions of a path: the entries of its parent directory whose
/// names start with its last segment, each without that segment.
pub open spec fn file_candidates(l: DirectoryLister, path: Seq<Seq<char>>) -> CrushResult<Seq<Seq<char>>> {
    if path.len() == 0 {
        Err(CompletionError::InvalidPath)
    } else {
        match l.listing(path.drop_last()) {
            Some(es) => Ok(suffixes(es, path.last())),
            None => Err(CompletionError::IoError),
        }
    }
}

/// Field completions, followed by file completions where the path is a
/// single word.
pub open spec fn field_then_file(root: Value, l: DirectoryLister, f: Seq<Seq<char>>) -> CrushResult<Seq<Seq<char>>> {
    match value_candidates(root, f) {
        Err(e) => Err(e),
        Ok(a) => if f.len() == 1 {
            match file_candidates(l, f) {
                Ok(b) => Ok(a + b),
                Err(e) => Err(e),
            }
        } else {
            Ok(a)
        },
    }
}

/// The completion texts for a context of the cursor.
pub open spec fn candidates(r: ParseView, scope: Scope, l: DirectoryLister) -> CrushResult<Seq<Seq<char>>> {
    let root = Value::Scope(scope);
    let everything = seq![Seq::<char>::empty()];
    match r {
        ParseView::Nothing => value_candidates(root, everything),
        ParseView::PartialCommand(f) => field_then_file(root, l, f),
        ParseView::PartialPath(p) => file_candidates(l, p),
        ParseView::PartialArgument { known, last, .. } => if known {
            Ok(Seq::empty())
        } else {
            match last {
                ArgumentView::Unknown => value_candidates(root, everything),
                ArgumentView::Field(f) => field_then_file(root, l, f),
                ArgumentView::Path(p) => file_candidates(l, p),
                ArgumentView::QuotedString(_) => Ok(Seq::empty()),
            }
        },
    }
}

/// The path whose parent directory the completions of a context list, if any.
pub open spec fn file_path_of(r: ParseView) -> Option<Seq<Seq<char>>> {
    match r {
        ParseView::PartialCommand(f) => if f.len() == 1 { Some(f) } else { None },
        ParseView::PartialPath(p) => if p.len() >= 1 { Some(p) } else { None },
        ParseView::PartialArgument { known, last, .. } => if known {
            None
        } else {
            match last {
                ArgumentView::Field(f) => if f.len() == 1 { Some(f) } else { None },
                ArgumentView::Path(p) => if p.len() >= 1 { Some(p) } else { None },
                _ => None,
            }
        },
        ParseView::Nothing => None,
    }
}

/// The directory that completing `parsed` lists, so that a caller can read
/// it before completing; `None` where no directory is listed.
pub fn directory_needed(parsed: &ParseResult) -> (r: Option<Vec<String>>)
    ensures
        match file_path_of(parsed.view()) {
            Some(p) => r is Some && strings_view(r->Some_0@) == p.drop_last(),
            None => r is None,
        },
{
    let path: &Vec<String> = match parsed {
        ParseResult::PartialCommand(f) => {
            if f.len() != 1 {
                return None;
            }
            f
        },
        ParseResult::PartialPath(p) => p,
        ParseResult::PartialArgument(p) => {
            if let CompletionCommand::Known(_) = p.command {
                return None;
            }
            match &p.last_argument {
                LastArgument::Field(f) => {
                    if f.len() != 1 {
                        return None;
                    }
                    f
                },
                LastArgument::Path(p) => p,
                _ => {
                    return None;
                },
            }
        },
        ParseResult::Nothing => {
            return None;
        },
    };
    if path.len() == 0 {
        return None;
    }
    let mut parent = copy_strings(path);
    parent.pop();
    assert(strings_view(parent@) =~= strings_view(path@).drop_last());
    Some(parent)
}

/// A two-segment field path whose first segment names no field of the scope
/// fails with `UnknownMember`, as a command and as an argument; it never
/// gives an empty list.
pub proof fn unknown_member_fails(
    scope: Scope,
    lister: DirectoryLister,
    f: Seq<Seq<char>>,
    previous: nat,
    name: Option<Seq<char>>,
)
    requires
        f.len() == 2,
        scope.lookup(f[0]) is None,
    ensures
        candidates(ParseView::PartialCommand(f), scope, lister) == Err::<Seq<Seq<char>>, CompletionError>(
            CompletionError::UnknownMember,
        ),
        candidates(
            ParseView::PartialArgument { known: false, previous, name, last: ArgumentView::Field(f) },
            scope,
            lister,
        ) == Err::<Seq<Seq<char>>, CompletionError>(CompletionError::UnknownMember),
{
}

/// Appends a completion at `cursor` for each name that starts with `prefix`.
fn push_suffixes(names: &Vec<String>, prefix: &str, cursor: usize, out: &mut Vec<Completion>)
    ensures
        completions_of(final(out)@) == completions_of(old(out)@) + anchored(
            suffixes(strings_view(names@), prefix@),
            cursor,
        ),
{
    let ghost start = completions_of(out@);
    let mut i: usize = 0;
    while i < names.len()
        invariant
            i <= names@.len(),
            completions_of(out@) == start + anchored(
                suffixes(strings_view(names@.subrange(0, i as int)), prefix@),
                cursor,
            ),
        decreases names@.len() - i,
    {
        let name = names[i].as_str();
        let ghost pre = strings_view(names@.subrange(0, i + 1));
        let ghost before = completions_of(out@);
        proof {
            assert(pre.drop_last() =~= strings_view(names@.subrange(0, i as int)));
            assert(pre.last() == name@);
        }
        if starts_with(name, prefix) {
            let text = tail(name, prefix.unicode_len());
            out.push(Completion { completion: text, position: cursor });
            proof {
                assert(completions_of(out@) =~= before.push((text@, cursor)));
                assert(completions_of(out@) =~= start + anchored(suffixes(pre, prefix@), cursor));
            }
        }
        i = i + 1;
    }
    assert(names@.subrange(0, i as int) =~= names@);
}

/// Field completion below a namespace, for the segments of `prefix` from
/// index `from` on.
fn complete_scope(
    scope: &Scope,
    prefix: &Vec<String>,
    from: usize,
    cursor: usize,
    out: &mut Vec<Completion>,
) -> (r: CrushResult<()>)
    requires
        from < prefix@.len(),
    ensures
        match value_candidates(Value::Scope(*scope), strings_view(prefix@).subrange(from as int, prefix@.len() as int)) {
            Ok(ts) => r is Ok && completions_of(final(out)@) == completions_of(old(out)@) + anchored(ts, cursor),
            Err(e) => r == Err::<(), CompletionError>(e) && final(out)@ == old(out)@,
        },
    decreases prefix@.len() - from, 0int,
{
    let ghost rest = strings_view(prefix@).subrange(from as int, prefix@.len() as int);
    assert(rest[0] == prefix@[from as int]@);
    if from == prefix.len() - 1 {
        let names = scope.dump();
        push_suffixes(&names, prefix[from].as_str(), cursor, out);
        Ok(())
    } else {
        assert(rest.drop_first() =~= strings_view(prefix@).subrange(from + 1, prefix@.len() as int));
        match scope.get(prefix[from].as_str()) {
            Some(child) => complete_value(child, prefix, from + 1, cursor, out),
            None => Err(CompletionError::UnknownMember),
        }
    }
}

/// Field completion below a value, for the segments of `prefix` from index
/// `from` on. Only namespaces have fields.
fn complete_value(
    value: &Value,
    prefix: &Vec<String>,
    from: usize,
    cursor: usize,
    out: &mut Vec<Completion>,
) -> (r: CrushResult<()>)
    requires
        from < prefix@.len(),
    ensures
        match value_candidates(*value, strings_view(prefix@).subrange(from as int, prefix@.len() as int)) {
            Ok(ts) => r is Ok && completions_of(final(out)@) == completions_of(old(out)@) + anchored(ts, cursor),
            Err(e) => r == Err::<(), CompletionError>(e) && final(out)@ == old(out)@,
        },
    decreases prefix@.len() - from, 1int,
{
    match value {
        Value::Scope(s) => complete_scope(s, prefix, from, cursor, out),
        _ => {
            let ghost rest = strings_view(prefix@).subrange(from as int, prefix@.len() as int);
            if from == prefix.len() - 1 {
                proof {
                    assert(suffixes(field_names(*value), rest[0]) =~= Seq::<Seq<char>>::empty());
                    assert(completions_of(out@) =~= completions_of(out@) + anchored(Seq::<Seq<char>>::empty(), cursor));
                }
                Ok(())
            } else {
                Err(CompletionError::UnknownMember)
            }
        },
    }
}

/// File completion: appends a completion at `cursor` for each entry of the
/// parent of `path` whose name starts with the last segment of `path`.
fn complete_file(lister: &DirectoryLister, path: &Vec<String>, cursor: usize, out: &mut Vec<Completion>) -> (r: CrushResult<()>)
    ensures
        match file_candidates(*lister, strings_view(path@)) {
            Ok(ts) => r is Ok && completions_of(final(out)@) == completions_of(old(out)@) + anchored(ts, cursor),
            Err(e) => r == Err::<(), CompletionError>(e) && final(out)@ == old(out)@,
        },
{
    if path.len() == 0 {
        return Err(CompletionError::InvalidPath);
    }
    let mut parent = copy_strings(path);
    parent.pop();
    assert(strings_view(parent@) =~= strings_view(path@).drop_last());
    let entries = lister.list(&parent)?;
    push_suffixes(&entries, path[path.len() - 1].as_str(), cursor, out);
    Ok(())
}

/// The completions at `cursor` for a classified context: names of `scope`,
/// fields below them, and entries that `lister` gives, all inserted at the
/// cursor. Namespace completions come before file completions.
pub fn complete_parsed(
    parsed: ParseResult,
    cursor: usize,
    scope: &Scope,
    lister: &DirectoryLister,
) -> (r: CrushResult<Vec<Completion>>)
    ensures
        match candidates(parsed.view(), *scope, *lister) {
            Ok(ts) => r is Ok && completions_of(r->Ok_0@) == anchored(ts, cursor),
            Err(e) => r == Err::<Vec<Completion>, CompletionError>(e),
        },
{
    let mut res: Vec<Completion> = Vec::new();
    let ghost root = Value::Scope(*scope);
    let ghost everything = seq![Seq::<char>::empty()];
    match parsed {
        ParseResult::Nothing => {
            let mut all: Vec<String> = Vec::new();
            all.push(String::new());
            assert(strings_view(all@).subrange(0, 1) =~= everything);
            complete_scope(scope, &all, 0, cursor, &mut res)?;
        },
        ParseResult::PartialCommand(f) => {
            if f.len() == 0 {
                return Err(CompletionError::InvalidPath);
            }
            assert(strings_view(f@).subrange(0, f@.len() as int) =~= strings_view(f@));
            complete_scope(scope, &f, 0, cursor, &mut res)?;
            if f.len() == 1 {
                complete_file(lister, &f, cursor, &mut res)?;
            }
        },
        ParseResult::PartialPath(p) => {
            complete_file(lister, &p, cursor, &mut res)?;
        },
        ParseResult::PartialArgument(p) => {
            match p.command {
                CompletionCommand::Unknown => {
                    match p.last_argument {
                        LastArgument::Unknown => {
                            let mut all: Vec<String> = Vec::new();
                            all.push(String::new());
                            assert(strings_view(all@).subrange(0, 1) =~= everything);
                            complete_scope(scope, &all, 0, cursor, &mut res)?;
                        },
                        LastArgument::Field(f) => {
                            if f.len() == 0 {
                                return Err(CompletionError::InvalidPath);
                            }
                            assert(strings_view(f@).subrange(0, f@.len() as int) =~= strings_view(f@));
                            complete_scope(scope, &f, 0, cursor, &mut res)?;
                            if f.len() == 1 {
                                complete_file(lister, &f, cursor, &mut res)?;
                            }
                        },
                        LastArgument::Path(l) => {
                            complete_file(lister, &l, cursor, &mut res)?;
                        },
                        LastArgument::QuotedString(_) => {},
                    }
                },
                CompletionCommand::Known(_) => {},
            }
        },
    }
    proof {
        let ts = candidates(parsed.view(), *scope, *lister);
        if ts is Ok {
            assert(completions_of(res@) =~= anchored(ts->Ok_0, cursor));
        }
    }
    Ok(res)
}

/// The completions at `cursor` in `line`: those of the context of the
/// cursor (see `line_context`), each inserted at the cursor.
pub fn complete(line: &str, cursor: usize, scope: &Scope, lister: &DirectoryLister) -> (r: CrushResult<Vec<Completion>>)
    requires
        cursor <= line@.len(),
    ensures
        match line_context(line@, cursor as int) {
            Ok(v) => match candidates(v, *scope, *lister) {
                Ok(ts) => r is Ok && completions_of(r->Ok_0@) == anchored(ts, cursor),
                Err(e) => r == Err::<Vec<Completion>, CompletionError>(e),
            },
            Err(e) => r == Err::<Vec<Completion>, CompletionError>(e),
        },
        r is Ok ==> forall|k: int| 0 <= k < r->Ok_0@.len() ==> #[trigger] r->Ok_0@[k].spec_position() == cursor,
        r is Ok ==> forall|k: int| 0 <= k < r->Ok_0@.len() ==> #[trigger] r->Ok_0@[k].spec_position() <= line@.len(),
{
    let parsed = parse(line, cursor, scope)?;
    let r = complete_parsed(parsed, cursor, scope, lister);
    proof {
        if r is Ok {
            let cs = r->Ok_0@;
            let ts = candidates(parsed.view(), *scope, *lister)->Ok_0;
            assert(completions_of(cs).len() == cs.len());
            assert forall|k: int| 0 <= k < cs.len() implies #[trigger] cs[k].spec_position() == cursor by {
                assert(completions_of(cs)[k] == anchored(ts, cursor)[k]);
            }
        }
    }
    r
}

} // verus!
