use vstd::prelude::*;

verus! {

/// What the bracket closer knows after reading part of a line: the quote that
/// is open, if any, and the closers still owed, innermost last.
pub type ScanState = (Option<char>, Seq<char>);

pub open spec fn is_quote(c: char) -> bool {
    c == '"' || c == '\''
}

/// The effect of one character on the scan. Brackets inside quotes do not
/// count; a closer with nothing open is ignored.
pub open spec fn scan_step(st: ScanState, c: char) -> ScanState {
    match st.0 {
        Some(q) => if c == q { (None, st.1) } else { st },
        None => if is_quote(c) {
            (Some(c), st.1)
        } else if c == '(' {
            (None, st.1.push(')'))
        } else if c == '{' {
            (None, st.1.push('}'))
        } else if c == ')' || c == '}' {
            (None, if st.1.len() > 0 { st.1.drop_last() } else { st.1 })
        } else {
            st
        },
    }
}

pub open spec fn scan_from(st: ScanState, s: Seq<char>) -> ScanState
    decreases s.len(),
{
    if s.len() == 0 {
        st
    } else {
        scan_step(scan_from(st, s.drop_last()), s.last())
    }
}

pub open spec fn scan(s: Seq<char>) -> ScanState {
    scan_from((None, Seq::empty()), s)
}

/// The closers of a stack, innermost first.
pub open spec fn closers(stack: Seq<char>) -> Seq<char>
    decreases stack.len(),
{
    if stack.len() == 0 {
        Seq::empty()
    } else {
        seq![stack.last()] + closers(stack.drop_last())
    }
}

/// A line prefix with the brackets it leaves open closed.
pub open spec fn closed(s: Seq<char>) -> Seq<char> {
    s + closers(scan(s).1)
}

pub open spec fn only_closers(stack: Seq<char>) -> bool {
    forall|i: int| 0 <= i < stack.len() ==> #[trigger] stack[i] == ')' || stack[i] == '}'
}

/// Appends to `input` the closers of the substitutions and blocks that it
/// leaves open, innermost first.
pub fn close_command(input: &str) -> (r: String)
    ensures
        r@ == closed(input@),
{
    let n = input.unicode_len();
    let mut quote: Option<char> = None;
    let mut stack: Vec<char> = Vec::new();
    let mut i: usize = 0;
    while i < n
        invariant
            n == input@.len(),
            i <= n,
            (quote, stack@) == scan(input@.subrange(0, i as int)),
            only_closers(stack@),
        decreases n - i,
    {
        let c = input.get_char(i);
        proof {
            let pre = input@.subrange(0, i as int + 1);
            assert(pre.drop_last() =~= input@.subrange(0, i as int));
        }
        match quote {
            Some(q) => {
                if c == q {
                    quote = None;
                }
            },
            None => {
                if c == '"' || c == '\'' {
                    quote = Some(c);
                } else if c == '(' {
                    stack.push(')');
                } else if c == '{' {
                    stack.push('}');
                } else if c == ')' || c == '}' {
                    if stack.len() > 0 {
                        stack.pop();
                    }
                }
            },
        }
        i = i + 1;
    }
    proof {
        assert(input@.subrange(0, n as int) =~= input@);
    }
    let mut r = String::from_str(input);
    let mut k: usize = stack.len();
    assert(stack@.subrange(0, k as int) =~= stack@);
    while k > 0
        invariant
            k <= stack@.len(),
            only_closers(stack@),
            r@ + closers(stack@.subrange(0, k as int)) == input@ + closers(stack@),
        decreases k,
    {
        let c = stack[k - 1];
        assert(c == ')' || c == '}');
        proof {
            let sub = stack@.subrange(0, k as int);
            assert(sub.drop_last() =~= stack@.subrange(0, k - 1));
            assert(closers(sub) == seq![c] + closers(stack@.subrange(0, k - 1)));
        }
        let ghost before = r@;
        if c == ')' {
            r.append(")");
            proof {
                reveal_strlit(")");
            }
        } else {
            r.append("}");
            proof {
                reveal_strlit("}");
            }
        }
        proof {
            assert(r@ =~= before + seq![c]);
            assert(r@ + closers(stack@.subrange(0, k - 1)) =~= before + (seq![c] + closers(
                stack@.subrange(0, k - 1),
            )));
        }
        k = k - 1;
    }
    proof {
        assert(stack@.subrange(0, 0) =~= Seq::<char>::empty());
        assert(r@ + closers(Seq::<char>::empty()) =~= r@);
    }
    r
}

proof fn lemma_scan_concat(st: ScanState, a: Seq<char>, b: Seq<char>)
    ensures
        scan_from(st, a + b) == scan_from(scan_from(st, a), b),
    decreases b.len(),
{
    if b.len() == 0 {
        assert(a + b =~= a);
    } else {
        assert((a + b).drop_last() =~= a + b.drop_last());
        assert((a + b).last() == b.last());
        lemma_scan_concat(st, a, b.drop_last());
    }
}

proof fn lemma_scan_only_closers(st: ScanState, s: Seq<char>)
    requires
        only_closers(st.1),
    ensures
        only_closers(scan_from(st, s).1),
    decreases s.len(),
{
    if s.len() > 0 {
        lemma_scan_only_closers(st, s.drop_last());
        let prev = scan_from(st, s.drop_last());
        let next = scan_step(prev, s.last());
        assert forall|i: int| 0 <= i < next.1.len() implies #[trigger] next.1[i] == ')' || next.1[i]
            == '}' by {
            if i < prev.1.len() {
                assert(next.1[i] == prev.1[i]);
            }
        }
    }
}

proof fn lemma_closers_drain(stack: Seq<char>)
    requires
        only_closers(stack),
    ensures
        scan_from((None, stack), closers(stack)) == (None::<char>, Seq::<char>::empty()),
    decreases stack.len(),
{
    if stack.len() > 0 {
        let rest = stack.drop_last();
        lemma_scan_concat((None, stack), seq![stack.last()], closers(rest));
        assert(seq![stack.last()].drop_last() =~= Seq::<char>::empty());
        assert(scan_from((None, stack), Seq::<char>::empty()) == (None::<char>, stack));
        assert(stack[stack.len() - 1] == ')' || stack[stack.len() - 1] == '}');
        assert(seq![stack.last()].last() == stack.last());
        assert(scan_from((None, stack), seq![stack.last()]) == (None::<char>, rest));
        assert(only_closers(rest)) by {
            assert forall|i: int| 0 <= i < rest.len() implies #[trigger] rest[i] == ')' || rest[i]
                == '}' by {
                assert(rest[i] == stack[i]);
            }
        }
        lemma_closers_drain(rest);
    } else {
        assert(stack =~= Seq::<char>::empty());
    }
}

/// A prefix whose brackets are all matched is left as it is.
pub proof fn close_keeps_balanced(p: Seq<char>)
    requires
        scan(p).1.len() == 0,
    ensures
        closed(p) == p,
{
    assert(closed(p) =~= p);
}

/// Closing a prefix a second time adds nothing, unless the prefix ends inside
/// an open quote (the closers appended the first time then stand inside it).
pub proof fn close_is_idempotent(p: Seq<char>)
    requires
        scan(p).0 is None,
    ensures
        closed(closed(p)) == closed(p),
{
    let st = scan(p);
    lemma_scan_only_closers((None, Seq::empty()), p);
    lemma_scan_concat((None, Seq::empty()), p, closers(st.1));
    assert(st == (None::<char>, st.1));
    lemma_closers_drain(st.1);
    assert(scan(closed(p)).1.len() == 0);
    assert(closed(closed(p)) =~= closed(p));
}

} // verus!
