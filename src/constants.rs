use vstd::prelude::*;
use crate::errors::{CompletionError, CrushResult};
use crate::scope::{is_copy, Scope, Value};

verus! {

/// Declares in `root` the read-only namespace `constants`, holding `true`,
/// `false`, and `global`: a snapshot of `root` as it was before the call.
pub fn declare(root: &mut Scope) -> (r: CrushResult<()>)
    requires
        old(root).wf(),
    ensures
        final(root).wf(),
        old(root).spec_read_only() ==> r == Err::<(), CompletionError>(CompletionError::ReadOnlyScope),
        !old(root).spec_read_only() && old(root).lookup("constants"@) is Some ==> r == Err::<(), CompletionError>(
            CompletionError::AlreadyDeclared,
        ),
        !old(root).spec_read_only() && old(root).lookup("constants"@) is None ==> {
            &&& r is Ok
            &&& final(root).spec_names() == old(root).spec_names().push("constants"@)
            &&& final(root).lookup("constants"@) matches Some(Value::Scope(env))
            &&& env.spec_names() == seq!["true"@, "false"@, "global"@]
            &&& env.spec_read_only()
            &&& env.lookup("true"@) == Some(Value::Bool(true))
            &&& env.lookup("false"@) == Some(Value::Bool(false))
            &&& env.lookup("global"@) matches Some(Value::Scope(g))
            &&& g.spec_names() == old(root).spec_names()
            &&& g.spec_read_only() == old(root).spec_read_only()
            &&& forall|n: Seq<char>| match #[trigger] old(root).lookup(n) {
                Some(v) => g.lookup(n) matches Some(w) && is_copy(w, v),
                None => g.lookup(n) is None,
            }
        },
{
    let mut env = Scope::create_root();
    assert(env.lookup("true"@) is None);
    let snap = root.snapshot();
    let ghost snap_v = snap;
    let global = Value::Scope(snap);
    proof {
        reveal_strlit("true");
        reveal_strlit("false");
        reveal_strlit("global");
        reveal_strlit("constants");
    }
    let a = env.declare("true", Value::Bool(true));
    assert(a is Ok);
    assert(env.lookup("false"@) is None) by {
        assert(env.spec_names() =~= seq!["true"@]);
        assert("false"@ != "true"@) by {
            assert("false"@.len() != "true"@.len());
        }
        assert(!env.spec_names().contains("false"@)) by {
            if env.spec_names().contains("false"@) {
                let i = choose|i: int| 0 <= i < env.spec_names().len() && env.spec_names()[i] == "false"@;
                assert(i == 0);
            }
        }
        env.lookup_absent("false"@);
    }
    let b = env.declare("false", Value::Bool(false));
    assert(b is Ok);
    assert(env.lookup("global"@) is None) by {
        assert("global"@ != "true"@) by {
            assert("global"@.len() != "true"@.len());
        }
        assert("global"@ != "false"@) by {
            assert("global"@.len() != "false"@.len());
        }
        assert(env.spec_names() =~= seq!["true"@, "false"@]);
        assert(!env.spec_names().contains("global"@)) by {
            if env.spec_names().contains("global"@) {
                let i = choose|i: int| 0 <= i < env.spec_names().len() && env.spec_names()[i] == "global"@;
                assert(i == 0 || i == 1);
            }
        }
        env.lookup_absent("global"@);
    }
    let c = env.declare("global", global);
    assert(c is Ok);
    assert(env.spec_names() =~= seq!["true"@, "false"@, "global"@]);
    assert(env.lookup("true"@) == Some(Value::Bool(true))) by {
        assert("true"@ != "global"@) by {
            assert("true"@.len() != "global"@.len());
        }
        assert("true"@ != "false"@) by {
            assert("true"@.len() != "false"@.len());
        }
    }
    assert(env.lookup("false"@) == Some(Value::Bool(false))) by {
        assert("false"@ != "global"@) by {
            assert("false"@.len() != "global"@.len());
        }
    }
    env.set_read_only();
    root.declare("constants", Value::Scope(env))
}

} // verus!
