//! The script execution boundary: a host interface and the stub host.
//!
//! The stub host cannot run scripts; it records every snippet handed to it
//! and reports `Unsupported` (with the snippet count) whenever the list is
//! non-empty.  An empty list succeeds.

use vstd::prelude::*;

use crate::scripts::{ScriptSnippet, ScriptSnippetV};

verus! {

/// Why script execution failed.
#[derive(Debug, Clone, PartialEq, Eq)]
pub enum ScriptError {
    Unsupported { script_count: usize },
}

/// Something that can execute the collected script snippets.
pub trait ScriptHost {
    fn execute(&mut self, scripts: &[ScriptSnippet]) -> Result<(), ScriptError>;
}

/// The views of a snippet list.
pub open spec fn snippet_views(s: Seq<ScriptSnippet>) -> Seq<ScriptSnippetV> {
    s.map_values(|x: ScriptSnippet| x@)
}

/// A host that records snippets but cannot run them.
#[derive(Debug)]
pub struct StubScriptHost {
    captured: Vec<ScriptSnippet>,
}

impl View for StubScriptHost {
    type V = Seq<ScriptSnippetV>;

    closed spec fn view(&self) -> Seq<ScriptSnippetV> {
        self.captured.deep_view()
    }
}

impl Default for StubScriptHost {
    /// A fresh host has captured nothing.
    fn default() -> (t: Self)
        ensures
            t@ == Seq::<ScriptSnippetV>::empty(),
    {
        let t = StubScriptHost { captured: Vec::new() };
        proof {
            assert(t@ =~= Seq::<ScriptSnippetV>::empty());
        }
        t
    }
}

impl StubScriptHost {
    /// Everything the host has been handed so far, oldest first.
    pub fn captured(&self) -> (r: &[ScriptSnippet])
        ensures
            snippet_views(r@) == self@,
    {
        let r = self.captured.as_slice();
        proof {
            assert(snippet_views(r@) =~= self@);
        }
        r
    }
}

impl ScriptHost for StubScriptHost {
    /// Records the snippets; succeeds exactly when the list is empty, and
    /// otherwise reports `Unsupported` with the snippet count.
    fn execute(&mut self, scripts: &[ScriptSnippet]) -> (r: Result<(), ScriptError>)
        ensures
            final(self)@ == old(self)@ + snippet_views(scripts@),
            scripts@.len() == 0 ==> r is Ok,
            scripts@.len() > 0 ==> r == Result::<(), ScriptError>::Err(
                ScriptError::Unsupported { script_count: scripts@.len() as usize },
            ),
    {
        let n = scripts.len();
        let mut k: usize = 0;
        proof {
            assert(self@ =~= old(self)@ + snippet_views(scripts@.take(0)));
        }
        while k < n
            invariant
                k <= n == scripts@.len(),
                self@ == old(self)@ + snippet_views(scripts@.take(k as int)),
            decreases n - k,
        {
            let ghost pre = self@;
            let x = vstd::slice::slice_index_get(scripts, k).clone();
            let ghost xv = x@;
            self.captured.push(x);
            k = k + 1;
            proof {
                assert(self@ =~= pre.push(xv));
                assert(snippet_views(scripts@.take(k as int)) =~= snippet_views(
                    scripts@.take(k - 1),
                ).push(scripts@[k - 1]@));
                assert(self@ =~= old(self)@ + snippet_views(scripts@.take(k as int)));
            }
        }
        proof {
            assert(scripts@.take(n as int) =~= scripts@);
        }
        if n == 0 {
            Ok(())
        } else {
            Err(ScriptError::Unsupported { script_count: n })
        }
    }
}

} // verus!
