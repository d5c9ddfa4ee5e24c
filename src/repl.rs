use vstd::prelude::*;
use crate::eval::{Error, Evaluator, run_text};
use crate::operators::result_view;
use crate::lexer::push_char;
use crate::values::Value;

verus! {

/// `line` without one trailing `\n` and then one trailing `\r`.
pub open spec fn stripped(line: Seq<char>) -> Seq<char> {
    let a = if line.len() > 0 && line.last() == '\n' {
        line.drop_last()
    } else {
        line
    };
    if a.len() > 0 && a.last() == '\r' {
        a.drop_last()
    } else {
        a
    }
}

/// `line` without its line ending.
pub fn strip_line_ending(line: &str) -> (r: String)
    ensures
        r@ == stripped(line@),
{
    let n = line.unicode_len();
    let mut end = n;
    if end > 0 && line.get_char(end - 1) == '\n' {
        end = end - 1;
    }
    if end > 0 && line.get_char(end - 1) == '\r' {
        end = end - 1;
    }
    assert(stripped(line@) =~= line@.take(end as int));
    let mut r = String::new();
    let mut k: usize = 0;
    while k < end
        invariant
            end <= n,
            n == line@.len(),
            k <= end,
            r@ == line@.take(k as int),
        decreases end - k,
    {
        push_char(&mut r, line.get_char(k));
        assert(r@ =~= line@.take(k + 1));
        k = k + 1;
    }
    r
}

/// A session: one evaluator whose definitions last from line to line.
pub struct Repl {
    pub evaluator: Evaluator,
}

impl Repl {
    pub fn new() -> (r: Repl)
        ensures
            r.evaluator.wf(),
            r.evaluator@ == seq![Seq::<crate::eval::Binding>::empty()],
    {
        Repl { evaluator: Evaluator::new() }
    }

    /// Evaluates one line as read, line ending included.
    pub fn evaluate_line(&mut self, line: &str) -> (r: Result<Vec<Value>, Error>)
        requires
            old(self).evaluator.wf(),
        ensures
            final(self).evaluator.wf(),
            (final(self).evaluator@, result_view(r)) == run_text(old(self).evaluator@, stripped(line@)),
    {
        let code = strip_line_ending(line);
        self.evaluator.evaluate(code)
    }
}

} // verus!
