//! The per-job task model: a name, a program and its argument list.
//!
//! The process handle itself is owned by the caller that spawns and
//! signals; the scheduler's bookkeeping works on these values alone.
use vstd::prelude::*;
use vstd::string::StrSliceExecFns;
use vstd::string::StringExecFns;
use crate::text::lines_of;
use crate::text::split_lines;
use crate::text::split_tokens;
use crate::text::tokens_of;
use crate::text::trim_str;
use crate::text::trimmed;

verus! {

/// One external command invocation managed end to end by the scheduler.
pub struct Task {
    pub name: String,
    pub prog: String,
    pub args: Vec<String>,
}

/// The first token of a command line; an empty command has an empty program.
pub open spec fn prog_of(cmd: Seq<char>) -> Seq<char> {
    if tokens_of(cmd).len() == 0 {
        Seq::<char>::empty()
    } else {
        tokens_of(cmd).first()
    }
}

/// Every token of a command line after the first.
pub open spec fn args_of(cmd: Seq<char>) -> Seq<Seq<char>> {
    if tokens_of(cmd).len() == 0 {
        Seq::<Seq<char>>::empty()
    } else {
        tokens_of(cmd).drop_first()
    }
}

/// Compares two argument lists by their character contents.
pub fn string_vecs_equal(a: &Vec<String>, b: &Vec<String>) -> (r: bool)
    ensures
        r == (a.deep_view() == b.deep_view()),
{
    if a.len() != b.len() {
        proof {
            assert(a.deep_view().len() != b.deep_view().len());
        }
        return false;
    }
    let mut i: usize = 0;
    while i < a.len()
        invariant
            a@.len() == b@.len(),
            0 <= i <= a@.len(),
            forall|k: int| 0 <= k < i ==> a@[k]@ == b@[k]@,
        decreases a@.len() - i,
    {
        if !(a[i] == b[i]) {
            proof {
                assert(a.deep_view()[i as int] != b.deep_view()[i as int]);
            }
            return false;
        }
        i = i + 1;
    }
    proof {
        assert(a.deep_view() =~~= b.deep_view());
    }
    true
}

impl Task {
    /// Builds a task from its name and its command line: the first
    /// whitespace-separated token of `cmd` is the program, the remaining
    /// tokens are its arguments. The constructor performs no process or
    /// file system work.
    pub fn new(name: &str, cmd: &str) -> (t: Task)
        ensures
            t.name@ == name@,
            t.prog@ == prog_of(cmd@),
            t.args.deep_view() == args_of(cmd@),
    {
        let mut toks = split_tokens(cmd);
        if toks.len() == 0 {
            let t = Task { name: name.to_owned(), prog: String::new(), args: Vec::new() };
            proof {
                assert(t.args.deep_view() =~~= args_of(cmd@));
            }
            t
        } else {
            let ghost whole = toks.deep_view();
            let prog = toks.remove(0);
            let t = Task { name: name.to_owned(), prog, args: toks };
            proof {
                assert(t.prog@ == whole.first());
                assert(t.args.deep_view() =~~= whole.drop_first());
            }
            t
        }
    }
}

impl PartialEq for Task {
    /// Name, program and arguments together decide equality; it is used
    /// for deduplication and logging only.
    fn eq(&self, other: &Self) -> (r: bool) {
        self.name == other.name && self.prog == other.prog && string_vecs_equal(
            &self.args,
            &other.args,
        )
    }
}

impl vstd::std_specs::cmp::PartialEqSpecImpl for Task {
    open spec fn obeys_eq_spec() -> bool {
        true
    }

    open spec fn eq_spec(&self, other: &Task) -> bool {
        self.name@ == other.name@ && self.prog@ == other.prog@ && self.args.deep_view()
            == other.args.deep_view()
    }
}

/// The trailing-space rendering of an argument list.
pub open spec fn args_blob(args: Seq<Seq<char>>) -> Seq<char>
    decreases args.len(),
{
    if args.len() == 0 {
        Seq::<char>::empty()
    } else {
        args_blob(args.drop_last()) + args.last() + seq![' ']
    }
}

/// The log rendering of a task: name, program and arguments, each
/// argument followed by one space.
pub open spec fn describe_of(t: Task) -> Seq<char> {
    t.name@ + seq![' '] + t.prog@ + seq![' '] + args_blob(t.args.deep_view())
}

impl Task {
    /// Renders the task for log lines.
    pub fn describe(&self) -> (r: String)
        ensures
            r@ == describe_of(*self),
    {
        proof {
            reveal_strlit(" ");
        }
        let mut r = String::new();
        r.append(self.name.as_str());
        r.append(" ");
        r.append(self.prog.as_str());
        r.append(" ");
        let ghost deep = self.args.deep_view();
        proof {
            assert(" "@ =~= seq![' ']);
            assert(deep.take(0) =~= Seq::<Seq<char>>::empty());
            assert(r@ =~= self.name@ + seq![' '] + self.prog@ + seq![' '] + args_blob(deep.take(0)));
        }
        let mut i: usize = 0;
        while i < self.args.len()
            invariant
                deep == self.args.deep_view(),
                0 <= i <= self.args@.len(),
                r@ == self.name@ + seq![' '] + self.prog@ + seq![' '] + args_blob(
                    deep.take(i as int),
                ),
            decreases self.args@.len() - i,
        {
            r.append(self.args[i].as_str());
            r.append(" ");
            proof {
                reveal_strlit(" ");
                assert(" "@ =~= seq![' ']);
                assert(deep.take(i + 1).drop_last() =~= deep.take(i as int));
                assert(deep.take(i + 1).last() == self.args@[i as int]@);
                assert(r@ =~= self.name@ + seq![' '] + self.prog@ + seq![' '] + args_blob(
                    deep.take(i + 1),
                ));
            }
            i = i + 1;
        }
        proof {
            assert(deep.take(self.args@.len() as int) =~= deep);
        }
        r
    }

    /// Replaces the argument list, leaving name and program untouched.
    pub fn args(&mut self, args: Vec<String>)
        ensures
            final(self).args == args,
            final(self).name == old(self).name,
            final(self).prog == old(self).prog,
    {
        self.args = args;
    }
}

/// The last token of a job line: the job's unique name.
pub open spec fn job_name(line: Seq<char>) -> Seq<char> {
    tokens_of(line).last()
}

/// The first token of a job line: the program to run.
pub open spec fn job_prog(line: Seq<char>) -> Seq<char> {
    tokens_of(line).first()
}

/// The tokens of a job line between the program and the name.
pub open spec fn job_args(line: Seq<char>) -> Seq<Seq<char>> {
    if tokens_of(line).len() <= 1 {
        Seq::<Seq<char>>::empty()
    } else {
        tokens_of(line).subrange(1, tokens_of(line).len() - 1)
    }
}

/// Reads a job list: one job per line, fields separated by whitespace,
/// the last token being the job's name and the preceding tokens the
/// program and its arguments. A file that is blank after trimming holds
/// no jobs; a line without any token refuses the whole list.
pub fn tasks_from_list(contents: &str) -> (r: Option<Vec<Task>>)
    ensures
        trimmed(contents@).len() == 0 ==> r is Some && r.unwrap()@.len() == 0,
        trimmed(contents@).len() > 0 ==> {
            let ls = lines_of(trimmed(contents@));
            &&& (r is Some <==> (forall|i: int| 0 <= i < ls.len() ==> tokens_of(ls[i]).len() > 0))
            &&& (r is Some ==> {
                let ts = r.unwrap()@;
                &&& ts.len() == ls.len()
                &&& (forall|i: int|
                    0 <= i < ls.len() ==> #[trigger] ts[i].name@ == job_name(ls[i])
                        && ts[i].prog@ == job_prog(ls[i]) && ts[i].args.deep_view() == job_args(
                        ls[i],
                    ))
            })
        },
{
    let t = trim_str(contents);
    if t.as_str().unicode_len() == 0 {
        let empty: Vec<Task> = Vec::new();
        return Some(empty);
    }
    let lines = split_lines(t.as_str());
    let ghost ls = lines_of(trimmed(contents@));
    let mut ts: Vec<Task> = Vec::new();
    let mut i: usize = 0;
    while i < lines.len()
        invariant
            lines.deep_view() == ls,
            ls == lines_of(trimmed(contents@)),
            trimmed(contents@).len() > 0,
            ts@.len() == i,
            0 <= i <= lines@.len(),
            forall|k: int|
                0 <= k < i ==> #[trigger] tokens_of(ls[k]).len() > 0 && ts@[k].name@ == job_name(
                    ls[k],
                ) && ts@[k].prog@ == job_prog(ls[k]) && ts@[k].args.deep_view() == job_args(ls[k]),
        decreases lines@.len() - i,
    {
        let toks = split_tokens(lines[i].as_str());
        proof {
            assert(lines@[i as int]@ == lines.deep_view()[i as int]);
            assert(toks.deep_view() == tokens_of(ls[i as int]));
        }
        if toks.len() == 0 {
            proof {
                assert(tokens_of(ls[i as int]).len() == 0);
            }
            return None;
        }
        let name = toks[toks.len() - 1].clone();
        let prog = toks[0].clone();
        let mut args: Vec<String> = Vec::new();
        let mut k: usize = 1;
        while k < toks.len() - 1
            invariant
                toks@.len() >= 1,
                1 <= k <= toks@.len(),
                toks@.len() >= 2 ==> k <= toks@.len() - 1,
                args@.len() == k - 1,
                forall|j: int| 0 <= j < k - 1 ==> args@[j] == toks@[j + 1],
            decreases toks@.len() - k,
        {
            args.push(toks[k].clone());
            k = k + 1;
        }
        let task = Task { name, prog, args };
        proof {
            let tk = tokens_of(ls[i as int]);
            assert(task.name@ == toks.deep_view()[toks@.len() - 1]);
            assert(task.prog@ == toks.deep_view()[0]);
            if tk.len() <= 1 {
                assert(task.args.deep_view() =~~= job_args(ls[i as int]));
            } else {
                assert(task.args.deep_view() =~~= tk.subrange(1, tk.len() - 1));
            }
        }
        ts.push(task);
        i = i + 1;
    }
    Some(ts)
}

} // verus!
