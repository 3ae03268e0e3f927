//! Builtin command dispatch. A command line is resolved against the fixed
//! set of builtin names; a recognized builtin is handled synchronously
//! against the process table and yields the action the shell must perform,
//! while an unrecognized name falls through to the external launcher.
use vstd::prelude::*;

use crate::jobs::ProcessTable;
use crate::text::{
    join_spaces, lemma_join_first, parse_u32, spec_digits, spec_join_sp, spec_parse_u32,
    spec_whitespace, str_eq, u32_to_string,
};
use crate::tokenize::{
    parse_line, spec_background, spec_strip_background, spec_tokens, spec_wsfree_token,
    CommandLine,
};

verus! {

/// The closed set of builtin commands.
#[derive(Clone, Copy, Debug, PartialEq, Eq, Structural)]
pub enum Builtin {
    Calc,
    Exit,
    Cd,
    Pwd,
    Clear,
    Jobs,
    Kill,
}

/// Which builtin a command name denotes, by exact, case-sensitive match.
pub open spec fn spec_recognize(cmd: Seq<char>) -> Option<Builtin> {
    if cmd == "calc"@ {
        Some(Builtin::Calc)
    } else if cmd == "exit"@ {
        Some(Builtin::Exit)
    } else if cmd == "cd"@ {
        Some(Builtin::Cd)
    } else if cmd == "pwd"@ {
        Some(Builtin::Pwd)
    } else if cmd == "clear"@ {
        Some(Builtin::Clear)
    } else if cmd == "jobs"@ {
        Some(Builtin::Jobs)
    } else if cmd == "kill"@ {
        Some(Builtin::Kill)
    } else {
        None
    }
}

/// Resolve a command name against the builtin set.
pub fn recognize_builtin(cmd: &str) -> (r: Option<Builtin>)
    ensures
        r == spec_recognize(cmd@),
{
    if str_eq(cmd, "calc") {
        Some(Builtin::Calc)
    } else if str_eq(cmd, "exit") {
        Some(Builtin::Exit)
    } else if str_eq(cmd, "cd") {
        Some(Builtin::Cd)
    } else if str_eq(cmd, "pwd") {
        Some(Builtin::Pwd)
    } else if str_eq(cmd, "clear") {
        Some(Builtin::Clear)
    } else if str_eq(cmd, "jobs") {
        Some(Builtin::Jobs)
    } else if str_eq(cmd, "kill") {
        Some(Builtin::Kill)
    } else {
        None
    }
}

/// What the evaluation of an arithmetic expression returns: the printed
/// value on success, the printed error message on failure. The text is a
/// function of the expression alone.
pub uninterp spec fn eval_result(expr: Seq<char>) -> Result<Seq<char>, Seq<char>>;

/// Whether an expression may be handed to the evaluator: empty, or holding
/// at least one non-whitespace character. The evaluator's tokenizer panics
/// on a non-empty expression of nothing but whitespace, so those are
/// excluded.
pub open spec fn spec_evaluable(expr: Seq<char>) -> bool {
    expr.len() == 0 || exists|k: int| 0 <= k < expr.len() && !spec_whitespace(expr[k])
}

/// Relies on `meval::eval_str`: parses and evaluates an arithmetic
/// expression with the default context, a deterministic function of the
/// expression text; the value and the error are rendered with `{}`. Its
/// tokenizer panics when a non-empty expression consists only of
/// whitespace, so such expressions are excluded by `requires`.
#[verifier::external_body]
fn eval_expression(expr: &str) -> (r: Result<String, String>)
    requires
        spec_evaluable(expr@),
    ensures
        match r {
            Ok(v) => eval_result(expr@) == Ok::<Seq<char>, Seq<char>>(v@),
            Err(e) => eval_result(expr@) == Err::<Seq<char>, Seq<char>>(e@),
        },
{
    match meval::eval_str(expr) {
        Ok(v) => Ok(format!("{}", v)),
        Err(e) => Err(format!("{}", e)),
    }
}

/// The line `calc` prints for an evaluation outcome: the value itself, or
/// the error text behind a fixed prefix.
pub open spec fn spec_calc_message(outcome: Result<Seq<char>, Seq<char>>) -> Seq<char> {
    match outcome {
        Ok(v) => v,
        Err(e) => "Error evaluating expression: "@ + e,
    }
}

/// Build the `calc` reply for an evaluation outcome.
pub fn calc_message(outcome: Result<String, String>) -> (r: String)
    ensures
        r@ == spec_calc_message(
            match outcome {
                Ok(v) => Ok(v@),
                Err(e) => Err(e@),
            },
        ),
{
    match outcome {
        Ok(v) => v,
        Err(e) => {
            let mut s = String::from_str("Error evaluating expression: ");
            s.append(e.as_str());
            s
        },
    }
}

/// Everything `calc` prints for an argument list: a usage line when there
/// are no arguments, otherwise the outcome of evaluating the arguments
/// joined by single spaces.
pub open spec fn spec_calc_output(args: Seq<Seq<char>>) -> Seq<char> {
    if args.len() == 0 {
        "Usage: calc <expression>"@
    } else {
        spec_calc_message(eval_result(spec_join_sp(args)))
    }
}

/// Run `calc` on its argument tokens and build the line it prints. The
/// arguments must be tokens as the tokenizer yields them — nonempty and
/// whitespace-free — so the joined expression can be evaluated.
pub fn calc_output(args: &Vec<String>) -> (r: String)
    requires
        forall|i: int|
            0 <= i < args.deep_view().len() ==> spec_wsfree_token(#[trigger] args.deep_view()[i]),
    ensures
        r@ == spec_calc_output(args.deep_view()),
{
    proof {
        assert(args.deep_view().len() == args@.len());
    }
    if args.len() == 0 {
        return String::from_str("Usage: calc <expression>");
    }
    let expr = join_spaces(args);
    proof {
        lemma_join_first(args.deep_view());
        assert(spec_evaluable(expr@)) by {
            assert(0 <= 0 < expr@.len() && !spec_whitespace(expr@[0]));
        }
    }
    let outcome = eval_expression(expr.as_str());
    calc_message(outcome)
}

/// The line printed when a background job starts.
pub fn started_job_message(pid: u32) -> (r: String)
    ensures
        r@ == "Started background job with PID "@ + spec_digits(pid as nat),
{
    let mut s = String::from_str("Started background job with PID ");
    let digits = u32_to_string(pid);
    s.append(digits.as_str());
    s
}

/// The line printed when a tracked process was terminated.
pub fn kill_success_message(pid: u32) -> (r: String)
    ensures
        r@ == "Killed process "@ + spec_digits(pid as nat),
{
    let mut s = String::from_str("Killed process ");
    let digits = u32_to_string(pid);
    s.append(digits.as_str());
    s
}

/// The line printed when terminating a tracked process failed, with the
/// underlying error text.
pub fn kill_failure_message(pid: u32, err: &str) -> (r: String)
    ensures
        r@ == "Failed to kill "@ + spec_digits(pid as nat) + ": "@ + err@,
{
    let mut s = String::from_str("Failed to kill ");
    let digits = u32_to_string(pid);
    s.append(digits.as_str());
    s.append(": ");
    s.append(err);
    s
}

/// The line printed when `kill` names an identifier that is not tracked.
pub fn no_such_process_message(pid: u32) -> (r: String)
    ensures
        r@ == "No such background process: "@ + spec_digits(pid as nat),
{
    let mut s = String::from_str("No such background process: ");
    let digits = u32_to_string(pid);
    s.append(digits.as_str());
    s
}

/// The line printed when `cd` or `pwd` fails, with the underlying error.
pub fn error_message(err: &str) -> (r: String)
    ensures
        r@ == "Error: "@ + err@,
{
    let mut s = String::from_str("Error: ");
    s.append(err);
    s
}

/// The line printed when an external command cannot be started.
pub fn run_error_message(err: &str) -> (r: String)
    ensures
        r@ == "Error running command: "@ + err@,
{
    let mut s = String::from_str("Error running command: ");
    s.append(err);
    s
}

/// The line printed when waiting on a foreground process fails.
pub fn wait_error_message(err: &str) -> (r: String)
    ensures
        r@ == "Error waiting on process: "@ + err@,
{
    let mut s = String::from_str("Error waiting on process: ");
    s.append(err);
    s
}

/// What `jobs` prints: one line per tracked identifier in enumeration
/// order, or a single placeholder line when nothing is tracked.
pub open spec fn spec_jobs_lines(ids: Seq<u32>) -> Seq<Seq<char>> {
    if ids.len() == 0 {
        seq!["No background jobs"@]
    } else {
        Seq::new(ids.len(), |i: int| "PID "@ + spec_digits(ids[i] as nat) + " - Running"@)
    }
}

/// Build the lines `jobs` prints for the current table.
pub fn jobs_lines<T>(jobs: &ProcessTable<T>) -> (r: Vec<String>)
    ensures
        r.deep_view() == spec_jobs_lines(jobs.ids()),
{
    let ids = jobs.id_list();
    if ids.len() == 0 {
        let mut r: Vec<String> = Vec::new();
        r.push(String::from_str("No background jobs"));
        proof {
            assert(r.deep_view() =~= spec_jobs_lines(jobs.ids()));
        }
        return r;
    }
    let mut r: Vec<String> = Vec::new();
    let mut i: usize = 0;
    while i < ids.len()
        invariant
            i <= ids@.len(),
            ids@ == jobs.ids(),
            r.deep_view().len() == i,
            forall|k: int|
                0 <= k < i ==> r.deep_view()[k] == "PID "@ + spec_digits(ids@[k] as nat)
                    + " - Running"@,
        decreases ids@.len() - i,
    {
        let mut line = String::from_str("PID ");
        let digits = u32_to_string(ids[i]);
        line.append(digits.as_str());
        line.append(" - Running");
        let ghost pre = r.deep_view();
        let ghost linev = line@;
        r.push(line);
        proof {
            assert(linev == "PID "@ + spec_digits(ids@[i as int] as nat) + " - Running"@);
            assert(forall|k: int| 0 <= k < i ==> r@[k] == #[trigger] r@.subrange(0, i as int)[k]);
            assert(forall|k: int| 0 <= k < i ==> r.deep_view()[k] == pre[k]);
            assert(r.deep_view()[i as int] == linev);
            assert forall|k: int| 0 <= k < i + 1 implies r.deep_view()[k] == "PID "@
                + spec_digits(ids@[k] as nat) + " - Running"@ by {
                if k < i {
                    assert(r.deep_view()[k] == pre[k]);
                } else {
                    assert(r.deep_view()[k] == linev);
                }
            }
        }
        i += 1;
    }
    proof {
        assert(r.deep_view() =~= spec_jobs_lines(jobs.ids()));
    }
    r
}

/// The effect a recognized builtin asks of the shell, beyond what was
/// already applied to the process table: print a reply, leave, change
/// directory, show the working directory, clear the screen, or terminate
/// the removed process whose handle is carried along.
pub enum BuiltinAction<T> {
    Reply(String),
    ReplyLines(Vec<String>),
    Exit,
    Chdir(String),
    Pwd,
    Clear,
    Kill(u32, T),
}

/// What `kill` leaves in the table and replies, given its argument tokens:
/// a usage line without an argument; an invalid-identifier line when the
/// argument does not parse; otherwise the record is removed exactly when it
/// is present, and only then is a termination handed out.
pub open spec fn spec_kill_outcome<T>(
    args: Seq<Seq<char>>,
    before: Map<u32, T>,
    after: Map<u32, T>,
    r: Option<BuiltinAction<T>>,
) -> bool {
    if args.len() == 0 {
        &&& after == before
        &&& (r matches Some(BuiltinAction::Reply(m)) && m@ == "Usage: kill <pid>"@)
    } else {
        match spec_parse_u32(args[0]) {
            None => {
                &&& after == before
                &&& (r matches Some(BuiltinAction::Reply(m)) && m@ == "Invalid PID"@)
            },
            Some(pid) => {
                if before.contains_key(pid) {
                    &&& after == before.remove(pid)
                    &&& (r matches Some(BuiltinAction::Kill(p, h)) && p == pid && h == before[pid])
                } else {
                    &&& after == before
                    &&& (r matches Some(BuiltinAction::Reply(m)) && m@
                        == "No such background process: "@ + spec_digits(pid as nat))
                }
            },
        }
    }
}

/// Everything one builtin dispatch decides, as a relation between the
/// command name, the argument tokens, the table before and after the call,
/// and the returned action. Only `kill` ever changes the table, and only by
/// removing the named record.
pub open spec fn spec_builtin_outcome<T>(
    cmd: Seq<char>,
    args: Seq<Seq<char>>,
    before: ProcessTable<T>,
    after: ProcessTable<T>,
    r: Option<BuiltinAction<T>>,
) -> bool {
    match spec_recognize(cmd) {
        None => after == before && r is None,
        Some(Builtin::Calc) => {
            &&& after == before
            &&& (r matches Some(BuiltinAction::Reply(m)) && m@ == spec_calc_output(args))
        },
        Some(Builtin::Exit) => {
            &&& after == before
            &&& (r matches Some(BuiltinAction::Exit))
        },
        Some(Builtin::Cd) => {
            &&& after == before
            &&& (r matches Some(BuiltinAction::Chdir(d)) && d@ == (if args.len() > 0 {
                args[0]
            } else {
                "."@
            }))
        },
        Some(Builtin::Pwd) => {
            &&& after == before
            &&& (r matches Some(BuiltinAction::Pwd))
        },
        Some(Builtin::Clear) => {
            &&& after == before
            &&& (r matches Some(BuiltinAction::Clear))
        },
        Some(Builtin::Jobs) => {
            &&& after == before
            &&& (r matches Some(BuiltinAction::ReplyLines(lines)) && lines.deep_view()
                == spec_jobs_lines(before.ids()))
        },
        Some(Builtin::Kill) => spec_kill_outcome(args, before@, after@, r),
    }
}

/// Dispatch one command against the builtin set. `None` means the name is
/// no builtin and the caller must launch an external program; `Some`
/// carries the action the shell still has to perform. For `calc`, the
/// arguments must be tokens as the tokenizer yields them, so that the
/// rebuilt expression can be evaluated.
pub fn run_builtin<T>(cmd: &str, args: &Vec<String>, jobs: &mut ProcessTable<T>) -> (r: Option<
    BuiltinAction<T>,
>)
    requires
        spec_recognize(cmd@) == Some(Builtin::Calc) ==> forall|i: int|
            0 <= i < args.deep_view().len() ==> spec_wsfree_token(#[trigger] args.deep_view()[i]),
    ensures
        r is None <==> spec_recognize(cmd@) is None,
        spec_builtin_outcome(cmd@, args.deep_view(), *old(jobs), *final(jobs), r),
{
    proof {
        assert(args.deep_view().len() == args@.len());
    }
    match recognize_builtin(cmd) {
        None => None,
        Some(Builtin::Calc) => Some(BuiltinAction::Reply(calc_output(args))),
        Some(Builtin::Exit) => Some(BuiltinAction::Exit),
        Some(Builtin::Cd) => {
            let d = if args.len() > 0 {
                proof {
                    assert(args.deep_view()[0] == args@[0]@);
                }
                args[0].clone()
            } else {
                String::from_str(".")
            };
            Some(BuiltinAction::Chdir(d))
        },
        Some(Builtin::Pwd) => Some(BuiltinAction::Pwd),
        Some(Builtin::Clear) => Some(BuiltinAction::Clear),
        Some(Builtin::Jobs) => Some(BuiltinAction::ReplyLines(jobs_lines(jobs))),
        Some(Builtin::Kill) => {
            if args.len() == 0 {
                return Some(BuiltinAction::Reply(String::from_str("Usage: kill <pid>")));
            }
            proof {
                assert(args.deep_view()[0] == args@[0]@);
            }
            match parse_u32(args[0].as_str()) {
                None => Some(BuiltinAction::Reply(String::from_str("Invalid PID"))),
                Some(pid) => match jobs.remove(pid) {
                    Some(h) => Some(BuiltinAction::Kill(pid, h)),
                    None => Some(BuiltinAction::Reply(no_such_process_message(pid))),
                },
            }
        },
    }
}

/// One full dispatch step on a preprocessed line: tokenize it, read off the
/// command, and run it against the builtin set. `None` when the line holds
/// no command (only whitespace, or a lone background marker) — the shell
/// skips the iteration. Otherwise the parsed command comes back with the
/// builtin outcome; `None` there means the shell must launch the command as
/// an external program.
pub fn dispatch_line<T>(line: &str, jobs: &mut ProcessTable<T>) -> (r: Option<
    (CommandLine, Option<BuiltinAction<T>>),
>)
    ensures
        match r {
            None => {
                &&& spec_strip_background(spec_tokens(line@)).len() == 0
                &&& *final(jobs) == *old(jobs)
            },
            Some((cmd, action)) => {
                let stripped = spec_strip_background(spec_tokens(line@));
                &&& stripped.len() > 0
                &&& cmd.background == spec_background(spec_tokens(line@))
                &&& cmd.name@ == stripped[0]
                &&& cmd.args.deep_view() == stripped.skip(1)
                &&& (action is None <==> spec_recognize(cmd.name@) is None)
                &&& spec_builtin_outcome(
                    cmd.name@,
                    cmd.args.deep_view(),
                    *old(jobs),
                    *final(jobs),
                    action,
                )
            },
        },
{
    match parse_line(line) {
        None => None,
        Some(cmd) => {
            let action = run_builtin(cmd.name.as_str(), &cmd.args, jobs);
            Some((cmd, action))
        },
    }
}

/// Record a successful background launch in the table and build the line
/// the shell prints for it. The caller guarantees a fresh identifier, as
/// the operating system does for concurrently live children.
pub fn register_background_job<T>(jobs: &mut ProcessTable<T>, pid: u32, handle: T) -> (msg: String)
    requires
        !old(jobs)@.contains_key(pid),
    ensures
        final(jobs)@ == old(jobs)@.insert(pid, handle),
        final(jobs).ids() == old(jobs).ids().push(pid),
        msg@ == "Started background job with PID "@ + spec_digits(pid as nat),
{
    jobs.insert(pid, handle);
    started_job_message(pid)
}

} // verus!
