//! The commands that run without a window and exit at once, for external
//! integrations such as a status-bar widget: `--query <text>`, `--swap`,
//! `--status` and `--usage`.
use vstd::prelude::*;
use vstd::string::*;
use crate::text::text_eq;
use crate::window::{any_arg, has_arg};

verus! {

/// A command that runs without the window.
#[derive(Debug)]
pub enum HeadlessCommand {
    /// Translate the text and print the result.
    Query(String),
    /// Swap the language pair and print it.
    Swap,
    /// Print the language pair.
    Status,
    /// Print the usage summary.
    Usage,
}

/// The index of the first argument equal to `flag`, or -1, read from left
/// to right.
pub open spec fn first_arg(args: Seq<String>, flag: Seq<char>) -> int
    decreases args.len(),
{
    if args.len() == 0 {
        -1
    } else {
        let p = first_arg(args.drop_last(), flag);
        if p >= 0 {
            p
        } else if args.last()@ == flag {
            args.len() - 1
        } else {
            -1
        }
    }
}

proof fn lemma_first_arg(args: Seq<String>, flag: Seq<char>)
    ensures
        -1 <= first_arg(args, flag) < args.len(),
        first_arg(args, flag) >= 0 ==> args[first_arg(args, flag)]@ == flag,
        first_arg(args, flag) >= 0 <==> has_arg(args, flag),
    decreases args.len(),
{
    if args.len() > 0 {
        let p = args.drop_last();
        lemma_first_arg(p, flag);
        if has_arg(args, flag) && first_arg(p, flag) < 0 && args.last()@ != flag {
            let i = choose|i: int| 0 <= i < args.len() && (#[trigger] args[i])@ == flag;
            assert(i != args.len() - 1);
            assert(p[i] == args[i]);
        }
        if first_arg(p, flag) >= 0 {
            assert(p[first_arg(p, flag)] == args[first_arg(p, flag)]);
        }
        if first_arg(args, flag) >= 0 {
            let k = first_arg(args, flag);
            assert(args[k]@ == flag);
        }
    }
}

/// The text given after the first `--query`, or nothing when it is last.
pub open spec fn query_text(args: Seq<String>) -> Seq<char> {
    let p = first_arg(args, "--query"@);
    if 0 <= p && p + 1 < args.len() {
        args[p + 1]@
    } else {
        seq![]
    }
}

fn first_arg_index(args: &Vec<String>, flag: &str) -> (r: Option<usize>)
    ensures
        r matches Some(i) ==> i as int == first_arg(args@, flag@),
        r is None ==> first_arg(args@, flag@) == -1,
{
    proof {
        lemma_first_arg(args@, flag@);
    }
    for i in 0..args.len()
        invariant
            first_arg(args@.take(i as int), flag@) == -1,
    {
        assert(args@.take(i + 1).drop_last() =~= args@.take(i as int));
        assert(args@.take(i + 1).last() == args@[i as int]);
        if text_eq(args[i].as_str(), flag) {
            proof {
                assert(first_arg(args@.take(i + 1), flag@) == i);
                lemma_first_arg_prefix(args@, flag@, i + 1);
            }
            return Some(i);
        }
    }
    assert(args@.take(args@.len() as int) =~= args@);
    None
}

/// Once an argument equal to `flag` sits in the first `n`, the first such
/// argument of the whole list is the first among them.
proof fn lemma_first_arg_prefix(args: Seq<String>, flag: Seq<char>, n: int)
    requires
        0 <= n <= args.len(),
        first_arg(args.take(n), flag) >= 0,
    ensures
        first_arg(args, flag) == first_arg(args.take(n), flag),
    decreases args.len() - n,
{
    if n < args.len() {
        assert(args.take(n + 1).drop_last() =~= args.take(n));
        lemma_first_arg_prefix(args, flag, n + 1);
    } else {
        assert(args.take(n) =~= args);
    }
}

/// The command the arguments ask for: `--query` wins over `--swap`, which
/// wins over `--status`, which wins over `--usage`; none of them means the
/// window should run.
pub fn headless_command(args: &Vec<String>) -> (r: Option<HeadlessCommand>)
    ensures
        (r matches Some(HeadlessCommand::Query(_))) <==> has_arg(args@, "--query"@),
        r matches Some(HeadlessCommand::Query(t)) ==> t@ == query_text(args@),
        (r matches Some(HeadlessCommand::Swap)) <==> !has_arg(args@, "--query"@) && has_arg(
            args@,
            "--swap"@,
        ),
        (r matches Some(HeadlessCommand::Status)) <==> !has_arg(args@, "--query"@) && !has_arg(
            args@,
            "--swap"@,
        ) && has_arg(args@, "--status"@),
        (r matches Some(HeadlessCommand::Usage)) <==> !has_arg(args@, "--query"@) && !has_arg(
            args@,
            "--swap"@,
        ) && !has_arg(args@, "--status"@) && has_arg(args@, "--usage"@),
{
    proof {
        lemma_first_arg(args@, "--query"@);
    }
    match first_arg_index(args, "--query") {
        Some(pos) => {
            let text = if pos < args.len() - 1 {
                args[pos + 1].clone()
            } else {
                String::new()
            };
            return Some(HeadlessCommand::Query(text));
        },
        None => {},
    }
    if any_arg(args, "--swap") {
        return Some(HeadlessCommand::Swap);
    }
    if any_arg(args, "--status") {
        return Some(HeadlessCommand::Status);
    }
    if any_arg(args, "--usage") {
        return Some(HeadlessCommand::Usage);
    }
    None
}

} // verus!
