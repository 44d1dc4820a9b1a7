//! What the arguments of an evaluation do.

use crate::evaluation::{
    default_settings, outcome, parse_from, texts, Command, Config, Parsed, Settings,
};
use vstd::prelude::*;

verus! {

/// No two arguments that are known are equal.
proof fn arguments_differ()
    ensures
        "--dataset"@.len() == 9,
        "--index"@.len() == 7,
        "--edge-only"@.len() == 11,
        "--all-mismatches"@.len() == 16,
        "--help"@.len() == 6,
        "-h"@.len() == 2,
{
    reveal_strlit("--dataset");
    reveal_strlit("--index");
    reveal_strlit("--edge-only");
    reveal_strlit("--all-mismatches");
    reveal_strlit("--help");
    reveal_strlit("-h");
}

/// Without arguments the default paths are used, everything is evaluated, and the first
/// mismatches are listed.
pub proof fn defaults()
    ensures
        default_settings().dataset == "spec/test/test-data.json"@,
        default_settings().index == "resources/index.bin"@,
        !default_settings().edge_only,
        !default_settings().show_all,
{
}

/// After the last argument the settings are those made so far.
pub proof fn arguments_end(args: Seq<Seq<char>>, s: Settings)
    ensures
        parse_from(args, args.len() as int, s) == (Parsed::Run { settings: s }),
{
}

/// An option with a path takes the argument after it, whatever that is, and changes nothing but
/// its path; without one it is a fault.
pub proof fn path_options(args: Seq<Seq<char>>, i: int, s: Settings)
    requires
        0 <= i < args.len(),
    ensures
        args[i] == "--dataset"@ && i + 1 < args.len() ==> parse_from(args, i, s) == parse_from(
            args,
            i + 2,
            Settings {
                dataset: args[i + 1],
                index: s.index,
                edge_only: s.edge_only,
                show_all: s.show_all,
            },
        ),
        args[i] == "--dataset"@ && i + 1 == args.len() ==> parse_from(args, i, s)
            == (Parsed::Fault { text: "missing value for --dataset"@ }),
        args[i] == "--index"@ && i + 1 < args.len() ==> parse_from(args, i, s) == parse_from(
            args,
            i + 2,
            Settings {
                dataset: s.dataset,
                index: args[i + 1],
                edge_only: s.edge_only,
                show_all: s.show_all,
            },
        ),
        args[i] == "--index"@ && i + 1 == args.len() ==> parse_from(args, i, s) == (Parsed::Fault {
            text: "missing value for --index"@,
        }),
{
    arguments_differ();
}

/// A switch is turned on and changes nothing else.
pub proof fn switches(args: Seq<Seq<char>>, i: int, s: Settings)
    requires
        0 <= i < args.len(),
    ensures
        args[i] == "--edge-only"@ ==> parse_from(args, i, s) == parse_from(
            args,
            i + 1,
            Settings {
                dataset: s.dataset,
                index: s.index,
                edge_only: true,
                show_all: s.show_all,
            },
        ),
        args[i] == "--all-mismatches"@ ==> parse_from(args, i, s) == parse_from(
            args,
            i + 1,
            Settings {
                dataset: s.dataset,
                index: s.index,
                edge_only: s.edge_only,
                show_all: true,
            },
        ),
{
    arguments_differ();
}

/// Help ends the reading of arguments, and so does an argument that is not known, which is
/// named.
pub proof fn last_arguments(args: Seq<Seq<char>>, i: int, s: Settings)
    requires
        0 <= i < args.len(),
    ensures
        args[i] == "--help"@ || args[i] == "-h"@ ==> parse_from(args, i, s) == Parsed::Help,
        args[i] != "--dataset"@ && args[i] != "--index"@ && args[i] != "--edge-only"@ && args[i]
            != "--all-mismatches"@ && args[i] != "--help"@ && args[i] != "-h"@ ==> parse_from(
            args,
            i,
            s,
        ) == (Parsed::Fault { text: "unknown argument: "@ + args[i] }),
{
    arguments_differ();
}

/// Switches may be given in either order.
pub proof fn switches_commute(args: Seq<Seq<char>>, other: Seq<Seq<char>>, i: int, s: Settings)
    requires
        0 <= i,
        i + 1 < args.len(),
        args.len() == other.len(),
        args[i] == "--edge-only"@ && args[i + 1] == "--all-mismatches"@,
        other[i] == "--all-mismatches"@ && other[i + 1] == "--edge-only"@,
        forall|j: int| i + 1 < j < args.len() ==> args[j] == other[j],
    ensures
        parse_from(args, i, s) == parse_from(other, i, s),
{
    switches(args, i, s);
    switches(args, i + 1, Settings { edge_only: true, ..s });
    switches(other, i, s);
    switches(other, i + 1, Settings { show_all: true, ..s });
    parse_of_rest(args, other, i + 2, Settings { edge_only: true, show_all: true, ..s });
}

proof fn parse_of_rest(args: Seq<Seq<char>>, other: Seq<Seq<char>>, i: int, s: Settings)
    requires
        args.len() == other.len(),
        0 <= i,
        forall|j: int| i <= j < args.len() ==> args[j] == other[j],
    ensures
        parse_from(args, i, s) == parse_from(other, i, s),
    decreases args.len() - i,
{
    if i < args.len() {
        assert(args[i] == other[i]);
        if i + 1 < args.len() {
            assert(args[i + 1] == other[i + 1]);
            parse_of_rest(args, other, i + 2, Settings { dataset: args[i + 1], ..s });
            parse_of_rest(args, other, i + 2, Settings { index: args[i + 1], ..s });
        }
        parse_of_rest(args, other, i + 1, Settings { edge_only: true, ..s });
        parse_of_rest(args, other, i + 1, Settings { show_all: true, ..s });
    }
}

/// What is read of a command line is what the settings hold.
pub proof fn settings_of_config(config: Config, args: Seq<String>, i: int, text: String)
    requires
        0 <= i < args.len(),
    ensures
        config@.dataset == config.dataset_path@,
        config@.index == config.index_path@,
        config@.edge_only == config.edge_only,
        config@.show_all == config.show_all_mismatches,
        outcome(Ok(Command::Run { config })) == (Parsed::Run { settings: config@ }),
        outcome(Ok(Command::Help)) == Parsed::Help,
        outcome(Err(text)) == (Parsed::Fault { text: text@ }),
        texts(args).len() == args.len(),
        texts(args)[i] == args[i]@,
{
}

} // verus!
