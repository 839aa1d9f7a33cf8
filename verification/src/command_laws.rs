//! Laws of the command line: for each flag and each number of operands, which command the
//! arguments stand for. The program's own name is the first argument.

use crate::cli::{
    command_of, lemma_flamegraph_command, lemma_given, lemma_position_from, position, text_views,
    without_impl_flag, Command, CommandView,
};
use crate::text::{lemma_numeral_may_have_a_sign, u64_of};
use vstd::prelude::*;

verus! {

/// A list of arguments is seen as the texts that it holds, in order.
pub proof fn lemma_arguments_are_seen_as_they_are(args: Seq<String>)
    ensures
        text_views(args) == args.map_values(|s: String| s@),
{
    assert(text_views(args) =~= args.map_values(|s: String| s@));
}

/// A command is seen as what its fields say.
pub proof fn lemma_commands_are_seen_as_they_are(command: Command)
    ensures
        match command {
            Command::HotLoop { implementation, cert_type, secs } => command@ matches
                CommandView::HotLoop { implementation: i, cert_type: c, secs: s } && i
                == implementation@ && c == cert_type@ && s == secs,
            Command::Microbench { cert_type } => command@ matches CommandView::Microbench {
                cert_type: c,
            } && c == cert_type@,
            Command::Compare { cert_type } => command@ matches CommandView::Compare {
                cert_type: c,
            } && c == cert_type@,
            Command::Flamegraph { implementation, cert_type } => command@ matches
                CommandView::Flamegraph { implementation: i, cert_type: c } && i
                == implementation@ && c == cert_type@,
            Command::Measure { cert_type, output_path } => command@ matches
                CommandView::Measure { cert_type: c, output_path: o } && c == cert_type@ && o
                == output_path@,
        },
{
}

/// None of the flags is among the arguments.
pub open spec fn has_no_flag(args: Seq<Seq<char>>) -> bool {
    &&& !args.contains("--hotloop"@)
    &&& !args.contains("--microbench"@)
    &&& !args.contains("--compare"@)
    &&& !args.contains("--flamegraph"@)
}

proof fn lemma_no_flag_is_given(args: Seq<Seq<char>>)
    requires
        has_no_flag(args),
    ensures
        command_of(args) is Measure,
{
    lemma_given(args, "--hotloop"@);
    lemma_given(args, "--microbench"@);
    lemma_given(args, "--compare"@);
    lemma_given(args, "--flamegraph"@);
}

/// Without any argument, a measuring run uses `rsa2048` and writes `results.json`.
pub proof fn lemma_measure_without_operands(args: Seq<Seq<char>>)
    requires
        args.len() <= 1,
        !args.contains("--hotloop"@),
        !args.contains("--microbench"@),
        !args.contains("--compare"@),
        !args.contains("--flamegraph"@),
    ensures
        command_of(args) == (CommandView::Measure {
            cert_type: "rsa2048"@,
            output_path: "results.json"@,
        }),
{
    lemma_no_flag_is_given(args);
}

/// With one argument, a measuring run uses that certificate type and writes
/// `results.json`.
pub proof fn lemma_measure_with_a_cert_type(args: Seq<Seq<char>>)
    requires
        args.len() == 2,
        !args.contains("--hotloop"@),
        !args.contains("--microbench"@),
        !args.contains("--compare"@),
        !args.contains("--flamegraph"@),
    ensures
        command_of(args) == (CommandView::Measure {
            cert_type: args[1],
            output_path: "results.json"@,
        }),
{
    lemma_no_flag_is_given(args);
}

/// With two arguments or more, a measuring run uses the certificate type that is the
/// first of them and writes the file that is the second; the others are not looked at.
pub proof fn lemma_measure_with_a_cert_type_and_a_file(args: Seq<Seq<char>>)
    requires
        args.len() >= 3,
        !args.contains("--hotloop"@),
        !args.contains("--microbench"@),
        !args.contains("--compare"@),
        !args.contains("--flamegraph"@),
    ensures
        command_of(args) == (CommandView::Measure { cert_type: args[1], output_path: args[2] }),
{
    lemma_no_flag_is_given(args);
}

/// The first `flag` stands behind the arguments in which it does not occur.
proof fn lemma_flag_stands_here(
    before: Seq<Seq<char>>,
    flag: Seq<char>,
    operands: Seq<Seq<char>>,
)
    requires
        !before.contains(flag),
    ensures
        position(before.push(flag) + operands, flag) == before.len(),
        (before.push(flag) + operands).contains(flag),
        forall|i: int|
            0 <= i < operands.len() ==> #[trigger] operands[i] == (before.push(flag) + operands)[
            before.len() + 1 + i],
{
    let args = before.push(flag) + operands;
    assert(args[before.len() as int] == flag);
    lemma_position_from(args, flag, 0);
    let p = position(args, flag);
    if p < before.len() {
        assert(before[p] == flag);
        assert(before.contains(flag));
    }
}

/// The flag `--hotloop` without operands: the hot loop of s2n-tls with `rsa2048` for 20
/// seconds, whatever other flags stand before it.
pub proof fn lemma_hotloop_without_operands(before: Seq<Seq<char>>)
    requires
        !before.contains("--hotloop"@),
    ensures
        command_of(before.push("--hotloop"@)) == (CommandView::HotLoop {
            implementation: "s2n-tls"@,
            cert_type: "rsa2048"@,
            secs: 20,
        }),
{
    let args = before.push("--hotloop"@);
    assert(args + Seq::empty() =~= args);
    lemma_flag_stands_here(before, "--hotloop"@, Seq::empty());
    lemma_given(args, "--hotloop"@);
    lemma_numeral_may_have_a_sign(seq!['0']);
}

/// The flag `--hotloop` with one operand, the implementation.
pub proof fn lemma_hotloop_with_an_implementation(
    before: Seq<Seq<char>>,
    implementation: Seq<char>,
)
    requires
        !before.contains("--hotloop"@),
    ensures
        command_of(before + seq!["--hotloop"@, implementation]) == (CommandView::HotLoop {
            implementation,
            cert_type: "rsa2048"@,
            secs: 20,
        }),
{
    let operands = seq![implementation];
    let args = before + seq!["--hotloop"@, implementation];
    assert(args =~= before.push("--hotloop"@) + operands);
    lemma_flag_stands_here(before, "--hotloop"@, operands);
    lemma_given(args, "--hotloop"@);
    assert(operands[0] == args[before.len() as int + 1]);
    lemma_numeral_may_have_a_sign(seq!['0']);
}

/// The flag `--hotloop` with two operands, the implementation and the certificate type.
pub proof fn lemma_hotloop_with_a_cert_type(
    before: Seq<Seq<char>>,
    implementation: Seq<char>,
    cert_type: Seq<char>,
)
    requires
        !before.contains("--hotloop"@),
    ensures
        command_of(before + seq!["--hotloop"@, implementation, cert_type]) == (
        CommandView::HotLoop { implementation, cert_type, secs: 20 }),
{
    let operands = seq![implementation, cert_type];
    let args = before + seq!["--hotloop"@, implementation, cert_type];
    assert(args =~= before.push("--hotloop"@) + operands);
    lemma_flag_stands_here(before, "--hotloop"@, operands);
    lemma_given(args, "--hotloop"@);
    assert(operands[0] == args[before.len() as int + 1]);
    assert(operands[1] == args[before.len() as int + 2]);
    lemma_numeral_may_have_a_sign(seq!['0']);
}

/// The flag `--hotloop` with three operands or more: the third is the time in seconds,
/// and where it is no numeral, 20 seconds are meant. What follows is not looked at.
pub proof fn lemma_hotloop_with_a_time(
    before: Seq<Seq<char>>,
    implementation: Seq<char>,
    cert_type: Seq<char>,
    time: Seq<char>,
    rest: Seq<Seq<char>>,
)
    requires
        !before.contains("--hotloop"@),
    ensures
        command_of(before + seq!["--hotloop"@, implementation, cert_type, time] + rest) == (
        CommandView::HotLoop {
            implementation,
            cert_type,
            secs: match u64_of(time) {
                Some(secs) => secs,
                None => 20,
            },
        }),
{
    let operands = seq![implementation, cert_type, time] + rest;
    let args = before + seq!["--hotloop"@, implementation, cert_type, time] + rest;
    assert(args =~= before.push("--hotloop"@) + operands);
    lemma_flag_stands_here(before, "--hotloop"@, operands);
    lemma_given(args, "--hotloop"@);
    assert(operands[0] == args[before.len() as int + 1]);
    assert(operands[1] == args[before.len() as int + 2]);
    assert(operands[2] == args[before.len() as int + 3]);
}

/// The flag `--microbench`, where `--hotloop` is not given: the first operand is the
/// certificate type, and without one it is `rsa2048`.
pub proof fn lemma_microbench_command(before: Seq<Seq<char>>, operands: Seq<Seq<char>>)
    requires
        !before.contains("--microbench"@),
        !(before.push("--microbench"@) + operands).contains("--hotloop"@),
    ensures
        operands.len() == 0 ==> command_of(before.push("--microbench"@) + operands) == (
        CommandView::Microbench { cert_type: "rsa2048"@ }),
        operands.len() > 0 ==> command_of(before.push("--microbench"@) + operands) == (
        CommandView::Microbench { cert_type: operands[0] }),
{
    let args = before.push("--microbench"@) + operands;
    lemma_given(args, "--hotloop"@);
    lemma_given(args, "--microbench"@);
    lemma_flag_stands_here(before, "--microbench"@, operands);
    if operands.len() > 0 {
        assert(operands[0] == args[before.len() as int + 1]);
    }
}

/// The flag `--compare`, where `--hotloop` and `--microbench` are not given: the first
/// operand is the certificate type, and without one it is `rsa2048`.
pub proof fn lemma_compare_command(before: Seq<Seq<char>>, operands: Seq<Seq<char>>)
    requires
        !before.contains("--compare"@),
        !(before.push("--compare"@) + operands).contains("--hotloop"@),
        !(before.push("--compare"@) + operands).contains("--microbench"@),
    ensures
        operands.len() == 0 ==> command_of(before.push("--compare"@) + operands) == (
        CommandView::Compare { cert_type: "rsa2048"@ }),
        operands.len() > 0 ==> command_of(before.push("--compare"@) + operands) == (
        CommandView::Compare { cert_type: operands[0] }),
{
    let args = before.push("--compare"@) + operands;
    lemma_given(args, "--hotloop"@);
    lemma_given(args, "--microbench"@);
    lemma_given(args, "--compare"@);
    lemma_flag_stands_here(before, "--compare"@, operands);
    if operands.len() > 0 {
        assert(operands[0] == args[before.len() as int + 1]);
    }
}

proof fn lemma_impl_flags_are_left_out(args: Seq<Seq<char>>)
    ensures
        without_impl_flag(args) == args.filter(|a: Seq<char>| a != "--impl"@),
    decreases args.len(),
{
    reveal(Seq::filter);
    if args.len() > 0 {
        lemma_impl_flags_are_left_out(args.drop_last());
    }
}

/// The flag `--flamegraph`, where none of the other flags is given: of the operands other
/// than `--impl` the first is the implementation and the second the certificate type.
/// Without them they are s2n-tls and `rsa2048`.
pub proof fn lemma_flamegraph_operands(before: Seq<Seq<char>>, operands: Seq<Seq<char>>)
    requires
        !before.contains("--flamegraph"@),
        !(before.push("--flamegraph"@) + operands).contains("--hotloop"@),
        !(before.push("--flamegraph"@) + operands).contains("--microbench"@),
        !(before.push("--flamegraph"@) + operands).contains("--compare"@),
    ensures
        ({
            let rest = operands.filter(|a: Seq<char>| a != "--impl"@);
            let command = command_of(before.push("--flamegraph"@) + operands);
            &&& rest.len() == 0 ==> command == (CommandView::Flamegraph {
                implementation: "s2n-tls"@,
                cert_type: "rsa2048"@,
            })
            &&& rest.len() == 1 ==> command == (CommandView::Flamegraph {
                implementation: rest[0],
                cert_type: "rsa2048"@,
            })
            &&& rest.len() >= 2 ==> command == (CommandView::Flamegraph {
                implementation: rest[0],
                cert_type: rest[1],
            })
        }),
{
    lemma_flamegraph_command(before, operands, before.push("--flamegraph"@) + operands);
    lemma_impl_flags_are_left_out(operands);
}

} // verus!
