//! The command line: what the program is asked to do.

use crate::durations::{RUSTLS, S2N_TLS};
use crate::text::{decimal, decimal_of, lemma_numeral_round_trip, parse_u64, same_text, u64_of};
use vstd::prelude::*;

verus! {

/// The certificate type that is used where none is given.
pub const DEFAULT_CERT_TYPE: &'static str = "rsa2048";

/// The file that is written where none is given.
pub const DEFAULT_OUTPUT: &'static str = "results.json";

/// How long the hot loop runs where no time is given.
pub const DEFAULT_HOTLOOP_SECS: u64 = 20;

/// The flag that starts the hot loop.
pub const HOTLOOP_FLAG: &'static str = "--hotloop";

/// The flag that times single signatures.
pub const MICROBENCH_FLAG: &'static str = "--microbench";

/// The flag that compares the implementations operation by operation.
pub const COMPARE_FLAG: &'static str = "--compare";

/// The flag that draws one implementation's flamegraph.
pub const FLAMEGRAPH_FLAG: &'static str = "--flamegraph";

/// The word that may stand before the implementation's name.
pub const IMPL_FLAG: &'static str = "--impl";

/// What the program is asked to do.
#[derive(Debug)]
pub enum Command {
    /// Run one implementation's handshakes in a tight loop for some seconds.
    HotLoop { implementation: String, cert_type: String, secs: u64 },
    /// Time single signatures.
    Microbench { cert_type: String },
    /// Compare the implementations operation by operation.
    Compare { cert_type: String },
    /// Draw one implementation's flamegraph.
    Flamegraph { implementation: String, cert_type: String },
    /// Time the messages of both implementations and write the results.
    Measure { cert_type: String, output_path: String },
}

/// What a command says.
#[verifier::ext_equal]
pub enum CommandView {
    HotLoop { implementation: Seq<char>, cert_type: Seq<char>, secs: u64 },
    Microbench { cert_type: Seq<char> },
    Compare { cert_type: Seq<char> },
    Flamegraph { implementation: Seq<char>, cert_type: Seq<char> },
    Measure { cert_type: Seq<char>, output_path: Seq<char> },
}

impl View for Command {
    type V = CommandView;

    open spec fn view(&self) -> CommandView {
        match *self {
            Command::HotLoop { implementation, cert_type, secs } => CommandView::HotLoop {
                implementation: implementation@,
                cert_type: cert_type@,
                secs,
            },
            Command::Microbench { cert_type } => CommandView::Microbench { cert_type: cert_type@ },
            Command::Compare { cert_type } => CommandView::Compare { cert_type: cert_type@ },
            Command::Flamegraph { implementation, cert_type } => CommandView::Flamegraph {
                implementation: implementation@,
                cert_type: cert_type@,
            },
            Command::Measure { cert_type, output_path } => CommandView::Measure {
                cert_type: cert_type@,
                output_path: output_path@,
            },
        }
    }
}

/// What a list of arguments says.
pub open spec fn text_views(args: Seq<String>) -> Seq<Seq<char>> {
    Seq::new(args.len(), |i: int| args[i]@)
}

/// The position of the first `flag` among the arguments from `i` on, or their number.
pub open spec fn position_from(args: Seq<Seq<char>>, flag: Seq<char>, i: int) -> int
    decreases args.len() - i,
{
    if i >= args.len() {
        args.len() as int
    } else if args[i] == flag {
        i
    } else {
        position_from(args, flag, i + 1)
    }
}

/// The position of the first `flag` among the arguments, or their number.
pub open spec fn position(args: Seq<Seq<char>>, flag: Seq<char>) -> int {
    position_from(args, flag, 0)
}

/// The flag is among the arguments.
pub open spec fn given(args: Seq<Seq<char>>, flag: Seq<char>) -> bool {
    position(args, flag) < args.len()
}

/// The argument in place `i`, or `default` where there is none.
pub open spec fn arg_or(args: Seq<Seq<char>>, i: int, default: Seq<char>) -> Seq<char> {
    if 0 <= i < args.len() {
        args[i]
    } else {
        default
    }
}

/// The arguments other than `--impl`, in order.
pub open spec fn without_impl_flag(args: Seq<Seq<char>>) -> Seq<Seq<char>>
    decreases args.len(),
{
    if args.len() == 0 {
        Seq::empty()
    } else {
        let rest = without_impl_flag(args.drop_last());
        if args.last() == IMPL_FLAG@ {
            rest
        } else {
            rest.push(args.last())
        }
    }
}

/// The command that the arguments, the program's own name first, stand for. The
/// flags are looked for anywhere, in a fixed order of precedence; what follows a
/// flag are its operands.
pub open spec fn command_of(args: Seq<Seq<char>>) -> CommandView {
    if given(args, HOTLOOP_FLAG@) {
        let p = position(args, HOTLOOP_FLAG@);
        CommandView::HotLoop {
            implementation: arg_or(args, p + 1, S2N_TLS@),
            cert_type: arg_or(args, p + 2, DEFAULT_CERT_TYPE@),
            secs: match u64_of(arg_or(args, p + 3, Seq::empty())) {
                Some(secs) => secs,
                None => DEFAULT_HOTLOOP_SECS,
            },
        }
    } else if given(args, MICROBENCH_FLAG@) {
        CommandView::Microbench {
            cert_type: arg_or(args, position(args, MICROBENCH_FLAG@) + 1, DEFAULT_CERT_TYPE@),
        }
    } else if given(args, COMPARE_FLAG@) {
        CommandView::Compare {
            cert_type: arg_or(args, position(args, COMPARE_FLAG@) + 1, DEFAULT_CERT_TYPE@),
        }
    } else if given(args, FLAMEGRAPH_FLAG@) {
        let rest = without_impl_flag(args.skip(position(args, FLAMEGRAPH_FLAG@) + 1));
        CommandView::Flamegraph {
            implementation: arg_or(rest, 0, S2N_TLS@),
            cert_type: arg_or(rest, 1, DEFAULT_CERT_TYPE@),
        }
    } else {
        CommandView::Measure {
            cert_type: arg_or(args, 1, DEFAULT_CERT_TYPE@),
            output_path: arg_or(args, 2, DEFAULT_OUTPUT@),
        }
    }
}

fn find_flag(args: &[String], flag: &str) -> (r: Option<usize>)
    ensures
        r matches Some(p) ==> p < args@.len() && args@[p as int]@ == flag@,
        r is None ==> forall|i: int| 0 <= i < args@.len() ==> (#[trigger] args@[i])@ != flag@,
        r is Some <==> given(text_views(args@), flag@),
        r matches Some(p) ==> p == position(text_views(args@), flag@) && p < args.len(),
{
    let ghost views = text_views(args@);
    let mut i: usize = 0;
    while i < args.len()
        invariant
            i <= args@.len(),
            views == text_views(args@),
            position(views, flag@) == position_from(views, flag@, i as int),
            forall|j: int| 0 <= j < i ==> (#[trigger] args@[j])@ != flag@,
        decreases args@.len() - i,
    {
        if same_text(args[i].as_str(), flag) {
            return Some(i);
        }
        i = i + 1;
    }
    None
}

fn operand(args: &[String], flag_at: usize, offset: usize, default: &str) -> (r: String)
    requires
        flag_at < args@.len(),
    ensures
        r@ == arg_or(text_views(args@), flag_at + offset, default@),
{
    if offset < args.len() - flag_at {
        args[flag_at + offset].clone()
    } else {
        default.to_owned()
    }
}

/// Reads the command line, the program's own name first.
pub fn parse_args(args: &[String]) -> (r: Command)
    ensures
        r@ == command_of(text_views(args@)),
        (forall|i: int|
            0 <= i < args@.len() ==> {
                &&& (#[trigger] args@[i])@ != "--hotloop"@
                &&& args@[i]@ != "--microbench"@
                &&& args@[i]@ != "--compare"@
                &&& args@[i]@ != "--flamegraph"@
            }) ==> (r matches Command::Measure { cert_type, output_path } && {
            &&& args@.len() >= 2 ==> cert_type@ == args@[1]@
            &&& args@.len() < 2 ==> cert_type@ == "rsa2048"@
            &&& args@.len() >= 3 ==> output_path@ == args@[2]@
            &&& args@.len() < 3 ==> output_path@ == "results.json"@
        }),
        r is Measure ==> forall|i: int|
            0 <= i < args@.len() ==> {
                &&& (#[trigger] args@[i])@ != "--hotloop"@
                &&& args@[i]@ != "--microbench"@
                &&& args@[i]@ != "--compare"@
                &&& args@[i]@ != "--flamegraph"@
            },
        r is HotLoop <==> exists|i: int|
            0 <= i < args@.len() && (#[trigger] args@[i])@ == "--hotloop"@,
{
    let ghost views = text_views(args@);
    if let Some(p) = find_flag(args, HOTLOOP_FLAG) {
        let implementation: String = operand(args, p, 1, S2N_TLS);
        let cert_type: String = operand(args, p, 2, DEFAULT_CERT_TYPE);
        let given_secs: String = operand(args, p, 3, "");
        proof {
            reveal_strlit("");
            assert(""@ =~= Seq::<char>::empty());
        }
        let secs: u64 = match parse_u64(given_secs.as_str()) {
            Some(secs) => secs,
            None => DEFAULT_HOTLOOP_SECS,
        };
        return Command::HotLoop { implementation, cert_type, secs };
    }
    if let Some(p) = find_flag(args, MICROBENCH_FLAG) {
        return Command::Microbench { cert_type: operand(args, p, 1, DEFAULT_CERT_TYPE) };
    }
    if let Some(p) = find_flag(args, COMPARE_FLAG) {
        return Command::Compare { cert_type: operand(args, p, 1, DEFAULT_CERT_TYPE) };
    }
    if let Some(p) = find_flag(args, FLAMEGRAPH_FLAG) {
        let ghost behind = views.skip(p + 1);
        let mut rest: Vec<String> = Vec::new();
        let mut i: usize = p + 1;
        assert(text_views(rest@) =~= without_impl_flag(behind.take(0)));
        while i < args.len()
            invariant
                p < i <= args@.len(),
                views == text_views(args@),
                behind == views.skip(p + 1),
                text_views(rest@) == without_impl_flag(behind.take(i - p - 1)),
            decreases args@.len() - i,
        {
            let ghost now = rest@;
            assert(behind.take(i - p).drop_last() =~= behind.take(i - p - 1));
            assert(behind.take(i - p).last() == args@[i as int]@);
            if !same_text(args[i].as_str(), IMPL_FLAG) {
                rest.push(args[i].clone());
                assert(text_views(rest@) =~= text_views(now).push(args@[i as int]@));
            }
            i = i + 1;
        }
        assert(behind.take(i - p - 1) =~= behind);
        let implementation: String = if rest.len() > 0 {
            rest[0].clone()
        } else {
            S2N_TLS.to_owned()
        };
        let cert_type: String = if rest.len() > 1 {
            rest[1].clone()
        } else {
            DEFAULT_CERT_TYPE.to_owned()
        };
        return Command::Flamegraph { implementation, cert_type };
    }
    let cert_type: String = if args.len() > 1 {
        args[1].clone()
    } else {
        DEFAULT_CERT_TYPE.to_owned()
    };
    let output_path: String = if args.len() > 2 {
        args[2].clone()
    } else {
        DEFAULT_OUTPUT.to_owned()
    };
    Command::Measure { cert_type, output_path }
}

/// The certificate types that can be measured.
pub open spec fn supported_cert_type(cert_type: Seq<char>) -> bool {
    ||| cert_type == "rsa2048"@
    ||| cert_type == "rsa3072"@
    ||| cert_type == "rsa4096"@
    ||| cert_type == "ecdsa256"@
    ||| cert_type == "ecdsa384"@
}

/// Accepts the certificate types that can be measured; for any other one says
/// which there are.
pub fn check_cert_type(cert_type: &str) -> (r: Result<(), String>)
    ensures
        r is Ok <==> supported_cert_type(cert_type@),
        r is Ok <==> {
            ||| cert_type@ == "rsa2048"@
            ||| cert_type@ == "rsa3072"@
            ||| cert_type@ == "rsa4096"@
            ||| cert_type@ == "ecdsa256"@
            ||| cert_type@ == "ecdsa384"@
        },
        r matches Err(e) ==> e@ == "Unknown: "@ + cert_type@
            + ". Use: rsa2048|rsa3072|rsa4096|ecdsa256|ecdsa384"@,
{
    if same_text(cert_type, "rsa2048") || same_text(cert_type, "rsa3072") || same_text(
        cert_type,
        "rsa4096",
    ) || same_text(cert_type, "ecdsa256") || same_text(cert_type, "ecdsa384") {
        Ok(())
    } else {
        let mut message: String = "Unknown: ".to_owned();
        message.append(cert_type);
        message.append(". Use: rsa2048|rsa3072|rsa4096|ecdsa256|ecdsa384");
        Err(message)
    }
}

/// A TLS implementation that can be measured.
#[derive(Clone, Copy, Debug, PartialEq, Eq, Structural)]
pub enum Implementation {
    S2nTls,
    Rustls,
}

impl Implementation {
    /// The name under which the implementation is known.
    pub open spec fn spec_name(self) -> Seq<char> {
        match self {
            Implementation::S2nTls => S2N_TLS@,
            Implementation::Rustls => RUSTLS@,
        }
    }

    /// The name under which the implementation is known.
    pub fn name(self) -> (r: &'static str)
        ensures
            r@ == self.spec_name(),
            self is S2nTls ==> r@ == "s2n-tls"@,
            self is Rustls ==> r@ == "rustls"@,
    {
        match self {
            Implementation::S2nTls => S2N_TLS,
            Implementation::Rustls => RUSTLS,
        }
    }

    /// The implementation of that name; for any other name says which there are.
    pub fn from_name(name: &str) -> (r: Result<Implementation, String>)
        ensures
            name@ == S2N_TLS@ ==> r == Ok::<Implementation, String>(Implementation::S2nTls),
            name@ == RUSTLS@ ==> r == Ok::<Implementation, String>(Implementation::Rustls),
            r is Ok <==> (name@ == S2N_TLS@ || name@ == RUSTLS@),
            r is Ok <==> (name@ == "s2n-tls"@ || name@ == "rustls"@),
            r matches Ok(implementation) ==> (implementation is S2nTls <==> name@ == "s2n-tls"@),
            r matches Ok(implementation) ==> (implementation is Rustls <==> name@ == "rustls"@),
            r matches Err(e) ==> e@ == "Unknown implementation: "@ + name@
                + ". Use: s2n-tls|rustls"@,
    {
        proof {
            reveal_strlit("s2n-tls");
            reveal_strlit("rustls");
            assert(S2N_TLS@[0] != RUSTLS@[0]);
        }
        if same_text(name, S2N_TLS) {
            Ok(Implementation::S2nTls)
        } else if same_text(name, RUSTLS) {
            Ok(Implementation::Rustls)
        } else {
            let mut message: String = "Unknown implementation: ".to_owned();
            message.append(name);
            message.append(". Use: s2n-tls|rustls");
            Err(message)
        }
    }
}

/// The operands with which the program calls itself to run the hot loop.
pub open spec fn hotloop_call(
    implementation: Seq<char>,
    cert_type: Seq<char>,
    secs: nat,
) -> Seq<Seq<char>> {
    seq![HOTLOOP_FLAG@, implementation, cert_type, decimal_of(secs)]
}

/// Writes the arguments with which the program calls itself to run the hot loop.
pub fn hotloop_args(implementation: &str, cert_type: &str, secs: u64) -> (r: Vec<String>)
    ensures
        text_views(r@) == hotloop_call(implementation@, cert_type@, secs as nat),
        r@.len() == 4,
        r@[0]@ == "--hotloop"@,
        r@[1]@ == implementation@,
        r@[2]@ == cert_type@,
        r@[3]@ == decimal_of(secs as nat),
{
    let mut args: Vec<String> = Vec::new();
    args.push(HOTLOOP_FLAG.to_owned());
    args.push(implementation.to_owned());
    args.push(cert_type.to_owned());
    args.push(decimal(secs));
    assert(text_views(args@) =~= hotloop_call(implementation@, cert_type@, secs as nat));
    args
}

/// A program that calls itself to run the hot loop runs that hot loop, whatever
/// the implementation, certificate type and time are called.
pub proof fn lemma_hotloop_call_is_understood(
    program: Seq<char>,
    implementation: Seq<char>,
    cert_type: Seq<char>,
    secs: u64,
)
    requires
        program != HOTLOOP_FLAG@,
    ensures
        command_of(seq![program] + hotloop_call(implementation, cert_type, secs as nat)) == (
        CommandView::HotLoop { implementation, cert_type, secs }),
{
    let args = seq![program] + hotloop_call(implementation, cert_type, secs as nat);
    reveal_with_fuel(position_from, 2);
    assert(args[0] == program && args[1] == HOTLOOP_FLAG@);
    assert(position(args, HOTLOOP_FLAG@) == 1);
    assert(args[2] == implementation && args[3] == cert_type && args[4] == decimal_of(
        secs as nat,
    ));
    lemma_numeral_round_trip(secs);
}

/// The first flag stands where it is said to stand.
pub proof fn lemma_position_from(args: Seq<Seq<char>>, flag: Seq<char>, i: int)
    requires
        0 <= i <= args.len(),
    ensures
        i <= position_from(args, flag, i) <= args.len(),
        forall|j: int| i <= j < position_from(args, flag, i) ==> #[trigger] args[j] != flag,
        position_from(args, flag, i) < args.len() ==> args[position_from(args, flag, i)] == flag,
    decreases args.len() - i,
{
    if i < args.len() && args[i] != flag {
        lemma_position_from(args, flag, i + 1);
    }
}

/// A flag that occurs is given.
pub proof fn lemma_given(args: Seq<Seq<char>>, flag: Seq<char>)
    ensures
        given(args, flag) <==> args.contains(flag),
{
    lemma_position_from(args, flag, 0);
}

/// Leaving `--impl` out works piece by piece.
proof fn lemma_without_impl_flag_concat(a: Seq<Seq<char>>, b: Seq<Seq<char>>)
    ensures
        without_impl_flag(a + b) == without_impl_flag(a) + without_impl_flag(b),
    decreases b.len(),
{
    if b.len() == 0 {
        assert(a + b =~= a);
        assert(without_impl_flag(a) + without_impl_flag(b) =~= without_impl_flag(a));
    } else {
        lemma_without_impl_flag_concat(a, b.drop_last());
        assert((a + b).drop_last() =~= a + b.drop_last());
        assert((a + b).last() == b.last());
        assert(without_impl_flag(a + b) =~= without_impl_flag(a) + without_impl_flag(b));
    }
}

pub(crate) proof fn lemma_flamegraph_command(
    before: Seq<Seq<char>>,
    operands: Seq<Seq<char>>,
    args: Seq<Seq<char>>,
)
    requires
        args == before.push(FLAMEGRAPH_FLAG@) + operands,
        !before.contains(FLAMEGRAPH_FLAG@),
        !args.contains(HOTLOOP_FLAG@),
        !args.contains(MICROBENCH_FLAG@),
        !args.contains(COMPARE_FLAG@),
    ensures
        command_of(args) == (CommandView::Flamegraph {
            implementation: arg_or(without_impl_flag(operands), 0, S2N_TLS@),
            cert_type: arg_or(without_impl_flag(operands), 1, DEFAULT_CERT_TYPE@),
        }),
{
    lemma_given(args, HOTLOOP_FLAG@);
    lemma_given(args, MICROBENCH_FLAG@);
    lemma_given(args, COMPARE_FLAG@);
    lemma_position_from(args, FLAMEGRAPH_FLAG@, 0);
    let p = position(args, FLAMEGRAPH_FLAG@);
    assert(args[before.len() as int] == FLAMEGRAPH_FLAG@);
    if p < before.len() {
        assert(before[p] == FLAMEGRAPH_FLAG@);
        assert(before.contains(FLAMEGRAPH_FLAG@));
    }
    assert(p == before.len());
    assert(args.skip(p + 1) =~= operands);
}

/// The word `--impl` may stand anywhere behind `--flamegraph`, or be left out: the
/// command is the same.
pub proof fn lemma_impl_flag_is_optional(
    before: Seq<Seq<char>>,
    first: Seq<Seq<char>>,
    rest: Seq<Seq<char>>,
)
    requires
        !before.contains(FLAMEGRAPH_FLAG@),
        !(before + first + rest).contains(HOTLOOP_FLAG@),
        !(before + first + rest).contains(MICROBENCH_FLAG@),
        !(before + first + rest).contains(COMPARE_FLAG@),
    ensures
        command_of(before.push(FLAMEGRAPH_FLAG@) + (first.push(IMPL_FLAG@) + rest)) == command_of(
            before.push(FLAMEGRAPH_FLAG@) + (first + rest),
        ),
{
    let long = before.push(FLAMEGRAPH_FLAG@) + (first.push(IMPL_FLAG@) + rest);
    let short = before.push(FLAMEGRAPH_FLAG@) + (first + rest);
    reveal_strlit("--hotloop");
    reveal_strlit("--microbench");
    reveal_strlit("--compare");
    reveal_strlit("--flamegraph");
    reveal_strlit("--impl");
    assert(HOTLOOP_FLAG@[2] == 'h' && MICROBENCH_FLAG@[2] == 'm' && COMPARE_FLAG@[2] == 'c');
    assert(FLAMEGRAPH_FLAG@[2] == 'f' && IMPL_FLAG@[2] == 'i');
    lemma_words_between(before, first, rest, HOTLOOP_FLAG@);
    lemma_words_between(before, first, rest, MICROBENCH_FLAG@);
    lemma_words_between(before, first, rest, COMPARE_FLAG@);
    lemma_flamegraph_command(before, first.push(IMPL_FLAG@) + rest, long);
    lemma_flamegraph_command(before, first + rest, short);
    lemma_without_impl_flag_concat(first.push(IMPL_FLAG@), rest);
    lemma_without_impl_flag_concat(first, rest);
    assert(first.push(IMPL_FLAG@).drop_last() =~= first);
}

/// A word other than the two flags occurs in the longer lists only where it occurs
/// in the shortest.
proof fn lemma_words_between(
    before: Seq<Seq<char>>,
    first: Seq<Seq<char>>,
    rest: Seq<Seq<char>>,
    word: Seq<char>,
)
    requires
        !(before + first + rest).contains(word),
        word != FLAMEGRAPH_FLAG@,
        word != IMPL_FLAG@,
    ensures
        !(before.push(FLAMEGRAPH_FLAG@) + (first.push(IMPL_FLAG@) + rest)).contains(word),
        !(before.push(FLAMEGRAPH_FLAG@) + (first + rest)).contains(word),
{
    let all = before + first + rest;
    let long = before.push(FLAMEGRAPH_FLAG@) + (first.push(IMPL_FLAG@) + rest);
    let short = before.push(FLAMEGRAPH_FLAG@) + (first + rest);
    let b = before.len() as int;
    let f = first.len() as int;
    assert forall|i: int| 0 <= i < long.len() implies #[trigger] long[i] != word by {
        if i < b {
            assert(all[i] == long[i]);
        } else if b < i < b + 1 + f {
            assert(all[i - 1] == long[i]);
        } else if i > b + 1 + f {
            assert(all[i - 2] == long[i]);
        }
    }
    assert forall|i: int| 0 <= i < short.len() implies #[trigger] short[i] != word by {
        if i < b {
            assert(all[i] == short[i]);
        } else if i > b {
            assert(all[i - 1] == short[i]);
        }
    }
}

} // verus!
