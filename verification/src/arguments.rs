//! The command line of the derivation tool.

use vstd::prelude::*;
use vstd::string::*;

use crate::entries::{
    added_entry_is_found, entries_are_found_by_name, entries_sorted, entries_stay_sorted,
    entry_value, put_entry, with_entry,
};
use crate::hexadecimal::{hex_bytes, is_hex, is_hex_digit};
use crate::model::{pair_views, result_view, views};
use crate::outside::{
    digits_value, hex_decode, hex_error_message, hex_error_text, hex_refusal, is_port,
    number_error_message, number_error_text, port_parse, port_refusal, unsigned_digits,
};
use crate::text::{find, first_at, lemma_first_at, occurs_at, same_text, slice_text};

verus! {

/// What the tool is asked to derive.
#[derive(Debug, PartialEq, Eq)]
pub enum Invocation {
    /// A component from a native project.
    Component {
        root: String,
        environment: String,
        /// The spec hashes of producers, in the order of their names.
        dependencies: Vec<(String, [u8; 32])>,
    },
    /// A tunnel to an origin.
    Tunnel { name: String, environment: String, origin_host: String, origin_port: u16 },
}

/// What an `Invocation` says.
pub enum InvocationView {
    Component {
        root: Seq<char>,
        environment: Seq<char>,
        dependencies: Seq<(Seq<char>, Seq<u8>)>,
    },
    Tunnel {
        name: Seq<char>,
        environment: Seq<char>,
        origin_host: Seq<char>,
        origin_port: nat,
    },
}

impl View for Invocation {
    type V = InvocationView;

    open spec fn view(&self) -> InvocationView {
        match self {
            Invocation::Component { root, environment, dependencies } => {
                InvocationView::Component {
                    root: root@,
                    environment: environment@,
                    dependencies: pair_views(dependencies@),
                }
            },
            Invocation::Tunnel { name, environment, origin_host, origin_port } => {
                InvocationView::Tunnel {
                    name: name@,
                    environment: environment@,
                    origin_host: origin_host@,
                    origin_port: *origin_port as nat,
                }
            },
        }
    }
}

/// How the tool is used.
pub open spec fn usage() -> Seq<char> {
    "usage: derive-component <root> <environment> [producer=64hex ...] | --tunnel <name> <environment> <origin-host> <origin-port>"@
}

/// The producer and the spec hash that an argument names, or what is wrong with it.
pub open spec fn dependency(argument: Seq<char>) -> Result<(Seq<char>, Seq<u8>), Seq<char>> {
    match first_at(argument, "="@, 0) {
        None => Err("dependency must be producer=64hex"@),
        Some(at) => {
            let hash = argument.skip(at + 1);
            if !is_hex(hash) {
                Err(hex_error_message(hex_refusal(hash)))
            } else if hash.len() != 64 {
                Err("dependency hash must contain 32 bytes"@)
            } else {
                Ok((argument.take(at), hex_bytes(hash)))
            }
        },
    }
}

/// The dependencies that the arguments from `from` on add to `known`; a later argument replaces an
/// earlier one for the same producer.
pub open spec fn dependencies_from(
    arguments: Seq<Seq<char>>,
    from: int,
    known: Seq<(Seq<char>, Seq<u8>)>,
) -> Result<Seq<(Seq<char>, Seq<u8>)>, Seq<char>>
    decreases arguments.len() - from,
{
    if from >= arguments.len() {
        Ok(known)
    } else {
        match dependency(arguments[from]) {
            Err(message) => Err(message),
            Ok((producer, hash)) => dependencies_from(
                arguments,
                from + 1,
                with_entry(known, producer, hash),
            ),
        }
    }
}

/// What the arguments ask for, or what is wrong with them.
pub open spec fn invocation(arguments: Seq<Seq<char>>) -> Result<InvocationView, Seq<char>> {
    if arguments.len() == 0 {
        Err(usage())
    } else if arguments[0] == "--tunnel"@ {
        if arguments.len() == 1 {
            Err("tunnel name is required"@)
        } else if arguments.len() == 2 {
            Err("environment is required"@)
        } else if arguments.len() == 3 {
            Err("origin host is required"@)
        } else if arguments.len() == 4 {
            Err("origin port is required"@)
        } else if !is_port(arguments[4]) {
            Err(number_error_message(port_refusal(arguments[4])))
        } else {
            Ok(
                InvocationView::Tunnel {
                    name: arguments[1],
                    environment: arguments[2],
                    origin_host: arguments[3],
                    origin_port: digits_value(unsigned_digits(arguments[4])),
                },
            )
        }
    } else if arguments.len() == 1 {
        Err("environment is required"@)
    } else {
        match dependencies_from(arguments, 2, Seq::empty()) {
            Err(message) => Err(message),
            Ok(dependencies) => Ok(
                InvocationView::Component {
                    root: arguments[0],
                    environment: arguments[1],
                    dependencies,
                },
            ),
        }
    }
}

/// The producer and the spec hash that an argument names, or what is wrong with it.
pub fn parse_dependency(argument: &str) -> (parsed: Result<(String, [u8; 32]), String>)
    ensures
        match parsed {
            Ok((producer, hash)) => dependency(argument@) == Ok::<
                (Seq<char>, Seq<u8>),
                Seq<char>,
            >((producer@, hash@)),
            Err(message) => dependency(argument@) == Err::<(Seq<char>, Seq<u8>), Seq<char>>(
                message@,
            ),
        },
{
    proof {
        reveal_strlit("=");
        lemma_first_at(argument@, "="@, 0);
    }
    let at = match find(argument, "=") {
        Some(at) => at,
        None => {
            return Err("dependency must be producer=64hex".to_owned());
        },
    };
    let n = argument.unicode_len();
    assert(argument@.subrange(at + 1, n as int) =~= argument@.skip(at + 1));
    assert(argument@.subrange(0, at as int) =~= argument@.take(at as int));
    let text = slice_text(argument, at + 1, n);
    match hex_decode(text.as_str()) {
        Err(error) => Err(hex_error_text(&error)),
        Ok(bytes) => {
            if bytes.len() != 32 {
                return Err("dependency hash must contain 32 bytes".to_owned());
            }
            let mut hash: [u8; 32] = [0u8; 32];
            for i in 0..32
                invariant
                    bytes@.len() == 32,
                    forall|j: int| 0 <= j < i ==> hash@[j] == bytes@[j],
            {
                hash[i] = bytes[i];
            }
            assert(hash@ =~= bytes@);
            Ok((slice_text(argument, 0, at), hash))
        },
    }
}

/// Parse the arguments behind the tool's own name.
pub fn parse_arguments(arguments: &Vec<String>) -> (parsed: Result<Invocation, String>)
    ensures
        result_view(parsed) == invocation(views(arguments@)),
        parsed matches Ok(Invocation::Component { dependencies, .. }) ==> entries_sorted(
            pair_views(dependencies@),
        ),
{
    let ghost said = views(arguments@);
    assert(forall|i: int| 0 <= i < said.len() ==> #[trigger] said[i] == arguments@[i]@);
    if arguments.len() == 0 {
        return Err(
            "usage: derive-component <root> <environment> [producer=64hex ...] | --tunnel <name> <environment> <origin-host> <origin-port>".to_owned(),
        );
    }
    if same_text(arguments[0].as_str(), "--tunnel") {
        if arguments.len() == 1 {
            return Err("tunnel name is required".to_owned());
        }
        if arguments.len() == 2 {
            return Err("environment is required".to_owned());
        }
        if arguments.len() == 3 {
            return Err("origin host is required".to_owned());
        }
        if arguments.len() == 4 {
            return Err("origin port is required".to_owned());
        }
        return match port_parse(arguments[4].as_str()) {
            Err(error) => Err(number_error_text(&error)),
            Ok(origin_port) => Ok(
                Invocation::Tunnel {
                    name: arguments[1].clone(),
                    environment: arguments[2].clone(),
                    origin_host: arguments[3].clone(),
                    origin_port,
                },
            ),
        };
    }
    if arguments.len() == 1 {
        return Err("environment is required".to_owned());
    }
    let mut dependencies: Vec<(String, [u8; 32])> = Vec::new();
    assert(pair_views(dependencies@) =~= Seq::empty());
    for i in 2..arguments.len()
        invariant
            said == views(arguments@),
            arguments@.len() >= 2,
            said[0] != "--tunnel"@,
            dependencies_from(said, 2, Seq::empty()) == dependencies_from(
                said,
                i as int,
                pair_views(dependencies@),
            ),
    {
        assert(said[i as int] == arguments@[i as int]@);
        match parse_dependency(arguments[i].as_str()) {
            Err(message) => {
                return Err(message);
            },
            Ok((producer, hash)) => {
                put_entry(&mut dependencies, producer, hash);
            },
        }
    }
    proof {
        dependencies_are_sorted(said, 2, Seq::empty());
    }
    Ok(
        Invocation::Component {
            root: arguments[0].clone(),
            environment: arguments[1].clone(),
            dependencies,
        },
    )
}

// ---------------------------------------------------------------------------
// Laws
// ---------------------------------------------------------------------------
/// Arguments add dependencies in the order of the producers' names, each producer once.
pub proof fn dependencies_are_sorted(
    arguments: Seq<Seq<char>>,
    from: int,
    known: Seq<(Seq<char>, Seq<u8>)>,
)
    requires
        entries_sorted(known),
    ensures
        dependencies_from(arguments, from, known) matches Ok(dependencies) ==> entries_sorted(
            dependencies,
        ),
    decreases arguments.len() - from,
{
    if from < arguments.len() {
        if let Ok((producer, hash)) = dependency(arguments[from]) {
            entries_stay_sorted(known, producer, hash);
            dependencies_are_sorted(arguments, from + 1, with_entry(known, producer, hash));
        }
    }
}

/// An argument of a producer, an equals sign and 64 hexadecimal digits gives the producer and 32
/// bytes, each of which two digits count; the producer ends at the first equals sign.
pub proof fn dependencies_name_producer_and_hash(
    producer: Seq<char>,
    digits: Seq<char>,
    at: int,
)
    requires
        !producer.contains('='),
    ensures
        ({
            let argument = producer + seq!['='] + digits;
            let is_digit = |code: int|
                48 <= code <= 57 || 97 <= code <= 102 || 65 <= code <= 70;
            let counts = |code: int|
                if code <= 57 {
                    code - 48
                } else if code <= 70 {
                    code - 55
                } else {
                    code - 87
                };
            let paired = digits.len() % 2 == 0 && forall|i: int|
                0 <= i < digits.len() ==> #[trigger] is_digit(digits[i] as int);
            &&& dependency(argument) is Ok <==> paired && digits.len() == 64
            &&& dependency(argument) matches Ok((named, hash)) ==> {
                &&& named == producer
                &&& hash.len() == 32
                &&& 0 <= at < 32 ==> hash[at] == 16 * counts(digits[2 * at] as int) + counts(
                    digits[2 * at + 1] as int,
                )
            }
            &&& paired && digits.len() != 64 ==> dependency(argument) == Err::<
                (Seq<char>, Seq<u8>),
                Seq<char>,
            >("dependency hash must contain 32 bytes"@)
            &&& !paired ==> dependency(argument) == Err::<(Seq<char>, Seq<u8>), Seq<char>>(
                hex_error_message(hex_refusal(digits)),
            )
        }),
{
    let argument = producer + seq!['='] + digits;
    let n = producer.len() as int;
    reveal_strlit("=");
    assert("="@ =~= seq!['=']);
    lemma_first_at(argument, "="@, 0);
    assert(argument.subrange(n, n + 1) =~= "="@);
    assert(occurs_at(argument, "="@, n));
    let found = first_at(argument, "="@, 0)->Some_0;
    assert(first_at(argument, "="@, 0) is Some);
    assert(found == n) by {
        if found < n {
            assert(argument.subrange(found, found + 1)[0] == '=');
            assert(producer[found] == '=');
        }
    }
    assert(argument.skip(n + 1) =~= digits);
    assert(argument.take(n) =~= producer);
    let is_digit = |code: int| 48 <= code <= 57 || 97 <= code <= 102 || 65 <= code <= 70;
    assert forall|i: int| 0 <= i < digits.len() implies is_hex_digit(#[trigger] digits[i])
        == is_digit(digits[i] as int) by {}
    if is_hex(digits) {
        assert forall|i: int| 0 <= i < digits.len() implies #[trigger] is_digit(
            digits[i] as int,
        ) by {
            assert(is_hex_digit(digits[i]));
        }
    } else if digits.len() % 2 == 0 {
        let i = choose|i: int| 0 <= i < digits.len() && !is_hex_digit(#[trigger] digits[i]);
        assert(!is_digit(digits[i] as int));
    }
    if 0 <= at < 32 && is_hex(digits) && digits.len() == 64 {
        assert(is_hex_digit(digits[2 * at]));
        assert(is_hex_digit(digits[2 * at + 1]));
    }
}

/// An argument without an equals sign is refused.
pub proof fn dependencies_need_an_equals_sign(argument: Seq<char>)
    requires
        !argument.contains('='),
    ensures
        dependency(argument) == Err::<(Seq<char>, Seq<u8>), Seq<char>>(
            "dependency must be producer=64hex"@,
        ),
{
    reveal_strlit("=");
    lemma_first_at(argument, "="@, 0);
    if let Some(at) = first_at(argument, "="@, 0) {
        assert(argument.subrange(at, at + 1)[0] == '=');
        assert(argument[at] == '=');
    }
}

/// Of the arguments that name a producer the last one counts, and a producer that none of them
/// names is known only as it was before.
pub proof fn the_last_argument_for_a_producer_counts(
    arguments: Seq<Seq<char>>,
    from: int,
    known: Seq<(Seq<char>, Seq<u8>)>,
    producer: Seq<char>,
    at: int,
)
    requires
        entries_sorted(known),
        0 <= from <= arguments.len(),
        dependencies_from(arguments, from, known) is Ok,
        from <= at < arguments.len() ==> dependency(arguments[at])->Ok_0.0 == producer,
        forall|i: int|
            from <= i < arguments.len() && (at < i || at < from) ==> dependency(
                #[trigger] arguments[i],
            )->Ok_0.0 != producer,
    ensures
        ({
            let dependencies = dependencies_from(arguments, from, known)->Ok_0;
            &&& from <= at < arguments.len() ==> dependencies.contains(
                (producer, dependency(arguments[at])->Ok_0.1),
            )
            &&& at < from ==> entry_value(dependencies, producer) == entry_value(known, producer)
        }),
{
    dependencies_are_sorted(arguments, from, known);
    lemma_last_dependency(arguments, from, known, producer, at);
    if from <= at < arguments.len() {
        entries_are_found_by_name(
            dependencies_from(arguments, from, known)->Ok_0,
            producer,
            dependency(arguments[at])->Ok_0.1,
        );
    }
}

/// The last argument for a producer is what is found under it.
proof fn lemma_last_dependency(
    arguments: Seq<Seq<char>>,
    from: int,
    known: Seq<(Seq<char>, Seq<u8>)>,
    producer: Seq<char>,
    at: int,
)
    requires
        entries_sorted(known),
        0 <= from <= arguments.len(),
        dependencies_from(arguments, from, known) is Ok,
        from <= at < arguments.len() ==> dependency(arguments[at])->Ok_0.0 == producer,
        forall|i: int|
            from <= i < arguments.len() && (at < i || at < from) ==> dependency(
                #[trigger] arguments[i],
            )->Ok_0.0 != producer,
    ensures
        ({
            let found = entry_value(dependencies_from(arguments, from, known)->Ok_0, producer);
            &&& from <= at < arguments.len() ==> found == Some(dependency(arguments[at])->Ok_0.1)
            &&& at < from ==> found == entry_value(known, producer)
        }),
    decreases arguments.len() - from,
{
    if from < arguments.len() {
        let (named, hash) = dependency(arguments[from])->Ok_0;
        let next = with_entry(known, named, hash);
        entries_stay_sorted(known, named, hash);
        added_entry_is_found(known, named, hash, producer);
        lemma_last_dependency(arguments, from + 1, next, producer, at);
    }
}

/// The first argument that names no dependency decides; where every argument does, all are taken.
pub proof fn the_first_bad_dependency_is_told(
    arguments: Seq<Seq<char>>,
    from: int,
    known: Seq<(Seq<char>, Seq<u8>)>,
    at: int,
)
    requires
        0 <= from <= at <= arguments.len(),
        forall|i: int| from <= i < at ==> dependency(#[trigger] arguments[i]) is Ok,
    ensures
        at == arguments.len() ==> dependencies_from(arguments, from, known) is Ok,
        at < arguments.len() ==> (dependency(arguments[at]) matches Err(message)
            ==> dependencies_from(arguments, from, known) == Err::<
            Seq<(Seq<char>, Seq<u8>)>,
            Seq<char>,
        >(message)),
    decreases at - from,
{
    if from < at {
        assert(dependency(arguments[from]) is Ok);
        let (named, hash) = dependency(arguments[from])->Ok_0;
        the_first_bad_dependency_is_told(
            arguments,
            from + 1,
            with_entry(known, named, hash),
            at,
        );
    }
}

/// Without `--tunnel` the first two arguments are the project and the environment, and the rest
/// name dependencies. With it, four more are the tunnel's name, its environment and its origin. The
/// first argument that is missing is told.
pub proof fn invocations_follow_their_arguments(arguments: Seq<Seq<char>>)
    ensures
        ({
            let asked = invocation(arguments);
            let n = arguments.len();
            let tunnel = n > 0 && arguments[0] =~= seq!['-', '-', 't', 'u', 'n', 'n', 'e', 'l'];
            &&& n == 0 ==> asked == Err::<InvocationView, Seq<char>>(
                "usage: derive-component <root> <environment> [producer=64hex ...] | --tunnel <name> <environment> <origin-host> <origin-port>"@,
            )
            &&& tunnel ==> {
                &&& n == 1 ==> asked == Err::<InvocationView, Seq<char>>(
                    "tunnel name is required"@,
                )
                &&& n == 2 ==> asked == Err::<InvocationView, Seq<char>>(
                    "environment is required"@,
                )
                &&& n == 3 ==> asked == Err::<InvocationView, Seq<char>>(
                    "origin host is required"@,
                )
                &&& n == 4 ==> asked == Err::<InvocationView, Seq<char>>(
                    "origin port is required"@,
                )
                &&& n > 4 && !is_port(arguments[4]) ==> asked == Err::<InvocationView, Seq<char>>(
                    number_error_message(port_refusal(arguments[4])),
                )
                &&& n > 4 && is_port(arguments[4]) ==> {
                    &&& asked matches Ok(
                        InvocationView::Tunnel { name, environment, origin_host, origin_port },
                    )
                    &&& name == arguments[1]
                    &&& environment == arguments[2]
                    &&& origin_host == arguments[3]
                    &&& arguments[4] =~= seq!['+'] + unsigned_digits(arguments[4])
                        || arguments[4] == unsigned_digits(arguments[4])
                    &&& origin_port == digits_value(unsigned_digits(arguments[4]))
                    &&& origin_port < 0x1_0000
                }
            }
            &&& n == 1 && !tunnel ==> asked == Err::<InvocationView, Seq<char>>(
                "environment is required"@,
            )
            &&& n > 1 && !tunnel ==> {
                &&& asked matches Err(message) ==> dependencies_from(arguments, 2, Seq::empty())
                    == Err::<Seq<(Seq<char>, Seq<u8>)>, Seq<char>>(message)
                &&& asked matches Ok(component) ==> {
                    &&& component matches InvocationView::Component {
                        root,
                        environment,
                        dependencies,
                    }
                    &&& root == arguments[0]
                    &&& environment == arguments[1]
                    &&& dependencies_from(arguments, 2, Seq::empty()) == Ok::<
                        Seq<(Seq<char>, Seq<u8>)>,
                        Seq<char>,
                    >(dependencies)
                    &&& entries_sorted(dependencies)
                }
            }
        }),
{
    reveal_strlit("--tunnel");
    assert("--tunnel"@ =~= seq!['-', '-', 't', 'u', 'n', 'n', 'e', 'l']);
    dependencies_are_sorted(arguments, 2, Seq::empty());
    if arguments.len() > 4 && arguments[4].len() > 0 && arguments[4][0] == '+' {
        assert(arguments[4] =~= seq!['+'] + arguments[4].drop_first());
    }
}

} // verus!
