//! The command line.

use vstd::prelude::*;

use crate::chars::texts_of;

verus! {

/// What is asked for on the command line: to speak a text into a file.
#[derive(Debug, Clone)]
pub struct SayOptions {
    pub text: String,
    pub pack_dir: String,
    pub voice: String,
    pub out_path: String,
    /// The rate as it was written, if it was given.
    pub speed: Option<String>,
}

/// What the command line lacks.
#[derive(Debug, Clone, Copy, PartialEq, Eq, Structural)]
pub enum CliError {
    NoText,
    NoPack,
    NoVoice,
}

impl CliError {
    /// The error in words.
    pub fn message(&self) -> (r: String)
        ensures
            r@ == match *self {
                CliError::NoText => "--say TEXT required"@,
                CliError::NoPack => "--pack DIR required"@,
                CliError::NoVoice => "--voice ID required"@,
            },
    {
        String::from_str(
            match self {
                CliError::NoText => "--say TEXT required",
                CliError::NoPack => "--pack DIR required",
                CliError::NoVoice => "--voice ID required",
            },
        )
    }
}

/// The argument behind the first occurrence of a flag from position `from` on.
pub open spec fn value_from(args: Seq<Seq<char>>, flag: Seq<char>, from: int) -> Option<Seq<char>>
    decreases args.len() - from,
{
    if from < 0 || from >= args.len() {
        None
    } else if args[from] == flag {
        if from + 1 < args.len() {
            Some(args[from + 1])
        } else {
            None
        }
    } else {
        value_from(args, flag, from + 1)
    }
}

/// The value of a flag: the argument behind its first occurrence.
pub open spec fn value_of(args: Seq<Seq<char>>, flag: Seq<char>) -> Option<Seq<char>> {
    value_from(args, flag, 0)
}

/// The value of a flag.
fn get(args: &Vec<String>, flag: &str) -> (r: Option<String>)
    ensures
        match r {
            Some(v) => value_of(texts_of(args@), flag@) == Some(v@),
            None => value_of(texts_of(args@), flag@) is None,
        },
{
    let wanted: String = flag.to_owned();
    let n: usize = args.len();
    let mut i: usize = 0;
    while i < n
        invariant
            wanted@ == flag@,
            n == args@.len(),
            i <= n,
            value_of(texts_of(args@), flag@) == value_from(texts_of(args@), flag@, i as int),
        decreases n - i,
    {
        if args[i] == wanted {
            return if i + 1 < n {
                Some(args[i + 1].clone())
            } else {
                None
            };
        }
        i = i + 1;
    }
    None
}

/// Whether the command line asks to speak a text rather than to serve requests.
pub fn wants_speech(args: &Vec<String>) -> (r: bool)
    ensures
        r == texts_of(args@).contains("--say"@),
{
    let wanted: String = String::from_str("--say");
    for i in 0..args.len()
        invariant
            wanted@ == "--say"@,
            forall|j: int| 0 <= j < i ==> #[trigger] texts_of(args@)[j] != "--say"@,
    {
        if args[i] == wanted {
            assert(texts_of(args@)[i as int] == "--say"@);
            return true;
        }
    }
    false
}

/// Reads the command line. Text, pack and voice must be given, and are missed in
/// this order.
pub fn say_options(args: &Vec<String>) -> (r: Result<SayOptions, CliError>)
    ensures
        ({
            let a = texts_of(args@);
            match r {
                Ok(o) => value_of(a, "--say"@) == Some(o.text@) && value_of(a, "--pack"@) == Some(
                    o.pack_dir@,
                ) && value_of(a, "--voice"@) == Some(o.voice@) && o.out_path@ == (match value_of(
                    a,
                    "--out"@,
                ) {
                    Some(path) => path,
                    None => "novus-voice-test.wav"@,
                }) && (match o.speed {
                    Some(speed) => value_of(a, "--speed"@) == Some(speed@),
                    None => value_of(a, "--speed"@) is None,
                }),
                Err(CliError::NoText) => value_of(a, "--say"@) is None,
                Err(CliError::NoPack) => value_of(a, "--say"@) is Some && value_of(
                    a,
                    "--pack"@,
                ) is None,
                Err(CliError::NoVoice) => value_of(a, "--say"@) is Some && value_of(
                    a,
                    "--pack"@,
                ) is Some && value_of(a, "--voice"@) is None,
            }
        }),
{
    let text: String = match get(args, "--say") {
        Some(v) => v,
        None => {
            return Err(CliError::NoText);
        },
    };
    let pack_dir: String = match get(args, "--pack") {
        Some(v) => v,
        None => {
            return Err(CliError::NoPack);
        },
    };
    let voice: String = match get(args, "--voice") {
        Some(v) => v,
        None => {
            return Err(CliError::NoVoice);
        },
    };
    let out_path: String = match get(args, "--out") {
        Some(v) => v,
        None => String::from_str("novus-voice-test.wav"),
    };
    Ok(SayOptions { text, pack_dir, voice, out_path, speed: get(args, "--speed") })
}

/// The value of a flag is the argument behind its first occurrence, wherever that
/// is; a flag that does not occur, or only at the very end, has none.
pub proof fn law_a_flag_is_followed_by_its_value(args: Seq<Seq<char>>, flag: Seq<char>, i: int)
    requires
        0 <= i <= args.len(),
        forall|k: int| 0 <= k < i ==> #[trigger] args[k] != flag,
        i < args.len() ==> args[i] == flag,
    ensures
        i + 1 < args.len() ==> value_of(args, flag) == Some(args[i + 1]),
        i + 1 >= args.len() ==> value_of(args, flag) is None,
{
    lemma_skips_other_arguments(args, flag, 0, i);
}

/// Arguments that are not the flag are passed over.
proof fn lemma_skips_other_arguments(args: Seq<Seq<char>>, flag: Seq<char>, from: int, i: int)
    requires
        0 <= from <= i <= args.len(),
        forall|k: int| 0 <= k < i ==> #[trigger] args[k] != flag,
    ensures
        value_from(args, flag, from) == value_from(args, flag, i),
    decreases i - from,
{
    if from < i {
        assert(args[from] != flag);
        lemma_skips_other_arguments(args, flag, from + 1, i);
    }
}

} // verus!
