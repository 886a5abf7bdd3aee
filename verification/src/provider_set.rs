//! The command line of the provider-set lock verifier: a closed set of
//! seven inputs.

use vstd::prelude::*;
use crate::text::{chars_of, owned, same_chars};

verus! {

/// The inputs of one provider-set verification, in command-line order.
#[derive(Clone, Debug, PartialEq, Eq)]
pub struct ProviderSetArguments {
    pub set: String,
    pub blob_lock: String,
    pub blob_manifest: String,
    pub value_lock: String,
    pub value_manifest: String,
    pub value_backend_lock: String,
    pub profile: String,
}

#[derive(Clone, Debug, PartialEq, Eq)]
pub enum ProviderSetCommand {
    Help,
    Verify(ProviderSetArguments),
}

pub open spec fn usage_error() -> Seq<char> {
    "provider set verification requires SET BLOB_LOCK BLOB_MANIFEST VALUE_LOCK VALUE_MANIFEST VALUE_BACKEND_LOCK PROFILE"@
}

pub open spec fn asks_for_help(arguments: Seq<Seq<char>>) -> bool {
    arguments.len() > 0 && (arguments[0] == "help"@ || arguments[0] == "--help"@ || arguments[0]
        == "-h"@)
}

fn is_word(argument: &String, word: &str) -> (r: bool)
    ensures
        r == (argument@ == word@),
{
    let a = chars_of(argument.as_str());
    let w = chars_of(word);
    same_chars(a.as_slice(), w.as_slice())
}

/// Help when asked for; otherwise exactly the seven inputs, or the usage
/// error.
pub fn parse_provider_set_arguments(arguments: Vec<String>) -> (r: Result<ProviderSetCommand, String>)
    ensures
        asks_for_help(arguments@.map_values(|a: String| a@)) ==> r == Ok::<ProviderSetCommand, String>(
            ProviderSetCommand::Help,
        ),
        !asks_for_help(arguments@.map_values(|a: String| a@)) ==> match r {
            Ok(ProviderSetCommand::Verify(inputs)) => arguments@.len() == 7 && inputs.set
                == arguments@[0] && inputs.blob_lock == arguments@[1] && inputs.blob_manifest
                == arguments@[2] && inputs.value_lock == arguments@[3] && inputs.value_manifest
                == arguments@[4] && inputs.value_backend_lock == arguments@[5] && inputs.profile
                == arguments@[6],
            Ok(ProviderSetCommand::Help) => false,
            Err(message) => arguments@.len() != 7 && message@ == usage_error(),
        },
{
    let ghost words = arguments@.map_values(|a: String| a@);
    if arguments.len() > 0 {
        assert(words[0] == arguments@[0]@);
        if is_word(&arguments[0], "help") || is_word(&arguments[0], "--help") || is_word(
            &arguments[0],
            "-h",
        ) {
            return Ok(ProviderSetCommand::Help);
        }
    }
    if arguments.len() != 7 {
        return Err(
            owned(
                "provider set verification requires SET BLOB_LOCK BLOB_MANIFEST VALUE_LOCK VALUE_MANIFEST VALUE_BACKEND_LOCK PROFILE",
            ),
        );
    }
    let mut arguments = arguments;
    let ghost given = arguments@;
    let profile = arguments.pop().unwrap();
    let value_backend_lock = arguments.pop().unwrap();
    let value_manifest = arguments.pop().unwrap();
    let value_lock = arguments.pop().unwrap();
    let blob_manifest = arguments.pop().unwrap();
    let blob_lock = arguments.pop().unwrap();
    let set = arguments.pop().unwrap();
    Ok(
        ProviderSetCommand::Verify(
            ProviderSetArguments {
                set,
                blob_lock,
                blob_manifest,
                value_lock,
                value_manifest,
                value_backend_lock,
                profile,
            },
        ),
    )
}

} // verus!
