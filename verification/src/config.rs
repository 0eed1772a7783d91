//! Construction-time configuration.

use vstd::prelude::*;
use crate::decimal::{parse_i64, parse_u32, parsed_i64, parsed_u32};

verus! {

/// What one run works with: the credential, the folder the traversal starts
/// from, and an optional bound on the number of download links per run. The
/// bound, where there is one, is positive.
pub struct Config {
    oauth_token: String,
    parent_id: i64,
    max_display: Option<u32>,
}

/// The mathematical value of a [`Config`].
#[verifier::ext_equal]
pub struct ConfigView {
    pub oauth_token: Seq<char>,
    pub parent_id: i64,
    pub max_display: Option<u32>,
}

impl ConfigView {
    /// Whether this is a configuration that can be: a cap of no links at all
    /// is none.
    pub open spec fn wf(self) -> bool {
        self.max_display matches Some(cap) ==> cap > 0
    }
}

impl View for Config {
    type V = ConfigView;

    closed spec fn view(&self) -> ConfigView {
        ConfigView {
            oauth_token: self.oauth_token@,
            parent_id: self.parent_id,
            max_display: self.max_display,
        }
    }
}

/// The complaint about an argument list that is too short.
pub const NOT_ENOUGH_ARGUMENTS: &'static str =
    "Not enough arguments: oauth_token and parent_id folder are required.";

/// The complaint about a folder identifier that is no integer.
pub const INVALID_PARENT_ID: &'static str =
    "Invalid parent_id: a decimal integer of 64 bits is required.";

/// The complaint about a display cap that is no positive integer.
pub const INVALID_MAX_DISPLAY: &'static str =
    "Invalid max_display: a decimal integer from 1 to 4294967295 is required.";

/// The display cap that a fourth argument asks for: a positive integer of 32
/// bits, and nothing else.
pub open spec fn parsed_cap(text: Seq<char>) -> Option<u32> {
    match parsed_u32(text) {
        Some(cap) => if cap > 0 {
            Some(cap)
        } else {
            None
        },
        None => None,
    }
}

/// The complaint that an argument list draws, if it draws one. The first
/// fault from the left decides.
pub open spec fn rejection(args: Seq<Seq<char>>) -> Option<Seq<char>> {
    if args.len() < 3 {
        Some(NOT_ENOUGH_ARGUMENTS@)
    } else if parsed_i64(args[2]) is None {
        Some(INVALID_PARENT_ID@)
    } else if args.len() == 4 && parsed_cap(args[3]) is None {
        Some(INVALID_MAX_DISPLAY@)
    } else {
        None
    }
}

impl Config {
    #[verifier::type_invariant]
    spec fn cap_is_positive(self) -> bool {
        self.max_display matches Some(cap) ==> cap > 0
    }

    /// Reads the configuration off the argument list of the process: the
    /// program name, the credential, the root folder, and, where there are
    /// exactly four arguments, the display cap. Arguments beyond the fourth
    /// switch the cap off again.
    pub fn new(args: &[String]) -> (result: Result<Config, &'static str>)
        ensures
            match result {
                Ok(config) => {
                    &&& rejection(args.deep_view()) is None
                    &&& config@.wf()
                    &&& config@.oauth_token == args[1]@
                    &&& Some(config@.parent_id) == parsed_i64(args[2]@)
                    &&& config@.max_display == if args.len() == 4 {
                        parsed_cap(args[3]@)
                    } else {
                        None
                    }
                },
                Err(message) => rejection(args.deep_view()) == Some(message@),
            },
    {
        if args.len() < 3 {
            return Err(NOT_ENOUGH_ARGUMENTS);
        }
        assert(args.deep_view()[2] == args[2]@);
        let oauth_token = args[1].clone();
        let parent_id = match parse_i64(args[2].as_str()) {
            Some(id) => id,
            None => {
                return Err(INVALID_PARENT_ID);
            },
        };
        let mut max_display: Option<u32> = None;
        if args.len() == 4 {
            assert(args.deep_view()[3] == args[3]@);
            match parse_u32(args[3].as_str()) {
                Some(cap) => {
                    if cap == 0 {
                        return Err(INVALID_MAX_DISPLAY);
                    }
                    max_display = Some(cap);
                },
                None => {
                    return Err(INVALID_MAX_DISPLAY);
                },
            }
        }
        Ok(Config { oauth_token, parent_id, max_display })
    }

    /// The credential.
    pub fn oauth_token(&self) -> (token: &String)
        ensures
            token@ == self@.oauth_token,
    {
        &self.oauth_token
    }

    /// The folder at which the traversal starts.
    pub fn parent_id(&self) -> (id: i64)
        ensures
            id == self@.parent_id,
    {
        self.parent_id
    }

    /// The display cap, if one is configured; it is positive.
    pub fn max_display(&self) -> (cap: Option<u32>)
        ensures
            cap == self@.max_display,
            cap matches Some(limit) ==> limit > 0,
    {
        proof {
            use_type_invariant(self);
        }
        self.max_display
    }
}

} // verus!
