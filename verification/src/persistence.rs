//! Where the state of apps is stored.

use crate::paths::{join, joined};
use vstd::prelude::*;
use vstd::string::StringSliceAdditionalSpecFns;

verus! {

/// A state that is stored under a name.
pub trait StorableState {
    const NAME: &'static str;
}

/// The directory of all that polymodo stores, below the directory of the user's state.
pub open spec fn polymodo_home(state_home: Seq<u8>) -> Seq<u8> {
    joined(state_home, "polymodo".spec_bytes())
}

/// The directory of all that polymodo stores; none where the user has no directory for state.
pub fn get_polymodo_state_home(state_home: Option<&Vec<u8>>) -> (res: Option<Vec<u8>>)
    ensures
        res is Some == state_home is Some,
        res is Some ==> res->0@ == polymodo_home(state_home->0@),
{
    match state_home {
        Some(home) => Some(join(home, "polymodo".as_bytes())),
        None => None,
    }
}

/// Where a state is stored: the directory of the app, which is made where it is missing, and the
/// file in it.
pub struct StateFile {
    pub directory: Vec<u8>,
    pub file: Vec<u8>,
}

/// Where a state of an app is stored; nowhere, where the user has no directory for state.
pub fn state_file(state_home: Option<&Vec<u8>>, app_name: &str, state_name: &str) -> (res: Option<
    StateFile,
>)
    ensures
        res is Some == state_home is Some,
        res is Some ==> {
            let directory = joined(polymodo_home(state_home->0@), app_name.spec_bytes());
            &&& res->0.directory@ == directory
            &&& res->0.file@ == joined(directory, state_name.spec_bytes())
        },
{
    match get_polymodo_state_home(state_home) {
        Some(home) => {
            let directory = join(&home, app_name.as_bytes());
            let file = join(&directory, state_name.as_bytes());
            Some(StateFile { directory, file })
        },
        None => None,
    }
}

} // verus!
