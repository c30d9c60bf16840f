use vstd::prelude::*;

use crate::state::State;

verus! {

/// A request naming a region by its city name.
pub struct NetworkRequest {
    pub region: String,
}

/// A request for one vehicle, by line and run number.
#[derive(Debug, Clone, Copy, PartialEq, Eq, Structural)]
pub struct RequestVehicleInformation {
    pub line: u32,
    pub run: u32,
}

/// The body of a failed query.
pub struct Error {
    pub error_message: String,
}

/// The region id of a city name, if the name is known.
pub open spec fn region_of_name(name: Seq<char>) -> Option<i64> {
    if name == "dresden"@ {
        Some(0)
    } else if name == "chemnitz"@ {
        Some(1)
    } else if name == "karlsruhe"@ {
        Some(2)
    } else if name == "berlin"@ {
        Some(3)
    } else {
        None
    }
}

/// The region id of the city `name`.
pub fn region_by_name(name: &String) -> (r: Option<i64>)
    ensures
        r == region_of_name(name@),
{
    if *name == "dresden".to_owned() {
        Some(0)
    } else if *name == "chemnitz".to_owned() {
        Some(1)
    } else if *name == "karlsruhe".to_owned() {
        Some(2)
    } else if *name == "berlin".to_owned() {
        Some(3)
    } else {
        None
    }
}

impl NetworkRequest {
    /// The id of the requested region, which must be both named correctly
    /// and registered in `state`.
    pub fn resolve(&self, state: &State) -> (r: Result<i64, Error>)
        requires
            state.wf(),
        ensures
            match r {
                Ok(id) => region_of_name(self.region@) == Some(id) && state@.contains_key(id),
                Err(e) => match region_of_name(self.region@) {
                    None => e.error_message@ == "Invalid Region ID"@,
                    Some(id) => !state@.contains_key(id) && e.error_message@
                        == "Network of region was not initialized!"@,
                },
            },
    {
        match region_by_name(&self.region) {
            None => Err(Error { error_message: "Invalid Region ID".to_owned() }),
            Some(id) => match state.region(id) {
                Some(_) => Ok(id),
                None => Err(Error { error_message: "Network of region was not initialized!".to_owned() }),
            },
        }
    }
}

} // verus!
