use vstd::prelude::*;

verus! {

/// The signal-priority request state carried by a telegram.
#[derive(Debug, Clone, Copy, PartialEq, Eq, Structural)]
pub enum RequestStatus {
    PreRegistration,
    Registration,
    DeRegistration,
    DoorClosed,
}

/// The status that a raw protocol code stands for, if any.
pub open spec fn status_of_code(code: int) -> Option<RequestStatus> {
    if code == 0 {
        Some(RequestStatus::PreRegistration)
    } else if code == 1 {
        Some(RequestStatus::Registration)
    } else if code == 2 {
        Some(RequestStatus::DeRegistration)
    } else if code == 3 {
        Some(RequestStatus::DoorClosed)
    } else {
        None
    }
}

impl RequestStatus {
    /// Decodes a raw request-status code; unknown codes give `None`.
    pub fn from_code(code: i16) -> (r: Option<RequestStatus>)
        ensures
            r == status_of_code(code as int),
    {
        match code {
            0 => Some(RequestStatus::PreRegistration),
            1 => Some(RequestStatus::Registration),
            2 => Some(RequestStatus::DeRegistration),
            3 => Some(RequestStatus::DoorClosed),
            _ => None,
        }
    }

    /// The raw protocol code of this status.
    pub fn code(&self) -> (r: i16)
        ensures
            status_of_code(r as int) == Some(*self),
    {
        match self {
            RequestStatus::PreRegistration => 0,
            RequestStatus::Registration => 1,
            RequestStatus::DeRegistration => 2,
            RequestStatus::DoorClosed => 3,
        }
    }
}

/// A decoded telegram as delivered by the ingestion transport.
#[derive(Debug, Clone, Copy, PartialEq, Eq, Structural)]
pub struct Telegram {
    pub region: i64,
    pub time: u64,
    pub reporting_point: i32,
    pub direction: i32,
    pub request_status: i32,
    pub line: Option<i32>,
    pub run_number: Option<i32>,
    pub delay: Option<i32>,
}

/// The most recently known state of one vehicle.
#[derive(Debug, Clone, Copy, PartialEq, Eq, Structural)]
pub struct Tram {
    /// Wall-clock time (unix seconds) at which this record was written.
    pub last_update: i64,
    pub region: i64,
    pub reporting_point: i32,
    pub line: u32,
    pub run_number: u32,
    pub time_stamp: u64,
    pub delayed: i32,
    pub direction: u32,
    pub request_status: RequestStatus,
}

/// Why a telegram was dropped without touching any state.
#[derive(Debug, Clone, Copy, PartialEq, Eq, Structural)]
pub enum UpdateError {
    /// The line, the run number or the delay is absent.
    Decode,
    /// The request-status code names no known status.
    StatusDecode,
}

/// The record a telegram yields when written at wall-clock time `now`, or
/// the reason it is dropped.
pub open spec fn decode_spec(t: Telegram, now: i64) -> Result<Tram, UpdateError> {
    if t.line is None || t.run_number is None || t.delay is None {
        Err(UpdateError::Decode)
    } else {
        match status_of_code(t.request_status as i16 as int) {
            None => Err(UpdateError::StatusDecode),
            Some(status) => Ok(
                Tram {
                    last_update: now,
                    region: t.region,
                    reporting_point: t.reporting_point,
                    line: t.line.unwrap() as u32,
                    run_number: t.run_number.unwrap() as u32,
                    time_stamp: t.time,
                    delayed: t.delay.unwrap(),
                    direction: t.direction as u32,
                    request_status: status,
                },
            ),
        }
    }
}

impl Telegram {
    /// Normalises this telegram into a vehicle record written at `now`.
    pub fn decode(&self, now: i64) -> (r: Result<Tram, UpdateError>)
        ensures
            r == decode_spec(*self, now),
    {
        let (line, run_number, delay) = match (self.line, self.run_number, self.delay) {
            (Some(l), Some(r), Some(d)) => (l, r, d),
            _ => {
                return Err(UpdateError::Decode);
            },
        };
        let status = match RequestStatus::from_code(self.request_status as i16) {
            Some(s) => s,
            None => {
                return Err(UpdateError::StatusDecode);
            },
        };
        Ok(
            Tram {
                last_update: now,
                region: self.region,
                reporting_point: self.reporting_point,
                line: line as u32,
                run_number: run_number as u32,
                time_stamp: self.time,
                delayed: delay,
                direction: self.direction as u32,
                request_status: status,
            },
        )
    }
}

} // verus!
