use vstd::prelude::*;

use crate::job::DataType;
use crate::system::{System, TerminationCause};
use crate::textenc::{b64_encode, b64_encode_of, str_concat, utf8_lossy, utf8_lossy_of};

verus! {

/// The result document both harnesses emit. An empty `cycles` array and a
/// `None` field are left out of the rendered document.
pub struct RunResult {
    pub num_cycles: u32,
    pub last_pc: Option<u16>,
    pub termination_cause: TerminationCause,
    pub cycles: Vec<String>,
    pub serial_out_data: Option<String>,
}

/// The prefixed rendering of captured serial output.
pub open spec fn serial_out_spec(fmt: Option<DataType>, data: Seq<u8>) -> Option<Seq<char>> {
    match fmt {
        None => None,
        Some(DataType::Utf8) => Some("utf8:"@ + utf8_lossy_of(data)),
        Some(DataType::Base64) => Some("base64:"@ + b64_encode_of(data)),
    }
}

/// Render captured serial output under the requested format, prefix and
/// all; no format, no field.
pub fn encode_serial_out(fmt: &Option<DataType>, data: &Vec<u8>) -> (r: Option<String>)
    requires
        data@.len() <= 0x10000000,
    ensures
        match serial_out_spec(*fmt, data@) {
            Some(sv) => r matches Some(s) && s@ == sv,
            None => r is None,
        },
{
    match fmt {
        None => None,
        Some(DataType::Utf8) => {
            let body = utf8_lossy(data.as_slice());
            Some(str_concat("utf8:", body.as_str()))
        },
        Some(DataType::Base64) => {
            let body = b64_encode(data.as_slice());
            Some(str_concat("base64:", body.as_str()))
        },
    }
}

/// Merge a finished supervisor into the common result document.
pub fn assemble_result(sys: System, fmt: &Option<DataType>) -> (r: RunResult)
    requires
        sys.termination_cause is Some,
        sys.serial_out_data@.len() <= 0x10000000,
    ensures
        r.num_cycles == sys.num_cycles,
        r.last_pc == sys.last_pc,
        Some(r.termination_cause) == sys.termination_cause,
        r.cycles == sys.cycles,
        match serial_out_spec(*fmt, sys.serial_out_data@) {
            Some(sv) => r.serial_out_data matches Some(s) && s@ == sv,
            None => r.serial_out_data is None,
        },
{
    let cause = match sys.termination_cause {
        Some(c) => c,
        None => {
            proof {
                assert(false);
            }
            TerminationCause::Limit
        },
    };
    let serial_out_data = encode_serial_out(fmt, &sys.serial_out_data);
    RunResult {
        num_cycles: sys.num_cycles,
        last_pc: sys.last_pc,
        termination_cause: cause,
        cycles: sys.cycles,
        serial_out_data,
    }
}

} // verus!
