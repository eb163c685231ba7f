//! Changes of device settings, from the request to the answer.

use crate::hardware::DeviceOption;
use crate::input::plots;
use vstd::prelude::*;

verus! {

/// A setting to change on the device.
#[derive(Clone, Debug, PartialEq, Eq)]
pub struct DeviceOptionRequest {
    pub request_id: u64,
    pub id: String,
    pub label: String,
    pub choice: String,
}

/// What came of a request: the settings the device has now, or why it refused.
#[derive(Debug)]
pub struct DeviceOptionCompletion {
    pub request: DeviceOptionRequest,
    pub result: Result<Vec<DeviceOption>, String>,
}

/// How a request starts.
pub enum OptionStart {
    /// The device is asked.
    Run(DeviceOptionRequest),
    /// There is nobody to ask.
    Complete(DeviceOptionCompletion),
}

/// What to do once the device has answered a change.
pub enum OptionStep {
    /// Read the settings again: a change may have changed others.
    Refresh,
    Failed(String),
}

/// Starts a request, which without a device is answered at once.
pub fn start_device_option(request: DeviceOptionRequest, has_device: bool) -> (r: OptionStart)
    ensures
        if has_device {
            r == OptionStart::Run(request)
        } else {
            &&& r matches OptionStart::Complete(c)
            &&& c.request == request
            &&& c.result matches Err(why)
            &&& why@ == "device is unavailable"@
        },
{
    if has_device {
        return OptionStart::Run(request);
    }
    let why = plots::text_of("device is unavailable");
    OptionStart::Complete(DeviceOptionCompletion { request, result: Err(why) })
}

/// A change the device refused is not followed by reading its settings.
pub fn execute_device_option(answer: Result<(), String>) -> (r: OptionStep)
    ensures
        match answer {
            Ok(_) => r == OptionStep::Refresh,
            Err(why) => r == OptionStep::Failed(why),
        },
{
    match answer {
        Ok(_) => OptionStep::Refresh,
        Err(why) => OptionStep::Failed(why),
    }
}

} // verus!
