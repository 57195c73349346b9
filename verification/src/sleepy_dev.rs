//! The development plugin that only keeps the plugin manager waiting.

use vstd::prelude::*;
use crate::sharedtypes::{PluginCallback, PluginCommunicationChannel, PluginInfo, PluginSharedData, PluginThreadType};

verus! {

/// What the plugin says of itself: its name and description, version 1.00
/// of itself and of the interface, called on start, run in a thread of
/// its own, talking over an unnamed pipe.
pub fn return_info() -> (r: PluginInfo)
    ensures
        r.name@ == "SleepyDev"@,
        r.description@ == "Just makes the plugin manager wait. Dev use only lol"@,
        r.version == 100,
        r.api_version == 100,
        r.callbacks@ == seq![PluginCallback::OnStart],
        r.communication matches Some(c) && c.thread == PluginThreadType::Spawn
            && (c.com_channel matches Some(PluginCommunicationChannel::Pipe(p)) && p@ == Seq::<char>::empty()),
{
    let callbackvec = vec![PluginCallback::OnStart];
    PluginInfo {
        name: String::from_str("SleepyDev"),
        description: String::from_str("Just makes the plugin manager wait. Dev use only lol"),
        version: 100,
        api_version: 100,
        callbacks: callbackvec,
        communication: Some(PluginSharedData {
            thread: PluginThreadType::Spawn,
            com_channel: Some(PluginCommunicationChannel::Pipe(String::new())),
        }),
    }
}

} // verus!
