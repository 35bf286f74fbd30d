//! The model of the device side: devices exposing named storages, each
//! storage a tree of content objects.
use vstd::prelude::*;
use crate::namespace::{view_folder, wf_entries, FolderData};

verus! {

/// An opaque identifier for one object in the device namespace; here,
/// its full path.
#[derive(Debug)]
pub struct ContentObject {
    pub id: String,
}

impl ContentObject {
    pub fn new(id: String) -> (r: ContentObject)
        ensures
            r.id == id,
    {
        ContentObject { id }
    }
}

/// What identifies one attached device.
#[derive(Debug)]
pub struct DeviceInfo {
    pub name: String,
}

/// One storage of a device: a named tree of entries.
pub struct StorageModel {
    pub name: String,
    pub root: FolderData,
}

/// One device: its name and its storages.
pub struct DeviceModel {
    pub name: String,
    pub storages: Vec<StorageModel>,
}

/// The access point to every attached device.
pub struct Manager {
    pub devices: Vec<DeviceModel>,
}

impl Manager {
    /// Every storage tree has unique names in every folder.
    pub open spec fn wf(&self) -> bool {
        forall|i: int, j: int|
            0 <= i < self.devices@.len() && 0 <= j < self.devices@[i].storages@.len()
                ==> wf_entries(
                view_folder((#[trigger] self.devices@[i].storages@[j]).root).entries,
            )
    }

    /// A manager over the given devices.
    pub fn new(devices: Vec<DeviceModel>) -> (r: Manager)
        ensures
            r.devices == devices,
    {
        Manager { devices }
    }
}

} // verus!
