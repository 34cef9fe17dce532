use crate::model::dialog::Scene;
use crate::model::talker::Talker;
use vstd::prelude::*;

verus! {

/// What one input file holds: scenes, or talkers.
#[derive(Debug, PartialEq, Eq)]
pub enum KukuriData {
    Scenes(Vec<Scene>),
    Talkers(Vec<Talker>),
}

impl KukuriData {
    /// No scenes.
    pub fn new() -> (r: KukuriData)
        ensures
            r matches KukuriData::Scenes(v) && v@.len() == 0,
    {
        KukuriData::Scenes(Vec::new())
    }

    pub fn from_scenes(scenes: Vec<Scene>) -> (r: KukuriData)
        ensures
            r == KukuriData::Scenes(scenes),
    {
        KukuriData::Scenes(scenes)
    }

    pub fn from_talkers(talkers: Vec<Talker>) -> (r: KukuriData)
        ensures
            r == KukuriData::Talkers(talkers),
    {
        KukuriData::Talkers(talkers)
    }
}

} // verus!
