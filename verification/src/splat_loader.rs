//! The state of loading a scene, and how events move it.

use vstd::prelude::*;

verus! {

/// How far the loading of a scene has come.
#[derive(Clone, Copy, Debug, PartialEq, Eq, Hash, Structural)]
pub enum SplatLoadState {
    /// No load is under way; one starts as soon as a path is known.
    WaitingForPath,
    /// A load is under way.
    Loading,
    /// The scene is there.
    Loaded,
    /// The load failed.
    Failed,
}

/// What the asset system says of a load under way.
#[derive(Clone, Copy, Debug, PartialEq, Eq, Structural)]
pub enum LoadStatus {
    /// Not finished yet.
    Pending,
    /// Finished.
    Loaded,
    /// Given up.
    Failed,
}

/// What can happen to a load.
#[derive(Clone, Copy, Debug, PartialEq, Eq, Structural)]
pub enum LoadEvent {
    /// A file was named, on the command line or by dropping it on the
    /// window.
    FileChosen,
    /// A frame began; `path_known` tells whether a path is on record.
    Frame { path_known: bool },
    /// The asset system reported on the load under way.
    Status(LoadStatus),
}

impl SplatLoadState {
    /// The state after an event. A file that was named puts the state back
    /// to waiting, whatever it was. A frame starts the load if the state
    /// waits and a path is known. A report counts only while loading.
    pub open spec fn after(self, event: LoadEvent) -> SplatLoadState {
        match event {
            LoadEvent::FileChosen => SplatLoadState::WaitingForPath,
            LoadEvent::Frame { path_known } => if self.starts_load(event) {
                SplatLoadState::Loading
            } else {
                self
            },
            LoadEvent::Status(status) => match (self, status) {
                (SplatLoadState::Loading, LoadStatus::Loaded) => SplatLoadState::Loaded,
                (SplatLoadState::Loading, LoadStatus::Failed) => SplatLoadState::Failed,
                _ => self,
            },
        }
    }

    /// The event starts a load: the scene shown so far is to be removed and
    /// the file on record loaded.
    pub open spec fn starts_load(self, event: LoadEvent) -> bool {
        self == SplatLoadState::WaitingForPath && event == (LoadEvent::Frame { path_known: true })
    }

    /// Moves the state by one event and tells whether the caller has to
    /// start a load.
    pub fn handle(&mut self, event: LoadEvent) -> (start_load: bool)
        ensures
            *final(self) == old(self).after(event),
            start_load == old(self).starts_load(event),
    {
        match event {
            LoadEvent::FileChosen => {
                *self = SplatLoadState::WaitingForPath;
                false
            },
            LoadEvent::Frame { path_known } => {
                if path_known && matches!(*self, SplatLoadState::WaitingForPath) {
                    *self = SplatLoadState::Loading;
                    true
                } else {
                    false
                }
            },
            LoadEvent::Status(status) => {
                if matches!(*self, SplatLoadState::Loading) {
                    match status {
                        LoadStatus::Loaded => {
                            *self = SplatLoadState::Loaded;
                        },
                        LoadStatus::Failed => {
                            *self = SplatLoadState::Failed;
                        },
                        LoadStatus::Pending => {},
                    }
                }
                false
            },
        }
    }
}

impl Default for SplatLoadState {
    fn default() -> (state: SplatLoadState)
        ensures
            state == SplatLoadState::WaitingForPath,
    {
        SplatLoadState::WaitingForPath
    }
}

} // verus!
