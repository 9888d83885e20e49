//! The warnings on the map: asking for them, and taking them in.

use vstd::prelude::*;
use vstd::string::*;

use crate::features::WarningLayer;
use crate::layers::{LayerId, LayerRegistry, LayerStatus};
use crate::radar::{id_after, next_id};
use crate::tasks::{TaskKind, TaskMsg};

verus! {

#[derive(Debug)]
pub enum WarnRefreshPayload {
    Ready(WarningLayer),
    Error(String),
}

#[derive(Debug)]
pub struct WarnRefreshResult {
    pub id: u64,
    pub result: WarnRefreshPayload,
}

/// The warnings shown and the fetch under way.
#[derive(Debug)]
pub struct Warnings {
    pub refresh_id: u64,
    pub running: bool,
    /// When a fetch was last started, on the program's clock.
    pub last_attempt: Option<u64>,
    pub layer: Option<WarningLayer>,
}

/// A fetch to start, in place of one under way.
#[derive(Debug)]
pub struct WarnPlan {
    pub abort: bool,
    pub id: u64,
    pub start: TaskMsg,
}

impl Warnings {
    pub fn new() -> (w: Warnings)
        ensures
            w == (Warnings { refresh_id: 0, running: false, last_attempt: None, layer: None }),
    {
        Warnings { refresh_id: 0, running: false, last_attempt: None, layer: None }
    }

    /// Ask for a fetch, where the layer is drawn.
    pub fn request_warning_refresh(&mut self, layers: &mut LayerRegistry, now: u64, task_id: u64)
        -> (plan: Option<WarnPlan>)
        requires
            old(layers).well_formed(),
        ensures
            if old(layers).shown(LayerId::MeteoAlarm) {
                &&& *final(self) == (Warnings {
                    refresh_id: next_id(old(self).refresh_id),
                    running: true,
                    last_attempt: Some(now),
                    layer: old(self).layer,
                })
                &&& old(layers).updated(
                    *final(layers),
                    LayerId::MeteoAlarm,
                    LayerStatus::Loading,
                    now,
                )
                &&& plan matches Some(p) && p.abort == old(self).running && p.id == next_id(
                    old(self).refresh_id,
                ) && (p.start matches TaskMsg::Start { id, label, kind } && id == task_id && label@
                    == "warnings"@ && kind == TaskKind::Warning)
            } else {
                &&& *final(self) == *old(self)
                &&& *final(layers) == *old(layers)
                &&& plan is None
            },
    {
        if !layers.enabled(LayerId::MeteoAlarm) {
            return None;
        }
        let abort = self.running;
        self.running = true;
        self.refresh_id = id_after(self.refresh_id);
        self.last_attempt = Some(now);
        layers.set_status(LayerId::MeteoAlarm, LayerStatus::Loading, now);
        Some(
            WarnPlan {
                abort,
                id: self.refresh_id,
                start: TaskMsg::Start {
                    id: task_id,
                    label: "warnings".to_string(),
                    kind: TaskKind::Warning,
                },
            },
        )
    }

    /// Take in a fetch; one that was superseded is ignored. A failure leaves
    /// what is shown. Returns whether it was taken.
    pub fn drain_warning_result(
        &mut self,
        layers: &mut LayerRegistry,
        result: WarnRefreshResult,
        now: u64,
    ) -> (changed: bool)
        requires
            old(layers).well_formed(),
        ensures
            changed == (result.id == old(self).refresh_id),
            final(self).refresh_id == old(self).refresh_id,
            final(self).last_attempt == old(self).last_attempt,
            if changed {
                &&& !final(self).running
                &&& match result.result {
                    WarnRefreshPayload::Ready(layer) => {
                        &&& final(self).layer == Some(layer)
                        &&& old(layers).updated(
                            *final(layers),
                            LayerId::MeteoAlarm,
                            LayerStatus::Ready,
                            now,
                        )
                    },
                    WarnRefreshPayload::Error(e) => {
                        &&& final(self).layer == old(self).layer
                        &&& old(layers).updated(
                            *final(layers),
                            LayerId::MeteoAlarm,
                            LayerStatus::Error(e),
                            now,
                        )
                    },
                }
            } else {
                &&& final(self).running == old(self).running
                &&& final(self).layer == old(self).layer
                &&& *final(layers) == *old(layers)
            },
    {
        if result.id != self.refresh_id {
            return false;
        }
        self.running = false;
        match result.result {
            WarnRefreshPayload::Ready(layer) => {
                self.layer = Some(layer);
                layers.set_status(LayerId::MeteoAlarm, LayerStatus::Ready, now);
            },
            WarnRefreshPayload::Error(e) => {
                layers.set_status(LayerId::MeteoAlarm, LayerStatus::Error(e), now);
            },
        }
        true
    }
}

} // verus!
