//! The search prompt, the pin, and the lookups behind them.

use vstd::prelude::*;
use vstd::string::*;

use crate::double::Double;
use crate::geo::GeoPoint;
use crate::geocode::{head_of_name, place_name, text_model, Place};
use crate::layers::LayerStatus;
use crate::radar::{id_after, next_id};
use crate::text::{blank, is_blank, shortened, trim, trimmed};

verus! {

/// How a search ended.
#[derive(Debug)]
pub enum SearchOutcome {
    Found(Place),
    NoMatch,
    Error(String),
}

/// A finished search, with its query.
#[derive(Debug)]
pub struct SearchResult {
    pub id: u64,
    pub query: String,
    pub outcome: SearchOutcome,
}

/// The prompt, the pin and the latest search.
#[derive(Debug)]
pub struct Search {
    /// What is typed; none while the prompt is closed.
    pub input: Option<String>,
    pub status: Option<String>,
    pub pin: Option<GeoPoint>,
    pub label: Option<String>,
    pub id: u64,
    pub running: bool,
    /// Whether the pin is drawn.
    pub pin_shown: bool,
    pub layer_status: LayerStatus,
}

/// A lookup to start, in place of one under way.
#[derive(Debug)]
pub struct SearchPlan {
    pub abort: bool,
    pub id: u64,
    pub query: String,
}

/// The number 7: a place that was found is shown from at least this zoom.
pub const SEARCH_MIN_ZOOM_BITS: u64 = 0x401c_0000_0000_0000;

/// Where the view jumps.
#[derive(Debug, Clone, Copy, PartialEq, Eq, Structural)]
pub struct Jump {
    pub lat: Double,
    pub lon: Double,
    pub zoom: Double,
}

impl Search {
    pub fn new() -> (s: Search)
        ensures
            s.input is None,
            s.status is None,
            s.pin is None,
            s.label is None,
            s.id == 0,
            !s.running,
            !s.pin_shown,
            s.layer_status is Idle,
    {
        Search {
            input: None,
            status: None,
            pin: None,
            label: None,
            id: 0,
            running: false,
            pin_shown: false,
            layer_status: LayerStatus::Idle,
        }
    }

    /// Open the prompt with nothing typed.
    pub fn open_search(&mut self)
        ensures
            *final(self) == (Search { input: final(self).input, status: None, ..*old(self) }),
            final(self).input matches Some(t) && t@ == Seq::<char>::empty(),
    {
        self.input = Some(String::new());
        self.status = None;
    }

    /// Close the prompt. The pin stays.
    pub fn cancel_search(&mut self)
        ensures
            *final(self) == (Search { input: None, status: None, ..*old(self) }),
    {
        self.input = None;
        self.status = None;
    }

    pub fn search_is_open(&self) -> (r: bool)
        ensures
            r == (self.input is Some),
    {
        self.input.is_some()
    }

    /// Type a character into the prompt, where it is open.
    pub fn search_push_char(&mut self, c: char)
        ensures
            *final(self) == (Search { input: final(self).input, ..*old(self) }),
            text_model(final(self).input) == match old(self).input {
                Some(t) => Some(t@.push(c)),
                None => None,
            },
    {
        match &mut self.input {
            Some(t) => {
                t.push(c);
            },
            None => {},
        }
    }

    /// Delete the last character in the prompt, where it is open.
    pub fn search_backspace(&mut self)
        ensures
            *final(self) == (Search { input: final(self).input, ..*old(self) }),
            text_model(final(self).input) == match old(self).input {
                Some(t) => Some(shortened(t@)),
                None => None,
            },
    {
        match &mut self.input {
            Some(t) => {
                let _ = t.pop();
            },
            None => {},
        }
    }

    /// Drop the pin.
    pub fn clear_search_pin(&mut self)
        ensures
            *final(self) == (Search {
                pin: None,
                label: None,
                pin_shown: false,
                layer_status: LayerStatus::Idle,
                ..*old(self)
            }),
    {
        self.pin = None;
        self.label = None;
        self.pin_shown = false;
        self.layer_status = LayerStatus::Idle;
    }

    /// Search for what is typed, and close the prompt. Nothing is searched for
    /// where the prompt is closed or what is typed is blank.
    pub fn submit_search(&mut self) -> (plan: Option<SearchPlan>)
        ensures
            final(self).input is None,
            final(self).pin == old(self).pin,
            final(self).label == old(self).label,
            final(self).pin_shown == old(self).pin_shown,
            match old(self).input {
                None => plan is None && *final(self) == *old(self),
                Some(t) => if blank(t@) {
                    plan is None && *final(self) == (Search {
                        input: None,
                        status: None,
                        ..*old(self)
                    })
                } else {
                    &&& plan matches Some(p) && p.abort == old(self).running && p.id == next_id(
                        old(self).id,
                    ) && p.query@ == trimmed(t@)
                    &&& final(self).id == next_id(old(self).id)
                    &&& final(self).running
                    &&& final(self).layer_status is Loading
                    &&& text_model(final(self).status) == Some(
                        "Searching for \""@ + trimmed(t@) + "\"\u{2026}"@,
                    )
                },
            },
    {
        let mut input: Option<String> = None;
        std::mem::swap(&mut input, &mut self.input);
        match input {
            None => None,
            Some(t) => {
                if is_blank(t.as_str()) {
                    self.status = None;
                    return None;
                }
                let query = trim(t.as_str());
                let abort = self.running;
                self.id = id_after(self.id);
                self.running = true;
                self.status = Some(
                    "Searching for \"".to_string().concat(query.as_str()).concat("\"\u{2026}"),
                );
                self.layer_status = LayerStatus::Loading;
                Some(SearchPlan { abort, id: self.id, query })
            },
        }
    }

    /// Take in a finished search; one that was superseded is ignored. A place
    /// that was found gets the pin, and the view jumps to it. Returns whether
    /// the result was taken, and the jump. `zoom` is the present zoom.
    pub fn drain_search_result(&mut self, result: SearchResult, zoom: Double) -> (r: (
        bool,
        Option<Jump>,
    ))
        ensures
            r.0 == (result.id == old(self).id),
            !r.0 ==> *final(self) == *old(self) && r.1 is None,
            r.0 ==> {
                &&& final(self).input == old(self).input
                &&& final(self).id == old(self).id
                &&& final(self).running == old(self).running
                &&& match result.outcome {
                    SearchOutcome::Found(place) => {
                        &&& final(self).pin == Some(place.point)
                        &&& text_model(final(self).label) == place_name(place.display_name@)
                        &&& final(self).pin_shown
                        &&& final(self).layer_status is Ready
                        &&& text_model(final(self).status) == Some(place.display_name@)
                        &&& r.1 == Some(
                            Jump {
                                lat: place.point.lat,
                                lon: place.point.lon,
                                zoom: zoom.or_larger(Double { bits: SEARCH_MIN_ZOOM_BITS }),
                            },
                        )
                    },
                    SearchOutcome::NoMatch => {
                        &&& final(self).pin == old(self).pin
                        &&& final(self).label == old(self).label
                        &&& final(self).pin_shown == old(self).pin_shown
                        &&& final(self).layer_status is Idle
                        &&& text_model(final(self).status) == Some(
                            "No match for \""@ + result.query@ + "\""@,
                        )
                        &&& r.1 is None
                    },
                    SearchOutcome::Error(e) => {
                        &&& final(self).pin == old(self).pin
                        &&& final(self).label == old(self).label
                        &&& final(self).pin_shown == old(self).pin_shown
                        &&& final(self).layer_status matches LayerStatus::Error(m) && m@ == e@
                        &&& text_model(final(self).status) == Some("Search failed: "@ + e@)
                        &&& r.1 is None
                    },
                }
            },
    {
        if result.id != self.id {
            return (false, None);
        }
        match result.outcome {
            SearchOutcome::Found(place) => {
                self.pin = Some(place.point);
                self.label = head_of_name(place.display_name.as_str());
                self.pin_shown = true;
                self.layer_status = LayerStatus::Ready;
                let jump = Jump {
                    lat: place.point.lat,
                    lon: place.point.lon,
                    zoom: zoom.max(Double::from_bits(SEARCH_MIN_ZOOM_BITS)),
                };
                self.status = Some(place.display_name);
                (true, Some(jump))
            },
            SearchOutcome::NoMatch => {
                self.status = Some(
                    "No match for \"".to_string().concat(result.query.as_str()).concat("\""),
                );
                self.layer_status = LayerStatus::Idle;
                (true, None)
            },
            SearchOutcome::Error(e) => {
                self.status = Some("Search failed: ".to_string().concat(e.as_str()));
                self.layer_status = LayerStatus::Error(e);
                (true, None)
            },
        }
    }
}

} // verus!
