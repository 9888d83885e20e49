//! Weather warnings and station observations.

use vstd::prelude::*;
use vstd::string::*;

use crate::double::Double;
use crate::geo::{GeoPoint, WorldPoint};
use crate::layers::Rgb8;
use crate::text::{contains_text, has_part, same_text, stands_at};

verus! {

/// A weather warning for an area.
#[derive(Debug)]
pub struct WarningFeature {
    /// The outline of the area in world coordinates.
    pub polygon: Vec<WorldPoint>,
    /// The severity as the service names it.
    pub awareness_level: String,
    /// The kind of event.
    pub event: String,
    pub country_code: String,
    /// Seconds since the epoch.
    pub onset: Option<i64>,
    /// Seconds since the epoch.
    pub expires: Option<i64>,
}

#[derive(Debug)]
pub struct WarningLayer {
    pub features: Vec<WarningFeature>,
    pub updated_at: Option<i64>,
}

/// What a weather station reported.
#[derive(Debug)]
pub struct ObservationPoint {
    pub point: GeoPoint,
    pub world: WorldPoint,
    /// The name to show.
    pub station_id: String,
    /// The identity; empty in data saved before it was recorded.
    pub wigos_id: String,
    pub temperature: Option<Double>,
    pub wind_speed: Option<Double>,
    pub wind_direction: Option<Double>,
    pub humidity: Option<Double>,
    pub pressure: Option<Double>,
}

#[derive(Debug)]
pub struct ObservationLayer {
    pub points: Vec<ObservationPoint>,
    pub updated_at: Option<i64>,
}

impl ObservationPoint {
    /// The same report again.
    pub fn duplicate(&self) -> (p: ObservationPoint)
        ensures
            p == *self,
    {
        ObservationPoint {
            point: self.point,
            world: self.world,
            station_id: self.station_id.clone(),
            wigos_id: self.wigos_id.clone(),
            temperature: self.temperature,
            wind_speed: self.wind_speed,
            wind_direction: self.wind_direction,
            humidity: self.humidity,
            pressure: self.pressure,
        }
    }
}

/// The same reports again.
pub fn duplicate_points(points: &Vec<ObservationPoint>) -> (r: Vec<ObservationPoint>)
    ensures
        r@ == points@,
{
    let mut r: Vec<ObservationPoint> = Vec::new();
    let mut i: usize = 0;
    while i < points.len()
        invariant
            i <= points.len(),
            r@ == points@.take(i as int),
        decreases points.len() - i,
    {
        assert(points@.take(i + 1) =~= points@.take(i as int).push(points@[i as int]));
        r.push(points[i].duplicate());
        i = i + 1;
    }
    assert(points@.take(i as int) =~= points@);
    r
}

impl WarningFeature {
    pub open spec fn display_color(self) -> Rgb8 {
        let level = self.awareness_level@;
        if level == "red"@ || level == "4; red; Extreme"@ {
            Rgb8 { r: 255, g: 0, b: 0 }
        } else if level == "orange"@ || level == "3; orange; Severe"@ {
            Rgb8 { r: 255, g: 165, b: 0 }
        } else if level == "yellow"@ || level == "2; yellow; Moderate"@ {
            Rgb8 { r: 255, g: 191, b: 0 }
        } else {
            Rgb8 { r: 0, g: 255, b: 0 }
        }
    }

    /// Return a display color based on awareness level.
    pub fn color(&self) -> (c: Rgb8)
        ensures
            c == self.display_color(),
    {
        let level = self.awareness_level.as_str();
        if same_text(level, "red") || same_text(level, "4; red; Extreme") {
            Rgb8::red()
        } else if same_text(level, "orange") || same_text(level, "3; orange; Severe") {
            Rgb8::new(255, 165, 0)
        } else if same_text(level, "yellow") || same_text(level, "2; yellow; Moderate") {
            Rgb8::amber()
        } else {
            Rgb8::green()
        }
    }

    pub open spec fn severity(self) -> Seq<char> {
        let level = self.awareness_level@;
        if has_part(level, "red"@) {
            "Red"@
        } else if has_part(level, "orange"@) {
            "Orange"@
        } else if has_part(level, "yellow"@) {
            "Yellow"@
        } else {
            "Green"@
        }
    }

    /// Return a human-readable severity label.
    pub fn severity_label(&self) -> (s: &'static str)
        ensures
            s@ == self.severity(),
    {
        let level = self.awareness_level.as_str();
        if contains_text(level, "red") {
            "Red"
        } else if contains_text(level, "orange") {
            "Orange"
        } else if contains_text(level, "yellow") {
            "Yellow"
        } else {
            "Green"
        }
    }
}

/// The colour of a warning and its label say the same: a red one is labelled red,
/// an orange one orange and a yellow one yellow.
pub proof fn colours_match_their_labels(w: WarningFeature)
    ensures
        w.display_color() == (Rgb8 { r: 255, g: 0, b: 0 }) ==> w.severity() == "Red"@,
        w.display_color() == (Rgb8 { r: 255, g: 165, b: 0 }) ==> w.severity() == "Orange"@,
        w.display_color() == (Rgb8 { r: 255, g: 191, b: 0 }) ==> w.severity() == "Yellow"@,
{
    let level = w.awareness_level@;
    reveal_strlit("red");
    reveal_strlit("4; red; Extreme");
    reveal_strlit("orange");
    reveal_strlit("3; orange; Severe");
    reveal_strlit("yellow");
    reveal_strlit("2; yellow; Moderate");
    if level == "red"@ {
        assert("red"@.subrange(0, 3) =~= "red"@);
        assert(stands_at(level, "red"@, 0));
    } else if level == "4; red; Extreme"@ {
        assert("4; red; Extreme"@.subrange(3, 6) =~= "red"@);
        assert(stands_at(level, "red"@, 3));
    } else if level == "orange"@ {
        assert("orange"@.subrange(0, 6) =~= "orange"@);
        assert(stands_at(level, "orange"@, 0));
        lemma_no_part(level, "red"@);
    } else if level == "3; orange; Severe"@ {
        assert("3; orange; Severe"@.subrange(3, 9) =~= "orange"@);
        assert(stands_at(level, "orange"@, 3));
        lemma_no_part(level, "red"@);
    } else if level == "yellow"@ {
        assert("yellow"@.subrange(0, 6) =~= "yellow"@);
        assert(stands_at(level, "yellow"@, 0));
        lemma_no_part(level, "red"@);
        lemma_no_part(level, "orange"@);
    } else if level == "2; yellow; Moderate"@ {
        assert("2; yellow; Moderate"@.subrange(3, 9) =~= "yellow"@);
        assert(stands_at(level, "yellow"@, 3));
        lemma_no_part(level, "red"@);
        lemma_no_part(level, "orange"@);
    }
}

/// A text does not hold another where nowhere the first two letters of that one
/// stand with room for the others.
proof fn lemma_no_part(hay: Seq<char>, needle: Seq<char>)
    requires
        needle.len() >= 2,
        forall|i: int|
            0 <= i <= hay.len() - needle.len() ==> !(#[trigger] hay[i] == needle[0] && hay[i + 1]
                == needle[1]),
    ensures
        !has_part(hay, needle),
{
    assert forall|i: int| !(#[trigger] stands_at(hay, needle, i)) by {
        if stands_at(hay, needle, i) {
            let part = hay.subrange(i, i + needle.len());
            assert(part[0] == hay[i]);
            assert(part[1] == hay[i + 1]);
        }
    }
}

} // verus!
