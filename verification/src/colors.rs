//! Colors for drawing the map unzoomed, and the agent color schemes: how
//! moving agents are classified into named, toggleable categories.

use vstd::prelude::*;

verus! {

/// An RGBA color. Channels are bytes; 255 is fully opaque.
#[derive(Clone, Copy, Debug, PartialEq, Eq, Structural, Hash)]
pub struct Color {
    pub r: u8,
    pub g: u8,
    pub b: u8,
    pub a: u8,
}

impl Color {
    /// An opaque color from its three channels.
    pub fn rgb(r: u8, g: u8, b: u8) -> (c: Color)
        ensures
            c == (Color { r, g, b, a: 255 }),
    {
        Color { r, g, b, a: 255 }
    }

    /// The same color with another alpha channel.
    pub fn alpha(self, a: u8) -> (c: Color)
        ensures
            c == (Color { a, ..self }),
    {
        Color { a, ..self }
    }
}

pub open spec fn spec_rgb(r: u8, g: u8, b: u8) -> Color {
    Color { r, g, b, a: 255 }
}

pub open spec fn spec_rgba(r: u8, g: u8, b: u8, a: u8) -> Color {
    Color { r, g, b, a }
}

/// A rotating palette of ten distinguishable colors.
pub open spec fn spec_rotating_color(i: int) -> Color {
    let j = i % 10;
    if j == 0 {
        spec_rgb(204, 51, 63)
    } else if j == 1 {
        spec_rgb(235, 110, 68)
    } else if j == 2 {
        spec_rgb(237, 201, 81)
    } else if j == 3 {
        spec_rgb(0, 160, 176)
    } else if j == 4 {
        spec_rgb(106, 74, 60)
    } else if j == 5 {
        spec_rgb(204, 42, 65)
    } else if j == 6 {
        spec_rgb(62, 184, 144)
    } else if j == 7 {
        spec_rgb(255, 140, 0)
    } else if j == 8 {
        spec_rgb(127, 255, 212)
    } else {
        spec_rgb(102, 102, 153)
    }
}

pub fn rotating_color(i: usize) -> (c: Color)
    ensures
        c == spec_rotating_color(i as int),
{
    let j = i % 10;
    if j == 0 {
        Color::rgb(204, 51, 63)
    } else if j == 1 {
        Color::rgb(235, 110, 68)
    } else if j == 2 {
        Color::rgb(237, 201, 81)
    } else if j == 3 {
        Color::rgb(0, 160, 176)
    } else if j == 4 {
        Color::rgb(106, 74, 60)
    } else if j == 5 {
        Color::rgb(204, 42, 65)
    } else if j == 6 {
        Color::rgb(62, 184, 144)
    } else if j == 7 {
        Color::rgb(255, 140, 0)
    } else if j == 8 {
        Color::rgb(127, 255, 212)
    } else {
        Color::rgb(102, 102, 153)
    }
}

/// A named color registry: a reading of the color scheme file, with a
/// default for every name not overridden there.
#[derive(Clone, Debug, PartialEq)]
pub struct ColorScheme {
    pub overrides: Vec<(String, Color)>,
}

/// The override for a name, scanning from position `j`.
pub open spec fn override_color_from(s: Seq<(String, Color)>, name: Seq<char>, j: int) -> Option<
    Color,
>
    decreases s.len() - j,
{
    if j < 0 || j >= s.len() {
        None
    } else if s[j].0@ == name {
        Some(s[j].1)
    } else {
        override_color_from(s, name, j + 1)
    }
}

/// The color registered under a name, or the default.
pub open spec fn spec_get_def(cs: &ColorScheme, name: Seq<char>, default: Color) -> Color {
    match override_color_from(cs.overrides@, name, 0) {
        Some(c) => c,
        None => default,
    }
}

impl ColorScheme {
    /// A scheme with no overrides: every name maps to its default.
    pub fn plain() -> (cs: ColorScheme)
        ensures
            forall|name: Seq<char>, default: Color| spec_get_def(&cs, name, default) == default,
    {
        ColorScheme { overrides: Vec::new() }
    }

    /// The color registered under `name`, or `default` when the scheme does
    /// not override it.
    pub fn get_def(&self, name: &String, default: Color) -> (c: Color)
        ensures
            c == spec_get_def(self, name@, default),
    {
        let n = self.overrides.len();
        for j in 0..n
            invariant
                n == self.overrides@.len(),
                override_color_from(self.overrides@, name@, 0) == override_color_from(
                    self.overrides@,
                    name@,
                    j as int,
                ),
        {
            if self.overrides[j].0.eq(name) {
                return self.overrides[j].1;
            }
        }
        default
    }
}

/// The color a road is drawn with when unzoomed, by its importance rank.
pub fn osm_rank_to_color(cs: &ColorScheme, rank: usize) -> (c: Color)
    ensures
        rank >= 16 ==> c == spec_get_def(cs, "unzoomed highway road"@, spec_rgb(232, 146, 162)),
        6 <= rank < 16 ==> c == spec_get_def(cs, "unzoomed arterial road"@, spec_rgb(255, 199, 62)),
        rank < 6 ==> c == spec_get_def(
            cs,
            "unzoomed residential road"@,
            spec_rgb(255, 255, 255),
        ),
{
    if rank >= 16 {
        cs.get_def(&"unzoomed highway road".to_owned(), Color::rgb(232, 146, 162))
    } else if rank >= 6 {
        cs.get_def(&"unzoomed arterial road".to_owned(), Color::rgb(255, 199, 62))
    } else {
        cs.get_def(&"unzoomed residential road".to_owned(), Color::rgb(255, 255, 255))
    }
}

/// What kind of vehicle an agent drives; a pedestrian drives none.
#[derive(Clone, Copy, Debug, PartialEq, Eq, Structural, Hash)]
pub enum VehicleType {
    Car,
    Bike,
    Bus,
}

/// What the simulation reports of one agent while the view is unzoomed.
#[derive(Clone, Copy, Debug, PartialEq, Eq, Structural)]
pub struct UnzoomedAgent {
    pub vehicle_type: Option<VehicleType>,
    /// Seconds this agent has spent blocked.
    pub time_spent_blocked: u64,
    /// Seconds since this agent's trip began.
    pub trip_time_so_far: u64,
    /// How much of the distance to its goal it has crossed, in permille.
    pub percent_dist_crossed: u32,
}

/// The ways agents can be classified into colored categories.
#[derive(Clone, Copy, Debug, PartialEq, Eq, Structural)]
pub enum InnerAgentColorScheme {
    VehicleTypes,
    Delay,
    TripTimeSoFar,
    DistanceCrossedSoFar,
}

/// The category name for a delay of `secs` seconds.
pub open spec fn spec_classify_delay(secs: u64) -> Seq<char> {
    if secs <= 60 {
        "<= 1 minute"@
    } else if secs <= 300 {
        "<= 5 minutes"@
    } else {
        "> 5 minutes"@
    }
}

pub fn classify_delay(secs: u64) -> (s: String)
    ensures
        s@ == spec_classify_delay(secs),
{
    if secs <= 60 {
        "<= 1 minute".to_owned()
    } else if secs <= 300 {
        "<= 5 minutes".to_owned()
    } else {
        "> 5 minutes".to_owned()
    }
}

/// The category name for a crossed distance of `permille` thousandths:
/// rounded to the nearest tenth, except that anything beyond nine tenths
/// counts as "> 90%".
pub open spec fn spec_classify_percent(permille: u32) -> Seq<char> {
    if permille > 900 {
        "> 90%"@
    } else if permille <= 100 {
        "<= 10%"@
    } else {
        let bucket = (permille + 50) / 100;
        if bucket <= 1 {
            "<= 10%"@
        } else if bucket == 2 {
            "<= 20%"@
        } else if bucket == 3 {
            "<= 30%"@
        } else if bucket == 4 {
            "<= 40%"@
        } else if bucket == 5 {
            "<= 50%"@
        } else if bucket == 6 {
            "<= 60%"@
        } else if bucket == 7 {
            "<= 70%"@
        } else if bucket == 8 {
            "<= 80%"@
        } else {
            "<= 90%"@
        }
    }
}

pub fn classify_percent(permille: u32) -> (s: String)
    ensures
        s@ == spec_classify_percent(permille),
{
    if permille > 900 {
        return "> 90%".to_owned();
    }
    if permille <= 100 {
        return "<= 10%".to_owned();
    }
    let bucket = (permille + 50) / 100;
    if bucket <= 1 {
        "<= 10%".to_owned()
    } else if bucket == 2 {
        "<= 20%".to_owned()
    } else if bucket == 3 {
        "<= 30%".to_owned()
    } else if bucket == 4 {
        "<= 40%".to_owned()
    } else if bucket == 5 {
        "<= 50%".to_owned()
    } else if bucket == 6 {
        "<= 60%".to_owned()
    } else if bucket == 7 {
        "<= 70%".to_owned()
    } else if bucket == 8 {
        "<= 80%".to_owned()
    } else {
        "<= 90%".to_owned()
    }
}

impl InnerAgentColorScheme {
    /// How many categories the scheme has.
    pub open spec fn spec_row_count(self) -> int {
        match self {
            InnerAgentColorScheme::VehicleTypes => 4,
            InnerAgentColorScheme::Delay => 3,
            InnerAgentColorScheme::TripTimeSoFar => 3,
            InnerAgentColorScheme::DistanceCrossedSoFar => 10,
        }
    }

    /// The scheme's title.
    pub open spec fn spec_title(self) -> Seq<char> {
        match self {
            InnerAgentColorScheme::VehicleTypes => "vehicle types"@,
            InnerAgentColorScheme::Delay => "time spent delayed/blocked"@,
            InnerAgentColorScheme::TripTimeSoFar => "trip time so far"@,
            InnerAgentColorScheme::DistanceCrossedSoFar => "distance crossed to goal so far"@,
        }
    }

    /// The name of category `j` of the scheme.
    pub open spec fn spec_row_name(self, j: int) -> Seq<char> {
        match self {
            InnerAgentColorScheme::VehicleTypes => {
                if j == 0 {
                    "car"@
                } else if j == 1 {
                    "bike"@
                } else if j == 2 {
                    "bus"@
                } else {
                    "pedestrian"@
                }
            },
            InnerAgentColorScheme::Delay => {
                if j == 0 {
                    "<= 1 minute"@
                } else if j == 1 {
                    "<= 5 minutes"@
                } else {
                    "> 5 minutes"@
                }
            },
            InnerAgentColorScheme::TripTimeSoFar => {
                if j == 0 {
                    "<= 1 minute"@
                } else if j == 1 {
                    "<= 5 minutes"@
                } else {
                    "> 5 minutes"@
                }
            },
            InnerAgentColorScheme::DistanceCrossedSoFar => {
                if j == 0 {
                    "<= 10%"@
                } else if j == 1 {
                    "<= 20%"@
                } else if j == 2 {
                    "<= 30%"@
                } else if j == 3 {
                    "<= 40%"@
                } else if j == 4 {
                    "<= 50%"@
                } else if j == 5 {
                    "<= 60%"@
                } else if j == 6 {
                    "<= 70%"@
                } else if j == 7 {
                    "<= 80%"@
                } else if j == 8 {
                    "<= 90%"@
                } else {
                    "> 90%"@
                }
            },
        }
    }

    /// The color of category `j` of the scheme.
    pub open spec fn spec_row_color(self, cs: &ColorScheme, j: int) -> Color {
        match self {
            InnerAgentColorScheme::VehicleTypes => {
                if j == 0 {
                    spec_get_def(cs, "unzoomed car"@, spec_rgba(255, 0, 0, 128))
                } else if j == 1 {
                    spec_get_def(cs, "unzoomed bike"@, spec_rgba(0, 255, 0, 128))
                } else if j == 2 {
                    spec_get_def(cs, "unzoomed bus"@, spec_rgba(0, 0, 255, 128))
                } else {
                    spec_get_def(cs, "unzoomed pedestrian"@, spec_rgba(255, 165, 0, 128))
                }
            },
            InnerAgentColorScheme::Delay | InnerAgentColorScheme::TripTimeSoFar => {
                if j == 0 {
                    spec_rgba(0, 0, 255, 77)
                } else if j == 1 {
                    spec_rgba(255, 165, 0, 128)
                } else {
                    spec_rgba(255, 0, 0, 204)
                }
            },
            InnerAgentColorScheme::DistanceCrossedSoFar => spec_rotating_color(j),
        }
    }

    /// The scheme's title and its category names and colors.
    pub fn data(self, cs: &ColorScheme) -> (r: (String, Vec<(String, Color)>))
        ensures
            r.0@ == self.spec_title(),
            r.1@.len() == self.spec_row_count(),
            forall|j: int| 0 <= j < r.1@.len() ==> (#[trigger] r.1@[j]).0@ == self.spec_row_name(j)
                && r.1@[j].1 == self.spec_row_color(cs, j),
    {
        let mut rows: Vec<(String, Color)> = Vec::new();
        match self {
            InnerAgentColorScheme::VehicleTypes => {
                rows.push(
                    ("car".to_owned(), cs.get_def(&"unzoomed car".to_owned(), Color::rgb(255, 0, 0).alpha(128))),
                );
                rows.push(
                    ("bike".to_owned(), cs.get_def(&"unzoomed bike".to_owned(), Color::rgb(0, 255, 0).alpha(128))),
                );
                rows.push(
                    ("bus".to_owned(), cs.get_def(&"unzoomed bus".to_owned(), Color::rgb(0, 0, 255).alpha(128))),
                );
                rows.push(
                    ("pedestrian".to_owned(), cs.get_def(&"unzoomed pedestrian".to_owned(), Color::rgb(255, 165, 0).alpha(128))),
                );
                ("vehicle types".to_owned(), rows)
            },
            InnerAgentColorScheme::Delay => {
                rows.push(("<= 1 minute".to_owned(), Color::rgb(0, 0, 255).alpha(77)));
                rows.push(("<= 5 minutes".to_owned(), Color::rgb(255, 165, 0).alpha(128)));
                rows.push(("> 5 minutes".to_owned(), Color::rgb(255, 0, 0).alpha(204)));
                ("time spent delayed/blocked".to_owned(), rows)
            },
            InnerAgentColorScheme::TripTimeSoFar => {
                rows.push(("<= 1 minute".to_owned(), Color::rgb(0, 0, 255).alpha(77)));
                rows.push(("<= 5 minutes".to_owned(), Color::rgb(255, 165, 0).alpha(128)));
                rows.push(("> 5 minutes".to_owned(), Color::rgb(255, 0, 0).alpha(204)));
                ("trip time so far".to_owned(), rows)
            },
            InnerAgentColorScheme::DistanceCrossedSoFar => {
                rows.push(("<= 10%".to_owned(), rotating_color(0)));
                rows.push(("<= 20%".to_owned(), rotating_color(1)));
                rows.push(("<= 30%".to_owned(), rotating_color(2)));
                rows.push(("<= 40%".to_owned(), rotating_color(3)));
                rows.push(("<= 50%".to_owned(), rotating_color(4)));
                rows.push(("<= 60%".to_owned(), rotating_color(5)));
                rows.push(("<= 70%".to_owned(), rotating_color(6)));
                rows.push(("<= 80%".to_owned(), rotating_color(7)));
                rows.push(("<= 90%".to_owned(), rotating_color(8)));
                rows.push(("> 90%".to_owned(), rotating_color(9)));
                ("distance crossed to goal so far".to_owned(), rows)
            },
        }
    }

    /// The category an agent falls in.
    pub open spec fn spec_classify(self, agent: UnzoomedAgent) -> Seq<char> {
        match self {
            InnerAgentColorScheme::VehicleTypes => {
                match agent.vehicle_type {
                    Some(VehicleType::Car) => "car"@,
                    Some(VehicleType::Bike) => "bike"@,
                    Some(VehicleType::Bus) => "bus"@,
                    None => "pedestrian"@,
                }
            },
            InnerAgentColorScheme::Delay => spec_classify_delay(agent.time_spent_blocked),
            InnerAgentColorScheme::TripTimeSoFar => spec_classify_delay(agent.trip_time_so_far),
            InnerAgentColorScheme::DistanceCrossedSoFar => spec_classify_percent(
                agent.percent_dist_crossed,
            ),
        }
    }

    pub fn classify(self, agent: &UnzoomedAgent) -> (s: String)
        ensures
            s@ == self.spec_classify(*agent),
    {
        match self {
            InnerAgentColorScheme::VehicleTypes => {
                match agent.vehicle_type {
                    Some(VehicleType::Car) => "car".to_owned(),
                    Some(VehicleType::Bike) => "bike".to_owned(),
                    Some(VehicleType::Bus) => "bus".to_owned(),
                    None => "pedestrian".to_owned(),
                }
            },
            InnerAgentColorScheme::Delay => classify_delay(agent.time_spent_blocked),
            InnerAgentColorScheme::TripTimeSoFar => classify_delay(agent.trip_time_so_far),
            InnerAgentColorScheme::DistanceCrossedSoFar => classify_percent(
                agent.percent_dist_crossed,
            ),
        }
    }

    /// Whatever the agent, its category is one of the scheme's rows.
    pub proof fn lemma_classify_in_rows(self, agent: UnzoomedAgent)
        ensures
            exists|j: int| 0 <= j < self.spec_row_count() && self.spec_classify(agent)
                == #[trigger] self.spec_row_name(j),
    {
        match self {
            InnerAgentColorScheme::VehicleTypes => {
                match agent.vehicle_type {
                    Some(VehicleType::Car) => assert(self.spec_classify(agent)
                        == self.spec_row_name(0)),
                    Some(VehicleType::Bike) => assert(self.spec_classify(agent)
                        == self.spec_row_name(1)),
                    Some(VehicleType::Bus) => assert(self.spec_classify(agent)
                        == self.spec_row_name(2)),
                    None => assert(self.spec_classify(agent) == self.spec_row_name(3)),
                }
            },
            InnerAgentColorScheme::Delay => {
                let secs = agent.time_spent_blocked;
                if secs <= 60 {
                    assert(self.spec_classify(agent) == self.spec_row_name(0));
                } else if secs <= 300 {
                    assert(self.spec_classify(agent) == self.spec_row_name(1));
                } else {
                    assert(self.spec_classify(agent) == self.spec_row_name(2));
                }
            },
            InnerAgentColorScheme::TripTimeSoFar => {
                let secs = agent.trip_time_so_far;
                if secs <= 60 {
                    assert(self.spec_classify(agent) == self.spec_row_name(0));
                } else if secs <= 300 {
                    assert(self.spec_classify(agent) == self.spec_row_name(1));
                } else {
                    assert(self.spec_classify(agent) == self.spec_row_name(2));
                }
            },
            InnerAgentColorScheme::DistanceCrossedSoFar => {
                let p = agent.percent_dist_crossed;
                if p > 900 {
                    assert(self.spec_classify(agent) == self.spec_row_name(9));
                } else if p <= 100 {
                    assert(self.spec_classify(agent) == self.spec_row_name(0));
                } else {
                    let bucket = (p + 50) / 100;
                    assert(1 <= bucket <= 9);
                    if bucket <= 1 {
                        assert(self.spec_classify(agent) == self.spec_row_name(0));
                    } else {
                        assert(self.spec_classify(agent) == self.spec_row_name(bucket as int - 1));
                    }
                }
            },
        }
    }
}

/// The rows really are the scheme's categories, in order.
pub open spec fn acs_wf(a: &AgentColorScheme) -> bool {
    &&& a.rows@.len() == a.acs.spec_row_count()
    &&& forall|j: int| 0 <= j < a.rows@.len() ==> (#[trigger] a.rows@[j]).0@ == a.acs.spec_row_name(
        j,
    )
}

/// One way of classifying agents, its categories resolved to named colors
/// the viewer can toggle.
#[derive(Clone, Debug, PartialEq)]
pub struct AgentColorScheme {
    pub acs: InnerAgentColorScheme,
    pub title: String,
    pub rows: Vec<(String, Color, bool)>,
}

impl AgentColorScheme {
    /// Resolve a classification scheme against the color registry, all
    /// categories enabled.
    pub fn new(acs: InnerAgentColorScheme, cs: &ColorScheme) -> (r: AgentColorScheme)
        ensures
            acs_wf(&r),
            r.acs == acs,
            r.title@ == acs.spec_title(),
            forall|j: int| 0 <= j < r.rows@.len() ==> (#[trigger] r.rows@[j]).1
                == acs.spec_row_color(cs, j) && r.rows@[j].2 == true,
    {
        let (title, data_rows) = acs.data(cs);
        let mut rows: Vec<(String, Color, bool)> = Vec::new();
        let n = data_rows.len();
        for k in 0..n
            invariant
                n == data_rows@.len(),
                rows@.len() == k,
                forall|j: int| 0 <= j < k ==> (#[trigger] rows@[j]).0 == data_rows@[j].0
                    && rows@[j].1 == data_rows@[j].1 && rows@[j].2 == true,
        {
            let (name, color) = &data_rows[k];
            rows.push((name.clone(), *color, true));
        }
        AgentColorScheme { acs, title, rows }
    }

    /// The scheme shown until the viewer picks another: vehicle types, all
    /// categories enabled and resolved against the registry.
    pub fn default(cs: &ColorScheme) -> (r: AgentColorScheme)
        ensures
            acs_wf(&r),
            r.acs == InnerAgentColorScheme::VehicleTypes,
            r.title@ == InnerAgentColorScheme::VehicleTypes.spec_title(),
            forall|j: int| 0 <= j < r.rows@.len() ==> (#[trigger] r.rows@[j]).1
                == r.acs.spec_row_color(cs, j) && r.rows@[j].2 == true,
    {
        AgentColorScheme::new(InnerAgentColorScheme::VehicleTypes, cs)
    }

    /// Every scheme, each with its title, all categories enabled and
    /// resolved against the registry.
    pub fn all(cs: &ColorScheme) -> (v: Vec<(AgentColorScheme, String)>)
        ensures
            v@.len() == 4,
            forall|j: int| 0 <= j < 4 ==> acs_wf(&(#[trigger] v@[j]).0) && v@[j].1@ == v@[
                j
            ].0.acs.spec_title() && v@[j].0.title@ == v@[j].0.acs.spec_title(),
            forall|j: int, c: int| 0 <= j < 4 && 0 <= c < (#[trigger] v@[j]).0.rows@.len() ==> (
            #[trigger] v@[j].0.rows@[c]).1 == v@[j].0.acs.spec_row_color(cs, c) && v@[
                j
            ].0.rows@[c].2 == true,
            v@[0].0.acs == InnerAgentColorScheme::VehicleTypes,
            v@[1].0.acs == InnerAgentColorScheme::Delay,
            v@[2].0.acs == InnerAgentColorScheme::TripTimeSoFar,
            v@[3].0.acs == InnerAgentColorScheme::DistanceCrossedSoFar,
    {
        let mut v: Vec<(AgentColorScheme, String)> = Vec::new();
        let x0 = AgentColorScheme::new(InnerAgentColorScheme::VehicleTypes, cs);
        let t0 = x0.title.clone();
        proof {
            assert(t0@ == x0.title@);
        }
        v.push((x0, t0));
        let x1 = AgentColorScheme::new(InnerAgentColorScheme::Delay, cs);
        let t1 = x1.title.clone();
        v.push((x1, t1));
        let x2 = AgentColorScheme::new(InnerAgentColorScheme::TripTimeSoFar, cs);
        let t2 = x2.title.clone();
        v.push((x2, t2));
        let x3 = AgentColorScheme::new(InnerAgentColorScheme::DistanceCrossedSoFar, cs);
        let t3 = x3.title.clone();
        v.push((x3, t3));
        v
    }

    /// Flip whether the named category is shown. The name must be one of
    /// the scheme's categories.
    pub fn toggle(&mut self, name: String)
        requires
            exists|j: int| 0 <= j < old(self).rows@.len() && (#[trigger] old(self).rows@[j]).0@
                == name@,
        ensures
            final(self).acs == old(self).acs,
            final(self).title == old(self).title,
            exists|j: int|
                {
                    &&& 0 <= j < old(self).rows@.len()
                    &&& (#[trigger] old(self).rows@[j]).0@ == name@
                    &&& (forall|k: int| 0 <= k < j ==> (#[trigger] old(self).rows@[k]).0@ != name@)
                    &&& final(self).rows@ == old(self).rows@.update(
                        j,
                        (old(self).rows@[j].0, old(self).rows@[j].1, !old(self).rows@[j].2),
                    )
                },
    {
        let n = self.rows.len();
        let ghost orig = self.rows@;
        for k in 0..n
            invariant
                n == self.rows@.len(),
                self.rows@ == orig,
                orig == old(self).rows@,
                self.acs == old(self).acs,
                self.title == old(self).title,
                exists|j: int| 0 <= j < orig.len() && (#[trigger] orig[j]).0@ == name@,
                forall|q: int| 0 <= q < k ==> (#[trigger] orig[q]).0@ != name@,
        {
            if self.rows[k].0.eq(&name) {
                let row = self.rows.remove(k);
                self.rows.insert(k, (row.0, row.1, !row.2));
                proof {
                    assert(self.rows@ =~= orig.update(
                        k as int,
                        (orig[k as int].0, orig[k as int].1, !orig[k as int].2),
                    ));
                    assert((#[trigger] old(self).rows@[k as int]).0@ == name@);
                }
                return;
            }
        }
        proof {
            let j = choose|j: int| 0 <= j < orig.len() && (#[trigger] orig[j]).0@ == name@;
            assert(false);
        }
    }

    /// The color of the first category the agent falls in, scanning the
    /// rows from position `j`: its color when enabled, nothing when the
    /// viewer toggled it off.
    pub open spec fn color_from(
        rows: Seq<(String, Color, bool)>,
        cat: Seq<char>,
        j: int,
    ) -> Option<Color>
        decreases rows.len() - j,
    {
        if j < 0 || j >= rows.len() {
            None
        } else if rows[j].0@ == cat {
            if rows[j].2 {
                Some(rows[j].1)
            } else {
                None
            }
        } else {
            Self::color_from(rows, cat, j + 1)
        }
    }

    /// What the agent is drawn with: its category's color, or nothing when
    /// that category is toggled off.
    pub open spec fn spec_color(&self, agent: UnzoomedAgent) -> Option<Color> {
        Self::color_from(self.rows@, self.acs.spec_classify(agent), 0)
    }

    pub fn color(&self, agent: &UnzoomedAgent) -> (r: Option<Color>)
        requires
            acs_wf(self),
        ensures
            r == self.spec_color(*agent),
    {
        let category = self.acs.classify(agent);
        let ghost cat = self.acs.spec_classify(*agent);
        let n = self.rows.len();
        for k in 0..n
            invariant
                n == self.rows@.len(),
                acs_wf(self),
                category@ == cat,
                cat == self.acs.spec_classify(*agent),
                Self::color_from(self.rows@, cat, 0) == Self::color_from(
                    self.rows@,
                    cat,
                    k as int,
                ),
                forall|q: int| 0 <= q < k ==> (#[trigger] self.rows@[q]).0@ != cat,
        {
            if self.rows[k].0.eq(&category) {
                proof {
                    assert(Self::color_from(self.rows@, cat, k as int) == (if self.rows@[
                    k as int].2 {
                        Some(self.rows@[k as int].1)
                    } else {
                        None
                    }));
                }
                if self.rows[k].2 {
                    return Some(self.rows[k].1);
                }
                return None;
            }
        }
        proof {
            self.acs.lemma_classify_in_rows(*agent);
            let j = choose|j: int| 0 <= j < self.acs.spec_row_count() && cat
                == #[trigger] self.acs.spec_row_name(j);
            assert(self.rows@[j].0@ == cat);
            assert(false);
        }
        None
    }
}

} // verus!
