use vstd::prelude::*;

verus! {

/// A grid zone of the Universal Transverse Mercator projection.
#[derive(Debug, Clone, Copy, PartialEq, Eq, Structural)]
pub enum Projection {
    UTM32,
    UTM33,
    UTM34,
    UTM35,
}

impl Projection {
    /// The spatial reference identifier that stands for the zone.
    pub open spec fn spec_srid(self) -> u32 {
        match self {
            Projection::UTM32 => 25832,
            Projection::UTM33 => 25833,
            Projection::UTM34 => 25834,
            Projection::UTM35 => 25835,
        }
    }

    pub fn srid(&self) -> (r: u32)
        ensures
            r == self.spec_srid(),
    {
        match self {
            Projection::UTM32 => 25832,
            Projection::UTM33 => 25833,
            Projection::UTM34 => 25834,
            Projection::UTM35 => 25835,
        }
    }
}

/// What a hiker does at a point.
#[derive(Debug, Clone, Copy, PartialEq, Eq, Structural)]
pub enum Action {
    Food,
    Tent,
    Hut,
}

/// A grid position in meters: northings at seven digits, eastings at six.
#[derive(Debug, Clone, Copy, PartialEq, Eq, Structural)]
pub struct Position {
    pub projection: Projection,
    pub eastings: u32,
    pub northings: u32,
}

/// A calendar date.
#[derive(Debug, Clone, Copy, PartialEq, Eq, Structural)]
pub struct Date {
    pub year: i32,
    pub month: u32,
    pub day: u32,
}

/// A time of day.
#[derive(Debug, Clone, Copy, PartialEq, Eq, Structural)]
pub struct Time {
    pub hour: u32,
    pub minute: u32,
    pub second: u32,
}

/// One waypoint of a route.
#[derive(Debug)]
pub struct Point {
    pub position: Position,
    pub action: Option<Action>,
    pub message: Option<String>,
    pub date: Option<Date>,
    pub time: Option<Time>,
}

/// A point with its message as a sequence of characters.
pub struct PointView {
    pub position: Position,
    pub action: Option<Action>,
    pub message: Option<Seq<char>>,
    pub date: Option<Date>,
    pub time: Option<Time>,
}

pub open spec fn text_view(m: Option<String>) -> Option<Seq<char>> {
    match m {
        Some(t) => Some(t@),
        None => None,
    }
}

impl View for Point {
    type V = PointView;

    open spec fn view(&self) -> PointView {
        PointView {
            position: self.position,
            action: self.action,
            message: text_view(self.message),
            date: self.date,
            time: self.time,
        }
    }
}

pub open spec fn points_view(v: Seq<Point>) -> Seq<PointView> {
    v.map_values(|p: Point| p@)
}

/// A hike command.
#[derive(Debug)]
pub enum Command {
    Create(Vec<Point>),
    Edit(Vec<Point>),
    Checkin(Point),
    Complete,
}

pub enum CommandView {
    Create(Seq<PointView>),
    Edit(Seq<PointView>),
    Checkin(PointView),
    Complete,
}

impl View for Command {
    type V = CommandView;

    open spec fn view(&self) -> CommandView {
        match self {
            Command::Create(v) => CommandView::Create(points_view(v@)),
            Command::Edit(v) => CommandView::Edit(points_view(v@)),
            Command::Checkin(p) => CommandView::Checkin(p@),
            Command::Complete => CommandView::Complete,
        }
    }
}


/// The stored-route operation that a command asks for.
#[derive(Debug, Clone, Copy, PartialEq, Eq, Structural)]
pub enum Storage {
    /// Start a new hike from the given points.
    CreateHike,
    /// Replace or extend the route of the current hike.
    EditRoute,
    /// Finish the current hike; takes no payload.
    CompleteHike,
}

impl Command {
    /// Create starts a hike, edit and checkin update its route, and complete
    /// finishes it.
    pub fn storage(&self) -> (r: Storage)
        ensures
            r == match self@ {
                CommandView::Create(_) => Storage::CreateHike,
                CommandView::Edit(_) | CommandView::Checkin(_) => Storage::EditRoute,
                CommandView::Complete => Storage::CompleteHike,
            },
    {
        match self {
            Command::Create(_) => Storage::CreateHike,
            Command::Edit(_) => Storage::EditRoute,
            Command::Checkin(_) => Storage::EditRoute,
            Command::Complete => Storage::CompleteHike,
        }
    }
}

} // verus!
