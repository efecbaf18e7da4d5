//! The data handed to a decision and its mathematical view.

use vstd::hash_map::StringHashMap;
use vstd::prelude::*;

verus! {

/// A candidate for assignment.
pub struct Worker {
    pub id: String,
    pub role: String,
    pub skills: Vec<String>,
    /// Day-of-week abbreviation to a window `"<start-hour>-<end-hour>"`.
    pub availability: StringHashMap<String>,
    pub max_hours_per_week: i32,
    pub current_hours: i32,
    /// Recognised keys: `"pref"` and `"avoid"`.
    pub shift_preferences: Option<StringHashMap<String>>,
    /// Recognised key: `"max_hrs"`.
    pub fatigue_threshold: Option<StringHashMap<i32>>,
}

/// A staffing need for one time window, with the pool to fill it from.
pub struct ShiftInput {
    pub shift_id: String,
    pub absent_worker_id: String,
    /// RFC 3339 timestamp.
    pub start: String,
    /// RFC 3339 timestamp.
    pub end: String,
    pub role: String,
    pub required_skills: Vec<String>,
    pub workers: Vec<Worker>,
}

/// The outcome of a decision: the shift, and the worker chosen for it.
/// An empty `new_worker_id` means that no worker was chosen.
#[derive(Debug, Clone)]
pub struct ShiftOutput {
    pub shift_id: String,
    pub new_worker_id: String,
}

/// When a shift starts, as far as a decision looks at it: the day of the
/// week as a three-letter abbreviation, and the hour of the day, both in UTC.
#[derive(Debug, Clone)]
pub struct ShiftStart {
    pub day: String,
    pub hour: u32,
}

/// Mathematical view of a [`Worker`].
pub struct WorkerView {
    pub id: Seq<char>,
    pub role: Seq<char>,
    pub skills: Seq<Seq<char>>,
    pub availability: Map<Seq<char>, Seq<char>>,
    pub max_hours_per_week: int,
    pub current_hours: int,
    pub shift_preferences: Option<Map<Seq<char>, Seq<char>>>,
    pub fatigue_threshold: Option<Map<Seq<char>, int>>,
}

/// Mathematical view of a [`ShiftInput`].
pub struct ShiftView {
    pub shift_id: Seq<char>,
    pub absent_worker_id: Seq<char>,
    pub start: Seq<char>,
    pub end: Seq<char>,
    pub role: Seq<char>,
    pub required_skills: Seq<Seq<char>>,
    pub workers: Seq<WorkerView>,
}

/// Mathematical view of a [`ShiftOutput`].
pub struct OutputView {
    pub shift_id: Seq<char>,
    pub new_worker_id: Seq<char>,
}

/// Mathematical view of a [`ShiftStart`].
pub struct StartView {
    pub day: Seq<char>,
    pub hour: int,
}

/// The strings of a vector, as sequences of characters.
pub open spec fn texts(v: Seq<String>) -> Seq<Seq<char>> {
    v.map_values(|s: String| s@)
}

/// A string-valued table, with its values as sequences of characters.
pub open spec fn text_table(m: Map<Seq<char>, String>) -> Map<Seq<char>, Seq<char>> {
    m.map_values(|s: String| s@)
}

/// An integer-valued table, with its values as mathematical integers.
pub open spec fn int_table(m: Map<Seq<char>, i32>) -> Map<Seq<char>, int> {
    m.map_values(|n: i32| n as int)
}

impl View for Worker {
    type V = WorkerView;

    open spec fn view(&self) -> WorkerView {
        WorkerView {
            id: self.id@,
            role: self.role@,
            skills: texts(self.skills@),
            availability: text_table(self.availability@),
            max_hours_per_week: self.max_hours_per_week as int,
            current_hours: self.current_hours as int,
            shift_preferences: match self.shift_preferences {
                Some(m) => Some(text_table(m@)),
                None => None,
            },
            fatigue_threshold: match self.fatigue_threshold {
                Some(m) => Some(int_table(m@)),
                None => None,
            },
        }
    }
}

impl View for ShiftInput {
    type V = ShiftView;

    open spec fn view(&self) -> ShiftView {
        ShiftView {
            shift_id: self.shift_id@,
            absent_worker_id: self.absent_worker_id@,
            start: self.start@,
            end: self.end@,
            role: self.role@,
            required_skills: texts(self.required_skills@),
            workers: self.workers@.map_values(|w: Worker| w@),
        }
    }
}

impl View for ShiftOutput {
    type V = OutputView;

    open spec fn view(&self) -> OutputView {
        OutputView { shift_id: self.shift_id@, new_worker_id: self.new_worker_id@ }
    }
}

impl View for ShiftStart {
    type V = StartView;

    open spec fn view(&self) -> StartView {
        StartView { day: self.day@, hour: self.hour as int }
    }
}

} // verus!
