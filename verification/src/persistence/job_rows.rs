//! Station jobs as they are stored: the inputs held in escrow are one JSON text.

use vstd::prelude::*;

use crate::persistence::rows::{StationJob, StationJobView};
use crate::text::{copy_opt_text, opt_text, pairs_view};

verus! {

/// A station job as it is stored.
#[derive(Debug, Clone, PartialEq, Eq)]
pub struct StationJobRow {
    pub id: String,
    pub station_id: String,
    pub character_id: String,
    pub slot: i64,
    pub recipe_id: String,
    pub inputs_json: String,
    pub fuel_units: i64,
    pub output_item: String,
    pub output_qty: i64,
    pub xp: i64,
    pub skill: String,
    pub started_at: i64,
    pub ready_at: i64,
    pub state: String,
    pub fail_reason: Option<String>,
}

/// The view of a [`StationJobRow`].
pub struct StationJobRowView {
    pub id: Seq<char>,
    pub station_id: Seq<char>,
    pub character_id: Seq<char>,
    pub slot: int,
    pub recipe_id: Seq<char>,
    pub inputs_json: Seq<char>,
    pub fuel_units: int,
    pub output_item: Seq<char>,
    pub output_qty: int,
    pub xp: int,
    pub skill: Seq<char>,
    pub started_at: int,
    pub ready_at: int,
    pub state: Seq<char>,
    pub fail_reason: Option<Seq<char>>,
}

impl View for StationJobRow {
    type V = StationJobRowView;

    open spec fn view(&self) -> StationJobRowView {
        StationJobRowView {
            id: self.id@,
            station_id: self.station_id@,
            character_id: self.character_id@,
            slot: self.slot as int,
            recipe_id: self.recipe_id@,
            inputs_json: self.inputs_json@,
            fuel_units: self.fuel_units as int,
            output_item: self.output_item@,
            output_qty: self.output_qty as int,
            xp: self.xp as int,
            skill: self.skill@,
            started_at: self.started_at as int,
            ready_at: self.ready_at as int,
            state: self.state@,
            fail_reason: opt_text(self.fail_reason),
        }
    }
}

/// The named quantities that a JSON text lists; `None` for any other text. This is what
/// `serde_json::from_str` makes of it.
pub uninterp spec fn json_pairs(text: Seq<char>) -> Option<Seq<(Seq<char>, int)>>;

/// The JSON text of a list of named quantities. This is what `serde_json::to_string` makes of it.
pub uninterp spec fn json_pairs_text(pairs: Seq<(Seq<char>, int)>) -> Seq<char>;

pub open spec fn opt_pairs(v: Option<Vec<(String, i64)>>) -> Option<Seq<(Seq<char>, int)>> {
    match v {
        Some(p) => Some(pairs_view(p@)),
        None => None,
    }
}

/// `serde_json::from_str` of a text as a list of pairs of a string and an `i64`. What it takes for such a list is
/// named, not stated.
#[verifier::external_body]
fn pairs_from_json(text: &str) -> (out: Option<Vec<(String, i64)>>)
    ensures
        opt_pairs(out) == json_pairs(text@),
{
    serde_json::from_str(text).ok()
}

/// `serde_json::to_string` of a list of pairs. Reading the text gives the list back.
#[verifier::external_body]
fn pairs_to_json(pairs: &Vec<(String, i64)>) -> (text: String)
    ensures
        text@ == json_pairs_text(pairs_view(pairs@)),
        json_pairs(text@) == Some(pairs_view(pairs@)),
{
    serde_json::to_string(pairs).unwrap_or_else(|_| "[]".to_string())
}

/// The inputs that a stored text stands for; none where it is no list of inputs.
pub open spec fn stored_inputs(text: Seq<char>) -> Seq<(Seq<char>, int)> {
    match json_pairs(text) {
        Some(p) => p,
        None => Seq::empty(),
    }
}

/// The job that a row stands for, with these inputs.
pub open spec fn job_with(r: StationJobRowView, inputs: Seq<(Seq<char>, int)>) -> StationJobView {
    StationJobView {
        id: r.id,
        station_id: r.station_id,
        character_id: r.character_id,
        slot: r.slot,
        recipe_id: r.recipe_id,
        inputs,
        fuel_units: r.fuel_units,
        output_item: r.output_item,
        output_qty: r.output_qty,
        xp: r.xp,
        skill: r.skill,
        started_at: r.started_at,
        ready_at: r.ready_at,
        state: r.state,
        fail_reason: r.fail_reason,
    }
}

/// The job that a row stands for.
pub open spec fn stored_job(r: StationJobRowView) -> StationJobView {
    job_with(r, stored_inputs(r.inputs_json))
}

impl StationJobRow {
    /// The row that stores a job.
    pub fn of(job: &StationJob) -> (r: StationJobRow)
        ensures
            r@.inputs_json == json_pairs_text(job@.inputs),
            stored_job(r@) == job@,
    {
        let inputs_json = pairs_to_json(&job.inputs);
        StationJobRow {
            id: job.id.clone(),
            station_id: job.station_id.clone(),
            character_id: job.character_id.clone(),
            slot: job.slot,
            recipe_id: job.recipe_id.clone(),
            inputs_json,
            fuel_units: job.fuel_units,
            output_item: job.output_item.clone(),
            output_qty: job.output_qty,
            xp: job.xp,
            skill: job.skill.clone(),
            started_at: job.started_at,
            ready_at: job.ready_at,
            state: job.state.clone(),
            fail_reason: copy_opt_text(&job.fail_reason),
        }
    }

    /// The job of this row, with these inputs.
    pub fn with_inputs(self, inputs: Vec<(String, i64)>) -> (job: StationJob)
        ensures
            job@ == job_with(self@, pairs_view(inputs@)),
    {
        StationJob {
            id: self.id,
            station_id: self.station_id,
            character_id: self.character_id,
            slot: self.slot,
            recipe_id: self.recipe_id,
            inputs,
            fuel_units: self.fuel_units,
            output_item: self.output_item,
            output_qty: self.output_qty,
            xp: self.xp,
            skill: self.skill,
            started_at: self.started_at,
            ready_at: self.ready_at,
            state: self.state,
            fail_reason: self.fail_reason,
        }
    }
}

impl StationJob {
    /// The job that a row stands for. A row whose inputs cannot be read holds none.
    pub fn from_row(r: StationJobRow) -> (job: StationJob)
        ensures
            job@ == stored_job(r@),
    {
        let inputs = match pairs_from_json(r.inputs_json.as_str()) {
            Some(p) => p,
            None => Vec::new(),
        };
        assert(pairs_view(inputs@) =~= stored_inputs(r@.inputs_json));
        r.with_inputs(inputs)
    }
}

} // verus!
