//! The queries that read a ship's data from the database.
use vstd::prelude::*;

verus! {

/// The frames query up to the ship's id.
pub const FRAMES_HEAD: &'static str = "SELECT pos_x, frame_index as index FROM physical_frame WHERE ship_id=";

/// The frames query between the ship's id and the project's id.
pub const FRAMES_MIDDLE: &'static str = " AND project_id IS NOT DISTINCT FROM ";

/// The end of the frames query.
pub const FRAMES_TAIL: &'static str = " ORDER BY index ASC;";

/// The query of the compartments' maximal level and volume up to the
/// ship's id.
pub const COMPARTMENTS_MAX_HEAD: &'static str = "SELECT\n                    s.code as code, c.level_max as level_max,\n                    c.volume_max as volume_max\n                FROM\n                    \"space\" AS s \n                INNER JOIN \n                    \"space/compartment\" AS c ON s.compartment_id = c.id \n                WHERE ship_id=";

/// The query of the compartments' maximal level and volume between the
/// ship's id and the project's id.
pub const COMPARTMENTS_MAX_MIDDLE: &'static str = " AND project_id IS NOT DISTINCT FROM ";

/// The end of the query of the compartments' maximal level and volume.
pub const COMPARTMENTS_MAX_TAIL: &'static str = ";";

fn fill(head: &str, ship_id: &str, middle: &str, project_id: &str, tail: &str) -> (q: String)
    ensures
        q@ == head@ + ship_id@ + middle@ + project_id@ + tail@,
{
    let mut q = String::from_str(head);
    q.append(ship_id);
    q.append(middle);
    q.append(project_id);
    q.append(tail);
    q
}

/// The query of the positions of the physical frames of ship `ship_id` in
/// project `project_id`, ordered by frame index. The ids are put in as
/// they are: they are SQL literals (`NULL` stands for no project).
pub fn frames_query(ship_id: &str, project_id: &str) -> (q: String)
    ensures
        q@ == FRAMES_HEAD@ + ship_id@ + FRAMES_MIDDLE@ + project_id@ + FRAMES_TAIL@,
{
    fill(FRAMES_HEAD, ship_id, FRAMES_MIDDLE, project_id, FRAMES_TAIL)
}

/// The query of the code, maximal level and maximal volume of every
/// compartment of ship `ship_id` in project `project_id`. The ids are put
/// in as they are: they are SQL literals.
pub fn compartments_max_query(ship_id: &str, project_id: &str) -> (q: String)
    ensures
        q@ == COMPARTMENTS_MAX_HEAD@ + ship_id@ + COMPARTMENTS_MAX_MIDDLE@ + project_id@
            + COMPARTMENTS_MAX_TAIL@,
{
    fill(COMPARTMENTS_MAX_HEAD, ship_id, COMPARTMENTS_MAX_MIDDLE, project_id, COMPARTMENTS_MAX_TAIL)
}

} // verus!
