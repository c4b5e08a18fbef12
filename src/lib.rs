//! Assigns attendees to timeslots under an exact-visit rule and per-timeslot
//! capacities, with the search done by the Z3 solver and every model it
//! returns checked against the constraints before it is handed out.
pub mod backend;
pub mod constraint;
pub mod table;
