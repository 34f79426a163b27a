//! Temporal scalar functions of a SQL expression evaluator: extraction of
//! calendar and time-of-day components, month naming, day-ordinal conversion,
//! and date formatting, under a context-dependent policy that turns invalid
//! calendar values into either hard errors or recorded warnings.

pub mod calendar;
pub mod context;
pub mod format;
pub mod funcs;
pub mod temporal;
