//! The decisions of the application's windows that do not depend on how they
//! are drawn.

pub mod calendar;
pub mod drag;
pub mod project_header;
pub mod project_page;
pub mod record_create_window;
pub mod scroll;
pub mod search_window;
pub mod task_page;
pub mod task_row;
pub mod tasks_box;
pub mod time_row;
pub mod window;
pub mod task_drag;
