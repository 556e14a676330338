//! The rows of the application's tables.

mod list;
mod project;
pub mod record;
pub mod reminder;
mod section;
pub mod task;

pub use list::List;
pub use project::Project;
pub use record::Record;
pub use reminder::Reminder;
pub use section::Section;
pub use task::Task;
