//! The queries and updates that the application runs on its tables.

mod list;
mod project;
mod record;
mod reminder;
mod section;
mod task;

pub use list::{create_list, delete_list, list_indexes, read_list, read_lists, update_list};
pub use project::{
    create_project, delete_project, find_projects, project_indexes, project_shown,
    projects_after_delete, projects_after_update, read_project, read_projects, shift_for_move,
    update_project,
};
pub use record::{
    create_record, delete_record, read_record, read_records, record_selected, update_record,
};
pub use reminder::{
    create_reminder, delete_reminder, pending_reminders, read_reminder, read_reminders,
    reminder_pending, update_reminder,
};
pub use section::{
    create_section, delete_section, read_section, read_sections, section_indexes,
    sections_after_update, update_section,
};
pub use task::{
    after_delete, after_delete_all, checked_total, child_key, children_in_order, create_task,
    deletable_rows, delete_task, gap_closed, live_children, visit_order, without_task, find_tasks, in_tree, new_subtask_position, new_task_position,
    read_subtasks_summary, summary_of, read_task, read_tasks, task_duration, task_found, task_tree,
    enters_section, in_band, positions_after_move, section_positions, shift_band,
    subtask_positions, task_selected, tasks_after_update, update_task,
};
